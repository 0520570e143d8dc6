use vstd::prelude::*;
use crate::document::{Document, Primitive};
use crate::error::Error;
use crate::material::{material_label, material_name};
use crate::mesh::{buffer_views, Indices, accessor_values, read_indices, readable};
use crate::names::{index_label, index_name};
use crate::scene::mesh_node;

verus! {

/// One primitive of a mesh placed in the scene.
#[derive(Debug, Clone)]
pub struct TriMesh {
    /// The mesh's name, shared by all its primitives.
    pub name: String,
    /// The node whose world transform places the mesh.
    pub node: usize,
    /// Index of the accessor that holds the vertex positions.
    pub positions: usize,
    /// Accessors of the optional attributes, each present or absent as the
    /// primitive declares it.
    pub normals: Option<usize>,
    pub tangents: Option<usize>,
    pub colors: Option<usize>,
    pub uvs: Option<usize>,
    pub indices: Indices,
    /// The name of the material the primitive uses.
    pub material_name: String,
}

/// The primitives drawn at node `n`.
pub open spec fn node_primitives(doc: Document, n: usize) -> Seq<Primitive> {
    if mesh_node(doc, n) {
        doc.meshes@[doc.nodes@[n as int].mesh->Some_0 as int].primitives@
    } else {
        Seq::empty()
    }
}

/// The name of mesh `m`: its declared name, else "index m".
pub open spec fn mesh_label(doc: Document, m: usize) -> Seq<char> {
    if doc.meshes@[m as int].name is Some {
        doc.meshes@[m as int].name->Some_0@
    } else {
        index_label(m as nat)
    }
}

/// Whether a primitive can be decoded from the resolved buffers.
pub open spec fn primitive_ok(p: Primitive, buffers: Seq<Seq<u8>>) -> bool {
    p.positions is Some && (p.indices is Some ==> readable(p.indices->Some_0, buffers))
}

/// The error a primitive that cannot be decoded gives.
pub open spec fn primitive_error(p: Primitive) -> Error {
    if p.positions is None {
        Error::PrimitiveMissingPositions
    } else {
        Error::DocumentParseError
    }
}

/// Whether `e` is the error of the first primitive of `ps` that cannot be decoded.
pub open spec fn first_bad_primitive(ps: Seq<Primitive>, bs: Seq<Seq<u8>>, e: Error) -> bool {
    exists|k: int|
        0 <= k < ps.len() && !primitive_ok(ps[k], bs) && e == primitive_error(ps[k]) && forall|j: int|
            0 <= j < k ==> primitive_ok(#[trigger] ps[j], bs)
}

/// Whether `t` is primitive `p` of the mesh at node `n`, decoded.
pub open spec fn is_mesh_of(t: TriMesh, doc: Document, n: usize, p: Primitive, buffers: Seq<Seq<u8>>) -> bool {
    &&& t.name@ == mesh_label(doc, doc.nodes@[n as int].mesh->Some_0)
    &&& t.node == n
    &&& p.positions == Some(t.positions)
    &&& t.normals == p.normals && t.tangents == p.tangents && t.colors == p.colors && t.uvs == p.uvs
    &&& match p.indices {
        None => t.indices is Unindexed,
        Some(acc) => t.indices.has_width(acc.component) && t.indices.values() == accessor_values(acc, buffers),
    }
    &&& t.material_name@ == material_label(doc, p.material)
}

/// The name of mesh `m`.
fn mesh_name(doc: &Document, m: usize) -> (r: String)
    requires
        m < doc.meshes@.len(),
    ensures
        r@ == mesh_label(*doc, m),
{
    match &doc.meshes[m].name {
        Some(n) => n.clone(),
        None => index_name(m),
    }
}

/// Decodes every primitive of the mesh at node `n`, in declared order; the
/// first primitive that cannot be decoded ends the work.
pub fn parse_mesh(doc: &Document, n: usize, buffers: &Vec<Vec<u8>>) -> (r: Result<Vec<TriMesh>, Error>)
    ensures
        ({
            let bs = buffer_views(buffers@);
            let ps = node_primitives(*doc, n);
            if !mesh_node(*doc, n) {
                r == Err::<Vec<TriMesh>, Error>(Error::DocumentParseError)
            } else {
                match r {
                    Ok(v) => v@.len() == ps.len() && forall|k: int|
                        0 <= k < ps.len() ==> primitive_ok(ps[k], bs) && is_mesh_of(
                            #[trigger] v@[k],
                            *doc,
                            n,
                            ps[k],
                            bs,
                        ),
                    Err(e) => first_bad_primitive(ps, bs, e),
                }
            }
        }),
{
    let ghost bs = buffer_views(buffers@);
    if n >= doc.nodes.len() {
        return Err(Error::DocumentParseError);
    }
    let m = match doc.nodes[n].mesh {
        Some(m) => m,
        None => {
            return Err(Error::DocumentParseError);
        },
    };
    if m >= doc.meshes.len() {
        return Err(Error::DocumentParseError);
    }
    let name = mesh_name(doc, m);
    let prims = &doc.meshes[m].primitives;
    let ghost ps = node_primitives(*doc, n);
    assert(ps == prims@);
    let mut out: Vec<TriMesh> = Vec::new();
    let mut k: usize = 0;
    while k < prims.len()
        invariant
            k <= prims@.len(),
            ps == prims@,
            ps == node_primitives(*doc, n),
            mesh_node(*doc, n),
            m == doc.nodes@[n as int].mesh->Some_0,
            name@ == mesh_label(*doc, m),
            bs == buffer_views(buffers@),
            out@.len() == k,
            forall|j: int| 0 <= j < k ==> primitive_ok(#[trigger] ps[j], bs),
            forall|j: int| 0 <= j < k ==> is_mesh_of(#[trigger] out@[j], *doc, n, ps[j], bs),
        decreases prims.len() - k,
    {
        let p = &prims[k];
        let positions = match p.positions {
            Some(a) => a,
            None => {
                proof {
                    let kk = k as int;
                    assert(!primitive_ok(ps[kk], bs) && Error::PrimitiveMissingPositions == primitive_error(ps[kk])
                        && forall|j: int| 0 <= j < kk ==> primitive_ok(#[trigger] ps[j], bs));
                    assert(first_bad_primitive(ps, bs, Error::PrimitiveMissingPositions));
                }
                return Err(Error::PrimitiveMissingPositions);
            },
        };
        let indices = match &p.indices {
            None => Indices::Unindexed,
            Some(acc) => match read_indices(acc, buffers) {
                Ok(ix) => ix,
                Err(e) => {
                    proof {
                        let kk = k as int;
                        assert(!primitive_ok(ps[kk], bs) && e == primitive_error(ps[kk])
                            && forall|j: int| 0 <= j < kk ==> primitive_ok(#[trigger] ps[j], bs));
                        assert(first_bad_primitive(ps, bs, e));
                    }
                    return Err(e);
                },
            },
        };
        let t = TriMesh {
            name: name.clone(),
            node: n,
            positions,
            normals: p.normals,
            tangents: p.tangents,
            colors: p.colors,
            uvs: p.uvs,
            indices,
            material_name: material_name(doc, p.material),
        };
        let ghost before = out@;
        assert(is_mesh_of(t, *doc, n, ps[k as int], bs));
        assert(primitive_ok(ps[k as int], bs));
        out.push(t);
        assert(forall|j: int| 0 <= j < k ==> out@[j] == before[j]);
        k = k + 1;
    }
    Ok(out)
}

} // verus!
