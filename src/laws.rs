use vstd::prelude::*;
use crate::assets::{find_key, keys_unique, lemma_find_key_bounds, removed};
use crate::error::Error;
use crate::geometry::{primitive_error, primitive_ok};
use crate::buffers::{BufferDesc, BufferSource, padded, resolve_all, resolve_one};
use crate::paths::resolved;
use crate::document::Document;
use crate::geometry::{TriMesh, is_mesh_of, node_primitives};
use crate::import::{Model, first_primitive_failure, is_import_of, placements, plan_list};
use crate::material::{TextureSourceView, plan_sources};
use crate::mesh::buffer_views;
use crate::mesh::{Indices, ints_of_u16, ints_of_u32, ints_of_u8};
use crate::scene::{walk, walk_list, walk_scenes};

verus! {

/// A node that draws one primitive and has no children.
pub open spec fn single_leaf(doc: Document, n: usize) -> bool {
    &&& n < doc.nodes@.len()
    &&& doc.nodes@[n as int].mesh is Some
    &&& doc.nodes@[n as int].mesh->Some_0 < doc.meshes@.len()
    &&& doc.nodes@[n as int].children@.len() == 0
    &&& !doc.nodes@[n as int].singular
    &&& doc.meshes@[doc.nodes@[n as int].mesh->Some_0 as int].primitives@.len() == 1
}

proof fn lemma_leaves_walk(doc: Document, ns: Seq<usize>, fuel: nat)
    requires
        fuel > 0,
        forall|k: int| 0 <= k < ns.len() ==> single_leaf(doc, #[trigger] ns[k]),
    ensures
        walk_list(doc, ns, fuel) == Some(ns),
        placements(doc, ns).len() == ns.len(),
        forall|k: int| 0 <= k < ns.len() ==> (#[trigger] placements(doc, ns)[k]).0 == ns[k],
    decreases ns.len(),
{
    if ns.len() > 0 {
        let n = ns.last();
        assert(single_leaf(doc, ns[ns.len() - 1]));
        lemma_leaves_walk(doc, ns.drop_last(), fuel);
        assert(walk_list(doc, doc.nodes@[n as int].children@, (fuel - 1) as nat) == Some(Seq::<usize>::empty()));
        assert(walk(doc, n, fuel) == Some(seq![n]));
        assert(ns.drop_last() + seq![n] =~= ns);
        let tail = node_primitives(doc, n).map_values(|p: crate::document::Primitive| (n, p));
        assert(tail.len() == 1);
        assert forall|k: int| 0 <= k < ns.len() implies (#[trigger] placements(doc, ns)[k]).0 == ns[k] by {
            if k < ns.len() - 1 {
                assert(placements(doc, ns)[k] == placements(doc, ns.drop_last())[k]);
            } else {
                assert(placements(doc, ns)[k] == tail[0]);
            }
        }
    }
}

/// A scene whose root nodes each draw one primitive yields one placement per
/// root, in the order the roots are declared.
pub proof fn law_roots_keep_order(doc: Document)
    requires
        doc.scenes@.len() == 1,
        forall|k: int| 0 <= k < doc.scenes@[0]@.len() ==> single_leaf(doc, #[trigger] doc.scenes@[0]@[k]),
    ensures
        walk_scenes(doc, doc.scenes@) == Some(doc.scenes@[0]@),
        placements(doc, doc.scenes@[0]@).len() == doc.scenes@[0]@.len(),
        forall|k: int|
            0 <= k < doc.scenes@[0]@.len() ==> (#[trigger] placements(doc, doc.scenes@[0]@)[k]).0
                == doc.scenes@[0]@[k],
{
    let roots = doc.scenes@[0]@;
    if roots.len() > 0 {
        assert(single_leaf(doc, roots[0]));
    }
    let fuel = doc.nodes@.len();
    if fuel == 0 {
        assert(roots.len() == 0);
        assert(walk_list(doc, roots, fuel) == Some(Seq::<usize>::empty()));
        assert(roots =~= Seq::<usize>::empty());
    } else {
        lemma_leaves_walk(doc, roots, fuel);
    }
    assert(doc.scenes@.drop_last() =~= Seq::<Vec<usize>>::empty());
    assert(walk_scenes(doc, doc.scenes@.drop_last()) == Some(Seq::<usize>::empty()));
    assert(doc.scenes@.last() == doc.scenes@[0]);
    assert(Seq::<usize>::empty() + roots =~= roots);
}

/// A node whose transform is singular contributes nothing, whatever lies
/// below it.
pub proof fn law_singular_node_culled(doc: Document, n: usize, fuel: nat)
    requires
        fuel > 0,
        n < doc.nodes@.len(),
        doc.nodes@[n as int].singular,
        doc.nodes@[n as int].mesh is Some ==> doc.nodes@[n as int].mesh->Some_0 < doc.meshes@.len(),
    ensures
        walk(doc, n, fuel) == Some(Seq::<usize>::empty()),
{
}

/// After padding, a buffer's length is the next multiple of 4, its bytes come
/// first and the added bytes are zero.
pub proof fn law_padding(s: Seq<u8>)
    ensures
        padded(s).len() % 4 == 0,
        s.len() <= padded(s).len() < s.len() + 4,
        padded(s).subrange(0, s.len() as int) == s,
        forall|i: int| s.len() <= i < padded(s).len() ==> padded(s)[i] == 0u8,
{
    assert(padded(s).subrange(0, s.len() as int) =~= s);
}

/// Every resolved buffer has a length that is a multiple of 4, at least the
/// declared length, and is the fetched bytes followed by zeros.
pub proof fn law_resolved_buffers_padded(
    descs: Seq<BufferDesc>,
    base: Seq<char>,
    blob: Option<Seq<u8>>,
    entries: Seq<(Seq<char>, Seq<u8>)>,
)
    ensures
        resolve_all(descs, base, blob, entries).0 matches Ok(bs) ==> {
            &&& bs.len() == descs.len()
            &&& forall|j: int|
                0 <= j < bs.len() ==> (#[trigger] bs[j]).len() % 4 == 0 && descs[j].length <= bs[j].len()
                    && exists|d: Seq<u8>| d.len() >= descs[j].length && bs[j] == padded(d)
        },
    decreases descs.len(),
{
    if descs.len() > 0 {
        law_resolved_buffers_padded(descs.drop_last(), base, blob, entries);
        let (prev, blob1, entries1) = resolve_all(descs.drop_last(), base, blob, entries);
        if let Ok(done) = prev {
            let (r, blob2, entries2) = resolve_one(descs.last(), base, blob1, entries1);
            if let Ok(d) = r {
                let fetched = match descs.last().source {
                    BufferSource::Uri(u) => removed(entries1, resolved(base, u@)).0->Ok_0,
                    BufferSource::Bin => blob1->Some_0,
                };
                law_padding(fetched);
                let bs = done.push(d);
                assert forall|j: int| 0 <= j < bs.len() implies (#[trigger] bs[j]).len() % 4 == 0 && descs[j].length
                    <= bs[j].len() && exists|x: Seq<u8>| x.len() >= descs[j].length && bs[j] == padded(x) by {
                    if j < done.len() {
                        assert(bs[j] == done[j]);
                        assert(descs[j] == descs.drop_last()[j]);
                    } else {
                        assert(bs[j] == padded(fetched));
                    }
                }
            }
        }
    }
}

/// Taking an entry out of a store whose keys are unique leaves the keys
/// unique and the key gone.
pub proof fn law_removal_consumes(entries: Seq<(Seq<char>, Seq<u8>)>, key: Seq<char>)
    requires
        keys_unique(entries),
    ensures
        keys_unique(removed(entries, key).1),
        find_key(removed(entries, key).1, key) < 0,
{
    lemma_find_key_bounds(entries, key);
    let k = find_key(entries, key);
    if k >= 0 {
        let rest = entries.remove(k);
        lemma_find_key_bounds(rest, key);
        let f = find_key(rest, key);
        if f >= 0 {
            if f < k {
                assert(rest[f] == entries[f]);
            } else {
                assert(rest[f] == entries[f + 1]);
            }
        }
        assert forall|i: int, j: int| 0 <= i < j < rest.len() implies rest[i].0 != rest[j].0 by {
            let oi = if i < k { i } else { i + 1 };
            let oj = if j < k { j } else { j + 1 };
            assert(rest[i] == entries[oi]);
            assert(rest[j] == entries[oj]);
        }
    } else {
        lemma_find_key_bounds(entries, key);
    }
}

/// A failing import fails with one error only: the first primitive that
/// cannot be decoded fixes it.
pub proof fn law_first_failure_unique(e1: Error, e2: Error, doc: Document, ns: Seq<usize>, bs: Seq<Seq<u8>>)
    requires
        first_primitive_failure(e1, doc, ns, bs),
        first_primitive_failure(e2, doc, ns, bs),
    ensures
        e1 == e2,
{
    let pl = placements(doc, ns);
    let k1 = choose|k: int|
        0 <= k < pl.len() && !primitive_ok(pl[k].1, bs) && e1 == primitive_error(pl[k].1) && forall|j: int|
            0 <= j < k ==> primitive_ok(#[trigger] pl[j].1, bs);
    let k2 = choose|k: int|
        0 <= k < pl.len() && !primitive_ok(pl[k].1, bs) && e2 == primitive_error(pl[k].1) && forall|j: int|
            0 <= j < k ==> primitive_ok(#[trigger] pl[j].1, bs);
    if k1 < k2 {
        assert(primitive_ok(pl[k1].1, bs));
    } else if k2 < k1 {
        assert(primitive_ok(pl[k2].1, bs));
    }
}

/// The parts of a placed mesh that its contract fixes.
pub open spec fn mesh_summary(t: TriMesh) -> (Seq<char>, usize, usize, Seq<int>, Seq<char>, Seq<Option<usize>>) {
    (t.name@, t.node, t.positions, t.indices.values(), t.material_name@, seq![t.normals, t.tangents, t.colors, t.uvs])
}

/// Two meshes that decode the same primitive at the same node agree in every
/// field: decoding is a function of the document and the buffers.
pub proof fn law_decoding_deterministic(
    a: TriMesh,
    b: TriMesh,
    doc: Document,
    n: usize,
    p: crate::document::Primitive,
    bs: Seq<Seq<u8>>,
)
    requires
        is_mesh_of(a, doc, n, p, bs),
        is_mesh_of(b, doc, n, p, bs),
    ensures
        mesh_summary(a) == mesh_summary(b),
        a.indices.values() == b.indices.values(),
        match (a.indices, b.indices) {
            (Indices::Unindexed, Indices::Unindexed) => true,
            (Indices::U8(x), Indices::U8(y)) => x@ == y@,
            (Indices::U16(x), Indices::U16(y)) => x@ == y@,
            (Indices::U32(x), Indices::U32(y)) => x@ == y@,
            _ => false,
        },
{
    match (a.indices, b.indices) {
        (Indices::U8(x), Indices::U8(y)) => {
            assert(a.indices.values() == b.indices.values());
            assert(ints_of_u8(x@) == ints_of_u8(y@));
            assert(ints_of_u8(x@).len() == x@.len());
            assert(x@.len() == y@.len());
            assert forall|i: int| 0 <= i < x@.len() implies x@[i] == y@[i] by {
                assert(ints_of_u8(x@)[i] == ints_of_u8(y@)[i]);
            }
            assert(x@ =~= y@);
        },
        (Indices::U16(x), Indices::U16(y)) => {
            assert(a.indices.values() == b.indices.values());
            assert(ints_of_u16(x@) == ints_of_u16(y@));
            assert(ints_of_u16(x@).len() == x@.len());
            assert(x@.len() == y@.len());
            assert forall|i: int| 0 <= i < x@.len() implies x@[i] == y@[i] by {
                assert(ints_of_u16(x@)[i] == ints_of_u16(y@)[i]);
            }
            assert(x@ =~= y@);
        },
        (Indices::U32(x), Indices::U32(y)) => {
            assert(a.indices.values() == b.indices.values());
            assert(ints_of_u32(x@) == ints_of_u32(y@));
            assert(ints_of_u32(x@).len() == x@.len());
            assert(x@.len() == y@.len());
            assert forall|i: int| 0 <= i < x@.len() implies x@[i] == y@[i] by {
                assert(ints_of_u32(x@)[i] == ints_of_u32(y@)[i]);
            }
            assert(x@ =~= y@);
        },
        _ => {},
    }
}

/// Two imports of the same document, over the same buffer contents and
/// with the same texture sources, agree: the same materials, and the same
/// meshes in the same order.
pub proof fn law_import_deterministic(m1: Model, m2: Model, doc: Document, ms: Seq<Seq<Option<TextureSourceView>>>)
    requires
        buffer_views(m1.buffers@) == buffer_views(m2.buffers@),
        is_import_of(m1, doc, ms),
        is_import_of(m2, doc, ms),
    ensures
        m1.materials@.len() == m2.materials@.len(),
        forall|i: int|
            0 <= i < m1.materials@.len() ==> (#[trigger] m1.materials@[i]).name@ == m2.materials@[i].name@
                && plan_sources(m1.materials@[i]) == plan_sources(m2.materials@[i])
                && m1.materials@[i].lighting_model == m2.materials@[i].lighting_model,
        m1.geometries@.len() == m2.geometries@.len(),
        forall|k: int|
            0 <= k < m1.geometries@.len() ==> mesh_summary(#[trigger] m1.geometries@[k]) == mesh_summary(
                m2.geometries@[k],
            ),
{
    let bs = buffer_views(m1.buffers@);
    assert forall|i: int| 0 <= i < m1.materials@.len() implies (#[trigger] m1.materials@[i]).name@
        == m2.materials@[i].name@ && plan_sources(m1.materials@[i]) == plan_sources(m2.materials@[i])
        && m1.materials@[i].lighting_model == m2.materials@[i].lighting_model by {
        assert(plan_list(m1.materials@)[i] == plan_sources(m1.materials@[i]));
        assert(plan_list(m2.materials@)[i] == plan_sources(m2.materials@[i]));
    }
    let ns = walk_scenes(doc, doc.scenes@)->Some_0;
    let pl = placements(doc, ns);
    assert forall|k: int| 0 <= k < m1.geometries@.len() implies mesh_summary(#[trigger] m1.geometries@[k])
        == mesh_summary(m2.geometries@[k]) by {
        law_decoding_deterministic(m1.geometries@[k], m2.geometries@[k], doc, pl[k].0, pl[k].1, bs);
    }
}

} // verus!
