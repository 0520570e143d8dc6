use vstd::prelude::*;
use crate::assets::RawAssets;
use crate::buffers::{BufferSource, bytes_of, resolve_all, resolve_buffers};
use crate::document::{Document, ImageSource, Primitive};
use crate::error::Error;
use crate::geometry::{TriMesh, is_mesh_of, node_primitives, parse_mesh, primitive_error, primitive_ok};
use crate::material::{
    Entries, MaterialPlan, TextureSourceView, imported_lighting, material_label, material_run, parse_material,
    plan_sources,
};
use crate::mesh::buffer_views;
use crate::paths::{parent_dir, parent_of, resolve_uri, resolved};
use crate::scene::{all_mesh_nodes, lemma_walk_scenes_mesh_nodes, mesh_nodes, walk_scenes};

verus! {

/// The flat result of an import: placed mesh primitives, translated
/// materials, and the resolved buffers the vertex data is read from.
#[derive(Debug, Clone)]
pub struct Model {
    pub geometries: Vec<TriMesh>,
    pub materials: Vec<MaterialPlan>,
    pub buffers: Vec<Vec<u8>>,
}

/// Each primitive drawn at the nodes `ns`, with its node, in order.
pub open spec fn placements(doc: Document, ns: Seq<usize>) -> Seq<(usize, Primitive)>
    decreases ns.len(),
{
    if ns.len() == 0 {
        Seq::empty()
    } else {
        let n = ns.last();
        placements(doc, ns.drop_last()) + node_primitives(doc, n).map_values(|p: Primitive| (n, p))
    }
}

/// The placements of the first `j` nodes come first, then those of node `j`.
proof fn lemma_placements_split(doc: Document, ns: Seq<usize>, j: int)
    requires
        0 <= j < ns.len(),
    ensures
        placements(doc, ns).len() >= placements(doc, ns.subrange(0, j)).len() + node_primitives(doc, ns[j]).len(),
        forall|k: int|
            0 <= k < node_primitives(doc, ns[j]).len() ==> placements(doc, ns)[placements(doc, ns.subrange(0, j)).len() + k]
                == (ns[j], #[trigger] node_primitives(doc, ns[j])[k]),
        forall|k: int|
            0 <= k < placements(doc, ns.subrange(0, j)).len() ==> placements(doc, ns)[k]
                == #[trigger] placements(doc, ns.subrange(0, j))[k],
    decreases ns.len(),
{
    if j == ns.len() - 1 {
        assert(ns.drop_last() =~= ns.subrange(0, j));
    } else {
        assert(ns.drop_last().subrange(0, j) =~= ns.subrange(0, j));
        lemma_placements_split(doc, ns.drop_last(), j);
    }
}

/// The texture sources of each plan.
pub open spec fn plan_list(ps: Seq<MaterialPlan>) -> Seq<Seq<Option<TextureSourceView>>> {
    ps.map_values(|p: MaterialPlan| plan_sources(p))
}

/// Translating the first `n` materials in order, stopping at the first
/// failure; with the store entries left.
pub open spec fn materials_run(
    doc: Document,
    n: int,
    base: Seq<char>,
    bs: Seq<Seq<u8>>,
    can_decode: bool,
    entries: Entries,
) -> (Result<Seq<Seq<Option<TextureSourceView>>>, Error>, Entries)
    decreases n,
{
    if n <= 0 {
        (Ok(Seq::empty()), entries)
    } else {
        let (prev, e1) = materials_run(doc, n - 1, base, bs, can_decode, entries);
        match prev {
            Err(e) => (Err(e), e1),
            Ok(done) => {
                let (r, e2) = material_run(doc, n - 1, base, bs, can_decode, e1);
                match r {
                    Ok(x) => (Ok(done.push(x)), e2),
                    Err(e) => (Err(e), e2),
                }
            },
        }
    }
}

proof fn lemma_material_failure_stays(
    doc: Document,
    k: int,
    n: int,
    base: Seq<char>,
    bs: Seq<Seq<u8>>,
    can_decode: bool,
    entries: Entries,
)
    requires
        0 <= k <= n,
        materials_run(doc, k, base, bs, can_decode, entries).0 is Err,
    ensures
        materials_run(doc, n, base, bs, can_decode, entries) == materials_run(doc, k, base, bs, can_decode, entries),
    decreases n - k,
{
    if n > k {
        lemma_material_failure_stays(doc, k, n - 1, base, bs, can_decode, entries);
    }
}

/// Whether `m` holds, over its own buffers, the materials with texture
/// sources `ms`, and every primitive placed in traversal order.
pub open spec fn is_import_of(m: Model, doc: Document, ms: Seq<Seq<Option<TextureSourceView>>>) -> bool {
    let bs = buffer_views(m.buffers@);
    &&& m.materials@.len() == doc.materials@.len()
    &&& plan_list(m.materials@) == ms
    &&& forall|i: int|
        0 <= i < doc.materials@.len() ==> (#[trigger] m.materials@[i]).name@ == material_label(doc, Some(i as usize))
            && m.materials@[i].lighting_model == imported_lighting()
    &&& walk_scenes(doc, doc.scenes@) matches Some(ns) && {
        let pl = placements(doc, ns);
        &&& m.geometries@.len() == pl.len()
        &&& forall|k: int|
            0 <= k < pl.len() ==> is_mesh_of(#[trigger] m.geometries@[k], doc, pl[k].0, pl[k].1, bs)
        &&& forall|k: int| 0 <= k < pl.len() ==> primitive_ok(#[trigger] pl[k].1, bs)
    }
}

/// Whether `e` is the error of the first placed primitive that cannot be decoded.
pub open spec fn first_primitive_failure(e: Error, doc: Document, ns: Seq<usize>, bs: Seq<Seq<u8>>) -> bool {
    let pl = placements(doc, ns);
    exists|k: int|
        0 <= k < pl.len() && !primitive_ok(pl[k].1, bs) && e == primitive_error(pl[k].1) && forall|j: int|
            0 <= j < k ==> primitive_ok(#[trigger] pl[j].1, bs)
}

/// Imports a parsed document found at `path`: resolves its buffers (taking the
/// blob and the store entries they use), translates its materials (taking
/// the store entries their textures use), and places every mesh primitive
/// met in scene order. The first failure aborts the import.
#[verifier::rlimit(60)]
pub fn deserialize_gltf(
    doc: &Document,
    path: &str,
    blob: Option<Vec<u8>>,
    assets: &mut RawAssets,
    can_decode: bool,
) -> (r: Result<Model, Error>)
    ensures
        ({
            let base = parent_of(path@);
            let (res, blob2, entries2) = resolve_all(doc.buffers@, base, bytes_of(blob), old(assets)@);
            match res {
                Err(e0) => r == Err::<Model, Error>(e0) && final(assets)@ == entries2,
                Ok(bs) => {
                    let (mr, entries3) = materials_run(*doc, doc.materials@.len() as int, base, bs, can_decode, entries2);
                    &&& final(assets)@ == entries3
                    &&& match mr {
                        Err(e1) => r == Err::<Model, Error>(e1),
                        Ok(ms) => match walk_scenes(*doc, doc.scenes@) {
                            None => r == Err::<Model, Error>(Error::DocumentParseError),
                            Some(ns) => match r {
                                Ok(m) => buffer_views(m.buffers@) == bs && is_import_of(m, *doc, ms),
                                Err(e) => first_primitive_failure(e, *doc, ns, bs),
                            },
                        },
                    }
                },
            }
        }),
{
    let ghost blob0 = bytes_of(blob);
    let base = parent_dir(path);
    let mut held = blob;
    let buffers = match resolve_buffers(&doc.buffers, base.as_str(), &mut held, assets) {
        Ok(b) => b,
        Err(e) => {
            return Err(e);
        },
    };
    let ghost bs = buffer_views(buffers@);
    let ghost outcome = resolve_all(doc.buffers@, base@, blob0, old(assets)@);
    let mut materials: Vec<MaterialPlan> = Vec::new();
    let mut i: usize = 0;
    assert(plan_list(materials@) =~= Seq::<Seq<Option<TextureSourceView>>>::empty());
    while i < doc.materials.len()
        invariant
            i <= doc.materials@.len(),
            materials@.len() == i,
            bs == buffer_views(buffers@),
            base@ == parent_of(path@),
            outcome == resolve_all(doc.buffers@, base@, blob0, old(assets)@),
            blob0 == bytes_of(blob),
            outcome.0 == Ok::<Seq<Seq<u8>>, Error>(bs),
            materials_run(*doc, i as int, base@, bs, can_decode, outcome.2) == (
                Ok::<Seq<Seq<Option<TextureSourceView>>>, Error>(plan_list(materials@)),
                assets@,
            ),
            forall|j: int|
                0 <= j < i ==> (#[trigger] materials@[j]).name@ == material_label(*doc, Some(j as usize))
                    && materials@[j].lighting_model == imported_lighting(),
        decreases doc.materials.len() - i,
    {
        match parse_material(doc, i, base.as_str(), &buffers, can_decode, assets) {
            Ok(p) => {
                let ghost before = materials@;
                materials.push(p);
                assert(plan_list(materials@) =~= plan_list(before).push(plan_sources(p)));
            },
            Err(e) => {
                proof {
                    lemma_material_failure_stays(*doc, i as int + 1, doc.materials@.len() as int, base@, bs, can_decode, outcome.2);
                }
                return Err(e);
            },
        }
        i = i + 1;
    }
    let ns = match mesh_nodes(doc) {
        Ok(ns) => {
            proof {
                lemma_walk_scenes_mesh_nodes(*doc, doc.scenes@);
            }
            ns
        },
        Err(e) => {
            return Err(e);
        },
    };
    let mut geometries: Vec<TriMesh> = Vec::new();
    let mut j: usize = 0;
    assert(ns@.subrange(0, 0) =~= Seq::<usize>::empty());
    while j < ns.len()
        invariant
            j <= ns@.len(),
            walk_scenes(*doc, doc.scenes@) == Some(ns@),
            materials_run(*doc, doc.materials@.len() as int, base@, bs, can_decode, outcome.2) == (
                Ok::<Seq<Seq<Option<TextureSourceView>>>, Error>(plan_list(materials@)),
                assets@,
            ),
            all_mesh_nodes(*doc, ns@),
            base@ == parent_of(path@),
            outcome == resolve_all(doc.buffers@, base@, blob0, old(assets)@),
            blob0 == bytes_of(blob),
            outcome.0 == Ok::<Seq<Seq<u8>>, Error>(bs),
            materials@.len() == doc.materials@.len(),
            forall|i: int|
                0 <= i < doc.materials@.len() ==> (#[trigger] materials@[i]).name@ == material_label(*doc, Some(i as usize))
                    && materials@[i].lighting_model == imported_lighting(),
            bs == buffer_views(buffers@),
            geometries@.len() == placements(*doc, ns@.subrange(0, j as int)).len(),
            forall|k: int|
                0 <= k < geometries@.len() ==> is_mesh_of(
                    #[trigger] geometries@[k],
                    *doc,
                    placements(*doc, ns@.subrange(0, j as int))[k].0,
                    placements(*doc, ns@.subrange(0, j as int))[k].1,
                    bs,
                ),
            forall|k: int|
                0 <= k < placements(*doc, ns@.subrange(0, j as int)).len() ==> primitive_ok(
                    #[trigger] placements(*doc, ns@.subrange(0, j as int))[k].1,
                    bs,
                ),
        decreases ns.len() - j,
    {
        let ghost pre = ns@.subrange(0, j as int);
        let ghost next = ns@.subrange(0, j as int + 1);
        assert(next.drop_last() =~= pre);
        let n = ns[j];
        match parse_mesh(doc, n, &buffers) {
            Ok(mut v) => {
                let ghost old_g = geometries@;
                let ghost vv = v@;
                geometries.append(&mut v);
                proof {
                    let pl = placements(*doc, next);
                    let ps = node_primitives(*doc, n);
                    assert(pl == placements(*doc, pre) + ps.map_values(|p: Primitive| (n, p)));
                    assert(old_g.len() == placements(*doc, pre).len());
                    assert forall|k: int| 0 <= k < geometries@.len() implies is_mesh_of(
                        #[trigger] geometries@[k],
                        *doc,
                        pl[k].0,
                        pl[k].1,
                        bs,
                    ) by {
                        if k >= old_g.len() {
                            assert(geometries@[k] == vv[k - old_g.len()]);
                        } else {
                            assert(geometries@[k] == old_g[k]);
                            assert(pl[k] == placements(*doc, pre)[k]);
                        }
                    }
                    assert forall|k: int| 0 <= k < pl.len() implies primitive_ok(#[trigger] pl[k].1, bs) by {
                        if k >= old_g.len() {
                            assert(pl[k].1 == ps[k - old_g.len()]);
                            assert(is_mesh_of(vv[k - old_g.len()], *doc, n, ps[k - old_g.len()], bs));
                        } else {
                            assert(pl[k] == placements(*doc, pre)[k]);
                        }
                    }
                }
            },
            Err(e) => {
                proof {
                    let ps = node_primitives(*doc, n);
                    let k = choose|k: int|
                        0 <= k < ps.len() && !primitive_ok(ps[k], bs) && e == primitive_error(ps[k]) && forall|j: int|
                            0 <= j < k ==> primitive_ok(#[trigger] ps[j], bs);
                    lemma_placements_split(*doc, ns@, j as int);
                    let before = placements(*doc, pre).len();
                    assert(placements(*doc, ns@)[before + k].1 == ps[k]);
                    assert(!primitive_ok(placements(*doc, ns@)[before + k].1, bs));
                    let pl = placements(*doc, ns@);
                    assert forall|x: int| 0 <= x < before + k implies primitive_ok(#[trigger] pl[x].1, bs) by {
                        if x < before {
                            assert(pl[x] == placements(*doc, pre)[x]);
                        } else {
                            assert(pl[x].1 == ps[x - before]);
                        }
                    }
                    assert(first_primitive_failure(e, *doc, ns@, bs));
                }
                return Err(e);
            },
        }
        j = j + 1;
    }
    assert(ns@.subrange(0, j as int) =~= ns@);
    Ok(Model { geometries, materials, buffers })
}

/// The store keys as strings.
pub open spec fn key_views(v: Seq<String>) -> Seq<Seq<char>> {
    v.map_values(|s: String| s@)
}

/// Whether `x` is where a buffer or a texture of `doc` points, read from the
/// directory `base`.
pub open spec fn referenced(doc: Document, base: Seq<char>, x: Seq<char>) -> bool {
    (exists|i: int|
        0 <= i < doc.buffers@.len() && (#[trigger] doc.buffers@[i]).source is Uri && resolved(
            base,
            doc.buffers@[i].source->Uri_0@,
        ) == x) || (exists|i: int|
        0 <= i < doc.textures@.len() && (#[trigger] doc.textures@[i]) is Uri && resolved(
            base,
            doc.textures@[i]->Uri_0@,
        ) == x)
}

fn push_unique(out: &mut Vec<String>, key: String)
    requires
        old(out)@.len() < usize::MAX,
        key_views(old(out)@).no_duplicates(),
    ensures
        key_views(final(out)@).no_duplicates(),
        key_views(final(out)@).to_set() == key_views(old(out)@).to_set().insert(key@),
        final(out)@.len() <= old(out)@.len() + 1,
{
    let mut i: usize = 0;
    while i < out.len()
        invariant
            i <= out@.len(),
            out@ == old(out)@,
            key_views(out@).no_duplicates(),
            forall|j: int| 0 <= j < i ==> out@[j]@ != key@,
        decreases out.len() - i,
    {
        if out[i] == key {
            proof {
                assert(key_views(out@)[i as int] == key@);
                assert(key_views(out@).to_set() =~= key_views(out@).to_set().insert(key@));
            }
            return;
        }
        i = i + 1;
    }
    let ghost before = key_views(out@);
    out.push(key);
    proof {
        assert(key_views(out@) =~= before.push(key@));
        assert(!before.contains(key@)) by {
            if before.contains(key@) {
                let j = choose|j: int| 0 <= j < before.len() && before[j] == key@;
                assert(out@[j]@ == before[j]);
            }
        }
        before.lemma_push_to_set_commute(key@);
        assert forall|a: int, b: int| 0 <= a < b < key_views(out@).len() implies key_views(out@)[a] != key_views(out@)[b] by {
            if b == before.len() {
                assert(before[a] == key_views(out@)[a]);
            }
        }
    }
}

/// Every external path a document references, each once: the targets of
/// its buffers' and textures' URIs, read from the directory of `path` (a data
/// URL stands for itself). Nothing is fetched or decoded.
pub fn dependencies(doc: &Document, path: &str) -> (r: Vec<String>)
    requires
        doc.buffers@.len() + doc.textures@.len() < usize::MAX,
    ensures
        key_views(r@).no_duplicates(),
        forall|x: Seq<char>| key_views(r@).contains(x) <==> referenced(*doc, parent_of(path@), x),
{
    let base = parent_dir(path);
    let mut out: Vec<String> = Vec::new();
    let mut i: usize = 0;
    assert(key_views(out@) =~= Seq::<Seq<char>>::empty());
    while i < doc.buffers.len()
        invariant
            i <= doc.buffers@.len(),
            out@.len() <= i,
            doc.buffers@.len() + doc.textures@.len() < usize::MAX,
            key_views(out@).no_duplicates(),
            forall|x: Seq<char>| key_views(out@).contains(x) <==> (exists|j: int|
                0 <= j < i && (#[trigger] doc.buffers@[j]).source is Uri && resolved(base@, doc.buffers@[j].source->Uri_0@) == x),
        decreases doc.buffers.len() - i,
    {
        let ghost before = key_views(out@);
        match &doc.buffers[i].source {
            BufferSource::Uri(u) => {
                push_unique(&mut out, resolve_uri(base.as_str(), u.as_str()));
            },
            BufferSource::Bin => {},
        }
        proof {
            assert forall|x: Seq<char>| key_views(out@).contains(x) <==> (exists|j: int|
                0 <= j < i + 1 && (#[trigger] doc.buffers@[j]).source is Uri && resolved(base@, doc.buffers@[j].source->Uri_0@) == x) by {
                assert(key_views(out@).contains(x) == key_views(out@).to_set().contains(x));
                assert(before.contains(x) == before.to_set().contains(x));
            }
        }
        i = i + 1;
    }
    let mut t: usize = 0;
    while t < doc.textures.len()
        invariant
            t <= doc.textures@.len(),
            out@.len() <= doc.buffers@.len() + t,
            doc.buffers@.len() + doc.textures@.len() < usize::MAX,
            key_views(out@).no_duplicates(),
            forall|x: Seq<char>| key_views(out@).contains(x) <==> ((exists|j: int|
                0 <= j < doc.buffers@.len() && (#[trigger] doc.buffers@[j]).source is Uri && resolved(base@, doc.buffers@[j].source->Uri_0@) == x)
                || (exists|j: int| 0 <= j < t && (#[trigger] doc.textures@[j]) is Uri && resolved(base@, doc.textures@[j]->Uri_0@) == x)),
        decreases doc.textures.len() - t,
    {
        let ghost before = key_views(out@);
        match &doc.textures[t] {
            ImageSource::Uri(u) => {
                push_unique(&mut out, resolve_uri(base.as_str(), u.as_str()));
            },
            ImageSource::View { .. } => {},
        }
        proof {
            assert forall|x: Seq<char>| key_views(out@).contains(x) <==> ((exists|j: int|
                0 <= j < doc.buffers@.len() && (#[trigger] doc.buffers@[j]).source is Uri && resolved(base@, doc.buffers@[j].source->Uri_0@) == x)
                || (exists|j: int| 0 <= j < t + 1 && (#[trigger] doc.textures@[j]) is Uri && resolved(base@, doc.textures@[j]->Uri_0@) == x)) by {
                assert(key_views(out@).contains(x) == key_views(out@).to_set().contains(x));
                assert(before.contains(x) == before.to_set().contains(x));
            }
        }
        t = t + 1;
    }
    out
}

} // verus!
