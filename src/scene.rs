use vstd::prelude::*;
use crate::document::Document;
use crate::error::Error;

verus! {

/// The nodes that carry a mesh, met depth first from node `n` in declared
/// order; a singular node hides its whole subtree. `None` where a node index is
/// out of range or the hierarchy is deeper than `fuel`.
pub open spec fn walk(doc: Document, n: usize, fuel: nat) -> Option<Seq<usize>>
    decreases fuel, 0nat,
{
    if fuel == 0 || n >= doc.nodes@.len() {
        None
    } else {
        let node = doc.nodes@[n as int];
        if node.mesh is Some && node.mesh->Some_0 >= doc.meshes@.len() {
            None
        } else if node.singular {
            Some(Seq::empty())
        } else {
            let own = if node.mesh is Some {
                seq![n]
            } else {
                Seq::empty()
            };
            match walk_list(doc, node.children@, (fuel - 1) as nat) {
                Some(s) => Some(own + s),
                None => None,
            }
        }
    }
}

/// `walk` over each node of `ns` in turn, results joined.
pub open spec fn walk_list(doc: Document, ns: Seq<usize>, fuel: nat) -> Option<Seq<usize>>
    decreases fuel, ns.len() + 1,
{
    if ns.len() == 0 {
        Some(Seq::empty())
    } else {
        match walk_list(doc, ns.drop_last(), fuel) {
            None => None,
            Some(a) => match walk(doc, ns.last(), fuel) {
                None => None,
                Some(b) => Some(a + b),
            },
        }
    }
}

/// The nodes that carry a mesh over all scenes of `doc`, in traversal order.
pub open spec fn walk_scenes(doc: Document, scenes: Seq<Vec<usize>>) -> Option<Seq<usize>>
    decreases scenes.len(),
{
    if scenes.len() == 0 {
        Some(Seq::empty())
    } else {
        match walk_scenes(doc, scenes.drop_last()) {
            None => None,
            Some(a) => match walk_list(doc, scenes.last()@, doc.nodes@.len()) {
                None => None,
                Some(b) => Some(a + b),
            },
        }
    }
}

/// Whether node `n` exists and carries a mesh that exists.
pub open spec fn mesh_node(doc: Document, n: usize) -> bool {
    n < doc.nodes@.len() && doc.nodes@[n as int].mesh is Some && doc.nodes@[n as int].mesh->Some_0
        < doc.meshes@.len()
}

/// Whether every node of `s` carries a mesh that exists.
pub open spec fn all_mesh_nodes(doc: Document, s: Seq<usize>) -> bool {
    forall|i: int| 0 <= i < s.len() ==> mesh_node(doc, #[trigger] s[i])
}

proof fn lemma_join_mesh_nodes(doc: Document, a: Seq<usize>, b: Seq<usize>)
    requires
        all_mesh_nodes(doc, a),
        all_mesh_nodes(doc, b),
    ensures
        all_mesh_nodes(doc, a + b),
{
    assert forall|i: int| 0 <= i < (a + b).len() implies mesh_node(doc, #[trigger] (a + b)[i]) by {
        if i >= a.len() {
            assert((a + b)[i] == b[i - a.len()]);
        } else {
            assert((a + b)[i] == a[i]);
        }
    }
}

/// Every node that `walk` yields carries a mesh that exists.
pub proof fn lemma_walk_mesh_nodes(doc: Document, n: usize, fuel: nat)
    ensures
        walk(doc, n, fuel) matches Some(s) ==> all_mesh_nodes(doc, s),
    decreases fuel, 0nat,
{
    if fuel > 0 && n < doc.nodes@.len() {
        let node = doc.nodes@[n as int];
        if !(node.mesh is Some && node.mesh->Some_0 >= doc.meshes@.len()) && !node.singular {
            lemma_walk_list_mesh_nodes(doc, node.children@, (fuel - 1) as nat);
            let own = if node.mesh is Some {
                seq![n]
            } else {
                Seq::<usize>::empty()
            };
            assert(all_mesh_nodes(doc, own));
            if let Some(s) = walk_list(doc, node.children@, (fuel - 1) as nat) {
                lemma_join_mesh_nodes(doc, own, s);
            }
        }
    }
}

/// Every node that `walk_list` yields carries a mesh that exists.
pub proof fn lemma_walk_list_mesh_nodes(doc: Document, ns: Seq<usize>, fuel: nat)
    ensures
        walk_list(doc, ns, fuel) matches Some(s) ==> all_mesh_nodes(doc, s),
    decreases fuel, ns.len() + 1,
{
    if ns.len() > 0 {
        lemma_walk_list_mesh_nodes(doc, ns.drop_last(), fuel);
        lemma_walk_mesh_nodes(doc, ns.last(), fuel);
        if let (Some(a), Some(b)) = (walk_list(doc, ns.drop_last(), fuel), walk(doc, ns.last(), fuel)) {
            lemma_join_mesh_nodes(doc, a, b);
        }
    }
}

/// Every node that `walk_scenes` yields carries a mesh that exists.
pub proof fn lemma_walk_scenes_mesh_nodes(doc: Document, scenes: Seq<Vec<usize>>)
    ensures
        walk_scenes(doc, scenes) matches Some(s) ==> all_mesh_nodes(doc, s),
    decreases scenes.len(),
{
    if scenes.len() > 0 {
        lemma_walk_scenes_mesh_nodes(doc, scenes.drop_last());
        lemma_walk_list_mesh_nodes(doc, scenes.last()@, doc.nodes@.len());
        if let (Some(a), Some(b)) = (
            walk_scenes(doc, scenes.drop_last()),
            walk_list(doc, scenes.last()@, doc.nodes@.len()),
        ) {
            lemma_join_mesh_nodes(doc, a, b);
        }
    }
}

proof fn lemma_list_failure_stays(doc: Document, ns: Seq<usize>, k: int, fuel: nat)
    requires
        0 <= k <= ns.len(),
        walk_list(doc, ns.subrange(0, k), fuel) is None,
    ensures
        walk_list(doc, ns, fuel) is None,
    decreases ns.len(),
{
    if ns.len() == k {
        assert(ns.subrange(0, k) =~= ns);
    } else {
        assert(ns.drop_last().subrange(0, k) =~= ns.subrange(0, k));
        lemma_list_failure_stays(doc, ns.drop_last(), k, fuel);
    }
}

proof fn lemma_scene_failure_stays(doc: Document, ss: Seq<Vec<usize>>, k: int)
    requires
        0 <= k <= ss.len(),
        walk_scenes(doc, ss.subrange(0, k)) is None,
    ensures
        walk_scenes(doc, ss) is None,
    decreases ss.len(),
{
    if ss.len() == k {
        assert(ss.subrange(0, k) =~= ss);
    } else {
        assert(ss.drop_last().subrange(0, k) =~= ss.subrange(0, k));
        lemma_scene_failure_stays(doc, ss.drop_last(), k);
    }
}

/// Appends to `out` the nodes below `ns` that carry a mesh, depth first.
fn parse_list(doc: &Document, ns: &Vec<usize>, fuel: usize, out: &mut Vec<usize>) -> (r: Result<(), Error>)
    ensures
        match walk_list(*doc, ns@, fuel as nat) {
            Some(s) => r is Ok && final(out)@ == old(out)@ + s,
            None => r == Err::<(), Error>(Error::DocumentParseError),
        },
        old(out)@.is_prefix_of(final(out)@),
    decreases fuel, 1nat,
{
    let mut j: usize = 0;
    assert(ns@.subrange(0, 0) =~= Seq::<usize>::empty());
    assert(old(out)@ + Seq::<usize>::empty() =~= old(out)@);
    while j < ns.len()
        invariant
            j <= ns@.len(),
            walk_list(*doc, ns@.subrange(0, j as int), fuel as nat) matches Some(s) && out@ == old(out)@ + s,
            old(out)@.is_prefix_of(out@),
        decreases ns.len() - j,
    {
        let ghost pre = ns@.subrange(0, j as int + 1);
        assert(pre.drop_last() =~= ns@.subrange(0, j as int));
        let ghost before = out@;
        match parse_tree(doc, ns[j], fuel, out) {
            Ok(()) => {
                assert(out@ =~= old(out)@ + walk_list(*doc, pre, fuel as nat)->Some_0);
            },
            Err(e) => {
                proof {
                    lemma_list_failure_stays(*doc, ns@, j + 1, fuel as nat);
                }
                return Err(e);
            },
        }
        j = j + 1;
    }
    assert(ns@.subrange(0, j as int) =~= ns@);
    Ok(())
}

/// Appends to `out` the nodes from `n` down that carry a mesh, depth first.
fn parse_tree(doc: &Document, n: usize, fuel: usize, out: &mut Vec<usize>) -> (r: Result<(), Error>)
    ensures
        match walk(*doc, n, fuel as nat) {
            Some(s) => r is Ok && final(out)@ == old(out)@ + s,
            None => r == Err::<(), Error>(Error::DocumentParseError),
        },
        old(out)@.is_prefix_of(final(out)@),
    decreases fuel, 0nat,
{
    if fuel == 0 || n >= doc.nodes.len() {
        return Err(Error::DocumentParseError);
    }
    let node = &doc.nodes[n];
    match node.mesh {
        Some(m) => {
            if m >= doc.meshes.len() {
                return Err(Error::DocumentParseError);
            }
        },
        None => {},
    }
    if node.singular {
        assert(out@ + Seq::<usize>::empty() =~= out@);
        return Ok(());
    }
    if node.mesh.is_some() {
        out.push(n);
    }
    let ghost mid = out@;
    let r = parse_list(doc, &node.children, fuel - 1, out);
    proof {
        if r is Ok {
            let own = if node.mesh is Some { seq![n] } else { Seq::<usize>::empty() };
            assert(mid =~= old(out)@ + own);
            assert(out@ =~= old(out)@ + walk(*doc, n, fuel as nat)->Some_0);
        }
    }
    r
}

/// The nodes that carry a mesh, over every scene's roots in order, depth first
/// below each root; a node whose transform is singular is skipped together
/// with its subtree.
pub fn mesh_nodes(doc: &Document) -> (r: Result<Vec<usize>, Error>)
    ensures
        match walk_scenes(*doc, doc.scenes@) {
            Some(s) => r matches Ok(v) && v@ == s,
            None => r == Err::<Vec<usize>, Error>(Error::DocumentParseError),
        },
{
    let mut out: Vec<usize> = Vec::new();
    let mut k: usize = 0;
    assert(doc.scenes@.subrange(0, 0) =~= Seq::<Vec<usize>>::empty());
    while k < doc.scenes.len()
        invariant
            k <= doc.scenes@.len(),
            walk_scenes(*doc, doc.scenes@.subrange(0, k as int)) matches Some(s) && out@ == s,
        decreases doc.scenes.len() - k,
    {
        let ghost pre = doc.scenes@.subrange(0, k as int + 1);
        assert(pre.drop_last() =~= doc.scenes@.subrange(0, k as int));
        match parse_list(doc, &doc.scenes[k], doc.nodes.len(), &mut out) {
            Ok(()) => {},
            Err(e) => {
                proof {
                    lemma_scene_failure_stays(*doc, doc.scenes@, k + 1);
                }
                return Err(e);
            },
        }
        k = k + 1;
    }
    assert(doc.scenes@.subrange(0, k as int) =~= doc.scenes@);
    Ok(out)
}

/// The first node among the first `upto` nodes that lists `c` as a child.
pub open spec fn parent_among(doc: Document, c: usize, upto: int) -> Option<usize>
    decreases upto,
{
    if upto <= 0 {
        None
    } else {
        match parent_among(doc, c, upto - 1) {
            Some(p) => Some(p),
            None => if doc.nodes@[upto - 1].children@.contains(c) {
                Some((upto - 1) as usize)
            } else {
                None
            },
        }
    }
}

/// The parent of each node: the first node that lists it as a child, if any.
/// A node's world transform is its parent's world transform times its own.
pub fn node_parents(doc: &Document) -> (r: Vec<Option<usize>>)
    ensures
        r@.len() == doc.nodes@.len(),
        forall|c: int| 0 <= c < r@.len() ==> #[trigger] r@[c] == parent_among(*doc, c as usize, doc.nodes@.len() as int),
{
    let n = doc.nodes.len();
    let mut r: Vec<Option<usize>> = Vec::new();
    while r.len() < n
        invariant
            r@.len() <= n,
            n == doc.nodes@.len(),
            forall|c: int| 0 <= c < r@.len() ==> #[trigger] r@[c] == None::<usize>,
        decreases n - r@.len(),
    {
        r.push(None);
    }
    let mut p: usize = 0;
    while p < n
        invariant
            p <= n,
            n == doc.nodes@.len(),
            r@.len() == n,
            forall|c: int| 0 <= c < n ==> #[trigger] r@[c] == parent_among(*doc, c as usize, p as int),
        decreases n - p,
    {
        let children = &doc.nodes[p].children;
        let mut q: usize = 0;
        while q < children.len()
            invariant
                p < n,
                n == doc.nodes@.len(),
                r@.len() == n,
                q <= children@.len(),
                children@ == doc.nodes@[p as int].children@,
                forall|c: int|
                    0 <= c < n ==> #[trigger] r@[c] == match parent_among(*doc, c as usize, p as int) {
                        Some(x) => Some(x),
                        None => if children@.subrange(0, q as int).contains(c as usize) {
                            Some(p)
                        } else {
                            None
                        },
                    },
            decreases children.len() - q,
        {
            let c = children[q];
            proof {
                assert forall|x: usize| children@.subrange(0, q as int + 1).contains(x) == (children@.subrange(0, q as int).contains(x) || x == c) by {
                    if children@.subrange(0, q as int + 1).contains(x) && x != c {
                        let i = choose|i: int| 0 <= i < q + 1 && #[trigger] children@.subrange(0, q as int + 1)[i] == x;
                        assert(children@.subrange(0, q as int)[i] == x);
                    }
                    if children@.subrange(0, q as int).contains(x) {
                        let i = choose|i: int| 0 <= i < q && #[trigger] children@.subrange(0, q as int)[i] == x;
                        assert(children@.subrange(0, q as int + 1)[i] == x);
                    }
                    if x == c {
                        assert(children@.subrange(0, q as int + 1)[q as int] == x);
                    }
                }
            }
            if c < n && r[c].is_none() {
                r.set(c, Some(p));
            }
            q = q + 1;
        }
        proof {
            assert(children@.subrange(0, q as int) =~= children@);
        }
        p = p + 1;
    }
    r
}

} // verus!
