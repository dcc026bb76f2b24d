use vstd::prelude::*;

use crate::compositor::{local_factors, local_spec, node_at, valid_path, world_along, Factor};
use crate::scene_graph::{lemma_model, Drawable, NodeModel, SceneNode};

verus! {

/// One step of a depth-first, pre-order walk of a scene graph.
///
/// The world transform of the visited node is the world transform of the
/// visit at index `parent` (the identity when there is none) times the
/// product of `local`. When `drawable` is present and has a positive index
/// count, the node is drawn with that world transform.
#[derive(Clone, Debug)]
pub struct Visit<S> {
    pub parent: Option<usize>,
    pub local: Vec<Factor<S>>,
    pub drawable: Option<Drawable>,
    pub child_count: usize,
}

/// The value of a [`Visit`].
pub struct VisitView<S> {
    pub parent: Option<usize>,
    pub local: Seq<Factor<S>>,
    pub drawable: Option<Drawable>,
    pub child_count: nat,
}

impl<S> View for Visit<S> {
    type V = VisitView<S>;

    open spec fn view(&self) -> VisitView<S> {
        VisitView {
            parent: self.parent,
            local: self.local@,
            drawable: self.drawable,
            child_count: self.child_count as nat,
        }
    }
}

/// The values of a sequence of visits.
pub open spec fn views<S>(s: Seq<Visit<S>>) -> Seq<VisitView<S>> {
    s.map_values(|v: Visit<S>| v@)
}

/// The visit of node `m` whose parent was visited at `parent`.
pub open spec fn visit_of<S>(m: NodeModel<S>, parent: Option<usize>) -> VisitView<S> {
    VisitView {
        parent: parent,
        local: local_spec(m),
        drawable: m.drawable,
        child_count: m.children.len(),
    }
}

/// The pre-order walk of the subtree `m`, whose own visit lands at index
/// `base` of the whole walk and whose parent was visited at `parent`.
pub open spec fn preorder<S>(m: NodeModel<S>, base: int, parent: Option<usize>) -> Seq<
    VisitView<S>,
>
    decreases m, m.children.len() + 1,
{
    seq![visit_of(m, parent)] + preorder_children(m, m.children.len() as int, base + 1, base)
}

/// The walks of the first `k` children of `m`, one after the other, starting
/// at index `start`; `me` is where `m` itself was visited.
pub open spec fn preorder_children<S>(m: NodeModel<S>, k: int, start: int, me: int) -> Seq<
    VisitView<S>,
>
    decreases m, k,
{
    if k <= 0 || k > m.children.len() {
        Seq::empty()
    } else {
        let prev = preorder_children(m, k - 1, start, me);
        prev + preorder(m.children[k - 1], start + prev.len(), Some(me as usize))
    }
}

/// The number of nodes in the tree `m`.
pub open spec fn node_count<S>(m: NodeModel<S>) -> nat
    decreases m, m.children.len() + 1,
{
    1 + subtree_counts(m, m.children.len() as int)
}

/// The number of nodes under the first `k` children of `m`.
pub open spec fn subtree_counts<S>(m: NodeModel<S>, k: int) -> nat
    decreases m, k,
{
    if k <= 0 || k > m.children.len() {
        0
    } else {
        subtree_counts(m, k - 1) + node_count(m.children[k - 1])
    }
}

/// Whether visit `i` of `walk` names an earlier visit in `[lo, lo + i)` as its
/// parent, or the visit `me`.
pub open spec fn parent_before<S>(walk: Seq<VisitView<S>>, i: int, lo: int, me: int) -> bool {
    &&& walk[i].parent is Some
    &&& {
        let j = walk[i].parent->0 as int;
        j == me || lo <= j < lo + i
    }
}

proof fn lemma_preorder_shape<S>(m: NodeModel<S>, b: int, parent: Option<usize>)
    requires
        0 <= b,
        b + node_count(m) <= usize::MAX as int + 1,
    ensures
        preorder(m, b, parent).len() == node_count(m),
        preorder(m, b, parent)[0].parent == parent,
        forall|i: int|
            0 < i < node_count(m) ==> #[trigger] parent_before(preorder(m, b, parent), i, b, b),
    decreases m, m.children.len() + 1,
{
    let n = m.children.len() as int;
    lemma_children_shape(m, n, b + 1, b);
    let walk = preorder(m, b, parent);
    let rest = preorder_children(m, n, b + 1, b);
    assert forall|i: int| 0 < i < node_count(m) implies #[trigger] parent_before(walk, i, b, b) by {
        assert(walk[i] == rest[i - 1]);
        assert(parent_before(rest, i - 1, b + 1, b));
    }
}

proof fn lemma_children_shape<S>(m: NodeModel<S>, k: int, start: int, me: int)
    requires
        0 <= me < start,
        0 <= k <= m.children.len(),
        start + subtree_counts(m, k) <= usize::MAX as int + 1,
    ensures
        preorder_children(m, k, start, me).len() == subtree_counts(m, k),
        forall|i: int|
            0 <= i < subtree_counts(m, k) ==> #[trigger] parent_before(
                preorder_children(m, k, start, me),
                i,
                start,
                me,
            ),
    decreases m, k,
{
    if k > 0 {
        lemma_children_shape(m, k - 1, start, me);
        let prev = preorder_children(m, k - 1, start, me);
        let o = prev.len() as int;
        let child = m.children[k - 1];
        lemma_preorder_shape(child, start + o, Some(me as usize));
        let sub = preorder(child, start + o, Some(me as usize));
        let all = preorder_children(m, k, start, me);
        assert(all == prev + sub);
        assert forall|i: int| 0 <= i < subtree_counts(m, k) implies #[trigger] parent_before(
            all,
            i,
            start,
            me,
        ) by {
            if i < o {
                assert(all[i] == prev[i]);
                assert(parent_before(prev, i, start, me));
            } else if i == o {
                assert(all[i] == sub[0]);
            } else {
                assert(all[i] == sub[i - o]);
                assert(parent_before(sub, i - o, start + o, start + o));
            }
        }
    }
}

/// The walk visits every node exactly once: it has one visit per node, the
/// first visit (the root's) has no parent, and every other visit names exactly
/// one earlier visit as its parent, so the walk has no cycles.
pub proof fn lemma_walk_visits_each_node_once<S>(m: NodeModel<S>)
    requires
        node_count(m) <= usize::MAX,
    ensures
        preorder(m, 0, None).len() == node_count(m),
        preorder(m, 0, None)[0].parent == None::<usize>,
        forall|i: int|
            0 < i < node_count(m) ==> {
                let p = #[trigger] preorder(m, 0, None)[i].parent;
                p is Some && p->0 < i
            },
{
    lemma_preorder_shape(m, 0, None);
    assert forall|i: int| 0 < i < node_count(m) implies {
        let p = #[trigger] preorder(m, 0, None)[i].parent;
        p is Some && p->0 < i
    } by {
        assert(parent_before(preorder(m, 0, None), i, 0, 0));
    }
}

/// The world transform of visit `i`, found through the parent links: the
/// parent's world transform followed by the visit's own local factors.
pub open spec fn walk_world<S>(walk: Seq<VisitView<S>>, i: int) -> Seq<Factor<S>>
    decreases i,
{
    if i < 0 || i >= walk.len() {
        Seq::empty()
    } else if walk[i].parent is Some && (walk[i].parent->0 as int) < i {
        walk_world(walk, walk[i].parent->0 as int) + walk[i].local
    } else {
        walk[i].local
    }
}

/// Where the walk of `m` visits the node reached by `path`.
pub open spec fn walk_index<S>(m: NodeModel<S>, path: Seq<usize>) -> int
    decreases path.len(),
{
    if path.len() == 0 {
        0
    } else {
        1 + subtree_counts(m, path[0] as int) + walk_index(
            m.children[path[0] as int],
            path.drop_first(),
        )
    }
}

proof fn lemma_preorder_len<S>(m: NodeModel<S>, b: int, parent: Option<usize>)
    ensures
        preorder(m, b, parent).len() == node_count(m),
    decreases m, m.children.len() + 1,
{
    lemma_children_len(m, m.children.len() as int, b + 1, b);
}

proof fn lemma_children_len<S>(m: NodeModel<S>, k: int, start: int, me: int)
    ensures
        preorder_children(m, k, start, me).len() == subtree_counts(m, k),
    decreases m, k,
{
    if k > 0 && k <= m.children.len() {
        lemma_children_len(m, k - 1, start, me);
        let prev = preorder_children(m, k - 1, start, me);
        lemma_preorder_len(m.children[k - 1], start + prev.len(), Some(me as usize));
    }
}

proof fn lemma_children_prefix<S>(m: NodeModel<S>, k: int, k2: int, start: int, me: int)
    requires
        0 <= k <= k2 <= m.children.len(),
    ensures
        subtree_counts(m, k) <= subtree_counts(m, k2),
        preorder_children(m, k2, start, me).subrange(0, subtree_counts(m, k) as int)
            == preorder_children(m, k, start, me),
    decreases k2,
{
    lemma_children_len(m, k, start, me);
    lemma_children_len(m, k2, start, me);
    if k2 > k {
        lemma_children_prefix(m, k, k2 - 1, start, me);
        lemma_children_len(m, k2 - 1, start, me);
        let a = preorder_children(m, k2 - 1, start, me);
        let whole = preorder_children(m, k2, start, me);
        assert(whole.subrange(0, a.len() as int) =~= a);
        assert(whole.subrange(0, subtree_counts(m, k) as int) =~= a.subrange(
            0,
            subtree_counts(m, k) as int,
        ));
    } else {
        assert(preorder_children(m, k2, start, me).subrange(0, subtree_counts(m, k) as int)
            =~= preorder_children(m, k, start, me));
    }
}

/// The world transform that the parent link `parent` leads to.
pub open spec fn world_above<S>(walk: Seq<VisitView<S>>, parent: Option<usize>) -> Seq<Factor<S>> {
    match parent {
        Some(j) => walk_world(walk, j as int),
        None => Seq::empty(),
    }
}

proof fn lemma_walk_world_within<S>(
    walk: Seq<VisitView<S>>,
    m: NodeModel<S>,
    b: int,
    parent: Option<usize>,
    path: Seq<usize>,
)
    requires
        0 <= b,
        b + node_count(m) <= walk.len(),
        walk.len() <= usize::MAX as int + 1,
        walk.subrange(b, b + node_count(m)) == preorder(m, b, parent),
        parent matches Some(j) ==> (j as int) < b,
        valid_path(m, path),
    ensures
        0 <= walk_index(m, path) < node_count(m),
        walk[b + walk_index(m, path)] == visit_of(
            node_at(m, path),
            if path.len() == 0 {
                parent
            } else {
                walk[b + walk_index(m, path)].parent
            },
        ),
        walk_world(walk, b + walk_index(m, path)) == world_above(walk, parent) + world_along(
            m,
            path,
        ),
    decreases path.len(),
{
    lemma_preorder_len(m, b, parent);
    assert(walk[b] == preorder(m, b, parent)[0]);
    assert(walk_world(walk, b) =~= world_above(walk, parent) + local_spec(m));
    if path.len() > 0 {
        let k = path[0] as int;
        let n = m.children.len() as int;
        let child = m.children[k];
        let rest = path.drop_first();
        let me = b;
        lemma_children_prefix(m, k + 1, n, b + 1, me);
        lemma_children_len(m, k, b + 1, me);
        let prev = preorder_children(m, k, b + 1, me);
        let sub = preorder(child, b + 1 + prev.len(), Some(me as usize));
        lemma_preorder_len(child, b + 1 + prev.len(), Some(me as usize));
        let pk1 = preorder_children(m, k + 1, b + 1, me);
        assert(pk1 == prev + sub);
        let all = preorder_children(m, n, b + 1, me);
        let sc = subtree_counts(m, k) as int;
        let nc = node_count(child) as int;
        assert(subtree_counts(m, k + 1) == sc + nc);
        assert(preorder(m, b, parent) == seq![visit_of(m, parent)] + all);
        let b2 = b + 1 + sc;
        assert(walk.subrange(b2, b2 + nc) =~= sub) by {
            assert forall|i: int| 0 <= i < nc implies walk.subrange(b2, b2 + nc)[i] == sub[i] by {
                assert(walk.subrange(b, b + node_count(m))[1 + sc + i] == walk[b2 + i]);
                assert(all.subrange(0, sc + nc)[sc + i] == all[sc + i]);
                assert(pk1[sc + i] == sub[i]);
            }
        }
        assert((me as usize) as int == me);
        lemma_walk_world_within(walk, child, b2, Some(me as usize), rest);
        assert(world_above(walk, Some(me as usize)) == walk_world(walk, b));
        assert(path[0] as int == k);
        assert(walk_index(m, path) == 1 + sc + walk_index(child, rest));
        assert(node_at(m, path) == node_at(child, rest));
        assert(world_along(m, path) == local_spec(m) + world_along(child, rest));
        assert(world_above(walk, parent) + local_spec(m) + world_along(child, rest)
            =~= world_above(walk, parent) + world_along(m, path));
        assert(subtree_counts(m, k + 1) <= subtree_counts(m, n));
        if rest.len() == 0 {
            assert(walk[b2] == sub[0]);
        }
    }
}

/// Rendering from the walk composes transforms correctly: following parent
/// links from the visit of any node, and multiplying each parent's world
/// transform by the child's local transform, yields the product of the local
/// transforms along the node's path from the root, and that visit carries the
/// node's own local transform and mesh.
pub proof fn lemma_walk_composes_world<S>(m: NodeModel<S>, path: Seq<usize>)
    requires
        valid_path(m, path),
        node_count(m) <= usize::MAX,
    ensures
        0 <= walk_index(m, path) < node_count(m),
        preorder(m, 0, None)[walk_index(m, path)].local == local_spec(node_at(m, path)),
        preorder(m, 0, None)[walk_index(m, path)].drawable == node_at(m, path).drawable,
        walk_world(preorder(m, 0, None), walk_index(m, path)) == world_along(m, path),
{
    let walk = preorder(m, 0, None);
    lemma_preorder_len(m, 0, None);
    assert(walk.subrange(0, node_count(m) as int) =~= walk);
    lemma_walk_world_within(walk, m, 0, None, path);
    assert(world_above(walk, None) + world_along(m, path) =~= world_along(m, path));
}

/// Appends the pre-order walk of `node` to `out`.
fn push_preorder<S: Copy>(node: &SceneNode<S>, parent: Option<usize>, out: &mut Vec<Visit<S>>)
    ensures
        views(final(out)@) == views(old(out)@) + preorder(node@, old(out)@.len() as int, parent),
    decreases node,
{
    proof {
        lemma_model(*node);
    }
    let me = out.len();
    let ghost start = views(out@);
    let v = Visit {
        parent,
        local: local_factors(node),
        drawable: node.drawable,
        child_count: node.children.len(),
    };
    out.push(v);
    assert(views(out@) =~= start + seq![visit_of(node@, parent)]);
    let mut k: usize = 0;
    while k < node.children.len()
        invariant
            k <= node.children@.len(),
            me as int == old(out)@.len(),
            start == views(old(out)@),
            node@.children.len() == node.children@.len(),
            forall|i: int|
                0 <= i < node.children@.len() ==> #[trigger] node@.children[i] == node.children@[i]@,
            views(out@) == start + seq![visit_of(node@, parent)] + preorder_children(
                node@,
                k as int,
                me + 1,
                me as int,
            ),
        decreases node.children@.len() - k,
    {
        push_preorder(&node.children[k], Some(me), out);
        proof {
            assert(views(out@) =~= start + seq![visit_of(node@, parent)] + preorder_children(
                node@,
                k + 1,
                me + 1,
                me as int,
            ));
        }
        k = k + 1;
    }
    assert(views(out@) =~= views(old(out)@) + preorder(node@, old(out)@.len() as int, parent));
}

/// The depth-first, pre-order walk of the graph under `root`: the root first,
/// then the walk of each child in order.
pub fn render_plan<S: Copy>(root: &SceneNode<S>) -> (r: Vec<Visit<S>>)
    ensures
        views(r@) == preorder(root@, 0, None),
{
    let mut r: Vec<Visit<S>> = Vec::new();
    push_preorder(root, None, &mut r);
    assert(views(r@) =~= preorder(root@, 0, None));
    r
}

} // verus!
