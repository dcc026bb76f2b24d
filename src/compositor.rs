use vstd::prelude::*;

use crate::scene_graph::{lemma_model, NodeModel, SceneNode, Vec3};

verus! {

/// One elementary affine transform. A node's local transform is the matrix
/// product of a list of these, taken left to right.
#[derive(Clone, Copy, Debug)]
pub enum Factor<S> {
    /// Translation by the vector.
    Translate(Vec3<S>),
    /// Translation by the negated vector.
    TranslateBack(Vec3<S>),
    /// Rotation about the X axis by the angle.
    RotateX(S),
    /// Rotation about the Y axis by the angle.
    RotateY(S),
    /// Rotation about the Z axis by the angle.
    RotateZ(S),
}

/// The local transform of a node as a product:
/// `T(position) * T(pivot) * Rz * Ry * Rx * T(-pivot)`.
/// A point is thus turned about X first, then Y, then Z, around the pivot.
pub open spec fn local_spec<S>(n: NodeModel<S>) -> Seq<Factor<S>> {
    seq![
        Factor::Translate(n.position),
        Factor::Translate(n.reference_point),
        Factor::RotateZ(n.rotation.z),
        Factor::RotateY(n.rotation.y),
        Factor::RotateX(n.rotation.x),
        Factor::TranslateBack(n.reference_point),
    ]
}

/// The factors of `node`'s local transform, in product order.
pub fn local_factors<S: Copy>(node: &SceneNode<S>) -> (r: Vec<Factor<S>>)
    ensures
        r@ == local_spec(node@),
{
    proof {
        lemma_model(*node);
    }
    let mut r: Vec<Factor<S>> = Vec::new();
    r.push(Factor::Translate(node.position));
    r.push(Factor::Translate(node.reference_point));
    r.push(Factor::RotateZ(node.rotation.z));
    r.push(Factor::RotateY(node.rotation.y));
    r.push(Factor::RotateX(node.rotation.x));
    r.push(Factor::TranslateBack(node.reference_point));
    proof {
        assert(r@ =~= local_spec(node@));
    }
    r
}

/// Whether following child indices `path` from `m` stays inside the tree.
pub open spec fn valid_path<S>(m: NodeModel<S>, path: Seq<usize>) -> bool
    decreases path.len(),
{
    path.len() == 0 || (path[0] < m.children.len() && valid_path(
        m.children[path[0] as int],
        path.drop_first(),
    ))
}

/// The node reached from `m` by following child indices `path`.
pub open spec fn node_at<S>(m: NodeModel<S>, path: Seq<usize>) -> NodeModel<S>
    decreases path.len(),
{
    if path.len() == 0 {
        m
    } else {
        node_at(m.children[path[0] as int], path.drop_first())
    }
}

/// The world transform of the node reached from root `m` by `path`, as the
/// product of the local transforms met on the way down, root first.
pub open spec fn world_along<S>(m: NodeModel<S>, path: Seq<usize>) -> Seq<Factor<S>>
    decreases path.len(),
{
    if path.len() == 0 {
        local_spec(m)
    } else {
        local_spec(m) + world_along(m.children[path[0] as int], path.drop_first())
    }
}

/// A child's world transform is its parent's world transform times the
/// child's local transform.
pub proof fn lemma_world_of_child<S>(m: NodeModel<S>, path: Seq<usize>, i: usize)
    requires
        valid_path(m, path),
        i < node_at(m, path).children.len(),
    ensures
        valid_path(m, path.push(i)),
        node_at(m, path.push(i)) == node_at(m, path).children[i as int],
        world_along(m, path.push(i)) == world_along(m, path) + local_spec(
            node_at(m, path).children[i as int],
        ),
    decreases path.len(),
{
    if path.len() == 0 {
        let c = m.children[i as int];
        assert(path.push(i).drop_first() =~= Seq::<usize>::empty());
        assert(valid_path(c, Seq::<usize>::empty()));
        assert(node_at(c, Seq::<usize>::empty()) == c);
        assert(world_along(c, Seq::<usize>::empty()) == local_spec(c));
    } else {
        let c = m.children[path[0] as int];
        assert(path.push(i)[0] == path[0]);
        assert(path.push(i).drop_first() =~= path.drop_first().push(i));
        lemma_world_of_child(c, path.drop_first(), i);
        assert(world_along(m, path.push(i)) =~= world_along(m, path) + local_spec(
            node_at(m, path).children[i as int],
        ));
    }
}

/// The world transform of the node reached from `root` by `path`, as a list
/// of factors, or `None` when `path` leaves the tree.
pub fn world_factors<S: Copy>(root: &SceneNode<S>, path: &Vec<usize>) -> (r: Option<Vec<Factor<S>>>)
    ensures
        r is Some <==> valid_path(root@, path@),
        r matches Some(w) ==> w@ == world_along(root@, path@),
{
    let mut cur: &SceneNode<S> = root;
    let mut acc = local_factors(root);
    let mut k: usize = 0;
    while k < path.len()
        invariant
            k <= path@.len(),
            valid_path(root@, path@.take(k as int)),
            cur@ == node_at(root@, path@.take(k as int)),
            acc@ == world_along(root@, path@.take(k as int)),
        decreases path@.len() - k,
    {
        proof {
            lemma_model(*cur);
        }
        let i = path[k];
        if i >= cur.children.len() {
            proof {
                lemma_invalid_extension(root@, path@, k as int);
            }
            return None;
        }
        proof {
            lemma_world_of_child(root@, path@.take(k as int), i);
            assert(path@.take(k as int).push(i) =~= path@.take(k + 1));
        }
        cur = &cur.children[i];
        let mut step = local_factors(cur);
        acc.append(&mut step);
        k = k + 1;
    }
    assert(path@.take(k as int) =~= path@);
    Some(acc)
}

/// A path that steps out of the tree at position `k` is not valid.
proof fn lemma_invalid_extension<S>(m: NodeModel<S>, path: Seq<usize>, k: int)
    requires
        0 <= k < path.len(),
        valid_path(m, path.take(k)),
        path[k] >= node_at(m, path.take(k)).children.len(),
    ensures
        !valid_path(m, path),
    decreases k,
{
    if k > 0 {
        assert(path.take(k).drop_first() =~= path.drop_first().take(k - 1));
        lemma_invalid_extension(m.children[path[0] as int], path.drop_first(), k - 1);
    }
}

} // verus!
