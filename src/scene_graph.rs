use vstd::prelude::*;

verus! {

/// A mesh that lives on the GPU: a vertex-array handle and the number of
/// indices drawn from it.
#[derive(Clone, Copy, Debug, PartialEq, Eq, Structural)]
pub struct Drawable {
    pub vao_id: u32,
    pub index_count: u32,
}

/// Three components of a scalar type `S` (coordinates, or per-axis angles).
#[derive(Clone, Copy, Debug)]
pub struct Vec3<S> {
    pub x: S,
    pub y: S,
    pub z: S,
}

/// The vector whose three components are `v`.
pub open spec fn uniform<S>(v: S) -> Vec3<S> {
    Vec3 { x: v, y: v, z: v }
}

impl<S: Copy> Vec3<S> {
    /// All three components set to `v`.
    pub fn splat(v: S) -> (r: Self)
        ensures
            r == uniform(v),
    {
        Vec3 { x: v, y: v, z: v }
    }
}

/// A node of the scene graph.
///
/// `position` is the translation relative to the parent, `rotation` holds the
/// angles about the X, Y and Z axes, and `reference_point` is the pivot the
/// rotation turns about. A node without a drawable only groups and transforms
/// its children. Children are owned by their parent and kept in insertion
/// order.
#[derive(Debug)]
pub struct SceneNode<S> {
    pub position: Vec3<S>,
    pub rotation: Vec3<S>,
    pub reference_point: Vec3<S>,
    pub drawable: Option<Drawable>,
    pub children: Vec<SceneNode<S>>,
}

/// The mathematical value of a scene node: its own fields and the values of
/// its children, in order.
pub struct NodeModel<S> {
    pub position: Vec3<S>,
    pub rotation: Vec3<S>,
    pub reference_point: Vec3<S>,
    pub drawable: Option<Drawable>,
    pub children: Seq<NodeModel<S>>,
}

/// The values of the first `k` children of `n`.
pub open spec fn child_models<S>(n: SceneNode<S>, k: int) -> Seq<NodeModel<S>>
    decreases n, k,
{
    if k <= 0 || k > n.children@.len() {
        Seq::empty()
    } else {
        child_models(n, k - 1).push(model_of(n.children@[k - 1]))
    }
}

/// The value of a scene node.
pub open spec fn model_of<S>(n: SceneNode<S>) -> NodeModel<S>
    decreases n, n.children@.len() + 1,
{
    NodeModel {
        position: n.position,
        rotation: n.rotation,
        reference_point: n.reference_point,
        drawable: n.drawable,
        children: child_models(n, n.children@.len() as int),
    }
}

impl<S> View for SceneNode<S> {
    type V = NodeModel<S>;

    open spec fn view(&self) -> NodeModel<S> {
        model_of(*self)
    }
}

/// The values of a node's children are those of its child nodes.
pub proof fn lemma_child_models<S>(n: SceneNode<S>, k: int)
    requires
        0 <= k <= n.children@.len(),
    ensures
        child_models(n, k).len() == k,
        forall|i: int| 0 <= i < k ==> #[trigger] child_models(n, k)[i] == model_of(n.children@[i]),
    decreases k,
{
    if k > 0 {
        lemma_child_models(n, k - 1);
    }
}

/// A node's value, read field by field.
pub proof fn lemma_model<S>(n: SceneNode<S>)
    ensures
        n@.position == n.position,
        n@.rotation == n.rotation,
        n@.reference_point == n.reference_point,
        n@.drawable == n.drawable,
        n@.children.len() == n.children@.len(),
        forall|i: int| 0 <= i < n.children@.len() ==> #[trigger] n@.children[i] == n.children@[i]@,
{
    lemma_child_models(n, n.children@.len() as int);
}

impl<S> SceneNode<S> {
    /// Position, rotation and pivot all equal to the vector of `zero`s.
    pub open spec fn has_zero_transform(self, zero: S) -> bool {
        &&& self.position == uniform(zero)
        &&& self.rotation == uniform(zero)
        &&& self.reference_point == uniform(zero)
    }
}

impl<S: Copy> SceneNode<S> {
    /// A group node: every vector set to `zero` (the identity transform), no
    /// drawable, no children.
    pub fn new(zero: S) -> (r: Self)
        ensures
            r.has_zero_transform(zero),
            r.drawable == None::<Drawable>,
            r.children@.len() == 0,
    {
        SceneNode {
            position: Vec3::splat(zero),
            rotation: Vec3::splat(zero),
            reference_point: Vec3::splat(zero),
            drawable: None,
            children: Vec::new(),
        }
    }

    /// A node that draws `index_count` indices of the vertex array `vao_id`,
    /// with the identity transform and no children. A negative count is
    /// refused.
    pub fn from_vao(zero: S, vao_id: u32, index_count: i32) -> (r: Option<Self>)
        ensures
            index_count < 0 <==> r == None::<Self>,
            r matches Some(n) ==> n.has_zero_transform(zero) && n.children@.len() == 0
                && n.drawable == Some(Drawable { vao_id: vao_id, index_count: index_count as u32 }),
    {
        if index_count < 0 {
            None
        } else {
            let mut n = SceneNode::new(zero);
            n.drawable = Some(Drawable { vao_id, index_count: index_count as u32 });
            Some(n)
        }
    }
}

impl<S> SceneNode<S> {
    /// Moves `child` to the end of this node's children.
    pub fn add_child(&mut self, child: SceneNode<S>)
        ensures
            final(self).children@ == old(self).children@.push(child),
            final(self)@.children == old(self)@.children.push(child@),
            final(self).position == old(self).position,
            final(self).rotation == old(self).rotation,
            final(self).reference_point == old(self).reference_point,
            final(self).drawable == old(self).drawable,
    {
        proof {
            lemma_model(*self);
        }
        self.children.push(child);
        proof {
            lemma_model(*self);
            assert(self@.children =~= old(self)@.children.push(child@));
        }
    }

    /// Number of direct children.
    pub fn child_count(&self) -> (r: usize)
        ensures
            r == self.children@.len(),
    {
        self.children.len()
    }

    /// The child at `index`, for changing it in place.
    pub fn get_child(&mut self, index: usize) -> (r: &mut SceneNode<S>)
        requires
            index < old(self).children@.len(),
        ensures
            *r == old(self).children@[index as int],
            final(self).children@ == old(self).children@.update(index as int, *final(r)),
            final(self).position == old(self).position,
            final(self).rotation == old(self).rotation,
            final(self).reference_point == old(self).reference_point,
            final(self).drawable == old(self).drawable,
    {
        &mut self.children[index]
    }

    /// The child at `index`, or `None` when there is no such child.
    pub fn try_get_child(&self, index: usize) -> (r: Option<&SceneNode<S>>)
        ensures
            index >= self.children@.len() <==> r == None::<&SceneNode<S>>,
            r matches Some(c) ==> *c == self.children@[index as int],
    {
        if index < self.children.len() {
            Some(&self.children[index])
        } else {
            None
        }
    }
}

} // verus!
