use vstd::prelude::*;

use crate::scene_graph::{lemma_model, NodeModel, SceneNode, Vec3};

verus! {

/// Where a helicopter body is placed and how it is turned at one instant:
/// its X and Z coordinates, and its roll (about Z), pitch (about X) and yaw
/// (about Y).
#[derive(Clone, Copy, Debug)]
pub struct Heading<S> {
    pub x: S,
    pub z: S,
    pub roll: S,
    pub pitch: S,
    pub yaw: S,
}

/// `v` with its X component replaced by `a`.
pub open spec fn with_x<S>(v: Vec3<S>, a: S) -> Vec3<S> {
    Vec3 { x: a, y: v.y, z: v.z }
}

/// `v` with its Y component replaced by `a`.
pub open spec fn with_y<S>(v: Vec3<S>, a: S) -> Vec3<S> {
    Vec3 { x: v.x, y: a, z: v.z }
}

/// `v` with its Z component replaced by `a`.
pub open spec fn with_z<S>(v: Vec3<S>, a: S) -> Vec3<S> {
    Vec3 { x: v.x, y: v.y, z: a }
}

/// `m` with the given position and rotation.
pub open spec fn posed<S>(m: NodeModel<S>, position: Vec3<S>, rotation: Vec3<S>) -> NodeModel<S> {
    NodeModel {
        position: position,
        rotation: rotation,
        reference_point: m.reference_point,
        drawable: m.drawable,
        children: m.children,
    }
}

/// `m` with its children replaced by `children`.
pub open spec fn with_children<S>(m: NodeModel<S>, children: Seq<NodeModel<S>>) -> NodeModel<S> {
    NodeModel {
        position: m.position,
        rotation: m.rotation,
        reference_point: m.reference_point,
        drawable: m.drawable,
        children: children,
    }
}

/// A body placed and turned as `h` says; the Y coordinate is kept.
pub open spec fn headed<S>(m: NodeModel<S>, h: Heading<S>) -> NodeModel<S> {
    posed(
        m,
        Vec3 { x: h.x, y: m.position.y, z: h.z },
        Vec3 { x: h.pitch, y: h.yaw, z: h.roll },
    )
}

/// A helicopter has its door, main rotor and tail rotor as children 0, 1, 2.
pub open spec fn is_helicopter<S>(m: NodeModel<S>) -> bool {
    m.children.len() >= 3
}

/// One helicopter at one frame: the door slides to Z = `door`, the main rotor
/// turns to `spin` about Y, the tail rotor to `spin` about X, and the body
/// follows `h`.
pub open spec fn animated_helicopter<S>(m: NodeModel<S>, door: S, spin: S, h: Heading<S>) -> NodeModel<S>
    recommends
        is_helicopter(m),
{
    let c = m.children;
    headed(
        with_children(
            m,
            c.update(0, posed(c[0], with_z(c[0].position, door), c[0].rotation)).update(
                1,
                posed(c[1], c[1].position, with_y(c[1].rotation, spin)),
            ).update(2, posed(c[2], c[2].position, with_x(c[2].rotation, spin))),
        ),
        h,
    )
}

/// A scene whose children after the first (the terrain) are all helicopters,
/// with one heading for each of them.
pub open spec fn is_fleet<S>(m: NodeModel<S>, headings: Seq<Heading<S>>) -> bool {
    &&& m.children.len() <= headings.len() + 1
    &&& forall|j: int| 1 <= j < m.children.len() ==> is_helicopter(#[trigger] m.children[j])
}

/// The scene at one frame: helicopter `j` (child `j` for `j >= 1`) is animated
/// with heading `headings[j - 1]`; the root and the terrain are kept.
pub open spec fn animated<S>(m: NodeModel<S>, door: S, spin: S, headings: Seq<Heading<S>>) -> NodeModel<S> {
    with_children(
        m,
        Seq::new(
            m.children.len(),
            |j: int|
                if j == 0 {
                    m.children[0]
                } else {
                    animated_helicopter(m.children[j], door, spin, headings[j - 1])
                },
        ),
    )
}

/// A frame's pose depends only on that frame's inputs: posing the scene for
/// frame `b` after frame `a` gives the same scene as posing it for frame `b`
/// directly, so replaying the same inputs reproduces the same pose.
pub proof fn lemma_pose_has_no_history<S>(
    m: NodeModel<S>,
    door_a: S,
    spin_a: S,
    headings_a: Seq<Heading<S>>,
    door_b: S,
    spin_b: S,
    headings_b: Seq<Heading<S>>,
)
    requires
        is_fleet(m, headings_a),
        is_fleet(m, headings_b),
    ensures
        animated(animated(m, door_a, spin_a, headings_a), door_b, spin_b, headings_b) == animated(
            m,
            door_b,
            spin_b,
            headings_b,
        ),
{
    let once = animated(m, door_a, spin_a, headings_a);
    let twice = animated(once, door_b, spin_b, headings_b);
    let direct = animated(m, door_b, spin_b, headings_b);
    assert forall|j: int| 0 <= j < m.children.len() implies twice.children[j] == direct.children[j] by {
        if j > 0 {
            let c = m.children[j];
            let a = animated_helicopter(c, door_a, spin_a, headings_a[j - 1]);
            let t = animated_helicopter(a, door_b, spin_b, headings_b[j - 1]);
            let d = animated_helicopter(c, door_b, spin_b, headings_b[j - 1]);
            assert(t.children =~= d.children);
        }
    }
    assert(twice.children =~= direct.children);
}

/// Places and turns `body` as `heading` says.
pub fn apply_heading<S: Copy>(body: &mut SceneNode<S>, heading: Heading<S>)
    ensures
        final(body)@ == headed(old(body)@, heading),
{
    proof {
        lemma_model(*body);
    }
    body.position.x = heading.x;
    body.position.z = heading.z;
    body.rotation.z = heading.roll;
    body.rotation.x = heading.pitch;
    body.rotation.y = heading.yaw;
    proof {
        lemma_model(*body);
        assert(body@.children =~= old(body)@.children);
    }
}

/// Sets one helicopter's pose for a frame: door slide, rotor angles and body
/// heading.
pub fn animate_helicopter<S: Copy>(heli: &mut SceneNode<S>, door: S, spin: S, heading: Heading<S>)
    requires
        is_helicopter(old(heli)@),
    ensures
        final(heli)@ == animated_helicopter(old(heli)@, door, spin, heading),
{
    proof {
        lemma_model(*heli);
        lemma_model(heli.children@[0]);
        lemma_model(heli.children@[1]);
        lemma_model(heli.children@[2]);
    }
    let ghost before = *heli;
    heli.get_child(0).position.z = door;
    heli.get_child(1).rotation.y = spin;
    heli.get_child(2).rotation.x = spin;
    proof {
        lemma_model(heli.children@[0]);
        lemma_model(heli.children@[1]);
        lemma_model(heli.children@[2]);
        let c = before@.children;
        assert(heli.children@[0]@.children =~= c[0].children);
        assert(heli.children@[1]@.children =~= c[1].children);
        assert(heli.children@[2]@.children =~= c[2].children);
        lemma_model(*heli);
        let mid = with_children(
            before@,
            c.update(0, posed(c[0], with_z(c[0].position, door), c[0].rotation)).update(
                1,
                posed(c[1], c[1].position, with_y(c[1].rotation, spin)),
            ).update(2, posed(c[2], c[2].position, with_x(c[2].rotation, spin))),
        );
        assert(heli@.children =~= mid.children);
        assert(heli@ == mid);
    }
    apply_heading(heli, heading);
}

/// Poses every helicopter of the scene for a frame. Child 0 of the scene is
/// the terrain and is left alone; child `j >= 1` is a helicopter and follows
/// `headings[j - 1]`. All doors slide to `door`, all rotors turn to `spin`.
pub fn animate_fleet<S: Copy>(scene: &mut SceneNode<S>, door: S, spin: S, headings: &Vec<Heading<S>>)
    requires
        is_fleet(old(scene)@, headings@),
    ensures
        final(scene)@ == animated(old(scene)@, door, spin, headings@),
{
    proof {
        lemma_model(*scene);
    }
    let n = scene.child_count();
    let mut j: usize = 1;
    while j < n
        invariant
            n == scene.children@.len(),
            n == old(scene).children@.len(),
            old(scene)@.children.len() == n,
            forall|i: int| 0 <= i < n ==> #[trigger] old(scene)@.children[i] == old(scene).children@[i]@,
            is_fleet(old(scene)@, headings@),
            scene.position == old(scene).position,
            scene.rotation == old(scene).rotation,
            scene.reference_point == old(scene).reference_point,
            scene.drawable == old(scene).drawable,
            n == 0 || 1 <= j <= n,
            forall|i: int|
                1 <= i < j ==> #[trigger] scene.children@[i]@ == animated_helicopter(
                    old(scene).children@[i]@,
                    door,
                    spin,
                    headings@[i - 1],
                ),
            forall|i: int| (i == 0 || j <= i < n) ==> #[trigger] scene.children@[i] == old(scene).children@[i],
        decreases n - j,
    {
        let h = headings[j - 1];
        assert(is_helicopter(old(scene)@.children[j as int]));
        assert(old(scene)@.children[j as int] == scene.children@[j as int]@);
        animate_helicopter(scene.get_child(j), door, spin, h);
        j = j + 1;
    }
    proof {
        lemma_model(*scene);
        let want = animated(old(scene)@, door, spin, headings@);
        assert(scene@.children =~= want.children);
    }
}

} // verus!
