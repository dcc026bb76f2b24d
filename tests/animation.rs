use gloom_scene::animation::{animate_fleet, animate_helicopter, apply_heading, Heading};
use gloom_scene::compositor::world_factors;
use gloom_scene::compositor::Factor;
use gloom_scene::scene_graph::{SceneNode, Vec3};

fn helicopter() -> SceneNode<f32> {
    let mut body = SceneNode::<f32>::from_vao(0.0, 2, 3).unwrap();
    body.position.y = 4.0;
    body.add_child(SceneNode::<f32>::from_vao(0.0, 3, 3).unwrap());
    body.add_child(SceneNode::<f32>::from_vao(0.0, 4, 3).unwrap());
    let mut tail = SceneNode::<f32>::from_vao(0.0, 5, 3).unwrap();
    tail.reference_point = Vec3 { x: 0.35, y: 2.3, z: 10.4 };
    body.add_child(tail);
    body
}

fn fleet(n: usize) -> SceneNode<f32> {
    let mut root = SceneNode::<f32>::new(0.0);
    root.add_child(SceneNode::<f32>::from_vao(0.0, 1, 3).unwrap());
    for _ in 0..n {
        root.add_child(helicopter());
    }
    root
}

fn heading(t: f32) -> Heading<f32> {
    Heading { x: t, z: 2.0 * t, roll: 0.1 * t, pitch: 0.2 * t, yaw: 0.3 * t }
}

fn bits(f: &Factor<f32>) -> Vec<u32> {
    match *f {
        Factor::Translate(v) | Factor::TranslateBack(v) => vec![v.x.to_bits(), v.y.to_bits(), v.z.to_bits()],
        Factor::RotateX(a) | Factor::RotateY(a) | Factor::RotateZ(a) => vec![a.to_bits()],
    }
}

fn world_bits(root: &SceneNode<f32>, path: Vec<usize>) -> Vec<u32> {
    world_factors(root, &path).unwrap().iter().flat_map(bits).collect()
}

#[test]
fn apply_heading_sets_body_pose() {
    let mut body = helicopter();
    apply_heading(&mut body, heading(1.0));
    assert_eq!(body.position.x, 1.0);
    assert_eq!(body.position.y, 4.0);
    assert_eq!(body.position.z, 2.0);
    assert_eq!(body.rotation.z, 0.1);
    assert_eq!(body.rotation.x, 0.2);
    assert_eq!(body.rotation.y, 0.3);
    assert_eq!(body.child_count(), 3);
}

#[test]
fn animate_helicopter_moves_door_and_rotors() {
    let mut h = helicopter();
    animate_helicopter(&mut h, 1.5, 20.0, heading(2.0));
    assert_eq!(h.children[0].position.z, 1.5);
    assert_eq!(h.children[1].rotation.y, 20.0);
    assert_eq!(h.children[2].rotation.x, 20.0);
    assert_eq!(h.children[2].reference_point.z, 10.4);
    assert_eq!(h.children[1].rotation.x, 0.0);
    assert_eq!(h.position.x, 2.0);
}

#[test]
fn animate_fleet_leaves_terrain_and_staggers_bodies() {
    let mut root = fleet(3);
    let hs = vec![heading(1.0), heading(2.0), heading(3.0)];
    animate_fleet(&mut root, 0.5, 7.0, &hs);
    assert_eq!(root.children[0].position.x, 0.0);
    assert_eq!(root.children[0].rotation.y, 0.0);
    for j in 1..4 {
        assert_eq!(root.children[j].position.x, j as f32);
        assert_eq!(root.children[j].children[0].position.z, 0.5);
        assert_eq!(root.children[j].children[1].rotation.y, 7.0);
        assert_eq!(root.children[j].children[2].rotation.x, 7.0);
    }
}

#[test]
fn replaying_a_frame_gives_identical_transforms() {
    let hs_a = vec![heading(0.3), heading(1.15)];
    let hs_b = vec![heading(5.0), heading(5.85)];
    let mut direct = fleet(2);
    animate_fleet(&mut direct, 1.2, 50.0, &hs_b);
    let mut replayed = fleet(2);
    animate_fleet(&mut replayed, 0.4, 3.0, &hs_a);
    animate_fleet(&mut replayed, 1.2, 50.0, &hs_b);
    for path in [vec![0], vec![1], vec![2, 0], vec![2, 1], vec![2, 2], vec![1, 2]] {
        assert_eq!(world_bits(&direct, path.clone()), world_bits(&replayed, path));
    }
}

#[test]
fn animate_fleet_with_terrain_only() {
    let mut root = fleet(0);
    animate_fleet(&mut root, 1.0, 1.0, &vec![]);
    assert_eq!(root.child_count(), 1);
    assert_eq!(root.children[0].position.z, 0.0);
}
