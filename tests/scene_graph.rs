use gloom_scene::compositor::{local_factors, world_factors, Factor};
use gloom_scene::scene_graph::{Drawable, SceneNode, Vec3};
use gloom_scene::traversal::render_plan;

fn group() -> SceneNode<f32> {
    SceneNode::new(0.0)
}

#[test]
fn new_node_is_an_empty_group() {
    let n = group();
    assert!(n.drawable.is_none());
    assert_eq!(n.child_count(), 0);
    assert_eq!(n.position.x, 0.0);
    assert_eq!(n.rotation.y, 0.0);
    assert_eq!(n.reference_point.z, 0.0);
}

#[test]
fn from_vao_keeps_handle_and_count() {
    let n = SceneNode::<f32>::from_vao(0.0, 7, 36).unwrap();
    assert_eq!(n.drawable, Some(Drawable { vao_id: 7, index_count: 36 }));
    assert_eq!(n.child_count(), 0);
    let empty = SceneNode::<f32>::from_vao(0.0, 7, 0).unwrap();
    assert_eq!(empty.drawable, Some(Drawable { vao_id: 7, index_count: 0 }));
}

#[test]
fn from_vao_refuses_negative_count() {
    assert!(SceneNode::<f32>::from_vao(0.0, 3, -1).is_none());
}

#[test]
fn add_child_appends_in_order() {
    let mut root = group();
    let mut a = group();
    a.position.x = 1.0;
    let mut b = group();
    b.position.x = 2.0;
    root.add_child(a);
    root.add_child(b);
    assert_eq!(root.child_count(), 2);
    assert_eq!(root.children[0].position.x, 1.0);
    assert_eq!(root.children[1].position.x, 2.0);
}

#[test]
fn get_child_changes_the_child_in_place() {
    let mut root = group();
    root.add_child(group());
    root.add_child(group());
    root.get_child(1).position.z = 5.0;
    assert_eq!(root.children[1].position.z, 5.0);
    assert_eq!(root.children[0].position.z, 0.0);
}

#[test]
fn try_get_child_out_of_range_is_none() {
    let mut root = group();
    root.add_child(group());
    assert!(root.try_get_child(0).is_some());
    assert!(root.try_get_child(1).is_none());
    assert!(root.try_get_child(usize::MAX).is_none());
    assert!(group().try_get_child(0).is_none());
}

#[test]
fn local_factors_follow_the_pivot_sandwich() {
    let mut n = group();
    n.position = Vec3 { x: 1.0, y: 2.0, z: 3.0 };
    n.reference_point = Vec3 { x: 4.0, y: 5.0, z: 6.0 };
    n.rotation = Vec3 { x: 0.1, y: 0.2, z: 0.3 };
    let f = local_factors(&n);
    assert_eq!(f.len(), 6);
    assert!(matches!(f[0], Factor::Translate(Vec3 { x, .. }) if x == 1.0));
    assert!(matches!(f[1], Factor::Translate(Vec3 { x, .. }) if x == 4.0));
    assert!(matches!(f[2], Factor::RotateZ(a) if a == 0.3));
    assert!(matches!(f[3], Factor::RotateY(a) if a == 0.2));
    assert!(matches!(f[4], Factor::RotateX(a) if a == 0.1));
    assert!(matches!(f[5], Factor::TranslateBack(Vec3 { z, .. }) if z == 6.0));
}

#[test]
fn world_factors_concatenate_along_the_path() {
    let mut root = group();
    let mut body = group();
    body.position.x = 9.0;
    let mut tail = group();
    tail.rotation.x = 0.5;
    body.add_child(tail);
    root.add_child(group());
    root.add_child(body);
    let w = world_factors(&root, &vec![1, 0]).unwrap();
    assert_eq!(w.len(), 18);
    assert!(matches!(w[6], Factor::Translate(Vec3 { x, .. }) if x == 9.0));
    assert!(matches!(w[16], Factor::RotateX(a) if a == 0.5));
    assert_eq!(world_factors(&root, &vec![]).unwrap().len(), 6);
    assert!(world_factors(&root, &vec![2]).is_none());
    assert!(world_factors(&root, &vec![0, 0]).is_none());
}

#[test]
fn render_plan_is_preorder_with_parent_links() {
    // root -> [a -> [a0, a1], b]
    let mut root = group();
    let mut a = SceneNode::<f32>::from_vao(0.0, 1, 3).unwrap();
    a.add_child(SceneNode::<f32>::from_vao(0.0, 2, 3).unwrap());
    a.add_child(group());
    root.add_child(a);
    root.add_child(SceneNode::<f32>::from_vao(0.0, 4, 6).unwrap());
    let plan = render_plan(&root);
    assert_eq!(plan.len(), 5);
    let parents: Vec<Option<usize>> = plan.iter().map(|v| v.parent).collect();
    assert_eq!(parents, vec![None, Some(0), Some(1), Some(1), Some(0)]);
    let counts: Vec<usize> = plan.iter().map(|v| v.child_count).collect();
    assert_eq!(counts, vec![2, 2, 0, 0, 0]);
    let vaos: Vec<Option<u32>> = plan.iter().map(|v| v.drawable.map(|d| d.vao_id)).collect();
    assert_eq!(vaos, vec![None, Some(1), Some(2), None, Some(4)]);
    for v in &plan {
        assert_eq!(v.local.len(), 6);
    }
}

#[test]
fn render_plan_of_lone_root() {
    let plan = render_plan(&group());
    assert_eq!(plan.len(), 1);
    assert_eq!(plan[0].parent, None);
}
