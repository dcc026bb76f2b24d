use gloom_scene::input::{Accumulator, PressedKeys, WindowSize};

#[test]
fn press_adds_each_key_once() {
    let mut k = PressedKeys::new();
    k.press(4);
    k.press(9);
    k.press(4);
    assert_eq!(k.snapshot(), vec![4, 9]);
    assert!(k.contains(9));
    assert!(!k.contains(1));
}

#[test]
fn release_removes_and_keeps_order() {
    let mut k = PressedKeys::new();
    k.press(1);
    k.press(2);
    k.press(3);
    k.release(2);
    assert_eq!(k.snapshot(), vec![1, 3]);
    k.release(7);
    assert_eq!(k.snapshot(), vec![1, 3]);
    k.release(1);
    k.release(3);
    assert!(k.snapshot().is_empty());
}

#[test]
fn drain_hands_out_once_then_zero() {
    let mut m = Accumulator::new((0.0f32, 0.0f32));
    let (x, y) = m.value();
    m.set((x + 3.0, y - 1.5));
    let (x, y) = m.value();
    m.set((x + 1.0, y + 0.5));
    assert_eq!(m.drain(), (4.0, -1.0));
    assert_eq!(m.drain(), (0.0, 0.0));
    assert_eq!(m.value(), (0.0, 0.0));
}

#[test]
fn resize_is_seen_once() {
    let mut w = WindowSize::new(800, 600);
    assert_eq!(w.take_resize(), None);
    w.resize(1024, 768);
    w.resize(1280, 720);
    assert_eq!(w.take_resize(), Some((1280, 720)));
    assert_eq!(w.take_resize(), None);
    assert_eq!(w, WindowSize { width: 1280, height: 720, resized: false });
}
