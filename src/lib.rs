//! A scene graph of owned transform nodes, with the pivot-correct composition
//! of local transforms, a depth-first render walk, the per-frame animation of
//! a helicopter fleet, and the small shared cells that carry input from an
//! event thread to a render thread.

pub mod animation;
pub mod compositor;
pub mod input;
pub mod scene_graph;
pub mod traversal;
