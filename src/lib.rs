//! Decision logic of a small 2D bouncing-ball simulation: the merging of
//! collision groups into one list of colliding bodies, the per-axis rule of
//! the wall step, and the length of a trajectory preview.
pub mod collision;
pub mod util;
pub mod walls;
