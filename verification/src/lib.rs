//! Core of a real-time presentation engine: the frame-presentation state
//! machine, the presentation-surface bookkeeping, a scene graph with verified
//! transform propagation, the partitioning and merge rules of the parallel
//! draw dispatcher, and the scene-manager stack machine.
//!
//! Everything that talks to the GPU, the platform window, a clock or a random
//! number generator lives outside this crate; the library works on plain
//! values and states exactly what each step computes.

pub mod dispatch;
pub mod error;
pub mod frame;
pub mod id;
pub mod mat4;
pub mod model;
pub mod scene;
pub mod swapchain;

pub use error::RuntimeError;
pub use mat4::Mat4x4;
