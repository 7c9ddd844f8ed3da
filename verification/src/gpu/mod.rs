//! What the graphics processor is asked to do: the buffers that the solvers and
//! renderers keep there, the passes of every step and frame, and the backends
//! that turn input into steps.
//!
//! The modules hold plain values. The application turns them into calls of the
//! graphics interface.

pub mod backend;
pub mod clock;
pub mod context;
pub mod controls;
pub mod cpu_backends;
pub mod dispatch;
pub mod flip_gpu;
pub mod render;
pub mod sim;
pub mod smoke_gpu;
pub mod sph_backend;
