//! Fluids in the plane: smoothed particles, smoke on a grid, and water that is
//! both, with the plans for running them on a graphics processor.

pub mod flip;
pub mod gpu;
pub mod laws;
pub mod layout;
pub mod neighbors;
mod parallel;
pub mod reals;
pub mod scalar;
pub mod shell;
pub mod sim;
pub mod smoke;
pub mod vec2;
