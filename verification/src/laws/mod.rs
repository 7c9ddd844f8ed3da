//! What the fluids do, as laws over a reading of the scalars as real numbers.

pub mod air;
pub mod controls;
pub mod forces;
pub mod gas;
pub mod gusts;
pub mod keys;
pub mod liquid;
pub mod paint;
pub mod pairs;
pub mod start;
pub mod surge;
pub mod swell;
pub mod transfer;
pub mod water;
