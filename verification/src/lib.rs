//! Verified core of a GPU cave-noise generator: the colour-gradient model that
//! feeds the gradient texture, the stable orderings it relies on, and the
//! bookkeeping that drives the chain of compute passes.

pub mod float_order;
pub mod sorting;
pub mod gradient;
pub mod passes;
pub mod cache;
pub mod texture;
pub mod readback;
pub mod camera;
pub mod resources;
