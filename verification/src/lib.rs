//! Verified core of the NEURO compiler: control-flow graphs, GPU kernel generation,
//! named-argument binding, and the shape arithmetic of tensor lowering.

pub mod control_flow;
pub mod text;
pub mod gpu;
pub mod arguments;
pub mod lowering;
