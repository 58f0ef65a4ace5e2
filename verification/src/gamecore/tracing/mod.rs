//! Tracing of combat and effect resolution, for debugging.

pub mod combat_tracer;
pub mod effect_tracer;
