//! Symbolic AIR constraint traces and their text rendering.
//!
//! The library records the constraints that an AIR emits while it is evaluated
//! over symbolic trace variables, flattens nested sums and products, and
//! renders the recorded trace as indented text lines.

pub mod expr;
pub mod flat;
pub mod text;
pub mod render;
pub mod readback;
pub mod builder;
pub mod adapter;
pub mod commands;
pub use commands::{print_circuit, PrintCircuitArgs};
