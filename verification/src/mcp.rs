//! Tool-call argument shapes for the agent protocol layer.

pub mod tools;
