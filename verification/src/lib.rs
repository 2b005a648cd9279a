//! A verified CHIP-8 virtual machine: machine state, instruction semantics,
//! sprite compositing, timers, and fault conditions.

pub mod machine;
pub mod cycle;
pub mod laws;
pub mod entropy;
pub mod ops;
