//! Order execution.
pub mod simulated;
