//! The engine: market discovery, the strategy window, and event handling.
pub mod runner;

pub use runner::Engine;
