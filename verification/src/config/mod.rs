//! Command-line options and the configuration built from them.
pub mod cli;
pub mod settings;
