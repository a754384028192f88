//! Command-line options, as parsed.
use vstd::prelude::*;

use super::settings::OperationMode;

verus! {

/// Options of the command line: operation mode, log level, and the token
/// pairs to trade.
#[derive(Debug, Clone)]
pub struct Cli {
    /// Operation mode
    pub mode: OperationMode,
    /// Log level (trace, debug, info, warn, error)
    pub log_level: String,
    /// Token pairs (btc, eth, sol, xrp, doge)
    pub pairs: Vec<String>,
}

} // verus!
