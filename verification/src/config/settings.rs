//! Operation modes and the application configuration.
use vstd::prelude::*;
use vstd::string::*;

use super::cli::Cli;
use crate::text::{lower_text, str_eq, to_lowercase};
use crate::types::market::{pair_named, pair_named_exec, pair_slug_prefix, CryptoPair};

verus! {

#[derive(Debug, Clone, Copy, PartialEq, Eq, Structural)]
pub enum OperationMode {
    Live,
    SimulateLive,
    SimulatePersisted,
}

/// Name of a mode, as displayed and as parsed.
pub open spec fn mode_name(m: OperationMode) -> Seq<char> {
    match m {
        OperationMode::Live => "live"@,
        OperationMode::SimulateLive => "simulate-live"@,
        OperationMode::SimulatePersisted => "simulate-persisted"@,
    }
}

/// The mode with a given name.
pub open spec fn mode_named(name: Seq<char>) -> Option<OperationMode> {
    if name == "live"@ {
        Some(OperationMode::Live)
    } else if name == "simulate-live"@ {
        Some(OperationMode::SimulateLive)
    } else if name == "simulate-persisted"@ {
        Some(OperationMode::SimulatePersisted)
    } else {
        None
    }
}

/// Message for an unknown mode.
pub open spec fn invalid_mode_message(s: Seq<char>) -> Seq<char> {
    "Invalid mode '"@ + s + "'. Expected: live, simulate-live, simulate-persisted"@
}

impl OperationMode {
    /// Displayed name of the mode.
    pub fn to_string(&self) -> (r: String)
        ensures
            r@ == mode_name(*self),
    {
        match self {
            OperationMode::Live => String::from_str("live"),
            OperationMode::SimulateLive => String::from_str("simulate-live"),
            OperationMode::SimulatePersisted => String::from_str("simulate-persisted"),
        }
    }

    /// Parses a mode name, ignoring case.
    pub fn from_str(s: &str) -> (r: Result<OperationMode, String>)
        ensures
            match mode_named(lower_text(s@)) {
                Some(m) => r == Ok::<OperationMode, String>(m),
                None => r matches Err(e) && e@ == invalid_mode_message(s@),
            },
    {
        let lower = to_lowercase(s);
        if str_eq(lower.as_str(), "live") {
            Ok(OperationMode::Live)
        } else if str_eq(lower.as_str(), "simulate-live") {
            Ok(OperationMode::SimulateLive)
        } else if str_eq(lower.as_str(), "simulate-persisted") {
            Ok(OperationMode::SimulatePersisted)
        } else {
            let mut e = String::from_str("Invalid mode '");
            e.append(s);
            e.append("'. Expected: live, simulate-live, simulate-persisted");
            Err(e)
        }
    }
}

/// Symbol of a pair on the price feed.
pub open spec fn pair_binance_symbol(c: CryptoPair) -> Seq<char> {
    match c {
        CryptoPair::Btc => "btcusdt"@,
        CryptoPair::Eth => "ethusdt"@,
        CryptoPair::Sol => "solusdt"@,
        CryptoPair::Xrp => "xrpusdt"@,
        CryptoPair::Doge => "dogeusdt"@,
    }
}

/// Every pair's symbol on the price feed is its name (the name
/// `pair_named` reads as that pair) followed by `usdt`.
pub proof fn lemma_binance_symbol_is_name_usdt(c: CryptoPair)
    ensures
        pair_binance_symbol(c).len() > 4,
        pair_named(pair_binance_symbol(c).take(pair_binance_symbol(c).len() - 4)) == Some(c),
        pair_binance_symbol(c).skip(pair_binance_symbol(c).len() - 4) == "usdt"@,
{
    reveal_strlit("usdt");
    reveal_strlit("btc");
    reveal_strlit("eth");
    reveal_strlit("sol");
    reveal_strlit("xrp");
    reveal_strlit("doge");
    match c {
        CryptoPair::Btc => {
            reveal_strlit("btcusdt");
            assert(pair_binance_symbol(c).take(pair_binance_symbol(c).len() - 4) =~= "btc"@);
            assert(pair_binance_symbol(c).skip(pair_binance_symbol(c).len() - 4) =~= "usdt"@);
            assert("btc"@[0] != "eth"@[0]);
            assert("btc"@[0] != "sol"@[0]);
            assert("btc"@[0] != "xrp"@[0]);
            assert("btc"@[0] != "doge"@[0]);
            assert(pair_named("btc"@) == Some(CryptoPair::Btc));
        },
        CryptoPair::Eth => {
            reveal_strlit("ethusdt");
            assert(pair_binance_symbol(c).take(pair_binance_symbol(c).len() - 4) =~= "eth"@);
            assert(pair_binance_symbol(c).skip(pair_binance_symbol(c).len() - 4) =~= "usdt"@);
            assert("eth"@[0] != "btc"@[0]);
            assert("eth"@[0] != "sol"@[0]);
            assert("eth"@[0] != "xrp"@[0]);
            assert("eth"@[0] != "doge"@[0]);
            assert(pair_named("eth"@) == Some(CryptoPair::Eth));
        },
        CryptoPair::Sol => {
            reveal_strlit("solusdt");
            assert(pair_binance_symbol(c).take(pair_binance_symbol(c).len() - 4) =~= "sol"@);
            assert(pair_binance_symbol(c).skip(pair_binance_symbol(c).len() - 4) =~= "usdt"@);
            assert("sol"@[0] != "btc"@[0]);
            assert("sol"@[0] != "eth"@[0]);
            assert("sol"@[0] != "xrp"@[0]);
            assert("sol"@[0] != "doge"@[0]);
            assert(pair_named("sol"@) == Some(CryptoPair::Sol));
        },
        CryptoPair::Xrp => {
            reveal_strlit("xrpusdt");
            assert(pair_binance_symbol(c).take(pair_binance_symbol(c).len() - 4) =~= "xrp"@);
            assert(pair_binance_symbol(c).skip(pair_binance_symbol(c).len() - 4) =~= "usdt"@);
            assert("xrp"@[0] != "btc"@[0]);
            assert("xrp"@[0] != "eth"@[0]);
            assert("xrp"@[0] != "sol"@[0]);
            assert("xrp"@[0] != "doge"@[0]);
            assert(pair_named("xrp"@) == Some(CryptoPair::Xrp));
        },
        CryptoPair::Doge => {
            reveal_strlit("dogeusdt");
            assert(pair_binance_symbol(c).take(pair_binance_symbol(c).len() - 4) =~= "doge"@);
            assert(pair_binance_symbol(c).skip(pair_binance_symbol(c).len() - 4) =~= "usdt"@);
            assert("doge"@[0] != "btc"@[0]);
            assert("doge"@[0] != "eth"@[0]);
            assert("doge"@[0] != "sol"@[0]);
            assert("doge"@[0] != "xrp"@[0]);
            assert(pair_named("doge"@) == Some(CryptoPair::Doge));
        },
    }
}

/// A token pair to trade: its lower-case name, its symbol on the price
/// feed, and the prefix of its market slugs.
#[derive(Debug, Clone)]
pub struct TokenPairConfig {
    pub name: String,
    pub binance_symbol: String,
    pub polymarket_slug_prefix: String,
}

/// The configuration of a pair named `name` (any case) is known.
pub open spec fn known_pair(name: Seq<char>) -> bool {
    pair_named(lower_text(name)) is Some
}

/// `cfg` is the configuration of the pair named `name`.
pub open spec fn is_pair_config(cfg: TokenPairConfig, name: Seq<char>) -> bool {
    &&& pair_named(lower_text(name)) is Some
    &&& cfg.name@ == lower_text(name)
    &&& cfg.binance_symbol@ == pair_binance_symbol(pair_named(lower_text(name))->0)
    &&& cfg.polymarket_slug_prefix@ == pair_slug_prefix(pair_named(lower_text(name))->0)
}

impl TokenPairConfig {
    /// The configuration of a supported pair, by name (any case).
    pub fn from_name(name: &str) -> (r: Option<Self>)
        ensures
            r is Some <==> known_pair(name@),
            r matches Some(cfg) ==> is_pair_config(cfg, name@),
    {
        let lower = to_lowercase(name);
        let pair = match pair_named_exec(lower.as_str()) {
            Some(p) => p,
            None => return None,
        };
        let (binance_symbol, slug_prefix) = match pair {
            CryptoPair::Btc => ("btcusdt", "btc-updown"),
            CryptoPair::Eth => ("ethusdt", "eth-updown"),
            CryptoPair::Sol => ("solusdt", "sol-updown"),
            CryptoPair::Xrp => ("xrpusdt", "xrp-updown"),
            CryptoPair::Doge => ("dogeusdt", "doge-updown"),
        };
        Some(
            TokenPairConfig {
                name: lower,
                binance_symbol: String::from_str(binance_symbol),
                polymarket_slug_prefix: String::from_str(slug_prefix),
            },
        )
    }
}

/// Index of the first name that is not a supported pair, or the length.
pub open spec fn unknown_pair_position(names: Seq<Seq<char>>) -> nat
    decreases names.len(),
{
    if names.len() == 0 {
        0
    } else if !known_pair(names[0]) {
        0
    } else {
        1 + unknown_pair_position(names.drop_first())
    }
}

/// Message for an unknown pair.
pub open spec fn unknown_pair_message(p: Seq<char>) -> Seq<char> {
    "Unknown pair '"@ + p + "'. Supported: btc, eth, sol, doge"@
}

#[derive(Debug, Clone)]
pub struct AppConfig {
    pub mode: OperationMode,
    pub log_level: String,
    pub pairs: Vec<TokenPairConfig>,
}

proof fn lemma_unknown_pair_position(names: Seq<Seq<char>>, k: int)
    requires
        0 <= k <= names.len(),
        forall|m: int| 0 <= m < k ==> known_pair(#[trigger] names[m]),
        k == names.len() || !known_pair(names[k]),
    ensures
        unknown_pair_position(names) == k,
    decreases names.len(),
{
    if names.len() > 0 && known_pair(names[0]) {
        assert forall|m: int| 0 <= m < k - 1 implies known_pair(#[trigger] names.drop_first()[m]) by {
            assert(names.drop_first()[m] == names[m + 1]);
        }
        lemma_unknown_pair_position(names.drop_first(), k - 1);
    }
}

impl AppConfig {
    /// The configuration the command line asks for: fails on the first
    /// pair name that is not supported.
    pub fn from_cli(cli: &Cli) -> (r: Result<Self, String>)
        ensures
            ({
                let names = cli.pairs@.map_values(|s: String| s@);
                let k = unknown_pair_position(names);
                if k == names.len() {
                    r matches Ok(c) && c.mode == cli.mode && c.log_level@ == cli.log_level@
                        && c.pairs@.len() == names.len() && forall|i: int|
                        0 <= i < names.len() ==> is_pair_config(#[trigger] c.pairs@[i], names[i])
                } else {
                    r matches Err(e) && e@ == unknown_pair_message(names[k as int])
                }
            }),
    {
        let ghost names = cli.pairs@.map_values(|s: String| s@);
        let mut pairs: Vec<TokenPairConfig> = Vec::new();
        let mut i: usize = 0;
        while i < cli.pairs.len()
            invariant
                i <= cli.pairs@.len(),
                names == cli.pairs@.map_values(|s: String| s@),
                pairs@.len() == i,
                forall|m: int| 0 <= m < i ==> known_pair(#[trigger] names[m]),
                forall|m: int| 0 <= m < i ==> is_pair_config(#[trigger] pairs@[m], names[m]),
            decreases cli.pairs@.len() - i,
        {
            match TokenPairConfig::from_name(cli.pairs[i].as_str()) {
                Some(cfg) => {
                    pairs.push(cfg);
                },
                None => {
                    proof {
                        lemma_unknown_pair_position(names, i as int);
                    }
                    let mut e = String::from_str("Unknown pair '");
                    e.append(cli.pairs[i].as_str());
                    e.append("'. Supported: btc, eth, sol, doge");
                    return Err(e);
                },
            }
            i = i + 1;
        }
        proof {
            lemma_unknown_pair_position(names, names.len() as int);
        }
        Ok(AppConfig { mode: cli.mode, log_level: cli.log_level.clone(), pairs })
    }

    /// Price-feed symbols of the configured pairs, in order.
    pub fn binance_symbols(&self) -> (r: Vec<String>)
        ensures
            r@.map_values(|s: String| s@) == self.pairs@.map_values(
                |p: TokenPairConfig| p.binance_symbol@,
            ),
    {
        let mut r: Vec<String> = Vec::new();
        let mut i: usize = 0;
        while i < self.pairs.len()
            invariant
                i <= self.pairs@.len(),
                r@.len() == i,
                r@.map_values(|s: String| s@) == self.pairs@.take(i as int).map_values(
                    |p: TokenPairConfig| p.binance_symbol@,
                ),
            decreases self.pairs@.len() - i,
        {
            let ghost before = r@;
            let sym = self.pairs[i].binance_symbol.clone();
            r.push(sym);
            proof {
                assert(r@ == before.push(sym));
                assert forall|j: int| 0 <= j < i + 1 implies #[trigger] r@[j]@ == self.pairs@.take(
                    i as int + 1,
                )[j].binance_symbol@ by {
                    if j < i {
                        assert(r@[j] == before[j]);
                        assert(before.map_values(|s: String| s@)[j] == before[j]@);
                        assert(self.pairs@.take(i as int).map_values(|p: TokenPairConfig| p.binance_symbol@)[j]
                            == self.pairs@[j].binance_symbol@);
                    }
                }
                assert(r@.map_values(|s: String| s@) =~= self.pairs@.take(i as int + 1).map_values(
                    |p: TokenPairConfig| p.binance_symbol@,
                ));
            }
            i = i + 1;
        }
        proof {
            assert(self.pairs@.take(self.pairs@.len() as int) =~= self.pairs@);
        }
        r
    }
}

} // verus!
