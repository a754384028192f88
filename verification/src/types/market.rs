//! Markets and the assets (outcome tokens) they trade.
use vstd::prelude::*;
use vstd::string::*;

use crate::text::{lower_text, str_eq, to_lowercase};

verus! {

/// A crypto asset whose up/down markets are traded.
#[derive(Clone, Copy, Debug, PartialEq, Eq, Structural)]
pub enum CryptoPair {
    Btc,
    Eth,
    Sol,
    Xrp,
    Doge,
}

/// Prefix of the market slugs of a pair.
pub open spec fn pair_slug_prefix(c: CryptoPair) -> Seq<char> {
    match c {
        CryptoPair::Btc => "btc-updown"@,
        CryptoPair::Eth => "eth-updown"@,
        CryptoPair::Sol => "sol-updown"@,
        CryptoPair::Xrp => "xrp-updown"@,
        CryptoPair::Doge => "doge-updown"@,
    }
}

/// The pair whose name is `name`, if any.
pub open spec fn pair_named(name: Seq<char>) -> Option<CryptoPair> {
    if name == "btc"@ {
        Some(CryptoPair::Btc)
    } else if name == "eth"@ {
        Some(CryptoPair::Eth)
    } else if name == "sol"@ {
        Some(CryptoPair::Sol)
    } else if name == "xrp"@ {
        Some(CryptoPair::Xrp)
    } else if name == "doge"@ {
        Some(CryptoPair::Doge)
    } else {
        None
    }
}

/// Every pair's slug prefix is its name (the name `pair_named` reads as
/// that pair) followed by `-updown`.
pub proof fn lemma_slug_prefix_is_name_updown(c: CryptoPair)
    ensures
        pair_slug_prefix(c).len() > 7,
        pair_named(pair_slug_prefix(c).take(pair_slug_prefix(c).len() - 7)) == Some(c),
        pair_slug_prefix(c).skip(pair_slug_prefix(c).len() - 7) == "-updown"@,
{
    reveal_strlit("-updown");
    reveal_strlit("btc");
    reveal_strlit("eth");
    reveal_strlit("sol");
    reveal_strlit("xrp");
    reveal_strlit("doge");
    match c {
        CryptoPair::Btc => {
            reveal_strlit("btc");
            reveal_strlit("btc-updown");
            assert(pair_slug_prefix(c).take(pair_slug_prefix(c).len() - 7) =~= "btc"@);
            assert("btc"@[0] != "eth"@[0]);
            assert("btc"@[0] != "sol"@[0]);
            assert("btc"@[0] != "xrp"@[0]);
            assert("btc"@[0] != "doge"@[0]);
            assert(pair_named("btc"@) == Some(CryptoPair::Btc));
            assert(pair_slug_prefix(c).skip(pair_slug_prefix(c).len() - 7) =~= "-updown"@);
        },
        CryptoPair::Eth => {
            reveal_strlit("eth");
            reveal_strlit("eth-updown");
            assert(pair_slug_prefix(c).take(pair_slug_prefix(c).len() - 7) =~= "eth"@);
            assert("eth"@[0] != "btc"@[0]);
            assert("eth"@[0] != "sol"@[0]);
            assert("eth"@[0] != "xrp"@[0]);
            assert("eth"@[0] != "doge"@[0]);
            assert(pair_named("eth"@) == Some(CryptoPair::Eth));
            assert(pair_slug_prefix(c).skip(pair_slug_prefix(c).len() - 7) =~= "-updown"@);
        },
        CryptoPair::Sol => {
            reveal_strlit("sol");
            reveal_strlit("sol-updown");
            assert(pair_slug_prefix(c).take(pair_slug_prefix(c).len() - 7) =~= "sol"@);
            assert("sol"@[0] != "btc"@[0]);
            assert("sol"@[0] != "eth"@[0]);
            assert("sol"@[0] != "xrp"@[0]);
            assert("sol"@[0] != "doge"@[0]);
            assert(pair_named("sol"@) == Some(CryptoPair::Sol));
            assert(pair_slug_prefix(c).skip(pair_slug_prefix(c).len() - 7) =~= "-updown"@);
        },
        CryptoPair::Xrp => {
            reveal_strlit("xrp");
            reveal_strlit("xrp-updown");
            assert(pair_slug_prefix(c).take(pair_slug_prefix(c).len() - 7) =~= "xrp"@);
            assert("xrp"@[0] != "btc"@[0]);
            assert("xrp"@[0] != "eth"@[0]);
            assert("xrp"@[0] != "sol"@[0]);
            assert("xrp"@[0] != "doge"@[0]);
            assert(pair_named("xrp"@) == Some(CryptoPair::Xrp));
            assert(pair_slug_prefix(c).skip(pair_slug_prefix(c).len() - 7) =~= "-updown"@);
        },
        CryptoPair::Doge => {
            reveal_strlit("doge");
            reveal_strlit("doge-updown");
            assert(pair_slug_prefix(c).take(pair_slug_prefix(c).len() - 7) =~= "doge"@);
            assert("doge"@[0] != "btc"@[0]);
            assert("doge"@[0] != "eth"@[0]);
            assert("doge"@[0] != "sol"@[0]);
            assert("doge"@[0] != "xrp"@[0]);
            assert(pair_named("doge"@) == Some(CryptoPair::Doge));
            assert(pair_slug_prefix(c).skip(pair_slug_prefix(c).len() - 7) =~= "-updown"@);
        },
    }
}

impl CryptoPair {
    /// Prefix of the pair's market slugs, e.g. `"btc-updown"`.
    pub fn slug_prefix(&self) -> (r: &'static str)
        ensures
            r@ == pair_slug_prefix(*self),
    {
        match self {
            CryptoPair::Btc => "btc-updown",
            CryptoPair::Eth => "eth-updown",
            CryptoPair::Sol => "sol-updown",
            CryptoPair::Xrp => "xrp-updown",
            CryptoPair::Doge => "doge-updown",
        }
    }

    /// The pair with the given name, compared after lower-casing.
    pub fn from_name(name: &str) -> (r: Option<CryptoPair>)
        ensures
            r == pair_named(lower_text(name@)),
    {
        let lower = to_lowercase(name);
        pair_named_exec(lower.as_str())
    }
}

/// The pair named exactly `name`.
pub fn pair_named_exec(name: &str) -> (r: Option<CryptoPair>)
    ensures
        r == pair_named(name@),
{
    if str_eq(name, "btc") {
        Some(CryptoPair::Btc)
    } else if str_eq(name, "eth") {
        Some(CryptoPair::Eth)
    } else if str_eq(name, "sol") {
        Some(CryptoPair::Sol)
    } else if str_eq(name, "xrp") {
        Some(CryptoPair::Xrp)
    } else if str_eq(name, "doge") {
        Some(CryptoPair::Doge)
    } else {
        None
    }
}

/// Which side of a binary up/down market an asset pays out on.
#[derive(Clone, Copy, Debug, PartialEq, Eq, Structural)]
pub enum Outcome {
    Up,
    Down,
}

/// What an asset is: the outcome token of one pair's market.
#[derive(Clone, Copy, Debug, PartialEq, Eq, Structural)]
pub struct AssetInfo {
    pub crypto: CryptoPair,
    pub outcome: Outcome,
}

/// Displayed form of a pair, e.g. `BTC`.
pub open spec fn pair_label(c: CryptoPair) -> Seq<char> {
    match c {
        CryptoPair::Btc => "BTC"@,
        CryptoPair::Eth => "ETH"@,
        CryptoPair::Sol => "SOL"@,
        CryptoPair::Xrp => "XRP"@,
        CryptoPair::Doge => "DOGE"@,
    }
}

/// Displayed form of an outcome, `Up` or `Down`.
pub open spec fn outcome_label(o: Outcome) -> Seq<char> {
    match o {
        Outcome::Up => "Up"@,
        Outcome::Down => "Down"@,
    }
}

/// Displayed form of an asset's info, e.g. `BTC Up`.
pub open spec fn asset_info_text(i: AssetInfo) -> Seq<char> {
    pair_label(i.crypto) + " "@ + outcome_label(i.outcome)
}

impl AssetInfo {
    /// Displayed form (see `asset_info_text`).
    pub fn to_string(&self) -> (r: String)
        ensures
            r@ == asset_info_text(*self),
    {
        let mut s = String::from_str(match self.crypto {
            CryptoPair::Btc => "BTC",
            CryptoPair::Eth => "ETH",
            CryptoPair::Sol => "SOL",
            CryptoPair::Xrp => "XRP",
            CryptoPair::Doge => "DOGE",
        });
        s.append(" ");
        s.append(match self.outcome {
            Outcome::Up => "Up",
            Outcome::Down => "Down",
        });
        s
    }
}

/// The outcome an outcome label names (`"Up"` or `"Down"`).
pub open spec fn outcome_named(label: Seq<char>) -> Option<Outcome> {
    if label == "Up"@ {
        Some(Outcome::Up)
    } else if label == "Down"@ {
        Some(Outcome::Down)
    } else {
        None
    }
}

pub fn outcome_from_label(label: &str) -> (r: Option<Outcome>)
    ensures
        r == outcome_named(label@),
{
    if str_eq(label, "Up") {
        Some(Outcome::Up)
    } else if str_eq(label, "Down") {
        Some(Outcome::Down)
    } else {
        None
    }
}

/// A market as discovered through the market-data API. Prices are in
/// fixed-point units (see `decimal`).
#[derive(Debug, Clone)]
pub struct Market {
    pub id: String,
    pub slug: String,
    pub question: String,
    pub condition_id: String,
    pub outcomes: Vec<String>,
    pub outcome_prices: Vec<u64>,
    pub clob_token_ids: Vec<String>,
    pub active: bool,
    pub closed: bool,
}

/// The assets of a market: token `i` paired with outcome label `i`, for the
/// positions both lists have, keeping those whose label names an outcome.
pub open spec fn market_assets(
    outcomes: Seq<Seq<char>>,
    token_ids: Seq<Seq<char>>,
    crypto: CryptoPair,
    n: nat,
) -> Seq<(Seq<char>, AssetInfo)>
    decreases n,
{
    if n == 0 {
        Seq::empty()
    } else {
        let before = market_assets(outcomes, token_ids, crypto, (n - 1) as nat);
        match outcome_named(outcomes[n - 1]) {
            Some(o) => before.push((token_ids[n - 1], AssetInfo { crypto, outcome: o })),
            None => before,
        }
    }
}

pub open spec fn strings_view(v: Seq<String>) -> Seq<Seq<char>> {
    v.map_values(|s: String| s@)
}

pub open spec fn keyed_view<T>(v: Seq<(String, T)>) -> Seq<(Seq<char>, T)> {
    v.map_values(|p: (String, T)| (p.0@, p.1))
}

impl Market {
    /// The outcome tokens of this market, each with the pair and the outcome
    /// it stands for.
    pub fn extract_assets(&self, crypto: CryptoPair) -> (r: Vec<(String, AssetInfo)>)
        ensures
            keyed_view(r@) == market_assets(
                strings_view(self.outcomes@),
                strings_view(self.clob_token_ids@),
                crypto,
                if self.outcomes@.len() <= self.clob_token_ids@.len() {
                    self.outcomes@.len()
                } else {
                    self.clob_token_ids@.len()
                },
            ),
    {
        let n = if self.outcomes.len() <= self.clob_token_ids.len() {
            self.outcomes.len()
        } else {
            self.clob_token_ids.len()
        };
        let mut r: Vec<(String, AssetInfo)> = Vec::new();
        let mut i: usize = 0;
        while i < n
            invariant
                i <= n,
                n <= self.outcomes@.len(),
                n <= self.clob_token_ids@.len(),
                keyed_view(r@) == market_assets(
                    strings_view(self.outcomes@),
                    strings_view(self.clob_token_ids@),
                    crypto,
                    i as nat,
                ),
            decreases n - i,
        {
            let ghost before = r@;
            match outcome_from_label(self.outcomes[i].as_str()) {
                Some(o) => {
                    r.push((self.clob_token_ids[i].clone(), AssetInfo { crypto, outcome: o }));
                    assert(keyed_view(r@) =~= keyed_view(before).push(
                        (self.clob_token_ids@[i as int]@, AssetInfo { crypto, outcome: o }),
                    ));
                },
                None => {},
            }
            i = i + 1;
        }
        r
    }
}

} // verus!
