//! Order books: per-asset snapshots and the manager that keeps them.
use vstd::prelude::*;
use vstd::string::*;

use super::levels::{
    distinct_prices, lemma_sort_levels_distinct, is_book_ordered, lemma_sort_levels_ordered, lemma_sort_levels_permutation, ranks_before,
    sort_levels, sort_levels_exec,
};
use super::market::{asset_info_text, strings_view, AssetInfo, CryptoPair, Outcome};
use crate::strmap::{lemma_entries_map_dom, lemma_entries_map_index, unique_keys, StrMap};
use crate::text::{decimal_string, fixed_string, pad_left, push_decimal, push_fixed, push_padded, str_eq};

verus! {

/// One price level: a price and the size resting at it, both in fixed-point
/// units (see `decimal`).
#[derive(Debug, Clone, Copy, PartialEq, Eq, Structural)]
pub struct PriceLevel {
    pub price: u64,
    pub size: u64,
}

/// Index of the first level at exactly `price`, or `s.len()` if none.
pub open spec fn price_position(s: Seq<PriceLevel>, price: u64) -> nat
    decreases s.len(),
{
    if s.len() == 0 {
        0
    } else if s[0].price == price {
        0
    } else {
        1 + price_position(s.drop_first(), price)
    }
}

/// One side of a book after a level update: the first level at `price` is
/// removed when `size` is 0 and otherwise takes the new size; a price not on
/// the book is added (when `size` > 0) and the side re-sorted.
pub open spec fn updated_levels(s: Seq<PriceLevel>, price: u64, size: u64, desc: bool) -> Seq<
    PriceLevel,
> {
    let i = price_position(s, price);
    if i < s.len() {
        if size == 0 {
            s.remove(i as int)
        } else {
            s.update(i as int, PriceLevel { price: s[i as int].price, size })
        }
    } else if size > 0 {
        sort_levels(s.push(PriceLevel { price, size }), desc)
    } else {
        s
    }
}

/// `price_position` is the index of the first level at the price, or the
/// length when no level has it.
pub proof fn lemma_price_position(s: Seq<PriceLevel>, price: u64)
    ensures
        price_position(s, price) <= s.len(),
        price_position(s, price) < s.len() ==> s[price_position(s, price) as int].price == price,
        forall|m: int| 0 <= m < price_position(s, price) ==> #[trigger] s[m].price != price,
    decreases s.len(),
{
    if s.len() > 0 && s[0].price != price {
        lemma_price_position(s.drop_first(), price);
        assert forall|m: int| 0 <= m < price_position(s, price) implies #[trigger] s[m].price
            != price by {
            if m > 0 {
                assert(s[m] == s.drop_first()[m - 1]);
            }
        }
    }
}

proof fn lemma_price_position_is(s: Seq<PriceLevel>, price: u64, k: int)
    requires
        0 <= k <= s.len(),
        forall|m: int| 0 <= m < k ==> #[trigger] s[m].price != price,
        k == s.len() || s[k].price == price,
    ensures
        price_position(s, price) == k,
    decreases s.len(),
{
    if s.len() > 0 && s[0].price != price {
        assert forall|m: int| 0 <= m < k - 1 implies #[trigger] s.drop_first()[m].price != price by {
            assert(s.drop_first()[m] == s[m + 1]);
        }
        lemma_price_position_is(s.drop_first(), price, k - 1);
    }
}

/// A level update keeps a side in book order.
pub proof fn lemma_updated_levels_ordered(s: Seq<PriceLevel>, price: u64, size: u64, desc: bool)
    requires
        is_book_ordered(s, desc),
    ensures
        is_book_ordered(updated_levels(s, price, size, desc), desc),
{
    lemma_price_position(s, price);
    let i = price_position(s, price);
    if i < s.len() {
        if size == 0 {
            let r = s.remove(i as int);
            assert forall|a: int, b: int| 0 <= a < b < r.len() implies ranks_before(
                #[trigger] r[a],
                #[trigger] r[b],
                desc,
            ) by {
                let a2 = if a < i { a } else { a + 1 };
                let b2 = if b < i { b } else { b + 1 };
                assert(r[a] == s[a2] && r[b] == s[b2]);
            }
        } else {
            let r = s.update(i as int, PriceLevel { price: s[i as int].price, size });
            assert forall|a: int, b: int| 0 <= a < b < r.len() implies ranks_before(
                #[trigger] r[a],
                #[trigger] r[b],
                desc,
            ) by {
                assert(ranks_before(s[a], s[b], desc));
            }
        }
    } else if size > 0 {
        lemma_sort_levels_ordered(s.push(PriceLevel { price, size }), desc);
    }
}

/// After an update with a nonzero size the side has a level at that price
/// with that size.
pub proof fn lemma_updated_levels_sets_size(s: Seq<PriceLevel>, price: u64, size: u64, desc: bool)
    requires
        size > 0,
    ensures
        updated_levels(s, price, size, desc).contains(PriceLevel { price, size }),
{
    broadcast use vstd::seq_lib::group_to_multiset_ensures;

    lemma_price_position(s, price);
    let i = price_position(s, price);
    let x = PriceLevel { price, size };
    if i < s.len() {
        assert(updated_levels(s, price, size, desc)[i as int] == x);
    } else {
        let t = s.push(x);
        lemma_sort_levels_permutation(t, desc);
        assert(t[t.len() - 1] == x);
        assert(t.to_multiset().count(x) > 0);
        assert(sort_levels(t, desc).to_multiset().count(x) > 0);
    }
}

/// Where the side has a level at the price, an update touches only the
/// first such level `i`: a nonzero size replaces that level's size and keeps
/// every level in place (same length, same prices, other sizes unchanged); a
/// zero size takes out that level alone and keeps the others in order. A
/// side without a level at the price is left as it is by a zero size.
pub proof fn lemma_updated_levels_in_place(s: Seq<PriceLevel>, price: u64, size: u64, desc: bool, i: int)
    requires
        0 <= i < s.len(),
        s[i].price == price,
        forall|m: int| 0 <= m < i ==> #[trigger] s[m].price != price,
    ensures
        size > 0 ==> {
            &&& updated_levels(s, price, size, desc).len() == s.len()
            &&& updated_levels(s, price, size, desc)[i] == (PriceLevel { price, size })
            &&& forall|j: int|
                0 <= j < s.len() && j != i ==> #[trigger] updated_levels(s, price, size, desc)[j] == s[j]
        },
        size == 0 ==> {
            &&& updated_levels(s, price, size, desc).len() == s.len() - 1
            &&& forall|j: int| 0 <= j < i ==> #[trigger] updated_levels(s, price, size, desc)[j] == s[j]
            &&& forall|j: int|
                i <= j < s.len() - 1 ==> #[trigger] updated_levels(s, price, size, desc)[j] == s[j + 1]
        },
{
    lemma_price_position(s, price);
    lemma_price_position_is(s, price, i);
}

/// A zero-size update at a price the side does not have changes nothing.
pub proof fn lemma_updated_levels_absent_zero(s: Seq<PriceLevel>, price: u64, desc: bool)
    requires
        forall|m: int| 0 <= m < s.len() ==> #[trigger] s[m].price != price,
    ensures
        updated_levels(s, price, 0, desc) == s,
{
    lemma_price_position_is(s, price, s.len() as int);
}

/// A nonzero-size update at a price the side does not have adds exactly one
/// level, at that price with that size, keeps every other level, and puts
/// the side in book order.
pub proof fn lemma_updated_levels_adds(s: Seq<PriceLevel>, price: u64, size: u64, desc: bool)
    requires
        size > 0,
        forall|m: int| 0 <= m < s.len() ==> #[trigger] s[m].price != price,
    ensures
        updated_levels(s, price, size, desc).len() == s.len() + 1,
        updated_levels(s, price, size, desc).to_multiset() == s.to_multiset().insert(PriceLevel { price, size }),
        is_book_ordered(updated_levels(s, price, size, desc), desc),
{
    broadcast use vstd::seq_lib::group_to_multiset_ensures;

    lemma_price_position_is(s, price, s.len() as int);
    let t = s.push(PriceLevel { price, size });
    lemma_sort_levels_permutation(t, desc);
    lemma_sort_levels_ordered(t, desc);
    assert(t.to_multiset() == s.to_multiset().insert(PriceLevel { price, size }));
}

/// After an update with size 0, on a side where no price repeats, no level
/// is left at that price.
pub proof fn lemma_updated_levels_removes(s: Seq<PriceLevel>, price: u64, desc: bool)
    requires
        forall|a: int, b: int| 0 <= a < b < s.len() ==> #[trigger] s[a].price != #[trigger] s[b].price,
    ensures
        forall|m: int|
            0 <= m < updated_levels(s, price, 0, desc).len() ==> #[trigger] updated_levels(
                s,
                price,
                0,
                desc,
            )[m].price != price,
{
    lemma_price_position(s, price);
    let i = price_position(s, price);
    if i < s.len() {
        let r = s.remove(i as int);
        assert forall|m: int| 0 <= m < r.len() implies #[trigger] r[m].price != price by {
            if m < i {
            } else {
                assert(r[m] == s[m + 1]);
                assert(s[i as int].price != s[m + 1].price);
            }
        }
    }
}

/// A level update keeps the prices of a side distinct: no two levels of a
/// side share a price afterwards.
pub proof fn lemma_updated_levels_distinct(s: Seq<PriceLevel>, price: u64, size: u64, desc: bool)
    requires
        distinct_prices(s),
    ensures
        distinct_prices(updated_levels(s, price, size, desc)),
{
    lemma_price_position(s, price);
    let i = price_position(s, price);
    if i < s.len() {
        if size == 0 {
            let r = s.remove(i as int);
            assert forall|a: int, b: int| 0 <= a < b < r.len() implies #[trigger] r[a].price
                != #[trigger] r[b].price by {
                let a2 = if a < i { a } else { a + 1 };
                let b2 = if b < i { b } else { b + 1 };
                assert(r[a] == s[a2] && r[b] == s[b2]);
            }
        } else {
            let r = s.update(i as int, PriceLevel { price: s[i as int].price, size });
            assert forall|a: int, b: int| 0 <= a < b < r.len() implies #[trigger] r[a].price
                != #[trigger] r[b].price by {
                assert(r[a].price == s[a].price && r[b].price == s[b].price);
            }
        }
    } else if size > 0 {
        let x = PriceLevel { price, size };
        let t = s.push(x);
        assert forall|a: int, b: int| 0 <= a < b < t.len() implies #[trigger] t[a].price
            != #[trigger] t[b].price by {
            if b == s.len() {
                assert(t[a] == s[a]);
            } else {
                assert(t[a] == s[a] && t[b] == s[b]);
            }
        }
        lemma_sort_levels_distinct(t, desc);
    }
}

/// Maintained order book of one asset: bids best (highest) first, asks best
/// (lowest) first.
#[derive(Debug, Clone)]
pub struct OrderbookSnapshot {
    pub asset_id: String,
    pub info: AssetInfo,
    pub bids: Vec<PriceLevel>,
    pub asks: Vec<PriceLevel>,
}

pub struct SnapshotView {
    pub asset_id: Seq<char>,
    pub info: AssetInfo,
    pub bids: Seq<PriceLevel>,
    pub asks: Seq<PriceLevel>,
}

impl View for OrderbookSnapshot {
    type V = SnapshotView;

    open spec fn view(&self) -> SnapshotView {
        SnapshotView {
            asset_id: self.asset_id@,
            info: self.info,
            bids: self.bids@,
            asks: self.asks@,
        }
    }
}

/// Both sides are in book order.
pub open spec fn snapshot_ordered(s: SnapshotView) -> bool {
    is_book_ordered(s.bids, true) && is_book_ordered(s.asks, false)
}

/// Whether a side label names the bid side.
pub fn is_buy_side(side: &str) -> (r: bool)
    ensures
        r == (side@ == "BUY"@),
{
    str_eq(side, "BUY")
}

impl OrderbookSnapshot {
    pub fn new(asset_id: String, info: AssetInfo) -> (s: Self)
        ensures
            s@ == (SnapshotView {
                asset_id: asset_id@,
                info,
                bids: Seq::empty(),
                asks: Seq::empty(),
            }),
    {
        let s = OrderbookSnapshot { asset_id, info, bids: Vec::new(), asks: Vec::new() };
        assert(s@.bids =~= Seq::<PriceLevel>::empty());
        s
    }

    /// Replaces both sides, sorting them into book order.
    pub fn replace(&mut self, bids: Vec<PriceLevel>, asks: Vec<PriceLevel>)
        ensures
            final(self)@ == (SnapshotView {
                asset_id: old(self)@.asset_id,
                info: old(self)@.info,
                bids: sort_levels(bids@, true),
                asks: sort_levels(asks@, false),
            }),
    {
        self.bids = bids;
        self.asks = asks;
        self.sort();
    }

    /// `replace` from borrowed levels.
    fn replace_from(&mut self, bids: &Vec<PriceLevel>, asks: &Vec<PriceLevel>)
        ensures
            final(self)@ == (SnapshotView {
                asset_id: old(self)@.asset_id,
                info: old(self)@.info,
                bids: sort_levels(bids@, true),
                asks: sort_levels(asks@, false),
            }),
    {
        self.bids = sort_levels_exec(bids, true);
        self.asks = sort_levels_exec(asks, false);
    }

    /// Applies a single level update to the side named by `side` (`"BUY"`
    /// for bids, anything else for asks). Size 0 removes the level.
    pub fn apply_level(&mut self, price: u64, size: u64, side: &str)
        ensures
            final(self)@.asset_id == old(self)@.asset_id,
            final(self)@.info == old(self)@.info,
            side@ == "BUY"@ ==> final(self)@.bids == updated_levels(old(self)@.bids, price, size, true)
                && final(self)@.asks == old(self)@.asks,
            side@ != "BUY"@ ==> final(self)@.asks == updated_levels(
                old(self)@.asks,
                price,
                size,
                false,
            ) && final(self)@.bids == old(self)@.bids,
    {
        if is_buy_side(side) {
            update_side(&mut self.bids, price, size, true);
        } else {
            update_side(&mut self.asks, price, size, false);
        }
    }

    /// Brings the book in line with the best prices the feed reports: takes
    /// off the bids above `best_bid` and the asks below `best_ask`.
    pub fn reconcile(&mut self, best_bid: u64, best_ask: u64)
        ensures
            final(self)@ == reconciled(old(self)@, best_bid, best_ask),
    {
        drop_leading_above(&mut self.bids, best_bid);
        drop_leading_below(&mut self.asks, best_ask);
    }

    pub fn best_bid(&self) -> (r: Option<&PriceLevel>)
        ensures
            match r {
                Some(l) => self.bids@.len() > 0 && *l == self.bids@[0],
                None => self.bids@.len() == 0,
            },
    {
        if self.bids.len() > 0 {
            Some(&self.bids[0])
        } else {
            None
        }
    }

    pub fn best_ask(&self) -> (r: Option<&PriceLevel>)
        ensures
            match r {
                Some(l) => self.asks@.len() > 0 && *l == self.asks@[0],
                None => self.asks@.len() == 0,
            },
    {
        if self.asks.len() > 0 {
            Some(&self.asks[0])
        } else {
            None
        }
    }

    fn sort(&mut self)
        ensures
            final(self)@ == (SnapshotView {
                asset_id: old(self)@.asset_id,
                info: old(self)@.info,
                bids: sort_levels(old(self)@.bids, true),
                asks: sort_levels(old(self)@.asks, false),
            }),
    {
        self.bids = sort_levels_exec(&self.bids, true);
        self.asks = sort_levels_exec(&self.asks, false);
    }
}

/// Bytes in the UTF-8 encoding of a character (`char::len_utf8`).
pub open spec fn utf8_width(c: char) -> nat {
    let u = c as u32;
    if u < 0x80 {
        1
    } else if u < 0x800 {
        2
    } else if u < 0x10000 {
        3
    } else {
        4
    }
}

/// Bytes in the UTF-8 encoding of a text.
pub open spec fn utf8_len(s: Seq<char>) -> nat
    decreases s.len(),
{
    if s.len() == 0 {
        0
    } else {
        utf8_width(s[0]) + utf8_len(s.drop_first())
    }
}

/// The longest prefix of `s` whose UTF-8 encoding takes at most `n` bytes.
pub open spec fn byte_prefix(s: Seq<char>, n: nat) -> Seq<char>
    decreases s.len(),
{
    if s.len() == 0 || utf8_width(s[0]) > n {
        Seq::empty()
    } else {
        seq![s[0]] + byte_prefix(s.drop_first(), (n - utf8_width(s[0])) as nat)
    }
}

/// The first 8 bytes of an asset id, as text (all of it when shorter).
pub open spec fn short_id(id: Seq<char>) -> Seq<char> {
    byte_prefix(id, 8)
}

/// Cutting an asset id after its eighth byte does not split a character.
pub open spec fn short_id_cuts_cleanly(id: Seq<char>) -> bool {
    utf8_len(id) <= 8 || utf8_len(short_id(id)) == 8
}

fn utf8_width_exec(c: char) -> (w: usize)
    ensures
        w == utf8_width(c),
{
    let u = c as u32;
    if u < 0x80 {
        1
    } else if u < 0x800 {
        2
    } else if u < 0x10000 {
        3
    } else {
        4
    }
}

/// The first 8 bytes of an asset id.
fn short_id_of(id: &str) -> (r: &str)
    ensures
        r@ == short_id(id@),
{
    let n = id.unicode_len();
    let mut i: usize = 0;
    let mut budget: usize = 8;
    proof {
        assert(id@.subrange(0, n as int) =~= id@);
        assert(id@.subrange(0, 0) + byte_prefix(id@, 8) =~= byte_prefix(id@, 8));
    }
    while i < n && utf8_width_exec(id.get_char(i)) <= budget
        invariant
            i <= n,
            n == id@.len(),
            budget <= 8,
            short_id(id@) == id@.subrange(0, i as int) + byte_prefix(
                id@.subrange(i as int, n as int),
                budget as nat,
            ),
        decreases n - i,
    {
        let w = utf8_width_exec(id.get_char(i));
        proof {
            let rest = id@.subrange(i as int, n as int);
            assert(rest[0] == id@[i as int]);
            assert(rest.drop_first() =~= id@.subrange(i as int + 1, n as int));
            assert(id@.subrange(0, i as int + 1) =~= id@.subrange(0, i as int) + seq![id@[i as int]]);
        }
        budget = budget - w;
        i = i + 1;
    }
    proof {
        let rest = id@.subrange(i as int, n as int);
        if i < n {
            assert(rest[0] == id@[i as int]);
        }
        assert(byte_prefix(rest, budget as nat) =~= Seq::<char>::empty());
        assert(short_id(id@) =~= id@.subrange(0, i as int));
    }
    id.substring_char(0, i)
}

/// The best price of a side with 2 decimals, or `-` for an empty side.
pub open spec fn best_text(side: Seq<PriceLevel>) -> Seq<char> {
    if side.len() > 0 {
        fixed_string(side[0].price as nat, 2)
    } else {
        "-"@
    }
}

/// Size of level `i` of a side with 2 decimals; empty past the last level.
pub open spec fn size_cell(side: Seq<PriceLevel>, i: int) -> Seq<char> {
    if i < side.len() {
        fixed_string(side[i].size as nat, 2)
    } else {
        Seq::empty()
    }
}

/// Price of level `i` of a side with 2 decimals; empty past the last level.
pub open spec fn price_cell(side: Seq<PriceLevel>, i: int) -> Seq<char> {
    if i < side.len() {
        fixed_string(side[i].price as nat, 2)
    } else {
        Seq::empty()
    }
}

/// One line of the depth table: four cells right-aligned in 12 columns.
pub open spec fn table_row(a: Seq<char>, b: Seq<char>, c: Seq<char>, d: Seq<char>) -> Seq<char> {
    "  "@ + pad_left(a, 12) + " "@ + pad_left(b, 12) + " | "@ + pad_left(c, 12) + " "@ + pad_left(d, 12)
        + "\n"@
}

/// Levels shown in the depth table: as many as the deeper side has, at
/// most 5.
pub open spec fn book_depth(b: SnapshotView) -> nat {
    let deeper = if b.bids.len() >= b.asks.len() {
        b.bids.len()
    } else {
        b.asks.len()
    };
    if deeper < 5 {
        deeper
    } else {
        5
    }
}

/// The first `n` rows of the depth table: bid size, bid price, ask price,
/// ask size.
pub open spec fn book_rows(b: SnapshotView, n: nat) -> Seq<char>
    decreases n,
{
    if n == 0 {
        Seq::empty()
    } else {
        book_rows(b, (n - 1) as nat) + table_row(
            size_cell(b.bids, n - 1),
            price_cell(b.bids, n - 1),
            price_cell(b.asks, n - 1),
            size_cell(b.asks, n - 1),
        )
    }
}

/// `a - b`, or 0 when `b` is larger.
pub open spec fn sat_sub(a: nat, b: nat) -> nat {
    if a >= b {
        (a - b) as nat
    } else {
        0
    }
}

/// Displayed form of a book: a header line with the asset's short id, its
/// info and the best prices, the depth table, and a line counting the
/// levels left out, if any.
pub open spec fn snapshot_text(b: SnapshotView) -> Seq<char> {
    let depth = book_depth(b);
    "  Orderbook "@ + short_id(b.asset_id) + " ("@ + asset_info_text(b.info) + ") | best_bid="@
        + best_text(b.bids) + " best_ask="@ + best_text(b.asks) + "\n"@ + table_row(
        "BID_SZ"@,
        "BID_PX"@,
        "ASK_PX"@,
        "ASK_SZ"@,
    ) + book_rows(b, depth) + if b.bids.len() > depth || b.asks.len() > depth {
        "  ... +"@ + decimal_string(sat_sub(b.bids.len(), depth)) + " bids, +"@ + decimal_string(
            sat_sub(b.asks.len(), depth),
        ) + " asks\n"@
    } else {
        Seq::empty()
    }
}

/// Appends one line of the depth table.
fn push_row(out: &mut String, a: &str, b: &str, c: &str, d: &str)
    ensures
        final(out)@ == old(out)@ + table_row(a@, b@, c@, d@),
{
    out.append("  ");
    push_padded(out, a, 12);
    out.append(" ");
    push_padded(out, b, 12);
    out.append(" | ");
    push_padded(out, c, 12);
    out.append(" ");
    push_padded(out, d, 12);
    out.append("\n");
    assert(final(out)@ =~= old(out)@ + table_row(a@, b@, c@, d@));
}

/// A quantity with 2 decimals, as a new string.
fn two_decimals(v: u64) -> (r: String)
    ensures
        r@ == fixed_string(v as nat, 2),
{
    let mut s = String::new();
    push_fixed(&mut s, v, 2);
    assert(s@ =~= fixed_string(v as nat, 2));
    s
}

/// Size cell of level `i` of a side.
fn size_cell_text(side: &Vec<PriceLevel>, i: usize) -> (r: String)
    ensures
        r@ == size_cell(side@, i as int),
{
    if i < side.len() {
        two_decimals(side[i].size)
    } else {
        String::new()
    }
}

/// Price cell of level `i` of a side.
fn price_cell_text(side: &Vec<PriceLevel>, i: usize) -> (r: String)
    ensures
        r@ == price_cell(side@, i as int),
{
    if i < side.len() {
        two_decimals(side[i].price)
    } else {
        String::new()
    }
}

impl OrderbookSnapshot {
    /// Displayed form (see `snapshot_text`). The short id cuts the asset id
    /// after its eighth byte, which must end a character.
    #[verifier::spinoff_prover]
    #[verifier::rlimit(40)]
    pub fn to_string(&self) -> (r: String)
        requires
            short_id_cuts_cleanly(self.asset_id@),
        ensures
            r@ == snapshot_text(self@),
    {
        let head = short_id_of(self.asset_id.as_str());
        let mut s = String::from_str("  Orderbook ");
        s.append(head);
        s.append(" (");
        s.append(self.info.to_string().as_str());
        s.append(") | best_bid=");
        if self.bids.len() > 0 {
            push_fixed(&mut s, self.bids[0].price, 2);
        } else {
            s.append("-");
        }
        s.append(" best_ask=");
        if self.asks.len() > 0 {
            push_fixed(&mut s, self.asks[0].price, 2);
        } else {
            s.append("-");
        }
        s.append("\n");
        push_row(&mut s, "BID_SZ", "BID_PX", "ASK_PX", "ASK_SZ");
        let ghost header = s@;
        let deeper = if self.bids.len() >= self.asks.len() {
            self.bids.len()
        } else {
            self.asks.len()
        };
        let depth: usize = if deeper < 5 {
            deeper
        } else {
            5
        };
        let mut i: usize = 0;
        while i < depth
            invariant
                i <= depth,
                depth == book_depth(self@),
                s@ == header + book_rows(self@, i as nat),
            decreases depth - i,
        {
            let bid_sz = size_cell_text(&self.bids, i);
            let bid_px = price_cell_text(&self.bids, i);
            let ask_px = price_cell_text(&self.asks, i);
            let ask_sz = size_cell_text(&self.asks, i);
            push_row(&mut s, bid_sz.as_str(), bid_px.as_str(), ask_px.as_str(), ask_sz.as_str());
            assert(s@ =~= header + book_rows(self@, (i + 1) as nat));
            i = i + 1;
        }
        let ghost rows = s@;
        if self.bids.len() > depth || self.asks.len() > depth {
            s.append("  ... +");
            let more_bids: usize = if self.bids.len() >= depth {
                self.bids.len() - depth
            } else {
                0
            };
            push_decimal(&mut s, more_bids as u64);
            s.append(" bids, +");
            let more_asks: usize = if self.asks.len() >= depth {
                self.asks.len() - depth
            } else {
                0
            };
            push_decimal(&mut s, more_asks as u64);
            s.append(" asks\n");
        }
        assert(s@ =~= snapshot_text(self@));
        s
    }
}

/// Applies a level update to one side.
fn update_side(levels: &mut Vec<PriceLevel>, price: u64, size: u64, desc: bool)
    ensures
        final(levels)@ == updated_levels(old(levels)@, price, size, desc),
{
    let mut pos: usize = 0;
    while pos < levels.len() && levels[pos].price != price
        invariant
            pos <= levels@.len(),
            forall|m: int| 0 <= m < pos ==> #[trigger] levels@[m].price != price,
        decreases levels@.len() - pos,
    {
        pos = pos + 1;
    }
    proof {
        lemma_price_position_is(levels@, price, pos as int);
    }
    if pos < levels.len() {
        if size == 0 {
            levels.remove(pos);
        } else {
            let p = levels[pos].price;
            levels.set(pos, PriceLevel { price: p, size });
        }
    } else if size > 0 {
        levels.push(PriceLevel { price, size });
        let sorted = sort_levels_exec(levels, desc);
        *levels = sorted;
    }
}


/// An order-book update from the market feed. Prices and sizes are in
/// fixed-point units.
#[derive(Debug, Clone)]
pub enum OrderbookEvent {
    Snapshot {
        asset_id: String,
        market: String,
        bids: Vec<PriceLevel>,
        asks: Vec<PriceLevel>,
        timestamp: Option<String>,
    },
    PriceChange {
        asset_id: String,
        market: String,
        price: u64,
        size: u64,
        side: String,
        best_bid: u64,
        best_ask: u64,
        timestamp: Option<String>,
    },
    LastTrade {
        asset_id: String,
        market: String,
        price: u64,
        size: u64,
        side: String,
        timestamp: Option<String>,
    },
}

/// Displayed form of an event:
/// `[Snapshot] <asset> bids=<levels> asks=<levels>`,
/// `[PriceChange] <asset> price=<p> bid=<b> ask=<a> side=<side>`, or
/// `[LastTrade] <asset> price=<p> size=<s> side=<side>`, with 4 decimals.
pub open spec fn event_text(e: OrderbookEvent) -> Seq<char> {
    match e {
        OrderbookEvent::Snapshot { asset_id, bids, asks, .. } => "[Snapshot] "@ + asset_id@ + " bids="@
            + decimal_string(bids@.len()) + " asks="@ + decimal_string(asks@.len()),
        OrderbookEvent::PriceChange { asset_id, price, best_bid, best_ask, side, .. } => "[PriceChange] "@
            + asset_id@ + " price="@ + fixed_string(price as nat, 4) + " bid="@ + fixed_string(
            best_bid as nat,
            4,
        ) + " ask="@ + fixed_string(best_ask as nat, 4) + " side="@ + side@,
        OrderbookEvent::LastTrade { asset_id, price, size, side, .. } => "[LastTrade] "@ + asset_id@
            + " price="@ + fixed_string(price as nat, 4) + " size="@ + fixed_string(size as nat, 4)
            + " side="@ + side@,
    }
}

impl OrderbookEvent {
    /// Displayed form (see `event_text`).
    pub fn to_string(&self) -> (r: String)
        ensures
            r@ == event_text(*self),
    {
        match self {
            OrderbookEvent::Snapshot { asset_id, bids, asks, .. } => {
                let mut s = String::from_str("[Snapshot] ");
                s.append(asset_id.as_str());
                s.append(" bids=");
                push_decimal(&mut s, bids.len() as u64);
                s.append(" asks=");
                push_decimal(&mut s, asks.len() as u64);
                assert(s@ =~= event_text(*self));
                s
            },
            OrderbookEvent::PriceChange { asset_id, price, best_bid, best_ask, side, .. } => {
                let mut s = String::from_str("[PriceChange] ");
                s.append(asset_id.as_str());
                s.append(" price=");
                push_fixed(&mut s, *price, 4);
                s.append(" bid=");
                push_fixed(&mut s, *best_bid, 4);
                s.append(" ask=");
                push_fixed(&mut s, *best_ask, 4);
                s.append(" side=");
                s.append(side.as_str());
                assert(s@ =~= event_text(*self));
                s
            },
            OrderbookEvent::LastTrade { asset_id, price, size, side, .. } => {
                let mut s = String::from_str("[LastTrade] ");
                s.append(asset_id.as_str());
                s.append(" price=");
                push_fixed(&mut s, *price, 4);
                s.append(" size=");
                push_fixed(&mut s, *size, 4);
                s.append(" side=");
                s.append(side.as_str());
                assert(s@ =~= event_text(*self));
                s
            },
        }
    }
}

/// The info used for an asset that was never registered.
pub open spec fn default_asset_info() -> AssetInfo {
    AssetInfo { crypto: CryptoPair::Btc, outcome: Outcome::Up }
}

/// The info registered for an asset, or the default one.
pub open spec fn resolved_info(assets: Map<Seq<char>, AssetInfo>, asset_id: Seq<char>) -> AssetInfo {
    if assets.contains_key(asset_id) {
        assets[asset_id]
    } else {
        default_asset_info()
    }
}

/// The book an event for `asset_id` starts from: the existing one, or a new
/// empty book with the asset's resolved info.
pub open spec fn base_book(
    books: Map<Seq<char>, SnapshotView>,
    assets: Map<Seq<char>, AssetInfo>,
    asset_id: Seq<char>,
) -> SnapshotView {
    if books.contains_key(asset_id) {
        books[asset_id]
    } else {
        SnapshotView {
            asset_id,
            info: resolved_info(assets, asset_id),
            bids: Seq::empty(),
            asks: Seq::empty(),
        }
    }
}

/// A book after a level update on the side named by `side`.
pub open spec fn book_with_level(
    b: SnapshotView,
    price: u64,
    size: u64,
    side: Seq<char>,
) -> SnapshotView {
    if side == "BUY"@ {
        SnapshotView { bids: updated_levels(b.bids, price, size, true), ..b }
    } else {
        SnapshotView { asks: updated_levels(b.asks, price, size, false), ..b }
    }
}

/// A side with its leading levels priced above `limit` taken off.
pub open spec fn drop_above(s: Seq<PriceLevel>, limit: u64) -> Seq<PriceLevel>
    decreases s.len(),
{
    if s.len() > 0 && s[0].price > limit {
        drop_above(s.drop_first(), limit)
    } else {
        s
    }
}

/// A side with its leading levels priced below `limit` taken off.
pub open spec fn drop_below(s: Seq<PriceLevel>, limit: u64) -> Seq<PriceLevel>
    decreases s.len(),
{
    if s.len() > 0 && s[0].price < limit {
        drop_below(s.drop_first(), limit)
    } else {
        s
    }
}

/// A book brought in line with the best prices the feed reports: the bids
/// above the reported best bid and the asks below the reported best ask are
/// taken off (on a book in book order they are the leading levels).
pub open spec fn reconciled(b: SnapshotView, best_bid: u64, best_ask: u64) -> SnapshotView {
    SnapshotView { bids: drop_above(b.bids, best_bid), asks: drop_below(b.asks, best_ask), ..b }
}

/// On a book in book order, reconciling takes off exactly the bids above
/// the reported best bid and the asks below the reported best ask: each side
/// keeps a suffix of its levels, every level taken off was beyond the
/// reported price, and none left is. Book order and distinct prices are
/// kept.
pub proof fn lemma_reconciled(b: SnapshotView, best_bid: u64, best_ask: u64)
    requires
        snapshot_ordered(b),
    ensures
        snapshot_ordered(reconciled(b, best_bid, best_ask)),
        forall|m: int|
            0 <= m < reconciled(b, best_bid, best_ask).bids.len() ==> #[trigger] reconciled(
                b,
                best_bid,
                best_ask,
            ).bids[m].price <= best_bid,
        forall|m: int|
            0 <= m < reconciled(b, best_bid, best_ask).asks.len() ==> #[trigger] reconciled(
                b,
                best_bid,
                best_ask,
            ).asks[m].price >= best_ask,
        distinct_prices(b.bids) ==> distinct_prices(reconciled(b, best_bid, best_ask).bids),
        distinct_prices(b.asks) ==> distinct_prices(reconciled(b, best_bid, best_ask).asks),
        reconciled(b, best_bid, best_ask).bids == b.bids.skip(
            b.bids.len() - reconciled(b, best_bid, best_ask).bids.len(),
        ),
        reconciled(b, best_bid, best_ask).asks == b.asks.skip(
            b.asks.len() - reconciled(b, best_bid, best_ask).asks.len(),
        ),
        forall|m: int|
            0 <= m < b.bids.len() - reconciled(b, best_bid, best_ask).bids.len() ==> #[trigger] b.bids[m].price
                > best_bid,
        forall|m: int|
            0 <= m < b.asks.len() - reconciled(b, best_bid, best_ask).asks.len() ==> #[trigger] b.asks[m].price
                < best_ask,
{
    lemma_drop_leading(b.bids, best_bid, true);
    lemma_drop_leading(b.asks, best_ask, false);
}

/// What taking off leading levels on the wrong side of `limit` gives on a
/// side in book order: a suffix of it, still in book order, with every level
/// on the right side of the limit.
proof fn lemma_drop_leading(s: Seq<PriceLevel>, limit: u64, desc: bool)
    requires
        is_book_ordered(s, desc),
    ensures
        desc ==> drop_above(s, limit) == s.skip(s.len() - drop_above(s, limit).len()),
        !desc ==> drop_below(s, limit) == s.skip(s.len() - drop_below(s, limit).len()),
        desc ==> drop_above(s, limit).len() <= s.len(),
        !desc ==> drop_below(s, limit).len() <= s.len(),
        desc ==> forall|m: int| 0 <= m < s.len() - drop_above(s, limit).len() ==> #[trigger] s[m].price > limit,
        !desc ==> forall|m: int| 0 <= m < s.len() - drop_below(s, limit).len() ==> #[trigger] s[m].price < limit,
        is_book_ordered(if desc { drop_above(s, limit) } else { drop_below(s, limit) }, desc),
        desc ==> forall|m: int| 0 <= m < drop_above(s, limit).len() ==> #[trigger] drop_above(s, limit)[m].price <= limit,
        !desc ==> forall|m: int| 0 <= m < drop_below(s, limit).len() ==> #[trigger] drop_below(s, limit)[m].price >= limit,
        distinct_prices(s) ==> distinct_prices(if desc { drop_above(s, limit) } else { drop_below(s, limit) }),
    decreases s.len(),
{
    let t = s.drop_first();
    if s.len() > 0 {
        assert forall|a: int, c: int| 0 <= a < c < t.len() implies ranks_before(#[trigger] t[a], #[trigger] t[c], desc) by {
            assert(t[a] == s[a + 1] && t[c] == s[c + 1]);
            assert(ranks_before(s[a + 1], s[c + 1], desc));
        }
        if distinct_prices(s) {
            assert forall|a: int, c: int| 0 <= a < c < t.len() implies #[trigger] t[a].price != #[trigger] t[c].price by {
                assert(t[a] == s[a + 1] && t[c] == s[c + 1]);
            }
        }
        lemma_drop_leading(t, limit, desc);
        assert(s.skip(0) =~= s);
        if desc && s[0].price > limit {
            let d = drop_above(t, limit);
            assert(t.skip(t.len() - d.len()) =~= s.skip(s.len() - d.len()));
            assert forall|m: int| 0 <= m < s.len() - d.len() implies #[trigger] s[m].price > limit by {
                if m > 0 {
                    assert(s[m] == t[m - 1]);
                }
            }
        }
        if !desc && s[0].price < limit {
            let d = drop_below(t, limit);
            assert(t.skip(t.len() - d.len()) =~= s.skip(s.len() - d.len()));
            assert forall|m: int| 0 <= m < s.len() - d.len() implies #[trigger] s[m].price < limit by {
                if m > 0 {
                    assert(s[m] == t[m - 1]);
                }
            }
        }
        if desc && s[0].price <= limit {
            assert forall|m: int| 0 <= m < s.len() implies #[trigger] s[m].price <= limit by {
                if m > 0 {
                    assert(ranks_before(s[0], s[m], desc));
                }
            }
        }
        if !desc && s[0].price >= limit {
            assert forall|m: int| 0 <= m < s.len() implies #[trigger] s[m].price >= limit by {
                if m > 0 {
                    assert(ranks_before(s[0], s[m], desc));
                }
            }
        }
    }
}

/// Takes off the leading levels priced above `limit`.
fn drop_leading_above(levels: &mut Vec<PriceLevel>, limit: u64)
    ensures
        final(levels)@ == drop_above(old(levels)@, limit),
{
    while levels.len() > 0 && levels[0].price > limit
        invariant
            drop_above(levels@, limit) == drop_above(old(levels)@, limit),
        decreases levels@.len(),
    {
        let ghost before = levels@;
        levels.remove(0);
        assert(levels@ =~= before.drop_first());
    }
}

/// Takes off the leading levels priced below `limit`.
fn drop_leading_below(levels: &mut Vec<PriceLevel>, limit: u64)
    ensures
        final(levels)@ == drop_below(old(levels)@, limit),
{
    while levels.len() > 0 && levels[0].price < limit
        invariant
            drop_below(levels@, limit) == drop_below(old(levels)@, limit),
        decreases levels@.len(),
    {
        let ghost before = levels@;
        levels.remove(0);
        assert(levels@ =~= before.drop_first());
    }
}

pub open spec fn snapshots_view(m: Map<Seq<char>, OrderbookSnapshot>) -> Map<Seq<char>, SnapshotView> {
    m.map_values(|s: OrderbookSnapshot| s@)
}

pub open spec fn lists_view(m: Map<Seq<char>, Vec<String>>) -> Map<Seq<char>, Seq<Seq<char>>> {
    m.map_values(|v: Vec<String>| strings_view(v@))
}

/// No key occurs twice.
pub open spec fn distinct_keys(s: Seq<Seq<char>>) -> bool {
    forall|a: int, b: int| 0 <= a < s.len() && 0 <= b < s.len() && a != b ==> #[trigger] s[a] != #[trigger] s[b]
}

pub open spec fn entry_keys<V>(s: Seq<(Seq<char>, V)>) -> Seq<Seq<char>> {
    s.map_values(|e: (Seq<char>, V)| e.0)
}

/// Order books of all subscribed assets, the info of each registered asset,
/// and the assets of each market.
pub struct OrderbookManager {
    books: StrMap<OrderbookSnapshot>,
    assets: StrMap<AssetInfo>,
    market_assets: StrMap<Vec<String>>,
}

impl OrderbookManager {
    /// The book of each asset.
    pub closed spec fn books(&self) -> Map<Seq<char>, SnapshotView> {
        snapshots_view(self.books.map())
    }

    /// The assets with a book, in the order their books were created.
    pub closed spec fn book_keys(&self) -> Seq<Seq<char>> {
        entry_keys(self.books.entries())
    }

    /// The info of each registered asset.
    pub closed spec fn assets(&self) -> Map<Seq<char>, AssetInfo> {
        self.assets.map()
    }

    /// The assets of each market, in registration order.
    pub closed spec fn market_assets(&self) -> Map<Seq<char>, Seq<Seq<char>>> {
        lists_view(self.market_assets.map())
    }

    /// The markets, in the order they were first registered.
    pub closed spec fn market_keys(&self) -> Seq<Seq<char>> {
        entry_keys(self.market_assets.entries())
    }

    /// Every book is in book order.
    #[verifier::type_invariant]
    closed spec fn books_ordered(&self) -> bool {
        forall|k: Seq<char>| #[trigger]
            self.books.map().contains_key(k) ==> snapshot_ordered(self.books.map()[k]@)
    }

    pub fn new() -> (m: Self)
        ensures
            m.books() == Map::<Seq<char>, SnapshotView>::empty(),
            m.book_keys() == Seq::<Seq<char>>::empty(),
            m.assets() == Map::<Seq<char>, AssetInfo>::empty(),
            m.market_assets() == Map::<Seq<char>, Seq<Seq<char>>>::empty(),
            m.market_keys() == Seq::<Seq<char>>::empty(),
    {
        let m = OrderbookManager { books: StrMap::new(), assets: StrMap::new(), market_assets: StrMap::new() };
        assert(m.books() =~= Map::<Seq<char>, SnapshotView>::empty());
        assert(m.market_assets() =~= Map::<Seq<char>, Seq<Seq<char>>>::empty());
        assert(m.book_keys() =~= Seq::<Seq<char>>::empty());
        assert(m.market_keys() =~= Seq::<Seq<char>>::empty());
        m
    }

    /// Registers an asset discovered in a market: records its info and
    /// appends it to the market's asset list.
    pub fn register_asset(&mut self, market_id: &str, asset_id: &str, info: AssetInfo)
        ensures
            final(self).assets() == old(self).assets().insert(asset_id@, info),
            final(self).market_assets() == old(self).market_assets().insert(
                market_id@,
                (if old(self).market_assets().contains_key(market_id@) {
                    old(self).market_assets()[market_id@]
                } else {
                    Seq::empty()
                }).push(asset_id@),
            ),
            final(self).market_keys() == (if old(self).market_assets().contains_key(market_id@) {
                old(self).market_keys()
            } else {
                old(self).market_keys().push(market_id@)
            }),
            final(self).books() == old(self).books(),
            final(self).book_keys() == old(self).book_keys(),
    {
        proof {
            use_type_invariant(&*self);
        }
        let mut assets = StrMap::new();
        std::mem::swap(&mut assets, &mut self.assets);
        assets.insert(String::from_str(asset_id), info);
        self.assets = assets;
        let mut lists = StrMap::new();
        std::mem::swap(&mut lists, &mut self.market_assets);
        let ghost old_lists = lists.map();
        let ghost old_entries = lists.entries();
        match lists.index_of(market_id) {
            Some(i) => {
                let (k, mut list) = lists.remove_at(i);
                let ghost before = list@;
                list.push(String::from_str(asset_id));
                proof {
                    lemma_entries_map_index(old_entries, i as int);
                    assert(strings_view(list@) =~= strings_view(before).push(asset_id@));
                }
                lists.insert_at(i, k, list);
                proof {
                    assert(lists.map() =~= old_lists.insert(market_id@, list));
                    assert(entry_keys(lists.entries()) =~= entry_keys(old_entries));
                }
            },
            None => {
                let mut list: Vec<String> = Vec::new();
                list.push(String::from_str(asset_id));
                lists.insert(String::from_str(market_id), list);
                proof {
                    assert(strings_view(list@) =~= Seq::<Seq<char>>::empty().push(asset_id@));
                    assert(entry_keys(lists.entries()) =~= entry_keys(old_entries).push(market_id@));
                }
            },
        }
        self.market_assets = lists;
        proof {
            assert(self.market_assets() =~= old(self).market_assets().insert(
                market_id@,
                (if old(self).market_assets().contains_key(market_id@) {
                    old(self).market_assets()[market_id@]
                } else {
                    Seq::empty()
                }).push(asset_id@),
            ));
        }
    }

    /// The assets registered for a market, in registration order.
    pub fn assets_for_market(&self, market_id: &str) -> (r: &[String])
        ensures
            strings_view(r@) == (if self.market_assets().contains_key(market_id@) {
                self.market_assets()[market_id@]
            } else {
                Seq::empty()
            }),
    {
        match self.market_assets.get(market_id) {
            Some(v) => v.as_slice(),
            None => {
                let empty: &[String] = &[];
                assert(strings_view(empty@) =~= Seq::<Seq<char>>::empty());
                empty
            },
        }
    }

    /// The info registered for an asset.
    pub fn asset_info(&self, asset_id: &str) -> (r: Option<&AssetInfo>)
        ensures
            match r {
                Some(i) => self.assets().contains_key(asset_id@) && *i == self.assets()[asset_id@],
                None => !self.assets().contains_key(asset_id@),
            },
    {
        self.assets.get(asset_id)
    }

    /// Applies an event and returns the book it updated (`None` for trades,
    /// which do not touch the books).
    pub fn apply(&mut self, event: &OrderbookEvent) -> (r: Option<&OrderbookSnapshot>)
        ensures
            final(self).assets() == old(self).assets(),
            final(self).market_assets() == old(self).market_assets(),
            final(self).market_keys() == old(self).market_keys(),
            match *event {
                OrderbookEvent::Snapshot { asset_id, bids, asks, .. } => {
                    let b = base_book(old(self).books(), old(self).assets(), asset_id@);
                    &&& final(self).books() == old(self).books().insert(
                        asset_id@,
                        SnapshotView {
                            bids: sort_levels(bids@, true),
                            asks: sort_levels(asks@, false),
                            ..b
                        },
                    )
                    &&& final(self).book_keys() == (if old(self).books().contains_key(asset_id@) {
                        old(self).book_keys()
                    } else {
                        old(self).book_keys().push(asset_id@)
                    })
                    &&& r matches Some(s) && s@ == final(self).books()[asset_id@]
                },
                OrderbookEvent::PriceChange { asset_id, price, size, side, best_bid, best_ask, .. } => {
                    let b = base_book(old(self).books(), old(self).assets(), asset_id@);
                    &&& final(self).books() == old(self).books().insert(
                        asset_id@,
                        reconciled(book_with_level(b, price, size, side@), best_bid, best_ask),
                    )
                    &&& forall|m: int| 0 <= m < final(self).books()[asset_id@].bids.len()
                        ==> #[trigger] final(self).books()[asset_id@].bids[m].price <= best_bid
                    &&& forall|m: int| 0 <= m < final(self).books()[asset_id@].asks.len()
                        ==> #[trigger] final(self).books()[asset_id@].asks[m].price >= best_ask
                    &&& final(self).book_keys() == (if old(self).books().contains_key(asset_id@) {
                        old(self).book_keys()
                    } else {
                        old(self).book_keys().push(asset_id@)
                    })
                    &&& r matches Some(s) && s@ == final(self).books()[asset_id@]
                },
                OrderbookEvent::LastTrade { .. } => {
                    &&& final(self).books() == old(self).books()
                    &&& final(self).book_keys() == old(self).book_keys()
                    &&& r is None
                },
            },
    {
        proof {
            use_type_invariant(&*self);
        }
        match event {
            OrderbookEvent::Snapshot { asset_id, bids, asks, .. } => {
                let info = self.resolve_info(asset_id.as_str());
                let mut books = StrMap::new();
                std::mem::swap(&mut books, &mut self.books);
                let ghost old_map = books.map();
                let ghost old_entries = books.entries();
                match books.index_of(asset_id.as_str()) {
                    Some(i) => {
                        let (k, mut snap) = books.remove_at(i);
                        proof {
                            lemma_entries_map_index(old_entries, i as int);
                        }
                        snap.replace_from(bids, asks);
                        books.insert_at(i, k, snap);
                        proof {
                            lemma_sort_levels_ordered(bids@, true);
                            lemma_sort_levels_ordered(asks@, false);
                            assert(books.map() =~= old_map.insert(asset_id@, snap));
                            assert(entry_keys(books.entries()) =~= entry_keys(old_entries));
                        }
                    },
                    None => {
                        let mut snap = OrderbookSnapshot::new(asset_id.clone(), info);
                        snap.replace_from(bids, asks);
                        books.insert(asset_id.clone(), snap);
                        proof {
                            lemma_sort_levels_ordered(bids@, true);
                            lemma_sort_levels_ordered(asks@, false);
                            assert(entry_keys(books.entries()) =~= entry_keys(old_entries).push(asset_id@));
                        }
                    },
                }
                proof {
                    assert(snapshots_view(books.map()) =~= old(self).books().insert(
                        asset_id@,
                        SnapshotView {
                            bids: sort_levels(bids@, true),
                            asks: sort_levels(asks@, false),
                            ..base_book(old(self).books(), old(self).assets(), asset_id@)
                        },
                    ));
                }
                self.books = books;
                self.books.get(asset_id.as_str())
            },
            OrderbookEvent::PriceChange { asset_id, price, size, side, best_bid, best_ask, .. } => {
                let info = self.resolve_info(asset_id.as_str());
                let mut books = StrMap::new();
                std::mem::swap(&mut books, &mut self.books);
                let ghost old_map = books.map();
                let ghost old_entries = books.entries();
                match books.index_of(asset_id.as_str()) {
                    Some(i) => {
                        let (k, mut snap) = books.remove_at(i);
                        proof {
                            lemma_entries_map_index(old_entries, i as int);
                            lemma_updated_levels_ordered(snap.bids@, *price, *size, true);
                            lemma_updated_levels_ordered(snap.asks@, *price, *size, false);
                        }
                        snap.apply_level(*price, *size, side.as_str());
                        proof {
                            lemma_reconciled(snap@, *best_bid, *best_ask);
                        }
                        snap.reconcile(*best_bid, *best_ask);
                        books.insert_at(i, k, snap);
                        proof {
                            assert(books.map() =~= old_map.insert(asset_id@, snap));
                            assert(entry_keys(books.entries()) =~= entry_keys(old_entries));
                        }
                    },
                    None => {
                        let mut snap = OrderbookSnapshot::new(asset_id.clone(), info);
                        proof {
                            lemma_updated_levels_ordered(snap.bids@, *price, *size, true);
                            lemma_updated_levels_ordered(snap.asks@, *price, *size, false);
                        }
                        snap.apply_level(*price, *size, side.as_str());
                        proof {
                            lemma_reconciled(snap@, *best_bid, *best_ask);
                        }
                        snap.reconcile(*best_bid, *best_ask);
                        books.insert(asset_id.clone(), snap);
                        proof {
                            assert(entry_keys(books.entries()) =~= entry_keys(old_entries).push(asset_id@));
                        }
                    },
                }
                proof {
                    assert(snapshots_view(books.map()) =~= old(self).books().insert(
                        asset_id@,
                        reconciled(
                            book_with_level(
                                base_book(old(self).books(), old(self).assets(), asset_id@),
                                *price,
                                *size,
                                side@,
                            ),
                            *best_bid,
                            *best_ask,
                        ),
                    ));
                }
                self.books = books;
                self.books.get(asset_id.as_str())
            },
            OrderbookEvent::LastTrade { .. } => None,
        }
    }

    /// The book of an asset; it is always in book order.
    pub fn snapshot(&self, asset_id: &str) -> (r: Option<&OrderbookSnapshot>)
        ensures
            match r {
                Some(s) => self.books().contains_key(asset_id@) && s@ == self.books()[asset_id@]
                    && snapshot_ordered(s@),
                None => !self.books().contains_key(asset_id@),
            },
    {
        proof {
            use_type_invariant(self);
        }
        self.books.get(asset_id)
    }

    /// All books with their assets, in the order the books were created.
    pub fn all_snapshots(&self) -> (r: Vec<(&String, &OrderbookSnapshot)>)
        ensures
            r@.len() == self.book_keys().len(),
            forall|i: int| 0 <= i < r@.len() ==> {
                &&& (#[trigger] r@[i]).0@ == self.book_keys()[i]
                &&& self.books().contains_key(self.book_keys()[i])
                &&& r@[i].1@ == self.books()[self.book_keys()[i]]
                &&& snapshot_ordered(r@[i].1@)
            },
            distinct_keys(self.book_keys()),
    {
        proof {
            use_type_invariant(self);
        }
        let n = self.books.len();
        let mut r: Vec<(&String, &OrderbookSnapshot)> = Vec::new();
        let mut i: usize = 0;
        while i < n
            invariant
                i <= n,
                n == self.books.entries().len(),
                unique_keys(self.books.entries()),
                r@.len() == i,
                forall|j: int| 0 <= j < i ==> {
                    &&& (#[trigger] r@[j]).0@ == self.book_keys()[j]
                    &&& self.books().contains_key(self.book_keys()[j])
                    &&& r@[j].1@ == self.books()[self.book_keys()[j]]
                    &&& snapshot_ordered(r@[j].1@)
                },
                forall|k: Seq<char>| #[trigger]
                    self.books.map().contains_key(k) ==> snapshot_ordered(self.books.map()[k]@),
            decreases n - i,
        {
            proof {
                lemma_entries_map_index(self.books.entries(), i as int);
                assert(self.book_keys()[i as int] == self.books.entries()[i as int].0);
            }
            r.push((self.books.key_at(i), self.books.value_at(i)));
            proof {
                let k = self.book_keys()[i as int];
                assert(self.books.map().contains_key(k));
                assert(self.books().contains_key(k));
                assert(self.books()[k] == self.books.map()[k]@);
                assert(r@[i as int].1@ == self.books.map()[k]@);
            }
            i = i + 1;
        }
        proof {
            assert forall|a: int, b: int|
                0 <= a < self.book_keys().len() && 0 <= b < self.book_keys().len() && a != b implies #[trigger] self.book_keys()[a]
                != #[trigger] self.book_keys()[b] by {
                assert(self.book_keys()[a] == self.books.entries()[a].0);
                assert(self.book_keys()[b] == self.books.entries()[b].0);
            }
        }
        r
    }

    /// The markets, in the order they were first registered.
    pub fn market_ids(&self) -> (r: Vec<&String>)
        ensures
            r@.len() == self.market_keys().len(),
            forall|i: int| 0 <= i < r@.len() ==> (#[trigger] r@[i])@ == self.market_keys()[i],
    {
        let n = self.market_assets.len();
        let mut r: Vec<&String> = Vec::new();
        let mut i: usize = 0;
        while i < n
            invariant
                i <= n,
                n == self.market_assets.entries().len(),
                r@.len() == i,
                forall|j: int| 0 <= j < i ==> (#[trigger] r@[j])@ == self.market_keys()[j],
            decreases n - i,
        {
            r.push(self.market_assets.key_at(i));
            i = i + 1;
        }
        r
    }

    /// Clears all order-book state, as when rolling to a new market epoch.
    pub fn clear(&mut self)
        ensures
            final(self).books() == Map::<Seq<char>, SnapshotView>::empty(),
            final(self).book_keys() == Seq::<Seq<char>>::empty(),
            final(self).assets() == Map::<Seq<char>, AssetInfo>::empty(),
            final(self).market_assets() == Map::<Seq<char>, Seq<Seq<char>>>::empty(),
            final(self).market_keys() == Seq::<Seq<char>>::empty(),
    {
        self.books = StrMap::new();
        self.assets = StrMap::new();
        self.market_assets = StrMap::new();
        assert(self.books() =~= Map::<Seq<char>, SnapshotView>::empty());
        assert(self.market_assets() =~= Map::<Seq<char>, Seq<Seq<char>>>::empty());
        assert(self.book_keys() =~= Seq::<Seq<char>>::empty());
        assert(self.market_keys() =~= Seq::<Seq<char>>::empty());
    }

    fn resolve_info(&self, asset_id: &str) -> (r: AssetInfo)
        ensures
            r == resolved_info(self.assets(), asset_id@),
    {
        match self.assets.get(asset_id) {
            Some(i) => *i,
            None => AssetInfo { crypto: CryptoPair::Btc, outcome: Outcome::Up },
        }
    }
}

/// The markets listed by `market_keys` (and by `market_ids`) are exactly
/// the markets with registered assets, and the assets listed by `book_keys`
/// (and by `all_snapshots`) are exactly the assets with a book.
pub proof fn lemma_key_lists_match(m: &OrderbookManager, k: Seq<char>)
    ensures
        m.market_assets().contains_key(k) <==> m.market_keys().contains(k),
        m.books().contains_key(k) <==> m.book_keys().contains(k),
{
    let me = m.market_assets.entries();
    let be = m.books.entries();
    lemma_entries_map_dom(me, k);
    lemma_entries_map_dom(be, k);
    if m.market_keys().contains(k) {
        let i = choose|i: int| 0 <= i < m.market_keys().len() && m.market_keys()[i] == k;
        assert(me[i].0 == k);
    }
    if m.market_assets().contains_key(k) {
        let i = choose|i: int| 0 <= i < me.len() && #[trigger] me[i].0 == k;
        assert(m.market_keys()[i] == k);
    }
    if m.book_keys().contains(k) {
        let i = choose|i: int| 0 <= i < m.book_keys().len() && m.book_keys()[i] == k;
        assert(be[i].0 == k);
    }
    if m.books().contains_key(k) {
        let i = choose|i: int| 0 <= i < be.len() && #[trigger] be[i].0 == k;
        assert(m.book_keys()[i] == k);
    }
}

} // verus!
