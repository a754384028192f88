//! Ordering of price levels: bids best-first by descending price, asks
//! best-first by ascending price, equal prices kept in arrival order.
use vstd::prelude::*;

use super::orderbook::PriceLevel;

verus! {

/// `a` may stand before `b` on its side of the book: for bids (`desc`)
/// a price at least as high, for asks a price at least as low.
pub open spec fn ranks_before(a: PriceLevel, b: PriceLevel, desc: bool) -> bool {
    if desc {
        a.price >= b.price
    } else {
        a.price <= b.price
    }
}

/// Levels in book order.
pub open spec fn is_book_ordered(s: Seq<PriceLevel>, desc: bool) -> bool {
    forall|i: int, j: int| 0 <= i < j < s.len() ==> ranks_before(#[trigger] s[i], #[trigger] s[j], desc)
}

/// Inserts `x` into `s` after every trailing level that ranks before it:
/// one step of a stable insertion sort.
pub open spec fn insert_level(s: Seq<PriceLevel>, x: PriceLevel, desc: bool) -> Seq<PriceLevel>
    decreases s.len(),
{
    if s.len() == 0 {
        seq![x]
    } else if ranks_before(s.last(), x, desc) {
        s.push(x)
    } else {
        insert_level(s.drop_last(), x, desc).push(s.last())
    }
}

/// The stable sort of `s` into book order (what `sort_by` on the price gives).
pub open spec fn sort_levels(s: Seq<PriceLevel>, desc: bool) -> Seq<PriceLevel>
    decreases s.len(),
{
    if s.len() == 0 {
        s
    } else {
        insert_level(sort_levels(s.drop_last(), desc), s.last(), desc)
    }
}

/// `insert_level` places `x` at the position `j` found by scanning back
/// over the levels that do not rank before it.
pub proof fn lemma_insert_level_at(s: Seq<PriceLevel>, x: PriceLevel, desc: bool, j: int)
    requires
        0 <= j <= s.len(),
        forall|m: int| j <= m < s.len() ==> !ranks_before(#[trigger] s[m], x, desc),
        j == 0 || ranks_before(s[j - 1], x, desc),
    ensures
        insert_level(s, x, desc) == s.insert(j, x),
    decreases s.len(),
{
    if s.len() == 0 {
        assert(s.insert(j, x) =~= seq![x]);
    } else if ranks_before(s.last(), x, desc) {
        if j < s.len() {
            assert(!ranks_before(s[s.len() - 1], x, desc));
        }
        assert(s.insert(j, x) =~= s.push(x));
    } else {
        let t = s.drop_last();
        assert(j < s.len());
        assert forall|m: int| j <= m < t.len() implies !ranks_before(#[trigger] t[m], x, desc) by {
            assert(t[m] == s[m]);
        }
        if j > 0 {
            assert(t[j - 1] == s[j - 1]);
        }
        lemma_insert_level_at(t, x, desc, j);
        assert(t.insert(j, x).push(s.last()) =~= s.insert(j, x));
    }
}

/// Inserting into an ordered sequence keeps it ordered.
pub proof fn lemma_insert_level_ordered(s: Seq<PriceLevel>, x: PriceLevel, desc: bool)
    requires
        is_book_ordered(s, desc),
    ensures
        is_book_ordered(insert_level(s, x, desc), desc),
    decreases s.len(),
{
    if s.len() == 0 {
    } else if ranks_before(s.last(), x, desc) {
        let r = s.push(x);
        assert forall|i: int, j: int| 0 <= i < j < r.len() implies ranks_before(
            #[trigger] r[i],
            #[trigger] r[j],
            desc,
        ) by {
            if j == s.len() {
                assert(ranks_before(s[i], s[s.len() - 1], desc) || i == s.len() - 1);
            }
        }
    } else {
        let t = s.drop_last();
        assert forall|i: int, j: int| 0 <= i < j < t.len() implies ranks_before(
            #[trigger] t[i],
            #[trigger] t[j],
            desc,
        ) by {
            assert(t[i] == s[i] && t[j] == s[j]);
        }
        lemma_insert_level_ordered(t, x, desc);
        lemma_insert_level_elements(t, x, desc);
        let u = insert_level(t, x, desc);
        let r = u.push(s.last());
        assert forall|i: int, j: int| 0 <= i < j < r.len() implies ranks_before(
            #[trigger] r[i],
            #[trigger] r[j],
            desc,
        ) by {
            if j == u.len() {
                // every element of u is x or an element of t, all rank before s.last()
                let e = u[i];
                assert(u.contains(e));
                if e == x {
                } else {
                    let k = choose|k: int| 0 <= k < t.len() && t[k] == e;
                    assert(s[k] == e);
                    assert(ranks_before(s[k], s[s.len() - 1], desc));
                }
            } else {
                assert(r[i] == u[i] && r[j] == u[j]);
            }
        }
    }
}

/// The elements of `insert_level(s, x)` are those of `s` plus `x`.
pub proof fn lemma_insert_level_elements(s: Seq<PriceLevel>, x: PriceLevel, desc: bool)
    ensures
        insert_level(s, x, desc).to_multiset() == s.to_multiset().insert(x),
        insert_level(s, x, desc).len() == s.len() + 1,
        forall|e: PriceLevel| #[trigger] insert_level(s, x, desc).contains(e) ==> e == x
            || s.contains(e),
    decreases s.len(),
{
    broadcast use vstd::seq_lib::group_to_multiset_ensures;

    if s.len() == 0 {
        assert(seq![x] =~= Seq::<PriceLevel>::empty().push(x));
    } else if ranks_before(s.last(), x, desc) {
    } else {
        let t = s.drop_last();
        lemma_insert_level_elements(t, x, desc);
        assert(s =~= t.push(s.last()));
        assert forall|e: PriceLevel| #[trigger] insert_level(s, x, desc).contains(e) implies e
            == x || s.contains(e) by {
            let u = insert_level(t, x, desc);
            let k = choose|k: int| 0 <= k < u.push(s.last()).len() && u.push(s.last())[k] == e;
            if k < u.len() {
                assert(u.contains(e));
                if e != x {
                    let m = choose|m: int| 0 <= m < t.len() && t[m] == e;
                    assert(s[m] == e);
                }
            } else {
                assert(s[s.len() - 1] == e);
            }
        }
    }
}

/// The sort is in book order.
pub proof fn lemma_sort_levels_ordered(s: Seq<PriceLevel>, desc: bool)
    ensures
        is_book_ordered(sort_levels(s, desc), desc),
    decreases s.len(),
{
    if s.len() > 0 {
        lemma_sort_levels_ordered(s.drop_last(), desc);
        lemma_insert_level_ordered(sort_levels(s.drop_last(), desc), s.last(), desc);
    }
}

/// The sort holds exactly the levels it was given.
pub proof fn lemma_sort_levels_permutation(s: Seq<PriceLevel>, desc: bool)
    ensures
        sort_levels(s, desc).to_multiset() == s.to_multiset(),
        sort_levels(s, desc).len() == s.len(),
    decreases s.len(),
{
    broadcast use vstd::seq_lib::group_to_multiset_ensures;

    if s.len() > 0 {
        lemma_sort_levels_permutation(s.drop_last(), desc);
        lemma_insert_level_elements(sort_levels(s.drop_last(), desc), s.last(), desc);
        assert(s =~= s.drop_last().push(s.last()));
    }
}

/// Sorting what is already in book order changes nothing.
pub proof fn lemma_sort_levels_of_ordered(s: Seq<PriceLevel>, desc: bool)
    requires
        is_book_ordered(s, desc),
    ensures
        sort_levels(s, desc) == s,
    decreases s.len(),
{
    if s.len() > 0 {
        let t = s.drop_last();
        assert forall|i: int, j: int| 0 <= i < j < t.len() implies ranks_before(
            #[trigger] t[i],
            #[trigger] t[j],
            desc,
        ) by {
            assert(t[i] == s[i] && t[j] == s[j]);
        }
        lemma_sort_levels_of_ordered(t, desc);
        if t.len() > 0 {
            assert(ranks_before(s[s.len() - 2], s[s.len() - 1], desc));
            assert(t.last() == s[s.len() - 2]);
        }
        assert(t.push(s.last()) =~= s);
    }
}

pub fn ranks_before_exec(a: &PriceLevel, b: &PriceLevel, desc: bool) -> (r: bool)
    ensures
        r == ranks_before(*a, *b, desc),
{
    if desc {
        a.price >= b.price
    } else {
        a.price <= b.price
    }
}

/// Inserts a level at its place in book order.
pub fn insert_level_exec(v: &mut Vec<PriceLevel>, x: PriceLevel, desc: bool)
    ensures
        final(v)@ == insert_level(old(v)@, x, desc),
{
    let mut j = v.len();
    while j > 0 && !ranks_before_exec(&v[j - 1], &x, desc)
        invariant
            j <= v@.len(),
            forall|m: int| j <= m < v@.len() ==> !ranks_before(#[trigger] v@[m], x, desc),
        decreases j,
    {
        j = j - 1;
    }
    proof {
        lemma_insert_level_at(v@, x, desc, j as int);
    }
    v.insert(j, x);
}

/// The levels sorted into book order, stably.
pub fn sort_levels_exec(v: &Vec<PriceLevel>, desc: bool) -> (r: Vec<PriceLevel>)
    ensures
        r@ == sort_levels(v@, desc),
{
    let mut r: Vec<PriceLevel> = Vec::new();
    let mut i: usize = 0;
    while i < v.len()
        invariant
            i <= v@.len(),
            r@ == sort_levels(v@.take(i as int), desc),
        decreases v@.len() - i,
    {
        proof {
            assert(v@.take(i as int + 1).drop_last() =~= v@.take(i as int));
        }
        insert_level_exec(&mut r, v[i], desc);
        i = i + 1;
    }
    assert(v@.take(v@.len() as int) =~= v@);
    r
}

/// No two levels share a price.
pub open spec fn distinct_prices(s: Seq<PriceLevel>) -> bool {
    forall|a: int, b: int| 0 <= a < b < s.len() ==> #[trigger] s[a].price != #[trigger] s[b].price
}

/// Inserting a level at a price the sequence does not have keeps prices
/// distinct.
pub proof fn lemma_insert_level_distinct(s: Seq<PriceLevel>, x: PriceLevel, desc: bool)
    requires
        distinct_prices(s),
        forall|m: int| 0 <= m < s.len() ==> #[trigger] s[m].price != x.price,
    ensures
        distinct_prices(insert_level(s, x, desc)),
    decreases s.len(),
{
    if s.len() == 0 {
    } else if ranks_before(s.last(), x, desc) {
        let r = s.push(x);
        assert forall|a: int, b: int| 0 <= a < b < r.len() implies #[trigger] r[a].price
            != #[trigger] r[b].price by {
            if b == s.len() {
                assert(r[a] == s[a]);
            } else {
                assert(r[a] == s[a] && r[b] == s[b]);
            }
        }
    } else {
        let t = s.drop_last();
        let l = s.last();
        assert forall|a: int, b: int| 0 <= a < b < t.len() implies #[trigger] t[a].price
            != #[trigger] t[b].price by {
            assert(t[a] == s[a] && t[b] == s[b]);
        }
        assert forall|m: int| 0 <= m < t.len() implies #[trigger] t[m].price != x.price by {
            assert(t[m] == s[m]);
        }
        lemma_insert_level_distinct(t, x, desc);
        lemma_insert_level_elements(t, x, desc);
        let u = insert_level(t, x, desc);
        let r = u.push(l);
        assert forall|a: int, b: int| 0 <= a < b < r.len() implies #[trigger] r[a].price
            != #[trigger] r[b].price by {
            if b == u.len() {
                assert(r[a] == u[a]);
                assert(u.contains(u[a]));
                if u[a] != x {
                    let m = choose|m: int| 0 <= m < t.len() && t[m] == u[a];
                    assert(s[m] == t[m]);
                    assert(s[s.len() - 1] == l);
                } else {
                    assert(s[s.len() - 1] == l);
                }
            } else {
                assert(r[a] == u[a] && r[b] == u[b]);
            }
        }
    }
}

/// Sorting keeps prices distinct.
pub proof fn lemma_sort_levels_distinct(s: Seq<PriceLevel>, desc: bool)
    requires
        distinct_prices(s),
    ensures
        distinct_prices(sort_levels(s, desc)),
    decreases s.len(),
{
    broadcast use vstd::seq_lib::group_to_multiset_ensures;

    if s.len() > 0 {
        let t = s.drop_last();
        let l = s.last();
        assert forall|a: int, b: int| 0 <= a < b < t.len() implies #[trigger] t[a].price
            != #[trigger] t[b].price by {
            assert(t[a] == s[a] && t[b] == s[b]);
        }
        lemma_sort_levels_distinct(t, desc);
        lemma_sort_levels_permutation(t, desc);
        let u = sort_levels(t, desc);
        assert forall|m: int| 0 <= m < u.len() implies #[trigger] u[m].price != l.price by {
            assert(u.to_multiset().count(u[m]) > 0);
            assert(t.to_multiset().count(u[m]) > 0);
            assert(t.contains(u[m]));
            let k = choose|k: int| 0 <= k < t.len() && t[k] == u[m];
            assert(s[k] == t[k]);
            assert(s[s.len() - 1] == l);
        }
        lemma_insert_level_distinct(u, l, desc);
    }
}

} // verus!
