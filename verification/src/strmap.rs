//! A small map keyed by strings that remembers insertion order.
//!
//! Entries are kept in a vector with no key occurring twice. The abstract
//! view is a `Map` from the key's characters to the value; `entries()` gives
//! the same content in the order the keys were first inserted, which is the
//! order in which iteration visits them.
use vstd::prelude::*;

use crate::text::str_eq;

verus! {

/// No key occurs twice.
pub open spec fn unique_keys<V>(s: Seq<(Seq<char>, V)>) -> bool {
    forall|i: int, j: int| 0 <= i < s.len() && 0 <= j < s.len() && i != j ==> #[trigger] s[i].0
        != #[trigger] s[j].0
}

/// The map that a sequence of entries describes (a later entry wins).
pub open spec fn entries_map<V>(s: Seq<(Seq<char>, V)>) -> Map<Seq<char>, V>
    decreases s.len(),
{
    if s.len() == 0 {
        Map::empty()
    } else {
        entries_map(s.drop_last()).insert(s.last().0, s.last().1)
    }
}

/// The key set of `entries_map(s)` is the set of keys occurring in `s`.
pub proof fn lemma_entries_map_dom<V>(s: Seq<(Seq<char>, V)>, k: Seq<char>)
    ensures
        entries_map(s).contains_key(k) <==> exists|i: int| 0 <= i < s.len() && #[trigger] s[i].0
            == k,
    decreases s.len(),
{
    if s.len() > 0 {
        lemma_entries_map_dom(s.drop_last(), k);
        if entries_map(s).contains_key(k) {
            if k == s.last().0 {
                assert(s[s.len() - 1].0 == k);
            } else {
                let i = choose|i: int| 0 <= i < s.drop_last().len() && #[trigger] s.drop_last()[i].0
                    == k;
                assert(s[i].0 == k);
            }
        }
        if exists|i: int| 0 <= i < s.len() && #[trigger] s[i].0 == k {
            let i = choose|i: int| 0 <= i < s.len() && #[trigger] s[i].0 == k;
            if i < s.len() - 1 {
                assert(s.drop_last()[i].0 == k);
            }
        }
    }
}

/// With unique keys, every entry is what the map holds for its key.
pub proof fn lemma_entries_map_index<V>(s: Seq<(Seq<char>, V)>, i: int)
    requires
        unique_keys(s),
        0 <= i < s.len(),
    ensures
        entries_map(s).contains_key(s[i].0),
        entries_map(s)[s[i].0] == s[i].1,
    decreases s.len(),
{
    if i < s.len() - 1 {
        lemma_entries_map_index(s.drop_last(), i);
        assert(s.drop_last()[i] == s[i]);
        assert(s[i].0 != s[s.len() - 1].0);
    }
}

/// Replacing the value of an entry replaces it in the map.
pub proof fn lemma_entries_map_update<V>(s: Seq<(Seq<char>, V)>, i: int, v: V)
    requires
        unique_keys(s),
        0 <= i < s.len(),
    ensures
        entries_map(s.update(i, (s[i].0, v))) =~= entries_map(s).insert(s[i].0, v),
        unique_keys(s.update(i, (s[i].0, v))),
{
    let t = s.update(i, (s[i].0, v));
    assert forall|k: Seq<char>| #[trigger] entries_map(t).contains_key(k) <==> entries_map(
        s,
    ).insert(s[i].0, v).contains_key(k) by {
        lemma_entries_map_dom(t, k);
        lemma_entries_map_dom(s, k);
        if exists|j: int| 0 <= j < s.len() && #[trigger] s[j].0 == k {
            let j = choose|j: int| 0 <= j < s.len() && #[trigger] s[j].0 == k;
            assert(t[j].0 == k);
        }
        if exists|j: int| 0 <= j < t.len() && #[trigger] t[j].0 == k {
            let j = choose|j: int| 0 <= j < t.len() && #[trigger] t[j].0 == k;
            assert(s[j].0 == k);
        }
    }
    assert forall|k: Seq<char>| #[trigger] entries_map(t).contains_key(k) implies entries_map(t)[k]
        == entries_map(s).insert(s[i].0, v)[k] by {
        lemma_entries_map_dom(t, k);
        let j = choose|j: int| 0 <= j < t.len() && #[trigger] t[j].0 == k;
        lemma_entries_map_index(t, j);
        if j != i {
            lemma_entries_map_index(s, j);
        }
    }
}

/// Taking out an entry takes its key out of the map.
pub proof fn lemma_entries_map_remove<V>(s: Seq<(Seq<char>, V)>, i: int)
    requires
        unique_keys(s),
        0 <= i < s.len(),
    ensures
        entries_map(s.remove(i)) =~= entries_map(s).remove(s[i].0),
        unique_keys(s.remove(i)),
{
    let t = s.remove(i);
    assert forall|a: int, b: int| 0 <= a < t.len() && 0 <= b < t.len() && a != b implies #[trigger] t[a].0
        != #[trigger] t[b].0 by {
        let a2 = if a < i { a } else { a + 1 };
        let b2 = if b < i { b } else { b + 1 };
        assert(t[a] == s[a2]);
        assert(t[b] == s[b2]);
    }
    assert forall|k: Seq<char>| #[trigger] entries_map(t).contains_key(k) <==> entries_map(
        s,
    ).remove(s[i].0).contains_key(k) by {
        lemma_entries_map_dom(t, k);
        lemma_entries_map_dom(s, k);
        if exists|j: int| 0 <= j < s.len() && #[trigger] s[j].0 == k {
            let j = choose|j: int| 0 <= j < s.len() && #[trigger] s[j].0 == k;
            if k != s[i].0 {
                assert(j != i);
                let j2 = if j < i { j } else { j - 1 };
                assert(t[j2].0 == k);
            }
        }
        if exists|j: int| 0 <= j < t.len() && #[trigger] t[j].0 == k {
            let j = choose|j: int| 0 <= j < t.len() && #[trigger] t[j].0 == k;
            let j2 = if j < i { j } else { j + 1 };
            assert(s[j2].0 == k);
        }
    }
    assert forall|k: Seq<char>| #[trigger] entries_map(t).contains_key(k) implies entries_map(t)[k]
        == entries_map(s).remove(s[i].0)[k] by {
        lemma_entries_map_dom(t, k);
        let j = choose|j: int| 0 <= j < t.len() && #[trigger] t[j].0 == k;
        lemma_entries_map_index(t, j);
        let j2 = if j < i { j } else { j + 1 };
        assert(t[j] == s[j2]);
        lemma_entries_map_index(s, j2);
    }
}

/// Appending an entry with a new key inserts it into the map.
pub proof fn lemma_entries_map_push<V>(s: Seq<(Seq<char>, V)>, k: Seq<char>, v: V)
    requires
        unique_keys(s),
        !entries_map(s).contains_key(k),
    ensures
        entries_map(s.push((k, v))) == entries_map(s).insert(k, v),
        unique_keys(s.push((k, v))),
{
    assert(s.push((k, v)).drop_last() =~= s);
    assert forall|i: int| 0 <= i < s.len() implies #[trigger] s[i].0 != k by {
        lemma_entries_map_dom(s, k);
    }
    assert forall|a: int, b: int|
        0 <= a < s.len() + 1 && 0 <= b < s.len() + 1 && a != b implies #[trigger] s.push((k, v))[a].0
        != #[trigger] s.push((k, v))[b].0 by {
        if a < s.len() && b < s.len() {
            assert(s.push((k, v))[a] == s[a]);
            assert(s.push((k, v))[b] == s[b]);
        } else if a < s.len() {
            assert(s.push((k, v))[a] == s[a]);
        } else {
            assert(s.push((k, v))[b] == s[b]);
        }
    }
}

/// Entries with each key taken by its characters.
pub open spec fn entries_of<V>(v: Seq<(String, V)>) -> Seq<(Seq<char>, V)> {
    v.map_values(|e: (String, V)| (e.0@, e.1))
}

/// A string-keyed map that iterates in insertion order.
pub struct StrMap<V> {
    entries: Vec<(String, V)>,
}

impl<V> StrMap<V> {
    /// The entries, each key by its characters, in insertion order.
    pub closed spec fn entries(&self) -> Seq<(Seq<char>, V)> {
        entries_of(self.entries@)
    }

    #[verifier::type_invariant]
    closed spec fn keys_are_unique(&self) -> bool {
        unique_keys(self.entries())
    }

    /// The content as a map.
    pub open spec fn map(&self) -> Map<Seq<char>, V> {
        entries_map(self.entries())
    }

    pub fn new() -> (m: Self)
        ensures
            m.entries() == Seq::<(Seq<char>, V)>::empty(),
            m.map() == Map::<Seq<char>, V>::empty(),
    {
        let m = StrMap { entries: Vec::new() };
        assert(m.entries() =~= Seq::<(Seq<char>, V)>::empty());
        m
    }

    /// Number of entries; also makes known that no key repeats.
    pub fn len(&self) -> (n: usize)
        ensures
            n == self.entries().len(),
            unique_keys(self.entries()),
    {
        proof {
            use_type_invariant(self);
        }
        self.entries.len()
    }

    /// Position of a key among the entries.
    pub fn index_of(&self, k: &str) -> (r: Option<usize>)
        ensures
            match r {
                Some(i) => i < self.entries().len() && self.entries()[i as int].0 == k@,
                None => forall|j: int| 0 <= j < self.entries().len() ==> #[trigger] self.entries()[j].0
                    != k@,
            },
            r is None <==> !self.map().contains_key(k@),
            unique_keys(self.entries()),
    {
        proof {
            use_type_invariant(self);
        }
        let mut i: usize = 0;
        while i < self.entries.len()
            invariant
                i <= self.entries@.len(),
                unique_keys(self.entries()),
                forall|j: int| 0 <= j < i ==> #[trigger] self.entries()[j].0 != k@,
            decreases self.entries@.len() - i,
        {
            if str_eq(self.entries[i].0.as_str(), k) {
                proof {
                    assert(self.entries()[i as int].0 == k@);
                    lemma_entries_map_dom(self.entries(), k@);
                }
                return Some(i);
            }
            i = i + 1;
        }
        proof {
            lemma_entries_map_dom(self.entries(), k@);
        }
        None
    }

    /// Key of the entry at a position.
    pub fn key_at(&self, i: usize) -> (k: &String)
        requires
            i < self.entries().len(),
        ensures
            k@ == self.entries()[i as int].0,
    {
        &self.entries[i].0
    }

    /// Value of the entry at a position.
    pub fn value_at(&self, i: usize) -> (v: &V)
        requires
            i < self.entries().len(),
        ensures
            *v == self.entries()[i as int].1,
    {
        &self.entries[i].1
    }

    pub fn get(&self, k: &str) -> (r: Option<&V>)
        ensures
            match r {
                Some(v) => self.map().contains_key(k@) && *v == self.map()[k@],
                None => !self.map().contains_key(k@),
            },
    {
        proof {
            use_type_invariant(self);
        }
        match self.index_of(k) {
            Some(i) => {
                proof {
                    lemma_entries_map_index(self.entries(), i as int);
                }
                Some(&self.entries[i].1)
            },
            None => None,
        }
    }

    /// Sets the value for a key; a new key goes after all existing ones, an
    /// existing key keeps its position.
    pub fn insert(&mut self, k: String, v: V)
        ensures
            final(self).map() == old(self).map().insert(k@, v),
            old(self).map().contains_key(k@) ==> final(self).entries() == old(self).entries().update(
                index_of_key(old(self).entries(), k@),
                (k@, v),
            ),
            !old(self).map().contains_key(k@) ==> final(self).entries() == old(self).entries().push(
                (k@, v),
            ),
    {
        proof {
            use_type_invariant(&*self);
        }
        match self.index_of(k.as_str()) {
            Some(i) => {
                let ghost s = self.entries();
                proof {
                    lemma_entries_map_update(s, i as int, v);
                    lemma_index_of_key(s, i as int);
                }
                let mut entries = Vec::new();
                std::mem::swap(&mut entries, &mut self.entries);
                entries.set(i, (k, v));
                assert(entries_of(entries@) =~= s.update(i as int, (k@, v)));
                self.entries = entries;
                assert(self.entries() =~= s.update(i as int, (k@, v)));
            },
            None => {
                let ghost s = self.entries();
                proof {
                    lemma_entries_map_push(s, k@, v);
                }
                let mut entries = Vec::new();
                std::mem::swap(&mut entries, &mut self.entries);
                entries.push((k, v));
                assert(entries_of(entries@) =~= s.push((k@, v)));
                self.entries = entries;
                assert(self.entries() =~= s.push((k@, v)));
            },
        }
    }

    /// Takes out the entry at a position, keeping the order of the others.
    pub fn remove_at(&mut self, i: usize) -> (e: (String, V))
        requires
            i < old(self).entries().len(),
        ensures
            final(self).entries() == old(self).entries().remove(i as int),
            final(self).map() == old(self).map().remove(e.0@),
            e.0@ == old(self).entries()[i as int].0,
            e.1 == old(self).entries()[i as int].1,
    {
        proof {
            use_type_invariant(&*self);
        }
        let ghost s = self.entries();
        proof {
            lemma_entries_map_remove(s, i as int);
        }
        let mut entries = Vec::new();
        std::mem::swap(&mut entries, &mut self.entries);
        let e = entries.remove(i);
        assert(entries_of(entries@) =~= s.remove(i as int));
        self.entries = entries;
        assert(self.entries() =~= s.remove(i as int));
        e
    }

    /// Puts an entry back at a position, for a key that is not present.
    pub fn insert_at(&mut self, i: usize, k: String, v: V)
        requires
            i <= old(self).entries().len(),
            !old(self).map().contains_key(k@),
        ensures
            final(self).entries() == old(self).entries().insert(i as int, (k@, v)),
            final(self).map() == old(self).map().insert(k@, v),
    {
        proof {
            use_type_invariant(&*self);
        }
        let ghost s = self.entries();
        proof {
            lemma_entries_map_insert_at(s, i as int, k@, v);
        }
        let mut entries = Vec::new();
        std::mem::swap(&mut entries, &mut self.entries);
        entries.insert(i, (k, v));
        assert(entries_of(entries@) =~= s.insert(i as int, (k@, v)));
        self.entries = entries;
        assert(self.entries() =~= s.insert(i as int, (k@, v)));
    }

    pub fn clear(&mut self)
        ensures
            final(self).entries() == Seq::<(Seq<char>, V)>::empty(),
            final(self).map() == Map::<Seq<char>, V>::empty(),
    {
        self.entries = Vec::new();
        assert(self.entries() =~= Seq::<(Seq<char>, V)>::empty());
    }
}

impl<V> View for StrMap<V> {
    type V = Map<Seq<char>, V>;

    open spec fn view(&self) -> Map<Seq<char>, V> {
        self.map()
    }
}

/// Position of a key among entries (meaningful when the key occurs).
pub open spec fn index_of_key<V>(s: Seq<(Seq<char>, V)>, k: Seq<char>) -> int {
    choose|i: int| 0 <= i < s.len() && s[i].0 == k
}

proof fn lemma_index_of_key<V>(s: Seq<(Seq<char>, V)>, i: int)
    requires
        unique_keys(s),
        0 <= i < s.len(),
    ensures
        index_of_key(s, s[i].0) == i,
{
    let j = index_of_key(s, s[i].0);
    assert(0 <= j < s.len() && s[j].0 == s[i].0);
}

proof fn lemma_entries_map_insert_at<V>(s: Seq<(Seq<char>, V)>, i: int, k: Seq<char>, v: V)
    requires
        unique_keys(s),
        0 <= i <= s.len(),
        !entries_map(s).contains_key(k),
    ensures
        entries_map(s.insert(i, (k, v))) =~= entries_map(s).insert(k, v),
        unique_keys(s.insert(i, (k, v))),
{
    let t = s.insert(i, (k, v));
    assert forall|j: int| 0 <= j < s.len() implies #[trigger] s[j].0 != k by {
        lemma_entries_map_dom(s, k);
    }
    assert forall|a: int, b: int| 0 <= a < t.len() && 0 <= b < t.len() && a != b implies #[trigger] t[a].0
        != #[trigger] t[b].0 by {
        if a != i && b != i {
            let a2 = if a < i { a } else { a - 1 };
            let b2 = if b < i { b } else { b - 1 };
            assert(t[a] == s[a2]);
            assert(t[b] == s[b2]);
        } else if a == i {
            let b2 = if b < i { b } else { b - 1 };
            assert(t[b] == s[b2]);
        } else {
            let a2 = if a < i { a } else { a - 1 };
            assert(t[a] == s[a2]);
        }
    }
    assert forall|q: Seq<char>| #[trigger] entries_map(t).contains_key(q) <==> entries_map(s).insert(
        k,
        v,
    ).contains_key(q) by {
        lemma_entries_map_dom(t, q);
        lemma_entries_map_dom(s, q);
        if exists|j: int| 0 <= j < s.len() && #[trigger] s[j].0 == q {
            let j = choose|j: int| 0 <= j < s.len() && #[trigger] s[j].0 == q;
            let j2 = if j < i { j } else { j + 1 };
            assert(t[j2].0 == q);
        }
        if q == k {
            assert(t[i].0 == q);
        }
        if exists|j: int| 0 <= j < t.len() && #[trigger] t[j].0 == q {
            let j = choose|j: int| 0 <= j < t.len() && #[trigger] t[j].0 == q;
            if j != i {
                let j2 = if j < i { j } else { j - 1 };
                assert(s[j2].0 == q);
            }
        }
    }
    assert forall|q: Seq<char>| #[trigger] entries_map(t).contains_key(q) implies entries_map(t)[q]
        == entries_map(s).insert(k, v)[q] by {
        lemma_entries_map_dom(t, q);
        let j = choose|j: int| 0 <= j < t.len() && #[trigger] t[j].0 == q;
        lemma_entries_map_index(t, j);
        if j != i {
            let j2 = if j < i { j } else { j - 1 };
            assert(t[j] == s[j2]);
            lemma_entries_map_index(s, j2);
        }
    }
}

} // verus!
