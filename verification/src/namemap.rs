//! A small map keyed by strings, kept as a list of entries.
use vstd::prelude::*;

use crate::text::str_eq;

verus! {

/// Values that can be copied with a stated result.
pub trait Duplicate: View + Sized {
    fn duplicate(&self) -> (r: Self)
        ensures
            r@ == self@,
    ;
}

impl Duplicate for String {
    fn duplicate(&self) -> (r: String) {
        self.clone()
    }
}

/// The string keys of an entry list.
pub open spec fn key_seq<V>(entries: Seq<(Seq<char>, V)>) -> Seq<Seq<char>> {
    entries.map_values(|e: (Seq<char>, V)| e.0)
}

/// The value of the first entry whose key is `k`.
pub open spec fn lookup<V>(entries: Seq<(Seq<char>, V)>, k: Seq<char>) -> Option<V>
    decreases entries.len(),
{
    if entries.len() == 0 {
        None
    } else if entries[0].0 == k {
        Some(entries[0].1)
    } else {
        lookup(entries.drop_first(), k)
    }
}

/// Index of the first entry whose key is `k`, if any.
pub open spec fn first_key_index<V>(entries: Seq<(Seq<char>, V)>, k: Seq<char>) -> Option<int>
    decreases entries.len(),
{
    if entries.len() == 0 {
        None
    } else if entries[0].0 == k {
        Some(0)
    } else {
        match first_key_index(entries.drop_first(), k) {
            Some(i) => Some(i + 1),
            None => None,
        }
    }
}

/// The entries after setting the value of `k`: the first entry with that key is
/// replaced in place; without one, a new entry is appended.
pub open spec fn insert_entry<V>(entries: Seq<(Seq<char>, V)>, k: Seq<char>, v: V) -> Seq<(Seq<char>, V)> {
    match first_key_index(entries, k) {
        Some(i) => entries.update(i, (k, v)),
        None => entries.push((k, v)),
    }
}

/// The entries without any entry keyed `k`, the others in their order.
pub open spec fn remove_key<V>(entries: Seq<(Seq<char>, V)>, k: Seq<char>) -> Seq<(Seq<char>, V)> {
    entries.filter(|e: (Seq<char>, V)| e.0 != k)
}

pub proof fn lemma_first_key_index<V>(entries: Seq<(Seq<char>, V)>, k: Seq<char>)
    ensures
        match first_key_index(entries, k) {
            Some(i) => 0 <= i < entries.len() && entries[i].0 == k && lookup(entries, k) == Some(
                entries[i].1,
            ) && forall|j: int| 0 <= j < i ==> entries[j].0 != k,
            None => lookup(entries, k) is None && forall|j: int|
                0 <= j < entries.len() ==> entries[j].0 != k,
        },
    decreases entries.len(),
{
    if entries.len() > 0 && entries[0].0 != k {
        lemma_first_key_index(entries.drop_first(), k);
        assert forall|j: int| 0 < j < entries.len() implies entries[j].0 == entries.drop_first()[j
            - 1].0 by {}
    }
}

/// `lookup` finds the first entry with the key.
pub proof fn lemma_lookup_first<V>(entries: Seq<(Seq<char>, V)>, k: Seq<char>, i: int)
    requires
        0 <= i < entries.len(),
        entries[i].0 == k,
        forall|j: int| 0 <= j < i ==> entries[j].0 != k,
    ensures
        lookup(entries, k) == Some(entries[i].1),
        first_key_index(entries, k) == Some(i),
{
    lemma_first_key_index(entries, k);
}

/// After setting `k` to `v`, `k` reads `v` and every other key reads as before.
pub proof fn lemma_insert_lookup<V>(entries: Seq<(Seq<char>, V)>, k: Seq<char>, v: V, j: Seq<char>)
    ensures
        lookup(insert_entry(entries, k, v), j) == if j == k {
            Some(v)
        } else {
            lookup(entries, j)
        },
{
    lemma_first_key_index(entries, k);
    lemma_first_key_index(entries, j);
    let r = insert_entry(entries, k, v);
    lemma_first_key_index(r, j);
    match first_key_index(entries, k) {
        Some(i) => {
            if j == k {
                lemma_lookup_first(r, k, i);
            } else {
                match first_key_index(entries, j) {
                    Some(m) => {
                        lemma_lookup_first(r, j, m);
                    },
                    None => {},
                }
            }
        },
        None => {
            if j == k {
                lemma_lookup_first(r, k, entries.len() as int);
            } else {
                match first_key_index(entries, j) {
                    Some(m) => {
                        lemma_lookup_first(r, j, m);
                    },
                    None => {},
                }
            }
        },
    }
}

/// After removing `k`, `k` reads nothing and every other key reads as before.
pub proof fn lemma_remove_lookup<V>(entries: Seq<(Seq<char>, V)>, k: Seq<char>, j: Seq<char>)
    ensures
        lookup(remove_key(entries, k), j) == if j == k {
            None
        } else {
            lookup(entries, j)
        },
    decreases entries.len(),
{
    let f = |e: (Seq<char>, V)| e.0 != k;
    if entries.len() > 0 {
        lemma_remove_lookup(entries.drop_first(), k, j);
        assert(entries == seq![entries[0]] + entries.drop_first());
        Seq::filter_distributes_over_add(seq![entries[0]], entries.drop_first(), f);
        reveal_with_fuel(Seq::filter, 2);
        if entries[0].0 != k {
            assert(remove_key(entries, k) == seq![entries[0]] + remove_key(entries.drop_first(), k));
            assert((seq![entries[0]] + remove_key(entries.drop_first(), k)).drop_first()
                == remove_key(entries.drop_first(), k));
        } else {
            assert(remove_key(entries, k) == remove_key(entries.drop_first(), k));
        }
    } else {
        assert(remove_key(entries, k).len() == 0);
    }
}

/// Removing a key from a non-empty list, last entry split off.
pub proof fn lemma_remove_key_push<V>(s: Seq<(Seq<char>, V)>, k: Seq<char>)
    requires
        s.len() > 0,
    ensures
        remove_key(s, k) == if s.last().0 != k {
            remove_key(s.drop_last(), k).push(s.last())
        } else {
            remove_key(s.drop_last(), k)
        },
{
    reveal_with_fuel(Seq::filter, 1);
}

/// No two entries share a key.
pub open spec fn keys_distinct<V>(entries: Seq<(Seq<char>, V)>) -> bool {
    forall|a: int, b: int| 0 <= a < b < entries.len() ==> #[trigger] entries[a].0 != #[trigger] entries[b].0
}

/// Setting a key keeps the keys distinct.
pub proof fn lemma_insert_distinct<V>(entries: Seq<(Seq<char>, V)>, k: Seq<char>, v: V)
    requires
        keys_distinct(entries),
    ensures
        keys_distinct(insert_entry(entries, k, v)),
{
    lemma_first_key_index(entries, k);
    let r = insert_entry(entries, k, v);
    match first_key_index(entries, k) {
        Some(i) => {
            assert forall|a: int, b: int| 0 <= a < b < r.len() implies #[trigger] r[a].0 != #[trigger] r[b].0 by {
                assert(r[a].0 == entries[a].0);
                assert(r[b].0 == entries[b].0);
            }
        },
        None => {
            assert forall|a: int, b: int| 0 <= a < b < r.len() implies #[trigger] r[a].0 != #[trigger] r[b].0 by {
                assert(r[a] == entries[a]);
                if b < entries.len() {
                    assert(r[b] == entries[b]);
                }
            }
        },
    }
}

/// Every key left after removing `k` was a key before, and removing keeps the
/// keys distinct.
pub proof fn lemma_remove_distinct<V>(entries: Seq<(Seq<char>, V)>, k: Seq<char>)
    ensures
        forall|a: int| 0 <= a < remove_key(entries, k).len()
            ==> key_seq(entries).contains(#[trigger] remove_key(entries, k)[a].0),
        keys_distinct(entries) ==> keys_distinct(remove_key(entries, k)),
    decreases entries.len(),
{
    let r = remove_key(entries, k);
    if entries.len() == 0 {
        reveal_with_fuel(Seq::filter, 1);
        assert(r.len() == 0);
    } else {
        let init = entries.drop_last();
        lemma_remove_distinct(init, k);
        lemma_remove_key_push(entries, k);
        let ri = remove_key(init, k);
        assert forall|a: int| 0 <= a < r.len() implies key_seq(entries).contains(#[trigger] r[a].0) by {
            if a < ri.len() {
                assert(r[a] == ri[a]);
                let j = choose|j: int| 0 <= j < key_seq(init).len() && key_seq(init)[j] == ri[a].0;
                assert(key_seq(entries)[j] == ri[a].0);
            } else {
                assert(r[a] == entries.last());
                assert(key_seq(entries)[entries.len() - 1] == r[a].0);
            }
        }
        if keys_distinct(entries) {
            assert(keys_distinct(init)) by {
                assert forall|a: int, b: int| 0 <= a < b < init.len() implies #[trigger] init[a].0 != #[trigger] init[b].0 by {
                    assert(init[a] == entries[a]);
                    assert(init[b] == entries[b]);
                }
            }
            assert forall|a: int, b: int| 0 <= a < b < r.len() implies #[trigger] r[a].0 != #[trigger] r[b].0 by {
                assert(r[a] == ri[a]);
                if b < ri.len() {
                    assert(r[b] == ri[b]);
                } else {
                    assert(r[b] == entries.last());
                    let j = choose|j: int| 0 <= j < key_seq(init).len() && key_seq(init)[j] == ri[a].0;
                    assert(entries[j].0 == ri[a].0);
                }
            }
        }
    }
}

/// A map from string keys to values, with the entries in insertion order.
#[derive(Debug)]
pub struct NameMap<V> {
    pub entries: Vec<(String, V)>,
}

impl<V: View> View for NameMap<V> {
    type V = Seq<(Seq<char>, V::V)>;

    open spec fn view(&self) -> Seq<(Seq<char>, V::V)> {
        self.entries@.map_values(|e: (String, V)| (e.0@, e.1@))
    }
}

impl<V: Duplicate> Duplicate for NameMap<V> {
    fn duplicate(&self) -> (r: Self) {
        let mut out: Vec<(String, V)> = Vec::new();
        let mut i: usize = 0;
        while i < self.entries.len()
            invariant
                i <= self.entries.len(),
                out.len() == i,
                forall|j: int|
                    0 <= j < i ==> (#[trigger] out@[j]).0@ == self.entries@[j].0@ && out@[j].1@
                        == self.entries@[j].1@,
            decreases self.entries.len() - i,
        {
            let k = self.entries[i].0.clone();
            let v = self.entries[i].1.duplicate();
            out.push((k, v));
            i = i + 1;
        }
        let r = NameMap { entries: out };
        assert(r@ =~= self@);
        r
    }
}

impl<V: View> NameMap<V> {
    /// No two entries share a key: what a map built by `new`, `insert` and
    /// `remove` always satisfies.
    pub open spec fn wf(&self) -> bool {
        keys_distinct(self@)
    }

    /// An empty map.
    pub fn new() -> (m: Self)
        ensures
            m@ == Seq::<(Seq<char>, V::V)>::empty(),
            m.wf(),
    {
        let m = NameMap { entries: Vec::new() };
        assert(m@ =~= Seq::<(Seq<char>, V::V)>::empty());
        m
    }

    /// Number of entries.
    pub fn len(&self) -> (n: usize)
        ensures
            n == self@.len(),
    {
        self.entries.len()
    }

    /// Whether the map has no entry.
    pub fn is_empty(&self) -> (b: bool)
        ensures
            b == (self@.len() == 0),
    {
        self.entries.len() == 0
    }

    /// Position of the first entry with key `k`.
    pub fn position(&self, k: &str) -> (r: Option<usize>)
        ensures
            match r {
                Some(i) => first_key_index(self@, k@) == Some(i as int),
                None => first_key_index(self@, k@) is None,
            },
    {
        proof {
            lemma_first_key_index(self@, k@);
        }
        let mut i: usize = 0;
        while i < self.entries.len()
            invariant
                i <= self.entries.len(),
                forall|j: int| 0 <= j < i ==> self@[j].0 != k@,
            decreases self.entries.len() - i,
        {
            if str_eq(self.entries[i].0.as_str(), k) {
                proof {
                    lemma_lookup_first(self@, k@, i as int);
                }
                return Some(i);
            }
            i = i + 1;
        }
        None
    }

    /// The value stored under `k`.
    pub fn get(&self, k: &str) -> (r: Option<&V>)
        ensures
            match r {
                Some(v) => lookup(self@, k@) == Some(v@),
                None => lookup(self@, k@) is None,
            },
    {
        proof {
            lemma_first_key_index(self@, k@);
        }
        match self.position(k) {
            Some(i) => Some(&self.entries[i].1),
            None => None,
        }
    }

    /// Whether some entry has key `k`.
    pub fn contains_key(&self, k: &str) -> (b: bool)
        ensures
            b == (lookup(self@, k@) is Some),
    {
        proof {
            lemma_first_key_index(self@, k@);
        }
        self.position(k).is_some()
    }

    /// Sets the value of `k` (in place when present, appended otherwise).
    pub fn insert(&mut self, k: String, v: V)
        ensures
            final(self)@ == insert_entry(old(self)@, k@, v@),
            old(self).wf() ==> final(self).wf(),
    {
        proof {
            lemma_first_key_index(self@, k@);
            if self.wf() {
                lemma_insert_distinct(self@, k@, v@);
            }
        }
        match self.position(k.as_str()) {
            Some(i) => {
                self.entries.set(i, (k, v));
            },
            None => {
                self.entries.push((k, v));
            },
        }
        assert(self@ =~= insert_entry(old(self)@, k@, v@));
    }

    /// Removes every entry with key `k`.
    pub fn remove(&mut self, k: &str)
        ensures
            final(self)@ == remove_key(old(self)@, k@),
            old(self).wf() ==> final(self).wf(),
    {
        proof {
            lemma_remove_distinct(self@, k@);
        }
        let mut rest: Vec<(String, V)> = Vec::new();
        std::mem::swap(&mut rest, &mut self.entries);
        let ghost ov = old(self)@;
        let mut kept: Vec<(String, V)> = Vec::new();
        let ghost total = rest@.len();
        while rest.len() > 0
            invariant
                total == ov.len(),
                rest.len() <= total,
                forall|j: int|
                    0 <= j < rest.len() ==> ((#[trigger] rest@[j]).0@, rest@[j].1@) == ov[total - rest.len() + j],
                kept@.map_values(|e: (String, V)| (e.0@, e.1@)) == remove_key(ov.subrange(
                    0,
                    total - rest.len(),
                ), k@),
            decreases rest.len(),
        {
            let ghost before = total - rest.len();
            assert(((rest@[0]).0@, rest@[0].1@) == ov[before]);
            let e = rest.remove(0);
            let ghost s = ov.subrange(0, before + 1);
            proof {
                assert(s.drop_last() =~= ov.subrange(0, before));
                assert(s.last() == (e.0@, e.1@));
                lemma_remove_key_push(s, k@);
            }
            let ghost kv = kept@.map_values(|e: (String, V)| (e.0@, e.1@));
            if !str_eq(e.0.as_str(), k) {
                kept.push(e);
                assert(kept@.map_values(|e: (String, V)| (e.0@, e.1@)) =~= kv.push(s.last()));
            }
            assert(total - rest.len() == before + 1);
            assert(forall|j: int|
                0 <= j < rest.len() ==> ((#[trigger] rest@[j]).0@, rest@[j].1@) == ov[total - rest.len() + j]);
        }
        assert(ov.subrange(0, total as int) == ov);
        self.entries = kept;
    }
}

} // verus!
