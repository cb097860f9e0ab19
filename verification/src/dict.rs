//! Frequency dictionaries: a mapping from n-gram key to occurrence count,
//! viewed as a `Map<Seq<char>, u64>`. Counts saturate at `u64::MAX`, so a
//! dictionary value is always the minimum of the true occurrence count and
//! `u64::MAX`; saturation keeps incremental counting, per-chunk counting and
//! merging in exact agreement.

use vstd::prelude::*;

verus! {

/// Saturating increment of a count.
pub open spec fn bump_count(c: u64) -> u64 {
    if c == u64::MAX {
        c
    } else {
        (c + 1) as u64
    }
}

/// Saturating addition of counts.
pub open spec fn sat_add(a: u64, b: u64) -> u64 {
    if a + b > u64::MAX {
        u64::MAX
    } else {
        (a + b) as u64
    }
}

/// The count of `k` in `m`, zero when absent.
pub open spec fn count_of(m: Map<Seq<char>, u64>, k: Seq<char>) -> u64 {
    if m.dom().contains(k) {
        m[k]
    } else {
        0
    }
}

/// `m` with the count of `k` incremented.
pub open spec fn bump(m: Map<Seq<char>, u64>, k: Seq<char>) -> Map<Seq<char>, u64> {
    m.insert(k, bump_count(count_of(m, k)))
}

/// `m` after one increment per key of `ks`, in order.
pub open spec fn bump_all(m: Map<Seq<char>, u64>, ks: Seq<Seq<char>>) -> Map<Seq<char>, u64>
    decreases ks.len(),
{
    if ks.len() == 0 {
        m
    } else {
        bump_all(bump(m, ks[0]), ks.drop_first())
    }
}

/// Counting a single key is one increment.
pub proof fn lemma_bump_all_one(m: Map<Seq<char>, u64>, k: Seq<char>)
    ensures
        bump_all(m, seq![k]) == bump(m, k),
{
    assert(seq![k][0] == k);
    assert(seq![k].drop_first() =~= Seq::<Seq<char>>::empty());
    assert(bump_all(bump(m, k), Seq::<Seq<char>>::empty()) == bump(m, k));
}

/// Counting one more key after a list is one more increment.
pub proof fn lemma_bump_all_snoc(m: Map<Seq<char>, u64>, ks: Seq<Seq<char>>, k: Seq<char>)
    ensures
        bump_all(m, ks.push(k)) == bump(bump_all(m, ks), k),
{
    lemma_bump_all_concat(m, ks, seq![k]);
    assert(ks + seq![k] =~= ks.push(k));
    lemma_bump_all_one(bump_all(m, ks), k);
}

/// `m` with `c` added onto the count of `k`.
pub open spec fn add_count(m: Map<Seq<char>, u64>, k: Seq<char>, c: u64) -> Map<Seq<char>, u64> {
    m.insert(k, sat_add(count_of(m, k), c))
}

/// Pointwise saturating sum of two count maps.
pub open spec fn merge_counts(a: Map<Seq<char>, u64>, b: Map<Seq<char>, u64>) -> Map<
    Seq<char>,
    u64,
> {
    Map::new(
        |k: Seq<char>| a.dom().contains(k) || b.dom().contains(k),
        |k: Seq<char>| sat_add(count_of(a, k), count_of(b, k)),
    )
}

/// Incrementing keys one by one distributes over concatenation.
pub proof fn lemma_bump_all_concat(m: Map<Seq<char>, u64>, a: Seq<Seq<char>>, b: Seq<Seq<char>>)
    ensures
        bump_all(m, a + b) == bump_all(bump_all(m, a), b),
    decreases a.len(),
{
    if a.len() == 0 {
        assert(a + b =~= b);
    } else {
        assert((a + b)[0] == a[0]);
        assert((a + b).drop_first() =~= a.drop_first() + b);
        lemma_bump_all_concat(bump(m, a[0]), a.drop_first(), b);
    }
}

/// One increment on the right summand commutes with a pointwise merge.
pub proof fn lemma_bump_merge(a: Map<Seq<char>, u64>, b: Map<Seq<char>, u64>, k: Seq<char>)
    ensures
        bump(merge_counts(a, b), k) == merge_counts(a, bump(b, k)),
{
    assert(bump(merge_counts(a, b), k) =~= merge_counts(a, bump(b, k)));
}

pub proof fn lemma_merge_empty(a: Map<Seq<char>, u64>)
    ensures
        merge_counts(a, Map::empty()) == a,
{
    assert(merge_counts(a, Map::<Seq<char>, u64>::empty()) =~= a);
}

/// A whole sequence of increments on the right summand commutes with a
/// pointwise merge.
pub proof fn lemma_bump_all_merge(
    a: Map<Seq<char>, u64>,
    b: Map<Seq<char>, u64>,
    ks: Seq<Seq<char>>,
)
    ensures
        bump_all(merge_counts(a, b), ks) == merge_counts(a, bump_all(b, ks)),
    decreases ks.len(),
{
    if ks.len() > 0 {
        lemma_bump_merge(a, b, ks[0]);
        lemma_bump_all_merge(a, bump(b, ks[0]), ks.drop_first());
    }
}

/// Merging counts accumulated from scratch is the same as accumulating them
/// directly: the key fact behind local-then-merge counting.
pub proof fn lemma_merge_is_bump_all(m: Map<Seq<char>, u64>, ks: Seq<Seq<char>>)
    ensures
        merge_counts(m, bump_all(Map::empty(), ks)) == bump_all(m, ks),
{
    lemma_merge_empty(m);
    lemma_bump_all_merge(m, Map::empty(), ks);
}

/// The key texts of an entry list, in order.
pub open spec fn keys_of(es: Seq<(String, u64)>) -> Seq<Seq<char>> {
    es.map_values(|e: (String, u64)| e.0@)
}

/// The count map held by an entry list.
pub open spec fn entries_map(es: Seq<(String, u64)>) -> Map<Seq<char>, u64>
    decreases es.len(),
{
    if es.len() == 0 {
        Map::empty()
    } else {
        entries_map(es.drop_last()).insert(es.last().0@, es.last().1)
    }
}

pub proof fn lemma_entries_map_dom(es: Seq<(String, u64)>)
    ensures
        forall|k: Seq<char>| entries_map(es).dom().contains(k) == keys_of(es).contains(k),
    decreases es.len(),
{
    if es.len() > 0 {
        lemma_entries_map_dom(es.drop_last());
        assert(keys_of(es).drop_last() =~= keys_of(es.drop_last()));
        assert forall|k: Seq<char>| entries_map(es).dom().contains(k) implies keys_of(
            es,
        ).contains(k) by {
            if k == es.last().0@ {
                assert(keys_of(es)[es.len() - 1] == k);
            } else {
                assert(entries_map(es.drop_last()).dom().contains(k));
                assert(keys_of(es.drop_last()).contains(k));
                let i = choose|i: int|
                    0 <= i < keys_of(es.drop_last()).len() && keys_of(es.drop_last())[i] == k;
                assert(keys_of(es)[i] == k);
            }
        }
        assert forall|k: Seq<char>| keys_of(es).contains(k) implies entries_map(
            es,
        ).dom().contains(k) by {
            let i = choose|i: int| 0 <= i < keys_of(es).len() && keys_of(es)[i] == k;
            if i < es.len() - 1 {
                assert(keys_of(es.drop_last())[i] == k);
                assert(keys_of(es.drop_last()).contains(k));
                assert(entries_map(es.drop_last()).dom().contains(k));
            } else {
                assert(k == es.last().0@);
            }
        }
    }
}

/// Appending an entry with a fresh key keeps the keys distinct.
pub proof fn lemma_keys_push(es: Seq<(String, u64)>, e: (String, u64))
    requires
        keys_of(es).no_duplicates(),
        !keys_of(es).contains(e.0@),
    ensures
        keys_of(es.push(e)).no_duplicates(),
{
    let ks2 = keys_of(es.push(e));
    assert(ks2.drop_last() =~= keys_of(es));
    assert(ks2[ks2.len() - 1] == e.0@);
    assert forall|a: int, b: int|
        0 <= a < ks2.len() && 0 <= b < ks2.len() && a != b implies ks2[a] != ks2[b] by {
        if a < ks2.len() - 1 && b < ks2.len() - 1 {
            assert(ks2[a] == keys_of(es)[a]);
            assert(ks2[b] == keys_of(es)[b]);
        } else if a < ks2.len() - 1 {
            assert(ks2[a] == keys_of(es)[a]);
            assert(keys_of(es).contains(keys_of(es)[a]));
        } else {
            assert(ks2[b] == keys_of(es)[b]);
            assert(keys_of(es).contains(keys_of(es)[b]));
        }
    }
}

/// With distinct keys, the map agrees with each entry.
pub proof fn lemma_entries_map_get(es: Seq<(String, u64)>, i: int)
    requires
        keys_of(es).no_duplicates(),
        0 <= i < es.len(),
    ensures
        entries_map(es).dom().contains(es[i].0@),
        entries_map(es)[es[i].0@] == es[i].1,
    decreases es.len(),
{
    if i == es.len() - 1 {
    } else {
        assert(keys_of(es).drop_last() =~= keys_of(es.drop_last()));
        assert(keys_of(es)[i] != keys_of(es)[es.len() - 1]);
        lemma_entries_map_get(es.drop_last(), i);
        assert(es.drop_last()[i] == es[i]);
    }
}

/// With distinct keys, updating the count of one entry updates the map at
/// that entry's key alone.
pub proof fn lemma_entries_map_update(es: Seq<(String, u64)>, i: int, e: (String, u64))
    requires
        keys_of(es).no_duplicates(),
        0 <= i < es.len(),
        e.0@ == es[i].0@,
    ensures
        entries_map(es.update(i, e)) == entries_map(es).insert(es[i].0@, e.1),
    decreases es.len(),
{
    let k = es[i].0@;
    if i == es.len() - 1 {
        assert(es.update(i, e).drop_last() =~= es.drop_last());
        assert(entries_map(es.update(i, e)) =~= entries_map(es).insert(k, e.1));
    } else {
        assert(keys_of(es).drop_last() =~= keys_of(es.drop_last()));
        assert(keys_of(es)[i] != keys_of(es)[es.len() - 1]);
        assert(es.update(i, e).drop_last() =~= es.drop_last().update(i, e));
        assert(es.drop_last()[i] == es[i]);
        lemma_entries_map_update(es.drop_last(), i, e);
        assert(es.update(i, e).last() == es.last());
        assert(entries_map(es.update(i, e)) =~= entries_map(es).insert(k, e.1));
    }
}

/// A frequency dictionary.
pub struct Dict {
    entries: Vec<(String, u64)>,
}

impl View for Dict {
    type V = Map<Seq<char>, u64>;

    closed spec fn view(&self) -> Map<Seq<char>, u64> {
        entries_map(self.entries@)
    }
}

impl Dict {
    /// Well-formed: the entry keys are pairwise distinct.
    pub closed spec fn wf(&self) -> bool {
        keys_of(self.entries@).no_duplicates()
    }

    /// The entries, as (key text, count) pairs in insertion order.
    pub closed spec fn entry_views(&self) -> Seq<(Seq<char>, u64)> {
        self.entries@.map_values(|e: (String, u64)| (e.0@, e.1))
    }

    /// An empty dictionary.
    pub fn new() -> (d: Dict)
        ensures
            d@ == Map::<Seq<char>, u64>::empty(),
            d.wf(),
            d.entry_views() == Seq::<(Seq<char>, u64)>::empty(),
    {
        let d = Dict { entries: Vec::new() };
        proof {
            assert(keys_of(d.entries@) =~= Seq::<Seq<char>>::empty());
            assert(d.entry_views() =~= Seq::<(Seq<char>, u64)>::empty());
        }
        d
    }

    /// Index of the entry holding `key`, if any.
    fn find(&self, key: &String) -> (r: Option<usize>)
        ensures
            match r {
                Some(i) => i < self.entries@.len() && self.entries@[i as int].0@ == key@,
                None => !keys_of(self.entries@).contains(key@),
            },
    {
        let n = self.entries.len();
        let mut i: usize = 0;
        while i < n
            invariant
                0 <= i <= n,
                n == self.entries@.len(),
                forall|m: int| 0 <= m < i ==> self.entries@[m].0@ != key@,
            decreases n - i,
        {
            if self.entries[i].0 == *key {
                return Some(i);
            }
            i = i + 1;
        }
        proof {
            assert forall|m: int| 0 <= m < keys_of(self.entries@).len() implies keys_of(
                self.entries@,
            )[m] != key@ by {
                assert(keys_of(self.entries@)[m] == self.entries@[m].0@);
            }
        }
        None
    }

    /// The count recorded for `key`, or `None` when `key` is absent.
    pub fn get(&self, key: &String) -> (r: Option<u64>)
        requires
            self.wf(),
        ensures
            match r {
                Some(c) => self@.dom().contains(key@) && self@[key@] == c,
                None => !self@.dom().contains(key@),
            },
    {
        proof {
            lemma_entries_map_dom(self.entries@);
        }
        match self.find(key) {
            Some(i) => {
                proof {
                    lemma_entries_map_get(self.entries@, i as int);
                }
                Some(self.entries[i].1)
            },
            None => None,
        }
    }

    /// Number of keys.
    pub fn len(&self) -> (r: usize)
        requires
            self.wf(),
        ensures
            r == self@.dom().len(),
    {
        proof {
            lemma_entries_map_dom(self.entries@);
            let ks = keys_of(self.entries@);
            assert(self@.dom() =~= ks.to_set());
            ks.unique_seq_to_set();
        }
        self.entries.len()
    }

    /// Increments the count of `key`, inserting it with count 1 when absent.
    pub fn increment(&mut self, key: String)
        requires
            old(self).wf(),
        ensures
            final(self).wf(),
            final(self)@ == bump(old(self)@, key@),
    {
        proof {
            lemma_entries_map_dom(self.entries@);
        }
        match self.find(&key) {
            Some(i) => {
                proof {
                    lemma_entries_map_get(self.entries@, i as int);
                }
                let c = self.entries[i].1;
                let nc = if c < u64::MAX {
                    c + 1
                } else {
                    c
                };
                let ghost es = self.entries@;
                let e = (key, nc);
                proof {
                    lemma_entries_map_update(es, i as int, e);
                }
                self.entries[i] = e;
                proof {
                    assert(self.entries@ == es.update(i as int, e));
                    assert(keys_of(self.entries@) =~= keys_of(es));
                    assert(es[i as int].0@ == key@);
                    assert(old(self)@ == entries_map(es));
                    assert(count_of(old(self)@, key@) == c);
                    assert(nc == bump_count(c));
                    assert(self@ == bump(old(self)@, key@));
                }
            },
            None => {
                let ghost es = self.entries@;
                proof {
                    lemma_keys_push(es, (key, 1u64));
                }
                self.entries.push((key, 1));
                proof {
                    assert(self.entries@ == es.push((key, 1u64)));
                    assert(self.entries@.drop_last() =~= es);
                    assert(count_of(old(self)@, key@) == 0);
                    assert(self@ =~= bump(old(self)@, key@));
                }
            },
        }
    }

    /// Adds `c` onto the count of `key`, inserting it when absent.
    pub fn add(&mut self, key: String, c: u64)
        requires
            old(self).wf(),
        ensures
            final(self).wf(),
            final(self)@ == add_count(old(self)@, key@, c),
    {
        proof {
            lemma_entries_map_dom(self.entries@);
        }
        match self.find(&key) {
            Some(i) => {
                proof {
                    lemma_entries_map_get(self.entries@, i as int);
                }
                let c0 = self.entries[i].1;
                let nc = if c0 <= u64::MAX - c {
                    c0 + c
                } else {
                    u64::MAX
                };
                let ghost es = self.entries@;
                let e = (key, nc);
                proof {
                    lemma_entries_map_update(es, i as int, e);
                }
                self.entries[i] = e;
                proof {
                    assert(keys_of(self.entries@) =~= keys_of(es));
                }
            },
            None => {
                let ghost es = self.entries@;
                proof {
                    lemma_keys_push(es, (key, c));
                }
                self.entries.push((key, c));
                proof {
                    assert(self.entries@ == es.push((key, c)));
                    assert(self.entries@.drop_last() =~= es);
                    assert(count_of(old(self)@, key@) == 0);
                    assert(self@ =~= add_count(old(self)@, key@, c));
                }
            },
        }
    }

    /// Number of entries (equals the number of keys).
    pub fn entry_count(&self) -> (r: usize)
        ensures
            r == self.entry_views().len(),
    {
        self.entries.len()
    }

    /// The entry at position `i`, as a (key, count) pair.
    pub fn entry_at(&self, i: usize) -> (r: (String, u64))
        requires
            i < self.entry_views().len(),
        ensures
            (r.0@, r.1) == self.entry_views()[i as int],
    {
        let e = &self.entries[i];
        (e.0.clone(), e.1)
    }
}

} // verus!

verus! {

/// `m` after adding each (key, count) pair of `evs` in order.
pub open spec fn fold_add(m: Map<Seq<char>, u64>, evs: Seq<(Seq<char>, u64)>) -> Map<
    Seq<char>,
    u64,
>
    decreases evs.len(),
{
    if evs.len() == 0 {
        m
    } else {
        add_count(fold_add(m, evs.drop_last()), evs.last().0, evs.last().1)
    }
}

pub proof fn lemma_merge_empty_left(b: Map<Seq<char>, u64>)
    ensures
        merge_counts(Map::empty(), b) == b,
{
    assert(merge_counts(Map::<Seq<char>, u64>::empty(), b) =~= b);
}

/// The (key text, count) pairs of an entry list.
pub open spec fn ev_of(es: Seq<(String, u64)>) -> Seq<(Seq<char>, u64)> {
    es.map_values(|e: (String, u64)| (e.0@, e.1))
}

/// Adding the entries of a distinct-keyed entry list one by one is the
/// pointwise merge with the map those entries hold.
pub proof fn lemma_fold_add_is_merge(m: Map<Seq<char>, u64>, es: Seq<(String, u64)>)
    requires
        keys_of(es).no_duplicates(),
    ensures
        fold_add(m, ev_of(es)) == merge_counts(m, entries_map(es)),
    decreases es.len(),
{
    if es.len() == 0 {
        assert(ev_of(es) =~= Seq::<(Seq<char>, u64)>::empty());
        lemma_merge_empty(m);
    } else {
        let es0 = es.drop_last();
        let e = es.last();
        let k = e.0@;
        assert(keys_of(es).drop_last() =~= keys_of(es0));
        lemma_fold_add_is_merge(m, es0);
        assert(ev_of(es).drop_last() =~= ev_of(es0));
        assert(ev_of(es).last() == (k, e.1));
        lemma_entries_map_dom(es0);
        assert(!keys_of(es0).contains(k)) by {
            if keys_of(es0).contains(k) {
                let i = choose|i: int| 0 <= i < keys_of(es0).len() && keys_of(es0)[i] == k;
                assert(keys_of(es)[i] == k);
                assert(keys_of(es)[es.len() - 1] == k);
            }
        }
        assert(add_count(merge_counts(m, entries_map(es0)), k, e.1) =~= merge_counts(
            m,
            entries_map(es0).insert(k, e.1),
        ));
    }
}

impl Dict {
    /// Adding this dictionary's entries one by one onto `m` yields the
    /// pointwise merge of `m` with this dictionary.
    pub proof fn lemma_entries(&self, m: Map<Seq<char>, u64>)
        requires
            self.wf(),
        ensures
            fold_add(m, self.entry_views()) == merge_counts(m, self@),
    {
        lemma_fold_add_is_merge(m, self.entries@);
        assert(self.entry_views() == ev_of(self.entries@));
    }

    /// Adds every count of `src` onto this dictionary.
    pub fn merge_from(&mut self, src: &Dict)
        requires
            old(self).wf(),
            src.wf(),
        ensures
            final(self).wf(),
            final(self)@ == merge_counts(old(self)@, src@),
    {
        let ghost m0 = self@;
        let ghost evs = src.entry_views();
        let n = src.entry_count();
        let mut i: usize = 0;
        proof {
            assert(evs.subrange(0, 0) =~= Seq::<(Seq<char>, u64)>::empty());
        }
        while i < n
            invariant
                0 <= i <= n,
                n == evs.len(),
                evs == src.entry_views(),
                src.wf(),
                self.wf(),
                self@ == fold_add(m0, evs.subrange(0, i as int)),
            decreases n - i,
        {
            let e = src.entry_at(i);
            self.add(e.0, e.1);
            proof {
                assert(evs.subrange(0, i + 1).drop_last() =~= evs.subrange(0, i as int));
                assert(evs.subrange(0, i + 1).last() == evs[i as int]);
            }
            i = i + 1;
        }
        proof {
            assert(evs.subrange(0, n as int) =~= evs);
            src.lemma_entries(m0);
        }
    }
}

} // verus!

verus! {

/// Strictly ascending.
pub open spec fn sorted_strict(s: Seq<u64>) -> bool {
    forall|i: int, j: int| 0 <= i < j < s.len() ==> s[i] < s[j]
}

/// The key texts of the entries whose count is `v`, in entry order.
pub open spec fn group_keys(evs: Seq<(Seq<char>, u64)>, v: u64) -> Seq<Seq<char>>
    decreases evs.len(),
{
    if evs.len() == 0 {
        Seq::empty()
    } else {
        group_keys(evs.drop_last(), v) + (if evs.last().1 == v {
            seq![evs.last().0]
        } else {
            Seq::empty()
        })
    }
}

/// The distinct counts of an entry list, in order of first appearance.
pub open spec fn distinct_vals(evs: Seq<(Seq<char>, u64)>) -> Seq<u64>
    decreases evs.len(),
{
    if evs.len() == 0 {
        Seq::empty()
    } else {
        let d = distinct_vals(evs.drop_last());
        if d.contains(evs.last().1) {
            d
        } else {
            d.push(evs.last().1)
        }
    }
}

/// Inserts `v` into a strictly sorted list, keeping it sorted.
fn sorted_insert(vals: &mut Vec<u64>, v: u64)
    requires
        sorted_strict(old(vals)@),
        !old(vals)@.contains(v),
    ensures
        sorted_strict(final(vals)@),
        final(vals)@.len() == old(vals)@.len() + 1,
        forall|x: u64| final(vals)@.contains(x) == (old(vals)@.contains(x) || x == v),
{
    let ghost vs = vals@;
    let n = vals.len();
    let mut j: usize = 0;
    while j < n && vals[j] < v
        invariant
            0 <= j <= n,
            n == vals@.len(),
            vals@ == vs,
            forall|m: int| 0 <= m < j ==> vals@[m] < v,
        decreases n - j,
    {
        j = j + 1;
    }
    // every element at or after j is greater than v
    proof {
        assert forall|m: int| j <= m < vs.len() implies vs[m] > v by {
            if j < vs.len() {
                assert(!(vs[j as int] < v));
                assert(vs[j as int] != v) by {
                    if vs[j as int] == v {
                        assert(vs.contains(v));
                    }
                }
                if m > j {
                    assert(vs[j as int] < vs[m]);
                }
            }
        }
    }
    vals.insert(j, v);
    proof {
        let nv = vals@;
        assert(nv == vs.insert(j as int, v));
        assert forall|a: int, b: int| 0 <= a < b < nv.len() implies nv[a] < nv[b] by {
            assert(nv[a] == (if a < j {
                vs[a]
            } else if a == j {
                v
            } else {
                vs[a - 1]
            }));
            assert(nv[b] == (if b < j {
                vs[b]
            } else if b == j {
                v
            } else {
                vs[b - 1]
            }));
        }
        assert forall|x: u64| nv.contains(x) == (vs.contains(x) || x == v) by {
            if nv.contains(x) {
                let a = choose|a: int| 0 <= a < nv.len() && nv[a] == x;
                if a < j {
                    assert(vs[a] == x);
                } else if a > j {
                    assert(vs[a - 1] == x);
                }
            }
            if vs.contains(x) {
                let a = choose|a: int| 0 <= a < vs.len() && vs[a] == x;
                if a < j {
                    assert(nv[a] == x);
                } else {
                    assert(nv[a + 1] == x);
                }
            }
            if x == v {
                assert(nv[j as int] == x);
            }
        }
    }
}

/// Index of the group holding count `v`, if any.
fn find_group(groups: &Vec<(u64, Vec<String>)>, v: u64) -> (r: Option<usize>)
    ensures
        match r {
            Some(g) => g < groups@.len() && groups@[g as int].0 == v,
            None => forall|g: int| 0 <= g < groups@.len() ==> groups@[g].0 != v,
        },
{
    let n = groups.len();
    let mut g: usize = 0;
    while g < n
        invariant
            0 <= g <= n,
            n == groups@.len(),
            forall|m: int| 0 <= m < g ==> groups@[m].0 != v,
        decreases n - g,
    {
        if groups[g].0 == v {
            return Some(g);
        }
        g = g + 1;
    }
    None
}

/// Inverts a dictionary: returns the distinct counts sorted ascending, and,
/// grouped by count in order of each count's first appearance, the keys
/// bearing that count in entry order.
pub fn reverse_dict(d: &Dict) -> (r: (Vec<u64>, Vec<(u64, Vec<String>)>))
    requires
        d.wf(),
    ensures
        ({
            let evs = d.entry_views();
            let dv = distinct_vals(evs);
            &&& r.1@.len() == dv.len()
            &&& forall|g: int|
                0 <= g < dv.len() ==> #[trigger] r.1@[g].0 == dv[g] && r.1@[g].1.deep_view()
                    == group_keys(evs, dv[g])
            &&& sorted_strict(r.0@)
            &&& forall|x: u64| r.0@.contains(x) == dv.contains(x)
        }),
{
    let ghost evs = d.entry_views();
    let mut vals: Vec<u64> = Vec::new();
    let mut groups: Vec<(u64, Vec<String>)> = Vec::new();
    let n = d.entry_count();
    let mut i: usize = 0;
    proof {
        assert(evs.subrange(0, 0) =~= Seq::<(Seq<char>, u64)>::empty());
    }
    while i < n
        invariant
            0 <= i <= n,
            n == evs.len(),
            evs == d.entry_views(),
            d.wf(),
            groups@.len() == distinct_vals(evs.subrange(0, i as int)).len(),
            forall|g: int|
                0 <= g < groups@.len() ==> #[trigger] groups@[g].0 == distinct_vals(
                    evs.subrange(0, i as int),
                )[g] && groups@[g].1.deep_view() == group_keys(
                    evs.subrange(0, i as int),
                    distinct_vals(evs.subrange(0, i as int))[g],
                ),
            sorted_strict(vals@),
            forall|x: u64|
                vals@.contains(x) == distinct_vals(evs.subrange(0, i as int)).contains(x),
        decreases n - i,
    {
        let ghost prefix = evs.subrange(0, i as int);
        let ghost prefix2 = evs.subrange(0, i + 1);
        let ghost dv = distinct_vals(prefix);
        let e = d.entry_at(i);
        proof {
            assert(prefix2.drop_last() =~= prefix);
            assert(prefix2.last() == evs[i as int]);
            assert((e.0@, e.1) == evs[i as int]);
        }
        let ghost gpre = groups@;
        match find_group(&groups, e.1) {
            Some(g) => {
                proof {
                    // the count was seen before, so the distinct list is unchanged
                    assert(dv.contains(e.1)) by {
                        assert(gpre[g as int].0 == dv[g as int]);
                    }
                    assert(distinct_vals(prefix2) == dv);
                }
                let ghost old_group = groups@[g as int];
                groups[g].1.push(e.0);
                proof {
                    assert(groups@ =~= gpre.update(
                        g as int,
                        (old_group.0, groups@[g as int].1),
                    ));
                    assert forall|h: int| 0 <= h < groups@.len() implies #[trigger] groups@[h].0
                        == distinct_vals(prefix2)[h] && groups@[h].1.deep_view() == group_keys(
                        prefix2,
                        distinct_vals(prefix2)[h],
                    ) by {
                        assert(group_keys(prefix2, dv[h]) == group_keys(prefix, dv[h]) + (if evs[i
                            as int].1 == dv[h] {
                            seq![evs[i as int].0]
                        } else {
                            Seq::<Seq<char>>::empty()
                        }));
                        if h == g {
                            assert(dv[h] == e.1);
                            assert(groups@[h].1.deep_view() =~= old_group.1.deep_view().push(
                                e.0@,
                            ));
                            assert(group_keys(prefix, dv[h]) + seq![evs[i as int].0]
                                =~= group_keys(prefix, dv[h]).push(evs[i as int].0));
                        } else {
                            // counts are distinct across groups
                            assert(dv[h] != dv[g as int]) by {
                                lemma_distinct_vals_no_dup(prefix);
                            }
                            assert(group_keys(prefix, dv[h]) + Seq::<Seq<char>>::empty()
                                =~= group_keys(prefix, dv[h]));
                        }
                    }
                }
            },
            None => {
                proof {
                    assert(!dv.contains(e.1)) by {
                        if dv.contains(e.1) {
                            let g = choose|g: int| 0 <= g < dv.len() && dv[g] == e.1;
                            assert(gpre[g].0 == e.1);
                        }
                    }
                    assert(distinct_vals(prefix2) == dv.push(e.1));
                    assert forall|x: u64|
                        distinct_vals(prefix2).contains(x) == (dv.contains(x) || x == e.1) by {
                        if dv.contains(x) {
                            let g = choose|g: int| 0 <= g < dv.len() && dv[g] == x;
                            assert(distinct_vals(prefix2)[g] == x);
                        }
                        if x == e.1 {
                            assert(distinct_vals(prefix2)[dv.len() as int] == x);
                        }
                        if distinct_vals(prefix2).contains(x) {
                            let g = choose|g: int|
                                0 <= g < distinct_vals(prefix2).len() && distinct_vals(prefix2)[g]
                                    == x;
                            if g < dv.len() {
                                assert(dv[g] == x);
                            }
                        }
                    }
                }
                let mut ks: Vec<String> = Vec::new();
                ks.push(e.0);
                groups.push((e.1, ks));
                sorted_insert(&mut vals, e.1);
                proof {
                    assert forall|h: int| 0 <= h < groups@.len() implies #[trigger] groups@[h].0
                        == distinct_vals(prefix2)[h] && groups@[h].1.deep_view() == group_keys(
                        prefix2,
                        distinct_vals(prefix2)[h],
                    ) by {
                        assert(group_keys(prefix2, distinct_vals(prefix2)[h]) == group_keys(
                            prefix,
                            distinct_vals(prefix2)[h],
                        ) + (if evs[i as int].1 == distinct_vals(prefix2)[h] {
                            seq![evs[i as int].0]
                        } else {
                            Seq::<Seq<char>>::empty()
                        }));
                        if h < groups@.len() - 1 {
                            assert(groups@[h] == gpre[h]);
                            assert(distinct_vals(prefix2)[h] == dv[h]);
                            assert(dv[h] != e.1) by {
                                if dv[h] == e.1 {
                                    assert(dv.contains(e.1));
                                }
                            }
                            assert(group_keys(prefix, dv[h]) + Seq::<Seq<char>>::empty()
                                =~= group_keys(prefix, dv[h]));
                        } else {
                            assert(distinct_vals(prefix2)[h] == e.1);
                            lemma_group_keys_absent(prefix, dv, e.1);
                            assert(group_keys(prefix, e.1) =~= Seq::<Seq<char>>::empty());
                            assert(groups@[h].1.deep_view() =~= seq![e.0@]);
                            assert(Seq::<Seq<char>>::empty() + seq![evs[i as int].0] =~= seq![
                                evs[i as int].0,
                            ]);
                        }
                    }
                }
            },
        }
        i = i + 1;
    }
    proof {
        assert(evs.subrange(0, n as int) =~= evs);
    }
    (vals, groups)
}

/// Whether any entry bears the count `v`.
pub open spec fn group_keys_has(evs: Seq<(Seq<char>, u64)>, v: u64) -> bool {
    exists|m: int| 0 <= m < evs.len() && evs[m].1 == v
}

/// A count never seen leaves an empty group.
proof fn lemma_group_keys_absent(evs: Seq<(Seq<char>, u64)>, dv: Seq<u64>, v: u64)
    requires
        !distinct_vals(evs).contains(v),
    ensures
        group_keys(evs, v).len() == 0,
        !group_keys_has(evs, v),
    decreases evs.len(),
{
    if evs.len() > 0 {
        let d = distinct_vals(evs.drop_last());
        assert(d.contains(evs.last().1) || distinct_vals(evs) == d.push(evs.last().1));
        assert(!d.contains(v)) by {
            if d.contains(v) {
                let g = choose|g: int| 0 <= g < d.len() && d[g] == v;
                if distinct_vals(evs) == d {
                } else {
                    assert(distinct_vals(evs)[g] == v);
                }
            }
        }
        lemma_group_keys_absent(evs.drop_last(), d, v);
        assert(evs.last().1 != v) by {
            if evs.last().1 == v {
                if d.contains(v) {
                } else {
                    assert(distinct_vals(evs)[distinct_vals(evs).len() - 1] == v);
                }
            }
        }
        assert(group_keys_has(evs, v) ==> group_keys_has(evs.drop_last(), v)) by {
            if group_keys_has(evs, v) {
                let m = choose|m: int| 0 <= m < evs.len() && evs[m].1 == v;
                assert(m < evs.len() - 1);
                assert(evs.drop_last()[m].1 == v);
            }
        }
    }
}

/// The distinct counts are pairwise distinct.
proof fn lemma_distinct_vals_no_dup(evs: Seq<(Seq<char>, u64)>)
    ensures
        distinct_vals(evs).no_duplicates(),
    decreases evs.len(),
{
    if evs.len() > 0 {
        lemma_distinct_vals_no_dup(evs.drop_last());
        let d = distinct_vals(evs.drop_last());
        if !d.contains(evs.last().1) {
            assert forall|a: int, b: int|
                0 <= a < d.push(evs.last().1).len() && 0 <= b < d.push(evs.last().1).len() && a
                    != b implies d.push(evs.last().1)[a] != d.push(evs.last().1)[b] by {
                if a < d.len() && b < d.len() {
                } else if a < d.len() {
                    assert(d.contains(d[a]));
                } else if b < d.len() {
                    assert(d.contains(d[b]));
                }
            }
        }
    }
}

} // verus!
