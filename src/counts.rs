//! A frequency table from category text to occurrence count.

use vstd::prelude::*;
use crate::text::views;

verus! {

/// Number of times `k` occurs in `s`.
pub open spec fn occurrences(s: Seq<Seq<char>>, k: Seq<char>) -> nat
    decreases s.len(),
{
    if s.len() == 0 {
        0
    } else {
        occurrences(s.drop_last(), k) + if s.last() == k { 1nat } else { 0nat }
    }
}

/// Sum of the counts held for key `k`.
pub open spec fn count_in(e: Seq<(Seq<char>, u64)>, k: Seq<char>) -> nat
    decreases e.len(),
{
    if e.len() == 0 {
        0
    } else {
        count_in(e.drop_last(), k) + if e.last().0 == k { e.last().1 as nat } else { 0nat }
    }
}

/// Sum of all counts.
pub open spec fn sum_counts(e: Seq<(Seq<char>, u64)>) -> nat
    decreases e.len(),
{
    if e.len() == 0 {
        0
    } else {
        sum_counts(e.drop_last()) + e.last().1 as nat
    }
}

/// Key to occurrence count, each key once, in order of first occurrence.
pub struct CountTable {
    entries: Vec<(String, u64)>,
    total: u64,
}

impl CountTable {
    /// The entries as plain values.
    pub closed spec fn entries_view(&self) -> Seq<(Seq<char>, u64)> {
        self.entries@.map_values(|p: (String, u64)| (p.0@, p.1))
    }

    /// How often `k` has been counted.
    pub open spec fn count(&self, k: Seq<char>) -> nat {
        count_in(self.entries_view(), k)
    }

    /// Sum of all counts.
    pub open spec fn total_count(&self) -> nat {
        sum_counts(self.entries_view())
    }

    /// No key stands twice.
    pub open spec fn distinct_keys(&self) -> bool {
        forall|i: int, j: int| 0 <= i < j < self.keys().len() ==> self.keys()[i] != self.keys()[j]
    }

    /// A well-formed table holds each key once.
    pub proof fn lemma_wf_distinct(&self)
        requires
            self.wf(),
        ensures
            self.distinct_keys(),
    {
        assert forall|i: int, j: int| 0 <= i < j < self.keys().len() implies self.keys()[i] != self.keys()[j] by {
            assert(self.keys()[i] == self.entries@[i].0@);
            assert(self.keys()[j] == self.entries@[j].0@);
        }
    }

    /// Every key stands once, and the running total is the sum of counts.
    pub closed spec fn wf(&self) -> bool {
        &&& self.total as nat == sum_counts(self.entries_view())
        &&& forall|i: int, j: int|
            0 <= i < j < self.entries@.len() ==> self.entries@[i].0@ != self.entries@[j].0@
    }

    /// The keys in order of first occurrence.
    pub open spec fn keys(&self) -> Seq<Seq<char>> {
        self.entries_view().map_values(|p: (Seq<char>, u64)| p.0)
    }

    pub fn new() -> (r: CountTable)
        ensures
            r.wf(),
            r.total_count() == 0,
            forall|k: Seq<char>| r.count(k) == 0,
            r.keys().len() == 0,
    {
        let r = CountTable { entries: Vec::new(), total: 0 };
        assert(r.entries_view().len() == 0);
        r
    }

    /// Sum of all counts.
    pub fn total(&self) -> (r: u64)
        requires
            self.wf(),
        ensures
            r as nat == self.total_count(),
    {
        self.total
    }

    /// Number of keys, each of which stands once in a well-formed table.
    pub fn len(&self) -> (r: usize)
        ensures
            r as nat == self.keys().len(),
            self.wf() ==> self.distinct_keys(),
    {
        proof {
            if self.wf() {
                self.lemma_wf_distinct();
            }
        }
        self.entries.len()
    }

    /// The key and count at position `i`, in order of first occurrence.
    pub fn entry(&self, i: usize) -> (r: (&String, u64))
        requires
            i < self.keys().len(),
        ensures
            r.0@ == self.keys()[i as int],
            r.1 == self.entries_view()[i as int].1,
    {
        let e = &self.entries[i];
        (&e.0, e.1)
    }

    /// Adds one to the count of `key`.
    pub fn increment(&mut self, key: &String)
        requires
            old(self).wf(),
            old(self).total_count() < u64::MAX,
        ensures
            final(self).wf(),
            final(self).total_count() == old(self).total_count() + 1,
            final(self).count(key@) == old(self).count(key@) + 1,
            forall|k: Seq<char>| k != key@ ==> final(self).count(k) == old(self).count(k),
    {
        self.add(key, 1);
    }

    /// Adds `n` to the count of `key`.
    pub fn add(&mut self, key: &String, n: u64)
        requires
            old(self).wf(),
            old(self).total_count() + n <= u64::MAX,
        ensures
            final(self).wf(),
            final(self).total_count() == old(self).total_count() + n,
            final(self).count(key@) == old(self).count(key@) + n,
            forall|k: Seq<char>| k != key@ ==> final(self).count(k) == old(self).count(k),
    {
        let ghost e0 = self.entries_view();
        let mut i: usize = 0;
        while i < self.entries.len()
            invariant
                i <= self.entries@.len(),
                e0 == self.entries_view(),
                *self == *old(self),
                self.wf(),
                self.total_count() + n <= u64::MAX,
                forall|j: int| 0 <= j < i ==> self.entries@[j].0@ != key@,
            decreases self.entries@.len() - i,
        {
            if self.entries[i].0 == *key {
                let c = self.entries[i].1;
                proof {
                    lemma_entry_le_sum(e0, i as int);
                    assert(e0[i as int] == (key@, c));
                }
                self.entries.set(i, (key.clone(), c + n));
                self.total = self.total + n;
                proof {
                    let e1 = self.entries_view();
                    assert(e1 == e0.update(i as int, (key@, (c + n) as u64)));
                    lemma_update_counts(e0, i as int, n, (c + n) as u64);
                }
                return;
            }
            i = i + 1;
        }
        self.entries.push((key.clone(), n));
        self.total = self.total + n;
        proof {
            let e1 = self.entries_view();
            assert(e1.drop_last() == e0);
            assert forall|j: int| 0 <= j < e0.len() implies e0[j].0 != key@ by {
                assert(e0[j].0 == self.entries@[j].0@);
            }
            lemma_count_absent(e0, key@);
        }
    }

    /// Counts every item of `keys` once.
    pub fn increment_all(&mut self, keys: &Vec<String>)
        requires
            old(self).wf(),
            old(self).total_count() + keys@.len() <= u64::MAX,
        ensures
            final(self).wf(),
            final(self).total_count() == old(self).total_count() + keys@.len(),
            forall|k: Seq<char>|
                final(self).count(k) == old(self).count(k) + occurrences(views(keys@), k),
    {
        let ghost t0 = *self;
        let mut i: usize = 0;
        while i < keys.len()
            invariant
                i <= keys@.len(),
                self.wf(),
                t0.total_count() + keys@.len() <= u64::MAX,
                self.total_count() == t0.total_count() + i,
                forall|k: Seq<char>|
                    self.count(k) == t0.count(k) + occurrences(
                        views(keys@.subrange(0, i as int)),
                        k,
                    ),
            decreases keys@.len() - i,
        {
            proof {
                let next = keys@.subrange(0, i as int + 1);
                assert(views(next).drop_last() == views(keys@.subrange(0, i as int)));
                assert(views(next).last() == keys@[i as int]@);
            }
            self.increment(&keys[i]);
            i = i + 1;
        }
        assert(keys@.subrange(0, keys@.len() as int) == keys@);
    }
}

/// Key and count of each pair.
pub open spec fn pairs_view(v: Seq<(String, u64)>) -> Seq<(Seq<char>, u64)> {
    v.map_values(|p: (String, u64)| (p.0@, p.1))
}

impl CountTable {
    /// The entries as key and count pairs, in order of first occurrence.
    pub fn to_pairs(&self) -> (r: Vec<(String, u64)>)
        ensures
            pairs_view(r@) == self.entries_view(),
    {
        let mut out: Vec<(String, u64)> = Vec::new();
        let mut i: usize = 0;
        while i < self.entries.len()
            invariant
                i <= self.entries@.len(),
                out@.len() == i,
                forall|j: int| 0 <= j < i ==> (#[trigger] out@[j]).0@ == self.entries@[j].0@ && out@[j].1 == self.entries@[j].1,
            decreases self.entries@.len() - i,
        {
            let e = &self.entries[i];
            out.push((e.0.clone(), e.1));
            i = i + 1;
        }
        assert(pairs_view(out@) =~= self.entries_view());
        out
    }

    /// A table holding the given counts, a key that comes twice counted
    /// with the sum of its counts; `None` when all counts together pass
    /// `u64::MAX`.
    pub fn from_pairs(pairs: &Vec<(String, u64)>) -> (r: Option<CountTable>)
        ensures
            match r {
                Some(t) => t.wf() && forall|k: Seq<char>| #[trigger] t.count(k) == count_in(pairs_view(pairs@), k),
                None => sum_counts(pairs_view(pairs@)) > u64::MAX,
            },
    {
        let mut t = CountTable::new();
        let mut i: usize = 0;
        while i < pairs.len()
            invariant
                i <= pairs@.len(),
                t.wf(),
                t.total_count() == sum_counts(pairs_view(pairs@.subrange(0, i as int))),
                forall|k: Seq<char>| #[trigger] t.count(k) == count_in(pairs_view(pairs@.subrange(0, i as int)), k),
            decreases pairs@.len() - i,
        {
            let ghost pv = pairs_view(pairs@);
            proof {
                let next = pairs@.subrange(0, i as int + 1);
                assert(pairs_view(next).drop_last() == pairs_view(pairs@.subrange(0, i as int)));
                assert(pairs_view(next).last() == pv[i as int]);
                assert(pairs_view(next) == pv.subrange(0, i as int + 1));
            }
            let n = pairs[i].1;
            if t.total() > u64::MAX - n {
                proof {
                    lemma_prefix_sum_le(pv, i as int + 1);
                }
                return None;
            }
            t.add(&pairs[i].0, n);
            i = i + 1;
        }
        assert(pairs@.subrange(0, pairs@.len() as int) == pairs@);
        Some(t)
    }
}

proof fn lemma_prefix_sum_le(e: Seq<(Seq<char>, u64)>, n: int)
    requires
        0 <= n <= e.len(),
    ensures
        sum_counts(e.subrange(0, n)) <= sum_counts(e),
    decreases e.len(),
{
    if n < e.len() {
        assert(e.drop_last().subrange(0, n) == e.subrange(0, n));
        lemma_prefix_sum_le(e.drop_last(), n);
    } else {
        assert(e.subrange(0, n) == e);
    }
}

proof fn lemma_entry_le_sum(e: Seq<(Seq<char>, u64)>, i: int)
    requires
        0 <= i < e.len(),
    ensures
        e[i].1 as nat <= sum_counts(e),
    decreases e.len(),
{
    if i < e.len() - 1 {
        lemma_entry_le_sum(e.drop_last(), i);
    }
}

proof fn lemma_count_absent(e: Seq<(Seq<char>, u64)>, k: Seq<char>)
    requires
        forall|j: int| 0 <= j < e.len() ==> e[j].0 != k,
    ensures
        count_in(e, k) == 0,
    decreases e.len(),
{
    if e.len() > 0 {
        lemma_count_absent(e.drop_last(), k);
    }
}

proof fn lemma_update_counts(e: Seq<(Seq<char>, u64)>, i: int, n: u64, c: u64)
    requires
        0 <= i < e.len(),
        c == e[i].1 + n,
    ensures
        sum_counts(e.update(i, (e[i].0, c))) == sum_counts(e) + n,
        count_in(e.update(i, (e[i].0, c)), e[i].0) == count_in(e, e[i].0) + n,
        forall|k: Seq<char>|
            k != e[i].0 ==> count_in(e.update(i, (e[i].0, c)), k) == count_in(e, k),
    decreases e.len(),
{
    let u = e.update(i, (e[i].0, c));
    if i < e.len() - 1 {
        assert(u.drop_last() == e.drop_last().update(i, (e[i].0, c)));
        assert(u.last() == e.last());
        lemma_update_counts(e.drop_last(), i, n, c);
        assert forall|k: Seq<char>| k != e[i].0 implies count_in(u, k) == count_in(e, k) by {
            assert(count_in(u.drop_last(), k) == count_in(e.drop_last(), k));
        }
    } else {
        assert(u.drop_last() == e.drop_last());
        assert(u.last() == (e[i].0, c));
    }
}

} // verus!
