//! Occurrence-count tables: finite maps from 128-bit identifier to
//! count, with a verified total.
//!
//! A `CountMap` backs both the per-document term-frequency table and the
//! per-term document-frequency table.  It is an association list with
//! unique keys; its view is the map it denotes, and `total()` is the sum
//! of all counts.

use vstd::prelude::*;

verus! {

/// The map denoted by an association list (with unique keys the entry
/// order is immaterial).  Counts widen to `nat`.
pub open spec fn map_of(s: Seq<(u128, u64)>) -> Map<u128, nat>
    decreases s.len(),
{
    if s.len() == 0 {
        Map::empty()
    } else {
        map_of(s.drop_last()).insert(s.last().0, s.last().1 as nat)
    }
}

/// The sum of all counts in an association list.
pub open spec fn sum_of(s: Seq<(u128, u64)>) -> nat
    decreases s.len(),
{
    if s.len() == 0 {
        0
    } else {
        sum_of(s.drop_last()) + s.last().1 as nat
    }
}

/// Every key occurs at most once.
pub open spec fn unique_keys(s: Seq<(u128, u64)>) -> bool {
    forall|i: int, j: int|
        0 <= i < j < s.len() ==> (#[trigger] s[i]).0 != (#[trigger] s[j]).0
}

proof fn lemma_absent_key(s: Seq<(u128, u64)>, k: u128)
    requires
        forall|i: int| 0 <= i < s.len() ==> (#[trigger] s[i]).0 != k,
    ensures
        !map_of(s).contains_key(k),
    decreases s.len(),
{
    if s.len() > 0 {
        lemma_absent_key(s.drop_last(), k);
    }
}

proof fn lemma_found_key(s: Seq<(u128, u64)>, k: u128, i: int)
    requires
        unique_keys(s),
        0 <= i < s.len(),
        s[i].0 == k,
    ensures
        map_of(s).contains_key(k),
        map_of(s)[k] == s[i].1 as nat,
    decreases s.len(),
{
    if i < s.len() - 1 {
        lemma_found_key(s.drop_last(), k, i);
    }
}

proof fn lemma_count_le_sum(s: Seq<(u128, u64)>, i: int)
    requires
        0 <= i < s.len(),
    ensures
        s[i].1 <= sum_of(s),
    decreases s.len(),
{
    if i < s.len() - 1 {
        lemma_count_le_sum(s.drop_last(), i);
    }
}

proof fn lemma_update_key(s: Seq<(u128, u64)>, k: u128, i: int, c: u64)
    requires
        unique_keys(s),
        0 <= i < s.len(),
        s[i].0 == k,
    ensures
        unique_keys(s.update(i, (k, c))),
        map_of(s.update(i, (k, c))) == map_of(s).insert(k, c as nat),
        sum_of(s.update(i, (k, c))) + s[i].1 == sum_of(s) + c,
    decreases s.len(),
{
    let t = s.update(i, (k, c));
    if i == s.len() - 1 {
        assert(t.drop_last() =~= s.drop_last());
        assert(map_of(t) =~= map_of(s).insert(k, c as nat));
    } else {
        assert(t.drop_last() =~= s.drop_last().update(i, (k, c)));
        lemma_update_key(s.drop_last(), k, i, c);
        assert(s.last().0 != k);
        assert(map_of(t) =~= map_of(s).insert(k, c as nat));
    }
}

proof fn lemma_push_key(s: Seq<(u128, u64)>, k: u128, c: u64)
    requires
        unique_keys(s),
        forall|i: int| 0 <= i < s.len() ==> (#[trigger] s[i]).0 != k,
    ensures
        unique_keys(s.push((k, c))),
        map_of(s.push((k, c))) == map_of(s).insert(k, c as nat),
        sum_of(s.push((k, c))) == sum_of(s) + c,
{
    let t = s.push((k, c));
    assert(t.drop_last() =~= s);
    assert(map_of(t) =~= map_of(s).insert(k, c as nat));
}

proof fn lemma_sum_take_le(s: Seq<(u128, u64)>, i: int)
    requires
        0 <= i <= s.len(),
    ensures
        sum_of(s.take(i)) <= sum_of(s),
    decreases s.len(),
{
    if i < s.len() {
        assert(s.take(i) =~= s.drop_last().take(i));
        lemma_sum_take_le(s.drop_last(), i);
    } else {
        assert(s.take(i) =~= s);
    }
}

/// An occurrence-count table.
pub struct CountMap {
    entries: Vec<(u128, u64)>,
}

impl View for CountMap {
    type V = Map<u128, nat>;

    closed spec fn view(&self) -> Map<u128, nat> {
        map_of(self.entries@)
    }
}

impl CountMap {
    /// Well-formed: no identifier occurs twice.
    pub closed spec fn wf(self) -> bool {
        unique_keys(self.entries@)
    }

    /// The sum of all counts in the table.
    pub closed spec fn total(self) -> nat {
        sum_of(self.entries@)
    }

    /// An empty table.
    pub fn new() -> (r: CountMap)
        ensures
            r.wf(),
            r@ == Map::<u128, nat>::empty(),
            r.total() == 0,
    {
        CountMap { entries: Vec::new() }
    }

    /// The count recorded for `k`, if any.
    pub fn get(&self, k: u128) -> (r: Option<u64>)
        requires
            self.wf(),
        ensures
            match r {
                Some(c) => self@.contains_key(k) && self@[k] == c as nat,
                None => !self@.contains_key(k),
            },
    {
        let n = self.entries.len();
        let mut i: usize = 0;
        while i < n
            invariant
                n == self.entries.len(),
                0 <= i <= n,
                self.wf(),
                forall|j: int| 0 <= j < i ==> (#[trigger] self.entries@[j]).0 != k,
            decreases n - i,
        {
            if self.entries[i].0 == k {
                proof {
                    lemma_found_key(self.entries@, k, i as int);
                }
                return Some(self.entries[i].1);
            }
            i += 1;
        }
        proof {
            lemma_absent_key(self.entries@, k);
        }
        None
    }

    /// Adds one occurrence of `k`: inserts it with count 1, or raises
    /// its count by one.
    pub fn bump(&mut self, k: u128)
        requires
            old(self).wf(),
            old(self).total() < u64::MAX,
        ensures
            final(self).wf(),
            final(self)@ == old(self)@.insert(
                k,
                if old(self)@.contains_key(k) {
                    old(self)@[k] + 1
                } else {
                    1nat
                },
            ),
            final(self).total() == old(self).total() + 1,
    {
        let n = self.entries.len();
        let mut i: usize = 0;
        while i < n
            invariant
                n == self.entries.len(),
                0 <= i <= n,
                self == old(self),
                unique_keys(self.entries@),
                sum_of(self.entries@) < u64::MAX,
                forall|j: int| 0 <= j < i ==> (#[trigger] self.entries@[j]).0 != k,
            decreases n - i,
        {
            if self.entries[i].0 == k {
                let c = self.entries[i].1;
                proof {
                    lemma_found_key(self.entries@, k, i as int);
                    lemma_count_le_sum(self.entries@, i as int);
                    assert(c < u64::MAX);
                    lemma_update_key(self.entries@, k, i as int, (c + 1) as u64);
                }
                let ghost s0 = self.entries@;
                self.entries.remove(i);
                self.entries.insert(i, (k, c + 1));
                proof {
                    assert(self.entries@ =~= s0.update(i as int, (k, (c + 1) as u64)));
                }
                return ;
            }
            i += 1;
        }
        proof {
            lemma_absent_key(self.entries@, k);
            lemma_push_key(self.entries@, k, 1);
        }
        self.entries.push((k, 1));
    }

    /// Rebuilds a table from raw entries, rejecting a repeated key.
    pub fn from_entries(entries: Vec<(u128, u64)>) -> (r: Option<CountMap>)
        ensures
            match r {
                Some(m) => {
                    &&& m.wf()
                    &&& m@ == map_of(entries@)
                    &&& m.total() == sum_of(entries@)
                },
                None => !unique_keys(entries@),
            },
    {
        let n = entries.len();
        let mut i: usize = 0;
        while i < n
            invariant
                n == entries.len(),
                0 <= i <= n,
                forall|p: int, q: int|
                    0 <= p < i && p < q < n ==> (#[trigger] entries@[p]).0 != (
                    #[trigger] entries@[q]).0,
            decreases n - i,
        {
            let mut j: usize = i + 1;
            while j < n
                invariant
                    n == entries.len(),
                    0 <= i < j <= n,
                    forall|q: int| i < q < j ==> (#[trigger] entries@[q]).0 != entries@[i as int].0,
                decreases n - j,
            {
                if entries[j].0 == entries[i].0 {
                    return None;
                }
                j += 1;
            }
            i += 1;
        }
        Some(CountMap { entries })
    }

    /// The sum of all counts, when it fits a count's width.
    pub fn sum(&self) -> (r: Option<u64>)
        ensures
            match r {
                Some(s) => s as nat == self.total(),
                None => self.total() > u64::MAX,
            },
    {
        let n = self.entries.len();
        let mut acc: u64 = 0;
        let mut i: usize = 0;
        while i < n
            invariant
                n == self.entries.len(),
                0 <= i <= n,
                acc as nat == sum_of(self.entries@.take(i as int)),
            decreases n - i,
        {
            proof {
                assert(self.entries@.take(i + 1).drop_last() =~= self.entries@.take(i as int));
                assert(self.entries@.take(i + 1).last() == self.entries@[i as int]);
            }
            let c = self.entries[i].1;
            if acc > u64::MAX - c {
                proof {
                    lemma_sum_take_le(self.entries@, i + 1);
                }
                return None;
            }
            acc = acc + c;
            i += 1;
        }
        proof {
            assert(self.entries@.take(n as int) =~= self.entries@);
        }
        Some(acc)
    }

    /// The entries of the table, for a caller that walks it.
    pub fn to_entries(&self) -> (r: &Vec<(u128, u64)>)
        ensures
            map_of(r@) == self@,
            unique_keys(r@) == self.wf(),
            sum_of(r@) == self.total(),
    {
        &self.entries
    }
}

} // verus!
