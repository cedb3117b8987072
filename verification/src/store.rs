//! The record store: a persistent map with one record per key.
//!
//! A store is bound to a base directory; each key's record sits in the
//! file that `resolver::file_name` assigns to the key, and holds the
//! value serialized by an opaque codec.  This module verifies the map
//! itself, keyed by the key's 64-bit hash exactly as the files are, so
//! two distinct keys whose hashes collide alias to one record here just
//! as they do on disk.  Reading and writing the actual files, and the
//! codec, are unverified collaborators layered around this type; they
//! report their failures with [`Error`].

use vstd::prelude::*;

use crate::resolver::key_hash;

verus! {

/// The failure taxonomy of a disk-backed store: a filesystem access
/// failure other than not-found (absence is a valid result, not an
/// error), or an encode/decode failure of the record codec.  Both are
/// terminal for the single operation; nothing is retried.
#[derive(Debug, Clone, Copy, PartialEq, Eq, Structural)]
pub enum Error {
    Io,
    Serialization,
}

/// The map denoted by a record list (with unique hashes the record
/// order is immaterial).
pub open spec fn records_of<T: View>(s: Seq<(u64, T)>) -> Map<u64, T::V>
    decreases s.len(),
{
    if s.len() == 0 {
        Map::empty()
    } else {
        records_of(s.drop_last()).insert(s.last().0, s.last().1@)
    }
}

/// Every hash occurs at most once.
pub open spec fn unique_hashes<T>(s: Seq<(u64, T)>) -> bool {
    forall|i: int, j: int|
        0 <= i < j < s.len() ==> (#[trigger] s[i]).0 != (#[trigger] s[j]).0
}

proof fn lemma_absent_hash<T: View>(s: Seq<(u64, T)>, h: u64)
    requires
        forall|i: int| 0 <= i < s.len() ==> (#[trigger] s[i]).0 != h,
    ensures
        !records_of(s).contains_key(h),
    decreases s.len(),
{
    if s.len() > 0 {
        lemma_absent_hash(s.drop_last(), h);
    }
}

proof fn lemma_found_hash<T: View>(s: Seq<(u64, T)>, h: u64, i: int)
    requires
        unique_hashes(s),
        0 <= i < s.len(),
        s[i].0 == h,
    ensures
        records_of(s).contains_key(h),
        records_of(s)[h] == s[i].1@,
    decreases s.len(),
{
    if i < s.len() - 1 {
        assert(s[i].0 != s[s.len() - 1].0);
        lemma_found_hash(s.drop_last(), h, i);
    }
}

proof fn lemma_update_hash<T: View>(s: Seq<(u64, T)>, h: u64, i: int, v: T)
    requires
        unique_hashes(s),
        0 <= i < s.len(),
        s[i].0 == h,
    ensures
        unique_hashes(s.update(i, (h, v))),
        records_of(s.update(i, (h, v))) == records_of(s).insert(h, v@),
    decreases s.len(),
{
    let t = s.update(i, (h, v));
    if i == s.len() - 1 {
        assert(t.drop_last() =~= s.drop_last());
        assert(records_of(t) =~= records_of(s).insert(h, v@));
    } else {
        assert(s[i].0 != s[s.len() - 1].0);
        assert(t.drop_last() =~= s.drop_last().update(i, (h, v)));
        lemma_update_hash(s.drop_last(), h, i, v);
        assert(records_of(t) =~= records_of(s).insert(h, v@));
    }
}

proof fn lemma_push_hash<T: View>(s: Seq<(u64, T)>, h: u64, v: T)
    requires
        unique_hashes(s),
        forall|i: int| 0 <= i < s.len() ==> (#[trigger] s[i]).0 != h,
    ensures
        unique_hashes(s.push((h, v))),
        records_of(s.push((h, v))) == records_of(s).insert(h, v@),
{
    let t = s.push((h, v));
    assert(t.drop_last() =~= s);
    assert(records_of(t) =~= records_of(s).insert(h, v@));
}

proof fn lemma_remove_hash<T: View>(s: Seq<(u64, T)>, h: u64, i: int)
    requires
        unique_hashes(s),
        0 <= i < s.len(),
        s[i].0 == h,
    ensures
        unique_hashes(s.remove(i)),
        records_of(s.remove(i)) == records_of(s).remove(h),
    decreases s.len(),
{
    let t = s.remove(i);
    if i == s.len() - 1 {
        assert(t =~= s.drop_last());
        lemma_absent_hash(s.drop_last(), h);
        assert(records_of(t) =~= records_of(s).remove(h));
    } else {
        assert(s[i].0 != s[s.len() - 1].0);
        assert(t.drop_last() =~= s.drop_last().remove(i));
        lemma_remove_hash(s.drop_last(), h, i);
        assert(records_of(t) =~= records_of(s).remove(h));
    }
}

/// A value a record store can hold: a viewable value with an internal
/// invariant that the store preserves.
pub trait Record: View {
    /// The value's internal invariant; a store holds only values that
    /// satisfy it.
    spec fn inv(self) -> bool;
}

/// A plain byte carries no invariant; a store can hold primitive
/// values.
impl Record for u8 {
    open spec fn inv(self) -> bool {
        true
    }
}

/// A record store: the map from key hash to stored value.
pub struct Filemap<T> {
    records: Vec<(u64, T)>,
}

impl<T: View> View for Filemap<T> {
    type V = Map<u64, T::V>;

    closed spec fn view(&self) -> Map<u64, T::V> {
        records_of(self.records@)
    }
}

impl<T: Record> Filemap<T> {
    /// Well-formed: one record per hash, every record's value
    /// satisfying its invariant.
    pub closed spec fn wf(self) -> bool {
        &&& unique_hashes(self.records@)
        &&& forall|i: int|
            0 <= i < self.records@.len() ==> (#[trigger] self.records@[i]).1.inv()
    }

    /// A store with no records.  The collaborator that binds it to a
    /// base directory creates the directory; an existing directory is
    /// not an error.
    pub fn new() -> (r: Filemap<T>)
        ensures
            r.wf(),
            r@ == Map::<u64, T::V>::empty(),
    {
        Filemap { records: Vec::new() }
    }

    /// True iff a record exists for `key`'s hash.
    pub fn contains(&self, key: u128) -> (r: bool)
        requires
            self.wf(),
        ensures
            r == self@.contains_key(key_hash(key)),
    {
        let h = crate::resolver::hash_key(key);
        let n = self.records.len();
        let mut i: usize = 0;
        while i < n
            invariant
                n == self.records.len(),
                0 <= i <= n,
                self.wf(),
                h == key_hash(key),
                forall|j: int| 0 <= j < i ==> (#[trigger] self.records@[j]).0 != h,
            decreases n - i,
        {
            if self.records[i].0 == h {
                proof {
                    lemma_found_hash(self.records@, h, i as int);
                }
                return true;
            }
            i += 1;
        }
        proof {
            lemma_absent_hash(self.records@, h);
        }
        false
    }

    /// The value stored for `key`, or nothing if its hash has no
    /// record.  Absence is a result, not an error.
    pub fn get(&self, key: u128) -> (r: Option<&T>)
        requires
            self.wf(),
        ensures
            match r {
                Some(v) => self@.contains_key(key_hash(key)) && v@ == self@[key_hash(key)]
                    && v.inv(),
                None => !self@.contains_key(key_hash(key)),
            },
    {
        let h = crate::resolver::hash_key(key);
        let n = self.records.len();
        let mut i: usize = 0;
        while i < n
            invariant
                n == self.records.len(),
                0 <= i <= n,
                self.wf(),
                h == key_hash(key),
                forall|j: int| 0 <= j < i ==> (#[trigger] self.records@[j]).0 != h,
            decreases n - i,
        {
            if self.records[i].0 == h {
                proof {
                    lemma_found_hash(self.records@, h, i as int);
                }
                return Some(&self.records[i].1);
            }
            i += 1;
        }
        proof {
            lemma_absent_hash(self.records@, h);
        }
        None
    }

    /// Stores `value` for `key`, overwriting whatever record `key`'s
    /// hash already had.
    pub fn insert(&mut self, key: u128, value: T)
        requires
            old(self).wf(),
            value.inv(),
        ensures
            final(self).wf(),
            final(self)@ == old(self)@.insert(key_hash(key), value@),
    {
        let h = crate::resolver::hash_key(key);
        let n = self.records.len();
        let mut i: usize = 0;
        while i < n
            invariant
                n == self.records.len(),
                0 <= i <= n,
                self == old(self),
                self.records@ == old(self).records@,
                self.wf(),
                value.inv(),
                h == key_hash(key),
                forall|j: int| 0 <= j < i ==> (#[trigger] self.records@[j]).0 != h,
            decreases n - i,
        {
            if self.records[i].0 == h {
                proof {
                    lemma_update_hash(self.records@, h, i as int, value);
                }
                let ghost s0 = self.records@;
                self.records.remove(i);
                self.records.insert(i, (h, value));
                proof {
                    assert(self.records@ =~= s0.update(i as int, (h, value)));
                    assert forall|j: int|
                        0 <= j < self.records@.len() implies (#[trigger] self.records@[j]).1.inv() by {
                        if j != i {
                            assert(self.records@[j] == s0[j]);
                        }
                    }
                }
                return ;
            }
            i += 1;
        }
        proof {
            lemma_absent_hash(self.records@, h);
            lemma_push_hash(self.records@, h, value);
        }
        let ghost s0 = self.records@;
        self.records.push((h, value));
        proof {
            assert forall|j: int|
                0 <= j < self.records@.len() implies (#[trigger] self.records@[j]).1.inv() by {
                if j < s0.len() {
                    assert(self.records@[j] == s0[j]);
                }
            }
        }
    }

    /// Takes the record for `key`'s hash out of the store, if there is
    /// one.
    pub fn remove(&mut self, key: u128) -> (r: Option<T>)
        requires
            old(self).wf(),
        ensures
            final(self).wf(),
            final(self)@ == old(self)@.remove(key_hash(key)),
            match r {
                Some(v) => old(self)@.contains_key(key_hash(key)) && v@ == old(self)@[key_hash(
                    key,
                )] && v.inv(),
                None => !old(self)@.contains_key(key_hash(key)),
            },
    {
        let h = crate::resolver::hash_key(key);
        let n = self.records.len();
        let mut i: usize = 0;
        while i < n
            invariant
                n == self.records.len(),
                0 <= i <= n,
                self == old(self),
                self.records@ == old(self).records@,
                self.wf(),
                h == key_hash(key),
                forall|j: int| 0 <= j < i ==> (#[trigger] self.records@[j]).0 != h,
            decreases n - i,
        {
            if self.records[i].0 == h {
                proof {
                    lemma_found_hash(self.records@, h, i as int);
                    lemma_remove_hash(self.records@, h, i as int);
                }
                let ghost s0 = self.records@;
                let e = self.records.remove(i);
                proof {
                    assert forall|j: int|
                        0 <= j < self.records@.len() implies (#[trigger] self.records@[j]).1.inv() by {
                        if j < i {
                            assert(self.records@[j] == s0[j]);
                        } else {
                            assert(self.records@[j] == s0[j + 1]);
                        }
                    }
                }
                return Some(e.1);
            }
            i += 1;
        }
        proof {
            lemma_absent_hash(self.records@, h);
            assert(self@ =~= self@.remove(h));
        }
        None
    }
}

} // verus!
