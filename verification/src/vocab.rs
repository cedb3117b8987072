//! The vocabulary: the in-memory map from token surface form to term
//! identifier.  An entry is created once per distinct surface form and
//! never removed, so a token keeps the identifier it was first given.

use vstd::prelude::*;

verus! {

/// The map denoted by a vocabulary list (with unique tokens the entry
/// order is immaterial).
pub open spec fn vocab_of(s: Seq<(String, u128)>) -> Map<Seq<char>, u128>
    decreases s.len(),
{
    if s.len() == 0 {
        Map::empty()
    } else {
        vocab_of(s.drop_last()).insert(s.last().0@, s.last().1)
    }
}

/// Every token occurs at most once.
pub open spec fn unique_tokens(s: Seq<(String, u128)>) -> bool {
    forall|i: int, j: int|
        0 <= i < j < s.len() ==> (#[trigger] s[i]).0@ != (#[trigger] s[j]).0@
}

proof fn lemma_absent_token(s: Seq<(String, u128)>, w: Seq<char>)
    requires
        forall|i: int| 0 <= i < s.len() ==> (#[trigger] s[i]).0@ != w,
    ensures
        !vocab_of(s).contains_key(w),
    decreases s.len(),
{
    if s.len() > 0 {
        lemma_absent_token(s.drop_last(), w);
    }
}

proof fn lemma_found_token(s: Seq<(String, u128)>, w: Seq<char>, i: int)
    requires
        unique_tokens(s),
        0 <= i < s.len(),
        s[i].0@ == w,
    ensures
        vocab_of(s).contains_key(w),
        vocab_of(s)[w] == s[i].1,
    decreases s.len(),
{
    if i < s.len() - 1 {
        assert(s[i].0@ != s[s.len() - 1].0@);
        lemma_found_token(s.drop_last(), w, i);
    }
}

/// The vocabulary map.
pub struct WordMap {
    entries: Vec<(String, u128)>,
}

impl View for WordMap {
    type V = Map<Seq<char>, u128>;

    closed spec fn view(&self) -> Map<Seq<char>, u128> {
        vocab_of(self.entries@)
    }
}

impl WordMap {
    /// Well-formed: one entry per surface form.
    pub closed spec fn wf(self) -> bool {
        unique_tokens(self.entries@)
    }

    /// An empty vocabulary.
    pub fn new() -> (r: WordMap)
        ensures
            r.wf(),
            r@ == Map::<Seq<char>, u128>::empty(),
    {
        WordMap { entries: Vec::new() }
    }

    /// The identifier assigned to a surface form, if one was.
    pub fn lookup(&self, w: &String) -> (r: Option<u128>)
        requires
            self.wf(),
        ensures
            match r {
                Some(id) => self@.contains_key(w@) && self@[w@] == id,
                None => !self@.contains_key(w@),
            },
    {
        let n = self.entries.len();
        let mut i: usize = 0;
        while i < n
            invariant
                n == self.entries.len(),
                0 <= i <= n,
                self.wf(),
                forall|j: int| 0 <= j < i ==> (#[trigger] self.entries@[j]).0@ != w@,
            decreases n - i,
        {
            if self.entries[i].0 == *w {
                proof {
                    lemma_found_token(self.entries@, w@, i as int);
                }
                return Some(self.entries[i].1);
            }
            i += 1;
        }
        proof {
            lemma_absent_token(self.entries@, w@);
        }
        None
    }

    /// Records the identifier assigned to a surface form not seen
    /// before.
    pub fn insert(&mut self, w: String, id: u128)
        requires
            old(self).wf(),
            !old(self)@.contains_key(w@),
        ensures
            final(self).wf(),
            final(self)@ == old(self)@.insert(w@, id),
    {
        proof {
            assert forall|i: int|
                0 <= i < self.entries@.len() implies (#[trigger] self.entries@[i]).0@ != w@ by {
                if self.entries@[i].0@ == w@ {
                    lemma_found_token(self.entries@, w@, i);
                }
            }
        }
        let ghost s0 = self.entries@;
        self.entries.push((w, id));
        proof {
            assert(self.entries@.drop_last() =~= s0);
        }
    }
}

} // verus!
