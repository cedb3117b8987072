//! Tokenization: a simple whitespace-plus-alphanumeric filter.
//!
//! A text splits at whitespace; within each run every character that is
//! not alphanumeric is dropped; a run left empty yields no token.  Token
//! order follows the text.

use vstd::prelude::*;
use vstd::std_specs::iter::IteratorSpec;

use crate::resolver::push_char;

verus! {

broadcast use vstd::string::axiom_spec_iter, vstd::string::next_postcondition;

/// Whether a character counts as whitespace.
pub uninterp spec fn is_ws_char(c: char) -> bool;

/// Whether a character counts as alphanumeric.
pub uninterp spec fn is_alnum_char(c: char) -> bool;

/// Relies on char::is_whitespace: a fixed classification, a function of
/// the character alone.
pub assume_specification[ char::is_whitespace ](c: char) -> (r: bool)
    ensures
        r == is_ws_char(c),
;

/// Relies on char::is_alphanumeric: a fixed classification, a function
/// of the character alone.
pub assume_specification[ char::is_alphanumeric ](c: char) -> (r: bool)
    ensures
        r == is_alnum_char(c),
;

/// One tokenizer step: the tokens already finished and the run being
/// built, advanced by one character.
pub open spec fn tok_step(acc: (Seq<Seq<char>>, Seq<char>), c: char) -> (Seq<Seq<char>>, Seq<
    char,
>) {
    if is_ws_char(c) {
        (
            if acc.1.len() > 0 {
                acc.0.push(acc.1)
            } else {
                acc.0
            },
            Seq::empty(),
        )
    } else if is_alnum_char(c) {
        (acc.0, acc.1.push(c))
    } else {
        acc
    }
}

/// The tokenizer folded over a text, before the final run is flushed.
pub open spec fn tok_fold(s: Seq<char>) -> (Seq<Seq<char>>, Seq<char>)
    decreases s.len(),
{
    if s.len() == 0 {
        (Seq::empty(), Seq::empty())
    } else {
        tok_step(tok_fold(s.drop_last()), s.last())
    }
}

/// The tokens of a text.
pub open spec fn tokens_of(s: Seq<char>) -> Seq<Seq<char>> {
    let (toks, cur) = tok_fold(s);
    if cur.len() > 0 {
        toks.push(cur)
    } else {
        toks
    }
}

/// A text yields at most one token per character.
pub proof fn lemma_token_count(s: Seq<char>)
    ensures
        tokens_of(s).len() <= s.len(),
{
    lemma_tok_fold_bound(s);
}

proof fn lemma_tok_fold_bound(s: Seq<char>)
    ensures
        tok_fold(s).0.len() + tok_fold(s).1.len() <= s.len(),
    decreases s.len(),
{
    if s.len() > 0 {
        lemma_tok_fold_bound(s.drop_last());
    }
}

/// The characters of a text, in order.
pub fn chars_vec(s: &str) -> (r: Vec<char>)
    ensures
        r@ == s@,
{
    let mut it = s.chars();
    let mut out: Vec<char> = Vec::new();
    loop
        invariant
            out@ + it.remaining() == s@,
            it.decrease() is Some,
        decreases it.decrease()->0,
    {
        match it.next() {
            Some(c) => {
                out.push(c);
                proof {
                    assert(out@ + it.remaining() =~= s@);
                }
            },
            None => {
                proof {
                    assert(out@ =~= s@);
                }
                return out;
            },
        }
    }
}

/// The number of characters in a text.
pub fn char_count(s: &str) -> (n: usize)
    ensures
        n == s@.len(),
{
    let cs = chars_vec(s);
    cs.len()
}

/// Splits a text into its tokens: runs separated by whitespace, each
/// stripped of everything not alphanumeric, empty residues dropped.
pub fn tokenize(text: &str) -> (r: Vec<String>)
    ensures
        r.deep_view() == tokens_of(text@),
{
    let cs = chars_vec(text);
    let n = cs.len();
    let mut toks: Vec<String> = Vec::new();
    let mut cur = String::new();
    let mut i: usize = 0;
    while i < n
        invariant
            n == cs.len(),
            cs@ == text@,
            0 <= i <= n,
            (toks.deep_view(), cur@) == tok_fold(text@.take(i as int)),
        decreases n - i,
    {
        let c = cs[i];
        proof {
            assert(text@.take(i + 1).drop_last() =~= text@.take(i as int));
            assert(text@.take(i + 1).last() == text@[i as int]);
        }
        if c.is_whitespace() {
            if !cur.as_str().is_empty() {
                let ghost toks0 = toks.deep_view();
                let ghost cur0 = cur@;
                toks.push(cur);
                cur = String::new();
                proof {
                    assert(toks.deep_view() =~= toks0.push(cur0));
                }
            }
        } else if c.is_alphanumeric() {
            push_char(&mut cur, c);
        }
        i += 1;
    }
    proof {
        assert(text@.take(n as int) =~= text@);
    }
    if !cur.as_str().is_empty() {
        let ghost toks0 = toks.deep_view();
        let ghost cur0 = cur@;
        toks.push(cur);
        proof {
            assert(toks.deep_view() =~= toks0.push(cur0));
        }
    }
    toks
}

} // verus!
