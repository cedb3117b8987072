//! Hashed path resolution: the deterministic file name assigned to a key.
//!
//! A record store keeps one file per key inside its base directory, named
//! by the lowercase hexadecimal form of a 64-bit hash of the key.  The
//! hash is stable for equal keys, so the same key always resolves to the
//! same file; two distinct keys whose hashes collide silently alias to
//! the same file — the store makes no provision for detecting that.

use vstd::prelude::*;

verus! {

/// The 64-bit hash assigned to a 128-bit key.  The store's on-disk
/// layout is derived from this value alone.
pub uninterp spec fn key_hash(k: u128) -> u64;

/// Relies on fxhash::hash64: a seed-free non-cryptographic hash, so the
/// result is a function of the key alone.
#[verifier::external_body]
pub fn hash_key(k: u128) -> (r: u64)
    ensures
        r == key_hash(k),
{
    fxhash::hash64(&k)
}

/// The lowercase hexadecimal digit with value `d` (only the low four
/// bits matter).
pub open spec fn hex_digit(d: u64) -> char {
    if d == 0 {
        '0'
    } else if d == 1 {
        '1'
    } else if d == 2 {
        '2'
    } else if d == 3 {
        '3'
    } else if d == 4 {
        '4'
    } else if d == 5 {
        '5'
    } else if d == 6 {
        '6'
    } else if d == 7 {
        '7'
    } else if d == 8 {
        '8'
    } else if d == 9 {
        '9'
    } else if d == 10 {
        'a'
    } else if d == 11 {
        'b'
    } else if d == 12 {
        'c'
    } else if d == 13 {
        'd'
    } else if d == 14 {
        'e'
    } else {
        'f'
    }
}

/// The lowercase hexadecimal form of `x`, most significant digit first,
/// without leading zeros (`0` is written as one digit).
pub open spec fn hex_of(x: u64) -> Seq<char>
    decreases x,
{
    if x < 16 {
        seq![hex_digit(x)]
    } else {
        hex_of(x / 16).push(hex_digit(x % 16))
    }
}

/// Relies on String::push: appends the given character to the string.
#[verifier::external_body]
pub(crate) fn push_char(s: &mut String, c: char)
    ensures
        final(s)@ == old(s)@.push(c),
{
    s.push(c);
}

fn hex_digit_char(d: u64) -> (c: char)
    requires
        d < 16,
    ensures
        c == hex_digit(d),
{
    if d == 0 {
        '0'
    } else if d == 1 {
        '1'
    } else if d == 2 {
        '2'
    } else if d == 3 {
        '3'
    } else if d == 4 {
        '4'
    } else if d == 5 {
        '5'
    } else if d == 6 {
        '6'
    } else if d == 7 {
        '7'
    } else if d == 8 {
        '8'
    } else if d == 9 {
        '9'
    } else if d == 10 {
        'a'
    } else if d == 11 {
        'b'
    } else if d == 12 {
        'c'
    } else if d == 13 {
        'd'
    } else if d == 14 {
        'e'
    } else {
        'f'
    }
}

fn push_hex_digits(x: u64, out: &mut String)
    ensures
        final(out)@ == old(out)@ + hex_of(x),
    decreases x,
{
    if x < 16 {
        push_char(out, hex_digit_char(x));
        assert(out@ =~= old(out)@ + hex_of(x));
    } else {
        push_hex_digits(x / 16, out);
        push_char(out, hex_digit_char(x % 16));
        assert(out@ =~= old(out)@ + hex_of(x));
    }
}

/// The file name a store assigns to the key `k`: the lowercase
/// hexadecimal form of its hash.
pub fn file_name(k: u128) -> (r: String)
    ensures
        r@ == hex_of(key_hash(k)),
{
    let h = hash_key(k);
    let mut s = String::new();
    push_hex_digits(h, &mut s);
    proof {
        assert(s@ =~= hex_of(key_hash(k)));
    }
    s
}

/// The full path a store rooted at `base` assigns to the key `k`:
/// `base/<lowercase hex of the key's hash>`.
pub fn resolve(base: &str, k: u128) -> (r: String)
    ensures
        r@ == base@ + seq!['/'] + hex_of(key_hash(k)),
{
    let mut s = base.to_owned();
    push_char(&mut s, '/');
    let h = hash_key(k);
    push_hex_digits(h, &mut s);
    proof {
        assert(s@ =~= base@ + seq!['/'] + hex_of(key_hash(k)));
    }
    s
}

} // verus!
