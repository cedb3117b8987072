//! Laws of the store and of ingestion, stated over the views that the
//! operations' contracts use.

use vstd::prelude::*;

use crate::index::IndexV;
use crate::index::TermMetaV;
use crate::index::doc_counts;
use crate::index::ingest_post;
use crate::index::upd_term;
use crate::index::upd_terms;
use crate::resolver::key_hash;
use crate::token::tokens_of;

verus! {

/// Round-trip: after a value is stored for a key, looking the key up
/// yields exactly that value — `insert(k, v)` then `get(k)` returns
/// `v`, structurally equal.
pub proof fn lemma_store_round_trip<V>(files: Map<u64, V>, k: u128, v: V)
    ensures
        files.insert(key_hash(k), v).contains_key(key_hash(k)),
        files.insert(key_hash(k), v)[key_hash(k)] == v,
{
}

/// Absence: a store with nothing inserted holds no key — `contains`
/// is false and `get` is absent (not an error) for every key.
pub proof fn lemma_empty_store_absent<V>(k: u128)
    ensures
        !Map::<u64, V>::empty().contains_key(key_hash(k)),
{
}

/// Idempotent re-insert: storing a key twice leaves exactly the state
/// of storing the most recent value once — no trace of the earlier
/// value remains.
pub proof fn lemma_reinsert<V>(files: Map<u64, V>, k: u128, v1: V, v2: V)
    ensures
        files.insert(key_hash(k), v1).insert(key_hash(k), v2) == files.insert(key_hash(k), v2),
{
    assert(files.insert(key_hash(k), v1).insert(key_hash(k), v2) =~= files.insert(
        key_hash(k),
        v2,
    ));
}

/// Vocabulary stability: when two ingested documents share a token,
/// both resolve it to the same term identifier, which the vocabulary
/// still maps it to afterwards.
pub proof fn lemma_vocabulary_stability(
    s0: IndexV,
    s1: IndexV,
    s2: IndexV,
    d1: u128,
    d2: u128,
    t1: Seq<char>,
    t2: Seq<char>,
    ids1: Seq<u128>,
    ids2: Seq<u128>,
    i: int,
    j: int,
)
    requires
        ingest_post(s0, s1, d1, t1, ids1),
        ingest_post(s1, s2, d2, t2, ids2),
        0 <= i < tokens_of(t1).len(),
        0 <= j < tokens_of(t2).len(),
        tokens_of(t1)[i] == tokens_of(t2)[j],
    ensures
        ids1[i] == ids2[j],
        s2.vocabulary.contains_key(tokens_of(t1)[i]),
        s2.vocabulary[tokens_of(t1)[i]] == ids1[i],
{
    let w = tokens_of(t1)[i];
    assert(s1.vocabulary.contains_key(w) && s1.vocabulary[w] == ids1[i]);
    assert(s2.vocabulary.contains_key(w) && s2.vocabulary[w] == s1.vocabulary[w]);
    assert(s2.vocabulary[w] == ids2[j]);
}

/// A document's stored term keys are exactly the identifiers its
/// tokens resolved to.
pub proof fn lemma_doc_counts_keys(ids: Seq<u128>, t: u128)
    ensures
        doc_counts(ids).contains_key(t) == ids.contains(t),
    decreases ids.len(),
{
    if ids.len() > 0 {
        lemma_doc_counts_keys(ids.drop_last(), t);
        if ids.last() == t {
            assert(ids[ids.len() - 1] == t);
            assert(ids.contains(t));
        } else if doc_counts(ids).contains_key(t) {
            assert(ids.drop_last().contains(t));
            let a = choose|a: int| 0 <= a < ids.drop_last().len() && ids.drop_last()[a] == t;
            assert(ids[a] == t);
            assert(ids.contains(t));
        } else if ids.contains(t) {
            let a = choose|a: int| 0 <= a < ids.len() && ids[a] == t;
            assert(a < ids.len() - 1);
            assert(ids.drop_last()[a] == t);
            assert(ids.drop_last().contains(t));
        }
    }
}

proof fn lemma_upd_terms_frame(
    ts: Map<u64, TermMetaV>,
    d: u128,
    ids: Seq<u128>,
    toks: Seq<Seq<char>>,
    h: u64,
)
    requires
        ids.len() == toks.len(),
        forall|a: int| 0 <= a < ids.len() ==> key_hash(#[trigger] ids[a]) != h,
    ensures
        upd_terms(ts, d, ids, toks).contains_key(h) == ts.contains_key(h),
        ts.contains_key(h) ==> upd_terms(ts, d, ids, toks)[h] == ts[h],
    decreases ids.len(),
{
    if ids.len() > 0 {
        lemma_upd_terms_frame(ts, d, ids.drop_last(), toks.drop_last(), h);
        assert(key_hash(ids[ids.len() - 1]) != h);
    }
}

proof fn lemma_upd_terms_counts(
    ts: Map<u64, TermMetaV>,
    d: u128,
    ids: Seq<u128>,
    toks: Seq<Seq<char>>,
    t: u128,
)
    requires
        ids.len() == toks.len(),
        forall|h: u64|
            #[trigger] ts.contains_key(h) ==> !ts[h].documents.contains_key(d),
        forall|a: int, b: int|
            #![trigger ids[a], ids[b]]
            0 <= a < ids.len() && 0 <= b < ids.len() && ids[a] != ids[b] ==> key_hash(ids[a])
                != key_hash(ids[b]),
        doc_counts(ids).contains_key(t),
    ensures
        upd_terms(ts, d, ids, toks).contains_key(key_hash(t)),
        upd_terms(ts, d, ids, toks)[key_hash(t)].documents.contains_key(d),
        upd_terms(ts, d, ids, toks)[key_hash(t)].documents[d] == doc_counts(ids)[t],
    decreases ids.len(),
{
    lemma_doc_counts_keys(ids, t);
    let a = ids.last();
    let ids0 = ids.drop_last();
    let toks0 = toks.drop_last();
    let u0 = upd_terms(ts, d, ids0, toks0);
    let h = key_hash(t);
    lemma_doc_counts_keys(ids0, t);
    if a == t {
        if ids0.contains(t) {
            lemma_upd_terms_counts(ts, d, ids0, toks0, t);
            assert(u0[h].documents[d] == doc_counts(ids0)[t]);
            assert(upd_terms(ts, d, ids, toks) == upd_term(u0, d, a, toks.last()));
        } else {
            // First occurrence of `t`: its bucket is so far untouched.
            assert forall|c: int| 0 <= c < ids0.len() implies key_hash(#[trigger] ids0[c])
                != h by {
                if ids0[c] == t {
                    assert(ids0.contains(t));
                } else {
                    assert(ids[c] == ids0[c]);
                    assert(ids[ids.len() - 1] == t);
                }
            }
            lemma_upd_terms_frame(ts, d, ids0, toks0, h);
            if ts.contains_key(h) {
                assert(u0[h] == ts[h]);
                assert(!ts[h].documents.contains_key(d));
            }
        }
    } else {
        // The last occurrence touches a different bucket than `t`'s.
        assert(ids.contains(t));
        let c = choose|c: int| 0 <= c < ids.len() && ids[c] == t;
        assert(c < ids.len() - 1);
        assert(ids[ids.len() - 1] == a);
        assert(key_hash(t) != key_hash(a));
        assert(ids0[c] == t);
        assert(ids0.contains(t));
        assert forall|p: int, q: int|
            #![trigger ids0[p], ids0[q]]
            0 <= p < ids0.len() && 0 <= q < ids0.len() && ids0[p] != ids0[q] implies key_hash(
            ids0[p],
        ) != key_hash(ids0[q]) by {
            assert(ids[p] == ids0[p]);
            assert(ids[q] == ids0[q]);
        }
        lemma_upd_terms_counts(ts, d, ids0, toks0, t);
        assert(upd_terms(ts, d, ids, toks) == upd_term(u0, d, a, toks.last()));
    }
}

/// Frequency conservation: a successful ingestion stores document
/// statistics whose counts sum to the token count; and — provided the
/// document identifier is fresh and no two distinct terms of the
/// document share a key hash — every term of the document afterwards
/// records for this document exactly the document's count for that
/// term.
pub proof fn lemma_frequency_conservation(
    pre: IndexV,
    post: IndexV,
    d: u128,
    text: Seq<char>,
    ids: Seq<u128>,
    t: u128,
)
    requires
        ingest_post(pre, post, d, text, ids),
        forall|h: u64|
            #[trigger] pre.terms.contains_key(h) ==> !pre.terms[h].documents.contains_key(d),
        forall|a: int, b: int|
            #![trigger ids[a], ids[b]]
            0 <= a < ids.len() && 0 <= b < ids.len() && ids[a] != ids[b] ==> key_hash(ids[a])
                != key_hash(ids[b]),
        doc_counts(ids).contains_key(t),
    ensures
        post.documents.contains_key(key_hash(d)),
        post.documents[key_hash(d)].terms == doc_counts(ids),
        post.documents[key_hash(d)].terms_total == post.documents[key_hash(d)].num_terms,
        post.terms.contains_key(key_hash(t)),
        post.terms[key_hash(t)].documents.contains_key(d),
        post.terms[key_hash(t)].documents[d] == doc_counts(ids)[t],
{
    lemma_upd_terms_counts(pre.terms, d, ids, tokens_of(text), t);
}

} // verus!
