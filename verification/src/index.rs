//! The inverted index: document ingestion with term and document
//! frequency bookkeeping.
//!
//! An index owns two record stores — one for per-term statistics, one
//! for per-document statistics — and a vocabulary mapping each token
//! surface form to a stable term identifier.  Ingesting a document
//! tokenizes it, resolves each token to its term identifier (minting a
//! fresh one for a form not seen before), persists the document's
//! term-frequency table, and folds the document back into every
//! referenced term's document-frequency table.

use vstd::prelude::*;

use crate::counts::CountMap;
use crate::resolver::key_hash;
use crate::store::Filemap;
use crate::store::Record;
use crate::token::char_count;
use crate::token::lemma_token_count;
use crate::token::tokenize;
use crate::token::tokens_of;
use crate::vocab::WordMap;

verus! {

/// Relies on uuid::Uuid::new_v4: a freshly drawn random 128-bit
/// identifier.  Nothing can be promised of the value drawn.
#[verifier::external_body]
fn fresh_id() -> u128 {
    uuid::Uuid::new_v4().as_u128()
}

/// An opaque identifier for a term.
#[derive(Debug, Clone, Copy, PartialEq, Eq, Hash, Structural)]
pub struct TermIx(u128);

impl View for TermIx {
    type V = u128;

    closed spec fn view(&self) -> u128 {
        self.0
    }
}

impl TermIx {
    fn new() -> TermIx {
        TermIx(fresh_id())
    }

    /// Wraps a raw identifier value.
    pub fn from_raw(v: u128) -> (r: TermIx)
        ensures
            r@ == v,
    {
        TermIx(v)
    }

    /// The raw identifier value.
    pub fn raw(&self) -> (r: u128)
        ensures
            r == self@,
    {
        self.0
    }
}

/// An opaque identifier for a document.
#[derive(Debug, Clone, Copy, PartialEq, Eq, Hash, Structural)]
pub struct DocIx(u128);

impl View for DocIx {
    type V = u128;

    closed spec fn view(&self) -> u128 {
        self.0
    }
}

impl DocIx {
    fn new() -> DocIx {
        DocIx(fresh_id())
    }

    /// Wraps a raw identifier value.
    pub fn from_raw(v: u128) -> (r: DocIx)
        ensures
            r@ == v,
    {
        DocIx(v)
    }

    /// The raw identifier value.
    pub fn raw(&self) -> (r: u128)
        ensures
            r == self@,
    {
        self.0
    }
}

/// What a term's statistics denote: its per-document occurrence counts,
/// their sum, and the canonical surface string.
pub ghost struct TermMetaV {
    pub documents: Map<u128, nat>,
    pub documents_total: nat,
    pub display: Seq<char>,
    pub total: nat,
}

/// Per-term statistics: for each document holding the term, how often
/// it occurs there; the canonical surface string; and the sum of the
/// counts.
pub struct TermMeta {
    documents: CountMap,
    display: String,
    total_count: u64,
}

impl View for TermMeta {
    type V = TermMetaV;

    closed spec fn view(&self) -> TermMetaV {
        TermMetaV {
            documents: self.documents@,
            documents_total: self.documents.total(),
            display: self.display@,
            total: self.total_count as nat,
        }
    }
}

impl Record for TermMeta {
    /// The recorded total equals the sum over the documents table.
    closed spec fn inv(self) -> bool {
        &&& self.documents.wf()
        &&& self.documents.total() == self.total_count as nat
    }
}

/// One more occurrence of a term, in document `d`.
pub open spec fn bump_count(m: Map<u128, nat>, k: u128) -> Map<u128, nat> {
    m.insert(
        k,
        if m.contains_key(k) {
            m[k] + 1
        } else {
            1nat
        },
    )
}

/// A term's statistics after one more occurrence in document `d`.
pub open spec fn bump_doc_v(t: TermMetaV, d: u128) -> TermMetaV {
    TermMetaV {
        documents: bump_count(t.documents, d),
        documents_total: t.documents_total + 1,
        display: t.display,
        total: t.total + 1,
    }
}

/// A term's statistics at its first occurrence: one count in document
/// `d`, under surface form `display`.
pub open spec fn first_term_v(d: u128, display: Seq<char>) -> TermMetaV {
    TermMetaV {
        documents: Map::<u128, nat>::empty().insert(d, 1nat),
        documents_total: 1nat,
        display: display,
        total: 1nat,
    }
}

impl TermMeta {
    /// Statistics for a term first seen in document `doc` under
    /// surface form `display`.
    pub fn new(doc: DocIx, display: String) -> (r: TermMeta)
        ensures
            r.inv(),
            r@ == first_term_v(doc@, display@),
    {
        let mut documents = CountMap::new();
        documents.bump(doc.0);
        TermMeta { documents, display, total_count: 1 }
    }

    /// Folds one more occurrence in document `doc` into the
    /// statistics.
    pub fn bump_doc(&mut self, doc: DocIx)
        requires
            old(self).inv(),
            old(self)@.total < u64::MAX,
        ensures
            final(self).inv(),
            final(self)@ == bump_doc_v(old(self)@, doc@),
    {
        self.documents.bump(doc.0);
        self.total_count = self.total_count + 1;
    }

    /// The canonical surface string.
    pub fn display(&self) -> (r: &String)
        ensures
            r@ == self@.display,
    {
        &self.display
    }

    /// The sum of the term's occurrence counts across all documents.
    pub fn total_count(&self) -> (r: u64)
        ensures
            r as nat == self@.total,
    {
        self.total_count
    }

    /// The per-document counts table.
    pub fn documents(&self) -> (r: &CountMap)
        requires
            self.inv(),
        ensures
            r@ == self@.documents,
            r.wf(),
            r.total() == self@.documents_total,
    {
        &self.documents
    }

    /// Rebuilds a term record from its parts, rejecting counts that do
    /// not sum to the recorded total.
    pub fn from_parts(documents: CountMap, display: String, total_count: u64) -> (r: Option<
        TermMeta,
    >)
        requires
            documents.wf(),
        ensures
            match r {
                Some(m) => m.inv() && m@ == (TermMetaV {
                    documents: documents@,
                    documents_total: documents.total(),
                    display: display@,
                    total: total_count as nat,
                }),
                None => documents.total() != total_count as nat,
            },
    {
        let ok = match documents.sum() {
            Some(s) => s == total_count,
            None => false,
        };
        if ok {
            Some(TermMeta { documents, display, total_count })
        } else {
            None
        }
    }

    /// How often the term occurs in document `doc`, if at all.
    pub fn doc_count(&self, doc: &DocIx) -> (r: Option<u64>)
        requires
            self.inv(),
        ensures
            match r {
                Some(c) => self@.documents.contains_key(doc@) && self@.documents[doc@]
                    == c as nat,
                None => !self@.documents.contains_key(doc@),
            },
    {
        self.documents.get(doc.0)
    }
}

/// What a document's statistics denote: its per-term occurrence
/// counts, their sum, its character length, and its token count.
pub ghost struct DocumentMetaV {
    pub terms: Map<u128, nat>,
    pub terms_total: nat,
    pub length: nat,
    pub num_terms: nat,
}

/// Per-document statistics: for each term of the document, how often
/// it occurs; the character length of the source text; and the number
/// of tokens extracted.
pub struct DocumentMeta {
    terms: CountMap,
    length: u64,
    num_terms: u64,
}

impl View for DocumentMeta {
    type V = DocumentMetaV;

    closed spec fn view(&self) -> DocumentMetaV {
        DocumentMetaV {
            terms: self.terms@,
            terms_total: self.terms.total(),
            length: self.length as nat,
            num_terms: self.num_terms as nat,
        }
    }
}

impl Record for DocumentMeta {
    /// The token count equals the sum over the terms table.
    closed spec fn inv(self) -> bool {
        &&& self.terms.wf()
        &&& self.terms.total() == self.num_terms as nat
    }
}

impl DocumentMeta {
    /// Statistics for a document with the given term counts, character
    /// length, and token count.
    pub fn new(terms: CountMap, length: u64, num_terms: u64) -> (r: DocumentMeta)
        requires
            terms.wf(),
            terms.total() == num_terms as nat,
        ensures
            r.inv(),
            r@ == (DocumentMetaV {
                terms: terms@,
                terms_total: terms.total(),
                length: length as nat,
                num_terms: num_terms as nat,
            }),
    {
        DocumentMeta { terms, length, num_terms }
    }

    /// The per-term counts table.
    pub fn terms(&self) -> (r: &CountMap)
        requires
            self.inv(),
        ensures
            r@ == self@.terms,
            r.wf(),
            r.total() == self@.terms_total,
    {
        &self.terms
    }

    /// Rebuilds a document record from its parts, rejecting counts
    /// that do not sum to the recorded token count.
    pub fn from_parts(terms: CountMap, length: u64, num_terms: u64) -> (r: Option<DocumentMeta>)
        requires
            terms.wf(),
        ensures
            match r {
                Some(m) => m.inv() && m@ == (DocumentMetaV {
                    terms: terms@,
                    terms_total: terms.total(),
                    length: length as nat,
                    num_terms: num_terms as nat,
                }),
                None => terms.total() != num_terms as nat,
            },
    {
        let ok = match terms.sum() {
            Some(s) => s == num_terms,
            None => false,
        };
        if ok {
            Some(DocumentMeta { terms, length, num_terms })
        } else {
            None
        }
    }

    /// How often term `t` occurs in the document, if at all.
    pub fn term_count(&self, t: &TermIx) -> (r: Option<u64>)
        requires
            self.inv(),
        ensures
            match r {
                Some(c) => self@.terms.contains_key(t@) && self@.terms[t@] == c as nat,
                None => !self@.terms.contains_key(t@),
            },
    {
        self.terms.get(t.0)
    }

    /// The character length of the source text.
    pub fn length(&self) -> (r: u64)
        ensures
            r as nat == self@.length,
    {
        self.length
    }

    /// The number of tokens extracted from the source text.
    pub fn num_terms(&self) -> (r: u64)
        ensures
            r as nat == self@.num_terms,
    {
        self.num_terms
    }
}

/// What an index denotes: the two stores' maps (keyed by the key hash,
/// as the files are) and the vocabulary.
pub ghost struct IndexV {
    pub terms: Map<u64, TermMetaV>,
    pub documents: Map<u64, DocumentMetaV>,
    pub vocabulary: Map<Seq<char>, u128>,
}

/// The per-document term counts accumulated from the resolved term
/// identifiers of a document's tokens, in order.
pub open spec fn doc_counts(ids: Seq<u128>) -> Map<u128, nat>
    decreases ids.len(),
{
    if ids.len() == 0 {
        Map::empty()
    } else {
        bump_count(doc_counts(ids.drop_last()), ids.last())
    }
}

/// The term store after one token occurrence of the term `id` (surface
/// form `tok`) in document `d`: the term's record gains one count for
/// `d`, or is created with that single count.
pub open spec fn upd_term(ts: Map<u64, TermMetaV>, d: u128, id: u128, tok: Seq<char>) -> Map<
    u64,
    TermMetaV,
> {
    let h = key_hash(id);
    if ts.contains_key(h) {
        ts.insert(h, bump_doc_v(ts[h], d))
    } else {
        ts.insert(h, first_term_v(d, tok))
    }
}

/// The term store after all token occurrences of a document, in order.
pub open spec fn upd_terms(
    ts: Map<u64, TermMetaV>,
    d: u128,
    ids: Seq<u128>,
    toks: Seq<Seq<char>>,
) -> Map<u64, TermMetaV>
    decreases ids.len(),
{
    if ids.len() == 0 {
        ts
    } else {
        upd_term(upd_terms(ts, d, ids.drop_last(), toks.drop_last()), d, ids.last(), toks.last())
    }
}

/// How ingesting `text` as document `d` relates the index states
/// before and after, given the term identifiers `ids` the tokens
/// resolved to (fresh identifiers are drawn at random, so they are
/// witnessed, not computed).
pub open spec fn ingest_post(
    pre: IndexV,
    post: IndexV,
    d: u128,
    text: Seq<char>,
    ids: Seq<u128>,
) -> bool {
    let toks = tokens_of(text);
    &&& ids.len() == toks.len()
    &&& forall|i: int|
        0 <= i < toks.len() ==> post.vocabulary.contains_key(#[trigger] toks[i])
            && post.vocabulary[toks[i]] == ids[i]
    &&& forall|w: Seq<char>|
        pre.vocabulary.contains_key(w) ==> #[trigger] post.vocabulary.contains_key(w)
            && post.vocabulary[w] == pre.vocabulary[w]
    &&& forall|w: Seq<char>|
        #[trigger] post.vocabulary.contains_key(w) ==> pre.vocabulary.contains_key(w)
            || toks.contains(w)
    &&& post.documents == pre.documents.insert(
        key_hash(d),
        DocumentMetaV {
            terms: doc_counts(ids),
            terms_total: ids.len() as nat,
            length: text.len(),
            num_terms: ids.len() as nat,
        },
    )
    &&& post.terms == upd_terms(pre.terms, d, ids, toks)
}

/// The inverted index: a term store, a document store, and the
/// vocabulary.
pub struct Index {
    terms: Filemap<TermMeta>,
    documents: Filemap<DocumentMeta>,
    word_map: WordMap,
}

impl View for Index {
    type V = IndexV;

    closed spec fn view(&self) -> IndexV {
        IndexV { terms: self.terms@, documents: self.documents@, vocabulary: self.word_map@ }
    }
}

impl Index {
    /// Well-formed: both stores and the vocabulary are.
    pub closed spec fn wf(self) -> bool {
        &&& self.terms.wf()
        &&& self.documents.wf()
        &&& self.word_map.wf()
    }

    /// An empty index.  The collaborator that binds it to a base
    /// directory creates the two stores' directories.
    pub fn new() -> (r: Index)
        ensures
            r.wf(),
            r@.terms == Map::<u64, TermMetaV>::empty(),
            r@.documents == Map::<u64, DocumentMetaV>::empty(),
            r@.vocabulary == Map::<Seq<char>, u128>::empty(),
    {
        Index { terms: Filemap::new(), documents: Filemap::new(), word_map: WordMap::new() }
    }

    /// The term identifier assigned to a token surface form, if one
    /// was.
    pub fn term_id(&self, token: &String) -> (r: Option<TermIx>)
        requires
            self.wf(),
        ensures
            match r {
                Some(t) => self@.vocabulary.contains_key(token@) && self@.vocabulary[token@]
                    == t@,
                None => !self@.vocabulary.contains_key(token@),
            },
    {
        match self.word_map.lookup(token) {
            Some(id) => Some(TermIx(id)),
            None => None,
        }
    }

    /// The stored statistics of term `t`, if its hash has a record.
    pub fn term(&self, t: &TermIx) -> (r: Option<&TermMeta>)
        requires
            self.wf(),
        ensures
            match r {
                Some(m) => self@.terms.contains_key(key_hash(t@)) && m@ == self@.terms[key_hash(
                    t@,
                )] && m.inv(),
                None => !self@.terms.contains_key(key_hash(t@)),
            },
    {
        self.terms.get(t.0)
    }

    /// The stored statistics of document `d`, if its hash has a
    /// record.
    pub fn document(&self, d: &DocIx) -> (r: Option<&DocumentMeta>)
        requires
            self.wf(),
        ensures
            match r {
                Some(m) => self@.documents.contains_key(key_hash(d@)) && m@
                    == self@.documents[key_hash(d@)] && m.inv(),
                None => !self@.documents.contains_key(key_hash(d@)),
            },
    {
        self.documents.get(d.0)
    }

    /// Ingests a document: draws a fresh document identifier,
    /// tokenizes `text`, resolves each token's term identifier (first
    /// resolution wins; an entry is never replaced), stores the
    /// document's statistics, and folds each token occurrence into its
    /// term's statistics.  Which identifiers fresh tokens receive is
    /// random, so the contract witnesses them.
    pub fn add_document(&mut self, text: &str) -> (d: DocIx)
        requires
            old(self).wf(),
            forall|h: u64|
                #[trigger] old(self)@.terms.contains_key(h) ==> old(self)@.terms[h].total
                    + text@.len() <= u64::MAX,
        ensures
            final(self).wf(),
            exists|ids: Seq<u128>|
                ingest_post(old(self)@, final(self)@, d@, text@, ids),
    {
        let d = DocIx::new();
        let toks = tokenize(text);
        let n = toks.len();
        let length_chars = char_count(text);
        proof {
            lemma_token_count(text@);
        }
        // Resolve each token's term identifier, minting fresh ones.
        let mut ids: Vec<u128> = Vec::new();
        let mut i: usize = 0;
        while i < n
            invariant
                n == toks.len(),
                toks.deep_view() == tokens_of(text@),
                0 <= i <= n,
                ids@.len() == i,
                self.word_map.wf(),
                self.terms == old(self).terms,
                self.documents == old(self).documents,
                forall|w: Seq<char>|
                    old(self)@.vocabulary.contains_key(w) ==> #[trigger] self.word_map@.contains_key(
                        w,
                    ) && self.word_map@[w] == old(self)@.vocabulary[w],
                forall|w: Seq<char>|
                    #[trigger] self.word_map@.contains_key(w) ==> old(
                        self,
                    )@.vocabulary.contains_key(w) || tokens_of(text@).contains(w),
                forall|j: int|
                    0 <= j < i ==> self.word_map@.contains_key(
                        #[trigger] tokens_of(text@)[j],
                    ) && self.word_map@[tokens_of(text@)[j]] == ids@[j],
            decreases n - i,
        {
            let tok = &toks[i];
            proof {
                assert(toks.deep_view()[i as int] == toks@[i as int]@);
                assert(tokens_of(text@).contains(tokens_of(text@)[i as int]));
            }
            let id = match self.word_map.lookup(tok) {
                Some(x) => x,
                None => {
                    let f = TermIx::new().raw();
                    self.word_map.insert(tok.clone(), f);
                    f
                },
            };
            ids.push(id);
            i += 1;
        }
        // Accumulate the document's term counts.
        let ghost wm1 = self.word_map;
        let mut counts = CountMap::new();
        let mut j: usize = 0;
        while j < n
            invariant
                n == ids@.len(),
                0 <= j <= n,
                counts.wf(),
                counts@ == doc_counts(ids@.take(j as int)),
                counts.total() == j,
                self.word_map == wm1,
                self.terms == old(self).terms,
                self.documents == old(self).documents,
            decreases n - j,
        {
            proof {
                assert(ids@.take(j + 1).drop_last() =~= ids@.take(j as int));
                assert(ids@.take(j + 1).last() == ids@[j as int]);
                assert(counts.total() < u64::MAX);
            }
            counts.bump(ids[j]);
            j += 1;
        }
        proof {
            assert(ids@.take(n as int) =~= ids@);
        }
        // Persist the document's statistics.
        let meta = DocumentMeta::new(counts, length_chars as u64, n as u64);
        self.documents.insert(d.0, meta);
        // Fold each token occurrence into its term's statistics.
        let ghost docs1 = self.documents;
        let mut k: usize = 0;
        while k < n
            invariant
                n == ids@.len(),
                n == toks.len(),
                n <= text@.len(),
                toks.deep_view() == tokens_of(text@),
                ids@.len() == tokens_of(text@).len(),
                0 <= k <= n,
                self.word_map == wm1,
                self.documents == docs1,
                self.terms.wf(),
                self.terms@ == upd_terms(
                    old(self)@.terms,
                    d@,
                    ids@.take(k as int),
                    tokens_of(text@).take(k as int),
                ),
                forall|h: u64|
                    #[trigger] old(self)@.terms.contains_key(h) ==> old(self)@.terms[h].total
                        + text@.len() <= u64::MAX,
                forall|h: u64|
                    #[trigger] old(self)@.terms.contains_key(h) ==> self.terms@.contains_key(h),
                forall|h: u64|
                    #[trigger] self.terms@.contains_key(h) ==> self.terms@[h].total <= (
                    if old(self)@.terms.contains_key(h) {
                        old(self)@.terms[h].total
                    } else {
                        0nat
                    }) + k,
            decreases n - k,
        {
            let id = ids[k];
            let ghost ts0 = self.terms@;
            proof {
                assert(ids@.take(k + 1).drop_last() =~= ids@.take(k as int));
                assert(ids@.take(k + 1).last() == ids@[k as int]);
                assert(tokens_of(text@).take(k + 1).drop_last() =~= tokens_of(text@).take(
                    k as int,
                ));
                assert(tokens_of(text@).take(k + 1).last() == tokens_of(text@)[k as int]);
                assert(toks.deep_view()[k as int] == toks@[k as int]@);
            }
            match self.terms.remove(id) {
                Some(mut tm) => {
                    proof {
                        assert(tm@.total < u64::MAX);
                    }
                    tm.bump_doc(d);
                    self.terms.insert(id, tm);
                    proof {
                        assert(self.terms@ =~= upd_term(ts0, d@, id, toks@[k as int]@));
                    }
                },
                None => {
                    let tm = TermMeta::new(d, toks[k].clone());
                    self.terms.insert(id, tm);
                    proof {
                        assert(self.terms@ =~= upd_term(ts0, d@, id, toks@[k as int]@));
                    }
                },
            }
            k += 1;
        }
        proof {
            assert(ids@.take(n as int) =~= ids@);
            assert(tokens_of(text@).take(n as int) =~= tokens_of(text@));
            let idsv = ids@;
            assert(ingest_post(old(self)@, self@, d@, text@, idsv));
        }
        d
    }
}

} // verus!
