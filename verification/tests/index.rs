use ferret_index::counts::CountMap;
use ferret_index::index::DocumentMeta;
use ferret_index::index::Index;
use ferret_index::index::TermMeta;
use ferret_index::token::tokenize;

#[test]
fn scenario_two_documents() {
    let mut idx = Index::new();

    let d1 = idx.add_document("the cat sat on the mat");

    let dm1 = idx.document(&d1).expect("document record");
    assert_eq!(dm1.num_terms(), 6);
    assert_eq!(dm1.length(), 22);

    let t_the = idx.term_id(&"the".to_string()).expect("the");
    let t_cat = idx.term_id(&"cat".to_string()).expect("cat");
    let t_sat = idx.term_id(&"sat".to_string()).expect("sat");
    let t_on = idx.term_id(&"on".to_string()).expect("on");
    let t_mat = idx.term_id(&"mat".to_string()).expect("mat");
    assert_eq!(dm1.term_count(&t_the), Some(2));
    assert_eq!(dm1.term_count(&t_cat), Some(1));
    assert_eq!(dm1.term_count(&t_sat), Some(1));
    assert_eq!(dm1.term_count(&t_on), Some(1));
    assert_eq!(dm1.term_count(&t_mat), Some(1));
    assert_eq!(idx.term_id(&"dog".to_string()), None);

    let d2 = idx.add_document("the dog sat");
    assert_ne!(d1, d2);

    // The shared tokens keep the identifiers they were first given.
    assert_eq!(idx.term_id(&"the".to_string()), Some(t_the));
    assert_eq!(idx.term_id(&"sat".to_string()), Some(t_sat));
    let t_dog = idx.term_id(&"dog".to_string()).expect("dog");
    assert_ne!(t_dog, t_the);

    let tm_the = idx.term(&t_the).expect("term record");
    assert_eq!(tm_the.doc_count(&d1), Some(2));
    assert_eq!(tm_the.doc_count(&d2), Some(1));
    assert_eq!(tm_the.total_count(), 3);
    assert_eq!(tm_the.display().as_str(), "the");
}

#[test]
fn all_punctuation_document_is_empty() {
    let mut idx = Index::new();
    let d = idx.add_document("!!!  ---");
    let dm = idx.document(&d).expect("document record");
    assert_eq!(dm.num_terms(), 0);
    assert_eq!(dm.length(), 8);
}

#[test]
fn frequency_conservation_on_ingested_document() {
    let mut idx = Index::new();
    let text = "to be or not to be";
    let d = idx.add_document(text);
    let dm = idx.document(&d).expect("document record");

    // The document's counts sum to its token count.
    let mut sum: u64 = 0;
    for tok in tokenize(text) {
        let t = idx.term_id(&tok).expect("token resolved");
        let c = dm.term_count(&t).expect("token counted");
        // Each distinct token contributes once; dividing by its
        // multiplicity keeps the sum exact.
        let occurrences = tokenize(text).iter().filter(|s| **s == tok).count() as u64;
        sum += c / occurrences;

        // Each term's record carries exactly the document's count.
        let tm = idx.term(&t).expect("term record");
        assert_eq!(tm.doc_count(&d), Some(c));
    }
    assert_eq!(sum, dm.num_terms());
}

#[test]
fn vocabulary_is_stable_across_documents() {
    let mut idx = Index::new();
    idx.add_document("alpha beta");
    let t1 = idx.term_id(&"alpha".to_string()).expect("alpha");
    idx.add_document("beta alpha gamma");
    let t1_again = idx.term_id(&"alpha".to_string()).expect("alpha again");
    assert_eq!(t1, t1_again);
}

#[test]
fn term_ids_round_trip_through_raw() {
    let t = ferret_index::index::TermIx::from_raw(7);
    assert_eq!(t.raw(), 7);
    let d = ferret_index::index::DocIx::from_raw(9);
    assert_eq!(d.raw(), 9);
}

#[test]
fn rebuilding_records_validates_totals() {

    let counts = CountMap::from_entries(vec![(1, 2), (2, 1)]).expect("distinct keys");
    assert!(TermMeta::from_parts(counts, "the".to_string(), 3).is_some());
    let counts = CountMap::from_entries(vec![(1, 2), (2, 1)]).expect("distinct keys");
    assert!(TermMeta::from_parts(counts, "the".to_string(), 4).is_none());

    let counts = CountMap::from_entries(vec![(1, 2)]).expect("distinct keys");
    assert!(DocumentMeta::from_parts(counts, 10, 2).is_some());
    let counts = CountMap::from_entries(vec![(1, 2)]).expect("distinct keys");
    assert!(DocumentMeta::from_parts(counts, 10, 3).is_none());
}
