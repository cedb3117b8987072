use ferret_index::token::char_count;
use ferret_index::token::tokenize;

#[test]
fn punctuation_stripped_and_empty_residues_dropped() {
    let toks = tokenize("Hello, world!  foo-bar");
    assert_eq!(toks, vec!["Hello".to_string(), "world".to_string(), "foobar".to_string()]);
}

#[test]
fn all_punctuation_yields_no_tokens() {
    let toks = tokenize("!!!  ---");
    assert_eq!(toks.len(), 0);
}

#[test]
fn empty_text_yields_no_tokens() {
    assert_eq!(tokenize("").len(), 0);
}

#[test]
fn whitespace_runs_collapse() {
    let toks = tokenize("  a   b  ");
    assert_eq!(toks, vec!["a".to_string(), "b".to_string()]);
}

#[test]
fn char_count_counts_characters() {
    assert_eq!(char_count(""), 0);
    assert_eq!(char_count("the cat sat on the mat"), 22);
}
