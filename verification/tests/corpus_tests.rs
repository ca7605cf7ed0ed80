use badge_core::corpus::{split_corpus, Corpus};

fn chars(s: &str) -> Vec<char> {
    s.chars().collect()
}

#[test]
fn split_three_items() {
    let text = chars("A\n\nB\n\nC");
    let items = split_corpus(&text);
    assert_eq!(items, vec![chars("A"), chars("B"), chars("C")]);
}

#[test]
fn split_without_separator_is_one_item() {
    let text = chars("hello\nworld");
    let items = split_corpus(&text);
    assert_eq!(items, vec![chars("hello\nworld")]);
}

#[test]
fn split_trailing_separator_keeps_empty_item() {
    let text = chars("A\n\n");
    let items = split_corpus(&text);
    assert_eq!(items, vec![chars("A"), chars("")]);
}

#[test]
fn split_empty_blob() {
    let items = split_corpus(&[]);
    assert_eq!(items, vec![Vec::<char>::new()]);
}

#[test]
fn corpus_lookup() {
    let text = chars("one\n\ntwo\n\nthree");
    let corpus = Corpus::new(&text);
    assert_eq!(corpus.len(), 3);
    assert_eq!(corpus.get(1).unwrap(), &chars("two"));
    assert!(corpus.get(3).is_none());
}

fn ten_item_corpus() -> Corpus {
    let text = chars("i0\n\ni1\n\ni2\n\ni3\n\ni4\n\ni5\n\ni6\n\ni7\n\ni8\n\ni9");
    let corpus = Corpus::new(&text);
    assert_eq!(corpus.len(), 10);
    corpus
}

#[test]
fn resolve_in_range_id_passes_through() {
    let corpus = ten_item_corpus();
    assert_eq!(corpus.resolve_id(3), 3);
    assert_eq!(corpus.resolve_id(9), 9);
}

#[test]
fn resolve_malformed_id_clamps() {
    let corpus = ten_item_corpus();
    let r = corpus.resolve_id(250);
    assert!(r < 10);
    assert_eq!(r, 9);
}
