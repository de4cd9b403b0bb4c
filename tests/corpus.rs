use keygen::corpus::Corpus;
use keygen::presets::{qwerty_layout, rsthd_layout};

#[test]
fn no_quartad_spans_an_unmapped_character() {
    let corpus = Corpus::from_text("ab-cd", &qwerty_layout());
    assert!(corpus.quartads.is_empty());
    assert_eq!(corpus.len, 5);
}

#[test]
fn counts_overlapping_quartads() {
    let corpus = Corpus::from_text("abcabca", &qwerty_layout());
    let mut got: Vec<(String, usize)> = corpus
        .quartads
        .iter()
        .map(|(q, n)| (q.0.iter().collect::<String>(), *n))
        .collect();
    got.sort();
    assert_eq!(
        got,
        vec![
            ("abca".to_string(), 2),
            ("bcab".to_string(), 1),
            ("cabc".to_string(), 1)
        ]
    );
    assert_eq!(corpus.len, 7);
}

#[test]
fn window_restarts_after_an_unmapped_character() {
    let corpus = Corpus::from_text("abcd-efgh€ijk", &qwerty_layout());
    let mut got: Vec<String> = corpus
        .quartads
        .iter()
        .map(|(q, _)| q.0.iter().collect::<String>())
        .collect();
    got.sort();
    assert_eq!(got, vec!["abcd".to_string(), "efgh".to_string()]);
    assert_eq!(corpus.len, 13);
}

#[test]
fn empty_text_gives_an_empty_corpus() {
    let corpus = Corpus::from_text("", &rsthd_layout());
    assert!(corpus.quartads.is_empty());
    assert_eq!(corpus.len, 0);
}
