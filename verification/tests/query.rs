use lexi::output::Options;
use lexi::query::{exit_code, outcome, select_matches, spans_several_dictionaries, Outcome, QueryOutput};
use lexi::record::QueryTerm;
use lexi::storage::{require_installed, StorageError, StoredEntry};

fn term(raw: &str) -> QueryTerm {
    QueryTerm::parse(raw).unwrap()
}

fn stored(dictionary: &str, headword: &str, definition: &str) -> StoredEntry {
    StoredEntry::new(dictionary.into(), headword.into(), definition.into())
}

fn headwords(entries: &[StoredEntry]) -> Vec<(&str, &str)> {
    entries.iter().map(|e| (e.dictionary_name(), e.headword())).collect()
}

#[test]
fn empty_database_is_a_runtime_error_not_a_miss() {
    let mut stdout = String::new();
    let mut stderr = String::new();
    let error = match require_installed(false) {
        Ok(()) => {
            let mut output = QueryOutput::new(Options::default());
            output.answer(&mut stdout, &mut stderr, &term("hello"), Vec::new());
            panic!("an empty database must refuse the query");
        }
        Err(error) => error,
    };
    assert_eq!(error, StorageError::NoDictionaries);
    assert!(error.message().contains("no dictionaries are installed"), "{}", error.message());
    assert!(stdout.is_empty());
    assert!(stderr.is_empty());
    assert!(require_installed(true).is_ok());
}

#[test]
fn batch_writes_misses_to_stderr_and_keeps_hits() {
    let mut output = QueryOutput::new(Options::default());
    let mut stdout = String::new();
    let mut stderr = String::new();
    let mut missing = false;
    for raw in ["hello", "helo", "hello"] {
        let candidates = if raw == "hello" { vec![stored("oxford", "hello", "world")] } else { Vec::new() };
        if !output.answer(&mut stdout, &mut stderr, &term(raw), candidates) {
            missing = true;
        }
    }
    let result = outcome(missing);
    assert!(matches!(result, Outcome::SomeMissing));
    assert_eq!(stdout, "hello\nworld\n\nhello\nworld\n");
    assert_eq!(stderr, "No entry found for: helo\n");
    assert_eq!(exit_code(result), 1);
    assert_eq!(exit_code(outcome(false)), 0);
}

#[test]
fn exact_spelling_wins_across_all_dictionaries() {
    let candidates = vec![
        stored("oxford", "Hello", "oxford Hello"),
        stored("longman", "hello", "longman hello"),
        stored("longman", "hello", "again"),
    ];
    let selected = select_matches(&term("hello"), candidates.clone());
    assert_eq!(headwords(&selected), [("longman", "hello"), ("longman", "hello")]);
    let selected = select_matches(&term("Hello"), candidates.clone());
    assert_eq!(headwords(&selected), [("oxford", "Hello")]);
    let selected = select_matches(&term("HELLO"), candidates.clone());
    assert_eq!(selected, candidates);
    let again = select_matches(&term("hello"), select_matches(&term("hello"), candidates.clone()));
    assert_eq!(again, select_matches(&term("hello"), candidates));
    assert!(select_matches(&term("hello"), Vec::new()).is_empty());
}

#[test]
fn case_fallback_keeps_every_candidate_in_order() {
    let mut output = QueryOutput::new(Options::default());
    let mut stdout = String::new();
    let mut stderr = String::new();
    assert!(output.answer(
        &mut stdout,
        &mut stderr,
        &term("hello"),
        vec![stored("oxford", "Hello", "first"), stored("oxford", "HELLO", "second")],
    ));
    assert_eq!(stdout, "Hello\nfirst\n\nHELLO\nsecond\n");
    assert!(stderr.is_empty());
}

#[test]
fn dictionary_names_appear_when_a_terms_records_span_dictionaries() {
    let two = vec![stored("first", "word", "<p>definition</p>"), stored("second", "word", "<p>definition</p>")];
    assert!(spans_several_dictionaries(&two));
    assert!(!spans_several_dictionaries(&vec![stored("a", "w", "d"), stored("a", "w", "e")]));
    for (options, expected) in [
        (Options { raw: true, ..Options::default() }, "word\n<p>definition</p>\n\nword\n<p>definition</p>\n"),
        (
            Options { raw: true, show_dictionary: true, ..Options::default() },
            "[first] word\n<p>definition</p>\n\n[second] word\n<p>definition</p>\n",
        ),
        (
            Options { full: true, ..Options::default() },
            "[first] word\ndefinition\n\n[second] word\ndefinition\n",
        ),
    ] {
        let mut output = QueryOutput::new(options);
        let mut stdout = String::new();
        let mut stderr = String::new();
        assert!(output.answer(&mut stdout, &mut stderr, &term("word"), two.clone()));
        assert_eq!(stdout, expected);
    }
}

#[test]
fn provenance_is_decided_per_term() {
    let mut output = QueryOutput::new(Options::default());
    let mut stdout = String::new();
    let mut stderr = String::new();
    assert!(output.answer(&mut stdout, &mut stderr, &term("one"), vec![stored("first", "one", "first")]));
    assert!(output.answer(&mut stdout, &mut stderr, &term("two"), vec![stored("second", "two", "second")]));
    assert_eq!(stdout, "one\nfirst\n\ntwo\nsecond\n");
    assert!(output.wrote_record);
}
