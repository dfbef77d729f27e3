use lexi::record::{DictionaryName, Entry, QueryTerm, RecordError};

#[test]
fn dictionary_name_trims_and_preserves_display_while_folding_case() {
    let name = DictionaryName::parse("  Oxford English  ").unwrap();
    assert_eq!(name.display(), "Oxford English");
    assert_eq!(name.normalized(), "oxford english");
    assert_eq!(
        DictionaryName::parse("Wörter").unwrap().normalized(),
        "wörter"
    );
    assert!(DictionaryName::parse("   \t  ").is_err());
}

#[test]
fn entry_keeps_internal_spaces_and_definition_text() {
    let entry = Entry::new("take off".into(), "  keep spaces \nand a newline".into()).unwrap();
    assert_eq!(entry.headword(), "take off");
    assert_eq!(entry.folded_headword(), "take off");
    assert_eq!(entry.definition(), "  keep spaces \nand a newline");
    assert_eq!(
        Entry::new("Wörter".into(), "def".into())
            .unwrap()
            .folded_headword(),
        "wörter"
    );
}

#[test]
fn entry_rejects_empty_control_and_surrounding_whitespace_headwords() {
    assert!(Entry::new(String::new(), "def".into()).is_err());
    assert!(Entry::new(" hello".into(), "def".into()).is_err());
    assert!(Entry::new("hello ".into(), "def".into()).is_err());
    assert!(Entry::new("hel\tlo".into(), "def".into()).is_err());
    assert!(Entry::new("hel\nlo".into(), "def".into()).is_err());
    assert!(Entry::new("a".into(), String::new()).is_err());
    assert!(Entry::new("a".into(), " \t ".into()).is_err());
}

#[test]
fn entry_errors_name_each_rule_with_its_message() {
    let cases = [
        ("", "b", RecordError::EmptyHeadword, "headword must be a non-empty string"),
        (" a", "b", RecordError::SurroundingWhitespace, "leading or trailing whitespace"),
        ("a\tb", "b", RecordError::ControlCharacter, "control characters"),
        ("a", " \t ", RecordError::BlankDefinition, "definition must be a non-whitespace string"),
    ];
    for (headword, definition, error, text) in cases {
        let refused = Entry::new(headword.into(), definition.into()).unwrap_err();
        assert_eq!(refused, error);
        assert!(refused.message().contains(text), "{}", refused.message());
    }
    assert_eq!(
        DictionaryName::parse(" ").unwrap_err().message(),
        "dictionary name must not be empty"
    );
}

#[test]
fn query_terms_trim_and_fold_but_refuse_blank_input() {
    let term = QueryTerm::parse("  HeLLo  ").unwrap();
    assert_eq!(term.text(), "HeLLo");
    assert_eq!(term.folded(), "hello");
    let refused = QueryTerm::parse(" \t ").unwrap_err();
    assert_eq!(refused, RecordError::EmptyQuery);
    assert_eq!(refused.message(), "query headword must not be empty");
}

#[test]
fn parsing_a_display_name_again_gives_the_same_name() {
    let name = DictionaryName::parse("  Oxford English ").unwrap();
    let again = DictionaryName::parse(name.display()).unwrap();
    assert_eq!(again.display(), name.display());
    assert_eq!(again.normalized(), name.normalized());
}
