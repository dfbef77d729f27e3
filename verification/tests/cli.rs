use std::path::PathBuf;

use lexi::cli::{select_mode, validate, write_version, ArgumentError, Cli, Mode};
use lexi::query::EXIT_ARGUMENT_ERROR;

fn cli() -> Cli {
    Cli {
        headwords: Vec::new(),
        dictionary: Vec::new(),
        show_dictionary: false,
        raw: false,
        full: false,
        import: None,
        name: None,
        force: false,
        list: false,
        remove: None,
        help: false,
        version: false,
    }
}

fn query(headwords: &[&str]) -> Cli {
    Cli {
        headwords: headwords.iter().map(|h| h.to_string()).collect(),
        ..cli()
    }
}

fn import(path: &str, name: Option<&str>) -> Cli {
    Cli {
        import: Some(PathBuf::from(path)),
        name: name.map(str::to_string),
        ..cli()
    }
}

#[test]
fn parses_each_mode() {
    assert_eq!(select_mode(1, cli()).unwrap(), Mode::Help);
    assert_eq!(select_mode(2, Cli { help: true, ..cli() }).unwrap(), Mode::Help);
    assert_eq!(select_mode(2, Cli { version: true, ..cli() }).unwrap(), Mode::Version);
    assert!(matches!(
        select_mode(2, query(&["hello"])).unwrap(),
        Mode::Query {
            raw: false,
            show_dictionary: false,
            ..
        }
    ));
    assert!(matches!(
        select_mode(
            4,
            Cli {
                raw: true,
                show_dictionary: true,
                ..query(&["hello"])
            }
        )
        .unwrap(),
        Mode::Query {
            raw: true,
            show_dictionary: true,
            ..
        }
    ));
    assert!(matches!(
        select_mode(5, import("dict.jsonl", Some("  Test Dict  "))).unwrap(),
        Mode::Import { name, force, .. } if name == "Test Dict" && !force
    ));
    assert!(matches!(
        select_mode(
            6,
            Cli {
                force: true,
                ..import("dict.jsonl", Some("oxford"))
            }
        )
        .unwrap(),
        Mode::Import { force: true, .. }
    ));
    assert_eq!(select_mode(2, Cli { list: true, ..cli() }).unwrap(), Mode::List);
    assert!(matches!(
        select_mode(3, Cli { remove: Some("test".into()), ..cli() }).unwrap(),
        Mode::Remove { .. }
    ));
}

#[test]
fn rejects_options_outside_their_modes() {
    for (args, error) in [
        (Cli { list: true, ..query(&["hello"]) }, ArgumentError::ConflictingModes),
        (Cli { list: true, force: true, ..cli() }, ArgumentError::ListWithOptions),
        (
            Cli { remove: Some("test".into()), show_dictionary: true, ..cli() },
            ArgumentError::RemoveWithOptions,
        ),
        (Cli { list: true, raw: true, ..cli() }, ArgumentError::ListWithOptions),
        (import("dict.jsonl", None), ArgumentError::MissingImportName),
        (import("dict.jsonl", Some("   ")), ArgumentError::EmptyImportName),
        (Cli { list: true, help: true, ..cli() }, ArgumentError::ConflictingModes),
        (Cli { version: true, ..query(&["hello"]) }, ArgumentError::ConflictingModes),
    ] {
        assert_eq!(select_mode(3, args).unwrap_err(), error);
    }
    assert_eq!(EXIT_ARGUMENT_ERROR, 2);
}

#[test]
fn every_refusal_has_its_message() {
    assert_eq!(
        validate(cli()).unwrap_err().message(),
        "one mode is required: HEADWORD, --import, --list, --remove, --help, or --version"
    );
    assert_eq!(
        validate(Cli { name: Some("x".into()), ..query(&["a"]) }).unwrap_err(),
        ArgumentError::ImportOptionsOutsideImport
    );
    assert_eq!(
        validate(Cli { raw: true, full: true, ..query(&["a"]) }).unwrap_err(),
        ArgumentError::RawWithFull
    );
    assert_eq!(
        validate(Cli { full: true, ..import("d.jsonl", Some("n")) }).unwrap_err(),
        ArgumentError::QueryOptionsOutsideQuery
    );
    assert_eq!(
        validate(Cli { help: true, dictionary: vec!["x".into()], ..cli() }).unwrap_err(),
        ArgumentError::HelpWithOptions
    );
    assert_eq!(
        ArgumentError::RemoveWithOptions.message(),
        "--remove does not accept import or query options"
    );
}

#[test]
fn accepted_modes_carry_their_values() {
    match validate(Cli {
        dictionary: vec!["oxford".into(), "longman".into()],
        full: true,
        ..query(&["take off", "hello"])
    })
    .unwrap()
    {
        Mode::Query { headwords, dictionaries, show_dictionary, raw, full } => {
            assert_eq!(headwords, ["take off", "hello"]);
            assert_eq!(dictionaries, ["oxford", "longman"]);
            assert!(!show_dictionary && !raw && full);
        }
        other => panic!("{other:?}"),
    }
    assert_eq!(
        validate(import("dict.jsonl", Some(" x "))).unwrap(),
        Mode::Import { path: PathBuf::from("dict.jsonl"), name: "x".into(), force: false }
    );
    assert_eq!(
        validate(Cli { remove: Some("  Oxford ".into()), ..cli() }).unwrap(),
        Mode::Remove { name: "  Oxford ".into() }
    );
}

#[test]
fn version_line_names_the_program() {
    let mut out = String::new();
    write_version(&mut out);
    assert_eq!(out, "lexi 0.1.0\n");
}
