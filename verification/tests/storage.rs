use lexi::record::DictionaryName;
use lexi::storage::{
    data_home, DataHome,
    import_outcome, import_target, lookup_query, lookup_sql, removal_target, resolve_scope,
    schema_plan, write_import_report, write_list_line, write_removal_report, DictionaryScope,
    ImportOutcome, StorageError, StoredEntry, SCHEMA_VERSION,
};

fn name(raw: &str) -> DictionaryName {
    DictionaryName::parse(raw).unwrap()
}

const BASE: &str = "SELECT d.name, e.headword, e.definition FROM entries e JOIN dictionaries d ON d.id = e.dictionary_id WHERE e.folded_headword = ?1";

#[test]
fn lookup_statement_numbers_one_placeholder_per_dictionary() {
    assert_eq!(lookup_sql(None), format!("{BASE} ORDER BY e.id"));
    assert_eq!(
        lookup_sql(Some(1)),
        format!("{BASE} AND e.dictionary_id IN (?2) ORDER BY e.id")
    );
    assert_eq!(
        lookup_sql(Some(3)),
        format!("{BASE} AND e.dictionary_id IN (?2, ?3, ?4) ORDER BY e.id")
    );
    let twelve = lookup_sql(Some(11));
    assert!(twelve.contains("?11, ?12)"), "{twelve}");
}

#[test]
fn scopes_select_all_named_or_nothing() {
    let all = resolve_scope(&Vec::new(), &Vec::new()).unwrap();
    assert!(all.ids().is_none());
    assert_eq!(lookup_query(&all).unwrap(), lookup_sql(None));
    let named = resolve_scope(&vec![name("Oxford"), name("longman")], &vec![Some(4), Some(2)]).unwrap();
    assert_eq!(named.ids().unwrap(), &vec![4, 2]);
    assert_eq!(lookup_query(&named).unwrap(), lookup_sql(Some(2)));
    assert!(lookup_query(&DictionaryScope::all()).is_some());
}

#[test]
fn an_unknown_dictionary_refuses_the_lookup_naming_the_first() {
    let error = resolve_scope(
        &vec![name("oxford"), name(" nope "), name("gone")],
        &vec![Some(1), None, None],
    )
    .unwrap_err();
    assert_eq!(error, StorageError::UnknownDictionary("nope".into()));
    assert_eq!(error.message(), "unknown dictionary 'nope'");
}

#[test]
fn schema_versions_are_created_kept_or_refused() {
    assert_eq!(schema_plan(0).unwrap(), true);
    assert_eq!(schema_plan(SCHEMA_VERSION).unwrap(), false);
    let error = schema_plan(2).unwrap_err();
    assert_eq!(error, StorageError::UnsupportedSchema(2));
    assert_eq!(
        error.message(),
        "unsupported SQLite schema version 2; this lexi supports up to 1"
    );
    assert_eq!(
        StorageError::UnsupportedSchema(-7).message(),
        "unsupported SQLite schema version -7; this lexi supports up to 1"
    );
}

#[test]
fn imports_create_replace_or_refuse_an_existing_name() {
    assert_eq!(import_target(None, false).unwrap(), None);
    assert_eq!(import_target(None, true).unwrap(), None);
    assert_eq!(import_target(Some((9, "Oxford".into())), true).unwrap(), Some(9));
    let error = import_target(Some((9, "Oxford".into())), false).unwrap_err();
    assert_eq!(error.message(), "dictionary 'Oxford' already exists");
    assert_eq!(import_outcome(true, 3), ImportOutcome::Replaced(3));
    assert_eq!(import_outcome(false, 185432), ImportOutcome::Created(185432));
}

#[test]
fn removals_report_the_stored_name_or_refuse() {
    assert_eq!(
        removal_target(Some(("Oxford".into(), 2)), &name("oxford")).unwrap(),
        ("Oxford".to_string(), 2)
    );
    let error = removal_target(None, &name(" missing ")).unwrap_err();
    assert_eq!(error.message(), "unknown dictionary 'missing'");
}

#[test]
fn command_reports_use_the_documented_lines() {
    let mut out = String::new();
    write_import_report(&mut out, ImportOutcome::Created(185432), &name(" oxford "));
    write_import_report(&mut out, ImportOutcome::Replaced(185500), &name("oxford"));
    write_removal_report(&mut out, "Oxford", 1);
    write_list_line(&mut out, "longman", 230119);
    assert_eq!(
        out,
        "Imported oxford: 185432 entries\nReplaced oxford: 185500 entries\nRemoved Oxford: 1 entries\nlongman\t230119\n"
    );
}

#[test]
fn stored_entries_keep_their_fields() {
    let entry = StoredEntry::new("oxford".into(), "Hello".into(), "  world ".into());
    assert_eq!(entry.dictionary_name(), "oxford");
    assert_eq!(entry.headword(), "Hello");
    assert_eq!(entry.definition(), "  world ");
}

#[test]
fn the_data_directory_prefers_an_absolute_xdg_data_home() {
    assert_eq!(data_home(Some("/data"), Some("/home/u")), DataHome::XdgDataHome);
    assert_eq!(data_home(Some("relative-data"), Some("/home/u")), DataHome::HomeLocalShare);
    assert_eq!(data_home(Some(""), Some("/home/u")), DataHome::HomeLocalShare);
    assert_eq!(data_home(None, Some("/home/u")), DataHome::HomeLocalShare);
    assert_eq!(data_home(None, Some("")), DataHome::Unknown);
    assert_eq!(data_home(Some("x"), None), DataHome::Unknown);
}
