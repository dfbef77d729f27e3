use lexi::jsonl::{
    is_blank, read_context, read_failure, read_step, record_context, require_object, starts_with_bom,
    trim_jsonl_terminator, JsonlError,
};

#[test]
fn terminators_lf_and_crlf_are_removed_once() {
    for (line, expected) in [
        ("{\"a\":1}\n", "{\"a\":1}"),
        ("{\"a\":1}\r\n", "{\"a\":1}"),
        ("{\"a\":1}", "{\"a\":1}"),
        ("x\r", "x\r"),
        ("\n", ""),
        ("x\n\n", "x\n"),
        ("", ""),
    ] {
        let mut text = line.to_string();
        trim_jsonl_terminator(&mut text);
        assert_eq!(text, expected, "{line:?}");
    }
}

#[test]
fn blank_lines_hold_only_whitespace() {
    assert!(is_blank(""));
    assert!(is_blank(" \t \r"));
    assert!(!is_blank(" x "));
}

#[test]
fn a_leading_byte_order_mark_is_recognized() {
    assert!(starts_with_bom(b"\xEF\xBB\xBF{}"));
    assert!(!starts_with_bom(b"\xEF\xBB"));
    assert!(!starts_with_bom(b"{}"));
}

#[test]
fn failing_lines_are_named_by_file_and_number() {
    assert_eq!(
        record_context("doomed.jsonl", 3),
        "invalid JSONL record in doomed.jsonl at line 3"
    );
    assert_eq!(read_context("a.jsonl", 12), "failed to read a.jsonl at line 12");
}

#[test]
fn each_read_line_is_counted_and_blank_ones_are_skipped() {
    let mut line = "{\"headword\":\"a\"}\r\n".to_string();
    let step = read_step("doomed.jsonl", 2, &mut line);
    assert_eq!(step.line_number, 3);
    assert_eq!(line, "{\"headword\":\"a\"}");
    assert_eq!(
        step.record_context.as_deref(),
        Some("invalid JSONL record in doomed.jsonl at line 3")
    );
    let mut blank = " \t \r\n".to_string();
    let step = read_step("doomed.jsonl", 3, &mut blank);
    assert_eq!(step.line_number, 4);
    assert!(step.record_context.is_none());
    assert_eq!(read_failure("a.jsonl", 1), (2, "failed to read a.jsonl at line 2".to_string()));
}

#[test]
fn a_record_line_must_hold_an_object() {
    assert!(require_object(true).is_ok());
    let error = require_object(false).unwrap_err();
    assert_eq!(error, JsonlError::NotAnObject);
    assert_eq!(error.message(), "JSONL record must be a JSON object");
}
