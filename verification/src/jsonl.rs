//! The line rules of JSONL input: byte-order mark, line terminators, blank lines
//! and the context that names a failing line.
use vstd::prelude::*;
use crate::text::{
    all_whitespace, all_ws, append_str, decimal, from_chars, lemma_trim_empty_iff_all_ws,
    push_decimal, string_of, to_chars, trim,
};

verus! {

/// The UTF-8 byte-order mark that may open a file.
pub open spec fn is_bom_prefix(bytes: Seq<u8>) -> bool {
    bytes.len() >= 3 && bytes[0] == 0xEF && bytes[1] == 0xBB && bytes[2] == 0xBF
}

/// Whether the buffered start of a file is a byte-order mark, which is not part of
/// line 1.
pub fn starts_with_bom(bytes: &[u8]) -> (r: bool)
    ensures
        r == is_bom_prefix(bytes@),
{
    bytes.len() >= 3 && bytes[0] == 0xEF && bytes[1] == 0xBB && bytes[2] == 0xBF
}

/// A line without its `\n`, and without a `\r` just before that `\n`.
pub open spec fn without_terminator(l: Seq<char>) -> Seq<char> {
    if l.len() > 0 && l.last() == '\n' {
        let a = l.drop_last();
        if a.len() > 0 && a.last() == '\r' {
            a.drop_last()
        } else {
            a
        }
    } else {
        l
    }
}

/// Removes the line terminator (`\n` or `\r\n`) that reading left on a line.
pub fn trim_jsonl_terminator(line: &mut String)
    ensures
        final(line)@ == without_terminator(old(line)@),
{
    let v = to_chars(line.as_str());
    let mut end = v.len();
    if end > 0 && v[end - 1] == '\n' {
        end -= 1;
        if end > 0 && v[end - 1] == '\r' {
            end -= 1;
        }
    }
    let kept = crate::readable::slice_to_vec(&v, 0, end);
    let ghost l = old(line)@;
    assert(kept@ =~= without_terminator(l)) by {
        if l.len() > 0 && l.last() == '\n' {
            let a = l.drop_last();
            if a.len() > 0 && a.last() == '\r' {
                assert(kept@ =~= a.drop_last());
            } else {
                assert(kept@ =~= a);
            }
        } else {
            assert(kept@ =~= l);
        }
    }
    *line = from_chars(&kept);
}

/// Whether a line is empty once trimmed, so that it is skipped.
pub fn is_blank(line: &str) -> (r: bool)
    ensures
        r == (trim(line@).len() == 0),
        r == all_ws(line@),
{
    let v = to_chars(line);
    let r = all_whitespace(&v, 0, v.len());
    assert(v@.subrange(0, v@.len() as int) =~= v@);
    proof {
        lemma_trim_empty_iff_all_ws(line@);
    }
    r
}

/// The context of a record that does not parse or validate.
pub fn record_context(path: &str, line_number: usize) -> (r: String)
    ensures
        r@ == "invalid JSONL record in "@ + path@ + " at line "@ + decimal(line_number as nat),
{
    let mut r = string_of("invalid JSONL record in ");
    append_str(&mut r, path);
    append_str(&mut r, " at line ");
    push_decimal(&mut r, line_number);
    r
}

/// The context of a line that could not be read.
pub fn read_context(path: &str, line_number: usize) -> (r: String)
    ensures
        r@ == "failed to read "@ + path@ + " at line "@ + decimal(line_number as nat),
{
    let mut r = string_of("failed to read ");
    append_str(&mut r, path);
    append_str(&mut r, " at line ");
    push_decimal(&mut r, line_number);
    r
}

/// What reading one line gives: the number of that line, and for a line that
/// holds a record the context that names it.
pub struct LineStep {
    pub line_number: usize,
    pub record_context: Option<String>,
}

/// One line read: counted, its terminator removed, and kept as a record unless
/// it is blank.
pub fn read_step(path: &str, line_number: usize, line: &mut String) -> (r: LineStep)
    requires
        line_number < usize::MAX,
    ensures
        r.line_number == line_number + 1,
        final(line)@ == without_terminator(old(line)@),
        r.record_context is Some <==> !all_ws(final(line)@),
        r.record_context matches Some(c) ==> c@ == "invalid JSONL record in "@ + path@ + " at line "@
            + decimal(r.line_number as nat),
{
    let n = line_number + 1;
    trim_jsonl_terminator(line);
    if is_blank(line.as_str()) {
        LineStep { line_number: n, record_context: None }
    } else {
        LineStep { line_number: n, record_context: Some(record_context(path, n)) }
    }
}

/// A line that could not be read: its number and the context that names it.
pub fn read_failure(path: &str, line_number: usize) -> (r: (usize, String))
    requires
        line_number < usize::MAX,
    ensures
        r.0 == line_number + 1,
        r.1@ == "failed to read "@ + path@ + " at line "@ + decimal(r.0 as nat),
{
    let n = line_number + 1;
    (n, read_context(path, n))
}

/// Why a JSONL line is not a record before its fields are read.
#[derive(Debug, Clone, Copy, PartialEq, Eq, Structural)]
pub enum JsonlError {
    NotAnObject,
}

impl JsonlError {
    pub open spec fn message_spec(&self) -> Seq<char> {
        "JSONL record must be a JSON object"@
    }

    /// The diagnostic text of the error.
    pub fn message(&self) -> (r: String)
        ensures
            r@ == self.message_spec(),
    {
        string_of("JSONL record must be a JSON object")
    }
}

/// A record line must hold a JSON object.
pub fn require_object(is_object: bool) -> (r: Result<(), JsonlError>)
    ensures
        is_object <==> r is Ok,
        r matches Err(e) ==> e == JsonlError::NotAnObject,
{
    if is_object {
        Ok(())
    } else {
        Err(JsonlError::NotAnObject)
    }
}

} // verus!
