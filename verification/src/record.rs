//! Validated dictionary names, entries and query terms.
use vstd::prelude::*;
use crate::text::{
    all_whitespace, all_ws, is_cc, is_control, is_ws, lemma_trim_end_len, lemma_trim_end_not_ws_last,
    spec_lowercase, string_of, to_chars, to_lowercase, trim, trim_bounds, trim_end, trim_start,
    trim_str,
};

verus! {

/// Why a name, an entry or a query term was refused.
#[derive(Debug, Clone, Copy, PartialEq, Eq, Structural)]
pub enum RecordError {
    EmptyDictionaryName,
    EmptyHeadword,
    ControlCharacter,
    SurroundingWhitespace,
    BlankDefinition,
    EmptyQuery,
}

impl RecordError {
    /// The diagnostic text of the error.
    pub fn message(&self) -> (r: String)
        ensures
            r@ == self.message_spec(),
    {
        match self {
            RecordError::EmptyDictionaryName => string_of("dictionary name must not be empty"),
            RecordError::EmptyHeadword => string_of("headword must be a non-empty string"),
            RecordError::ControlCharacter => string_of(
                "headword must not contain control characters",
            ),
            RecordError::SurroundingWhitespace => string_of(
                "headword must not contain leading or trailing whitespace",
            ),
            RecordError::BlankDefinition => string_of("definition must be a non-whitespace string"),
            RecordError::EmptyQuery => string_of("query headword must not be empty"),
        }
    }

    pub open spec fn message_spec(&self) -> Seq<char> {
        match self {
            RecordError::EmptyDictionaryName => "dictionary name must not be empty"@,
            RecordError::EmptyHeadword => "headword must be a non-empty string"@,
            RecordError::ControlCharacter => "headword must not contain control characters"@,
            RecordError::SurroundingWhitespace =>
                "headword must not contain leading or trailing whitespace"@,
            RecordError::BlankDefinition => "definition must be a non-whitespace string"@,
            RecordError::EmptyQuery => "query headword must not be empty"@,
        }
    }
}

/// The case-insensitive key of a name or headword.
pub open spec fn folded(s: Seq<char>) -> Seq<char> {
    spec_lowercase(s)
}

/// Unicode lower-case key used for dictionary uniqueness and headword candidates.
pub fn folded_key(value: &str) -> (r: String)
    ensures
        r@ == folded(value@),
{
    to_lowercase(value)
}

/// A dictionary name as the user wrote it, trimmed, with its case-folded key.
#[derive(Debug, Clone, PartialEq, Eq)]
pub struct DictionaryName {
    display: String,
    normalized: String,
}

impl DictionaryName {
    pub closed spec fn display_view(&self) -> Seq<char> {
        self.display@
    }

    pub closed spec fn normalized_view(&self) -> Seq<char> {
        self.normalized@
    }

    /// A name holds its trimmed, non-empty display form and that form's folded key.
    pub open spec fn wf(&self) -> bool {
        &&& self.display_view().len() > 0
        &&& trim(self.display_view()) == self.display_view()
        &&& self.normalized_view() == folded(self.display_view())
    }

    pub fn parse(raw: &str) -> (r: Result<DictionaryName, RecordError>)
        ensures
            trim(raw@).len() == 0 <==> r is Err,
            r matches Err(e) ==> e == RecordError::EmptyDictionaryName,
            r matches Ok(n) ==> n.display_view() == trim(raw@) && n.normalized_view() == folded(
                trim(raw@),
            ) && n.wf(),
    {
        let display = trim_str(raw);
        if display.as_str().is_empty() {
            return Err(RecordError::EmptyDictionaryName);
        }
        proof {
            lemma_trim_idempotent(raw@);
        }
        let normalized = folded_key(display.as_str());
        Ok(DictionaryName { display, normalized })
    }

    pub fn display(&self) -> (r: &str)
        ensures
            r@ == self.display_view(),
    {
        self.display.as_str()
    }

    pub fn normalized(&self) -> (r: &str)
        ensures
            r@ == self.normalized_view(),
    {
        self.normalized.as_str()
    }
}

/// Trimming twice changes nothing more than trimming once.
pub proof fn lemma_trim_idempotent(s: Seq<char>)
    ensures
        trim(trim(s)) == trim(s),
{
    let t = trim(s);
    lemma_trim_end_not_ws_last(s);
    lemma_trim_end_len(s);
    lemma_trim_start_suffix(trim_end(s));
    lemma_trim_start_first(trim_end(s));
    // `t` is a suffix of `trim_end(s)`, so it keeps its non-whitespace last character.
    if t.len() > 0 {
        assert(t.last() == trim_end(s).last());
        assert(!is_ws(t.last()));
        assert(trim_end(t) == t);
        assert(!is_ws(t[0]));
        assert(trim_start(t) == t);
    } else {
        assert(trim_end(t) == t);
    }
}

pub proof fn lemma_trim_start_suffix(s: Seq<char>)
    ensures
        trim_start(s) == s.skip(s.len() - trim_start(s).len()),
        trim_start(s).len() <= s.len(),
    decreases s.len(),
{
    if s.len() > 0 && is_ws(s[0]) {
        lemma_trim_start_suffix(s.drop_first());
        assert(s.drop_first().skip(s.drop_first().len() - trim_start(s).len()) =~= s.skip(
            s.len() - trim_start(s).len(),
        ));
    } else {
        assert(s.skip(0) =~= s);
    }
}

pub proof fn lemma_trim_start_first(s: Seq<char>)
    ensures
        trim_start(s).len() > 0 ==> !is_ws(trim_start(s)[0]),
    decreases s.len(),
{
    if s.len() > 0 && is_ws(s[0]) {
        lemma_trim_start_first(s.drop_first());
    }
}

/// A validated record: a headword, its folded key and a definition kept verbatim.
#[derive(Debug, Clone, PartialEq, Eq)]
pub struct Entry {
    headword: String,
    folded_headword: String,
    definition: String,
}

/// A headword is accepted when it is non-empty, free of control characters and
/// of surrounding whitespace.
pub open spec fn headword_ok(h: Seq<char>) -> bool {
    &&& h.len() > 0
    &&& forall|k: int| 0 <= k < h.len() ==> !is_cc(#[trigger] h[k])
    &&& trim(h) == h
}

/// The error `Entry::new` reports for a headword and a definition, checked in order.
pub open spec fn entry_error(h: Seq<char>, d: Seq<char>) -> Option<RecordError> {
    if h.len() == 0 {
        Some(RecordError::EmptyHeadword)
    } else if exists|k: int| 0 <= k < h.len() && is_cc(#[trigger] h[k]) {
        Some(RecordError::ControlCharacter)
    } else if trim(h) != h {
        Some(RecordError::SurroundingWhitespace)
    } else if all_ws(d) {
        Some(RecordError::BlankDefinition)
    } else {
        None
    }
}

impl Entry {
    pub closed spec fn headword_view(&self) -> Seq<char> {
        self.headword@
    }

    pub closed spec fn folded_view(&self) -> Seq<char> {
        self.folded_headword@
    }

    pub closed spec fn definition_view(&self) -> Seq<char> {
        self.definition@
    }

    pub open spec fn wf(&self) -> bool {
        &&& headword_ok(self.headword_view())
        &&& self.folded_view() == folded(self.headword_view())
        &&& !all_ws(self.definition_view())
    }

    pub fn new(headword: String, definition: String) -> (r: Result<Entry, RecordError>)
        ensures
            r matches Err(e) ==> entry_error(headword@, definition@) == Some(e),
            r is Ok <==> entry_error(headword@, definition@) is None,
            r matches Ok(entry) ==> entry.headword_view() == headword@ && entry.definition_view()
                == definition@ && entry.folded_view() == folded(headword@) && entry.wf(),
    {
        let h = to_chars(headword.as_str());
        if h.len() == 0 {
            return Err(RecordError::EmptyHeadword);
        }
        let mut i: usize = 0;
        while i < h.len()
            invariant
                i <= h.len(),
                h@ == headword@,
                forall|k: int| 0 <= k < i ==> !is_cc(#[trigger] h@[k]),
            decreases h.len() - i,
        {
            if is_control(h[i]) {
                return Err(RecordError::ControlCharacter);
            }
            i += 1;
        }
        let (b, e) = trim_bounds(&h, 0, h.len());
        assert(h@.subrange(0, h@.len() as int) =~= h@);
        if b != 0 || e != h.len() {
            proof {
                if trim(h@) == h@ {
                    assert(h@.subrange(b as int, e as int).len() == h@.len());
                }
            }
            return Err(RecordError::SurroundingWhitespace);
        }
        assert(h@.subrange(b as int, e as int) =~= h@);
        let d = to_chars(definition.as_str());
        if all_whitespace(&d, 0, d.len()) {
            assert(d@.subrange(0, d@.len() as int) =~= d@);
            return Err(RecordError::BlankDefinition);
        }
        assert(d@.subrange(0, d@.len() as int) =~= d@);
        let folded_headword = folded_key(headword.as_str());
        Ok(Entry { headword, folded_headword, definition })
    }

    pub fn headword(&self) -> (r: &str)
        ensures
            r@ == self.headword_view(),
    {
        self.headword.as_str()
    }

    pub fn folded_headword(&self) -> (r: &str)
        ensures
            r@ == self.folded_view(),
    {
        self.folded_headword.as_str()
    }

    pub fn definition(&self) -> (r: &str)
        ensures
            r@ == self.definition_view(),
    {
        self.definition.as_str()
    }
}

/// One query headword: trimmed input and its folded candidate key.
#[derive(Debug, Clone)]
pub struct QueryTerm {
    text: String,
    folded: String,
}

impl QueryTerm {
    pub closed spec fn text_view(&self) -> Seq<char> {
        self.text@
    }

    pub closed spec fn folded_view(&self) -> Seq<char> {
        self.folded@
    }

    /// A term holds trimmed, non-empty text and that text's folded key.
    pub open spec fn wf(&self) -> bool {
        &&& self.text_view().len() > 0
        &&& trim(self.text_view()) == self.text_view()
        &&& self.folded_view() == folded(self.text_view())
    }

    pub fn parse(raw: &str) -> (r: Result<QueryTerm, RecordError>)
        ensures
            trim(raw@).len() == 0 <==> r is Err,
            r matches Err(e) ==> e == RecordError::EmptyQuery,
            r matches Ok(t) ==> t.text_view() == trim(raw@) && t.folded_view() == folded(
                trim(raw@),
            ) && t.wf(),
    {
        let text = trim_str(raw);
        if text.as_str().is_empty() {
            return Err(RecordError::EmptyQuery);
        }
        proof {
            lemma_trim_idempotent(raw@);
        }
        let folded = folded_key(text.as_str());
        Ok(QueryTerm { text, folded })
    }

    pub fn text(&self) -> (r: &str)
        ensures
            r@ == self.text_view(),
    {
        self.text.as_str()
    }

    pub fn folded(&self) -> (r: &str)
        ensures
            r@ == self.folded_view(),
    {
        self.folded.as_str()
    }
}

/// Parsing a name's display form again gives the same name: the display form of a
/// parsed name is already trimmed and non-empty, so `parse` is idempotent.
pub proof fn law_dictionary_name_parse_idempotent(raw: Seq<char>)
    requires
        trim(raw).len() > 0,
    ensures
        trim(trim(raw)) == trim(raw),
        trim(trim(raw)).len() > 0,
        folded(trim(trim(raw))) == folded(trim(raw)),
{
    lemma_trim_idempotent(raw);
}

} // verus!
