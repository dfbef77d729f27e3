//! The storage rules that sit between the database calls: schema versions,
//! dictionary scopes, the lookup statement, and import and removal decisions.
use vstd::prelude::*;
use crate::record::DictionaryName;
use crate::text::{append_str, decimal, push_char, push_decimal, push_decimal_u64, string_of};

verus! {

/// The schema version this library writes and reads.
pub const SCHEMA_VERSION: i32 = 1;

/// Why a storage operation was refused.
#[derive(Debug, Clone, PartialEq, Eq)]
pub enum StorageError {
    UnknownDictionary(String),
    AlreadyExists(String),
    UnsupportedSchema(i32),
    NoDictionaries,
}

/// The decimal form of a signed number, as `i32::to_string` writes it.
pub open spec fn signed_decimal(v: int) -> Seq<char> {
    if v < 0 {
        seq!['-'] + decimal((-v) as nat)
    } else {
        decimal(v as nat)
    }
}

impl StorageError {
    pub open spec fn message_spec(&self) -> Seq<char> {
        match self {
            StorageError::UnknownDictionary(n) => "unknown dictionary '"@ + n@ + "'"@,
            StorageError::AlreadyExists(n) => "dictionary '"@ + n@ + "' already exists"@,
            StorageError::UnsupportedSchema(v) => "unsupported SQLite schema version "@
                + signed_decimal(*v as int) + "; this lexi supports up to "@ + decimal(
                SCHEMA_VERSION as nat,
            ),
            StorageError::NoDictionaries => "no dictionaries are installed"@,
        }
    }

    /// The diagnostic text of the error.
    pub fn message(&self) -> (r: String)
        ensures
            r@ == self.message_spec(),
    {
        match self {
            StorageError::UnknownDictionary(n) => {
                let mut r = string_of("unknown dictionary '");
                append_str(&mut r, n.as_str());
                append_str(&mut r, "'");
                r
            },
            StorageError::AlreadyExists(n) => {
                let mut r = string_of("dictionary '");
                append_str(&mut r, n.as_str());
                append_str(&mut r, "' already exists");
                r
            },
            StorageError::UnsupportedSchema(v) => {
                let mut r = string_of("unsupported SQLite schema version ");
                if *v < 0 {
                    push_char(&mut r, '-');
                    let magnitude: u64 = (0i64 - (*v as i64)) as u64;
                    push_decimal_u64(&mut r, magnitude);
                    assert(r@ =~= "unsupported SQLite schema version "@ + signed_decimal(*v as int));
                } else {
                    push_decimal_u64(&mut r, *v as u64);
                }
                append_str(&mut r, "; this lexi supports up to ");
                push_decimal_u64(&mut r, SCHEMA_VERSION as u64);
                r
            },
            StorageError::NoDictionaries => string_of("no dictionaries are installed"),
        }
    }
}

/// What opening a database does at a stored schema version: `Ok(true)` when the
/// schema must be created, `Ok(false)` when it is current.
pub fn schema_plan(version: i32) -> (r: Result<bool, StorageError>)
    ensures
        version > SCHEMA_VERSION ==> r == Err::<bool, StorageError>(
            StorageError::UnsupportedSchema(version),
        ),
        version <= SCHEMA_VERSION ==> r == Ok::<bool, StorageError>(version == 0),
{
    if version > SCHEMA_VERSION {
        Err(StorageError::UnsupportedSchema(version))
    } else {
        Ok(version == 0)
    }
}

/// A stored entry as a lookup returns it.
#[derive(Debug, Clone, PartialEq, Eq)]
pub struct StoredEntry {
    dictionary_name: String,
    headword: String,
    definition: String,
}

impl StoredEntry {
    pub closed spec fn dictionary_name_view(&self) -> Seq<char> {
        self.dictionary_name@
    }

    pub closed spec fn headword_view(&self) -> Seq<char> {
        self.headword@
    }

    pub closed spec fn definition_view(&self) -> Seq<char> {
        self.definition@
    }

    pub fn new(dictionary_name: String, headword: String, definition: String) -> (r: StoredEntry)
        ensures
            r.dictionary_name_view() == dictionary_name@,
            r.headword_view() == headword@,
            r.definition_view() == definition@,
    {
        StoredEntry { dictionary_name, headword, definition }
    }

    pub fn dictionary_name(&self) -> (r: &str)
        ensures
            r@ == self.dictionary_name_view(),
    {
        self.dictionary_name.as_str()
    }

    pub fn headword(&self) -> (r: &str)
        ensures
            r@ == self.headword_view(),
    {
        self.headword.as_str()
    }

    pub fn definition(&self) -> (r: &str)
        ensures
            r@ == self.definition_view(),
    {
        self.definition.as_str()
    }
}

/// Selected dictionaries for a lookup: `None` is every dictionary.
#[derive(Debug)]
pub struct DictionaryScope {
    ids: Option<Vec<i64>>,
}

impl DictionaryScope {
    pub closed spec fn ids_view(&self) -> Option<Seq<i64>> {
        match &self.ids {
            Some(v) => Some(v@),
            None => None,
        }
    }

    /// Every dictionary.
    pub fn all() -> (r: DictionaryScope)
        ensures
            r.ids_view() is None,
    {
        DictionaryScope { ids: None }
    }

    /// The ids of the selected dictionaries, or `None` for all of them.
    pub fn ids(&self) -> (r: Option<&Vec<i64>>)
        ensures
            self.ids_view() is None <==> r is None,
            r matches Some(v) ==> self.ids_view() == Some(v@),
    {
        match &self.ids {
            Some(v) => Some(v),
            None => None,
        }
    }
}

/// The scope of a lookup from the requested names and, for each, the id that the
/// database holds for its normalized form. No names means every dictionary; an
/// unknown name refuses the lookup, naming the first one.
pub fn resolve_scope(names: &Vec<DictionaryName>, found: &Vec<Option<i64>>) -> (r: Result<
    DictionaryScope,
    StorageError,
>)
    requires
        names.len() == found.len(),
    ensures
        r is Ok <==> forall|k: int| 0 <= k < found@.len() ==> #[trigger] found@[k] is Some,
        names.len() == 0 ==> (r matches Ok(s) && s.ids_view() is None),
        names.len() > 0 ==> (r matches Ok(s) ==> (s.ids_view() matches Some(ids) && ids.len()
            == found.len() && forall|k: int| 0 <= k < ids.len() ==> Some(#[trigger] ids[k])
            == found@[k])),
        r matches Err(e) ==> exists|k: int|
            0 <= k < found@.len() && #[trigger] found@[k] is None && (forall|j: int|
                0 <= j < k ==> #[trigger] found@[j] is Some) && (e matches StorageError::UnknownDictionary(
                n,
            ) && n@ == names@[k].display_view()),
{
    if names.len() == 0 {
        return Ok(DictionaryScope::all());
    }
    let mut ids: Vec<i64> = Vec::new();
    let mut k: usize = 0;
    while k < found.len()
        invariant
            k <= found.len(),
            names.len() == found.len(),
            ids@.len() == k,
            forall|j: int| 0 <= j < k ==> Some(#[trigger] ids@[j]) == found@[j],
            forall|j: int| 0 <= j < k ==> #[trigger] found@[j] is Some,
        decreases found.len() - k,
    {
        match found[k] {
            Some(id) => ids.push(id),
            None => {
                let n = string_of(names[k].display());
                assert(found@[k as int] is None);
                assert(0 <= k < found@.len() && found@[k as int] is None && (forall|j: int|
                    0 <= j < k ==> #[trigger] found@[j] is Some));
                return Err(StorageError::UnknownDictionary(n));
            },
        }
        k += 1;
    }
    Ok(DictionaryScope { ids: Some(ids) })
}

/// `?2, ?3, ...` up to `?{n + 1}`.
pub open spec fn placeholders(n: nat) -> Seq<char>
    decreases n,
{
    if n == 0 {
        Seq::empty()
    } else if n == 1 {
        "?2"@
    } else {
        placeholders((n - 1) as nat) + ", ?"@ + decimal(n + 1)
    }
}

pub open spec fn lookup_sql_spec(dictionary_count: Option<usize>) -> Seq<char> {
    let base = "SELECT d.name, e.headword, e.definition FROM entries e JOIN dictionaries d ON d.id = e.dictionary_id WHERE e.folded_headword = ?1"@;
    let filter = match dictionary_count {
        Some(n) => " AND e.dictionary_id IN ("@ + placeholders(n as nat) + ")"@,
        None => Seq::empty(),
    };
    base + filter + " ORDER BY e.id"@
}

/// The entry lookup: the folded headword is `?1`, the selected dictionary ids
/// follow it, and rows come in primary-key order.
pub fn lookup_sql(dictionary_count: Option<usize>) -> (r: String)
    requires
        dictionary_count matches Some(n) ==> n < usize::MAX,
    ensures
        r@ == lookup_sql_spec(dictionary_count),
{
    let mut sql = string_of(
        "SELECT d.name, e.headword, e.definition FROM entries e JOIN dictionaries d ON d.id = e.dictionary_id WHERE e.folded_headword = ?1",
    );
    let ghost base = sql@;
    match dictionary_count {
        Some(count) => {
            append_str(&mut sql, " AND e.dictionary_id IN (");
            let ghost open = sql@;
            let mut i: usize = 0;
            while i < count
                invariant
                    i <= count,
                    count < usize::MAX,
                    sql@ == open + placeholders(i as nat),
                decreases count - i,
            {
                if i > 0 {
                    append_str(&mut sql, ", ");
                }
                push_char(&mut sql, '?');
                push_decimal(&mut sql, i + 2);
                proof {
                    reveal_strlit(", ");
                    reveal_strlit("?2");
                    reveal_strlit(", ?");
                    if i == 0 {
                        assert(decimal(2) == seq!['2']);
                        assert(placeholders(1) =~= seq!['?', '2']);
                        assert(sql@ =~= open + placeholders(1));
                    } else {
                        assert(sql@ =~= open + placeholders((i + 1) as nat));
                    }
                }
                i += 1;
            }
            push_char(&mut sql, ')');
            proof {
                reveal_strlit(")");
            }
            assert(sql@ =~= base + (" AND e.dictionary_id IN ("@ + placeholders(count as nat) + ")"@));
        },
        None => {
            assert(sql@ =~= base + Seq::<char>::empty());
        },
    }
    append_str(&mut sql, " ORDER BY e.id");
    sql
}

/// The statement a lookup in a scope runs, or `None` when the scope selects no
/// dictionary and nothing can match.
pub fn lookup_query(scope: &DictionaryScope) -> (r: Option<String>)
    requires
        scope.ids_view() matches Some(ids) ==> ids.len() < usize::MAX,
    ensures
        scope.ids_view() is None ==> (r matches Some(s) && s@ == lookup_sql_spec(None)),
        scope.ids_view() matches Some(ids) ==> (ids.len() == 0 ==> r is None),
        scope.ids_view() matches Some(ids) ==> (ids.len() > 0 ==> (r matches Some(s) && s@
            == lookup_sql_spec(Some(ids.len() as usize)))),
{
    match scope.ids() {
        None => Some(lookup_sql(None)),
        Some(ids) => {
            if ids.len() == 0 {
                None
            } else {
                Some(lookup_sql(Some(ids.len())))
            }
        },
    }
}

/// How an import ended: a new dictionary or a replaced one, with its entry count.
#[derive(Debug, Clone, Copy, PartialEq, Eq, Structural)]
pub enum ImportOutcome {
    Created(u64),
    Replaced(u64),
}

/// What an import does about a dictionary that already has its normalized name:
/// `Ok(None)` creates a new one, `Ok(Some(id))` replaces that one, and without
/// `replace_existing` an existing one is refused under its stored name.
pub fn import_target(existing: Option<(i64, String)>, replace_existing: bool) -> (r: Result<
    Option<i64>,
    StorageError,
>)
    ensures
        existing is None ==> r == Ok::<Option<i64>, StorageError>(None),
        replace_existing ==> (existing matches Some((id, _)) ==> r == Ok::<
            Option<i64>,
            StorageError,
        >(Some(id))),
        !replace_existing ==> (existing matches Some((_, n)) ==> (r matches Err(
            StorageError::AlreadyExists(m),
        ) && m@ == n@)),
{
    match existing {
        None => Ok(None),
        Some((id, name)) => {
            if replace_existing {
                Ok(Some(id))
            } else {
                Err(StorageError::AlreadyExists(name))
            }
        },
    }
}

/// The outcome of a finished import.
pub fn import_outcome(replaced: bool, count: u64) -> (r: ImportOutcome)
    ensures
        replaced ==> r == ImportOutcome::Replaced(count),
        !replaced ==> r == ImportOutcome::Created(count),
{
    if replaced {
        ImportOutcome::Replaced(count)
    } else {
        ImportOutcome::Created(count)
    }
}

/// What a removal reports: the stored name and entry count of the dictionary,
/// or the refusal of a name that no dictionary has.
pub fn removal_target(existing: Option<(String, u64)>, name: &DictionaryName) -> (r: Result<
    (String, u64),
    StorageError,
>)
    ensures
        existing matches Some((n, c)) ==> (r matches Ok((m, d)) && m@ == n@ && d == c),
        existing is None ==> (r matches Err(StorageError::UnknownDictionary(m)) && m@
            == name.display_view()),
{
    match existing {
        Some((n, c)) => Ok((n, c)),
        None => Err(StorageError::UnknownDictionary(string_of(name.display()))),
    }
}

/// A lookup needs at least one installed dictionary.
pub fn require_installed(has_any_dictionary: bool) -> (r: Result<(), StorageError>)
    ensures
        has_any_dictionary <==> r is Ok,
        r matches Err(e) ==> e == StorageError::NoDictionaries,
{
    if has_any_dictionary {
        Ok(())
    } else {
        Err(StorageError::NoDictionaries)
    }
}

pub open spec fn import_report_spec(outcome: ImportOutcome, name: Seq<char>) -> Seq<char> {
    match outcome {
        ImportOutcome::Created(c) => "Imported "@ + name + ": "@ + decimal(c as nat) + " entries\n"@,
        ImportOutcome::Replaced(c) => "Replaced "@ + name + ": "@ + decimal(c as nat) + " entries\n"@,
    }
}

/// The line an import reports.
pub fn write_import_report(out: &mut String, outcome: ImportOutcome, name: &DictionaryName)
    ensures
        final(out)@ == old(out)@ + import_report_spec(outcome, name.display_view()),
{
    let count = match outcome {
        ImportOutcome::Created(c) => {
            append_str(out, "Imported ");
            c
        },
        ImportOutcome::Replaced(c) => {
            append_str(out, "Replaced ");
            c
        },
    };
    append_str(out, name.display());
    append_str(out, ": ");
    push_decimal_u64(out, count);
    append_str(out, " entries\n");
    assert(out@ =~= old(out)@ + import_report_spec(outcome, name.display_view()));
}

/// The line a removal reports.
pub fn write_removal_report(out: &mut String, name: &str, count: u64)
    ensures
        final(out)@ == old(out)@ + "Removed "@ + name@ + ": "@ + decimal(count as nat)
            + " entries\n"@,
{
    append_str(out, "Removed ");
    append_str(out, name);
    append_str(out, ": ");
    push_decimal_u64(out, count);
    append_str(out, " entries\n");
    assert(out@ =~= old(out)@ + "Removed "@ + name@ + ": "@ + decimal(count as nat)
        + " entries\n"@);
}

/// One line of the dictionary list: the name, a tab and the entry count.
pub fn write_list_line(out: &mut String, name: &str, count: u64)
    ensures
        final(out)@ == old(out)@ + name@ + "\t"@ + decimal(count as nat) + "\n"@,
{
    append_str(out, name);
    append_str(out, "\t");
    push_decimal_u64(out, count);
    append_str(out, "\n");
    assert(out@ =~= old(out)@ + name@ + "\t"@ + decimal(count as nat) + "\n"@);
}

/// Where the data directory comes from.
#[derive(Debug, Clone, Copy, PartialEq, Eq, Structural)]
pub enum DataHome {
    /// `$XDG_DATA_HOME`.
    XdgDataHome,
    /// `$HOME/.local/share`.
    HomeLocalShare,
    /// Neither is usable.
    Unknown,
}

pub open spec fn data_home_spec(xdg_data_home: Option<Seq<char>>, home: Option<Seq<char>>) -> DataHome {
    if xdg_data_home matches Some(x) && x.len() > 0 && x[0] == '/' {
        DataHome::XdgDataHome
    } else if home matches Some(h) && h.len() > 0 {
        DataHome::HomeLocalShare
    } else {
        DataHome::Unknown
    }
}

/// `$XDG_DATA_HOME` when it is set to an absolute path, otherwise `$HOME` when it
/// is set and not empty.
pub fn data_home(xdg_data_home: Option<&str>, home: Option<&str>) -> (r: DataHome)
    ensures
        r == data_home_spec(
            match xdg_data_home {
                Some(x) => Some(x@),
                None => None,
            },
            match home {
                Some(h) => Some(h@),
                None => None,
            },
        ),
{
    if let Some(x) = xdg_data_home {
        let v = crate::text::to_chars(x);
        if v.len() > 0 && v[0] == '/' {
            return DataHome::XdgDataHome;
        }
    }
    if let Some(h) = home {
        if !h.is_empty() {
            return DataHome::HomeLocalShare;
        }
    }
    DataHome::Unknown
}

} // verus!
