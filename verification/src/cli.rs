//! Command-line modes: which one the arguments select and which options each
//! mode accepts.
use vstd::prelude::*;
use std::path::PathBuf;
use crate::text::{append_str, string_of, trim, trim_str};

verus! {

#[verifier::external_type_specification]
#[verifier::external_body]
pub struct ExPathBuf(PathBuf);

/// The package version printed by `--version`.
pub const VERSION: &'static str = "0.1.0";

/// The parsed command line, before the mode rules are applied.
#[derive(Debug)]
pub struct Cli {
    pub headwords: Vec<String>,
    pub dictionary: Vec<String>,
    pub show_dictionary: bool,
    pub raw: bool,
    pub full: bool,
    pub import: Option<PathBuf>,
    pub name: Option<String>,
    pub force: bool,
    pub list: bool,
    pub remove: Option<String>,
    pub help: bool,
    pub version: bool,
}

/// The one operation an invocation performs.
#[derive(Debug, PartialEq, Eq)]
pub enum Mode {
    Help,
    Version,
    Query { headwords: Vec<String>, dictionaries: Vec<String>, show_dictionary: bool, raw: bool, full: bool },
    Import { path: PathBuf, name: String, force: bool },
    List,
    Remove { name: String },
}

/// Why a command line was refused.
#[derive(Debug, Clone, Copy, PartialEq, Eq, Structural)]
pub enum ArgumentError {
    NoMode,
    ConflictingModes,
    HelpWithOptions,
    ImportOptionsOutsideImport,
    RawWithFull,
    QueryOptionsOutsideQuery,
    MissingImportName,
    EmptyImportName,
    ListWithOptions,
    RemoveWithOptions,
}

impl ArgumentError {
    pub open spec fn message_spec(&self) -> Seq<char> {
        match self {
            ArgumentError::NoMode =>
                "one mode is required: HEADWORD, --import, --list, --remove, --help, or --version"@,
            ArgumentError::ConflictingModes =>
                "query, --import, --list, --remove, --help, and --version modes are mutually exclusive"@,
            ArgumentError::HelpWithOptions => "--help and --version do not accept business options"@,
            ArgumentError::ImportOptionsOutsideImport => "--name and --force are only valid with --import"@,
            ArgumentError::RawWithFull => "--raw and --full cannot be used together"@,
            ArgumentError::QueryOptionsOutsideQuery =>
                "--dictionary, --show-dictionary, --raw, and --full are only valid with query mode"@,
            ArgumentError::MissingImportName => "--import requires --name <NAME>"@,
            ArgumentError::EmptyImportName => "--import requires a non-empty --name <NAME>"@,
            ArgumentError::ListWithOptions => "--list does not accept import or query options"@,
            ArgumentError::RemoveWithOptions => "--remove does not accept import or query options"@,
        }
    }

    /// The diagnostic text of the error.
    pub fn message(&self) -> (r: String)
        ensures
            r@ == self.message_spec(),
    {
        match self {
            ArgumentError::NoMode => string_of(
                "one mode is required: HEADWORD, --import, --list, --remove, --help, or --version",
            ),
            ArgumentError::ConflictingModes => string_of(
                "query, --import, --list, --remove, --help, and --version modes are mutually exclusive",
            ),
            ArgumentError::HelpWithOptions => string_of(
                "--help and --version do not accept business options",
            ),
            ArgumentError::ImportOptionsOutsideImport => string_of(
                "--name and --force are only valid with --import",
            ),
            ArgumentError::RawWithFull => string_of("--raw and --full cannot be used together"),
            ArgumentError::QueryOptionsOutsideQuery => string_of(
                "--dictionary, --show-dictionary, --raw, and --full are only valid with query mode",
            ),
            ArgumentError::MissingImportName => string_of("--import requires --name <NAME>"),
            ArgumentError::EmptyImportName => string_of(
                "--import requires a non-empty --name <NAME>",
            ),
            ArgumentError::ListWithOptions => string_of(
                "--list does not accept import or query options",
            ),
            ArgumentError::RemoveWithOptions => string_of(
                "--remove does not accept import or query options",
            ),
        }
    }
}

pub open spec fn flag(b: bool) -> nat {
    if b { 1 } else { 0 }
}

/// How many modes the command line asks for.
pub open spec fn active_modes(c: &Cli) -> nat {
    flag(c.headwords@.len() > 0) + flag(c.import is Some) + flag(c.list) + flag(c.remove is Some)
        + flag(c.help) + flag(c.version)
}

/// Options that only an import takes.
pub open spec fn has_import_options(c: &Cli) -> bool {
    c.name is Some || c.force
}

/// Options that only a query takes.
pub open spec fn has_query_options(c: &Cli) -> bool {
    c.dictionary@.len() > 0 || c.show_dictionary || c.raw || c.full
}

/// The error a command line is refused with, if any.
pub open spec fn validation_error(c: &Cli) -> Option<ArgumentError> {
    let business = has_import_options(c) || has_query_options(c);
    if active_modes(c) == 0 {
        Some(ArgumentError::NoMode)
    } else if active_modes(c) > 1 {
        Some(ArgumentError::ConflictingModes)
    } else if c.help || c.version {
        if business { Some(ArgumentError::HelpWithOptions) } else { None }
    } else if c.headwords@.len() > 0 {
        if has_import_options(c) {
            Some(ArgumentError::ImportOptionsOutsideImport)
        } else if c.raw && c.full {
            Some(ArgumentError::RawWithFull)
        } else {
            None
        }
    } else if c.import is Some {
        if has_query_options(c) {
            Some(ArgumentError::QueryOptionsOutsideQuery)
        } else if c.name is None {
            Some(ArgumentError::MissingImportName)
        } else if trim(c.name->0@).len() == 0 {
            Some(ArgumentError::EmptyImportName)
        } else {
            None
        }
    } else if c.list {
        if business { Some(ArgumentError::ListWithOptions) } else { None }
    } else {
        if business { Some(ArgumentError::RemoveWithOptions) } else { None }
    }
}

/// The mode an accepted command line selects, with the values it carries.
pub open spec fn selects(c: &Cli, m: &Mode) -> bool {
    if c.help {
        m is Help
    } else if c.version {
        m is Version
    } else if c.headwords@.len() > 0 {
        m matches Mode::Query { headwords, dictionaries, show_dictionary, raw, full }
            && headwords@ == c.headwords@ && dictionaries@ == c.dictionary@
            && show_dictionary == c.show_dictionary && raw == c.raw && full == c.full
    } else if c.import is Some {
        m matches Mode::Import { path, name, force } && path == c.import->0 && name@ == trim(
            c.name->0@,
        ) && force == c.force
    } else if c.list {
        m is List
    } else {
        m matches Mode::Remove { name } && name == c.remove->0
    }
}

/// `Err(error)` exactly when the condition holds.
pub fn reject_if(condition: bool, error: ArgumentError) -> (r: Result<(), ArgumentError>)
    ensures
        condition ==> r == Err::<(), ArgumentError>(error),
        !condition ==> r is Ok,
{
    if condition {
        Err(error)
    } else {
        Ok(())
    }
}

/// Applies the mode rules: exactly one mode, and only the options that mode takes.
pub fn validate(cli: Cli) -> (r: Result<Mode, ArgumentError>)
    ensures
        r is Err <==> validation_error(&cli) is Some,
        r matches Err(e) ==> validation_error(&cli) == Some(e),
        r matches Ok(m) ==> selects(&cli, &m),
{
    let has_query = cli.headwords.len() > 0;
    let has_import = cli.import.is_some();
    let has_list = cli.list;
    let has_remove = cli.remove.is_some();
    let flags = [has_query, has_import, has_list, has_remove, cli.help, cli.version];
    let mut mode_count: usize = 0;
    let mut k: usize = 0;
    while k < 6
        invariant
            k <= 6,
            flags@ == seq![has_query, has_import, has_list, has_remove, cli.help, cli.version],
            mode_count == (if k >= 1 { flag(has_query) } else { 0 }) + (if k >= 2 {
                flag(has_import)
            } else {
                0
            }) + (if k >= 3 { flag(has_list) } else { 0 }) + (if k >= 4 {
                flag(has_remove)
            } else {
                0
            }) + (if k >= 5 { flag(cli.help) } else { 0 }) + (if k >= 6 {
                flag(cli.version)
            } else {
                0
            }),
        decreases 6 - k,
    {
        if flags[k] {
            mode_count += 1;
        }
        k += 1;
    }
    assert(mode_count == active_modes(&cli));
    if mode_count == 0 {
        return Err(ArgumentError::NoMode);
    }
    if mode_count > 1 {
        return Err(ArgumentError::ConflictingModes);
    }
    let import_options = cli.name.is_some() || cli.force;
    let query_options = cli.dictionary.len() > 0 || cli.show_dictionary || cli.raw || cli.full;
    if cli.help || cli.version {
        reject_if(import_options || query_options, ArgumentError::HelpWithOptions)?;
        return Ok(if cli.help { Mode::Help } else { Mode::Version });
    }
    if has_query {
        reject_if(import_options, ArgumentError::ImportOptionsOutsideImport)?;
        reject_if(cli.raw && cli.full, ArgumentError::RawWithFull)?;
        return Ok(
            Mode::Query {
                headwords: cli.headwords,
                dictionaries: cli.dictionary,
                show_dictionary: cli.show_dictionary,
                raw: cli.raw,
                full: cli.full,
            },
        );
    }
    if has_import {
        reject_if(query_options, ArgumentError::QueryOptionsOutsideQuery)?;
        let name = match &cli.name {
            Some(n) => trim_str(n.as_str()),
            None => {
                return Err(ArgumentError::MissingImportName);
            },
        };
        if name.as_str().is_empty() {
            return Err(ArgumentError::EmptyImportName);
        }
        let force = cli.force;
        return match cli.import {
            Some(path) => Ok(Mode::Import { path, name, force }),
            None => Err(ArgumentError::NoMode),
        };
    }
    if has_list {
        reject_if(import_options || query_options, ArgumentError::ListWithOptions)?;
        return Ok(Mode::List);
    }
    reject_if(import_options || query_options, ArgumentError::RemoveWithOptions)?;
    match cli.remove {
        Some(name) => Ok(Mode::Remove { name }),
        None => Err(ArgumentError::NoMode),
    }
}

/// The mode of an invocation: with no argument beyond the program name it is
/// help; otherwise the mode rules decide.
pub fn select_mode(argument_count: usize, cli: Cli) -> (r: Result<Mode, ArgumentError>)
    ensures
        argument_count <= 1 ==> r matches Ok(Mode::Help),
        argument_count > 1 ==> (r is Err <==> validation_error(&cli) is Some),
        argument_count > 1 ==> (r matches Err(e) ==> validation_error(&cli) == Some(e)),
        argument_count > 1 ==> (r matches Ok(m) ==> selects(&cli, &m)),
{
    if argument_count <= 1 {
        return Ok(Mode::Help);
    }
    validate(cli)
}

/// An accepted command line asks for exactly one mode and carries no option that
/// its mode does not take.
pub proof fn law_accepted_command_lines_select_one_mode(c: &Cli)
    requires
        validation_error(c) is None,
    ensures
        active_modes(c) == 1,
        (c.help || c.version || c.list || c.remove is Some) ==> !has_import_options(c)
            && !has_query_options(c),
        c.headwords@.len() > 0 ==> !has_import_options(c) && !(c.raw && c.full),
        c.import is Some ==> !has_query_options(c) && c.name is Some && trim(c.name->0@).len()
            > 0,
{
}

/// Writes the version line.
pub fn write_version(out: &mut String)
    ensures
        final(out)@ == old(out)@ + "lexi "@ + VERSION@ + "\n"@,
{
    append_str(out, "lexi ");
    append_str(out, VERSION);
    append_str(out, "\n");
    assert(out@ =~= old(out)@ + "lexi "@ + VERSION@ + "\n"@);
}

} // verus!
