# lexi

An offline dictionary lookup tool. Dictionaries are imported from strict JSONL
files into a local SQLite database; queries look headwords up exactly, with a
case-insensitive fallback, and print the stored definitions as plain text or
as a readable layout of recognized dictionary HTML.

The library under `src/` is verified with Verus:

- `text` — character classes and string helpers stated over `Seq<char>`.
- `record` — dictionary names, entries and query terms with their validation rules.
- `readable` — the generic HTML-to-text conversion of definitions.
- `structured` — the complexity scan, the HTML5 tree of a definition and the
  recognized article layout (groups, senses, examples, etymology).
- `output` — title lines, wrapping and styling, structured articles with the
  omission footer, verbatim and readable records, and misses.
- `query` — the exact-match selection and the records or miss of each term.
- `storage` — schema versions, dictionary scopes, the lookup statement, and the
  import, removal and report decisions.
- `cli` — the mode rules of the command line.
- `jsonl` — the line rules of JSONL input.
- `styling` — what colour adds to a record: style codes and nothing else.

`app/` is the program around it: clap parsing and help text, the SQLite
database, JSONL files, terminal detection and the standard streams.
