//! Text layout of query results: titles, verbatim or readable definitions,
//! structured articles with their omission footer, and misses.
#![verifier::loop_isolation(false)]
use vstd::prelude::*;
use crate::readable::{
    contains_html_tag, html_to_text, spec_contains_html_tag, spec_html_to_text, split_lines,
    split_newlines,
};
use crate::structured::{
    parse, reference_lines, reference_targets, spec_parse, spec_reference_targets, strings_view,
    Block, BlockView, lines_view, blocks_view, block_view, lemma_blocks_view_index,
    lemma_blocks_view_len, push_reference_lines,
};
use crate::text::{
    all_whitespace, all_ws, append_str, str_eq, decimal, push_char, push_decimal, spaces, string_of,
    to_chars, trim_end, trim_end_bound,
};

verus! {

/// Terminal facts that shape rendering: a width to wrap at and whether to style.
#[derive(Clone, Copy, Debug)]
pub struct Terminal {
    pub width: Option<usize>,
    pub color: bool,
}

impl Default for Terminal {
    fn default() -> (r: Terminal)
        ensures
            r.width is None,
            !r.color,
    {
        Terminal { width: None, color: false }
    }
}

/// Query output options.
#[derive(Clone, Copy, Debug)]
pub struct Options {
    pub show_dictionary: bool,
    pub raw: bool,
    pub full: bool,
    pub terminal: Terminal,
}

impl Default for Options {
    fn default() -> (r: Options)
        ensures
            !r.show_dictionary,
            !r.raw,
            !r.full,
            r.terminal.width is None,
            !r.terminal.color,
    {
        Options { show_dictionary: false, raw: false, full: false, terminal: Terminal::default() }
    }
}

#[derive(Clone, Copy, Debug, PartialEq, Eq, Structural)]
pub enum Style {
    Plain,
    Heading,
    Muted,
}

pub open spec fn style_code(s: Style) -> Seq<char> {
    match s {
        Style::Plain => Seq::empty(),
        Style::Heading => "\x1b[1m"@,
        Style::Muted => "\x1b[2m"@,
    }
}

/// What `textwrap::fill` returns for `text` at `width` with the two indents.
pub uninterp spec fn spec_fill(
    text: Seq<char>,
    width: usize,
    initial: Seq<char>,
    subsequent: Seq<char>,
) -> Seq<char>;

/// The column width `textwrap::core::display_width` measures.
pub uninterp spec fn spec_display_width(s: Seq<char>) -> usize;

/// `textwrap::fill` with `textwrap::Options::new(width)` and the two indents.
#[verifier::external_body]
fn fill(text: &str, width: usize, initial: &str, subsequent: &str) -> (r: String)
    requires
        width >= 1,
    ensures
        r@ == spec_fill(text@, width, initial@, subsequent@),
{
    textwrap::fill(text, textwrap::Options::new(width).initial_indent(initial).subsequent_indent(subsequent))
}

/// `textwrap::core::display_width`.
#[verifier::external_body]
fn display_width(s: &str) -> (r: usize)
    ensures
        r == spec_display_width(s@),
{
    textwrap::core::display_width(s)
}

pub open spec fn reset_code() -> Seq<char> {
    "\x1b[0m"@
}

/// The text of a line before styling: wrapped at the terminal width with the
/// indents (an indent wider than the width less two columns is dropped), or
/// prefixed by the first indent when there is no width.
pub open spec fn spec_rendered(text: Seq<char>, initial: Seq<char>, cont: Seq<char>, t: Terminal) -> Seq<char> {
    match t.width {
        Some(w) => {
            let w1: usize = if w < 1 { 1 } else { w };
            let room: int = if w1 >= 2 { w1 - 2 } else { 0 };
            let i2 = if initial.len() <= room { initial } else { Seq::empty() };
            let c2 = if cont.len() <= room { cont } else { Seq::empty() };
            spec_fill(text, w1, i2, c2)
        },
        None => initial + text,
    }
}

/// One written line: nothing for empty text; otherwise the rendered text, styled
/// when the terminal has color and the style has a code, then a newline.
pub open spec fn spec_write_line(
    text: Seq<char>,
    initial: Seq<char>,
    cont: Seq<char>,
    style: Style,
    t: Terminal,
) -> Seq<char> {
    if text.len() == 0 {
        Seq::empty()
    } else {
        let r = spec_rendered(text, initial, cont, t);
        if t.color && style != Style::Plain {
            style_code(style) + r + reset_code() + "\n"@
        } else {
            r + "\n"@
        }
    }
}

pub fn write_line(out: &mut String, text: &str, initial: &str, cont: &str, style: Style, t: Terminal)
    ensures
        final(out)@ == old(out)@ + spec_write_line(text@, initial@, cont@, style, t),
{
    proof {
        reveal_strlit("\n");
    }
    if text.is_empty() {
        assert(old(out)@ + Seq::<char>::empty() =~= old(out)@);
        return;
    }
    let rendered = match t.width {
        Some(w) => {
            let w1 = if w < 1 { 1 } else { w };
            let room = if w1 >= 2 { w1 - 2 } else { 0 };
            let iv = to_chars(initial);
            let cv = to_chars(cont);
            let i2 = if iv.len() <= room { initial } else { "" };
            let c2 = if cv.len() <= room { cont } else { "" };
            proof {
                reveal_strlit("");
            }
            assert(i2@ == (if initial@.len() <= room { initial@ } else { Seq::<char>::empty() }));
            assert(c2@ == (if cont@.len() <= room { cont@ } else { Seq::<char>::empty() }));
            let f = fill(text, w1, i2, c2);
            assert(f@ == spec_rendered(text@, initial@, cont@, t));
            f
        },
        None => {
            let mut r = string_of(initial);
            append_str(&mut r, text);
            assert(r@ == spec_rendered(text@, initial@, cont@, t));
            r
        },
    };
    assert(rendered@ == spec_rendered(text@, initial@, cont@, t));
    if t.color && style != Style::Plain {
        let code = match style {
            Style::Heading => "\x1b[1m",
            _ => "\x1b[2m",
        };
        append_str(out, code);
        append_str(out, rendered.as_str());
        append_str(out, "\x1b[0m");
        append_str(out, "\n");
        assert(out@ =~= old(out)@ + spec_write_line(text@, initial@, cont@, style, t));
    } else {
        append_str(out, rendered.as_str());
        append_str(out, "\n");
        assert(out@ =~= old(out)@ + spec_write_line(text@, initial@, cont@, style, t));
    }
}

/// Labels that name a part of speech get heading style.
pub open spec fn spec_is_part_of_speech(l: Seq<char>) -> bool {
    ||| l == "noun"@
    ||| l == "verb"@
    ||| l == "adjective"@
    ||| l == "adverb"@
    ||| l == "exclamation"@
    ||| l == "interjection"@
    ||| l == "pronoun"@
    ||| l == "preposition"@
    ||| l == "conjunction"@
    ||| l == "determiner"@
    ||| l == "predeterminer"@
    ||| l == "article"@
    ||| l == "number"@
    ||| l == "ordinal number"@
    ||| l == "cardinal number"@
    ||| l == "auxiliary verb"@
    ||| l == "modal verb"@
    ||| l == "prefix"@
    ||| l == "suffix"@
    ||| l == "combining form"@
}

pub fn is_part_of_speech(label: &str) -> (r: bool)
    ensures
        r == spec_is_part_of_speech(label@),
{
    str_eq(label, "noun") || str_eq(label, "verb") || str_eq(label, "adjective") || str_eq(
        label,
        "adverb",
    ) || str_eq(label, "exclamation") || str_eq(label, "interjection") || str_eq(label, "pronoun")
        || str_eq(label, "preposition") || str_eq(label, "conjunction") || str_eq(
        label,
        "determiner",
    ) || str_eq(label, "predeterminer") || str_eq(label, "article") || str_eq(label, "number")
        || str_eq(label, "ordinal number") || str_eq(label, "cardinal number") || str_eq(
        label,
        "auxiliary verb",
    ) || str_eq(label, "modal verb") || str_eq(label, "prefix") || str_eq(label, "suffix")
        || str_eq(label, "combining form")
}

pub open spec fn sat_add(a: nat, b: nat) -> nat {
    if a + b > usize::MAX { usize::MAX as nat } else { a + b }
}

/// The examples of a block list, those inside an etymology included.
pub open spec fn spec_example_count(bs: Seq<BlockView>) -> nat
    decreases bs, bs.len() + 1,
{
    example_count_from(bs, 0)
}

pub open spec fn example_count_from(bs: Seq<BlockView>, i: int) -> nat
    decreases bs, bs.len() - i,
{
    if i < 0 || i >= bs.len() {
        0
    } else {
        let own: nat = match bs[i] {
            BlockView::Example { .. } => 1,
            BlockView::Etymology(inner) => spec_example_count(inner),
            _ => 0,
        };
        sat_add(own, example_count_from(bs, i + 1))
    }
}

pub fn example_count(blocks: &Vec<Block>) -> (r: usize)
    ensures
        r == spec_example_count(blocks_view(blocks@)),
    decreases blocks@,
{
    let ghost bv = blocks_view(blocks@);
    proof {
        lemma_blocks_view_len(blocks@, blocks@.len() as int);
    }
    let mut total: usize = 0;
    let mut i: usize = blocks.len();
    while i > 0
        invariant
            i <= blocks.len(),
            bv == blocks_view(blocks@),
            bv.len() == blocks@.len(),
            total == example_count_from(bv, i as int),
        decreases i,
    {
        i -= 1;
        proof {
            lemma_blocks_view_index(blocks@, i as int);
        }
        let own: usize = match &blocks[i] {
            Block::Example { .. } => 1,
            Block::Etymology(inner) => {
                proof {
                    assert(decreases_to!(blocks@ => blocks@[i as int]));
                }
                example_count(inner)
            },
            _ => 0,
        };
        total = if own > usize::MAX - total { usize::MAX } else { own + total };
    }
    total
}

/// Omitted examples and whether an etymology was omitted.
#[derive(Clone, Copy, Debug)]
pub struct Omissions {
    pub examples: usize,
    pub etymology: bool,
}

pub open spec fn sat_add_usize(a: usize, b: nat) -> usize {
    sat_add(a as nat, b) as usize
}

pub open spec fn strip_cr(l: Seq<char>) -> Seq<char> {
    if l.len() > 0 && l.last() == '\r' {
        l.drop_last()
    } else {
        l
    }
}

/// `str::lines`: pieces between `\n`, a `\r` before a `\n` dropped, and no final
/// empty piece.
pub open spec fn str_lines(t: Seq<char>) -> Seq<Seq<char>> {
    let p = split_lines(t);
    let q = Seq::new(p.len(), |k: int| if k < p.len() - 1 { strip_cr(p[k]) } else { p[k] });
    if q.len() > 0 && q.last().len() == 0 {
        q.drop_last()
    } else {
        q
    }
}

pub proof fn lemma_split_lines_nonempty(t: Seq<char>)
    ensures
        split_lines(t).len() >= 1,
{
    lemma_split_from_len(t, 0, Seq::empty(), Seq::empty());
}

pub proof fn lemma_split_from_len(t: Seq<char>, i: int, cur: Seq<char>, acc: Seq<Seq<char>>)
    ensures
        crate::readable::split_from(t, i, cur, acc).len() >= acc.len() + 1,
    decreases t.len() - i,
{
    if 0 <= i < t.len() {
        if t[i] == '\n' {
            lemma_split_from_len(t, i + 1, Seq::empty(), acc.push(cur));
        } else {
            lemma_split_from_len(t, i + 1, cur.push(t[i]), acc);
        }
    }
}

pub fn lines_of(t: &Vec<char>) -> (r: Vec<Vec<char>>)
    ensures
        r@.len() == str_lines(t@).len(),
        forall|k: int| 0 <= k < r@.len() ==> (#[trigger] r@[k])@ == str_lines(t@)[k],
{
    let p = split_newlines(t);
    proof {
        lemma_split_lines_nonempty(t@);
    }
    let ghost q = Seq::new(
        split_lines(t@).len(),
        |k: int|
            if k < split_lines(t@).len() - 1 {
                strip_cr(split_lines(t@)[k])
            } else {
                split_lines(t@)[k]
            },
    );
    let mut r: Vec<Vec<char>> = Vec::new();
    let n = p.len();
    let mut k: usize = 0;
    while k < n
        invariant
            k <= n,
            n == p@.len(),
            n == q.len(),
            forall|j: int| 0 <= j < p@.len() ==> (#[trigger] p@[j])@ == split_lines(t@)[j],
            r@.len() == k,
            forall|j: int| 0 <= j < k ==> (#[trigger] r@[j])@ == q[j],
        decreases n - k,
    {
        let piece = &p[k];
        assert(piece@ == split_lines(t@)[k as int]);
        if k + 1 < n && piece.len() > 0 && piece[piece.len() - 1] == '\r' {
            let v = crate::readable::slice_to_vec(piece, 0, piece.len() - 1);
            assert(v@ =~= piece@.drop_last());
            r.push(v);
        } else {
            let v = crate::readable::slice_to_vec(piece, 0, piece.len());
            assert(v@ =~= piece@);
            r.push(v);
        }
        k += 1;
    }
    if n > 0 && r[n - 1].len() == 0 {
        r.pop();
    }
    r
}

/// The lines of an example group: the first marked `> ` at the group indent,
/// the rest at the continuation indent.
pub open spec fn example_from(lines: Seq<Seq<char>>, j: int, initial: Seq<char>, cont: Seq<char>, t: Terminal) -> Seq<char>
    decreases lines.len() - j,
{
    if j < 0 || j >= lines.len() {
        Seq::empty()
    } else {
        let text = if j == 0 { "> "@ + lines[j] } else { lines[j] };
        let indent = if j == 0 { initial } else { cont };
        spec_write_line(text, indent, cont, Style::Muted, t) + example_from(lines, j + 1, initial, cont, t)
    }
}

/// The readable lines of other content, each indented by two spaces.
pub open spec fn other_from(lines: Seq<Seq<char>>, j: int, t: Terminal) -> Seq<char>
    decreases lines.len() - j,
{
    if j < 0 || j >= lines.len() {
        Seq::empty()
    } else {
        spec_write_line(lines[j], "  "@, "  "@, Style::Plain, t) + other_from(lines, j + 1, t)
    }
}

pub open spec fn spaces_seq(n: nat) -> Seq<char> {
    Seq::new(n, |_i: int| ' ')
}

pub open spec fn sat_usize(n: int) -> usize {
    if n > usize::MAX { usize::MAX } else if n < 0 { 0 } else { n as usize }
}

/// The indent of the text of a sense after its number.
pub open spec fn sense_indent(number: Seq<char>) -> usize {
    if number.len() == 0 {
        2
    } else {
        sat_usize(2 + spec_display_width(number) + 1)
    }
}

pub open spec fn sub_extra(b: bool) -> nat {
    if b { 2 } else { 0 }
}

/// The layout of a block list: written text and omissions, from block `i` on,
/// with the indent of the current sense.
pub open spec fn blocks_from(
    bs: Seq<BlockView>,
    i: int,
    o: Options,
    out: Seq<char>,
    indent: usize,
    om: Omissions,
) -> (Seq<char>, Omissions)
    decreases bs, bs.len() - i,
{
    if i < 0 || i >= bs.len() {
        (out, om)
    } else {
        let t = o.terminal;
        match bs[i] {
            BlockView::Heading(h) => blocks_from(
                bs,
                i + 1,
                o,
                out + "\n"@ + spec_write_line(h, Seq::empty(), Seq::empty(), Style::Heading, t),
                indent,
                om,
            ),
            BlockView::Label(l) => {
                let style = if spec_is_part_of_speech(l) { Style::Heading } else { Style::Muted };
                let out2 = if l.len() > 0 {
                    out + "\n"@ + spec_write_line(l, "  "@, "  "@, style, t)
                } else {
                    out
                };
                blocks_from(bs, i + 1, o, out2, indent, om)
            },
            BlockView::Sense { number, text } => {
                let out1 = if number.len() > 0 || text.len() > 0 { out + "\n"@ } else { out };
                let ind = sense_indent(number);
                let line = if number.len() == 0 { text } else { number + " "@ + text };
                blocks_from(
                    bs,
                    i + 1,
                    o,
                    out1 + spec_write_line(trim_end(line), "  "@, spaces_seq(ind as nat), Style::Plain, t),
                    ind,
                    om,
                )
            },
            BlockView::Definition { text, subsense, starts_subsense } => {
                let initial = spaces_seq(sat_usize(indent + sub_extra(subsense && !starts_subsense)) as nat);
                let cont = spaces_seq(sat_usize(indent + sub_extra(subsense)) as nat);
                let out2 = if starts_subsense {
                    out + "\n"@ + spec_write_line("- "@ + text, initial, cont, Style::Plain, t)
                } else {
                    out + spec_write_line(text, initial, cont, Style::Plain, t)
                };
                blocks_from(bs, i + 1, o, out2, indent, om)
            },
            BlockView::Example { lines, first_direct, subsense } => {
                if o.full || first_direct {
                    let initial = spaces_seq(sat_usize(indent + sub_extra(subsense)) as nat);
                    let cont = initial + "  "@;
                    blocks_from(
                        bs,
                        i + 1,
                        o,
                        out + "\n"@ + example_from(lines, 0, initial, cont, t),
                        indent,
                        om,
                    )
                } else {
                    blocks_from(
                        bs,
                        i + 1,
                        o,
                        out,
                        indent,
                        Omissions { examples: sat_add_usize(om.examples, 1), ..om },
                    )
                }
            },
            BlockView::Etymology(inner) => {
                if o.full {
                    let (out2, om2) = blocks_from(inner, 0, o, out, 2, om);
                    blocks_from(bs, i + 1, o, out2, indent, om2)
                } else if inner.len() > 0 {
                    blocks_from(
                        bs,
                        i + 1,
                        o,
                        out,
                        indent,
                        Omissions {
                            examples: sat_add_usize(om.examples, spec_example_count(inner)),
                            etymology: true,
                        },
                    )
                } else {
                    blocks_from(bs, i + 1, o, out, indent, om)
                }
            },
            BlockView::Other(text) => blocks_from(
                bs,
                i + 1,
                o,
                out + other_from(str_lines(text), 0, t),
                indent,
                om,
            ),
        }
    }
}

fn push_spaces(n: usize) -> (r: String)
    ensures
        r@ == spaces_seq(n as nat),
{
    spaces(n)
}

fn sat_add_exec(a: usize, b: usize) -> (r: usize)
    ensures
        r == sat_usize(a + b),
{
    if b > usize::MAX - a { usize::MAX } else { a + b }
}

fn write_example(out: &mut String, lines: &Vec<String>, initial: &String, cont: &String, t: Terminal)
    ensures
        final(out)@ == old(out)@ + example_from(lines_view(lines@), 0, initial@, cont@, t),
{
    let ghost lv = lines_view(lines@);
    let mut j: usize = 0;
    assert(old(out)@ + example_from(lv, 0, initial@, cont@, t) =~= out@ + example_from(lv, 0, initial@, cont@, t));
    while j < lines.len()
        invariant
            j <= lines.len(),
            lv == lines_view(lines@),
            old(out)@ + example_from(lv, 0, initial@, cont@, t) == out@ + example_from(
                lv,
                j as int,
                initial@,
                cont@,
                t,
            ),
        decreases lines.len() - j,
    {
        let ghost before = out@;
        assert(lv[j as int] == lines@[j as int]@);
        if j == 0 {
            let mut text = string_of("> ");
            append_str(&mut text, lines[j].as_str());
            write_line(out, text.as_str(), initial.as_str(), cont.as_str(), Style::Muted, t);
        } else {
            write_line(out, lines[j].as_str(), cont.as_str(), cont.as_str(), Style::Muted, t);
        }
        assert(before + example_from(lv, j as int, initial@, cont@, t) =~= out@ + example_from(
            lv,
            j + 1,
            initial@,
            cont@,
            t,
        ));
        j += 1;
    }
    assert(out@ + example_from(lv, j as int, initial@, cont@, t) =~= out@);
}

fn write_other(out: &mut String, text: &String, t: Terminal)
    ensures
        final(out)@ == old(out)@ + other_from(str_lines(text@), 0, t),
{
    let v = to_chars(text.as_str());
    let ls = lines_of(&v);
    let ghost sl = str_lines(text@);
    let mut j: usize = 0;
    assert(old(out)@ + other_from(sl, 0, t) =~= out@ + other_from(sl, 0, t));
    while j < ls.len()
        invariant
            j <= ls.len(),
            ls@.len() == sl.len(),
            forall|k: int| 0 <= k < ls@.len() ==> (#[trigger] ls@[k])@ == sl[k],
            old(out)@ + other_from(sl, 0, t) == out@ + other_from(sl, j as int, t),
        decreases ls.len() - j,
    {
        let ghost before = out@;
        let line = crate::text::from_chars(&ls[j]);
        assert(line@ == sl[j as int]);
        write_line(out, line.as_str(), "  ", "  ", Style::Plain, t);
        assert(before + other_from(sl, j as int, t) =~= out@ + other_from(sl, j + 1, t));
        j += 1;
    }
    assert(out@ + other_from(sl, j as int, t) =~= out@);
}

/// Writes one block that is not an etymology shown in full, with the indent of
/// the current sense and the omissions so far.
#[verifier::rlimit(60)]
fn write_block(
    out: &mut String,
    block: &Block,
    options: Options,
    indent: &mut usize,
    omissions: &mut Omissions,
    Ghost(bs): Ghost<Seq<BlockView>>,
    Ghost(i): Ghost<int>,
)
    requires
        0 <= i < bs.len(),
        bs[i] == block_view(*block),
        !(options.full && block is Etymology),
    ensures
        blocks_from(bs, i, options, old(out)@, *old(indent), *old(omissions)) == blocks_from(
            bs,
            i + 1,
            options,
            final(out)@,
            *final(indent),
            *final(omissions),
        ),
{
    proof {
        reveal_strlit("");
        assert(""@ =~= Seq::<char>::empty());
        reveal_strlit("\n");
        reveal_strlit("  ");
        reveal_strlit("- ");
        reveal_strlit(" ");
    }
    let t = options.terminal;
    match block {
        Block::Heading(text) => {
            append_str(out, "\n");
            write_line(out, text.as_str(), "", "", Style::Heading, t);
            assert(out@ =~= old(out)@ + "\n"@ + spec_write_line(text@, Seq::empty(), Seq::empty(), Style::Heading, t));
        },
        Block::Label(text) => {
            if !text.as_str().is_empty() {
                append_str(out, "\n");
                let style = if is_part_of_speech(text.as_str()) {
                    Style::Heading
                } else {
                    Style::Muted
                };
                write_line(out, text.as_str(), "  ", "  ", style, t);
                assert(out@ =~= old(out)@ + "\n"@ + spec_write_line(text@, "  "@, "  "@, style, t));
            }
        },
        Block::Sense { number, text } => {
            if !number.as_str().is_empty() || !text.as_str().is_empty() {
                append_str(out, "\n");
            }
            let ghost out1 = out@;
            *indent = if number.as_str().is_empty() {
                2
            } else {
                sat_add_exec(3, display_width(number.as_str()))
            };
            assert(*indent == sense_indent(number@));
            let continuation = push_spaces(*indent);
            let line = if number.as_str().is_empty() {
                string_of(text.as_str())
            } else {
                let mut l = string_of(number.as_str());
                append_str(&mut l, " ");
                append_str(&mut l, text.as_str());
                l
            };
            assert(line@ == (if number@.len() == 0 { text@ } else { number@ + " "@ + text@ }));
            let lv = to_chars(line.as_str());
            let e = trim_end_bound(&lv, 0, lv.len());
            assert(lv@.subrange(0, lv@.len() as int) =~= lv@);
            let trimmed = crate::text::from_chars(&crate::readable::slice_to_vec(&lv, 0, e));
            assert(trimmed@ == trim_end(line@));
            write_line(out, trimmed.as_str(), "  ", continuation.as_str(), Style::Plain, t);
            assert(out@ =~= out1 + spec_write_line(trim_end(line@), "  "@, spaces_seq(*indent as nat), Style::Plain, t));
        },
        Block::Definition { text, subsense, starts_subsense } => {
            let initial = push_spaces(
                sat_add_exec(*indent, if *subsense && !*starts_subsense { 2 } else { 0 }),
            );
            let continuation = push_spaces(sat_add_exec(*indent, if *subsense { 2 } else { 0 }));
            if *starts_subsense {
                append_str(out, "\n");
                let mut line = string_of("- ");
                append_str(&mut line, text.as_str());
                write_line(out, line.as_str(), initial.as_str(), continuation.as_str(), Style::Plain, t);
                assert(out@ =~= old(out)@ + "\n"@ + spec_write_line("- "@ + text@, initial@, continuation@, Style::Plain, t));
            } else {
                write_line(out, text.as_str(), initial.as_str(), continuation.as_str(), Style::Plain, t);
            }
        },
        Block::Example { lines, first_direct, subsense } => {
            if options.full || *first_direct {
                append_str(out, "\n");
                let ghost out1 = out@;
                let initial = push_spaces(sat_add_exec(*indent, if *subsense { 2 } else { 0 }));
                let mut continuation = string_of(initial.as_str());
                append_str(&mut continuation, "  ");
                write_example(out, lines, &initial, &continuation, t);
                assert(out@ =~= old(out)@ + "\n"@ + example_from(lines_view(lines@), 0, initial@, continuation@, t));
            } else {
                omissions.examples = sat_add_exec(omissions.examples, 1);
            }
        },
        Block::Etymology(inner) => {
            if inner.len() > 0 {
                proof {
                    lemma_blocks_view_len(inner@, inner@.len() as int);
                }
                omissions.etymology = true;
                omissions.examples = sat_add_exec(omissions.examples, example_count(inner));
            } else {
                proof {
                    lemma_blocks_view_len(inner@, inner@.len() as int);
                }
            }
        },
        Block::Other(text) => {
            write_other(out, text, t);
        },
    }
}

#[verifier::rlimit(60)]
pub fn write_blocks(out: &mut String, blocks: &Vec<Block>, options: Options, omissions: &mut Omissions)
    ensures
        (final(out)@, *final(omissions)) == blocks_from(
            blocks_view(blocks@),
            0,
            options,
            old(out)@,
            2,
            *old(omissions),
        ),
    decreases blocks@,
{
    let ghost bv = blocks_view(blocks@);
    proof {
        lemma_blocks_view_len(blocks@, blocks@.len() as int);
    }
    let mut definition_indent: usize = 2;
    let mut i: usize = 0;
    while i < blocks.len()
        invariant
            i <= blocks.len(),
            bv == blocks_view(blocks@),
            bv.len() == blocks@.len(),
            blocks_from(bv, 0, options, old(out)@, 2, *old(omissions)) == blocks_from(
                bv,
                i as int,
                options,
                out@,
                definition_indent,
                *omissions,
            ),
        decreases blocks.len() - i,
    {
        proof {
            lemma_blocks_view_index(blocks@, i as int);
        }
        let block = &blocks[i];
        match block {
            Block::Etymology(inner) if options.full => {
                proof {
                    assert(decreases_to!(blocks@ => blocks@[i as int]));
                }
                write_blocks(out, inner, options, omissions);
            },
            _ => {
                write_block(out, block, options, &mut definition_indent, omissions, Ghost(bv), Ghost(i as int));
            },
        }
        i += 1;
    }
}

/// The footer that names what was omitted.
pub open spec fn footer_text(om: Omissions) -> Seq<char> {
    let noun = if om.examples == 1 { "example"@ } else { "examples"@ };
    let parts = if om.examples > 0 && om.etymology {
        decimal(om.examples as nat) + " "@ + noun + " and etymology"@
    } else if om.examples > 0 {
        decimal(om.examples as nat) + " "@ + noun
    } else {
        "etymology"@
    };
    "Omitted: "@ + parts + "; use --full to show all."@
}

/// A structured article: its blocks, then a footer when anything was omitted.
pub open spec fn spec_write_structured(bs: Seq<BlockView>, o: Options) -> Seq<char> {
    let (body, om) = blocks_from(bs, 0, o, Seq::empty(), 2, Omissions { examples: 0, etymology: false });
    if om.examples > 0 || om.etymology {
        body + "\n"@ + spec_write_line(footer_text(om), Seq::empty(), Seq::empty(), Style::Muted, o.terminal)
    } else {
        body
    }
}

pub fn write_structured(out: &mut String, blocks: &Vec<Block>, options: Options)
    ensures
        final(out)@ == old(out)@ + spec_write_structured(blocks_view(blocks@), options),
{
    let mut omissions = Omissions { examples: 0, etymology: false };
    let mut body = String::new();
    write_blocks(&mut body, blocks, options, &mut omissions);
    append_str(out, body.as_str());
    if omissions.examples > 0 || omissions.etymology {
        let mut footer = string_of("Omitted: ");
        if omissions.examples > 0 {
            push_decimal(&mut footer, omissions.examples);
            append_str(&mut footer, " ");
            append_str(&mut footer, if omissions.examples == 1 { "example" } else { "examples" });
            if omissions.etymology {
                append_str(&mut footer, " and etymology");
            }
        } else {
            append_str(&mut footer, "etymology");
        }
        append_str(&mut footer, "; use --full to show all.");
        assert(footer@ =~= footer_text(omissions));
        append_str(out, "\n");
        proof {
            reveal_strlit("");
            assert(""@ =~= Seq::<char>::empty());
        }
        write_line(out, footer.as_str(), "", "", Style::Muted, options.terminal);
        assert(out@ =~= old(out)@ + spec_write_structured(blocks_view(blocks@), options));
    } else {
        assert(out@ =~= old(out)@ + spec_write_structured(blocks_view(blocks@), options));
    }
}

pub open spec fn spec_write_miss(term: Seq<char>) -> Seq<char> {
    "No entry found for: "@ + term + "\n"@
}

pub fn write_miss(out: &mut String, term: &str)
    ensures
        final(out)@ == old(out)@ + spec_write_miss(term@),
{
    append_str(out, "No entry found for: ");
    append_str(out, term);
    append_str(out, "\n");
    assert(out@ =~= old(out)@ + spec_write_miss(term@));
}

/// The text shown for a definition outside the structured layout: verbatim when
/// raw or without HTML; otherwise its readable text with one `Reference:` line per
/// target, unless that is blank.
pub open spec fn spec_render(def: Seq<char>, raw: bool, refs: Seq<Seq<char>>) -> Seq<char> {
    if raw || !spec_contains_html_tag(def) {
        def
    } else {
        let readable = spec_html_to_text(def) + reference_lines(refs);
        if all_ws(readable) { def } else { readable }
    }
}

fn render_with(definition: &str, raw: bool, refs: &Vec<String>) -> (r: String)
    ensures
        r@ == spec_render(definition@, raw, strings_view(refs@)),
{
    if raw || !contains_html_tag(definition) {
        return string_of(definition);
    }
    let mut readable = html_to_text(definition);
    push_reference_lines(&mut readable, refs);
    let v = to_chars(readable.as_str());
    if all_whitespace(&v, 0, v.len()) {
        assert(v@.subrange(0, v@.len() as int) =~= v@);
        string_of(definition)
    } else {
        assert(v@.subrange(0, v@.len() as int) =~= v@);
        readable
    }
}

/// Default query output is terminal-readable. `--raw` keeps the stored definition
/// unchanged because callers may pipe HTML or other markup onward.
pub fn render_definition(definition: &str, raw: bool) -> (r: String)
    ensures
        r@ == spec_render(definition@, raw, spec_reference_targets(definition@)),
        raw || !spec_contains_html_tag(definition@) ==> r@ == definition@,
{
    if raw || !contains_html_tag(definition) {
        return string_of(definition);
    }
    let refs = reference_targets(definition);
    render_with(definition, raw, &refs)
}

/// Lines of a readable definition on a terminal: blank lines kept as newlines.
pub open spec fn terminal_from(lines: Seq<Seq<char>>, j: int, t: Terminal) -> Seq<char>
    decreases lines.len() - j,
{
    if j < 0 || j >= lines.len() {
        Seq::empty()
    } else {
        let l = if lines[j].len() == 0 {
            "\n"@
        } else {
            spec_write_line(lines[j], Seq::empty(), Seq::empty(), Style::Plain, t)
        };
        l + terminal_from(lines, j + 1, t)
    }
}

proof fn lemma_terminal_from_push(lines: Seq<Seq<char>>, l: Seq<char>, j: int, t: Terminal)
    requires
        0 <= j <= lines.len(),
    ensures
        terminal_from(lines.push(l), j, t) == terminal_from(lines, j, t) + (if l.len() == 0 {
            "\n"@
        } else {
            spec_write_line(l, Seq::empty(), Seq::empty(), Style::Plain, t)
        }),
    decreases lines.len() - j,
{
    let last = if l.len() == 0 {
        "\n"@
    } else {
        spec_write_line(l, Seq::empty(), Seq::empty(), Style::Plain, t)
    };
    if j == lines.len() {
        assert(lines.push(l)[j] == l);
        assert(terminal_from(lines.push(l), j + 1, t) == Seq::<char>::empty());
        assert(last + Seq::<char>::empty() =~= Seq::<char>::empty() + last);
    } else {
        lemma_terminal_from_push(lines, l, j + 1, t);
        assert(lines.push(l)[j] == lines[j]);
        let first = if lines[j].len() == 0 {
            "\n"@
        } else {
            spec_write_line(lines[j], Seq::empty(), Seq::empty(), Style::Plain, t)
        };
        assert(first + (terminal_from(lines, j + 1, t) + last) =~= (first + terminal_from(lines, j + 1, t)) + last);
    }
}

/// On a terminal every line of a readable definition is written, in order: the
/// lines written for a list ending in one more line are those of the list and
/// then that line, wrapped, or a bare newline for a blank line.
pub proof fn law_terminal_writes_every_line(lines: Seq<Seq<char>>, l: Seq<char>, t: Terminal)
    ensures
        terminal_from(lines.push(l), 0, t) == terminal_from(lines, 0, t) + (if l.len() == 0 {
            "\n"@
        } else {
            spec_write_line(l, Seq::empty(), Seq::empty(), Style::Plain, t)
        }),
        l.len() > 0 ==> spec_write_line(l, Seq::empty(), Seq::empty(), Style::Plain, t).len() > 0,
{
    lemma_terminal_from_push(lines, l, 0, t);
    reveal_strlit("\n");
}

pub open spec fn title_of(name: Seq<char>, headword: Seq<char>, o: Options) -> Seq<char> {
    if o.show_dictionary {
        "["@ + name + "] "@ + headword
    } else {
        headword
    }
}

pub open spec fn effective_terminal(o: Options) -> Terminal {
    if o.raw {
        Terminal { width: None, color: false }
    } else {
        o.terminal
    }
}

/// One record: a separating blank line unless first, the title line, then the
/// structured layout when a plan exists, else the rendered definition (wrapped line
/// by line on a terminal, otherwise written as it is with a final newline ensured).
pub open spec fn spec_write_record(
    name: Seq<char>,
    headword: Seq<char>,
    def: Seq<char>,
    o: Options,
    first: bool,
    plan: Option<Seq<BlockView>>,
    refs: Seq<Seq<char>>,
) -> Seq<char> {
    let sep = if first { Seq::empty() } else { "\n"@ };
    let t = effective_terminal(o);
    let head = sep + spec_write_line(title_of(name, headword, o), Seq::empty(), Seq::empty(), Style::Heading, t);
    let html = spec_contains_html_tag(def);
    if !o.raw && html && plan is Some {
        head + spec_write_structured(plan->0, o)
    } else {
        let d = spec_render(def, o.raw, refs);
        if !o.raw && html && t.width is Some {
            head + terminal_from(str_lines(d), 0, t)
        } else if d.len() > 0 && d.last() == '\n' {
            head + d
        } else {
            head + d + "\n"@
        }
    }
}

#[verifier::rlimit(60)]
pub fn write_record_with(
    out: &mut String,
    dictionary_name: &str,
    headword: &str,
    definition: &str,
    options: Options,
    first: bool,
    plan: &Option<Vec<Block>>,
    refs: &Vec<String>,
)
    ensures
        final(out)@ == old(out)@ + spec_write_record(
            dictionary_name@,
            headword@,
            definition@,
            options,
            first,
            match plan {
                Some(b) => Some(blocks_view(b@)),
                None => None,
            },
            strings_view(refs@),
        ),
{
    proof {
        reveal_strlit("");
        assert(""@ =~= Seq::<char>::empty());
        reveal_strlit("\n");
    }
    if !first {
        append_str(out, "\n");
    }
    let title = if options.show_dictionary {
        let mut t = string_of("[");
        append_str(&mut t, dictionary_name);
        append_str(&mut t, "] ");
        append_str(&mut t, headword);
        t
    } else {
        string_of(headword)
    };
    let terminal = if options.raw { Terminal { width: None, color: false } } else { options.terminal };
    write_line(out, title.as_str(), "", "", Style::Heading, terminal);
    let ghost head = out@;
    let is_html = contains_html_tag(definition);
    if !options.raw && is_html {
        if let Some(blocks) = plan {
            write_structured(out, blocks, options);
            return;
        }
    }
    let d = render_with(definition, options.raw, refs);
    if !options.raw && is_html && terminal.width.is_some() {
        let dv = to_chars(d.as_str());
        let ls = lines_of(&dv);
        let ghost sl = str_lines(d@);
        let mut j: usize = 0;
        assert(head + terminal_from(sl, 0, terminal) =~= out@ + terminal_from(sl, 0, terminal));
        while j < ls.len()
            invariant
                j <= ls.len(),
                ls@.len() == sl.len(),
                forall|k: int| 0 <= k < ls@.len() ==> (#[trigger] ls@[k])@ == sl[k],
                head + terminal_from(sl, 0, terminal) == out@ + terminal_from(sl, j as int, terminal),
            decreases ls.len() - j,
        {
            let ghost before = out@;
            let line = crate::text::from_chars(&ls[j]);
            assert(line@ == sl[j as int]);
            if line.as_str().is_empty() {
                append_str(out, "\n");
            } else {
                write_line(out, line.as_str(), "", "", Style::Plain, terminal);
            }
            assert(before + terminal_from(sl, j as int, terminal) =~= out@ + terminal_from(
                sl,
                j + 1,
                terminal,
            ));
            j += 1;
        }
        assert(out@ + terminal_from(sl, j as int, terminal) =~= out@);
        return;
    }
    append_str(out, d.as_str());
    let dv = to_chars(d.as_str());
    if !(dv.len() > 0 && dv[dv.len() - 1] == '\n') {
        append_str(out, "\n");
    }
}

/// One record as `write_record` lays it out: with the structured plan of the
/// definition and its reference targets.
pub open spec fn spec_record(
    name: Seq<char>,
    headword: Seq<char>,
    def: Seq<char>,
    o: Options,
    first: bool,
) -> Seq<char> {
    spec_write_record(name, headword, def, o, first, spec_parse(def, headword), spec_reference_targets(def))
}

/// Writing one record appends exactly its layout.
pub open spec fn record_output(
    name: Seq<char>,
    headword: Seq<char>,
    def: Seq<char>,
    o: Options,
    first: bool,
    before: Seq<char>,
    after: Seq<char>,
) -> bool {
    after == before + spec_record(name, headword, def, o, first)
}

/// Writes one query result.
pub fn write_record(
    out: &mut String,
    dictionary_name: &str,
    headword: &str,
    definition: &str,
    options: Options,
    first: bool,
)
    ensures
        record_output(dictionary_name@, headword@, definition@, options, first, old(out)@, final(out)@),
        options.raw || !spec_contains_html_tag(definition@) ==> final(out)@ == old(out)@
            + spec_write_record(
            dictionary_name@,
            headword@,
            definition@,
            options,
            first,
            None,
            Seq::empty(),
        ),
{
    let html = !options.raw && contains_html_tag(definition);
    let plan = if html { parse(definition, headword) } else { None };
    let refs = if html && plan.is_none() { reference_targets(definition) } else { Vec::new() };
    let ghost pv = match &plan {
        Some(b) => Some(blocks_view(b@)),
        None => None,
    };
    let ghost rv = strings_view(refs@);
    proof {
        if !(html && plan.is_none()) {
            assert(rv =~= Seq::<Seq<char>>::empty());
        }
    }
    write_record_with(out, dictionary_name, headword, definition, options, first, &plan, &refs);
    proof {
        let sp = spec_parse(definition@, headword@);
        let sr = spec_reference_targets(definition@);
        if html && plan.is_none() {
            assert(pv == sp);
        } else if html {
            assert(pv == sp);
            assert(spec_write_record(dictionary_name@, headword@, definition@, options, first, pv, rv)
                == spec_write_record(dictionary_name@, headword@, definition@, options, first, sp, sr));
        } else {
            assert(spec_write_record(dictionary_name@, headword@, definition@, options, first, pv, rv)
                == spec_write_record(dictionary_name@, headword@, definition@, options, first, sp, sr));
            assert(spec_write_record(dictionary_name@, headword@, definition@, options, first, pv, rv)
                == spec_write_record(dictionary_name@, headword@, definition@, options, first, None, Seq::empty()));
        }
    }
}

proof fn lemma_full_keeps_omissions(
    bs: Seq<BlockView>,
    i: int,
    o: Options,
    out: Seq<char>,
    indent: usize,
    om: Omissions,
)
    requires
        o.full,
    ensures
        blocks_from(bs, i, o, out, indent, om).1 == om,
    decreases bs, bs.len() - i,
{
    if 0 <= i < bs.len() {
        let t = o.terminal;
        match bs[i] {
            BlockView::Heading(h) => {
                lemma_full_keeps_omissions(
                    bs,
                    i + 1,
                    o,
                    out + "\n"@ + spec_write_line(h, Seq::empty(), Seq::empty(), Style::Heading, t),
                    indent,
                    om,
                );
            },
            BlockView::Label(l) => {
                let style = if spec_is_part_of_speech(l) { Style::Heading } else { Style::Muted };
                let out2 = if l.len() > 0 {
                    out + "\n"@ + spec_write_line(l, "  "@, "  "@, style, t)
                } else {
                    out
                };
                lemma_full_keeps_omissions(bs, i + 1, o, out2, indent, om);
            },
            BlockView::Sense { number, text } => {
                let out1 = if number.len() > 0 || text.len() > 0 { out + "\n"@ } else { out };
                let ind = sense_indent(number);
                let line = if number.len() == 0 { text } else { number + " "@ + text };
                lemma_full_keeps_omissions(
                    bs,
                    i + 1,
                    o,
                    out1 + spec_write_line(trim_end(line), "  "@, spaces_seq(ind as nat), Style::Plain, t),
                    ind,
                    om,
                );
            },
            BlockView::Definition { text, subsense, starts_subsense } => {
                let initial = spaces_seq(sat_usize(indent + sub_extra(subsense && !starts_subsense)) as nat);
                let cont = spaces_seq(sat_usize(indent + sub_extra(subsense)) as nat);
                let out2 = if starts_subsense {
                    out + "\n"@ + spec_write_line("- "@ + text, initial, cont, Style::Plain, t)
                } else {
                    out + spec_write_line(text, initial, cont, Style::Plain, t)
                };
                lemma_full_keeps_omissions(bs, i + 1, o, out2, indent, om);
            },
            BlockView::Example { lines, first_direct, subsense } => {
                let initial = spaces_seq(sat_usize(indent + sub_extra(subsense)) as nat);
                let cont = initial + "  "@;
                lemma_full_keeps_omissions(
                    bs,
                    i + 1,
                    o,
                    out + "\n"@ + example_from(lines, 0, initial, cont, t),
                    indent,
                    om,
                );
            },
            BlockView::Etymology(inner) => {
                lemma_full_keeps_omissions(inner, 0, o, out, 2, om);
                let (out2, om2) = blocks_from(inner, 0, o, out, 2, om);
                lemma_full_keeps_omissions(bs, i + 1, o, out2, indent, om2);
            },
            BlockView::Other(text) => {
                lemma_full_keeps_omissions(bs, i + 1, o, out + other_from(str_lines(text), 0, t), indent, om);
            },
        }
    }
}

/// With `--full` nothing is omitted, so a structured article never ends with the
/// omission footer.
pub proof fn law_full_shows_no_footer(bs: Seq<BlockView>, o: Options)
    requires
        o.full,
    ensures
        spec_write_structured(bs, o) == blocks_from(
            bs,
            0,
            o,
            Seq::empty(),
            2,
            Omissions { examples: 0, etymology: false },
        ).0,
{
    lemma_full_keeps_omissions(bs, 0, o, Seq::empty(), 2, Omissions { examples: 0, etymology: false });
}

/// The title line and the stored definition, with the separating blank line
/// before every record but the first and a final newline added only when the
/// definition lacks one.
pub open spec fn verbatim_record(title_line: Seq<char>, def: Seq<char>, first: bool) -> Seq<char> {
    let sep = if first { Seq::empty() } else { "\n"@ };
    let end = if def.len() > 0 && def.last() == '\n' { Seq::empty() } else { "\n"@ };
    sep + title_line + def + end
}

/// Raw output writes the stored definition unchanged under a plain title, whatever
/// layout the definition would otherwise get.
pub proof fn law_raw_record_is_verbatim(
    name: Seq<char>,
    headword: Seq<char>,
    def: Seq<char>,
    o: Options,
    first: bool,
    plan: Option<Seq<BlockView>>,
    refs: Seq<Seq<char>>,
)
    requires
        o.raw,
        headword.len() > 0,
    ensures
        spec_write_record(name, headword, def, o, first, plan, refs) == verbatim_record(
            title_of(name, headword, o) + "\n"@,
            def,
            first,
        ),
{
    let title = title_of(name, headword, o);
    assert(title.len() > 0);
    assert(Seq::<char>::empty() + title =~= title);
}

/// A definition without HTML is written unchanged after its title line.
pub proof fn law_plain_definition_is_verbatim(
    name: Seq<char>,
    headword: Seq<char>,
    def: Seq<char>,
    o: Options,
    first: bool,
    plan: Option<Seq<BlockView>>,
    refs: Seq<Seq<char>>,
)
    requires
        !spec_contains_html_tag(def),
    ensures
        spec_write_record(name, headword, def, o, first, plan, refs) == verbatim_record(
            spec_write_line(
                title_of(name, headword, o),
                Seq::empty(),
                Seq::empty(),
                Style::Heading,
                effective_terminal(o),
            ),
            def,
            first,
        ),
{
}

/// Color adds style codes around a line and changes nothing in between.
pub proof fn law_color_only_wraps_lines(
    text: Seq<char>,
    initial: Seq<char>,
    cont: Seq<char>,
    style: Style,
    width: Option<usize>,
)
    requires
        text.len() > 0,
        style != Style::Plain,
    ensures
        spec_write_line(text, initial, cont, style, Terminal { width, color: true })
            == style_code(style) + spec_rendered(text, initial, cont, Terminal { width, color: false })
            + reset_code() + "\n"@,
        spec_write_line(text, initial, cont, style, Terminal { width, color: false })
            == spec_rendered(text, initial, cont, Terminal { width, color: false }) + "\n"@,
{
}

/// A definition with HTML that gets no structured plan falls back whole to its
/// readable rendering: `--full` changes nothing, and nothing is omitted, so no
/// footer is written; without a terminal width the record is the title line and
/// the rendered text with a final newline ensured.
pub proof fn law_unrecognized_html_falls_back_whole(
    name: Seq<char>,
    headword: Seq<char>,
    def: Seq<char>,
    o: Options,
    first: bool,
)
    requires
        spec_contains_html_tag(def),
        spec_parse(def, headword) is None,
    ensures
        spec_record(name, headword, def, Options { full: true, ..o }, first) == spec_record(
            name,
            headword,
            def,
            Options { full: false, ..o },
            first,
        ),
        o.raw || effective_terminal(o).width is None ==> spec_record(name, headword, def, o, first)
            == verbatim_record(
            spec_write_line(
                title_of(name, headword, o),
                Seq::empty(),
                Seq::empty(),
                Style::Heading,
                effective_terminal(o),
            ),
            spec_render(def, o.raw, spec_reference_targets(def)),
            first,
        ),
{
}

} // verus!
