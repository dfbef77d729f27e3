//! What colour adds to a record: style codes around some lines, and nothing else.
use vstd::prelude::*;
use crate::output::{
    blocks_from, effective_terminal, example_from, footer_text, other_from, sat_add_usize,
    sat_usize, sense_indent, spaces_seq, spec_example_count, spec_is_part_of_speech, spec_record,
    spec_render, spec_rendered, spec_write_line, spec_write_record, spec_write_structured,
    str_lines, sub_extra, terminal_from, title_of, Omissions, Options, Style, Terminal,
};
use crate::readable::spec_contains_html_tag;
use crate::structured::{spec_parse, spec_reference_targets, BlockView};
use crate::text::trim_end;

verus! {

/// The three style codes that colour output uses.
pub open spec fn is_style_code(c: Seq<char>) -> bool {
    c == "\x1b[1m"@ || c == "\x1b[2m"@ || c == "\x1b[0m"@
}

/// The text holds no escape character.
pub open spec fn no_esc(s: Seq<char>) -> bool {
    forall|k: int| 0 <= k < s.len() ==> s[k] != '\x1b'
}

/// The text with every style code removed, scanning from the left.
pub open spec fn erase_styles(s: Seq<char>) -> Seq<char>
    decreases s.len(),
{
    if s.len() == 0 {
        s
    } else if s.len() >= 4 && is_style_code(s.take(4)) {
        erase_styles(s.skip(4))
    } else {
        seq![s[0]] + erase_styles(s.skip(1))
    }
}

/// The same options on a terminal with colour.
pub open spec fn with_colour(o: Options) -> Options {
    Options { terminal: Terminal { color: true, ..o.terminal }, ..o }
}

/// `c` is `p` with style codes added: when `p` holds no escape character,
/// erasing the style codes of `c` followed by anything gives `p` followed by
/// the erased rest.
pub open spec fn styled_as(c: Seq<char>, p: Seq<char>) -> bool {
    no_esc(p) ==> forall|rest: Seq<char>| #[trigger] erase_styles(c + rest) == p + erase_styles(rest)
}

proof fn lemma_codes()
    ensures
        "\x1b[1m"@ =~= seq!['\x1b', '[', '1', 'm'],
        "\x1b[2m"@ =~= seq!['\x1b', '[', '2', 'm'],
        "\x1b[0m"@ =~= seq!['\x1b', '[', '0', 'm'],
        "\n"@ =~= seq!['\n'],
{
    reveal_strlit("\x1b[1m");
    reveal_strlit("\x1b[2m");
    reveal_strlit("\x1b[0m");
    reveal_strlit("\n");
}

proof fn lemma_erase_plain(a: Seq<char>, b: Seq<char>)
    requires
        no_esc(a),
    ensures
        erase_styles(a + b) == a + erase_styles(b),
    decreases a.len(),
{
    if a.len() == 0 {
        assert(a + b =~= b);
        assert(a + erase_styles(b) =~= erase_styles(b));
    } else {
        lemma_codes();
        let s = a + b;
        assert(s[0] == a[0]);
        if s.len() >= 4 {
            assert(s.take(4)[0] == a[0]);
        }
        assert(s.skip(1) =~= a.skip(1) + b);
        lemma_erase_plain(a.skip(1), b);
        assert(seq![a[0]] + (a.skip(1) + erase_styles(b)) =~= a + erase_styles(b));
    }
}

proof fn lemma_erase_code(c: Seq<char>, b: Seq<char>)
    requires
        is_style_code(c),
    ensures
        erase_styles(c + b) == erase_styles(b),
{
    lemma_codes();
    assert((c + b).take(4) =~= c);
    assert((c + b).skip(4) =~= b);
}

proof fn lemma_styled_same(x: Seq<char>)
    ensures
        styled_as(x, x),
{
    if no_esc(x) {
        assert forall|rest: Seq<char>| #[trigger] erase_styles(x + rest) == x + erase_styles(rest) by {
            lemma_erase_plain(x, rest);
        }
    }
}

proof fn lemma_styled_concat(c1: Seq<char>, p1: Seq<char>, c2: Seq<char>, p2: Seq<char>)
    requires
        styled_as(c1, p1),
        styled_as(c2, p2),
    ensures
        styled_as(c1 + c2, p1 + p2),
{
    if no_esc(p1 + p2) {
        assert(no_esc(p1)) by {
            assert forall|k: int| 0 <= k < p1.len() implies p1[k] != '\x1b' by {
                assert((p1 + p2)[k] == p1[k]);
            }
        }
        assert(no_esc(p2)) by {
            assert forall|k: int| 0 <= k < p2.len() implies p2[k] != '\x1b' by {
                assert((p1 + p2)[p1.len() + k] == p2[k]);
            }
        }
        assert forall|rest: Seq<char>| #[trigger] erase_styles((c1 + c2) + rest) == (p1 + p2)
            + erase_styles(rest) by {
            assert((c1 + c2) + rest =~= c1 + (c2 + rest));
            assert(erase_styles(c1 + (c2 + rest)) == p1 + erase_styles(c2 + rest));
            assert(erase_styles(c2 + rest) == p2 + erase_styles(rest));
            assert(p1 + (p2 + erase_styles(rest)) =~= (p1 + p2) + erase_styles(rest));
        }
    }
}

proof fn lemma_line(text: Seq<char>, initial: Seq<char>, cont: Seq<char>, style: Style, t: Terminal)
    ensures
        styled_as(
            spec_write_line(text, initial, cont, style, Terminal { color: true, ..t }),
            spec_write_line(text, initial, cont, style, Terminal { color: false, ..t }),
        ),
{
    let tc = Terminal { color: true, ..t };
    let tp = Terminal { color: false, ..t };
    assert(spec_rendered(text, initial, cont, tc) == spec_rendered(text, initial, cont, tp));
    if text.len() == 0 || style == Style::Plain {
        lemma_styled_same(spec_write_line(text, initial, cont, style, tp));
    } else {
        lemma_codes();
        let r = spec_rendered(text, initial, cont, tp);
        let code = if style == Style::Heading { "\x1b[1m"@ } else { "\x1b[2m"@ };
        let reset = "\x1b[0m"@;
        let nl = "\n"@;
        let p = spec_write_line(text, initial, cont, style, tp);
        assert(p == r + nl);
        if no_esc(p) {
            assert(no_esc(r)) by {
                assert forall|k: int| 0 <= k < r.len() implies r[k] != '\x1b' by {
                    assert(p[k] == r[k]);
                }
            }
            assert(no_esc(nl));
            assert forall|rest: Seq<char>| #[trigger] erase_styles(
                spec_write_line(text, initial, cont, style, tc) + rest,
            ) == p + erase_styles(rest) by {
                assert(spec_write_line(text, initial, cont, style, tc) + rest =~= code + (r + (reset
                    + (nl + rest))));
                lemma_erase_code(code, r + (reset + (nl + rest)));
                lemma_erase_plain(r, reset + (nl + rest));
                lemma_erase_code(reset, nl + rest);
                lemma_erase_plain(nl, rest);
                assert(r + (nl + erase_styles(rest)) =~= p + erase_styles(rest));
            }
        }
    }
}

proof fn lemma_example(lines: Seq<Seq<char>>, j: int, initial: Seq<char>, cont: Seq<char>, t: Terminal)
    ensures
        styled_as(
            example_from(lines, j, initial, cont, Terminal { color: true, ..t }),
            example_from(lines, j, initial, cont, Terminal { color: false, ..t }),
        ),
    decreases lines.len() - j,
{
    if j < 0 || j >= lines.len() {
        lemma_styled_same(Seq::empty());
    } else {
        let text = if j == 0 { "> "@ + lines[j] } else { lines[j] };
        let indent = if j == 0 { initial } else { cont };
        lemma_line(text, indent, cont, Style::Muted, t);
        lemma_example(lines, j + 1, initial, cont, t);
        lemma_styled_concat(
            spec_write_line(text, indent, cont, Style::Muted, Terminal { color: true, ..t }),
            spec_write_line(text, indent, cont, Style::Muted, Terminal { color: false, ..t }),
            example_from(lines, j + 1, initial, cont, Terminal { color: true, ..t }),
            example_from(lines, j + 1, initial, cont, Terminal { color: false, ..t }),
        );
    }
}

proof fn lemma_other(lines: Seq<Seq<char>>, j: int, t: Terminal)
    ensures
        styled_as(
            other_from(lines, j, Terminal { color: true, ..t }),
            other_from(lines, j, Terminal { color: false, ..t }),
        ),
    decreases lines.len() - j,
{
    if j < 0 || j >= lines.len() {
        lemma_styled_same(Seq::empty());
    } else {
        lemma_line(lines[j], "  "@, "  "@, Style::Plain, t);
        lemma_other(lines, j + 1, t);
        lemma_styled_concat(
            spec_write_line(lines[j], "  "@, "  "@, Style::Plain, Terminal { color: true, ..t }),
            spec_write_line(lines[j], "  "@, "  "@, Style::Plain, Terminal { color: false, ..t }),
            other_from(lines, j + 1, Terminal { color: true, ..t }),
            other_from(lines, j + 1, Terminal { color: false, ..t }),
        );
    }
}

proof fn lemma_terminal(lines: Seq<Seq<char>>, j: int, t: Terminal)
    ensures
        styled_as(
            terminal_from(lines, j, Terminal { color: true, ..t }),
            terminal_from(lines, j, Terminal { color: false, ..t }),
        ),
    decreases lines.len() - j,
{
    if j < 0 || j >= lines.len() {
        lemma_styled_same(Seq::empty());
    } else {
        lemma_line(lines[j], Seq::empty(), Seq::empty(), Style::Plain, t);
        lemma_terminal(lines, j + 1, t);
        let tc = Terminal { color: true, ..t };
        let tp = Terminal { color: false, ..t };
        let lc = if lines[j].len() == 0 {
            "\n"@
        } else {
            spec_write_line(lines[j], Seq::empty(), Seq::empty(), Style::Plain, tc)
        };
        let lp = if lines[j].len() == 0 {
            "\n"@
        } else {
            spec_write_line(lines[j], Seq::empty(), Seq::empty(), Style::Plain, tp)
        };
        lemma_styled_same("\n"@);
        lemma_styled_concat(lc, lp, terminal_from(lines, j + 1, tc), terminal_from(lines, j + 1, tp));
    }
}

/// What one block that is not an etymology shown in full writes, with the indent
/// and omissions after it.
pub open spec fn block_step(b: BlockView, o: Options, indent: usize, om: Omissions) -> (
    Seq<char>,
    usize,
    Omissions,
) {
    let t = o.terminal;
    match b {
        BlockView::Heading(h) => (
            "\n"@ + spec_write_line(h, Seq::empty(), Seq::empty(), Style::Heading, t),
            indent,
            om,
        ),
        BlockView::Label(l) => {
            let style = if spec_is_part_of_speech(l) { Style::Heading } else { Style::Muted };
            let piece = if l.len() > 0 {
                "\n"@ + spec_write_line(l, "  "@, "  "@, style, t)
            } else {
                Seq::empty()
            };
            (piece, indent, om)
        },
        BlockView::Sense { number, text } => {
            let sep = if number.len() > 0 || text.len() > 0 { "\n"@ } else { Seq::empty() };
            let ind = sense_indent(number);
            let line = if number.len() == 0 { text } else { number + " "@ + text };
            (
                sep + spec_write_line(trim_end(line), "  "@, spaces_seq(ind as nat), Style::Plain, t),
                ind,
                om,
            )
        },
        BlockView::Definition { text, subsense, starts_subsense } => {
            let initial = spaces_seq(sat_usize(indent + sub_extra(subsense && !starts_subsense)) as nat);
            let cont = spaces_seq(sat_usize(indent + sub_extra(subsense)) as nat);
            let piece = if starts_subsense {
                "\n"@ + spec_write_line("- "@ + text, initial, cont, Style::Plain, t)
            } else {
                spec_write_line(text, initial, cont, Style::Plain, t)
            };
            (piece, indent, om)
        },
        BlockView::Example { lines, first_direct, subsense } => {
            if o.full || first_direct {
                let initial = spaces_seq(sat_usize(indent + sub_extra(subsense)) as nat);
                let cont = initial + "  "@;
                ("\n"@ + example_from(lines, 0, initial, cont, t), indent, om)
            } else {
                (Seq::empty(), indent, Omissions { examples: sat_add_usize(om.examples, 1), ..om })
            }
        },
        BlockView::Etymology(inner) => {
            if inner.len() > 0 {
                (
                    Seq::empty(),
                    indent,
                    Omissions {
                        examples: sat_add_usize(om.examples, spec_example_count(inner)),
                        etymology: true,
                    },
                )
            } else {
                (Seq::empty(), indent, om)
            }
        },
        BlockView::Other(text) => (other_from(str_lines(text), 0, t), indent, om),
    }
}

proof fn lemma_blocks_step(
    bs: Seq<BlockView>,
    i: int,
    o: Options,
    out: Seq<char>,
    indent: usize,
    om: Omissions,
)
    requires
        0 <= i < bs.len(),
        !(o.full && bs[i] is Etymology),
    ensures
        blocks_from(bs, i, o, out, indent, om) == blocks_from(
            bs,
            i + 1,
            o,
            out + block_step(bs[i], o, indent, om).0,
            block_step(bs[i], o, indent, om).1,
            block_step(bs[i], o, indent, om).2,
        ),
{
    let t = o.terminal;
    match bs[i] {
        BlockView::Heading(h) => {
            assert(out + "\n"@ + spec_write_line(h, Seq::empty(), Seq::empty(), Style::Heading, t)
                =~= out + block_step(bs[i], o, indent, om).0);
        },
        BlockView::Label(l) => {
            let style = if spec_is_part_of_speech(l) { Style::Heading } else { Style::Muted };
            if l.len() > 0 {
                assert(out + "\n"@ + spec_write_line(l, "  "@, "  "@, style, t) =~= out
                    + block_step(bs[i], o, indent, om).0);
            } else {
                assert(out =~= out + block_step(bs[i], o, indent, om).0);
            }
        },
        BlockView::Sense { number, text } => {
            let out1 = if number.len() > 0 || text.len() > 0 { out + "\n"@ } else { out };
            let ind = sense_indent(number);
            let line = if number.len() == 0 { text } else { number + " "@ + text };
            assert(out1 + spec_write_line(trim_end(line), "  "@, spaces_seq(ind as nat), Style::Plain, t)
                =~= out + block_step(bs[i], o, indent, om).0);
        },
        BlockView::Definition { text, subsense, starts_subsense } => {
            let initial = spaces_seq(sat_usize(indent + sub_extra(subsense && !starts_subsense)) as nat);
            let cont = spaces_seq(sat_usize(indent + sub_extra(subsense)) as nat);
            if starts_subsense {
                assert(out + "\n"@ + spec_write_line("- "@ + text, initial, cont, Style::Plain, t)
                    =~= out + block_step(bs[i], o, indent, om).0);
            }
        },
        BlockView::Example { lines, first_direct, subsense } => {
            if o.full || first_direct {
                let initial = spaces_seq(sat_usize(indent + sub_extra(subsense)) as nat);
                let cont = initial + "  "@;
                assert(out + "\n"@ + example_from(lines, 0, initial, cont, t) =~= out + block_step(
                    bs[i],
                    o,
                    indent,
                    om,
                ).0);
            } else {
                assert(out =~= out + block_step(bs[i], o, indent, om).0);
            }
        },
        BlockView::Etymology(inner) => {
            assert(out =~= out + block_step(bs[i], o, indent, om).0);
        },
        BlockView::Other(text) => {},
    }
}

proof fn lemma_blocks_acc(
    bs: Seq<BlockView>,
    i: int,
    o: Options,
    out: Seq<char>,
    indent: usize,
    om: Omissions,
)
    ensures
        blocks_from(bs, i, o, out, indent, om).0 == out + blocks_from(
            bs,
            i,
            o,
            Seq::empty(),
            indent,
            om,
        ).0,
        blocks_from(bs, i, o, out, indent, om).1 == blocks_from(bs, i, o, Seq::empty(), indent, om).1,
    decreases bs, bs.len() - i,
{
    if i < 0 || i >= bs.len() {
        assert(out + Seq::<char>::empty() =~= out);
    } else if o.full && bs[i] is Etymology {
        let inner = bs[i]->Etymology_0;
        lemma_blocks_acc(inner, 0, o, out, 2, om);
        let (a, om2) = blocks_from(inner, 0, o, Seq::empty(), 2, om);
        lemma_blocks_acc(bs, i + 1, o, out + a, indent, om2);
        lemma_blocks_acc(bs, i + 1, o, a, indent, om2);
        let b = blocks_from(bs, i + 1, o, Seq::empty(), indent, om2).0;
        assert((out + a) + b =~= out + (a + b));
    } else {
        let st = block_step(bs[i], o, indent, om);
        lemma_blocks_step(bs, i, o, out, indent, om);
        lemma_blocks_step(bs, i, o, Seq::empty(), indent, om);
        lemma_blocks_acc(bs, i + 1, o, out + st.0, st.1, st.2);
        lemma_blocks_acc(bs, i + 1, o, Seq::<char>::empty() + st.0, st.1, st.2);
        let b = blocks_from(bs, i + 1, o, Seq::empty(), st.1, st.2).0;
        assert(Seq::<char>::empty() + st.0 =~= st.0);
        assert((out + st.0) + b =~= out + (st.0 + b));
    }
}

proof fn lemma_step_styles(b: BlockView, o: Options, indent: usize, om: Omissions)
    requires
        !o.terminal.color,
    ensures
        block_step(b, with_colour(o), indent, om).1 == block_step(b, o, indent, om).1,
        block_step(b, with_colour(o), indent, om).2 == block_step(b, o, indent, om).2,
        styled_as(block_step(b, with_colour(o), indent, om).0, block_step(b, o, indent, om).0),
{
    let t = o.terminal;
    let tc = with_colour(o).terminal;
    assert(t == Terminal { color: false, ..t });
    assert(tc == Terminal { color: true, ..t });
    lemma_styled_same("\n"@);
    lemma_styled_same(Seq::empty());
    match b {
        BlockView::Heading(h) => {
            lemma_line(h, Seq::empty(), Seq::empty(), Style::Heading, t);
            lemma_styled_concat(
                "\n"@,
                "\n"@,
                spec_write_line(h, Seq::empty(), Seq::empty(), Style::Heading, tc),
                spec_write_line(h, Seq::empty(), Seq::empty(), Style::Heading, t),
            );
        },
        BlockView::Label(l) => {
            let style = if spec_is_part_of_speech(l) { Style::Heading } else { Style::Muted };
            lemma_line(l, "  "@, "  "@, style, t);
            lemma_styled_concat(
                "\n"@,
                "\n"@,
                spec_write_line(l, "  "@, "  "@, style, tc),
                spec_write_line(l, "  "@, "  "@, style, t),
            );
        },
        BlockView::Sense { number, text } => {
            let sep = if number.len() > 0 || text.len() > 0 { "\n"@ } else { Seq::empty() };
            let ind = sense_indent(number);
            let line = if number.len() == 0 { text } else { number + " "@ + text };
            lemma_styled_same(sep);
            lemma_line(trim_end(line), "  "@, spaces_seq(ind as nat), Style::Plain, t);
            lemma_styled_concat(
                sep,
                sep,
                spec_write_line(trim_end(line), "  "@, spaces_seq(ind as nat), Style::Plain, tc),
                spec_write_line(trim_end(line), "  "@, spaces_seq(ind as nat), Style::Plain, t),
            );
        },
        BlockView::Definition { text, subsense, starts_subsense } => {
            let initial = spaces_seq(sat_usize(indent + sub_extra(subsense && !starts_subsense)) as nat);
            let cont = spaces_seq(sat_usize(indent + sub_extra(subsense)) as nat);
            lemma_line("- "@ + text, initial, cont, Style::Plain, t);
            lemma_line(text, initial, cont, Style::Plain, t);
            lemma_styled_concat(
                "\n"@,
                "\n"@,
                spec_write_line("- "@ + text, initial, cont, Style::Plain, tc),
                spec_write_line("- "@ + text, initial, cont, Style::Plain, t),
            );
        },
        BlockView::Example { lines, first_direct, subsense } => {
            let initial = spaces_seq(sat_usize(indent + sub_extra(subsense)) as nat);
            let cont = initial + "  "@;
            lemma_example(lines, 0, initial, cont, t);
            lemma_styled_concat(
                "\n"@,
                "\n"@,
                example_from(lines, 0, initial, cont, tc),
                example_from(lines, 0, initial, cont, t),
            );
        },
        BlockView::Etymology(_) => {},
        BlockView::Other(text) => {
            lemma_other(str_lines(text), 0, t);
        },
    }
}

proof fn lemma_blocks_styles(bs: Seq<BlockView>, i: int, o: Options, indent: usize, om: Omissions)
    requires
        !o.terminal.color,
    ensures
        blocks_from(bs, i, with_colour(o), Seq::empty(), indent, om).1 == blocks_from(
            bs,
            i,
            o,
            Seq::empty(),
            indent,
            om,
        ).1,
        styled_as(
            blocks_from(bs, i, with_colour(o), Seq::empty(), indent, om).0,
            blocks_from(bs, i, o, Seq::empty(), indent, om).0,
        ),
    decreases bs, bs.len() - i,
{
    let oc = with_colour(o);
    if i < 0 || i >= bs.len() {
        lemma_styled_same(Seq::empty());
    } else if o.full && bs[i] is Etymology {
        let inner = bs[i]->Etymology_0;
        lemma_blocks_styles(inner, 0, o, 2, om);
        let (ac, omc) = blocks_from(inner, 0, oc, Seq::empty(), 2, om);
        let (ap, omp) = blocks_from(inner, 0, o, Seq::empty(), 2, om);
        lemma_blocks_acc(bs, i + 1, oc, ac, indent, omc);
        lemma_blocks_acc(bs, i + 1, o, ap, indent, omp);
        lemma_blocks_styles(bs, i + 1, o, indent, omp);
        lemma_styled_concat(
            ac,
            ap,
            blocks_from(bs, i + 1, oc, Seq::empty(), indent, omp).0,
            blocks_from(bs, i + 1, o, Seq::empty(), indent, omp).0,
        );
    } else {
        let sc = block_step(bs[i], oc, indent, om);
        let sp = block_step(bs[i], o, indent, om);
        lemma_step_styles(bs[i], o, indent, om);
        lemma_blocks_step(bs, i, oc, Seq::empty(), indent, om);
        lemma_blocks_step(bs, i, o, Seq::empty(), indent, om);
        assert(Seq::<char>::empty() + sc.0 =~= sc.0);
        assert(Seq::<char>::empty() + sp.0 =~= sp.0);
        lemma_blocks_acc(bs, i + 1, oc, sc.0, sp.1, sp.2);
        lemma_blocks_acc(bs, i + 1, o, sp.0, sp.1, sp.2);
        lemma_blocks_styles(bs, i + 1, o, sp.1, sp.2);
        lemma_styled_concat(
            sc.0,
            sp.0,
            blocks_from(bs, i + 1, oc, Seq::empty(), sp.1, sp.2).0,
            blocks_from(bs, i + 1, o, Seq::empty(), sp.1, sp.2).0,
        );
    }
}

proof fn lemma_structured_styles(bs: Seq<BlockView>, o: Options)
    requires
        !o.terminal.color,
    ensures
        styled_as(spec_write_structured(bs, with_colour(o)), spec_write_structured(bs, o)),
{
    let zero = Omissions { examples: 0, etymology: false };
    lemma_blocks_styles(bs, 0, o, 2, zero);
    let (bc, om) = blocks_from(bs, 0, with_colour(o), Seq::empty(), 2, zero);
    let bp = blocks_from(bs, 0, o, Seq::empty(), 2, zero).0;
    if om.examples > 0 || om.etymology {
        let t = o.terminal;
        assert(t == Terminal { color: false, ..t });
        lemma_line(footer_text(om), Seq::empty(), Seq::empty(), Style::Muted, t);
        lemma_styled_same("\n"@);
        lemma_styled_concat(bc, bp, "\n"@, "\n"@);
        lemma_styled_concat(
            bc + "\n"@,
            bp + "\n"@,
            spec_write_line(footer_text(om), Seq::empty(), Seq::empty(), Style::Muted, with_colour(o).terminal),
            spec_write_line(footer_text(om), Seq::empty(), Seq::empty(), Style::Muted, t),
        );
    }
}

/// Colour only adds style codes: when a record written without colour holds no
/// escape character, removing the style codes from the same record written with
/// colour gives it back.
pub proof fn law_colour_adds_only_style_codes(
    name: Seq<char>,
    headword: Seq<char>,
    def: Seq<char>,
    o: Options,
    first: bool,
)
    requires
        !o.terminal.color,
        no_esc(spec_record(name, headword, def, o, first)),
    ensures
        erase_styles(spec_record(name, headword, def, with_colour(o), first)) == spec_record(
            name,
            headword,
            def,
            o,
            first,
        ),
{
    let oc = with_colour(o);
    let plan = spec_parse(def, headword);
    let refs = spec_reference_targets(def);
    let c = spec_write_record(name, headword, def, oc, first, plan, refs);
    let p = spec_write_record(name, headword, def, o, first, plan, refs);
    let sep = if first { Seq::empty() } else { "\n"@ };
    let tc = effective_terminal(oc);
    let tp = effective_terminal(o);
    let title = title_of(name, headword, o);
    assert(title_of(name, headword, oc) == title);
    let hc = sep + spec_write_line(title, Seq::empty(), Seq::empty(), Style::Heading, tc);
    let hp = sep + spec_write_line(title, Seq::empty(), Seq::empty(), Style::Heading, tp);
    lemma_styled_same(sep);
    if o.raw {
        assert(tc == tp);
        lemma_styled_same(p);
        assert(c == p);
    } else {
        assert(tp == Terminal { color: false, ..tp });
        assert(tc == Terminal { color: true, ..tp });
        lemma_line(title, Seq::empty(), Seq::empty(), Style::Heading, tp);
        lemma_styled_concat(
            sep,
            sep,
            spec_write_line(title, Seq::empty(), Seq::empty(), Style::Heading, tc),
            spec_write_line(title, Seq::empty(), Seq::empty(), Style::Heading, tp),
        );
        let html = spec_contains_html_tag(def);
        if html && plan is Some {
            lemma_structured_styles(plan->0, o);
            lemma_styled_concat(hc, hp, spec_write_structured(plan->0, oc), spec_write_structured(plan->0, o));
        } else {
            let d = spec_render(def, false, refs);
            if html && tp.width is Some {
                lemma_terminal(str_lines(d), 0, tp);
                lemma_styled_concat(hc, hp, terminal_from(str_lines(d), 0, tc), terminal_from(str_lines(d), 0, tp));
            } else {
                let tail = if d.len() > 0 && d.last() == '\n' { d } else { d + "\n"@ };
                lemma_styled_same(tail);
                lemma_styled_concat(hc, hp, tail, tail);
                assert(c =~= hc + tail);
                assert(p =~= hp + tail);
            }
        }
    }
    assert(erase_styles(c + Seq::empty()) == p + erase_styles(Seq::<char>::empty()));
    assert(c + Seq::<char>::empty() =~= c);
    assert(p + erase_styles(Seq::<char>::empty()) =~= p);
}

} // verus!
