//! Generic HTML-to-text conversion used for definitions whose structure is not
//! recognized. Positions are character indices into the definition.
#![verifier::loop_isolation(false)]
use vstd::prelude::*;
use crate::text::{
    eq_ignore_case, is_alnum, is_alpha, is_ascii_alphabetic, is_ascii_alphanumeric,
    is_ascii_whitespace, is_ascii_ws, is_digit, is_ws, is_whitespace, range_eq_ignore_case,
    to_chars, trim_end, trim_end_bound, trim_start, trim_start_bound,
};

verus! {

/// Whether the text holds something shaped like an HTML start or end tag.
pub open spec fn has_tag_at(h: Seq<char>, i: int) -> bool {
    &&& 0 <= i < h.len()
    &&& h[i] == '<'
    &&& ((i + 1 < h.len() && is_alpha(h[i + 1])) || (i + 2 < h.len() && h[i + 1] == '/'
        && is_alpha(h[i + 2])))
}

pub open spec fn spec_contains_html_tag(h: Seq<char>) -> bool {
    exists|i: int| has_tag_at(h, i)
}

pub fn contains_html_tag_chars(h: &Vec<char>) -> (r: bool)
    ensures
        r == spec_contains_html_tag(h@),
{
    let mut i: usize = 0;
    while i < h.len()
        invariant
            i <= h.len(),
            forall|j: int| 0 <= j < i ==> !has_tag_at(h@, j),
        decreases h.len() - i,
    {
        if h[i] == '<' {
            let mut j = i + 1;
            if j < h.len() && h[j] == '/' {
                j += 1;
            }
            if j < h.len() && is_ascii_alphabetic(h[j]) {
                assert(has_tag_at(h@, i as int));
                return true;
            }
        }
        i += 1;
    }
    false
}

pub fn contains_html_tag(value: &str) -> (r: bool)
    ensures
        r == spec_contains_html_tag(value@),
{
    let h = to_chars(value);
    contains_html_tag_chars(&h)
}

/// First index at or after `i` that holds `c`.
pub open spec fn find_char(h: Seq<char>, i: int, c: char) -> Option<int>
    decreases h.len() - i,
{
    if i < 0 || i >= h.len() {
        None
    } else if h[i] == c {
        Some(i)
    } else {
        find_char(h, i + 1, c)
    }
}

pub open spec fn starts_at(h: Seq<char>, i: int, p: Seq<char>) -> bool {
    0 <= i && i + p.len() <= h.len() && h.subrange(i, i + p.len()) == p
}

/// First index at or after `i` where `p` starts.
pub open spec fn find_seq(h: Seq<char>, i: int, p: Seq<char>) -> Option<int>
    decreases h.len() - i,
{
    if i < 0 || i + p.len() > h.len() {
        None
    } else if h.subrange(i, i + p.len()) == p {
        Some(i)
    } else if i >= h.len() {
        None
    } else {
        find_seq(h, i + 1, p)
    }
}

pub proof fn lemma_find_char_bounds(h: Seq<char>, i: int, c: char)
    ensures
        find_char(h, i, c) matches Some(k) ==> i <= k < h.len() && h[k] == c,
    decreases h.len() - i,
{
    if 0 <= i < h.len() && h[i] != c {
        lemma_find_char_bounds(h, i + 1, c);
    }
}

pub proof fn lemma_find_seq_bounds(h: Seq<char>, i: int, p: Seq<char>)
    ensures
        find_seq(h, i, p) matches Some(k) ==> i <= k && k + p.len() <= h.len(),
    decreases h.len() - i,
{
    if !(i < 0 || i + p.len() > h.len()) && h.subrange(i, i + p.len()) != p && i < h.len() {
        lemma_find_seq_bounds(h, i + 1, p);
    }
}

pub fn find_char_exec(h: &Vec<char>, from: usize, c: char) -> (r: Option<usize>)
    requires
        from <= h.len(),
    ensures
        r matches Some(k) ==> find_char(h@, from as int, c) == Some(k as int),
        r is None ==> find_char(h@, from as int, c) is None,
{
    let mut i = from;
    while i < h.len()
        invariant
            from <= i <= h.len(),
            find_char(h@, from as int, c) == find_char(h@, i as int, c),
        decreases h.len() - i,
    {
        if h[i] == c {
            return Some(i);
        }
        i += 1;
    }
    None
}

fn starts_at_exec(h: &Vec<char>, i: usize, p: &Vec<char>) -> (r: bool)
    requires
        i <= h.len(),
    ensures
        r == starts_at(h@, i as int, p@),
{
    if p.len() > h.len() - i {
        return false;
    }
    let mut k: usize = 0;
    while k < p.len()
        invariant
            k <= p.len(),
            i + p.len() <= h.len(),
            forall|j: int| 0 <= j < k ==> h@[i + j] == p@[j],
        decreases p.len() - k,
    {
        if h[i + k] != p[k] {
            assert(h@.subrange(i as int, i + p.len())[k as int] != p@[k as int]);
            return false;
        }
        k += 1;
    }
    assert(h@.subrange(i as int, i + p.len()) =~= p@);
    true
}

fn find_seq_exec(h: &Vec<char>, from: usize, p: &Vec<char>) -> (r: Option<usize>)
    requires
        from <= h.len(),
    ensures
        r matches Some(k) ==> find_seq(h@, from as int, p@) == Some(k as int),
        r is None ==> find_seq(h@, from as int, p@) is None,
{
    let mut i = from;
    while i < h.len()
        invariant
            from <= i <= h.len(),
            find_seq(h@, from as int, p@) == find_seq(h@, i as int, p@),
        decreases h.len() - i,
    {
        if starts_at_exec(h, i, p) {
            return Some(i);
        }
        if p.len() > h.len() - i {
            return None;
        }
        i += 1;
    }
    if p.len() == 0 {
        assert(h@.subrange(i as int, i as int) =~= p@);
        return Some(i);
    }
    None
}

/// A tag as the scanner reads it: the name is `h[name_start..name_end]`.
#[derive(Clone, Copy)]
pub struct ParsedTag {
    pub name_start: usize,
    pub name_end: usize,
    pub closing: bool,
    pub self_closing: bool,
    pub end: usize,
}

/// The mathematical form of a `ParsedTag`.
pub struct TagSpec {
    pub name_start: int,
    pub name_end: int,
    pub closing: bool,
    pub self_closing: bool,
    pub end: int,
}

impl View for ParsedTag {
    type V = TagSpec;

    open spec fn view(&self) -> TagSpec {
        TagSpec {
            name_start: self.name_start as int,
            name_end: self.name_end as int,
            closing: self.closing,
            self_closing: self.self_closing,
            end: self.end as int,
        }
    }
}

pub open spec fn opt_view<T: View>(o: Option<T>) -> Option<T::V> {
    match o {
        Some(t) => Some(t@),
        None => None,
    }
}

pub open spec fn name_end_from(h: Seq<char>, i: int) -> int
    decreases h.len() - i,
{
    if 0 <= i < h.len() && (is_alnum(h[i]) || h[i] == '-') {
        name_end_from(h, i + 1)
    } else {
        i
    }
}

/// The attribute part of a tag: the index of the closing `>` outside quotes, and
/// whether a `/` stood there with only ASCII whitespace after it.
pub open spec fn attrs_end(h: Seq<char>, i: int, quote: Option<char>, sc: bool) -> Option<
    (int, bool),
>
    decreases h.len() - i,
{
    if i < 0 || i >= h.len() {
        None
    } else if quote is Some {
        attrs_end(h, i + 1, if h[i] == quote->0 { None } else { quote }, sc)
    } else if h[i] == '"' || h[i] == '\'' {
        attrs_end(h, i + 1, Some(h[i]), sc)
    } else if h[i] == '>' {
        Some((i, sc))
    } else if h[i] == '/' {
        attrs_end(h, i + 1, None, true)
    } else {
        attrs_end(h, i + 1, None, if !is_ascii_ws(h[i]) { false } else { sc })
    }
}

pub open spec fn ends_with_slash(s: Seq<char>) -> bool {
    trim_end(s).len() > 0 && trim_end(s).last() == '/'
}

/// The tag that starts at `pos`, if the text there is a complete tag.
pub open spec fn spec_parse_tag(h: Seq<char>, pos: int) -> Option<TagSpec> {
    if pos < 0 || pos >= h.len() || h[pos] != '<' {
        None
    } else {
        let closing = pos + 1 < h.len() && h[pos + 1] == '/';
        let ns = if closing { pos + 2 } else { pos + 1 };
        if ns >= h.len() || !is_alpha(h[ns]) {
            None
        } else {
            let ne = name_end_from(h, ns + 1);
            match attrs_end(h, ne, None, false) {
                None => None,
                Some((gt, sc)) => Some(
                    TagSpec {
                        name_start: ns,
                        name_end: ne,
                        closing,
                        self_closing: sc || ends_with_slash(h.subrange(ne, gt)),
                        end: gt + 1,
                    },
                ),
            }
        }
    }
}

pub proof fn lemma_name_end_bounds(h: Seq<char>, i: int)
    requires
        0 <= i <= h.len(),
    ensures
        i <= name_end_from(h, i) <= h.len(),
    decreases h.len() - i,
{
    if 0 <= i < h.len() && (is_alnum(h[i]) || h[i] == '-') {
        lemma_name_end_bounds(h, i + 1);
    }
}

pub proof fn lemma_attrs_end_bounds(h: Seq<char>, i: int, quote: Option<char>, sc: bool)
    ensures
        attrs_end(h, i, quote, sc) matches Some((gt, _)) ==> i <= gt < h.len(),
    decreases h.len() - i,
{
    if 0 <= i < h.len() {
        if quote is Some {
            lemma_attrs_end_bounds(h, i + 1, if h[i] == quote->0 { None } else { quote }, sc);
        } else if h[i] == '"' || h[i] == '\'' {
            lemma_attrs_end_bounds(h, i + 1, Some(h[i]), sc);
        } else if h[i] == '>' {
        } else if h[i] == '/' {
            lemma_attrs_end_bounds(h, i + 1, None, true);
        } else {
            lemma_attrs_end_bounds(h, i + 1, None, if !is_ascii_ws(h[i]) { false } else { sc });
        }
    }
}

pub proof fn lemma_parse_tag_bounds(h: Seq<char>, pos: int)
    ensures
        spec_parse_tag(h, pos) matches Some(t) ==> pos < t.name_start < t.name_end < t.end
            <= h.len() && t.name_end <= h.len(),
{
    if 0 <= pos < h.len() && h[pos] == '<' {
        let closing = pos + 1 < h.len() && h[pos + 1] == '/';
        let ns = if closing { pos + 2 } else { pos + 1 };
        if ns < h.len() && is_alpha(h[ns]) {
            lemma_name_end_bounds(h, ns + 1);
            let ne = name_end_from(h, ns + 1);
            lemma_attrs_end_bounds(h, ne, None, false);
        }
    }
}

pub fn parse_tag(h: &Vec<char>, pos: usize) -> (r: Option<ParsedTag>)
    ensures
        opt_view(r) == spec_parse_tag(h@, pos as int),
{
    if pos >= h.len() || h[pos] != '<' {
        return None;
    }
    let mut i = pos + 1;
    let closing = i < h.len() && h[i] == '/';
    if closing {
        i += 1;
    }
    let name_start = i;
    if i >= h.len() || !is_ascii_alphabetic(h[i]) {
        return None;
    }
    i += 1;
    while i < h.len() && (is_ascii_alphanumeric(h[i]) || h[i] == '-')
        invariant
            name_start < i <= h.len(),
            name_end_from(h@, name_start + 1) == name_end_from(h@, i as int),
        decreases h.len() - i,
    {
        i += 1;
    }
    let name_end = i;
    let mut quote: Option<char> = None;
    let mut self_closing = false;
    while i < h.len()
        invariant
            name_end <= i <= h.len(),
            attrs_end(h@, name_end as int, None, false) == attrs_end(
                h@,
                i as int,
                quote,
                self_closing,
            ),
        decreases h.len() - i,
    {
        let b = h[i];
        if let Some(q) = quote {
            if b == q {
                quote = None;
            }
            i += 1;
            continue;
        }
        if b == '"' || b == '\'' {
            quote = Some(b);
            i += 1;
        } else if b == '>' {
            let e = trim_end_bound(h, name_end, i);
            let slash = e > name_end && h[e - 1] == '/';
            proof {
                assert(trim_end(h@.subrange(name_end as int, i as int)) == h@.subrange(
                    name_end as int,
                    e as int,
                ));
                if e > name_end {
                    assert(h@.subrange(name_end as int, e as int).last() == h@[e - 1]);
                }
            }
            return Some(
                ParsedTag { name_start, name_end, closing, self_closing: self_closing || slash, end: i + 1 },
            );
        } else if b == '/' {
            self_closing = true;
            i += 1;
        } else {
            if !is_ascii_whitespace(b) {
                self_closing = false;
            }
            i += 1;
        }
    }
    None
}

/// `</name` (ASCII case ignored) starts at `i`.
pub open spec fn close_at(h: Seq<char>, i: int, name: Seq<char>) -> bool {
    &&& 0 <= i
    &&& i + 2 + name.len() <= h.len()
    &&& h[i] == '<'
    &&& h[i + 1] == '/'
    &&& eq_ignore_case(h.subrange(i + 2, i + 2 + name.len()), name)
}

/// Where the content of a raw-text element named `name` ends, searching from `i`:
/// just past the `>` of its first closing tag, or the end of the text.
pub open spec fn spec_skip_element(h: Seq<char>, i: int, name: Seq<char>) -> int
    decreases h.len() - i,
{
    if i < 0 || i >= h.len() {
        h.len() as int
    } else if close_at(h, i, name) {
        match find_char(h, i + 2 + name.len(), '>') {
            Some(k) => k + 1,
            None => h.len() as int,
        }
    } else {
        spec_skip_element(h, i + 1, name)
    }
}

pub proof fn lemma_skip_element_bounds(h: Seq<char>, i: int, name: Seq<char>)
    requires
        0 <= i,
    ensures
        i <= spec_skip_element(h, i, name) || i >= h.len(),
        spec_skip_element(h, i, name) <= h.len(),
        i >= h.len() ==> spec_skip_element(h, i, name) == h.len(),
    decreases h.len() - i,
{
    if 0 <= i < h.len() {
        if close_at(h, i, name) {
            lemma_find_char_bounds(h, i + 2 + name.len(), '>');
        } else {
            lemma_skip_element_bounds(h, i + 1, name);
        }
    }
}

pub fn skip_element(h: &Vec<char>, from: usize, name: &Vec<char>) -> (r: usize)
    requires
        from <= h.len(),
    ensures
        r == spec_skip_element(h@, from as int, name@),
{
    let mut i = from;
    while i < h.len()
        invariant
            from <= i <= h.len(),
            spec_skip_element(h@, from as int, name@) == spec_skip_element(h@, i as int, name@),
        decreases h.len() - i,
    {
        if h[i] == '<' && i + 1 < h.len() && h[i + 1] == '/' && name.len() <= h.len() - (i + 2)
            && range_eq_ignore_case(h, i + 2, name) {
            let after_name = i + 2 + name.len();
            match find_char_exec(h, after_name, '>') {
                Some(k) => {
                    proof {
                        lemma_find_char_bounds(h@, after_name as int, '>');
                    }
                    return k + 1;
                },
                None => {
                    return h.len();
                },
            }
        }
        i += 1;
    }
    h.len()
}

/// The tag's name equals `lit`, ASCII case ignored.
pub open spec fn name_is(h: Seq<char>, t: TagSpec, lit: Seq<char>) -> bool {
    eq_ignore_case(h.subrange(t.name_start, t.name_end), lit)
}

pub fn tag_name_is(h: &Vec<char>, t: &ParsedTag, lit: &str) -> (r: bool)
    requires
        t.name_start <= t.name_end <= h.len(),
    ensures
        r == name_is(h@, t@, lit@),
{
    let l = to_chars(lit);
    if l.len() != t.name_end - t.name_start {
        return false;
    }
    let r = range_eq_ignore_case(h, t.name_start, &l);
    r
}

pub open spec fn is_void_name(h: Seq<char>, t: TagSpec) -> bool {
    ||| name_is(h, t, "link"@)
    ||| name_is(h, t, "meta"@)
    ||| name_is(h, t, "base"@)
    ||| name_is(h, t, "img"@)
    ||| name_is(h, t, "input"@)
    ||| name_is(h, t, "source"@)
    ||| name_is(h, t, "track"@)
    ||| name_is(h, t, "wbr"@)
    ||| name_is(h, t, "area"@)
    ||| name_is(h, t, "col"@)
}

pub open spec fn is_block_name(h: Seq<char>, t: TagSpec) -> bool {
    ||| name_is(h, t, "p"@)
    ||| name_is(h, t, "div"@)
    ||| name_is(h, t, "tr"@)
    ||| name_is(h, t, "li"@)
    ||| name_is(h, t, "ul"@)
    ||| name_is(h, t, "ol"@)
    ||| name_is(h, t, "table"@)
    ||| name_is(h, t, "thead"@)
    ||| name_is(h, t, "tbody"@)
    ||| name_is(h, t, "tfoot"@)
    ||| name_is(h, t, "blockquote"@)
    ||| name_is(h, t, "section"@)
    ||| name_is(h, t, "article"@)
    ||| name_is(h, t, "header"@)
    ||| name_is(h, t, "footer"@)
    ||| name_is(h, t, "dt"@)
    ||| name_is(h, t, "dd"@)
    ||| name_is(h, t, "h1"@)
    ||| name_is(h, t, "h2"@)
    ||| name_is(h, t, "h3"@)
    ||| name_is(h, t, "h4"@)
    ||| name_is(h, t, "h5"@)
    ||| name_is(h, t, "h6"@)
    ||| name_is(h, t, "pre"@)
    ||| name_is(h, t, "figure"@)
    ||| name_is(h, t, "figcaption"@)
}

/// How a tag breaks the text: `Some(false)` a line break, `Some(true)` a blank line.
pub open spec fn spec_break_style(h: Seq<char>, t: TagSpec) -> Option<bool> {
    if name_is(h, t, "br"@) {
        Some(false)
    } else if name_is(h, t, "hr"@) {
        Some(true)
    } else if is_block_name(h, t) {
        Some(false)
    } else {
        None
    }
}

fn is_void_tag(h: &Vec<char>, t: &ParsedTag) -> (r: bool)
    requires
        t.name_start <= t.name_end <= h.len(),
    ensures
        r == is_void_name(h@, t@),
{
    tag_name_is(h, t, "link") || tag_name_is(h, t, "meta") || tag_name_is(h, t, "base")
        || tag_name_is(h, t, "img") || tag_name_is(h, t, "input") || tag_name_is(h, t, "source")
        || tag_name_is(h, t, "track") || tag_name_is(h, t, "wbr") || tag_name_is(h, t, "area")
        || tag_name_is(h, t, "col")
}

fn is_block_tag(h: &Vec<char>, t: &ParsedTag) -> (r: bool)
    requires
        t.name_start <= t.name_end <= h.len(),
    ensures
        r == is_block_name(h@, t@),
{
    tag_name_is(h, t, "p") || tag_name_is(h, t, "div") || tag_name_is(h, t, "tr")
        || tag_name_is(h, t, "li") || tag_name_is(h, t, "ul") || tag_name_is(h, t, "ol")
        || tag_name_is(h, t, "table") || tag_name_is(h, t, "thead") || tag_name_is(h, t, "tbody")
        || tag_name_is(h, t, "tfoot") || tag_name_is(h, t, "blockquote") || tag_name_is(
        h,
        t,
        "section",
    ) || tag_name_is(h, t, "article") || tag_name_is(h, t, "header") || tag_name_is(
        h,
        t,
        "footer",
    ) || tag_name_is(h, t, "dt") || tag_name_is(h, t, "dd") || tag_name_is(h, t, "h1")
        || tag_name_is(h, t, "h2") || tag_name_is(h, t, "h3") || tag_name_is(h, t, "h4")
        || tag_name_is(h, t, "h5") || tag_name_is(h, t, "h6") || tag_name_is(h, t, "pre")
        || tag_name_is(h, t, "figure") || tag_name_is(h, t, "figcaption")
}

pub fn break_style(h: &Vec<char>, t: &ParsedTag) -> (r: Option<bool>)
    requires
        t.name_start <= t.name_end <= h.len(),
    ensures
        r == spec_break_style(h@, t@),
{
    if tag_name_is(h, t, "br") {
        return Some(false);
    }
    if tag_name_is(h, t, "hr") {
        return Some(true);
    }
    if is_block_tag(h, t) {
        Some(false)
    } else {
        None
    }
}

/// What a `<` starts: markup skipped up to an index, or a break.
#[derive(Clone, Copy)]
pub enum Markup {
    Skip(usize),
    Break { next: usize, blank: bool },
}

/// The mathematical form of a `Markup`.
pub enum MarkupSpec {
    Skip(int),
    Break { next: int, blank: bool },
}

impl View for Markup {
    type V = MarkupSpec;

    open spec fn view(&self) -> MarkupSpec {
        match self {
            Markup::Skip(n) => MarkupSpec::Skip(*n as int),
            Markup::Break { next, blank } => MarkupSpec::Break { next: *next as int, blank: *blank },
        }
    }
}

pub open spec fn markup_next(m: MarkupSpec) -> int {
    match m {
        MarkupSpec::Skip(n) => n,
        MarkupSpec::Break { next, .. } => next,
    }
}

pub open spec fn spec_consume_markup(h: Seq<char>, pos: int) -> Option<MarkupSpec> {
    if starts_at(h, pos + 1, "!--"@) {
        Some(
            MarkupSpec::Skip(
                match find_seq(h, pos + 1, "-->"@) {
                    Some(k) => k + 3,
                    None => h.len() as int,
                },
            ),
        )
    } else if pos + 1 < h.len() && h[pos + 1] == '!' {
        Some(
            MarkupSpec::Skip(
                match find_char(h, pos + 1, '>') {
                    Some(k) => k + 1,
                    None => h.len() as int,
                },
            ),
        )
    } else {
        match spec_parse_tag(h, pos) {
            None => None,
            Some(t) => if !t.closing && !t.self_closing && (name_is(h, t, "script"@) || name_is(
                h,
                t,
                "style"@,
            )) {
                Some(
                    MarkupSpec::Skip(
                        spec_skip_element(
                            h,
                            t.end,
                            h.subrange(t.name_start, t.name_end),
                        ),
                    ),
                )
            } else if is_void_name(h, t) {
                Some(MarkupSpec::Skip(t.end))
            } else if spec_break_style(h, t) is Some {
                Some(MarkupSpec::Break { next: t.end, blank: spec_break_style(h, t)->0 })
            } else {
                Some(MarkupSpec::Skip(t.end))
            },
        }
    }
}

pub proof fn lemma_consume_markup_advances(h: Seq<char>, pos: int)
    requires
        0 <= pos < h.len(),
        h[pos] == '<',
    ensures
        spec_consume_markup(h, pos) matches Some(m) ==> pos < markup_next(m) <= h.len(),
{
    lemma_find_seq_bounds(h, pos + 1, "-->"@);
    lemma_find_char_bounds(h, pos + 1, '>');
    lemma_parse_tag_bounds(h, pos);
    reveal_strlit("-->");
    if let Some(t) = spec_parse_tag(h, pos) {
        lemma_skip_element_bounds(h, t.end, h.subrange(t.name_start, t.name_end));
    }
}

fn literal_chars(s: &str) -> (r: Vec<char>)
    ensures
        r@ == s@,
{
    to_chars(s)
}

pub fn consume_markup(h: &Vec<char>, pos: usize) -> (r: Option<Markup>)
    requires
        pos < h.len(),
        h@[pos as int] == '<',
    ensures
        opt_view(r) == spec_consume_markup(h@, pos as int),
        r matches Some(m) ==> pos < markup_next(m@) <= h.len(),
{
    proof {
        lemma_consume_markup_advances(h@, pos as int);
        reveal_strlit("-->");
        reveal_strlit("!--");
    }
    let open_comment = literal_chars("!--");
    if starts_at_exec(h, pos + 1, &open_comment) {
        let close_comment = literal_chars("-->");
        let end = match find_seq_exec(h, pos + 1, &close_comment) {
            Some(k) => {
                proof {
                    lemma_find_seq_bounds(h@, pos + 1, "-->"@);
                }
                k + 3
            },
            None => h.len(),
        };
        return Some(Markup::Skip(end));
    }
    if pos + 1 < h.len() && h[pos + 1] == '!' {
        let end = match find_char_exec(h, pos + 1, '>') {
            Some(k) => {
                proof {
                    lemma_find_char_bounds(h@, pos + 1, '>');
                }
                k + 1
            },
            None => h.len(),
        };
        return Some(Markup::Skip(end));
    }
    let tag = match parse_tag(h, pos) {
        Some(t) => t,
        None => {
            return None;
        },
    };
    proof {
        lemma_parse_tag_bounds(h@, pos as int);
    }
    if !tag.closing && !tag.self_closing && (tag_name_is(h, &tag, "script") || tag_name_is(
        h,
        &tag,
        "style",
    )) {
        let mut name: Vec<char> = Vec::new();
        let mut k = tag.name_start;
        while k < tag.name_end
            invariant
                tag.name_start <= k <= tag.name_end <= h.len(),
                name@ == h@.subrange(tag.name_start as int, k as int),
            decreases tag.name_end - k,
        {
            name.push(h[k]);
            k += 1;
            assert(name@ =~= h@.subrange(tag.name_start as int, k as int));
        }
        return Some(Markup::Skip(skip_element(h, tag.end, &name)));
    }
    if is_void_tag(h, &tag) {
        return Some(Markup::Skip(tag.end));
    }
    if let Some(blank) = break_style(h, &tag) {
        return Some(Markup::Break { next: tag.end, blank });
    }
    Some(Markup::Skip(tag.end))
}

/// The value of a run of digits in radix `r` (`r` 10 or 16).
pub open spec fn digit_value(c: char, r: nat) -> Option<nat> {
    if is_digit(c) {
        Some((c as u32 - '0' as u32) as nat)
    } else if r == 16 && 'a' <= c && c <= 'f' {
        Some((c as u32 - 'a' as u32 + 10) as nat)
    } else if r == 16 && 'A' <= c && c <= 'F' {
        Some((c as u32 - 'A' as u32 + 10) as nat)
    } else {
        None
    }
}

pub open spec fn digits_value(s: Seq<char>, r: nat) -> Option<nat>
    decreases s.len(),
{
    if s.len() == 0 {
        Some(0)
    } else {
        match (digits_value(s.drop_last(), r), digit_value(s.last(), r)) {
            (Some(v), Some(d)) => Some(v * r + d),
            _ => None,
        }
    }
}

/// `u32::from_str_radix` (and `str::parse::<u32>` for radix 10): one optional `+`,
/// at least one digit, and a value that fits in 32 bits.
pub open spec fn spec_parse_u32(s: Seq<char>, r: nat) -> Option<u32> {
    let digits = if s.len() > 0 && s[0] == '+' { s.drop_first() } else { s };
    if digits.len() == 0 {
        None
    } else {
        match digits_value(digits, r) {
            Some(v) => if v <= u32::MAX { Some(v as u32) } else { None },
            None => None,
        }
    }
}

fn digit_value_exec(c: char, r: u64) -> (d: Option<u64>)
    requires
        r == 10 || r == 16,
    ensures
        d matches Some(x) ==> digit_value(c, r as nat) == Some(x as nat) && x < 16,
        d is None ==> digit_value(c, r as nat) is None,
{
    if '0' <= c && c <= '9' {
        Some((c as u64) - ('0' as u64))
    } else if r == 16 && 'a' <= c && c <= 'f' {
        Some((c as u64) - ('a' as u64) + 10)
    } else if r == 16 && 'A' <= c && c <= 'F' {
        Some((c as u64) - ('A' as u64) + 10)
    } else {
        None
    }
}

pub proof fn lemma_digits_value_grows(s: Seq<char>, r: nat, k: int)
    requires
        0 <= k <= s.len(),
        r >= 1,
        digits_value(s, r) is Some,
    ensures
        digits_value(s.take(k), r) is Some,
        digits_value(s.take(k), r)->0 <= digits_value(s, r)->0,
    decreases s.len() - k,
{
    if k == s.len() {
        assert(s.take(k) =~= s);
    } else {
        assert(s.take(k + 1).drop_last() =~= s.take(k));
        lemma_digits_value_grows(s, r, k + 1);
        assert(s.take(k + 1).last() == s[k]);
        let v = digits_value(s.take(k), r)->0;
        assert(v * r >= v) by (nonlinear_arith)
            requires
                r >= 1,
        ;
    }
}

fn parse_u32(s: &Vec<char>, from: usize, r: u64) -> (out: Option<u32>)
    requires
        from <= s.len(),
        r == 10 || r == 16,
    ensures
        out == spec_parse_u32(s@.skip(from as int), r as nat),
{
    let ghost t = s@.skip(from as int);
    let mut i = from;
    if i < s.len() && s[i] == '+' {
        i += 1;
    }
    let ghost digits = s@.skip(i as int);
    assert(digits =~= (if t.len() > 0 && t[0] == '+' { t.drop_first() } else { t }));
    if i >= s.len() {
        return None;
    }
    let mut v: u64 = 0;
    let start = i;
    assert(digits.take(0) =~= Seq::<char>::empty());
    while i < s.len()
        invariant
            start <= i <= s.len(),
            digits == s@.skip(start as int),
            r == 10 || r == 16,
            digits_value(digits.take(i - start), r as nat) == Some(v as nat),
            v <= u32::MAX,
        decreases s.len() - i,
    {
        let c = s[i];
        assert(digits.take(i - start + 1).drop_last() =~= digits.take(i - start));
        assert(digits.take(i - start + 1).last() == c);
        match digit_value_exec(c, r) {
            None => {
                proof {
                    lemma_digits_none_extends(digits, r as nat, i - start + 1);
                }
                return None;
            },
            Some(d) => {
                assert(v * r + d <= 0xFFFF_FFFFu64 * 16 + 15) by (nonlinear_arith)
                    requires
                        v <= 0xFFFF_FFFF,
                        r <= 16,
                        d < 16,
                ;
                let nv = v * r + d;
                if nv > 0xFFFF_FFFF {
                    proof {
                        if digits_value(digits, r as nat) is Some {
                            lemma_digits_value_grows(digits, r as nat, i - start + 1);
                        }
                    }
                    return None;
                }
                v = nv;
            },
        }
        i += 1;
    }
    assert(digits.take(i - start) =~= digits);
    Some(v as u32)
}

pub proof fn lemma_digits_none_extends(s: Seq<char>, r: nat, k: int)
    requires
        0 <= k <= s.len(),
        digits_value(s.take(k), r) is None,
    ensures
        digits_value(s, r) is None,
    decreases s.len() - k,
{
    if k < s.len() {
        assert(s.take(k + 1).drop_last() =~= s.take(k));
        lemma_digits_none_extends(s, r, k + 1);
    } else {
        assert(s.take(k) =~= s);
    }
}

/// The character whose scalar value is `code`.
pub open spec fn char_of(code: u32) -> char {
    choose|ch: char| #[trigger] scalar(ch) == code
}

pub open spec fn scalar(ch: char) -> u32 {
    ch as u32
}

pub open spec fn valid_scalar(code: u32) -> bool {
    code <= 0x10FFFF && !(0xD800 <= code && code <= 0xDFFF)
}

/// `char::from_u32`: the one character whose scalar value is `code`, for every
/// Unicode scalar value, and `None` for other codes.
#[verifier::external_body]
fn char_from_u32(code: u32) -> (r: Option<char>)
    ensures
        r is Some <==> valid_scalar(code),
        r matches Some(c) ==> c as u32 == code && c == char_of(code),
{
    char::from_u32(code)
}

/// What a named entity stands for.
pub open spec fn named_entity(body: Seq<char>) -> Option<Seq<char>> {
    if body == "amp"@ { Some("&"@) }
    else if body == "lt"@ { Some("<"@) }
    else if body == "gt"@ { Some(">"@) }
    else if body == "quot"@ { Some("\""@) }
    else if body == "apos"@ { Some("'"@) }
    else if body == "nbsp"@ { Some(" "@) }
    else if body == "ndash"@ { Some("–"@) }
    else if body == "mdash"@ { Some("—"@) }
    else if body == "hellip"@ { Some("…"@) }
    else if body == "lsquo"@ || body == "sbquo"@ { Some("‘"@) }
    else if body == "rsquo"@ { Some("’"@) }
    else if body == "ldquo"@ || body == "bdquo"@ { Some("“"@) }
    else if body == "rdquo"@ { Some("”"@) }
    else if body == "bull"@ { Some("•"@) }
    else if body == "middot"@ { Some("·"@) }
    else if body == "deg"@ { Some("°"@) }
    else if body == "times"@ { Some("×"@) }
    else if body == "divide"@ { Some("÷"@) }
    else if body == "plusmn"@ { Some("±"@) }
    else { None }
}

/// The text an entity body (between `&` and `;`) decodes to.
pub open spec fn spec_decode_entity_body(body: Seq<char>) -> Option<Seq<char>> {
    if body.len() > 0 && body[0] == '#' {
        let digits = body.drop_first();
        let code = if digits.len() > 0 && (digits[0] == 'x' || digits[0] == 'X') {
            spec_parse_u32(digits.drop_first(), 16)
        } else {
            spec_parse_u32(digits, 10)
        };
        match code {
            None => None,
            Some(c) => if c == 0 || !valid_scalar(c) { None } else { Some(seq![char_of(c)]) },
        }
    } else {
        named_entity(body)
    }
}

fn body_is(h: &Vec<char>, lo: usize, hi: usize, lit: &str) -> (r: bool)
    requires
        lo <= hi <= h.len(),
    ensures
        r == (h@.subrange(lo as int, hi as int) == lit@),
{
    let l = to_chars(lit);
    if l.len() != hi - lo {
        return false;
    }
    let mut k: usize = 0;
    while k < l.len()
        invariant
            k <= l.len(),
            lo + l.len() == hi <= h.len(),
            forall|j: int| 0 <= j < k ==> h@[lo + j] == l@[j],
        decreases l.len() - k,
    {
        if h[lo + k] != l[k] {
            assert(h@.subrange(lo as int, hi as int)[k as int] != l@[k as int]);
            return false;
        }
        k += 1;
    }
    assert(h@.subrange(lo as int, hi as int) =~= l@);
    true
}

pub fn decode_entity_body(h: &Vec<char>, lo: usize, hi: usize) -> (r: Option<Vec<char>>)
    requires
        lo <= hi <= h.len(),
    ensures
        r matches Some(v) ==> spec_decode_entity_body(h@.subrange(lo as int, hi as int)) == Some(
            v@,
        ),
        r is None ==> spec_decode_entity_body(h@.subrange(lo as int, hi as int)) is None,
{
    let ghost body = h@.subrange(lo as int, hi as int);
    if lo < hi && h[lo] == '#' {
        let ghost digits = body.drop_first();
        let code = if lo + 1 < hi && (h[lo + 1] == 'x' || h[lo + 1] == 'X') {
            let sub = slice_to_vec(h, lo + 2, hi);
            assert(sub@.skip(0) =~= digits.drop_first());
            parse_u32(&sub, 0, 16)
        } else {
            let sub = slice_to_vec(h, lo + 1, hi);
            assert(sub@.skip(0) =~= digits);
            parse_u32(&sub, 0, 10)
        };
        return match code {
            None => None,
            Some(c) => {
                if c == 0 {
                    None
                } else {
                    match char_from_u32(c) {
                        None => None,
                        Some(ch) => {
                            let mut v: Vec<char> = Vec::new();
                            v.push(ch);
                            assert(scalar(ch) == c);
                            assert(scalar(char_of(c)) == c);
                            assert(ch == char_of(c));
                            assert(v@ =~= seq![char_of(c)]);
                            Some(v)
                        },
                    }
                }
            },
        };
    }
    let lit = if body_is(h, lo, hi, "amp") { "&" }
    else if body_is(h, lo, hi, "lt") { "<" }
    else if body_is(h, lo, hi, "gt") { ">" }
    else if body_is(h, lo, hi, "quot") { "\"" }
    else if body_is(h, lo, hi, "apos") { "'" }
    else if body_is(h, lo, hi, "nbsp") { " " }
    else if body_is(h, lo, hi, "ndash") { "–" }
    else if body_is(h, lo, hi, "mdash") { "—" }
    else if body_is(h, lo, hi, "hellip") { "…" }
    else if body_is(h, lo, hi, "lsquo") || body_is(h, lo, hi, "sbquo") { "‘" }
    else if body_is(h, lo, hi, "rsquo") { "’" }
    else if body_is(h, lo, hi, "ldquo") || body_is(h, lo, hi, "bdquo") { "“" }
    else if body_is(h, lo, hi, "rdquo") { "”" }
    else if body_is(h, lo, hi, "bull") { "•" }
    else if body_is(h, lo, hi, "middot") { "·" }
    else if body_is(h, lo, hi, "deg") { "°" }
    else if body_is(h, lo, hi, "times") { "×" }
    else if body_is(h, lo, hi, "divide") { "÷" }
    else if body_is(h, lo, hi, "plusmn") { "±" }
    else {
        return None;
    };
    Some(to_chars(lit))
}

/// A copy of `h[lo..hi]`.
pub fn slice_to_vec(h: &Vec<char>, lo: usize, hi: usize) -> (r: Vec<char>)
    requires
        lo <= hi <= h.len(),
    ensures
        r@ == h@.subrange(lo as int, hi as int),
{
    let mut r: Vec<char> = Vec::new();
    let mut k = lo;
    while k < hi
        invariant
            lo <= k <= hi <= h.len(),
            r@ == h@.subrange(lo as int, k as int),
        decreases hi - k,
    {
        r.push(h[k]);
        k += 1;
        assert(r@ =~= h@.subrange(lo as int, k as int));
    }
    r
}

/// The entity that starts at `pos` (an `&`): its text and the index after its `;`.
pub open spec fn spec_consume_entity(h: Seq<char>, pos: int) -> Option<(Seq<char>, int)> {
    match find_char(h, pos + 1, ';') {
        None => None,
        Some(k) => {
            let len = k - (pos + 1);
            if len == 0 || len > 12 {
                None
            } else {
                match spec_decode_entity_body(h.subrange(pos + 1, k)) {
                    None => None,
                    Some(t) => Some((t, k + 1)),
                }
            }
        },
    }
}

pub proof fn lemma_find_char_after(h: Seq<char>, i: int, j: int, c: char)
    requires
        0 <= i <= j,
        forall|k: int| i <= k < j && k < h.len() ==> h[k] != c,
    ensures
        find_char(h, i, c) == find_char(h, j, c),
    decreases j - i,
{
    if i < j {
        lemma_find_char_after(h, i + 1, j, c);
    }
}

pub fn consume_entity(h: &Vec<char>, pos: usize) -> (r: Option<(Vec<char>, usize)>)
    requires
        pos < h.len(),
    ensures
        r matches Some((t, n)) ==> spec_consume_entity(h@, pos as int) == Some((t@, n as int))
            && pos < n <= h.len(),
        r is None ==> spec_consume_entity(h@, pos as int) is None,
{
    // The body is at most 12 characters, so the search for `;` can stop early.
    let mut k = pos + 1;
    while k < h.len() && h[k] != ';' && k - (pos + 1) <= 12
        invariant
            pos + 1 <= k <= h.len(),
            forall|j: int| pos + 1 <= j < k ==> h@[j] != ';',
        decreases h.len() - k,
    {
        k += 1;
    }
    proof {
        lemma_find_char_after(h@, pos + 1, k as int, ';');
        lemma_find_char_bounds(h@, k as int, ';');
    }
    if k >= h.len() || h[k] != ';' {
        if k < h.len() {
            // More than 12 characters precede any `;`.
            proof {
                lemma_find_char_bounds(h@, pos + 1, ';');
            }
        }
        return None;
    }
    let len = k - (pos + 1);
    if len == 0 || len > 12 {
        return None;
    }
    match decode_entity_body(h, pos + 1, k) {
        None => None,
        Some(t) => Some((t, k + 1)),
    }
}

pub open spec fn is_opening(c: char) -> bool {
    c == '(' || c == '[' || c == '{' || c == '"' || c == '\'' || c == '“' || c == '‘' || c
        == '「' || c == '『' || c == '《' || c == '（'
}

pub open spec fn is_closing(c: char) -> bool {
    c == '.' || c == ',' || c == ';' || c == ':' || c == '!' || c == '?' || c == ')' || c == ']'
        || c == '}' || c == '%' || c == '"' || c == '\'' || c == '”' || c == '’' || c == '」'
        || c == '』' || c == '》' || c == '，' || c == '。' || c == '；' || c == '：' || c == '、'
        || c == '）'
}

pub fn is_opening_punct(c: char) -> (r: bool)
    ensures
        r == is_opening(c),
{
    c == '(' || c == '[' || c == '{' || c == '"' || c == '\'' || c == '“' || c == '‘' || c
        == '「' || c == '『' || c == '《' || c == '（'
}

pub fn is_closing_punct(c: char) -> (r: bool)
    ensures
        r == is_closing(c),
{
    c == '.' || c == ',' || c == ';' || c == ':' || c == '!' || c == '?' || c == ')' || c == ']'
        || c == '}' || c == '%' || c == '"' || c == '\'' || c == '”' || c == '’' || c == '」'
        || c == '』' || c == '》' || c == '，' || c == '。' || c == '；' || c == '：' || c == '、'
        || c == '）'
}

/// Two adjacent text runs are joined by a space unless whitespace or punctuation
/// already separates them.
pub open spec fn spec_needs_space(out: Seq<char>, text: Seq<char>) -> bool {
    out.len() > 0 && text.len() > 0 && !is_ws(out.last()) && !is_ws(text[0]) && !is_opening(
        out.last(),
    ) && !is_closing(text[0])
}

pub fn needs_space(out: &Vec<char>, text: &Vec<char>) -> (r: bool)
    ensures
        r == spec_needs_space(out@, text@),
{
    if out.len() == 0 || text.len() == 0 {
        return false;
    }
    let prev = out[out.len() - 1];
    let next = text[0];
    if is_whitespace(prev) || is_whitespace(next) {
        return false;
    }
    if is_opening_punct(prev) || is_closing_punct(next) {
        return false;
    }
    true
}

pub open spec fn spec_push_text(out: Seq<char>, text: Seq<char>) -> Seq<char> {
    if text.len() == 0 {
        out
    } else if spec_needs_space(out, text) {
        out.push(' ') + text
    } else {
        out + text
    }
}

pub fn push_text(out: &mut Vec<char>, text: &Vec<char>)
    ensures
        final(out)@ == spec_push_text(old(out)@, text@),
{
    if text.len() == 0 {
        return;
    }
    if needs_space(out, text) {
        out.push(' ');
    }
    let mut i: usize = 0;
    let ghost base = out@;
    while i < text.len()
        invariant
            i <= text.len(),
            out@ == base + text@.take(i as int),
        decreases text.len() - i,
    {
        out.push(text[i]);
        i += 1;
        assert(base + text@.take(i as int) =~= (base + text@.take((i - 1) as int)).push(
            text@[i - 1],
        ));
    }
    assert(text@.take(text.len() as int) =~= text@);
}

pub open spec fn spec_flush_text(out: Seq<char>, run: Seq<char>) -> Seq<char> {
    if run.len() == 0 {
        out
    } else {
        spec_push_text(out, run)
    }
}

pub fn flush_text(out: &mut Vec<char>, run: &mut Vec<char>)
    ensures
        final(out)@ == spec_flush_text(old(out)@, old(run)@),
        final(run)@.len() == 0,
{
    if run.len() == 0 {
        return;
    }
    push_text(out, run);
    run.clear();
}

pub open spec fn ends_with_newline(s: Seq<char>) -> bool {
    s.len() > 0 && s.last() == '\n'
}

pub open spec fn ends_with_blank(s: Seq<char>) -> bool {
    s.len() >= 2 && s.last() == '\n' && s[s.len() - 2] == '\n'
}

pub open spec fn spec_push_break(out: Seq<char>, blank: bool) -> Seq<char> {
    if out.len() == 0 {
        out
    } else {
        let a = if !ends_with_newline(out) { out.push('\n') } else { out };
        if blank && !ends_with_blank(a) { a.push('\n') } else { a }
    }
}

pub fn push_break(out: &mut Vec<char>, blank: bool)
    ensures
        final(out)@ == spec_push_break(old(out)@, blank),
{
    if out.len() == 0 {
        return;
    }
    if out[out.len() - 1] != '\n' {
        out.push('\n');
    }
    if blank && !(out.len() >= 2 && out[out.len() - 1] == '\n' && out[out.len() - 2] == '\n') {
        out.push('\n');
    }
}

/// The text collected while scanning from `pos` with `out` written and `run` pending.
pub open spec fn scan_text(h: Seq<char>, pos: int, out: Seq<char>, run: Seq<char>) -> Seq<char>
    decreases h.len() - pos,
{
    if pos < 0 || pos >= h.len() {
        spec_flush_text(out, run)
    } else if h[pos] == '<' && spec_consume_markup(h, pos) is Some {
        let m = spec_consume_markup(h, pos)->0;
        proof {
            lemma_consume_markup_advances(h, pos);
        }
        let out2 = spec_flush_text(out, run);
        match m {
            MarkupSpec::Skip(n) => scan_text(h, n, out2, Seq::empty()),
            MarkupSpec::Break { next, blank } => scan_text(
                h,
                next,
                spec_push_break(out2, blank),
                Seq::empty(),
            ),
        }
    } else if h[pos] == '&' && spec_consume_entity(h, pos) is Some {
        let (t, n) = spec_consume_entity(h, pos)->0;
        proof {
            lemma_consume_entity_advances(h, pos);
        }
        scan_text(h, n, out, run + t)
    } else {
        scan_text(h, pos + 1, out, run.push(h[pos]))
    }
}

pub proof fn lemma_consume_entity_advances(h: Seq<char>, pos: int)
    requires
        0 <= pos < h.len(),
    ensures
        spec_consume_entity(h, pos) matches Some((_, n)) ==> pos < n <= h.len(),
{
    lemma_find_char_bounds(h, pos + 1, ';');
}

/// `html_to_text`: the readable text of an HTML fragment.
pub open spec fn spec_html_to_text(h: Seq<char>) -> Seq<char> {
    spec_polish(scan_text(h, 0, Seq::empty(), Seq::empty()))
}

pub fn html_to_text_chars(h: &Vec<char>) -> (r: Vec<char>)
    ensures
        r@ == spec_html_to_text(h@),
{
    let mut out: Vec<char> = Vec::new();
    let mut run: Vec<char> = Vec::new();
    let mut pos: usize = 0;
    while pos < h.len()
        invariant
            pos <= h.len(),
            scan_text(h@, 0, Seq::empty(), Seq::empty()) == scan_text(h@, pos as int, out@, run@),
        decreases h.len() - pos,
    {
        if h[pos] == '<' {
            if let Some(markup) = consume_markup(h, pos) {
                flush_text(&mut out, &mut run);
                match markup {
                    Markup::Skip(next) => {
                        pos = next;
                        assert(run@ =~= Seq::<char>::empty());
                        continue;
                    },
                    Markup::Break { next, blank } => {
                        push_break(&mut out, blank);
                        pos = next;
                        assert(run@ =~= Seq::<char>::empty());
                        continue;
                    },
                }
            }
        }
        if h[pos] == '&' {
            if let Some((t, next)) = consume_entity(h, pos) {
                let mut k: usize = 0;
                let ghost base = run@;
                while k < t.len()
                    invariant
                        k <= t.len(),
                        run@ == base + t@.take(k as int),
                    decreases t.len() - k,
                {
                    run.push(t[k]);
                    k += 1;
                    assert(base + t@.take(k as int) =~= (base + t@.take((k - 1) as int)).push(
                        t@[k - 1],
                    ));
                }
                assert(t@.take(t.len() as int) =~= t@);
                pos = next;
                continue;
            }
        }
        run.push(h[pos]);
        pos += 1;
    }
    flush_text(&mut out, &mut run);
    polish_readable(&out)
}

proof fn lemma_find_char_at(h: Seq<char>, i: int, k: int, c: char)
    requires
        0 <= i <= k < h.len(),
        h[k] == c,
        forall|j: int| i <= j < k ==> h[j] != c,
    ensures
        find_char(h, i, c) == Some(k),
    decreases k - i,
{
    if i < k {
        lemma_find_char_at(h, i + 1, k, c);
    }
}

/// A character reference `&name;` at `pos` whose name the entity table knows is
/// taken as one step: its text joins the pending text and scanning resumes after
/// the `;`.
proof fn lemma_reference_step(
    h: Seq<char>,
    pos: int,
    name: Seq<char>,
    text: Seq<char>,
    out: Seq<char>,
    run: Seq<char>,
)
    requires
        0 <= pos,
        pos + name.len() + 2 <= h.len(),
        1 <= name.len() <= 12,
        name[0] != '#',
        forall|j: int| 0 <= j < name.len() ==> name[j] != ';',
        h[pos] == '&',
        h.subrange(pos + 1, pos + 1 + name.len()) == name,
        h[pos + 1 + name.len()] == ';',
        named_entity(name) == Some(text),
    ensures
        scan_text(h, pos, out, run) == scan_text(h, pos + name.len() + 2, out, run + text),
{
    let k = pos + 1 + name.len();
    assert forall|j: int| pos + 1 <= j < k implies h[j] != ';' by {
        assert(h[j] == h.subrange(pos + 1, k)[j - (pos + 1)]);
    }
    lemma_find_char_at(h, pos + 1, k, ';');
    assert(spec_consume_entity(h, pos) == Some((text, k + 1)));
}

/// Named character references decode to the characters HTML assigns them: at any
/// position of any definition, `&lt;`, `&gt;`, `&amp;`, `&quot;` and `&apos;` add
/// `<`, `>`, `&`, `"` and `'` to the text being read, and scanning goes on after
/// the reference.
pub proof fn law_named_references_decode(h: Seq<char>, pos: int, out: Seq<char>, run: Seq<char>)
    requires
        0 <= pos,
    ensures
        pos + 4 <= h.len() && h.subrange(pos, pos + 4) == "&lt;"@ ==> scan_text(h, pos, out, run)
            == scan_text(h, pos + 4, out, run.push('<')),
        pos + 4 <= h.len() && h.subrange(pos, pos + 4) == "&gt;"@ ==> scan_text(h, pos, out, run)
            == scan_text(h, pos + 4, out, run.push('>')),
        pos + 5 <= h.len() && h.subrange(pos, pos + 5) == "&amp;"@ ==> scan_text(h, pos, out, run)
            == scan_text(h, pos + 5, out, run.push('&')),
        pos + 6 <= h.len() && h.subrange(pos, pos + 6) == "&quot;"@ ==> scan_text(h, pos, out, run)
            == scan_text(h, pos + 6, out, run.push('"')),
        pos + 6 <= h.len() && h.subrange(pos, pos + 6) == "&apos;"@ ==> scan_text(h, pos, out, run)
            == scan_text(h, pos + 6, out, run.push('\'')),
{
    reveal_strlit("&lt;");
    reveal_strlit("&gt;");
    reveal_strlit("&amp;");
    reveal_strlit("&quot;");
    reveal_strlit("&apos;");
    reveal_strlit("lt");
    reveal_strlit("gt");
    reveal_strlit("amp");
    reveal_strlit("quot");
    reveal_strlit("apos");
    reveal_strlit("<");
    reveal_strlit(">");
    reveal_strlit("&");
    reveal_strlit("\"");
    reveal_strlit("'");
    assert("&lt;"@ =~= seq!['&', 'l', 't', ';']);
    assert("&gt;"@ =~= seq!['&', 'g', 't', ';']);
    assert("&amp;"@ =~= seq!['&', 'a', 'm', 'p', ';']);
    assert("&quot;"@ =~= seq!['&', 'q', 'u', 'o', 't', ';']);
    assert("&apos;"@ =~= seq!['&', 'a', 'p', 'o', 's', ';']);
    assert("lt"@ =~= seq!['l', 't']);
    assert("gt"@ =~= seq!['g', 't']);
    assert("amp"@ =~= seq!['a', 'm', 'p']);
    assert("quot"@ =~= seq!['q', 'u', 'o', 't']);
    assert("apos"@ =~= seq!['a', 'p', 'o', 's']);
    assert("<"@ =~= seq!['<']);
    assert(">"@ =~= seq!['>']);
    assert("&"@ =~= seq!['&']);
    assert("\""@ =~= seq!['"']);
    assert("'"@ =~= seq!['\'']);
    lemma_one_reference(h, pos, out, run, seq!['l', 't'], '<');
    lemma_one_reference(h, pos, out, run, seq!['g', 't'], '>');
    lemma_one_reference(h, pos, out, run, seq!['a', 'm', 'p'], '&');
    lemma_one_reference(h, pos, out, run, seq!['q', 'u', 'o', 't'], '"');
    lemma_one_reference(h, pos, out, run, seq!['a', 'p', 'o', 's'], '\'');
    assert(seq!['&'] + seq!['l', 't'] + seq![';'] =~= seq!['&', 'l', 't', ';']);
    assert(seq!['&'] + seq!['g', 't'] + seq![';'] =~= seq!['&', 'g', 't', ';']);
    assert(seq!['&'] + seq!['a', 'm', 'p'] + seq![';'] =~= seq!['&', 'a', 'm', 'p', ';']);
    assert(seq!['&'] + seq!['q', 'u', 'o', 't'] + seq![';'] =~= seq!['&', 'q', 'u', 'o', 't', ';']);
    assert(seq!['&'] + seq!['a', 'p', 'o', 's'] + seq![';'] =~= seq!['&', 'a', 'p', 'o', 's', ';']);
}

proof fn lemma_one_reference(
    h: Seq<char>,
    pos: int,
    out: Seq<char>,
    run: Seq<char>,
    name: Seq<char>,
    ch: char,
)
    requires
        0 <= pos,
        1 <= name.len() <= 12,
        name[0] != '#',
        forall|j: int| 0 <= j < name.len() ==> name[j] != ';',
        named_entity(name) == Some(seq![ch]),
    ensures
        ({
            let lit = seq!['&'] + name + seq![';'];
            pos + lit.len() <= h.len() && h.subrange(pos, pos + lit.len()) == lit ==> scan_text(
                h,
                pos,
                out,
                run,
            ) == scan_text(h, pos + lit.len(), out, run.push(ch))
        }),
{
    let lit = seq!['&'] + name + seq![';'];
    if pos + lit.len() <= h.len() && h.subrange(pos, pos + lit.len()) == lit {
        let w = h.subrange(pos, pos + lit.len());
        assert(h[pos] == w[0]);
        assert(h[pos + 1 + name.len()] == w[1 + name.len() as int]);
        assert(h.subrange(pos + 1, pos + 1 + name.len()) =~= w.subrange(1, 1 + name.len() as int));
        assert(w.subrange(1, 1 + name.len() as int) =~= name);
        lemma_reference_step(h, pos, name, seq![ch], out, run);
        assert(run + seq![ch] =~= run.push(ch));
    }
}

pub fn html_to_text(html: &str) -> (r: String)
    ensures
        r@ == spec_html_to_text(html@),
{
    let h = to_chars(html);
    let v = html_to_text_chars(&h);
    crate::text::from_chars(&v)
}

pub open spec fn is_bullet_char(c: char) -> bool {
    c == '■' || c == '●' || c == '◆' || c == '▶' || c == '►' || c == '▪' || c == '▫'
}

pub fn is_bullet(c: char) -> (r: bool)
    ensures
        r == is_bullet_char(c),
{
    c == '■' || c == '●' || c == '◆' || c == '▶' || c == '►' || c == '▪' || c == '▫'
}

/// Bullets start a new line unless they already do.
pub open spec fn bullets_from(t: Seq<char>, i: int, out: Seq<char>) -> Seq<char>
    decreases t.len() - i,
{
    if i < 0 || i >= t.len() {
        out
    } else if is_bullet_char(t[i]) && out.len() > 0 && out.last() != '\n' {
        bullets_from(t, i + 1, out.push('\n').push(t[i]))
    } else {
        bullets_from(t, i + 1, out.push(t[i]))
    }
}

pub open spec fn spec_break_before_bullets(t: Seq<char>) -> Seq<char> {
    bullets_from(t, 0, Seq::empty())
}

pub fn break_before_bullets(t: &Vec<char>) -> (r: Vec<char>)
    ensures
        r@ == spec_break_before_bullets(t@),
{
    let mut out: Vec<char> = Vec::new();
    let mut i: usize = 0;
    while i < t.len()
        invariant
            i <= t.len(),
            bullets_from(t@, 0, Seq::empty()) == bullets_from(t@, i as int, out@),
        decreases t.len() - i,
    {
        let ch = t[i];
        if is_bullet(ch) && out.len() > 0 && out[out.len() - 1] != '\n' {
            out.push('\n');
        }
        out.push(ch);
        i += 1;
    }
    out
}

/// The pieces of `t` between `\n` separators (`str::split('\n')`).
pub open spec fn split_from(t: Seq<char>, i: int, cur: Seq<char>, acc: Seq<Seq<char>>) -> Seq<
    Seq<char>,
>
    decreases t.len() - i,
{
    if i < 0 || i >= t.len() {
        acc.push(cur)
    } else if t[i] == '\n' {
        split_from(t, i + 1, Seq::empty(), acc.push(cur))
    } else {
        split_from(t, i + 1, cur.push(t[i]), acc)
    }
}

pub open spec fn split_lines(t: Seq<char>) -> Seq<Seq<char>> {
    split_from(t, 0, Seq::empty(), Seq::empty())
}

pub fn split_newlines(t: &Vec<char>) -> (r: Vec<Vec<char>>)
    ensures
        r@.len() == split_lines(t@).len(),
        forall|k: int| 0 <= k < r@.len() ==> (#[trigger] r@[k])@ == split_lines(t@)[k],
{
    let mut acc: Vec<Vec<char>> = Vec::new();
    let mut cur: Vec<char> = Vec::new();
    let mut i: usize = 0;
    let ghost gacc: Seq<Seq<char>> = Seq::empty();
    while i < t.len()
        invariant
            i <= t.len(),
            acc@.len() == gacc.len(),
            forall|k: int| 0 <= k < acc@.len() ==> (#[trigger] acc@[k])@ == gacc[k],
            split_lines(t@) == split_from(t@, i as int, cur@, gacc),
        decreases t.len() - i,
    {
        if t[i] == '\n' {
            proof {
                gacc = gacc.push(cur@);
            }
            let done = cur;
            acc.push(done);
            cur = Vec::new();
            assert(cur@ =~= Seq::<char>::empty());
        } else {
            cur.push(t[i]);
        }
        i += 1;
    }
    proof {
        gacc = gacc.push(cur@);
    }
    acc.push(cur);
    acc
}

/// Appends `line` to `out`, separated from earlier text by one newline.
pub open spec fn spec_push_line(out: Seq<char>, line: Seq<char>) -> Seq<char> {
    if out.len() > 0 {
        out.push('\n') + line
    } else {
        out + line
    }
}

pub fn push_line(out: &mut Vec<char>, line: &Vec<char>)
    ensures
        final(out)@ == spec_push_line(old(out)@, line@),
{
    if out.len() > 0 {
        out.push('\n');
    }
    let ghost base = out@;
    let mut i: usize = 0;
    while i < line.len()
        invariant
            i <= line.len(),
            out@ == base + line@.take(i as int),
        decreases line.len() - i,
    {
        out.push(line[i]);
        i += 1;
        assert(base + line@.take(i as int) =~= (base + line@.take((i - 1) as int)).push(
            line@[i - 1],
        ));
    }
    assert(line@.take(line.len() as int) =~= line@);
}

pub open spec fn digit_run_start(s: Seq<char>, j: int) -> int
    decreases j,
{
    if j > 0 && j <= s.len() && is_digit(s[j - 1]) {
        digit_run_start(s, j - 1)
    } else {
        j
    }
}

/// A line that ends in a number followed by a period: the text before the number
/// (right-trimmed) and the number with its period.
pub open spec fn spec_split_trailing_sense_number(line: Seq<char>) -> Option<
    (Seq<char>, Seq<char>),
> {
    let t = trim_end(line);
    if t.len() == 0 || t.last() != '.' {
        None
    } else {
        let period = t.len() - 1;
        let d = digit_run_start(t, period);
        if d == period {
            None
        } else {
            Some((trim_end(t.take(d)), t.skip(d)))
        }
    }
}

pub proof fn lemma_digit_run_bounds(s: Seq<char>, j: int)
    requires
        0 <= j <= s.len(),
    ensures
        0 <= digit_run_start(s, j) <= j,
    decreases j,
{
    if j > 0 && is_digit(s[j - 1]) {
        lemma_digit_run_bounds(s, j - 1);
    }
}

pub fn split_trailing_sense_number(line: &Vec<char>) -> (r: Option<(Vec<char>, Vec<char>)>)
    ensures
        r matches Some((p, n)) ==> spec_split_trailing_sense_number(line@) == Some((p@, n@)),
        r is None ==> spec_split_trailing_sense_number(line@) is None,
{
    let e = trim_end_bound(line, 0, line.len());
    assert(line@.subrange(0, line@.len() as int) =~= line@);
    let ghost t = line@.subrange(0, e as int);
    if e == 0 || line[e - 1] != '.' {
        return None;
    }
    let period = e - 1;
    let mut digits = period;
    while digits > 0 && is_ascii_digit_char(line[digits - 1])
        invariant
            digits <= period < e <= line.len(),
            t == line@.subrange(0, e as int),
            digit_run_start(t, period as int) == digit_run_start(t, digits as int),
        decreases digits,
    {
        digits -= 1;
    }
    if digits == period {
        return None;
    }
    let pe = trim_end_bound(line, 0, digits);
    let prefix = slice_to_vec(line, 0, pe);
    let number = slice_to_vec(line, digits, e);
    assert(t.take(digits as int) =~= line@.subrange(0, digits as int));
    assert(t.skip(digits as int) =~= line@.subrange(digits as int, e as int));
    Some((prefix, number))
}

fn is_ascii_digit_char(c: char) -> (r: bool)
    ensures
        r == is_digit(c),
{
    '0' <= c && c <= '9'
}

pub open spec fn starts_with_bullet(s: Seq<char>) -> bool {
    trim_start(s).len() > 0 && is_bullet_char(trim_start(s)[0])
}

/// Joins a trailing sense number with the bulleted line that follows it.
pub open spec fn attach_from(lines: Seq<Seq<char>>, i: int, out: Seq<char>) -> Seq<char>
    decreases lines.len() - i,
{
    if i < 0 || i >= lines.len() {
        out
    } else if i + 1 < lines.len() && starts_with_bullet(lines[i + 1])
        && spec_split_trailing_sense_number(lines[i]) is Some {
        let (p, n) = spec_split_trailing_sense_number(lines[i])->0;
        let out1 = if p.len() > 0 { spec_push_line(out, p) } else { out };
        attach_from(lines, i + 2, spec_push_line(out1, n.push(' ') + trim_start(lines[i + 1])))
    } else {
        attach_from(lines, i + 1, spec_push_line(out, lines[i]))
    }
}

pub open spec fn spec_attach_sense_numbers(t: Seq<char>) -> Seq<char> {
    attach_from(split_lines(t), 0, Seq::empty())
}

pub fn attach_sense_numbers(t: &Vec<char>) -> (r: Vec<char>)
    ensures
        r@ == spec_attach_sense_numbers(t@),
{
    let lines = split_newlines(t);
    let ghost ls = split_lines(t@);
    let mut out: Vec<char> = Vec::new();
    let mut i: usize = 0;
    while i < lines.len()
        invariant
            i <= lines.len(),
            lines@.len() == ls.len(),
            forall|k: int| 0 <= k < lines@.len() ==> (#[trigger] lines@[k])@ == ls[k],
            attach_from(ls, 0, Seq::empty()) == attach_from(ls, i as int, out@),
        decreases lines.len() - i,
    {
        assert(lines@[i as int]@ == ls[i as int]);
        if i + 1 < lines.len() {
            assert(lines@[i + 1]@ == ls[i + 1]);
            let next = &lines[i + 1];
            let b = trim_start_bound(next, 0, next.len());
            assert(next@.subrange(0, next@.len() as int) =~= next@);
            if b < next.len() && is_bullet(next[b]) {
                if let Some((prefix, number)) = split_trailing_sense_number(&lines[i]) {
                    if prefix.len() > 0 {
                        push_line(&mut out, &prefix);
                    }
                    let mut combined = number;
                    combined.push(' ');
                    let rest = slice_to_vec(next, b, next.len());
                    let mut k: usize = 0;
                    let ghost base = combined@;
                    while k < rest.len()
                        invariant
                            k <= rest.len(),
                            combined@ == base + rest@.take(k as int),
                        decreases rest.len() - k,
                    {
                        combined.push(rest[k]);
                        k += 1;
                        assert(base + rest@.take(k as int) =~= (base + rest@.take(
                            (k - 1) as int,
                        )).push(rest@[k - 1]));
                    }
                    assert(rest@.take(rest.len() as int) =~= rest@);
                    push_line(&mut out, &combined);
                    i += 2;
                    continue;
                }
            }
        }
        push_line(&mut out, &lines[i]);
        i += 1;
    }
    out
}

/// Lines are right-trimmed, leading and trailing blank lines dropped and runs of
/// blank lines collapsed to one.
pub open spec fn tidy_from(
    lines: Seq<Seq<char>>,
    i: int,
    out: Seq<char>,
    started: bool,
    pending: bool,
) -> Seq<char>
    decreases lines.len() - i,
{
    if i < 0 || i >= lines.len() {
        out
    } else {
        let l = trim_end(lines[i]);
        if l.len() == 0 {
            tidy_from(lines, i + 1, out, started, started)
        } else {
            let out1 = if started {
                if pending {
                    out.push('\n').push('\n')
                } else {
                    out.push('\n')
                }
            } else {
                out
            };
            tidy_from(lines, i + 1, out1 + l, true, false)
        }
    }
}

pub open spec fn spec_tidy_lines(t: Seq<char>) -> Seq<char> {
    tidy_from(split_lines(t), 0, Seq::empty(), false, false)
}

pub fn tidy_lines(t: &Vec<char>) -> (r: Vec<char>)
    ensures
        r@ == spec_tidy_lines(t@),
{
    let lines = split_newlines(t);
    let ghost ls = split_lines(t@);
    let mut out: Vec<char> = Vec::new();
    let mut started = false;
    let mut pending = false;
    let mut i: usize = 0;
    while i < lines.len()
        invariant
            i <= lines.len(),
            lines@.len() == ls.len(),
            forall|k: int| 0 <= k < lines@.len() ==> (#[trigger] lines@[k])@ == ls[k],
            tidy_from(ls, 0, Seq::empty(), false, false) == tidy_from(
                ls,
                i as int,
                out@,
                started,
                pending,
            ),
        decreases lines.len() - i,
    {
        let line = &lines[i];
        assert(line@ == ls[i as int]);
        let e = trim_end_bound(line, 0, line.len());
        assert(line@.subrange(0, line@.len() as int) =~= line@);
        if e == 0 {
            pending = started;
            i += 1;
            continue;
        }
        if started {
            out.push('\n');
            if pending {
                out.push('\n');
            }
        }
        let ghost base = out@;
        let mut k: usize = 0;
        while k < e
            invariant
                k <= e <= line.len(),
                out@ == base + line@.subrange(0, k as int),
            decreases e - k,
        {
            out.push(line[k]);
            k += 1;
            assert(base + line@.subrange(0, k as int) =~= (base + line@.subrange(
                0,
                (k - 1) as int,
            )).push(line@[k - 1]));
        }
        started = true;
        pending = false;
        i += 1;
    }
    out
}

pub open spec fn spec_polish(t: Seq<char>) -> Seq<char> {
    spec_tidy_lines(spec_attach_sense_numbers(spec_break_before_bullets(t)))
}

pub fn polish_readable(t: &Vec<char>) -> (r: Vec<char>)
    ensures
        r@ == spec_polish(t@),
{
    let with_bullets = break_before_bullets(t);
    let joined = attach_sense_numbers(&with_bullets);
    tidy_lines(&joined)
}

} // verus!
