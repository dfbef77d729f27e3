//! Recognition of the structured dictionary article format (`CK/DC/JS/CY/CX`
//! classes) on an HTML5 tree, and the reference targets of a definition.
#![verifier::loop_isolation(false)]
use vstd::prelude::*;
use std::cell::RefCell;
use html5ever::buffer_queue::BufferQueue;
use html5ever::serialize::{SerializeOpts, TraversalScope};
use html5ever::tokenizer::states::RawKind;
use html5ever::tokenizer::{TagKind, Token, TokenSink, TokenSinkResult, Tokenizer};
use html5ever::tree_builder::TreeBuilder;
use html5ever::TokenizerResult;
use markup5ever_rcdom::{Handle, Node, NodeData, RcDom, SerializableHandle};
use crate::readable::spec_html_to_text;
use crate::text::{
    all_ws, chars_eq, collapse_ws, is_ascii_whitespace, is_ascii_ws, is_ws, spec_collapse, str_eq,
    to_chars, trim, trim_bounds,
};

verus! {

#[verifier::external_type_specification]
#[verifier::external_body]
pub struct ExToken(Token);

#[verifier::external_type_specification]
#[verifier::external_body]
#[verifier::reject_recursive_types(H)]
pub struct ExTokenSinkResult<H>(TokenSinkResult<H>);

#[verifier::external_type_specification]
#[verifier::external_body]
#[verifier::reject_recursive_types(T)]
pub struct ExRefCell<T: ?Sized>(RefCell<T>);

#[verifier::external_type_specification]
#[verifier::external_body]
pub struct ExNode(Node);


#[verifier::external_type_specification]
#[verifier::external_body]
pub struct ExRcDom(RcDom);

#[verifier::external_type_specification]
#[verifier::external_body]
#[verifier::reject_recursive_types(H)]
#[verifier::reject_recursive_types(S)]
pub struct ExTreeBuilder<H, S>(TreeBuilder<H, S>);

/// What a tree node is.
pub enum NodeKind {
    Document,
    Element { name: String, attrs: Vec<(String, String)> },
    Text(String),
    Other,
}

/// A node of the HTML5 tree of a definition: its kind, its children and its own
/// HTML serialization (empty for the document itself).
pub struct HtmlNode {
    pub kind: NodeKind,
    pub children: Vec<HtmlNode>,
    pub html: String,
}

pub open spec fn attrs_of(n: HtmlNode) -> Seq<(String, String)> {
    match n.kind {
        NodeKind::Element { attrs, .. } => attrs@,
        _ => Seq::empty(),
    }
}

/// The value of the first attribute named `key`, from index `i` on.
pub open spec fn attr_from(a: Seq<(String, String)>, i: int, key: Seq<char>) -> Option<Seq<char>>
    decreases a.len() - i,
{
    if i < 0 || i >= a.len() {
        None
    } else if a[i].0@ == key {
        Some(a[i].1@)
    } else {
        attr_from(a, i + 1, key)
    }
}

pub open spec fn spec_attr(n: HtmlNode, key: Seq<char>) -> Option<Seq<char>> {
    attr_from(attrs_of(n), 0, key)
}

pub fn attr(n: &HtmlNode, key: &str) -> (r: Option<String>)
    ensures
        r matches Some(v) ==> spec_attr(*n, key@) == Some(v@),
        r is None ==> spec_attr(*n, key@) is None,
{
    match &n.kind {
        NodeKind::Element { attrs, .. } => {
            let mut i: usize = 0;
            while i < attrs.len()
                invariant
                    i <= attrs.len(),
                    attrs_of(*n) == attrs@,
                    spec_attr(*n, key@) == attr_from(attrs@, i as int, key@),
                decreases attrs.len() - i,
            {
                if str_eq(attrs[i].0.as_str(), key) {
                    return Some(attrs[i].1.clone());
                }
                i += 1;
            }
            None
        },
        _ => None,
    }
}

pub open spec fn starts_with_seq(s: Seq<char>, p: Seq<char>) -> bool {
    p.len() <= s.len() && s.subrange(0, p.len() as int) == p
}

/// The `entry://` target of a node's `href`, if it has one.
pub open spec fn spec_reference_target(n: HtmlNode) -> Option<Seq<char>> {
    match spec_attr(n, "href"@) {
        Some(v) => if starts_with_seq(v, "entry://"@) { Some(v) } else { None },
        None => None,
    }
}

pub fn has_prefix(s: &str, p: &str) -> (r: bool)
    ensures
        r == starts_with_seq(s@, p@),
{
    let a = to_chars(s);
    let b = to_chars(p);
    if b.len() > a.len() {
        return false;
    }
    let mut i: usize = 0;
    while i < b.len()
        invariant
            i <= b.len() <= a.len(),
            forall|k: int| 0 <= k < i ==> a@[k] == b@[k],
        decreases b.len() - i,
    {
        if a[i] != b[i] {
            assert(a@.subrange(0, b@.len() as int)[i as int] != b@[i as int]);
            return false;
        }
        i += 1;
    }
    assert(a@.subrange(0, b@.len() as int) =~= b@);
    true
}

pub fn reference_target(n: &HtmlNode) -> (r: Option<String>)
    ensures
        r matches Some(v) ==> spec_reference_target(*n) == Some(v@),
        r is None ==> spec_reference_target(*n) is None,
{
    match attr(n, "href") {
        Some(v) => if has_prefix(v.as_str(), "entry://") {
            Some(v)
        } else {
            None
        },
        None => None,
    }
}

/// End of the run of non-whitespace characters that starts at `i`.
pub open spec fn token_end(v: Seq<char>, i: int) -> int
    decreases v.len() - i,
{
    if 0 <= i < v.len() && !is_ascii_ws(v[i]) {
        token_end(v, i + 1)
    } else {
        i
    }
}

pub proof fn lemma_token_end(v: Seq<char>, i: int)
    requires
        0 <= i <= v.len(),
    ensures
        i <= token_end(v, i) <= v.len(),
        i < v.len() && !is_ascii_ws(v[i]) ==> i < token_end(v, i),
    decreases v.len() - i,
{
    if 0 <= i < v.len() && !is_ascii_ws(v[i]) {
        lemma_token_end(v, i + 1);
    }
}

/// Some whitespace-separated token of `v` from `i` on equals `c`
/// (`split_ascii_whitespace().any(|part| part == c)`).
pub open spec fn has_token_from(v: Seq<char>, i: int, c: Seq<char>) -> bool
    decreases v.len() - i,
{
    if i < 0 || i >= v.len() {
        false
    } else if is_ascii_ws(v[i]) {
        has_token_from(v, i + 1, c)
    } else {
        let j = token_end(v, i);
        proof {
            lemma_token_end(v, i);
        }
        v.subrange(i, j) == c || has_token_from(v, j, c)
    }
}

pub open spec fn spec_has_class(n: HtmlNode, c: Seq<char>) -> bool {
    match spec_attr(n, "class"@) {
        Some(v) => has_token_from(v, 0, c),
        None => false,
    }
}

pub fn has_class(n: &HtmlNode, class: &str) -> (r: bool)
    ensures
        r == spec_has_class(*n, class@),
{
    let value = match attr(n, "class") {
        Some(v) => v,
        None => {
            return false;
        },
    };
    let v = to_chars(value.as_str());
    let c = to_chars(class);
    let mut i: usize = 0;
    while i < v.len()
        invariant
            i <= v.len(),
            v@ == value@,
            has_token_from(v@, 0, c@) == has_token_from(v@, i as int, c@),
        decreases v.len() - i,
    {
        if is_ascii_whitespace(v[i]) {
            i += 1;
            continue;
        }
        let mut j = i;
        while j < v.len() && !is_ascii_whitespace(v[j])
            invariant
                i <= j <= v.len(),
                token_end(v@, i as int) == token_end(v@, j as int),
            decreases v.len() - j,
        {
            j += 1;
        }
        proof {
            lemma_token_end(v@, i as int);
        }
        let mut same = j - i == c.len();
        if same {
            let mut k: usize = 0;
            while k < c.len()
                invariant
                    k <= c.len(),
                    i + c.len() == j <= v.len(),
                    same,
                    forall|m: int| 0 <= m < k ==> v@[i + m] == c@[m],
                decreases c.len() - k,
            {
                if v[i + k] != c[k] {
                    assert(v@.subrange(i as int, j as int)[k as int] != c@[k as int]);
                    same = false;
                    break;
                }
                k += 1;
            }
            if same {
                assert(v@.subrange(i as int, j as int) =~= c@);
            }
        }
        if same {
            return true;
        }
        i = j;
    }
    false
}

pub open spec fn spec_tag(n: HtmlNode) -> Seq<char> {
    match n.kind {
        NodeKind::Element { name, .. } => name@,
        _ => Seq::empty(),
    }
}

pub fn tag(n: &HtmlNode) -> (r: &str)
    ensures
        r@ == spec_tag(*n),
{
    match &n.kind {
        NodeKind::Element { name, .. } => name.as_str(),
        _ => {
            proof {
                reveal_strlit("");
            }
            ""
        },
    }
}

pub open spec fn spec_invisible(n: HtmlNode) -> bool {
    let t = spec_tag(n);
    t == "script"@ || t == "style"@ || t == "link"@ || t == "meta"@
}

pub fn invisible(n: &HtmlNode) -> (r: bool)
    ensures
        r == spec_invisible(*n),
{
    let t = tag(n);
    str_eq(t, "script") || str_eq(t, "style") || str_eq(t, "link") || str_eq(t, "meta")
}

pub open spec fn text_of(n: HtmlNode) -> Option<Seq<char>> {
    match n.kind {
        NodeKind::Text(t) => Some(t@),
        _ => None,
    }
}

pub open spec fn decorative_char(c: char) -> bool {
    is_ws(c) || crate::readable::is_bullet_char(c)
}

/// Every child is text made only of whitespace and bullets.
pub open spec fn only_decoration(n: HtmlNode) -> bool {
    forall|k: int| 0 <= k < n.children@.len() ==> decorative_text(#[trigger] n.children@[k])
}

pub open spec fn decorative_text(n: HtmlNode) -> bool {
    match text_of(n) {
        Some(t) => all_decorative(t),
        None => false,
    }
}

pub open spec fn all_decorative(t: Seq<char>) -> bool {
    forall|m: int| 0 <= m < t.len() ==> decorative_char(#[trigger] t[m])
}

pub open spec fn hidden_inline(n: HtmlNode, omit_number: bool) -> bool {
    ||| spec_invisible(n)
    ||| (spec_has_class(n, "entryDot"@) && spec_reference_target(n) is None && only_decoration(n))
    ||| (omit_number && spec_has_class(n, "entryNum"@))
}

/// The inline text of a node: its text, a space for superscripts and line
/// breaks, its children in order, then ` (target)` for an `entry://` reference.
pub open spec fn spec_inline(n: HtmlNode, omit_number: bool) -> Seq<char>
    decreases n, 0int,
{
    if hidden_inline(n, omit_number) {
        Seq::empty()
    } else {
        let own = match text_of(n) {
            Some(t) => t,
            None => Seq::empty(),
        };
        let spaced = if spec_has_class(n, "superscript"@) || spec_tag(n) == "br"@ || spec_tag(n)
            == "hr"@ {
            own.push(' ')
        } else {
            own
        };
        let with_children = spaced + spec_inline_children(n.children@, 0, omit_number);
        match spec_reference_target(n) {
            Some(t) => with_children + " ("@ + t + ")"@,
            None => with_children,
        }
    }
}

pub open spec fn spec_inline_children(s: Seq<HtmlNode>, i: int, omit_number: bool) -> Seq<char>
    decreases s, s.len() - i,
{
    if i < 0 || i >= s.len() {
        Seq::empty()
    } else {
        spec_inline(s[i], omit_number) + spec_inline_children(s, i + 1, omit_number)
    }
}

fn only_decoration_exec(n: &HtmlNode) -> (r: bool)
    ensures
        r == only_decoration(*n),
{
    let mut k: usize = 0;
    while k < n.children.len()
        invariant
            k <= n.children.len(),
            forall|j: int| 0 <= j < k ==> decorative_text(#[trigger] n.children@[j]),
        decreases n.children.len() - k,
    {
        match &n.children[k].kind {
            NodeKind::Text(t) => {
                let v = to_chars(t.as_str());
                let mut m: usize = 0;
                while m < v.len()
                    invariant
                        m <= v.len(),
                        v@ == t@,
                        forall|x: int| 0 <= x < m ==> decorative_char(#[trigger] v@[x]),
                    decreases v.len() - m,
                {
                    if !(crate::text::is_whitespace(v[m]) || crate::readable::is_bullet(v[m])) {
                        assert(!decorative_char(v@[m as int]));
                        assert(text_of(n.children@[k as int]) == Some(t@));
                        assert(t@[m as int] == v@[m as int]);
                        assert(!decorative_text(n.children@[k as int]));
                        return false;
                    }
                    m += 1;
                }
                assert(all_decorative(t@));
            },
            _ => {
                assert(!decorative_text(n.children@[k as int]));
                return false;
            },
        }
        k += 1;
    }
    true
}

fn push_str_chars(out: &mut Vec<char>, s: &str)
    ensures
        final(out)@ == old(out)@ + s@,
{
    let v = to_chars(s);
    let ghost base = out@;
    let mut i: usize = 0;
    while i < v.len()
        invariant
            i <= v.len(),
            out@ == base + v@.take(i as int),
        decreases v.len() - i,
    {
        out.push(v[i]);
        i += 1;
        assert(base + v@.take(i as int) =~= (base + v@.take((i - 1) as int)).push(v@[i - 1]));
    }
    assert(v@.take(v.len() as int) =~= v@);
}

#[verifier::rlimit(50)]
pub fn inline(n: &HtmlNode, out: &mut Vec<char>, omit_number: bool)
    ensures
        final(out)@ == old(out)@ + spec_inline(*n, omit_number),
    decreases n, 0int,
{
    if invisible(n) || (has_class(n, "entryDot") && reference_target(n).is_none()
        && only_decoration_exec(n)) || (omit_number && has_class(n, "entryNum")) {
        assert(old(out)@ + Seq::<char>::empty() =~= old(out)@);
        return;
    }
    assert(!hidden_inline(*n, omit_number));
    let ghost base = out@;
    if let NodeKind::Text(t) = &n.kind {
        push_str_chars(out, t.as_str());
    } else {
        assert(base + Seq::<char>::empty() =~= base);
    }
    if has_class(n, "superscript") || str_eq(tag(n), "br") || str_eq(tag(n), "hr") {
        out.push(' ');
    }
    let ghost spaced = out@;
    let mut i: usize = 0;
    while i < n.children.len()
        invariant
            i <= n.children.len(),
            spec_inline_children(n.children@, 0, omit_number) == spec_inline_children(
                n.children@,
                0,
                omit_number,
            ),
            out@ + spec_inline_children(n.children@, i as int, omit_number) == spaced
                + spec_inline_children(n.children@, 0, omit_number),
        decreases n.children.len() - i,
    {
        let ghost before = out@;
        proof {
            assert(decreases_to!(n => n.children));
        }
        inline(&n.children[i], out, omit_number);
        assert(before + spec_inline_children(n.children@, i as int, omit_number) =~= out@
            + spec_inline_children(n.children@, i + 1, omit_number));
        i += 1;
    }
    assert(out@ + spec_inline_children(n.children@, i as int, omit_number) =~= out@);
    if let Some(target) = reference_target(n) {
        push_str_chars(out, " (");
        push_str_chars(out, target.as_str());
        push_str_chars(out, ")");
        assert(out@ =~= base + spec_inline(*n, omit_number));
    } else {
        assert(out@ =~= base + spec_inline(*n, omit_number));
    }
}

/// A node's inline text with whitespace runs collapsed and the ends trimmed.
pub open spec fn spec_text(n: HtmlNode, omit_number: bool) -> Seq<char> {
    spec_collapse(spec_inline(n, omit_number))
}

pub fn text(n: &HtmlNode, omit_number: bool) -> (r: Vec<char>)
    ensures
        r@ == spec_text(*n, omit_number),
{
    let mut raw: Vec<char> = Vec::new();
    inline(n, &mut raw, omit_number);
    assert(Seq::<char>::empty() + spec_inline(*n, omit_number) =~= spec_inline(*n, omit_number));
    collapse_ws(&raw)
}

/// Number of nodes in the subtree of `n` (itself included) that carry class `c`.
pub open spec fn class_count(n: HtmlNode, c: Seq<char>) -> nat
    decreases n, 0int,
{
    (if spec_has_class(n, c) { 1nat } else { 0nat }) + class_count_children(n.children@, 0, c)
}

pub open spec fn class_count_children(s: Seq<HtmlNode>, i: int, c: Seq<char>) -> nat
    decreases s, s.len() - i,
{
    if i < 0 || i >= s.len() {
        0
    } else {
        class_count(s[i], c) + class_count_children(s, i + 1, c)
    }
}

/// The first node, in document order, of the subtree of `n` that carries class `c`.
pub open spec fn first_class(n: HtmlNode, c: Seq<char>) -> Option<HtmlNode>
    decreases n, 0int,
{
    if spec_has_class(n, c) {
        Some(n)
    } else {
        first_class_children(n.children@, 0, c)
    }
}

pub open spec fn first_class_children(s: Seq<HtmlNode>, i: int, c: Seq<char>) -> Option<HtmlNode>
    decreases s, s.len() - i,
{
    if i < 0 || i >= s.len() {
        None
    } else {
        match first_class(s[i], c) {
            Some(x) => Some(x),
            None => first_class_children(s, i + 1, c),
        }
    }
}

pub open spec fn min2(n: nat) -> nat {
    if n >= 2 { 2 } else { n }
}

/// How many nodes of the subtree carry class `c`, counted up to two.
pub fn count_class(n: &HtmlNode, c: &str) -> (r: usize)
    ensures
        r == min2(class_count(*n, c@)),
    decreases n, 0int,
{
    let mut total: usize = if has_class(n, c) { 1 } else { 0 };
    let mut i: usize = 0;
    while i < n.children.len() && total < 2
        invariant
            i <= n.children.len(),
            total <= 2,
            min2(class_count(*n, c@)) == min2(total as nat + class_count_children(
                n.children@,
                i as int,
                c@,
            )),
        decreases n.children.len() - i,
    {
        proof {
            assert(decreases_to!(n => n.children));
        }
        let k = count_class(&n.children[i], c);
        total = total + k;
        if total > 2 {
            total = 2;
        }
        i += 1;
    }
    total
}

/// The first node of the subtree that carries class `c`.
pub fn find_class<'a>(n: &'a HtmlNode, c: &str) -> (r: Option<&'a HtmlNode>)
    ensures
        r matches Some(x) ==> first_class(*n, c@) == Some(*x),
        r is None ==> first_class(*n, c@) is None,
    decreases n, 0int,
{
    if has_class(n, c) {
        return Some(n);
    }
    let mut i: usize = 0;
    while i < n.children.len()
        invariant
            i <= n.children.len(),
            !spec_has_class(*n, c@),
            first_class(*n, c@) == first_class_children(n.children@, i as int, c@),
        decreases n.children.len() - i,
    {
        proof {
            assert(decreases_to!(n => n.children));
        }
        if let Some(x) = find_class(&n.children[i], c) {
            return Some(x);
        }
        i += 1;
    }
    None
}

/// A rendered part of a structured article.
pub enum Block {
    Heading(String),
    Label(String),
    Sense { number: String, text: String },
    Definition { text: String, subsense: bool, starts_subsense: bool },
    Example { lines: Vec<String>, first_direct: bool, subsense: bool },
    Etymology(Vec<Block>),
    Other(String),
}

/// The mathematical form of a `Block`.
pub enum BlockView {
    Heading(Seq<char>),
    Label(Seq<char>),
    Sense { number: Seq<char>, text: Seq<char> },
    Definition { text: Seq<char>, subsense: bool, starts_subsense: bool },
    Example { lines: Seq<Seq<char>>, first_direct: bool, subsense: bool },
    Etymology(Seq<BlockView>),
    Other(Seq<char>),
}

pub open spec fn lines_view(v: Seq<String>) -> Seq<Seq<char>> {
    v.map_values(|l: String| l@)
}

pub open spec fn block_view(b: Block) -> BlockView
    decreases b, 0int,
{
    match b {
        Block::Heading(t) => BlockView::Heading(t@),
        Block::Label(t) => BlockView::Label(t@),
        Block::Sense { number, text } => BlockView::Sense { number: number@, text: text@ },
        Block::Definition { text, subsense, starts_subsense } => BlockView::Definition {
            text: text@,
            subsense,
            starts_subsense,
        },
        Block::Example { lines, first_direct, subsense } => BlockView::Example {
            lines: lines_view(lines@),
            first_direct,
            subsense,
        },
        Block::Etymology(inner) => BlockView::Etymology(blocks_view_from(inner@, inner@.len() as int)),
        Block::Other(t) => BlockView::Other(t@),
    }
}

/// The views of the first `k` blocks.
pub open spec fn blocks_view_from(s: Seq<Block>, k: int) -> Seq<BlockView>
    decreases s, k,
{
    if k <= 0 || k > s.len() {
        Seq::empty()
    } else {
        blocks_view_from(s, k - 1).push(block_view(s[k - 1]))
    }
}

pub open spec fn blocks_view(s: Seq<Block>) -> Seq<BlockView> {
    blocks_view_from(s, s.len() as int)
}

pub proof fn lemma_blocks_view_push(s: Seq<Block>, b: Block)
    ensures
        blocks_view(s.push(b)) == blocks_view(s).push(block_view(b)),
{
    lemma_blocks_view_prefix(s.push(b), s, s.len() as int);
}

pub proof fn lemma_blocks_view_prefix(s: Seq<Block>, t: Seq<Block>, k: int)
    requires
        0 <= k <= t.len(),
        k <= s.len(),
        forall|j: int| 0 <= j < k ==> s[j] == t[j],
    ensures
        blocks_view_from(s, k) == blocks_view_from(t, k),
    decreases k,
{
    if k > 0 {
        lemma_blocks_view_prefix(s, t, k - 1);
    }
}

pub proof fn lemma_blocks_view_len(s: Seq<Block>, k: int)
    requires
        0 <= k <= s.len(),
    ensures
        blocks_view_from(s, k).len() == k,
    decreases k,
{
    if k > 0 {
        lemma_blocks_view_len(s, k - 1);
    }
}

/// Pushes a block and keeps the view of the list in step.
fn push_block(blocks: &mut Vec<Block>, b: Block)
    ensures
        blocks_view(final(blocks)@) == blocks_view(old(blocks)@).push(block_view(b)),
        final(blocks)@.len() == old(blocks)@.len() + 1,
{
    let ghost gb = b;
    blocks.push(b);
    proof {
        lemma_blocks_view_push(old(blocks)@, gb);
        assert(blocks@ == old(blocks)@.push(gb));
    }
}

/// A child whose own children hold a semantic block shows damage that inline
/// recovery cannot repair.
pub open spec fn nested_semantic(child: HtmlNode) -> bool {
    ||| class_count_children(child.children@, 0, "CX"@) > 0
    ||| class_count_children(child.children@, 0, "DX"@) > 0
    ||| class_count_children(child.children@, 0, "YX"@) > 0
    ||| class_count_children(child.children@, 0, "YD"@) > 0
    ||| class_count_children(child.children@, 0, "JX"@) > 0
    ||| class_count_children(child.children@, 0, "GZ"@) > 0
    ||| class_count_children(child.children@, 0, "LJ"@) > 0
}

fn count_class_children(n: &HtmlNode, c: &str) -> (r: usize)
    ensures
        r == min2(class_count_children(n.children@, 0, c@)),
{
    let mut total: usize = 0;
    let mut i: usize = 0;
    while i < n.children.len() && total < 2
        invariant
            i <= n.children.len(),
            total <= 2,
            min2(class_count_children(n.children@, 0, c@)) == min2(
                total as nat + class_count_children(n.children@, i as int, c@),
            ),
        decreases n.children.len() - i,
    {
        let k = count_class(&n.children[i], c);
        total = total + k;
        if total > 2 {
            total = 2;
        }
        i += 1;
    }
    total
}

fn nested_semantic_exec(child: &HtmlNode) -> (r: bool)
    ensures
        r == nested_semantic(*child),
{
    count_class_children(child, "CX") > 0 || count_class_children(child, "DX") > 0
        || count_class_children(child, "YX") > 0 || count_class_children(child, "YD") > 0
        || count_class_children(child, "JX") > 0 || count_class_children(child, "GZ") > 0
        || count_class_children(child, "LJ") > 0
}

/// The lines of an example group: every non-empty part must be an example (`LY`)
/// or its translation (`LS`).
pub open spec fn example_lines_from(parts: Seq<HtmlNode>, j: int, lines: Seq<Seq<char>>) -> Option<
    Seq<Seq<char>>,
>
    decreases parts.len() - j,
{
    if j < 0 || j >= parts.len() {
        Some(lines)
    } else {
        let line = spec_text(parts[j], false);
        if line.len() == 0 {
            example_lines_from(parts, j + 1, lines)
        } else if !spec_has_class(parts[j], "LY"@) && !spec_has_class(parts[j], "LS"@) {
            None
        } else {
            example_lines_from(parts, j + 1, lines.push(line))
        }
    }
}

pub open spec fn starts_with_square(v: Seq<char>) -> bool {
    v.len() > 0 && v[0] == '■'
}

/// The senses container `CX`, scanned child by child with the state of the
/// current main sense, subsense and example count.
pub open spec fn senses_from(
    s: Seq<HtmlNode>,
    i: int,
    headword: Seq<char>,
    main: bool,
    sub: bool,
    examples: nat,
    acc: Seq<BlockView>,
) -> Option<Seq<BlockView>>
    decreases s.len() - i,
{
    if i < 0 || i >= s.len() {
        Some(acc)
    } else {
        let child = s[i];
        let value = spec_text(child, spec_has_class(child, "JX"@));
        if nested_semantic(child) {
            None
        } else if spec_has_class(child, "YX"@) || spec_has_class(child, "YD"@) {
            let acc2 = if value != headword && value.len() > 0 {
                acc.push(BlockView::Heading(value))
            } else {
                acc
            };
            senses_from(s, i + 1, headword, false, false, examples, acc2)
        } else if spec_has_class(child, "DX"@) {
            senses_from(s, i + 1, headword, false, false, examples, acc.push(BlockView::Label(value)))
        } else if spec_has_class(child, "JX"@) {
            if class_count(child, "entryNum"@) > 1 {
                None
            } else {
                let number = match first_class(child, "entryNum"@) {
                    Some(x) => spec_text(x, false),
                    None => Seq::empty(),
                };
                senses_from(
                    s,
                    i + 1,
                    headword,
                    true,
                    false,
                    0,
                    acc.push(BlockView::Sense { number, text: value }),
                )
            }
        } else if spec_has_class(child, "GZ"@) {
            let starts = starts_with_square(value);
            let sub2 = if starts { true } else { sub };
            let t = if starts { trim(value.drop_first()) } else { value };
            senses_from(
                s,
                i + 1,
                headword,
                main,
                sub2,
                examples,
                acc.push(BlockView::Definition { text: t, subsense: sub2, starts_subsense: starts }),
            )
        } else if spec_has_class(child, "LJ"@) {
            if !main || spec_reference_target(child) is Some {
                None
            } else {
                match example_lines_from(child.children@, 0, Seq::empty()) {
                    None => None,
                    Some(lines) => if lines.len() > 0 {
                        senses_from(
                            s,
                            i + 1,
                            headword,
                            main,
                            sub,
                            examples + 1,
                            acc.push(
                                BlockView::Example {
                                    lines,
                                    first_direct: main && !sub && examples == 0,
                                    subsense: sub,
                                },
                            ),
                        )
                    } else {
                        senses_from(s, i + 1, headword, main, sub, examples, acc)
                    },
                }
            }
        } else if value.len() > 0 {
            senses_from(s, i + 1, headword, false, sub, examples, acc.push(BlockView::Other(child.html@)))
        } else {
            senses_from(s, i + 1, headword, main, sub, examples, acc)
        }
    }
}

/// The blocks of a senses container; `Other` blocks hold the HTML of the node.
pub open spec fn spec_parse_senses(node: HtmlNode, headword: Seq<char>) -> Option<Seq<BlockView>> {
    if spec_reference_target(node) is Some {
        None
    } else {
        senses_from(node.children@, 0, headword, false, false, 0, Seq::empty())
    }
}

fn string_from(v: &Vec<char>) -> (r: String)
    ensures
        r@ == v@,
{
    crate::text::from_chars(v)
}

fn example_lines(parts: &Vec<HtmlNode>) -> (r: Option<Vec<String>>)
    ensures
        r matches Some(v) ==> example_lines_from(parts@, 0, Seq::empty()) == Some(lines_view(v@)),
        r is None ==> example_lines_from(parts@, 0, Seq::empty()) is None,
{
    let mut lines: Vec<String> = Vec::new();
    let mut j: usize = 0;
    assert(lines_view(lines@) =~= Seq::<Seq<char>>::empty());
    while j < parts.len()
        invariant
            j <= parts.len(),
            example_lines_from(parts@, 0, Seq::empty()) == example_lines_from(
                parts@,
                j as int,
                lines_view(lines@),
            ),
        decreases parts.len() - j,
    {
        let line = text(&parts[j], false);
        if line.len() > 0 {
            if !has_class(&parts[j], "LY") && !has_class(&parts[j], "LS") {
                return None;
            }
            let ghost before = lines@;
            lines.push(string_from(&line));
            assert(lines_view(lines@) =~= lines_view(before).push(line@));
        }
        j += 1;
    }
    Some(lines)
}

#[verifier::rlimit(80)]
pub fn parse_senses(node: &HtmlNode, headword: &str, blocks: &mut Vec<Block>) -> (r: Option<()>)
    ensures
        r is Some <==> spec_parse_senses(*node, headword@) is Some,
        r is Some ==> blocks_view(final(blocks)@) == blocks_view(old(blocks)@)
            + spec_parse_senses(*node, headword@)->0,
{
    if reference_target(node).is_some() {
        return None;
    }
    let hw = to_chars(headword);
    let mut main = false;
    let mut subsense = false;
    let mut examples: usize = 0;
    let ghost base = blocks_view(blocks@);
    let ghost s = node.children@;
    let ghost mut acc: Seq<BlockView> = Seq::empty();
    let mut i: usize = 0;
    assert(base + acc =~= base);
    while i < node.children.len()
        invariant
            i <= node.children.len(),
            examples <= i,
            s == node.children@,
            hw@ == headword@,
            spec_reference_target(*node) is None,
            blocks_view(blocks@) == base + acc,
            senses_from(s, 0, headword@, false, false, 0, Seq::empty()) == senses_from(
                s,
                i as int,
                headword@,
                main,
                subsense,
                examples as nat,
                acc,
            ),
        decreases node.children.len() - i,
    {
        let child = &node.children[i];
        if nested_semantic_exec(child) {
            return None;
        }
        let is_jx = has_class(child, "JX");
        let value = text(child, is_jx);
        if has_class(child, "YX") || has_class(child, "YD") {
            if !crate::text::chars_eq(&value, &hw) && value.len() > 0 {
                push_block(blocks, Block::Heading(string_from(&value)));
                proof {
                    acc = acc.push(BlockView::Heading(value@));
                }
                assert(blocks_view(blocks@) =~= base + acc);
            }
            main = false;
            subsense = false;
        } else if has_class(child, "DX") {
            push_block(blocks, Block::Label(string_from(&value)));
            proof {
                acc = acc.push(BlockView::Label(value@));
            }
            assert(blocks_view(blocks@) =~= base + acc);
            main = false;
            subsense = false;
        } else if has_class(child, "JX") {
            if count_class(child, "entryNum") > 1 {
                return None;
            }
            let number = match find_class(child, "entryNum") {
                Some(x) => text(x, false),
                None => Vec::new(),
            };
            let nb = Block::Sense { number: string_from(&number), text: string_from(&value) };
            push_block(blocks, nb);
            proof {
                acc = acc.push(BlockView::Sense { number: number@, text: value@ });
            }
            assert(blocks_view(blocks@) =~= base + acc);
            main = true;
            subsense = false;
            examples = 0;
        } else if has_class(child, "GZ") {
            let starts = value.len() > 0 && value[0] == '■';
            let t = if starts {
                subsense = true;
                let (b, e) = trim_bounds(&value, 1, value.len());
                assert(value@.drop_first() =~= value@.subrange(1, value@.len() as int));
                crate::readable::slice_to_vec(&value, b, e)
            } else {
                value
            };
            push_block(
                blocks,
                Block::Definition { text: string_from(&t), subsense, starts_subsense: starts },
            );
            proof {
                acc = acc.push(BlockView::Definition { text: t@, subsense, starts_subsense: starts });
            }
            assert(blocks_view(blocks@) =~= base + acc);
        } else if has_class(child, "LJ") {
            if !main || reference_target(child).is_some() {
                return None;
            }
            match example_lines(&child.children) {
                None => {
                    return None;
                },
                Some(lines) => {
                    if lines.len() > 0 {
                        let ghost lv = lines_view(lines@);
                        let first_direct = main && !subsense && examples == 0;
                        push_block(blocks, Block::Example { lines, first_direct, subsense });
                        proof {
                            acc = acc.push(BlockView::Example { lines: lv, first_direct, subsense });
                        }
                        assert(blocks_view(blocks@) =~= base + acc);
                        examples += 1;
                    }
                },
            }
        } else if value.len() > 0 {
            push_block(blocks, Block::Other(child.html.clone()));
            proof {
                acc = acc.push(BlockView::Other(child.html@));
            }
            assert(blocks_view(blocks@) =~= base + acc);
            main = false;
        }
        i += 1;
    }
    Some(())
}

pub open spec fn has_heading(s: Seq<BlockView>) -> bool {
    exists|k: int| 0 <= k < s.len() && (#[trigger] s[k]) is Heading
}

pub open spec fn has_other(s: Seq<BlockView>) -> bool {
    exists|k: int| 0 <= k < s.len() && (#[trigger] s[k]) is Other
}

pub open spec fn is_section(n: HtmlNode) -> bool {
    spec_has_class(n, "CY"@) || spec_has_class(n, "CZ"@) || spec_has_class(n, "JC"@)
        || spec_has_class(n, "YY"@)
}

/// The parts of one section: titles, sense containers and other content, with the
/// number of sense containers seen. Unrecognized content is refused in an etymology.
pub open spec fn section_from(
    parts: Seq<HtmlNode>,
    j: int,
    headword: Seq<char>,
    etymology: bool,
    sec: Seq<BlockView>,
    containers: nat,
) -> Option<(Seq<BlockView>, nat)>
    decreases parts.len() - j,
{
    if j < 0 || j >= parts.len() {
        Some((sec, containers))
    } else {
        let part = parts[j];
        if spec_has_class(part, "section_title"@) {
            section_from(
                parts,
                j + 1,
                headword,
                etymology,
                sec.push(BlockView::Heading(spec_text(part, false))),
                containers,
            )
        } else if spec_has_class(part, "CX"@) {
            match spec_parse_senses(part, headword) {
                None => None,
                Some(bs) => section_from(parts, j + 1, headword, etymology, sec + bs, containers + 1),
            }
        } else if spec_text(part, false).len() > 0 {
            if etymology {
                None
            } else {
                section_from(
                    parts,
                    j + 1,
                    headword,
                    etymology,
                    sec.push(BlockView::Other(part.html@)),
                    containers,
                )
            }
        } else {
            section_from(parts, j + 1, headword, etymology, sec, containers)
        }
    }
}

/// The children of a source group (`JS`) in order.
pub open spec fn group_from(s: Seq<HtmlNode>, i: int, headword: Seq<char>, acc: Seq<BlockView>) -> Option<
    Seq<BlockView>,
>
    decreases s.len() - i,
{
    if i < 0 || i >= s.len() {
        Some(acc)
    } else {
        let child = s[i];
        if is_section(child) {
            if spec_reference_target(child) is Some {
                None
            } else {
                let yy = spec_has_class(child, "YY"@);
                match section_from(child.children@, 0, headword, yy, Seq::empty(), 0) {
                    None => None,
                    Some((section, containers)) => if containers == 0 {
                        None
                    } else if yy {
                        if !has_heading(section) || has_other(section) {
                            None
                        } else {
                            group_from(s, i + 1, headword, acc.push(BlockView::Etymology(section)))
                        }
                    } else {
                        group_from(s, i + 1, headword, acc + section)
                    },
                }
            }
        } else if spec_text(child, false).len() > 0 {
            group_from(s, i + 1, headword, acc.push(BlockView::Other(child.html@)))
        } else {
            group_from(s, i + 1, headword, acc)
        }
    }
}

pub open spec fn child_has_class(n: HtmlNode, c: Seq<char>) -> bool {
    exists|k: int| 0 <= k < n.children@.len() && spec_has_class(#[trigger] n.children@[k], c)
}

pub open spec fn spec_parse_group(node: HtmlNode, headword: Seq<char>) -> Option<Seq<BlockView>> {
    if spec_reference_target(node) is Some {
        None
    } else if !child_has_class(node, "CY"@) {
        None
    } else {
        group_from(node.children@, 0, headword, Seq::empty())
    }
}

fn child_has_class_exec(n: &HtmlNode, c: &str) -> (r: bool)
    ensures
        r == child_has_class(*n, c@),
{
    let mut k: usize = 0;
    while k < n.children.len()
        invariant
            k <= n.children.len(),
            forall|j: int| 0 <= j < k ==> !spec_has_class(#[trigger] n.children@[j], c@),
        decreases n.children.len() - k,
    {
        if has_class(&n.children[k], c) {
            return true;
        }
        k += 1;
    }
    false
}

fn is_section_exec(n: &HtmlNode) -> (r: bool)
    ensures
        r == is_section(*n),
{
    has_class(n, "CY") || has_class(n, "CZ") || has_class(n, "JC") || has_class(n, "YY")
}

fn append_blocks(blocks: &mut Vec<Block>, more: Vec<Block>)
    ensures
        blocks_view(final(blocks)@) == blocks_view(old(blocks)@) + blocks_view(more@),
{
    let mut more = more;
    let ghost m = more@;
    let ghost base = blocks_view(blocks@);
    let n0 = more.len();
    assert(m.len() == n0);
    let mut rest: Vec<Block> = Vec::new();
    // Move the blocks in order without copying them.
    while more.len() > 0
        invariant
            more@.len() <= m.len(),
            rest@.len() + more@.len() == m.len(),
            forall|j: int| 0 <= j < more@.len() ==> more@[j] == m[j],
            forall|j: int| 0 <= j < rest@.len() ==> rest@[j] == m[m.len() - 1 - j],
        decreases more.len(),
    {
        let b = more.pop().unwrap();
        rest.push(b);
    }
    let mut k: usize = 0;
    while rest.len() > 0
        invariant
            m.len() <= usize::MAX,
            rest@.len() + k == m.len(),
            forall|j: int| 0 <= j < rest@.len() ==> rest@[j] == m[m.len() - 1 - j],
            blocks_view(blocks@) == base + blocks_view(m.subrange(0, k as int)),
        decreases rest.len(),
    {
        let b = rest.pop().unwrap();
        assert(b == m[k as int]);
        push_block(blocks, b);
        proof {
            lemma_blocks_view_push(m.subrange(0, k as int), m[k as int]);
            assert(m.subrange(0, k as int).push(m[k as int]) =~= m.subrange(0, k + 1));
        }
        k += 1;
    }
    assert(m.subrange(0, k as int) =~= m);
}

fn has_heading_exec(s: &Vec<Block>) -> (r: bool)
    ensures
        r == has_heading(blocks_view(s@)),
{
    proof {
        lemma_blocks_view_len(s@, s@.len() as int);
    }
    let mut k: usize = 0;
    while k < s.len()
        invariant
            k <= s.len(),
            blocks_view(s@).len() == s@.len(),
            forall|j: int| 0 <= j < k ==> !((#[trigger] blocks_view(s@)[j]) is Heading),
        decreases s.len() - k,
    {
        proof {
            lemma_blocks_view_index(s@, k as int);
        }
        if let Block::Heading(_) = &s[k] {
            return true;
        }
        k += 1;
    }
    false
}

fn has_other_exec(s: &Vec<Block>) -> (r: bool)
    ensures
        r == has_other(blocks_view(s@)),
{
    proof {
        lemma_blocks_view_len(s@, s@.len() as int);
    }
    let mut k: usize = 0;
    while k < s.len()
        invariant
            k <= s.len(),
            blocks_view(s@).len() == s@.len(),
            forall|j: int| 0 <= j < k ==> !((#[trigger] blocks_view(s@)[j]) is Other),
        decreases s.len() - k,
    {
        proof {
            lemma_blocks_view_index(s@, k as int);
        }
        if let Block::Other(_) = &s[k] {
            return true;
        }
        k += 1;
    }
    false
}

pub proof fn lemma_blocks_view_index(s: Seq<Block>, k: int)
    requires
        0 <= k < s.len(),
    ensures
        blocks_view(s)[k] == block_view(s[k]),
{
    lemma_blocks_view_index_from(s, s.len() as int, k);
}

pub proof fn lemma_blocks_view_index_from(s: Seq<Block>, n: int, k: int)
    requires
        0 <= k < n <= s.len(),
    ensures
        blocks_view_from(s, n)[k] == block_view(s[k]),
    decreases n,
{
    lemma_blocks_view_len(s, n - 1);
    if k < n - 1 {
        lemma_blocks_view_index_from(s, n - 1, k);
    }
}

#[verifier::rlimit(80)]
fn parse_section(child: &HtmlNode, headword: &str, etymology: bool) -> (r: Option<(Vec<Block>, usize)>)
    ensures
        r matches Some((v, c)) ==> section_from(child.children@, 0, headword@, etymology, Seq::empty(), 0)
            == Some((blocks_view(v@), c as nat)),
        r is None ==> section_from(child.children@, 0, headword@, etymology, Seq::empty(), 0) is None,
{
    let mut section: Vec<Block> = Vec::new();
    let mut containers: usize = 0;
    let ghost s = child.children@;
    let mut j: usize = 0;
    assert(blocks_view(section@) =~= Seq::<BlockView>::empty());
    while j < child.children.len()
        invariant
            j <= child.children.len(),
            containers <= j,
            s == child.children@,
            section_from(s, 0, headword@, etymology, Seq::empty(), 0) == section_from(
                s,
                j as int,
                headword@,
                etymology,
                blocks_view(section@),
                containers as nat,
            ),
        decreases child.children.len() - j,
    {
        let part = &child.children[j];
        if has_class(part, "section_title") {
            let t = text(part, false);
            push_block(&mut section, Block::Heading(string_from(&t)));
        } else if has_class(part, "CX") {
            if parse_senses(part, headword, &mut section).is_none() {
                return None;
            }
            containers += 1;
        } else {
            let t = text(part, false);
            if t.len() > 0 {
                if etymology {
                    return None;
                }
                push_block(&mut section, Block::Other(part.html.clone()));
            }
        }
        j += 1;
    }
    Some((section, containers))
}

#[verifier::rlimit(80)]
pub fn parse_group(node: &HtmlNode, headword: &str, blocks: &mut Vec<Block>) -> (r: Option<()>)
    ensures
        r is Some <==> spec_parse_group(*node, headword@) is Some,
        r is Some ==> blocks_view(final(blocks)@) == blocks_view(old(blocks)@)
            + spec_parse_group(*node, headword@)->0,
{
    if reference_target(node).is_some() {
        return None;
    }
    if !child_has_class_exec(node, "CY") {
        return None;
    }
    let ghost base = blocks_view(blocks@);
    let ghost s = node.children@;
    let ghost mut acc: Seq<BlockView> = Seq::empty();
    assert(base + acc =~= base);
    let mut i: usize = 0;
    while i < node.children.len()
        invariant
            i <= node.children.len(),
            s == node.children@,
            blocks_view(blocks@) == base + acc,
            spec_parse_group(*node, headword@) == group_from(s, i as int, headword@, acc),
        decreases node.children.len() - i,
    {
        let child = &node.children[i];
        if is_section_exec(child) {
            if reference_target(child).is_some() {
                return None;
            }
            let yy = has_class(child, "YY");
            match parse_section(child, headword, yy) {
                None => {
                    return None;
                },
                Some((section, containers)) => {
                    if containers == 0 {
                        return None;
                    }
                    if yy {
                        if !has_heading_exec(&section) || has_other_exec(&section) {
                            return None;
                        }
                        let ghost sv = blocks_view(section@);
                        push_block(blocks, Block::Etymology(section));
                        proof {
                            acc = acc.push(BlockView::Etymology(sv));
                        }
                        assert(blocks_view(blocks@) =~= base + acc);
                    } else {
                        let ghost sv = blocks_view(section@);
                        append_blocks(blocks, section);
                        proof {
                            acc = acc + sv;
                        }
                        assert(blocks_view(blocks@) =~= base + acc);
                    }
                },
            }
        } else {
            let t = text(child, false);
            if t.len() > 0 {
                push_block(blocks, Block::Other(child.html.clone()));
                proof {
                    acc = acc.push(BlockView::Other(child.html@));
                }
                assert(blocks_view(blocks@) =~= base + acc);
            }
        }
        i += 1;
    }
    Some(())
}

/// Content of the tree outside the single article root: visible text or a reference.
pub open spec fn spec_outside(n: HtmlNode) -> bool
    decreases n, 0int,
{
    if spec_has_class(n, "CK"@) || spec_invisible(n) {
        false
    } else if text_of(n) is Some && !all_ws(text_of(n)->0) {
        true
    } else if spec_reference_target(n) is Some {
        true
    } else {
        outside_children(n.children@, 0)
    }
}

pub open spec fn outside_children(s: Seq<HtmlNode>, i: int) -> bool
    decreases s, s.len() - i,
{
    if i < 0 || i >= s.len() {
        false
    } else {
        spec_outside(s[i]) || outside_children(s, i + 1)
    }
}

pub fn outside(n: &HtmlNode) -> (r: bool)
    ensures
        r == spec_outside(*n),
    decreases n, 0int,
{
    if has_class(n, "CK") || invisible(n) {
        return false;
    }
    if let NodeKind::Text(t) = &n.kind {
        let v = to_chars(t.as_str());
        if !crate::text::all_whitespace(&v, 0, v.len()) {
            assert(v@.subrange(0, v@.len() as int) =~= v@);
            return true;
        }
        assert(v@.subrange(0, v@.len() as int) =~= v@);
    }
    if reference_target(n).is_some() {
        return true;
    }
    let mut i: usize = 0;
    while i < n.children.len()
        invariant
            i <= n.children.len(),
            spec_outside(*n) == outside_children(n.children@, i as int),
        decreases n.children.len() - i,
    {
        proof {
            assert(decreases_to!(n => n.children));
        }
        if outside(&n.children[i]) {
            return true;
        }
        i += 1;
    }
    false
}

/// The children of the article root: headword titles, source groups and other content.
pub open spec fn root_from(s: Seq<HtmlNode>, i: int, headword: Seq<char>, acc: Seq<BlockView>) -> Option<
    Seq<BlockView>,
>
    decreases s.len() - i,
{
    if i < 0 || i >= s.len() {
        Some(acc)
    } else {
        let child = s[i];
        if spec_has_class(child, "DC"@) {
            let title = spec_text(child, false);
            root_from(
                s,
                i + 1,
                headword,
                if title != headword { acc.push(BlockView::Heading(title)) } else { acc },
            )
        } else if spec_has_class(child, "JS"@) {
            match spec_parse_group(child, headword) {
                None => None,
                Some(bs) => root_from(s, i + 1, headword, acc + bs),
            }
        } else if spec_text(child, false).len() > 0 {
            root_from(s, i + 1, headword, acc.push(BlockView::Other(child.html@)))
        } else {
            root_from(s, i + 1, headword, acc)
        }
    }
}

/// The blocks of a recognized article, or `None` when the tree is not one article
/// of the recognized format; `Other` blocks hold the HTML of their node.
pub open spec fn spec_parse_tree(doc: HtmlNode, headword: Seq<char>) -> Option<Seq<BlockView>> {
    if class_count(doc, "CK"@) != 1 || first_class(doc, "CK"@) is None {
        None
    } else {
        let root = first_class(doc, "CK"@)->0;
        if spec_reference_target(root) is Some {
            None
        } else if !child_has_class(root, "DC"@) || !child_has_class(root, "JS"@) {
            None
        } else if spec_outside(doc) {
            None
        } else {
            root_from(root.children@, 0, headword, Seq::empty())
        }
    }
}

#[verifier::rlimit(80)]
pub fn parse_tree(doc: &HtmlNode, headword: &str) -> (r: Option<Vec<Block>>)
    ensures
        r matches Some(v) ==> spec_parse_tree(*doc, headword@) == Some(blocks_view(v@)),
        r is None ==> spec_parse_tree(*doc, headword@) is None,
{
    if count_class(doc, "CK") != 1 {
        return None;
    }
    let root = match find_class(doc, "CK") {
        Some(x) => x,
        None => {
            return None;
        },
    };
    if reference_target(root).is_some() {
        return None;
    }
    if !child_has_class_exec(root, "DC") || !child_has_class_exec(root, "JS") {
        return None;
    }
    if outside(doc) {
        return None;
    }
    let hw = to_chars(headword);
    let mut blocks: Vec<Block> = Vec::new();
    let ghost s = root.children@;
    assert(blocks_view(blocks@) =~= Seq::<BlockView>::empty());
    let mut i: usize = 0;
    while i < root.children.len()
        invariant
            i <= root.children.len(),
            s == root.children@,
            hw@ == headword@,
            spec_parse_tree(*doc, headword@) == root_from(s, i as int, headword@, blocks_view(blocks@)),
        decreases root.children.len() - i,
    {
        let child = &root.children[i];
        if has_class(child, "DC") {
            let title = text(child, false);
            if !crate::text::chars_eq(&title, &hw) {
                push_block(&mut blocks, Block::Heading(string_from(&title)));
            }
        } else if has_class(child, "JS") {
            let ghost before = blocks_view(blocks@);
            if parse_group(child, headword, &mut blocks).is_none() {
                return None;
            }
        } else {
            let t = text(child, false);
            if t.len() > 0 {
                push_block(&mut blocks, Block::Other(child.html.clone()));
            }
        }
        i += 1;
    }
    Some(blocks)
}

/// A tag token of the HTML5 tokenizer, as plain values.
pub struct TagToken {
    pub end_tag: bool,
    pub name: String,
    pub self_closing: bool,
    pub attrs: Vec<(String, String)>,
}

pub struct TagTokenView {
    pub end_tag: bool,
    pub name: Seq<char>,
    pub self_closing: bool,
    pub attrs: Seq<(Seq<char>, Seq<char>)>,
}

pub open spec fn pair_view(p: (String, String)) -> (Seq<char>, Seq<char>) {
    (p.0@, p.1@)
}

impl View for TagToken {
    type V = TagTokenView;

    open spec fn view(&self) -> TagTokenView {
        TagTokenView {
            end_tag: self.end_tag,
            name: self.name@,
            self_closing: self.self_closing,
            attrs: self.attrs@.map_values(|p: (String, String)| pair_view(p)),
        }
    }
}

/// The tokenizer state a start tag switches to when raw-text elements are honored.
pub enum RawSwitch {
    Continue,
    ScriptData,
    Rawtext,
    Rcdata,
    Plaintext,
}

pub open spec fn spec_raw_switch(raw_text: bool, t: TagTokenView) -> RawSwitch {
    if !raw_text || t.end_tag {
        RawSwitch::Continue
    } else if t.name == "script"@ {
        RawSwitch::ScriptData
    } else if t.name == "style"@ || t.name == "xmp"@ || t.name == "iframe"@ || t.name
        == "noembed"@ || t.name == "noframes"@ {
        RawSwitch::Rawtext
    } else if t.name == "title"@ || t.name == "textarea"@ {
        RawSwitch::Rcdata
    } else if t.name == "plaintext"@ {
        RawSwitch::Plaintext
    } else {
        RawSwitch::Continue
    }
}

pub fn raw_switch(raw_text: bool, t: &TagToken) -> (r: RawSwitch)
    ensures
        r == spec_raw_switch(raw_text, t@),
{
    if !raw_text || t.end_tag {
        return RawSwitch::Continue;
    }
    let n = t.name.as_str();
    if str_eq(n, "script") {
        RawSwitch::ScriptData
    } else if str_eq(n, "style") || str_eq(n, "xmp") || str_eq(n, "iframe") || str_eq(n, "noembed")
        || str_eq(n, "noframes") {
        RawSwitch::Rawtext
    } else if str_eq(n, "title") || str_eq(n, "textarea") {
        RawSwitch::Rcdata
    } else if str_eq(n, "plaintext") {
        RawSwitch::Plaintext
    } else {
        RawSwitch::Continue
    }
}

/// The tag tokens html5ever's tokenizer produces for `html` when the raw-text
/// elements of `spec_raw_switch` switch its state (`raw_text`), or when nothing does.
pub uninterp spec fn spec_tag_tokens(html: Seq<char>, raw_text: bool) -> Seq<TagTokenView>;

pub const MAX_HTML_DEPTH: usize = 128;

pub const MAX_HTML_TAGS: usize = 8192;

/// The lexical complexity scan of a definition.
pub struct HtmlScan {
    pub open: Vec<String>,
    pub tags: usize,
    pub too_complex: bool,
    pub references: Vec<String>,
}

pub struct ScanView {
    pub open: Seq<Seq<char>>,
    pub tags: nat,
    pub too_complex: bool,
    pub references: Seq<Seq<char>>,
}

pub open spec fn strings_view(v: Seq<String>) -> Seq<Seq<char>> {
    v.map_values(|s: String| s@)
}

impl View for HtmlScan {
    type V = ScanView;

    open spec fn view(&self) -> ScanView {
        ScanView {
            open: strings_view(self.open@),
            tags: self.tags as nat,
            too_complex: self.too_complex,
            references: strings_view(self.references@),
        }
    }
}

pub open spec fn is_void_element(name: Seq<char>) -> bool {
    name == "area"@ || name == "base"@ || name == "br"@ || name == "col"@ || name == "embed"@
        || name == "hr"@ || name == "img"@ || name == "input"@ || name == "link"@ || name
        == "meta"@ || name == "param"@ || name == "source"@ || name == "track"@ || name == "wbr"@
}

/// The `entry://` targets among the `href` attributes of a tag, in order.
pub open spec fn href_targets(a: Seq<(Seq<char>, Seq<char>)>) -> Seq<Seq<char>>
    decreases a.len(),
{
    if a.len() == 0 {
        Seq::empty()
    } else {
        let rest = href_targets(a.drop_last());
        let (k, v) = a.last();
        if k == "href"@ && starts_with_seq(v, "entry://"@) {
            rest.push(v)
        } else {
            rest
        }
    }
}

/// One tag of the scan: end tags close a matching innermost open tag; start tags
/// are counted, may record references, and open the lexical nesting unless void.
pub open spec fn spec_scan_step(s: ScanView, raw_text: bool, t: TagTokenView) -> ScanView {
    if t.end_tag {
        if s.open.len() > 0 && s.open.last() == t.name {
            ScanView { open: s.open.drop_last(), ..s }
        } else {
            s
        }
    } else {
        let tags = if s.tags < usize::MAX { s.tags + 1 } else { s.tags };
        let refs = if raw_text && !(t.name == "script"@ || t.name == "style"@ || t.name == "link"@
            || t.name == "meta"@) {
            s.references + href_targets(t.attrs)
        } else {
            s.references
        };
        if s.too_complex {
            ScanView { tags, references: refs, ..s }
        } else {
            let open = if !is_void_element(t.name) && !(t.name == "a"@ && t.self_closing) {
                s.open.push(t.name)
            } else {
                s.open
            };
            ScanView {
                open,
                tags,
                too_complex: tags > MAX_HTML_TAGS || open.len() > MAX_HTML_DEPTH,
                references: refs,
            }
        }
    }
}

pub open spec fn scan_from(toks: Seq<TagTokenView>, i: int, s: ScanView, raw_text: bool) -> ScanView
    decreases toks.len() - i,
{
    if i < 0 || i >= toks.len() {
        s
    } else {
        scan_from(toks, i + 1, spec_scan_step(s, raw_text, toks[i]), raw_text)
    }
}

pub open spec fn empty_scan() -> ScanView {
    ScanView { open: Seq::empty(), tags: 0, too_complex: false, references: Seq::empty() }
}

/// The scan of a whole definition.
pub open spec fn spec_scan_html(html: Seq<char>, raw_text: bool) -> ScanView {
    scan_from(spec_tag_tokens(html, raw_text), 0, empty_scan(), raw_text)
}

fn push_string(v: &mut Vec<String>, s: String)
    ensures
        strings_view(final(v)@) == strings_view(old(v)@).push(s@),
{
    v.push(s);
    assert(strings_view(v@) =~= strings_view(old(v)@).push(s@));
}

pub open spec fn scan_wf(s: ScanView) -> bool {
    &&& s.open.len() <= MAX_HTML_DEPTH + 1
    &&& !s.too_complex ==> s.open.len() <= MAX_HTML_DEPTH
}

pub fn scan_step(scan: &mut HtmlScan, raw_text: bool, t: &TagToken)
    requires
        scan_wf(old(scan)@),
    ensures
        final(scan)@ == spec_scan_step(old(scan)@, raw_text, t@),
        scan_wf(final(scan)@),
{
    let ghost s0 = scan@;
    let name = t.name.as_str();
    if t.end_tag {
        if scan.open.len() > 0 && str_eq(scan.open[scan.open.len() - 1].as_str(), name) {
            let ghost before = scan.open@;
            assert(strings_view(before).last() == before.last()@);
            scan.open.pop();
            assert(strings_view(scan.open@) =~= strings_view(before).drop_last());
            assert(scan@ == spec_scan_step(s0, raw_text, t@));
        } else {
            proof {
                if scan.open@.len() > 0 {
                    assert(strings_view(scan.open@).last() == scan.open@.last()@);
                }
            }
            assert(scan@ == spec_scan_step(s0, raw_text, t@));
        }
        return;
    }
    if scan.tags < usize::MAX {
        scan.tags += 1;
    }
    let ghost refs0 = strings_view(scan.references@);
    let ghost open0 = scan.open@;
    let ghost tags1 = scan.tags;
    let ghost tc0 = scan.too_complex;
    if raw_text && !(str_eq(name, "script") || str_eq(name, "style") || str_eq(name, "link")
        || str_eq(name, "meta")) {
        let ghost base = strings_view(scan.references@);
        let ghost av = t@.attrs;
        let mut k: usize = 0;
        while k < t.attrs.len()
            invariant
                k <= t.attrs.len(),
                av == t@.attrs,
                scan.open@ == open0,
                scan.tags == tags1,
                scan.too_complex == tc0,
                strings_view(scan.references@) == base + href_targets(av.take(k as int)),
            decreases t.attrs.len() - k,
        {
            assert(av.take(k + 1).drop_last() =~= av.take(k as int));
            assert(av.take(k + 1).last() == pair_view(t.attrs@[k as int]));
            if str_eq(t.attrs[k].0.as_str(), "href") && has_prefix(t.attrs[k].1.as_str(), "entry://") {
                push_string(&mut scan.references, t.attrs[k].1.clone());
            }
            k += 1;
        }
        assert(av.take(t.attrs.len() as int) =~= av);
    }
    let ghost after_refs = strings_view(scan.references@);
    if !scan.too_complex {
        let void = str_eq(name, "area") || str_eq(name, "base") || str_eq(name, "br") || str_eq(
            name,
            "col",
        ) || str_eq(name, "embed") || str_eq(name, "hr") || str_eq(name, "img") || str_eq(
            name,
            "input",
        ) || str_eq(name, "link") || str_eq(name, "meta") || str_eq(name, "param") || str_eq(
            name,
            "source",
        ) || str_eq(name, "track") || str_eq(name, "wbr");
        if !void && !(str_eq(name, "a") && t.self_closing) {
            push_string(&mut scan.open, t.name.clone());
        }
        scan.too_complex = scan.tags > MAX_HTML_TAGS || scan.open.len() > MAX_HTML_DEPTH;
        assert(scan@ =~= spec_scan_step(s0, raw_text, t@));
    } else {
        assert(scan@ =~= spec_scan_step(s0, raw_text, t@));
    }
}

pub fn scan_tokens(tokens: &Vec<TagToken>, raw_text: bool) -> (r: HtmlScan)
    ensures
        r@ == scan_from(tokens@.map_values(|t: TagToken| t@), 0, empty_scan(), raw_text),
{
    let ghost toks = tokens@.map_values(|t: TagToken| t@);
    let mut scan = HtmlScan { open: Vec::new(), tags: 0, too_complex: false, references: Vec::new() };
    assert(strings_view(scan.open@) =~= Seq::<Seq<char>>::empty());
    assert(strings_view(scan.references@) =~= Seq::<Seq<char>>::empty());
    assert(scan@ =~= empty_scan());
    let mut i: usize = 0;
    while i < tokens.len()
        invariant
            i <= tokens.len(),
            toks == tokens@.map_values(|t: TagToken| t@),
            scan_wf(scan@),
            scan_from(toks, 0, empty_scan(), raw_text) == scan_from(toks, i as int, scan@, raw_text),
        decreases tokens.len() - i,
    {
        scan_step(&mut scan, raw_text, &tokens[i]);
        assert(toks[i as int] == tokens@[i as int]@);
        i += 1;
    }
    scan
}

/// Collects tag tokens as plain values; when `raw_text` is set it switches the
/// tokenizer into the raw-text states that `raw_switch` names.
pub struct TagCollector {
    tags: RefCell<Vec<TagToken>>,
    raw_text: bool,
}

impl TokenSink for TagCollector {
    type Handle = ();

    /// Converts a tag token to `TagToken`, keeps it, and hands back the state
    /// `raw_switch` chose. Trusted: only converts between html5ever's types and plain values.
    #[verifier::external_body]
    fn process_token(&self, token: Token, _line: u64) -> TokenSinkResult<()> {
        let Token::TagToken(tag) = token else { return TokenSinkResult::Continue };
        let attrs = tag.attrs.iter().map(|a| (a.name.local.to_string(), a.value.to_string())).collect();
        let plain = TagToken { end_tag: tag.kind == TagKind::EndTag, name: tag.name.to_string(), self_closing: tag.self_closing, attrs };
        let switch = raw_switch(self.raw_text, &plain);
        self.tags.borrow_mut().push(plain);
        match switch {
            RawSwitch::Continue => TokenSinkResult::Continue,
            RawSwitch::ScriptData => TokenSinkResult::RawData(RawKind::ScriptData),
            RawSwitch::Rawtext => TokenSinkResult::RawData(RawKind::Rawtext),
            RawSwitch::Rcdata => TokenSinkResult::RawData(RawKind::Rcdata),
            RawSwitch::Plaintext => TokenSinkResult::Plaintext,
        }
    }
}

/// `html5ever::tokenizer::Tokenizer` run over `html` with a `TagCollector`: the
/// tag tokens, named by `spec_tag_tokens`.
#[verifier::external_body]
fn collect_tags(html: &str, raw_text: bool) -> (r: Vec<TagToken>)
    ensures
        r@.map_values(|t: TagToken| t@) == spec_tag_tokens(html@, raw_text),
{
    let sink = TagCollector { tags: RefCell::new(Vec::new()), raw_text };
    let tokenizer = Tokenizer::new(sink, Default::default());
    let input = BufferQueue::default();
    input.push_back(html.into());
    let _ = tokenizer.feed(&input);
    tokenizer.end();
    tokenizer.sink.tags.into_inner()
}

/// The conservative complexity scan of `html`: tags are counted and nesting is
/// tracked lexically; with `raw_text`, `entry://` references are collected too.
pub fn scan_html(html: &str, raw_text: bool) -> (r: HtmlScan)
    ensures
        r@ == spec_scan_html(html@, raw_text),
{
    let tokens = collect_tags(html, raw_text);
    scan_tokens(&tokens, raw_text)
}

/// How a tag reaches the tree builder: with its self-closing flag kept or
/// cleared, and followed or not by an end tag of the same name (an end tag
/// carries no attributes).
pub struct Forwarding {
    pub self_closing: bool,
    pub add_end_tag: bool,
}

/// An XML-style empty anchor `<a/>` is forwarded as an open anchor followed by
/// its end tag; every other tag is forwarded as it is.
pub fn forwarding(is_start: bool, self_closing: bool, name: &str) -> (r: Forwarding)
    ensures
        r.add_end_tag == (is_start && self_closing && name@ == "a"@),
        r.self_closing == (self_closing && !r.add_end_tag),
{
    let empty_anchor = is_start && self_closing && str_eq(name, "a");
    Forwarding { self_closing: self_closing && !empty_anchor, add_end_tag: empty_anchor }
}

/// Builds the HTML5 tree, closing XML-style empty anchors before the adoption
/// agency algorithm can reparent later text.
pub struct DictionaryTree {
    builder: TreeBuilder<Handle, RcDom>,
}

impl TokenSink for DictionaryTree {
    type Handle = Handle;

    /// Forwards each token to html5ever's tree builder as `forwarding` decides.
    #[verifier::external_body]
    fn process_token(&self, token: Token, line: u64) -> TokenSinkResult<Handle> {
        let Token::TagToken(ref tag) = token else { return self.builder.process_token(token, line) };
        let f = forwarding(tag.kind == TagKind::StartTag, tag.self_closing, &tag.name);
        if !f.add_end_tag {
            return self.builder.process_token(token, line);
        }
        let start = html5ever::tokenizer::Tag { self_closing: f.self_closing, ..tag.clone() };
        let end = html5ever::tokenizer::Tag { kind: TagKind::EndTag, attrs: Vec::new(), ..tag.clone() };
        let _ = self.builder.process_token(Token::TagToken(start), line);
        self.builder.process_token(Token::TagToken(end), line)
    }

    /// Forwards the end of input to the tree builder.
    #[verifier::external_body]
    fn end(&self) {
        self.builder.end();
    }

    /// Forwards the tree builder's answer.
    #[verifier::external_body]
    fn adjusted_current_node_present_but_not_in_html_namespace(&self) -> bool {
        self.builder.adjusted_current_node_present_but_not_in_html_namespace()
    }
}

/// The HTML5 tree that html5ever builds for `html`, as plain values.
pub uninterp spec fn spec_html_tree(html: Seq<char>) -> HtmlNode;

/// html5ever's `Tokenizer` with a `DictionaryTree` over `html` into an `RcDom`,
/// converted node by node; the result is named by `spec_html_tree`. Only run on
/// input that the complexity scan accepts, which keeps the conversion's
/// recursion shallow.
#[verifier::external_body]
fn html_tree(html: &str) -> (r: HtmlNode)
    requires
        !spec_scan_html(html@, false).too_complex,
    ensures
        r == spec_html_tree(html@),
{
    let sink = DictionaryTree { builder: TreeBuilder::new(RcDom::default(), Default::default()) };
    let tokenizer = Tokenizer::new(sink, Default::default());
    let input = BufferQueue::default();
    input.push_back(html.into());
    while let TokenizerResult::Script(_) = tokenizer.feed(&input) {}
    tokenizer.end();
    plain_node(&tokenizer.sink.builder.sink.document)
}

/// An `RcDom` node and the nodes under it as plain values: kind, name,
/// attributes or text, children in order, and the node's serialization.
#[verifier::external_body]
fn plain_node(h: &Handle) -> HtmlNode {
    let kind = match &h.data {
        NodeData::Document => NodeKind::Document,
        NodeData::Element { name, attrs, .. } => NodeKind::Element {
            name: name.local.to_string(),
            attrs: attrs.borrow().iter().map(|a| (a.name.local.to_string(), a.value.to_string())).collect(),
        },
        NodeData::Text { contents } => NodeKind::Text(contents.borrow().to_string()),
        _ => NodeKind::Other,
    };
    HtmlNode { kind, children: h.children.borrow().iter().map(plain_node).collect(), html: node_markup(h) }
}

/// `html5ever::serialize` of a node itself (empty for the document node, which
/// html5ever cannot serialize as a node).
#[verifier::external_body]
fn node_markup(h: &Handle) -> String {
    if let NodeData::Document = h.data {
        return String::new();
    }
    let mut html = Vec::new();
    let opts = SerializeOpts { traversal_scope: TraversalScope::IncludeNode, ..Default::default() };
    let _ = html5ever::serialize(&mut html, &SerializableHandle::from(h.clone()), opts);
    String::from_utf8(html).unwrap_or_default()
}

/// The height of a tree: 0 for a leaf.
pub open spec fn height(n: HtmlNode) -> nat
    decreases n, 0int,
{
    height_children(n.children@, 0)
}

pub open spec fn height_children(s: Seq<HtmlNode>, i: int) -> nat
    decreases s, s.len() - i,
{
    if i < 0 || i >= s.len() {
        0
    } else {
        let h = height(s[i]) + 1;
        let r = height_children(s, i + 1);
        if h > r { h } else { r }
    }
}

/// Whether a tree is taller than `limit`; the walk goes no deeper than `limit`.
pub fn taller_than(n: &HtmlNode, limit: usize) -> (r: bool)
    ensures
        r == (height(*n) > limit),
    decreases limit,
{
    let mut i: usize = 0;
    while i < n.children.len()
        invariant
            i <= n.children.len(),
            forall|k: int| 0 <= k < i ==> height(#[trigger] n.children@[k]) + 1 <= limit,
        decreases n.children.len() - i,
    {
        proof {
            lemma_height_children_ge(n.children@, 0, i as int);
        }
        if limit == 0 {
            return true;
        }
        if taller_than(&n.children[i], limit - 1) {
            return true;
        }
        i += 1;
    }
    proof {
        lemma_height_children_bound(n.children@, 0, limit as nat);
    }
    false
}

pub proof fn lemma_height_children_ge(s: Seq<HtmlNode>, i: int, k: int)
    requires
        0 <= i <= k < s.len(),
    ensures
        height_children(s, i) >= height(s[k]) + 1,
    decreases k - i,
{
    if i < k {
        lemma_height_children_ge(s, i + 1, k);
    }
}

pub proof fn lemma_height_children_bound(s: Seq<HtmlNode>, i: int, b: nat)
    requires
        0 <= i,
        forall|k: int| i <= k < s.len() ==> height(#[trigger] s[k]) + 1 <= b,
    ensures
        height_children(s, i) <= b,
    decreases s.len() - i,
{
    if i < s.len() {
        lemma_height_children_bound(s, i + 1, b);
    }
}

/// The tree of a definition, unless the complexity scan or the depth of the tree
/// rules it out.
pub open spec fn spec_dom(html: Seq<char>) -> Option<HtmlNode> {
    if spec_scan_html(html, false).too_complex || height(spec_html_tree(html)) > MAX_HTML_DEPTH {
        None
    } else {
        Some(spec_html_tree(html))
    }
}

/// The HTML5 tree of a definition, unless the complexity scan or the depth of
/// the tree rules it out.
pub fn dom(html: &str) -> (r: Option<HtmlNode>)
    ensures
        r == spec_dom(html@),
{
    if scan_html(html, false).too_complex {
        return None;
    }
    let tree = html_tree(html);
    if taller_than(&tree, MAX_HTML_DEPTH) {
        return None;
    }
    Some(tree)
}

/// The `entry://` targets of a tree in document order, outside script, style,
/// link and meta elements.
pub open spec fn spec_tree_refs(n: HtmlNode) -> Seq<Seq<char>>
    decreases n, 0int,
{
    if spec_invisible(n) {
        Seq::empty()
    } else {
        let own = match spec_reference_target(n) {
            Some(t) => seq![t],
            None => Seq::empty(),
        };
        own + tree_refs_children(n.children@, 0)
    }
}

pub open spec fn tree_refs_children(s: Seq<HtmlNode>, i: int) -> Seq<Seq<char>>
    decreases s, s.len() - i,
{
    if i < 0 || i >= s.len() {
        Seq::empty()
    } else {
        spec_tree_refs(s[i]) + tree_refs_children(s, i + 1)
    }
}

pub fn tree_refs(n: &HtmlNode, out: &mut Vec<String>)
    ensures
        strings_view(final(out)@) == strings_view(old(out)@) + spec_tree_refs(*n),
    decreases n, 0int,
{
    if invisible(n) {
        assert(strings_view(out@) + Seq::<Seq<char>>::empty() =~= strings_view(out@));
        return;
    }
    let ghost base = strings_view(out@);
    if let Some(t) = reference_target(n) {
        push_string(out, t);
    }
    let ghost own = strings_view(out@);
    let mut i: usize = 0;
    while i < n.children.len()
        invariant
            i <= n.children.len(),
            strings_view(out@) + tree_refs_children(n.children@, i as int) == own
                + tree_refs_children(n.children@, 0),
        decreases n.children.len() - i,
    {
        let ghost before = strings_view(out@);
        proof {
            assert(decreases_to!(n => n.children));
        }
        tree_refs(&n.children[i], out);
        assert(before + tree_refs_children(n.children@, i as int) =~= strings_view(out@)
            + tree_refs_children(n.children@, i + 1));
        i += 1;
    }
    assert(strings_view(out@) + tree_refs_children(n.children@, i as int) =~= strings_view(out@));
    assert(strings_view(out@) =~= base + spec_tree_refs(*n));
}

/// The `entry://` targets of a definition: those of its tree, or those the
/// complexity scan collects when no tree is built.
pub open spec fn spec_reference_targets(html: Seq<char>) -> Seq<Seq<char>> {
    match spec_dom(html) {
        Some(t) => spec_tree_refs(t),
        None => spec_scan_html(html, true).references,
    }
}

/// The `entry://` reference targets of a definition, in document order.
pub fn reference_targets(html: &str) -> (r: Vec<String>)
    ensures
        strings_view(r@) == spec_reference_targets(html@),
{
    match dom(html) {
        None => scan_html(html, true).references,
        Some(t) => {
            let mut out: Vec<String> = Vec::new();
            tree_refs(&t, &mut out);
            assert(strings_view(out@) =~= Seq::<Seq<char>>::empty() + spec_tree_refs(t));
            out
        },
    }
}

/// `"\nReference: " + target` for each target.
pub open spec fn reference_lines(refs: Seq<Seq<char>>) -> Seq<char>
    decreases refs.len(),
{
    if refs.len() == 0 {
        Seq::empty()
    } else {
        reference_lines(refs.drop_last()) + "\nReference: "@ + refs.last()
    }
}

proof fn lemma_section_keeps(
    parts: Seq<HtmlNode>,
    j: int,
    headword: Seq<char>,
    etymology: bool,
    sec: Seq<BlockView>,
    containers: nat,
)
    requires
        0 <= j,
    ensures
        section_from(parts, j, headword, etymology, sec, containers) matches Some((out, _)) ==> {
            &&& sec.len() <= out.len()
            &&& out.subrange(0, sec.len() as int) == sec
            &&& forall|k: int|
                j <= k < parts.len() && #[trigger] spec_has_class(parts[k], "section_title"@)
                    ==> out.contains(BlockView::Heading(spec_text(parts[k], false)))
        },
    decreases parts.len() - j,
{
    if j < parts.len() {
        let part = parts[j];
        if spec_has_class(part, "section_title"@) {
            let h = BlockView::Heading(spec_text(part, false));
            lemma_section_keeps(parts, j + 1, headword, etymology, sec.push(h), containers);
            if let Some((out, _)) = section_from(parts, j, headword, etymology, sec, containers) {
                assert(out.subrange(0, sec.len() as int) =~= sec.push(h).subrange(0, sec.len() as int));
                assert(out[sec.len() as int] == out.subrange(0, sec.len() + 1int)[sec.len() as int]);
                assert(out.contains(h));
            }
        } else if spec_has_class(part, "CX"@) {
            if let Some(bs) = spec_parse_senses(part, headword) {
                lemma_section_keeps(parts, j + 1, headword, etymology, sec + bs, containers + 1);
                if let Some((out, _)) = section_from(parts, j, headword, etymology, sec, containers) {
                    assert(out.subrange(0, sec.len() as int) =~= (sec + bs).subrange(0, sec.len() as int));
                }
            }
        } else if spec_text(part, false).len() > 0 {
            if !etymology {
                let o = BlockView::Other(part.html@);
                lemma_section_keeps(parts, j + 1, headword, etymology, sec.push(o), containers);
                if let Some((out, _)) = section_from(parts, j, headword, etymology, sec, containers) {
                    assert(out.subrange(0, sec.len() as int) =~= sec.push(o).subrange(0, sec.len() as int));
                }
            }
        } else {
            lemma_section_keeps(parts, j + 1, headword, etymology, sec, containers);
        }
    }
}

/// Every title of a recognized section, etymology or not, becomes a heading of
/// its layout holding the title's text; nothing laid out before it is lost.
pub proof fn law_section_titles_become_headings(parts: Seq<HtmlNode>, headword: Seq<char>, etymology: bool)
    ensures
        section_from(parts, 0, headword, etymology, Seq::empty(), 0) matches Some((sec, _))
            ==> forall|k: int|
            0 <= k < parts.len() && #[trigger] spec_has_class(parts[k], "section_title"@)
                ==> sec.contains(BlockView::Heading(spec_text(parts[k], false))),
{
    lemma_section_keeps(parts, 0, headword, etymology, Seq::empty(), 0);
}

/// Reference lines list every target once, in order: the lines of two lists one
/// after the other are the lines of the first followed by those of the second,
/// and one target gives the one line `"\nReference: " + target`.
pub proof fn law_reference_lines_keep_each_target_in_order(a: Seq<Seq<char>>, b: Seq<Seq<char>>, x: Seq<char>)
    ensures
        reference_lines(a + b) == reference_lines(a) + reference_lines(b),
        reference_lines(seq![x]) == "\nReference: "@ + x,
    decreases b.len(),
{
    if b.len() == 0 {
        assert(a + b =~= a);
        assert(reference_lines(a) + Seq::<char>::empty() =~= reference_lines(a));
    } else {
        law_reference_lines_keep_each_target_in_order(a, b.drop_last(), x);
        assert((a + b).drop_last() =~= a + b.drop_last());
        assert((a + b).last() == b.last());
        assert(reference_lines(a) + (reference_lines(b.drop_last()) + "\nReference: "@ + b.last())
            =~= reference_lines(a) + reference_lines(b.drop_last()) + "\nReference: "@ + b.last());
    }
    assert(seq![x].drop_last() =~= Seq::<Seq<char>>::empty());
    assert(reference_lines(Seq::<Seq<char>>::empty()) == Seq::<char>::empty());
    assert(seq![x].last() == x);
    assert(Seq::<char>::empty() + "\nReference: "@ + x =~= "\nReference: "@ + x);
}

pub fn push_reference_lines(out: &mut String, refs: &Vec<String>)
    ensures
        final(out)@ == old(out)@ + reference_lines(strings_view(refs@)),
{
    let mut k: usize = 0;
    while k < refs.len()
        invariant
            k <= refs.len(),
            out@ == old(out)@ + reference_lines(strings_view(refs@).take(k as int)),
        decreases refs.len() - k,
    {
        let ghost before = out@;
        crate::text::append_str(out, "\nReference: ");
        crate::text::append_str(out, refs[k].as_str());
        assert(strings_view(refs@).take(k + 1).drop_last() =~= strings_view(refs@).take(k as int));
        assert(out@ =~= old(out)@ + reference_lines(strings_view(refs@).take(k + 1)));
        k += 1;
    }
    assert(strings_view(refs@).take(refs.len() as int) =~= strings_view(refs@));
}

/// The readable text of markup that no structure was found for: its generic text
/// followed by one `Reference:` line per target.
pub open spec fn spec_other_text(html: Seq<char>, refs: Seq<Seq<char>>) -> Seq<char> {
    spec_html_to_text(html) + reference_lines(refs)
}

/// The readable text of markup with its reference lines.
pub open spec fn spec_other_readable(html: Seq<char>) -> Seq<char> {
    spec_other_text(html, spec_reference_targets(html))
}

pub fn other_text(html: &str) -> (r: String)
    ensures
        r@ == spec_other_readable(html@),
{
    let mut readable = crate::readable::html_to_text(html);
    let targets = reference_targets(html);
    push_reference_lines(&mut readable, &targets);
    readable
}

/// A block with the HTML of an `Other` block replaced by its readable text.
pub open spec fn finish_leaf_view(b: BlockView) -> BlockView {
    match b {
        BlockView::Other(h) => BlockView::Other(spec_other_readable(h)),
        _ => b,
    }
}

/// A block finished as `finish_leaf_view`, and an etymology with each of its
/// blocks finished so.
pub open spec fn finish_block_view(b: BlockView) -> BlockView {
    match b {
        BlockView::Other(h) => BlockView::Other(spec_other_readable(h)),
        BlockView::Etymology(inner) => BlockView::Etymology(
            inner.map_values(|x: BlockView| finish_leaf_view(x)),
        ),
        _ => b,
    }
}

/// A block list with the HTML of every `Other` block (also inside an etymology)
/// replaced by its readable text.
pub open spec fn spec_finish(raw: Seq<BlockView>) -> Seq<BlockView> {
    raw.map_values(|x: BlockView| finish_block_view(x))
}

pub open spec fn finished(raw: Seq<BlockView>, fin: Seq<BlockView>) -> bool {
    &&& raw.len() == fin.len()
    &&& forall|k: int| 0 <= k < raw.len() ==> finished_block(#[trigger] raw[k], fin[k])
}

pub open spec fn finished_block(raw: BlockView, fin: BlockView) -> bool {
    match raw {
        BlockView::Etymology(inner) => fin is Etymology && inner.len() == fin->Etymology_0.len()
            && forall|j: int| 0 <= j < inner.len() ==> finished_leaf(#[trigger] inner[j], fin->Etymology_0[j]),
        _ => fin == finish_block_view(raw),
    }
}

pub open spec fn finished_leaf(raw: BlockView, fin: BlockView) -> bool {
    fin == finish_leaf_view(raw)
}

pub proof fn lemma_finished_is_finish(raw: Seq<BlockView>, fin: Seq<BlockView>)
    requires
        finished(raw, fin),
    ensures
        fin == spec_finish(raw),
{
    assert forall|k: int| 0 <= k < raw.len() implies fin[k] == #[trigger] spec_finish(raw)[k] by {
        assert(finished_block(raw[k], fin[k]));
        match raw[k] {
            BlockView::Etymology(inner) => {
                assert(fin[k]->Etymology_0 =~= inner.map_values(|x: BlockView| finish_leaf_view(x)));
            },
            _ => {},
        }
    }
    assert(fin =~= spec_finish(raw));
}

fn finish_leaf(b: Block) -> (r: Block)
    ensures
        finished_leaf(block_view(b), block_view(r)),
{
    match b {
        Block::Other(h) => {
            let t = other_text(h.as_str());
            Block::Other(t)
        },
        other => other,
    }
}

fn finish_block(b: Block) -> (r: Block)
    ensures
        finished_block(block_view(b), block_view(r)),
{
    match b {
        Block::Other(h) => {
            let t = other_text(h.as_str());
            assert(finished_block(BlockView::Other(h@), BlockView::Other(t@)));
            Block::Other(t)
        },
        Block::Etymology(inner) => {
            let ghost m = inner@;
            let mut v = inner;
            let n0 = v.len();
            let mut rev: Vec<Block> = Vec::new();
            while v.len() > 0
                invariant
                    v@.len() <= m.len(),
                    m.len() == n0,
                    rev@.len() + v@.len() == m.len(),
                    forall|j: int| 0 <= j < v@.len() ==> v@[j] == m[j],
                    forall|j: int|
                        0 <= j < rev@.len() ==> finished_leaf(
                            block_view(m[m.len() - 1 - j]),
                            block_view(#[trigger] rev@[j]),
                        ),
                decreases v.len(),
            {
                let x = v.pop().unwrap();
                let y = finish_leaf(x);
                rev.push(y);
            }
            let mut out: Vec<Block> = Vec::new();
            while rev.len() > 0
                invariant
                    rev@.len() + out@.len() == m.len(),
                    m.len() == n0,
                    forall|j: int|
                        0 <= j < rev@.len() ==> finished_leaf(
                            block_view(m[m.len() - 1 - j]),
                            block_view(#[trigger] rev@[j]),
                        ),
                    forall|k: int|
                        0 <= k < out@.len() ==> finished_leaf(
                            block_view(m[k]),
                            block_view(#[trigger] out@[k]),
                        ),
                decreases rev.len(),
            {
                let x = rev.pop().unwrap();
                out.push(x);
            }
            proof {
                lemma_blocks_view_len(m, m.len() as int);
                lemma_blocks_view_len(out@, out@.len() as int);
                assert forall|j: int| 0 <= j < m.len() implies finished_leaf(
                    #[trigger] blocks_view(m)[j],
                    blocks_view(out@)[j],
                ) by {
                    lemma_blocks_view_index(m, j);
                    lemma_blocks_view_index(out@, j);
                }
            }
            let r = Block::Etymology(out);
            assert(block_view(r) == BlockView::Etymology(blocks_view(out@)));
            assert(block_view(b) == BlockView::Etymology(blocks_view(m)));
            r
        },
        other => other,
    }
}

pub fn finish_blocks(v: Vec<Block>) -> (r: Vec<Block>)
    ensures
        finished(blocks_view(v@), blocks_view(r@)),
{
    let ghost m = v@;
    let mut v = v;
    let n0 = v.len();
    let mut rev: Vec<Block> = Vec::new();
    while v.len() > 0
        invariant
            v@.len() <= m.len(),
            m.len() == n0,
            rev@.len() + v@.len() == m.len(),
            forall|j: int| 0 <= j < v@.len() ==> v@[j] == m[j],
            forall|j: int|
                0 <= j < rev@.len() ==> finished_block(
                    block_view(m[m.len() - 1 - j]),
                    block_view(#[trigger] rev@[j]),
                ),
        decreases v.len(),
    {
        let x = v.pop().unwrap();
        let y = finish_block(x);
        rev.push(y);
    }
    let mut out: Vec<Block> = Vec::new();
    while rev.len() > 0
        invariant
            rev@.len() + out@.len() == m.len(),
            m.len() == n0,
            forall|j: int|
                0 <= j < rev@.len() ==> finished_block(
                    block_view(m[m.len() - 1 - j]),
                    block_view(#[trigger] rev@[j]),
                ),
            forall|k: int|
                0 <= k < out@.len() ==> finished_block(block_view(m[k]), block_view(#[trigger] out@[k])),
        decreases rev.len(),
    {
        let x = rev.pop().unwrap();
        out.push(x);
    }
    proof {
        lemma_blocks_view_len(m, m.len() as int);
        lemma_blocks_view_len(out@, out@.len() as int);
        assert forall|j: int| 0 <= j < m.len() implies finished_block(
            #[trigger] blocks_view(m)[j],
            blocks_view(out@)[j],
        ) by {
            lemma_blocks_view_index(m, j);
            lemma_blocks_view_index(out@, j);
        }
    }
    out
}

/// The structured rendering plan of a definition: the recognized article of its
/// tree with readable text for unknown parts, or `None` when the complexity scan
/// or the depth of the tree rules a tree out or the tree is not one recognized
/// article.
pub open spec fn spec_parse(html: Seq<char>, headword: Seq<char>) -> Option<Seq<BlockView>> {
    match spec_dom(html) {
        None => None,
        Some(t) => match spec_parse_tree(t, headword) {
            None => None,
            Some(raw) => Some(spec_finish(raw)),
        },
    }
}

pub fn parse(html: &str, headword: &str) -> (r: Option<Vec<Block>>)
    ensures
        r is None <==> spec_parse(html@, headword@) is None,
        r matches Some(b) ==> spec_parse(html@, headword@) == Some(blocks_view(b@)),
{
    let tree = match dom(html) {
        Some(t) => t,
        None => {
            return None;
        },
    };
    let raw = match parse_tree(&tree, headword) {
        Some(b) => b,
        None => {
            return None;
        },
    };
    let ghost rv = blocks_view(raw@);
    let out = finish_blocks(raw);
    proof {
        lemma_finished_is_finish(rv, blocks_view(out@));
    }
    assert(spec_parse_tree(tree, headword@) == Some(rv));
    Some(out)
}

} // verus!
