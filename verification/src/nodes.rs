//! The top-level syntax nodes of the user document, as the source
//! synthesizer consumes them.
//!
//! The external parser's tree is reduced to one record per top-level node:
//! its byte range, the name of its syntactic kind, its own text when it is a
//! leaf, and the callee name when it is a function call. The block-building
//! rules over these records (which kinds are statement-like, which call is an
//! explicit page break) are ordinary verified code.

use vstd::prelude::*;
use vstd::string::StringExecFns;
use vstd::utf8::encode_utf8;

use crate::utf_map::chars_of;

verus! {

/// One top-level syntax node of the user document.
///
/// `start..end` is the node's byte range in the user text. `leaf_text` holds
/// the node's own bytes when the node is a leaf and is empty otherwise.
/// `callee` holds the callee identifier when the node is a function call
/// with an identifier callee and is empty otherwise.
pub struct RawNode {
    pub start: usize,
    pub end: usize,
    pub kind_name: String,
    pub leaf_text: Vec<u8>,
    pub callee: String,
}

/// Plain-value image of a sequence of [`RawNode`]s:
/// `(start, end, kind name, leaf text, callee)`.
pub open spec fn raw_nodes_view(s: Seq<RawNode>) -> Seq<
    (usize, usize, Seq<char>, Seq<u8>, Seq<char>),
> {
    Seq::new(
        s.len(),
        |i: int| (s[i].start, s[i].end, s[i].kind_name@, s[i].leaf_text@, s[i].callee@),
    )
}

/// What the external markup parser yields for a text: the image of its
/// top-level node records. Named only; the parse result is a function of the
/// text alone.
pub uninterp spec fn parsed_markup(text: Seq<char>) -> Seq<
    (usize, usize, Seq<char>, Seq<u8>, Seq<char>),
>;

/// Well-formedness of a top-level node list over a text of `n` bytes: the
/// nodes are a contiguous partition of the text, and a leaf's own text is
/// exactly its slice of the text.
pub open spec fn nodes_cover(s: Seq<RawNode>, bytes: Seq<u8>) -> bool {
    &&& forall|i: int| 0 <= i < s.len() ==> (#[trigger] s[i]).start <= s[i].end
    &&& forall|i: int| 0 <= i < s.len() - 1 ==> (#[trigger] s[i]).end == s[i + 1].start
    &&& s.len() > 0 ==> s[0].start == 0 && s.last().end == bytes.len()
    &&& s.len() == 0 ==> bytes.len() == 0
    &&& forall|i: int|
        0 <= i < s.len() ==> (#[trigger] s[i]).leaf_text@.len() == 0 || s[i].leaf_text@
            == bytes.subrange(s[i].start as int, s[i].end as int)
}

/// Relies on `typst_syntax::parse` and `typst_syntax::LinkedNode`: parses the
/// text as markup and walks the root's children. The children's byte ranges
/// partition the text contiguously (each child starts where the previous one
/// ends, beginning at 0 and ending at the text's byte length), and a leaf
/// child's own text is exactly its slice of the source.
#[verifier::external_body]
pub fn parse_markup(text: &str) -> (r: Vec<RawNode>)
    ensures
        raw_nodes_view(r@) == parsed_markup(text@),
        nodes_cover(r@, encode_utf8(text@)),
{
    let root = typst_syntax::parse(text);
    typst_syntax::LinkedNode::new(&root).children().map(|child| RawNode {
        start: child.range().start,
        end: child.range().end,
        kind_name: String::from(child.kind().name()),
        leaf_text: child.get().text().as_bytes().to_vec(),
        callee: match child.get().cast::<typst_syntax::ast::FuncCall>().map(|c| c.callee()) {
            Some(typst_syntax::ast::Expr::Ident(id)) => String::from(id.as_str()),
            _ => String::new(),
        },
    }).collect()
}

/// ASCII-lowercased value of a character's scalar value.
pub open spec fn spec_ascii_lower(v: u32) -> u32 {
    if 65 <= v <= 90 {
        (v + 32) as u32
    } else {
        v
    }
}

/// Character sequences equal up to ASCII case.
pub open spec fn caseless_eq(a: Seq<char>, b: Seq<char>) -> bool {
    a.len() == b.len() && forall|i: int|
        0 <= i < a.len() ==> spec_ascii_lower(#[trigger] a[i] as u32) == spec_ascii_lower(
            b[i] as u32,
        )
}

/// Compares two strings for equality up to ASCII case.
pub fn ascii_caseless_eq(a: &str, b: &str) -> (r: bool)
    ensures
        r == caseless_eq(a@, b@),
{
    let ca: Vec<char> = chars_of(a);
    let cb: Vec<char> = chars_of(b);
    if ca.len() != cb.len() {
        return false;
    }
    let n: usize = ca.len();
    let mut i: usize = 0;
    while i < n
        invariant
            i <= n,
            n == ca@.len() == cb@.len(),
            ca@ == a@,
            cb@ == b@,
            forall|k: int|
                0 <= k < i ==> spec_ascii_lower(#[trigger] ca@[k] as u32) == spec_ascii_lower(
                    cb@[k] as u32,
                ),
        decreases n - i,
    {
        let va: u32 = ca[i] as u32;
        let vb: u32 = cb[i] as u32;
        let la: u32 = if 65 <= va && va <= 90 {
            va + 32
        } else {
            va
        };
        let lb: u32 = if 65 <= vb && vb <= 90 {
            vb + 32
        } else {
            vb
        };
        if la != lb {
            return false;
        }
        i = i + 1;
    }
    true
}

/// Kind names of statement-like nodes: bindings, set/show rules, imports,
/// list structure, line breaks, semicolons and comments. They produce no
/// visible content of their own, so a block they close is appended without a
/// forced layout break.
pub open spec fn spec_is_statement_name(n: Seq<char>) -> bool {
    ||| n == "`let` expression"@
    ||| n == "`set` expression"@
    ||| n == "`show` expression"@
    ||| n == "`import` expression"@
    ||| n == "`include` expression"@
    ||| n == "`context` expression"@
    ||| n == "list item"@
    ||| n == "enum item"@
    ||| n == "term list item"@
    ||| n == "line break"@
    ||| n == "semicolon"@
    ||| n == "line comment"@
    ||| n == "block comment"@
}

/// Decides whether a node kind name is statement-like.
pub fn is_statement_name(n: &String) -> (r: bool)
    ensures
        r == spec_is_statement_name(n@),
{
    *n == String::from_str("`let` expression") || *n == String::from_str("`set` expression")
        || *n == String::from_str("`show` expression") || *n == String::from_str(
        "`import` expression",
    ) || *n == String::from_str("`include` expression") || *n == String::from_str(
        "`context` expression",
    ) || *n == String::from_str("list item") || *n == String::from_str("enum item") || *n
        == String::from_str("term list item") || *n == String::from_str("line break") || *n
        == String::from_str("semicolon") || *n == String::from_str("line comment") || *n
        == String::from_str("block comment")
}

/// A call of `pagebreak`, compared without regard to ASCII case: the explicit
/// break directive that terminates the current block immediately.
pub open spec fn spec_is_pagebreak(callee: Seq<char>) -> bool {
    caseless_eq(callee, "pagebreak"@)
}

/// Decides whether a node's callee is the explicit page-break directive.
pub fn is_pagebreak(callee: &String) -> (r: bool)
    ensures
        r == spec_is_pagebreak(callee@),
{
    ascii_caseless_eq(callee.as_str(), "pagebreak")
}

} // verus!
