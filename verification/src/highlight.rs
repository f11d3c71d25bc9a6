//! Syntax highlighting of the user document.
//!
//! The external parser's tree is walked for highlight tags; each tagged
//! node's byte range, style class and, for headings, marker depth come back
//! as one flat record per node. The records' ranges are translated to UTF-16
//! code units against the document's table, heading classes get their level
//! suffix, and the spans are kept ordered by range start as they are
//! collected.

use vstd::prelude::*;
use vstd::string::{StrSliceExecFns, StringExecFns};

use crate::index_mapper::translate_aux_to_main;
use crate::state::{clone_string, dec_chars, usize_to_string};
use crate::utf_map::UtfIndexMapper;

verus! {

/// One node the external highlighter tagged: its byte range in the user
/// text, its style class, and the heading marker depth (0 for anything that
/// is not a heading).
pub struct RawHighlight {
    pub start: usize,
    pub end: usize,
    pub class: String,
    pub heading_level: usize,
}

/// Plain-value image of the tagged nodes:
/// `(start, end, class, heading level)`.
pub open spec fn raw_highlights_view(s: Seq<RawHighlight>) -> Seq<
    (usize, usize, Seq<char>, usize),
> {
    Seq::new(s.len(), |i: int| (s[i].start, s[i].end, s[i].class@, s[i].heading_level))
}

/// What the external highlighter yields for a text: the image of the tagged
/// nodes, in traversal order. Named only; the result is a function of the
/// text alone.
pub uninterp spec fn highlighted_spans(text: Seq<char>) -> Seq<(usize, usize, Seq<char>, usize)>;

/// Relies on `typst_syntax::parse`, `typst_syntax::highlight` and
/// `typst_syntax::Tag::css_class`: parses the text as markup, walks every
/// node, and reports each node that carries a highlight tag with its byte
/// range, the tag's style class and, for a heading, the length of its
/// marker.
#[verifier::external_body]
fn raw_highlights(text: &str) -> (r: Vec<RawHighlight>)
    ensures
        raw_highlights_view(r@) == highlighted_spans(text@),
{
    let root = typst_syntax::parse(text);
    let mut queue = vec![typst_syntax::LinkedNode::new(&root)];
    let mut out = Vec::new();
    while let Some(node) = queue.pop() {
        if let Some(tag) = typst_syntax::highlight(&node) {
            let level = match (tag, node.get().children().next()) {
                (typst_syntax::Tag::Heading, Some(marker)) => marker.text().len(),
                _ => 0,
            };
            let (start, end, class) = (node.range().start, node.range().end, tag.css_class());
            out.push(RawHighlight { start, end, class: String::from(class), heading_level: level });
        }
        queue.extend(node.children());
    }
    out
}

/// One highlight span surfaced to the host: a style class and a range in
/// UTF-16 code units.
pub struct TypstHighlight {
    pub tag: String,
    pub range: (usize, usize),
}

/// Image of one highlight span.
pub ghost struct HighlightModel {
    pub tag: Seq<char>,
    pub range: (usize, usize),
}

/// Image of a highlight list.
pub open spec fn highlight_models(s: Seq<TypstHighlight>) -> Seq<HighlightModel> {
    Seq::new(s.len(), |i: int| HighlightModel { tag: s[i].tag@, range: s[i].range })
}

/// The style class of a span: a heading carries its level as a class suffix.
pub open spec fn spec_class_of(class: Seq<char>, level: usize) -> Seq<char> {
    if level > 0 {
        class + " typ-heading-level-"@ + dec_chars(level as int)
    } else {
        class
    }
}

/// The spans surfaced for the tagged nodes, in traversal order: each range
/// translated to UTF-16 units against `utf`; a node whose translation does
/// not fit the machine word is dropped.
pub open spec fn spans_out(
    raw: Seq<(usize, usize, Seq<char>, usize)>,
    utf: Seq<(usize, usize)>,
) -> Seq<HighlightModel>
    decreases raw.len(),
{
    if raw.len() == 0 {
        Seq::empty()
    } else {
        let t = raw.last();
        let rest = spans_out(raw.drop_last(), utf);
        let u1 = translate_aux_to_main(utf, t.0 as int);
        let u2 = translate_aux_to_main(utf, t.1 as int);
        if u1 <= usize::MAX && u2 <= usize::MAX {
            rest.push(
                HighlightModel { tag: spec_class_of(t.2, t.3), range: (u1 as usize, u2 as usize) },
            )
        } else {
            rest
        }
    }
}

/// Position a new span is filed at: before the first span that starts later.
pub open spec fn insert_pos(s: Seq<HighlightModel>, start: usize, k: int) -> int
    decreases s.len() - k,
    when 0 <= k <= s.len()
{
    if k >= s.len() {
        k
    } else if s[k].range.0 > start {
        k
    } else {
        insert_pos(s, start, k + 1)
    }
}

/// A list with a span filed into its place.
pub open spec fn insert_sorted_spec(s: Seq<HighlightModel>, h: HighlightModel) -> Seq<
    HighlightModel,
> {
    let k = insert_pos(s, h.range.0, 0);
    s.subrange(0, k) + seq![h] + s.subrange(k, s.len() as int)
}

/// The highlight list for the tagged nodes: each span filed by range start.
pub open spec fn collect_spans(
    raw: Seq<(usize, usize, Seq<char>, usize)>,
    utf: Seq<(usize, usize)>,
) -> Seq<HighlightModel>
    decreases raw.len(),
{
    let outs = spans_out(raw, utf);
    collect_from(outs)
}

/// Folds the translated spans into an ordered list.
pub open spec fn collect_from(outs: Seq<HighlightModel>) -> Seq<HighlightModel>
    decreases outs.len(),
{
    if outs.len() == 0 {
        Seq::empty()
    } else {
        insert_sorted_spec(collect_from(outs.drop_last()), outs.last())
    }
}

/// Spans are ordered by range start.
pub open spec fn sorted_by_start(s: Seq<HighlightModel>) -> bool {
    forall|i: int, j: int|
        0 <= i < j < s.len() ==> (#[trigger] s[i]).range.0 <= (#[trigger] s[j]).range.0
}

/// Builds a span's style class.
fn class_of(class: String, level: usize) -> (r: String)
    ensures
        r@ == spec_class_of(class@, level),
{
    if level > 0 {
        let mut s = class;
        s.append(" typ-heading-level-");
        s.append(usize_to_string(level).as_str());
        s
    } else {
        class
    }
}

/// Files a span into an ordered list, keeping the order.
fn insert_sorted(v: &mut Vec<TypstHighlight>, h: TypstHighlight)
    requires
        sorted_by_start(highlight_models(old(v)@)),
    ensures
        highlight_models(final(v)@) == insert_sorted_spec(
            highlight_models(old(v)@),
            HighlightModel { tag: h.tag@, range: h.range },
        ),
        sorted_by_start(highlight_models(final(v)@)),
{
    let ghost hm = HighlightModel { tag: h.tag@, range: h.range };
    let ghost s0 = highlight_models(v@);
    let n: usize = v.len();
    let mut k: usize = 0;
    while k < n && v[k].range.0 <= h.range.0
        invariant
            0 <= k <= n,
            n == v@.len(),
            s0 == highlight_models(v@),
            hm.range == h.range,
            insert_pos(s0, hm.range.0, 0) == insert_pos(s0, hm.range.0, k as int),
        decreases n - k,
    {
        proof {
            assert(s0[k as int].range.0 <= hm.range.0);
            assert(insert_pos(s0, hm.range.0, k as int) == insert_pos(s0, hm.range.0, k + 1));
        }
        k = k + 1;
    }
    proof {
        assert(insert_pos(s0, hm.range.0, k as int) == k as int);
        assert(insert_pos(s0, hm.range.0, 0) == k as int);
    }
    v.insert(k, h);
    proof {
        assert(highlight_models(v@) =~= s0.subrange(0, k as int) + seq![hm] + s0.subrange(
            k as int,
            s0.len() as int,
        ));
        let s1 = highlight_models(v@);
        lemma_insert_pos_le(s0, hm.range.0, 0);
        assert forall|i: int, j: int| 0 <= i < j < s1.len() implies (#[trigger] s1[i]).range.0
            <= (#[trigger] s1[j]).range.0 by {
            let k0 = k as int;
            if i < k0 && j == k0 {
                assert(s0[i].range.0 <= hm.range.0);
            } else if i == k0 && j > k0 {
                assert(s0[k0].range.0 > hm.range.0);
                if j - 1 > k0 {
                    assert(s0[k0].range.0 <= s0[j - 1].range.0);
                }
            } else if i < k0 && j > k0 {
                assert(s1[i] == s0[i] && s1[j] == s0[j - 1]);
            }
        }
    }
}

/// Every span before the filing position starts at or before the new span,
/// and the span at the position, if any, starts strictly after it.
proof fn lemma_insert_pos_le(s: Seq<HighlightModel>, start: usize, k: int)
    requires
        0 <= k <= s.len(),
    ensures
        k <= insert_pos(s, start, k) <= s.len(),
        forall|j: int|
            k <= j < insert_pos(s, start, k) ==> (#[trigger] s[j]).range.0 <= start,
        insert_pos(s, start, k) < s.len() ==> s[insert_pos(s, start, k)].range.0 > start,
    decreases s.len() - k,
{
    if k < s.len() && !(s[k].range.0 > start) {
        lemma_insert_pos_le(s, start, k + 1);
    }
}

/// Highlights the user text: walks the parse tree for tagged nodes,
/// translates their ranges to UTF-16 units against the given table, and
/// hands back the spans ordered by range start.
pub fn highlight(text: &str, utf: &UtfIndexMapper) -> (r: Vec<TypstHighlight>)
    ensures
        highlight_models(r@) == collect_spans(highlighted_spans(text@), utf@),
        sorted_by_start(highlight_models(r@)),
{
    let raw = raw_highlights(text);
    let ghost rs = raw_highlights_view(raw@);
    let n: usize = raw.len();
    let mut out: Vec<TypstHighlight> = Vec::new();
    let mut i: usize = 0;
    proof {
        assert(rs.take(0) =~= Seq::<(usize, usize, Seq<char>, usize)>::empty());
        assert(highlight_models(out@) =~= Seq::<HighlightModel>::empty());
    }
    while i < n
        invariant
            0 <= i <= n,
            n == raw@.len(),
            rs == raw_highlights_view(raw@),
            highlight_models(out@) == collect_from(spans_out(rs.take(i as int), utf@)),
            sorted_by_start(highlight_models(out@)),
        decreases n - i,
    {
        proof {
            assert(rs.take(i + 1).drop_last() =~= rs.take(i as int));
            assert(rs.take(i + 1).last() == rs[i as int]);
        }
        let start = raw[i].start;
        let end = raw[i].end;
        match (utf.try_utf8_to_utf16(start), utf.try_utf8_to_utf16(end)) {
            (Some(u1), Some(u2)) => {
                proof {
                    crate::index_mapper::lemma_translate_nonneg(utf@, start as int);
                    crate::index_mapper::lemma_translate_nonneg(utf@, end as int);
                }
                let level = raw[i].heading_level;
                let class = clone_string(&raw[i].class);
                let tag = class_of(class, level);
                let h = TypstHighlight { tag, range: (u1, u2) };
                proof {
                    let m = HighlightModel {
                        tag: spec_class_of(rs[i as int].2, rs[i as int].3),
                        range: (u1, u2),
                    };
                    assert(spans_out(rs.take(i + 1), utf@) =~= spans_out(
                        rs.take(i as int),
                        utf@,
                    ).push(m));
                    assert(spans_out(rs.take(i + 1), utf@).drop_last() =~= spans_out(
                        rs.take(i as int),
                        utf@,
                    ));
                }
                insert_sorted(&mut out, h);
            },
            _ => {
                proof {
                    assert(spans_out(rs.take(i + 1), utf@) =~= spans_out(rs.take(i as int), utf@));
                }
            },
        }
        i = i + 1;
    }
    proof {
        assert(rs.take(n as int) =~= rs);
    }
    out
}

} // verus!
