//! Frame extraction: associates the compiled document's visual output with
//! source blocks and slices it into per-block fragments.
//!
//! The compiled document's visual item tree is flattened into a list of
//! frame blocks, recursing into groups and accumulating each group's
//! positional offset into its children; a group is a container, never a leaf.
//! The blocks of the user document then greedily consume frame blocks from
//! the front of that list while a frame block's source range ends at or
//! before the block's mapped end; frame blocks without a source range are
//! deferred and attached to whichever block is current when a ranged frame
//! block next lands, and any still-deferred trailing items join the last
//! fragment. A block whose computed height is zero or negative, or whose
//! start lies at or past an optional height cutoff, is skipped. Each
//! retained block's items are re-homed relative to the block's start height
//! and hashed for caller-side change suppression.
//!
//! Coordinates are integer layout units; arithmetic on them saturates at the
//! machine range, far beyond any real layout.

use vstd::prelude::*;
use vstd::arithmetic::mul::lemma_mul_upper_bound;

use crate::index_mapper::{IndexMapper, lemma_translate_nonneg, translate_aux_to_main};
use crate::synth::AstBlock;
use crate::utf_map::UtfIndexMapper;

verus! {

/// Saturation of an integer to the signed 64-bit range.
pub open spec fn clamp64(v: int) -> int {
    if v > i64::MAX {
        i64::MAX as int
    } else if v < i64::MIN {
        i64::MIN as int
    } else {
        v
    }
}

/// Saturating coordinate addition.
pub open spec fn cadd(a: int, b: int) -> int {
    clamp64(a + b)
}

/// Saturating coordinate subtraction.
pub open spec fn csub(a: int, b: int) -> int {
    clamp64(a - b)
}

/// Adds two coordinates, saturating at the representable range.
pub fn add64(a: i64, b: i64) -> (r: i64)
    ensures
        r as int == cadd(a as int, b as int),
{
    if b >= 0 {
        if a > i64::MAX - b {
            i64::MAX
        } else {
            a + b
        }
    } else {
        if a < i64::MIN - b {
            i64::MIN
        } else {
            a + b
        }
    }
}

/// Subtracts two coordinates, saturating at the representable range.
pub fn sub64(a: i64, b: i64) -> (r: i64)
    ensures
        r as int == csub(a as int, b as int),
{
    if b >= 0 {
        if a < i64::MIN + b {
            i64::MIN
        } else {
            a - b
        }
    } else {
        if a > i64::MAX + b {
            i64::MAX
        } else {
            a - b
        }
    }
}

/// One node of the compiled document's visual item tree. Atoms carry their
/// position, their vertical size where they have one, their source range in
/// synthesized-document bytes where they have one, an index `item` into the
/// caller's store of payloads, and a caller-computed content fingerprint
/// `fp`. A group carries only its offset and its children.
pub enum VisualNode {
    Text { x: i64, y: i64, size: i64, range: Option<(usize, usize)>, item: usize, fp: u64 },
    Shape { x: i64, y: i64, height: i64, range: Option<(usize, usize)>, item: usize, fp: u64 },
    Image { x: i64, y: i64, height: i64, range: Option<(usize, usize)>, item: usize, fp: u64 },
    Link { x: i64, y: i64, item: usize, fp: u64 },
    Tag { x: i64, y: i64, item: usize, fp: u64 },
    Group { dx: i64, dy: i64, children: Vec<VisualNode> },
}

/// One atomic visual item paired with its vertical extent and its source
/// range, as the extractor walks it.
#[derive(Clone, Copy, Debug)]
pub struct FrameBlock {
    pub range: Option<(usize, usize)>,
    pub start_height: i64,
    pub end_height: i64,
    pub item: usize,
    pub fp: u64,
    pub x: i64,
    pub y: i64,
}

/// The frame blocks one node flattens to, with the accumulated group offset
/// `(dx, dy)` applied: one block per atom, a text run reaching from its
/// baseline up by its size (not above 0), a shape or image reaching down by
/// its height, a link or tag with a point extent; a group contributes its
/// children, further offset by its own.
pub open spec fn flat_node(n: VisualNode, dx: int, dy: int) -> Seq<FrameBlock>
    decreases n,
{
    match n {
        VisualNode::Text { x, y, size, range, item, fp } => {
            let fy = cadd(y as int, dy);
            let s = csub(fy, size as int);
            seq![
                FrameBlock {
                    range,
                    start_height: (if s > 0 {
                        s
                    } else {
                        0
                    }) as i64,
                    end_height: fy as i64,
                    item,
                    fp,
                    x: cadd(x as int, dx) as i64,
                    y: fy as i64,
                },
            ]
        },
        VisualNode::Shape { x, y, height, range, item, fp } => {
            let fy = cadd(y as int, dy);
            seq![
                FrameBlock {
                    range,
                    start_height: fy as i64,
                    end_height: cadd(fy, height as int) as i64,
                    item,
                    fp,
                    x: cadd(x as int, dx) as i64,
                    y: fy as i64,
                },
            ]
        },
        VisualNode::Image { x, y, height, range, item, fp } => {
            let fy = cadd(y as int, dy);
            seq![
                FrameBlock {
                    range,
                    start_height: fy as i64,
                    end_height: cadd(fy, height as int) as i64,
                    item,
                    fp,
                    x: cadd(x as int, dx) as i64,
                    y: fy as i64,
                },
            ]
        },
        VisualNode::Link { x, y, item, fp } => {
            let fy = cadd(y as int, dy);
            seq![
                FrameBlock {
                    range: None,
                    start_height: fy as i64,
                    end_height: fy as i64,
                    item,
                    fp,
                    x: cadd(x as int, dx) as i64,
                    y: fy as i64,
                },
            ]
        },
        VisualNode::Tag { x, y, item, fp } => {
            let fy = cadd(y as int, dy);
            seq![
                FrameBlock {
                    range: None,
                    start_height: fy as i64,
                    end_height: fy as i64,
                    item,
                    fp,
                    x: cadd(x as int, dx) as i64,
                    y: fy as i64,
                },
            ]
        },
        VisualNode::Group { dx: gx, dy: gy, children } => flat_list(
            children@,
            cadd(dx, gx as int),
            cadd(dy, gy as int),
        ),
    }
}

/// The frame blocks a node list flattens to, in order.
pub open spec fn flat_list(s: Seq<VisualNode>, dx: int, dy: int) -> Seq<FrameBlock>
    decreases s,
{
    if s.len() == 0 {
        Seq::empty()
    } else {
        flat_list(s.drop_last(), dx, dy) + flat_node(s.last(), dx, dy)
    }
}

/// Flattens one visual node, appending its frame blocks.
pub fn frame_with_bounds(n: &VisualNode, dx: i64, dy: i64, out: &mut Vec<FrameBlock>)
    ensures
        final(out)@ == old(out)@ + flat_node(*n, dx as int, dy as int),
    decreases *n,
{
    match n {
        VisualNode::Text { x, y, size, range, item, fp } => {
            let fy = add64(*y, dy);
            let s = sub64(fy, *size);
            let sh = if s > 0 {
                s
            } else {
                0
            };
            out.push(
                FrameBlock {
                    range: *range,
                    start_height: sh,
                    end_height: fy,
                    item: *item,
                    fp: *fp,
                    x: add64(*x, dx),
                    y: fy,
                },
            );
        },
        VisualNode::Shape { x, y, height, range, item, fp } => {
            let fy = add64(*y, dy);
            out.push(
                FrameBlock {
                    range: *range,
                    start_height: fy,
                    end_height: add64(fy, *height),
                    item: *item,
                    fp: *fp,
                    x: add64(*x, dx),
                    y: fy,
                },
            );
        },
        VisualNode::Image { x, y, height, range, item, fp } => {
            let fy = add64(*y, dy);
            out.push(
                FrameBlock {
                    range: *range,
                    start_height: fy,
                    end_height: add64(fy, *height),
                    item: *item,
                    fp: *fp,
                    x: add64(*x, dx),
                    y: fy,
                },
            );
        },
        VisualNode::Link { x, y, item, fp } => {
            let fy = add64(*y, dy);
            out.push(
                FrameBlock {
                    range: None,
                    start_height: fy,
                    end_height: fy,
                    item: *item,
                    fp: *fp,
                    x: add64(*x, dx),
                    y: fy,
                },
            );
        },
        VisualNode::Tag { x, y, item, fp } => {
            let fy = add64(*y, dy);
            out.push(
                FrameBlock {
                    range: None,
                    start_height: fy,
                    end_height: fy,
                    item: *item,
                    fp: *fp,
                    x: add64(*x, dx),
                    y: fy,
                },
            );
        },
        VisualNode::Group { dx: gx, dy: gy, children } => {
            let ndx = add64(dx, *gx);
            let ndy = add64(dy, *gy);
            let m: usize = children.len();
            let mut i: usize = 0;
            proof {
                assert(children@.take(0) =~= Seq::<VisualNode>::empty());
            }
            while i < m
                invariant
                    i <= m,
                    m == children@.len(),
                    *n == (VisualNode::Group { dx: *gx, dy: *gy, children: *children }),
                    ndx as int == cadd(dx as int, *gx as int),
                    ndy as int == cadd(dy as int, *gy as int),
                    out@ == old(out)@ + flat_list(children@.take(i as int), ndx as int, ndy as int),
                decreases m - i,
            {
                proof {
                    assert(decreases_to!(*n => n->Group_children));
                    assert(decreases_to!(n->Group_children => n->Group_children@[i as int]));
                    assert(n->Group_children@[i as int] == children@[i as int]);
                    assert(decreases_to!(*n => children@[i as int]));
                }
                frame_with_bounds(&children[i], ndx, ndy, out);
                proof {
                    assert(children@.take(i + 1).drop_last() =~= children@.take(i as int));
                    assert(children@.take(i + 1).last() == children@[i as int]);
                }
                i = i + 1;
            }
            proof {
                assert(children@.take(m as int) =~= children@);
            }
        },
    }
}

/// Flattens a list of top-level visual nodes (the pages' item trees, in
/// order) into the frame block list the extractor consumes.
pub fn flatten_nodes(nodes: &Vec<VisualNode>) -> (r: Vec<FrameBlock>)
    ensures
        r@ == flat_list(nodes@, 0, 0),
{
    let mut out: Vec<FrameBlock> = Vec::new();
    let m: usize = nodes.len();
    let mut i: usize = 0;
    proof {
        assert(nodes@.take(0) =~= Seq::<VisualNode>::empty());
    }
    while i < m
        invariant
            i <= m,
            m == nodes@.len(),
            out@ == flat_list(nodes@.take(i as int), 0, 0),
        decreases m - i,
    {
        frame_with_bounds(&nodes[i], 0, 0, &mut out);
        proof {
            assert(nodes@.take(i + 1).drop_last() =~= nodes@.take(i as int));
            assert(nodes@.take(i + 1).last() == nodes@[i as int]);
        }
        i = i + 1;
    }
    proof {
        assert(nodes@.take(m as int) =~= nodes@);
    }
    out
}

/// State of the greedy consumption of frame blocks for one user block.
pub ghost struct ConsumeState {
    pub f: int,
    pub deferred: Seq<FrameBlock>,
    pub items: Seq<FrameBlock>,
    pub start_h: Option<int>,
    pub end_h: Option<int>,
}

/// Consumes frame blocks from position `f` on: one without a source range is
/// deferred; one whose range ends at or before `main_end` is taken, together
/// with everything deferred since the last take, and the minimum start height
/// and maximum end height of the taken blocks are tracked; the first ranged
/// block beyond `main_end` stops the consumption.
pub open spec fn consume_from(fbs: Seq<FrameBlock>, main_end: int, st: ConsumeState) -> ConsumeState
    decreases fbs.len() - st.f,
    when 0 <= st.f <= fbs.len()
{
    if st.f >= fbs.len() {
        st
    } else {
        let fb = fbs[st.f];
        match fb.range {
            None => consume_from(
                fbs,
                main_end,
                ConsumeState {
                    f: st.f + 1,
                    deferred: st.deferred.push(fb),
                    items: st.items,
                    start_h: st.start_h,
                    end_h: st.end_h,
                },
            ),
            Some(rg) => if rg.1 <= main_end {
                consume_from(
                    fbs,
                    main_end,
                    ConsumeState {
                        f: st.f + 1,
                        deferred: Seq::empty(),
                        items: st.items + seq![fb] + st.deferred,
                        start_h: Some(
                            match st.start_h {
                                Some(h) => if h < fb.start_height {
                                    h
                                } else {
                                    fb.start_height as int
                                },
                                None => fb.start_height as int,
                            },
                        ),
                        end_h: Some(
                            match st.end_h {
                                Some(h) => if h > fb.end_height {
                                    h
                                } else {
                                    fb.end_height as int
                                },
                                None => fb.end_height as int,
                            },
                        ),
                    },
                )
            } else {
                st
            },
        }
    }
}

/// One retained block before re-homing: its items, its user range in UTF-16
/// units, its height and its vertical offset in the whole document.
pub ghost struct Slice {
    pub items: Seq<FrameBlock>,
    pub range16: (usize, usize),
    pub height: int,
    pub offset: int,
}

/// State of the walk over the user blocks.
pub ghost struct AsmState {
    pub f: int,
    pub deferred: Seq<FrameBlock>,
    pub out: Seq<Slice>,
}

/// Processes one user block: translates its range to UTF-16 units and its end
/// into the synthesized document, consumes the frame blocks that fall at or
/// before that end, and retains the block unless its height is zero or
/// negative or its start lies at or past the cutoff. A block with a
/// translation that does not fit the machine word consumes nothing and
/// produces nothing.
pub open spec fn asm_step(
    fbs: Seq<FrameBlock>,
    mapper: Seq<(usize, usize)>,
    utf: Seq<(usize, usize)>,
    cutoff: Option<int>,
    st: AsmState,
    b: AstBlock,
) -> AsmState {
    let r16s = translate_aux_to_main(utf, b.start as int);
    let r16e = translate_aux_to_main(utf, b.end as int);
    let me = translate_aux_to_main(mapper, b.end as int);
    if r16s <= usize::MAX && r16e <= usize::MAX && me <= usize::MAX {
        let cs = consume_from(
            fbs,
            me,
            ConsumeState {
                f: st.f,
                deferred: Seq::empty(),
                items: st.deferred,
                start_h: None,
                end_h: None,
            },
        );
        let s0 = match cs.start_h {
            Some(h) => h,
            None => 0,
        };
        let e0 = match cs.end_h {
            Some(h) => h,
            None => 0,
        };
        let skip_cut = match cutoff {
            Some(c) => s0 >= c,
            None => false,
        };
        let h = csub(e0, s0);
        if skip_cut || h <= 0 {
            AsmState { f: cs.f, deferred: cs.deferred, out: st.out }
        } else {
            AsmState {
                f: cs.f,
                deferred: cs.deferred,
                out: st.out.push(
                    Slice {
                        items: cs.items,
                        range16: (r16s as usize, r16e as usize),
                        height: h,
                        offset: s0,
                    },
                ),
            }
        }
    } else {
        st
    }
}

/// The walk over all user blocks, in order.
pub open spec fn asm_all(
    blocks: Seq<AstBlock>,
    fbs: Seq<FrameBlock>,
    mapper: Seq<(usize, usize)>,
    utf: Seq<(usize, usize)>,
    cutoff: Option<int>,
) -> AsmState
    decreases blocks.len(),
{
    if blocks.len() == 0 {
        AsmState { f: 0, deferred: Seq::empty(), out: Seq::empty() }
    } else {
        asm_step(
            fbs,
            mapper,
            utf,
            cutoff,
            asm_all(blocks.drop_last(), fbs, mapper, utf, cutoff),
            blocks.last(),
        )
    }
}

/// Still-deferred trailing items join the last retained block.
pub open spec fn attach_trailing(st: AsmState) -> Seq<Slice> {
    if st.deferred.len() > 0 && st.out.len() > 0 {
        st.out.update(
            st.out.len() - 1,
            Slice {
                items: st.out.last().items + st.deferred,
                range16: st.out.last().range16,
                height: st.out.last().height,
                offset: st.out.last().offset,
            },
        )
    } else {
        st.out
    }
}

/// The unsigned 64-bit word that stands for a signed coordinate.
pub open spec fn u64_of(v: int) -> int {
    if v >= 0 {
        v
    } else {
        v + 0x10000000000000000
    }
}

/// The words hashed for one item: its content fingerprint and its re-homed
/// position.
pub open spec fn item_words(fb: FrameBlock) -> Seq<u64> {
    seq![fb.fp, u64_of(fb.x as int) as u64, u64_of(fb.y as int) as u64]
}

/// The words hashed for an item list, in order.
pub open spec fn words_of(items: Seq<FrameBlock>) -> Seq<u64>
    decreases items.len(),
{
    if items.len() == 0 {
        Seq::empty()
    } else {
        words_of(items.drop_last()) + item_words(items.last())
    }
}

pub const FNV_OFFSET_BASIS: u64 = 0xcbf29ce484222325;

pub const FNV_PRIME: u64 = 0x100000001b3;

/// One round of the 64-bit FNV-1a content hash, over one word.
pub open spec fn fnv_step(h: u64, w: u64) -> u64 {
    ((((h ^ w) as int) * (FNV_PRIME as int)) % 0x10000000000000000) as u64
}

/// The 64-bit FNV-1a content hash of a word list.
pub open spec fn fnv_words(ws: Seq<u64>) -> u64
    decreases ws.len(),
{
    if ws.len() == 0 {
        FNV_OFFSET_BASIS
    } else {
        fnv_step(fnv_words(ws.drop_last()), ws.last())
    }
}

/// The items with their positions made relative to the block's start height.
pub open spec fn rehome(items: Seq<FrameBlock>, off: int) -> Seq<FrameBlock> {
    Seq::new(
        items.len(),
        |i: int|
            FrameBlock {
                range: items[i].range,
                start_height: items[i].start_height,
                end_height: items[i].end_height,
                item: items[i].item,
                fp: items[i].fp,
                x: items[i].x,
                y: csub(items[i].y as int, off) as i64,
            },
    )
}

/// Image of one final fragment.
pub ghost struct FragModel {
    pub range16: (usize, usize),
    pub items: Seq<FrameBlock>,
    pub height: int,
    pub offset: int,
    pub hash: u64,
}

/// The fragment a retained block becomes: its items re-homed to the block's
/// start height and the content hash over them.
pub open spec fn frag_of(sl: Slice) -> FragModel {
    let ri = rehome(sl.items, sl.offset);
    FragModel {
        range16: sl.range16,
        items: ri,
        height: sl.height,
        offset: sl.offset,
        hash: fnv_words(words_of(ri)),
    }
}

/// The whole extraction: one fragment per retained block, in block order.
pub open spec fn spec_render(
    blocks: Seq<AstBlock>,
    fbs: Seq<FrameBlock>,
    mapper: Seq<(usize, usize)>,
    utf: Seq<(usize, usize)>,
    cutoff: Option<int>,
) -> Seq<FragModel> {
    let slices = attach_trailing(asm_all(blocks, fbs, mapper, utf, cutoff));
    Seq::new(slices.len(), |i: int| frag_of(slices[i]))
}

/// Final output unit: a user-document range in UTF-16 units, the re-homed
/// constituent items the caller renders, a content hash for caller-side
/// change suppression, a height, and a vertical offset within the full
/// document.
pub struct RangedFragment {
    pub range: (usize, usize),
    pub items: Vec<FrameBlock>,
    pub height: i64,
    pub offset_height: i64,
    pub hash: u64,
}

/// Image of a fragment list.
pub open spec fn frag_models(s: Seq<RangedFragment>) -> Seq<FragModel> {
    Seq::new(
        s.len(),
        |i: int|
            FragModel {
                range16: s[i].range,
                items: s[i].items@,
                height: s[i].height as int,
                offset: s[i].offset_height as int,
                hash: s[i].hash,
            },
    )
}

/// Image of an optional cutoff.
pub open spec fn cut_of(c: Option<i64>) -> Option<int> {
    match c {
        Some(v) => Some(v as int),
        None => None,
    }
}

/// The unsigned word of a signed coordinate.
fn word_of(v: i64) -> (r: u64)
    ensures
        r as int == u64_of(v as int),
{
    if v >= 0 {
        v as u64
    } else {
        (((v as i128) + 0x10000000000000000i128) as u128) as u64
    }
}

/// The content hash of a word list.
fn fnv_hash(ws: &Vec<u64>) -> (r: u64)
    ensures
        r == fnv_words(ws@),
{
    let mut h: u64 = FNV_OFFSET_BASIS;
    let n: usize = ws.len();
    let mut i: usize = 0;
    proof {
        assert(ws@.take(0) =~= Seq::<u64>::empty());
    }
    while i < n
        invariant
            i <= n,
            n == ws@.len(),
            h == fnv_words(ws@.take(i as int)),
        decreases n - i,
    {
        let x: u128 = (h ^ ws[i]) as u128;
        proof {
            lemma_mul_upper_bound(x as int, u64::MAX as int, FNV_PRIME as int, FNV_PRIME as int);
        }
        let p: u128 = x * (FNV_PRIME as u128);
        let h2: u64 = (p % 0x10000000000000000u128) as u64;
        proof {
            assert(ws@.take(i + 1).drop_last() =~= ws@.take(i as int));
            assert(ws@.take(i + 1).last() == ws@[i as int]);
        }
        h = h2;
        i = i + 1;
    }
    proof {
        assert(ws@.take(n as int) =~= ws@);
    }
    h
}

/// The hash words of an item list.
fn words_of_items(items: &Vec<FrameBlock>) -> (r: Vec<u64>)
    ensures
        r@ == words_of(items@),
{
    let mut out: Vec<u64> = Vec::new();
    let n: usize = items.len();
    let mut i: usize = 0;
    proof {
        assert(items@.take(0) =~= Seq::<FrameBlock>::empty());
    }
    while i < n
        invariant
            i <= n,
            n == items@.len(),
            out@ == words_of(items@.take(i as int)),
        decreases n - i,
    {
        let fb = items[i];
        out.push(fb.fp);
        out.push(word_of(fb.x));
        out.push(word_of(fb.y));
        proof {
            assert(items@.take(i + 1).drop_last() =~= items@.take(i as int));
            assert(items@.take(i + 1).last() == items@[i as int]);
            assert(out@ =~= words_of(items@.take(i as int)) + item_words(items@[i as int]));
        }
        i = i + 1;
    }
    proof {
        assert(items@.take(n as int) =~= items@);
    }
    out
}

/// Image of the intermediate slices.
pub open spec fn slice_models(s: Seq<(Vec<FrameBlock>, (usize, usize), i64, i64)>) -> Seq<Slice> {
    Seq::new(
        s.len(),
        |i: int|
            Slice { items: s[i].0@, range16: s[i].1, height: s[i].2 as int, offset: s[i].3 as int },
    )
}

/// Image of an optional machine-word height.
pub open spec fn oi(v: Option<i64>) -> Option<int> {
    match v {
        Some(x) => Some(x as int),
        None => None,
    }
}

/// Runs the greedy consumption for one block: defers rangeless frame blocks,
/// takes ranged ones ending at or before `me` together with what was deferred
/// since the last take, and stops at the first ranged one beyond `me`.
fn consume_loop(
    frame_blocks: &Vec<FrameBlock>,
    me: usize,
    f: &mut usize,
    deferred: &mut Vec<FrameBlock>,
    items: &mut Vec<FrameBlock>,
    sh: &mut Option<i64>,
    eh: &mut Option<i64>,
)
    requires
        *old(f) <= frame_blocks@.len(),
    ensures
        ({
            let cs = consume_from(
                frame_blocks@,
                me as int,
                ConsumeState {
                    f: *old(f) as int,
                    deferred: old(deferred)@,
                    items: old(items)@,
                    start_h: oi(*old(sh)),
                    end_h: oi(*old(eh)),
                },
            );
            &&& *final(f) as int == cs.f
            &&& final(deferred)@ == cs.deferred
            &&& final(items)@ == cs.items
            &&& oi(*final(sh)) == cs.start_h
            &&& oi(*final(eh)) == cs.end_h
        }),
        *final(f) <= frame_blocks@.len(),
{
    let ghost fbs = frame_blocks@;
    let ghost cs0 = ConsumeState {
        f: *f as int,
        deferred: deferred@,
        items: items@,
        start_h: oi(*sh),
        end_h: oi(*eh),
    };
    let nf: usize = frame_blocks.len();
    let mut done: bool = false;
    while *f < nf && !done
        invariant
            *f <= nf,
            nf == fbs.len(),
            fbs == frame_blocks@,
            consume_from(fbs, me as int, cs0) == consume_from(
                fbs,
                me as int,
                ConsumeState {
                    f: *f as int,
                    deferred: deferred@,
                    items: items@,
                    start_h: oi(*sh),
                    end_h: oi(*eh),
                },
            ),
            done ==> ({
                let cur = ConsumeState {
                    f: *f as int,
                    deferred: deferred@,
                    items: items@,
                    start_h: oi(*sh),
                    end_h: oi(*eh),
                };
                consume_from(fbs, me as int, cur) == cur
            }),
        decreases nf - *f, (if done { 0int } else { 1int }),
    {
        let ghost pre = ConsumeState {
            f: *f as int,
            deferred: deferred@,
            items: items@,
            start_h: oi(*sh),
            end_h: oi(*eh),
        };
        let fb = frame_blocks[*f];
        match fb.range {
            None => {
                deferred.push(fb);
                *f = *f + 1;
                proof {
                    let cur = ConsumeState {
                        f: *f as int,
                        deferred: deferred@,
                        items: items@,
                        start_h: oi(*sh),
                        end_h: oi(*eh),
                    };
                    assert(cur.deferred =~= pre.deferred.push(fb));
                    assert(consume_from(fbs, me as int, pre) == consume_from(fbs, me as int, cur));
                }
            },
            Some(rg) => {
                if rg.1 <= me {
                    *sh = match *sh {
                        Some(h) => if h < fb.start_height {
                            Some(h)
                        } else {
                            Some(fb.start_height)
                        },
                        None => Some(fb.start_height),
                    };
                    *eh = match *eh {
                        Some(h) => if h > fb.end_height {
                            Some(h)
                        } else {
                            Some(fb.end_height)
                        },
                        None => Some(fb.end_height),
                    };
                    items.push(fb);
                    items.append(deferred);
                    *f = *f + 1;
                    proof {
                        let cur = ConsumeState {
                            f: *f as int,
                            deferred: deferred@,
                            items: items@,
                            start_h: oi(*sh),
                            end_h: oi(*eh),
                        };
                        assert(cur.items =~= pre.items + seq![fb] + pre.deferred);
                        assert(cur.deferred =~= Seq::<FrameBlock>::empty());
                        assert(consume_from(fbs, me as int, pre) == consume_from(
                            fbs,
                            me as int,
                            cur,
                        ));
                    }
                } else {
                    done = true;
                    proof {
                        let cur = ConsumeState {
                            f: *f as int,
                            deferred: deferred@,
                            items: items@,
                            start_h: oi(*sh),
                            end_h: oi(*eh),
                        };
                        assert(consume_from(fbs, me as int, cur) == cur);
                    }
                }
            },
        }
    }
}

/// Produces one fragment per block with visible content: flattened frame
/// blocks are consumed greedily per block, blocks with no height or past the
/// cutoff are dropped, and each retained block's items are re-homed to its
/// start height and hashed.
pub fn render_by_items(
    blocks: &Vec<AstBlock>,
    mapper: &IndexMapper,
    utf: &UtfIndexMapper,
    frame_blocks: &Vec<FrameBlock>,
    height_cutoff: Option<i64>,
) -> (r: Vec<RangedFragment>)
    ensures
        frag_models(r@) == spec_render(
            blocks@,
            frame_blocks@,
            mapper@,
            utf@,
            cut_of(height_cutoff),
        ),
{
    let ghost fbs = frame_blocks@;
    let ghost cut = cut_of(height_cutoff);
    let nb: usize = blocks.len();
    let mut slices: Vec<(Vec<FrameBlock>, (usize, usize), i64, i64)> = Vec::new();
    let mut f: usize = 0;
    let mut deferred: Vec<FrameBlock> = Vec::new();
    let mut j: usize = 0;
    proof {
        assert(blocks@.take(0) =~= Seq::<AstBlock>::empty());
        assert(slice_models(slices@) =~= Seq::<Slice>::empty());
    }
    while j < nb
        invariant
            j <= nb,
            nb == blocks@.len(),
            fbs == frame_blocks@,
            cut == cut_of(height_cutoff),
            f <= fbs.len(),
            asm_all(blocks@.take(j as int), fbs, mapper@, utf@, cut) == (AsmState {
                f: f as int,
                deferred: deferred@,
                out: slice_models(slices@),
            }),
        decreases nb - j,
    {
        let ghost st0 = asm_all(blocks@.take(j as int), fbs, mapper@, utf@, cut);
        proof {
            assert(blocks@.take(j + 1).drop_last() =~= blocks@.take(j as int));
            assert(blocks@.take(j + 1).last() == blocks@[j as int]);
        }
        let b = blocks[j];
        proof {
            lemma_translate_nonneg(utf@, b.start as int);
            lemma_translate_nonneg(utf@, b.end as int);
            lemma_translate_nonneg(mapper@, b.end as int);
        }
        let t1 = utf.try_utf8_to_utf16(b.start);
        let t2 = utf.try_utf8_to_utf16(b.end);
        let t3 = mapper.try_aux_to_main(b.end);
        match (t1, t2, t3) {
            (Some(r16s), Some(r16e), Some(me)) => {
                let mut items: Vec<FrameBlock> = Vec::new();
                items.append(&mut deferred);
                let mut sh: Option<i64> = None;
                let mut eh: Option<i64> = None;
                consume_loop(
                    frame_blocks,
                    me,
                    &mut f,
                    &mut deferred,
                    &mut items,
                    &mut sh,
                    &mut eh,
                );
                let s0: i64 = match sh {
                    Some(h) => h,
                    None => 0,
                };
                let e0: i64 = match eh {
                    Some(h) => h,
                    None => 0,
                };
                let skip_cut: bool = match height_cutoff {
                    Some(c) => s0 >= c,
                    None => false,
                };
                let h = sub64(e0, s0);
                if skip_cut || h <= 0 {
                    // block dropped: no visible content or past the cutoff
                } else {
                    let ghost sl0 = slices@;
                    slices.push((items, (r16s, r16e), h, s0));
                    proof {
                        assert(slice_models(slices@) =~= slice_models(sl0).push(
                            Slice {
                                items: slices@.last().0@,
                                range16: (r16s, r16e),
                                height: h as int,
                                offset: s0 as int,
                            },
                        ));
                    }
                }
            },
            _ => {
                // a block whose translation does not fit consumes nothing
            },
        }
        j = j + 1;
    }
    proof {
        assert(blocks@.take(nb as int) =~= blocks@);
    }
    let ghost asm_fin = asm_all(blocks@, fbs, mapper@, utf@, cut);

    if deferred.len() > 0 && slices.len() > 0 {
        let ghost sl0 = slices@;
        let last = slices.pop();
        let (mut litems, lrange, lheight, loffset) = match last {
            Some(t) => t,
            None => (Vec::new(), (0usize, 0usize), 0i64, 0i64),
        };
        litems.append(&mut deferred);
        slices.push((litems, lrange, lheight, loffset));
        proof {
            assert(slice_models(slices@) =~= attach_trailing(asm_fin));
        }
    } else {
        proof {
            assert(slice_models(slices@) =~= attach_trailing(asm_fin));
        }
    }

    let ghost final_slices = attach_trailing(asm_fin);
    let ns: usize = slices.len();
    let mut out: Vec<RangedFragment> = Vec::new();
    let mut k: usize = 0;
    while k < ns
        invariant
            k <= ns,
            ns == slices@.len(),
            slice_models(slices@) == final_slices,
            out@.len() == k,
            forall|l: int| 0 <= l < k ==> frag_models(out@)[l] == frag_of(#[trigger] final_slices[l]),
        decreases ns - k,
    {
        let sl = &slices[k];
        let ri = rehome_items(&sl.0, sl.3);
        let ws = words_of_items(&ri);
        let hh = fnv_hash(&ws);
        out.push(
            RangedFragment { range: sl.1, items: ri, height: sl.2, offset_height: sl.3, hash: hh },
        );
        k = k + 1;
    }
    proof {
        assert(frag_models(out@) =~= spec_render(
            blocks@,
            frame_blocks@,
            mapper@,
            utf@,
            cut_of(height_cutoff),
        ));
    }
    out
}

/// The items with their positions made relative to the block's start height.
fn rehome_items(items: &Vec<FrameBlock>, off: i64) -> (r: Vec<FrameBlock>)
    ensures
        r@ == rehome(items@, off as int),
{
    let mut out: Vec<FrameBlock> = Vec::new();
    let n: usize = items.len();
    let mut i: usize = 0;
    while i < n
        invariant
            i <= n,
            n == items@.len(),
            out@.len() == i,
            forall|l: int| 0 <= l < i ==> out@[l] == rehome(items@, off as int)[l],
        decreases n - i,
    {
        let fb = items[i];
        out.push(
            FrameBlock {
                range: fb.range,
                start_height: fb.start_height,
                end_height: fb.end_height,
                item: fb.item,
                fp: fb.fp,
                x: fb.x,
                y: sub64(fb.y, off),
            },
        );
        i = i + 1;
    }
    proof {
        assert(out@ =~= rehome(items@, off as int));
    }
    out
}

/// Total of the fragments' heights.
pub open spec fn sum_heights(fr: Seq<FragModel>) -> int
    decreases fr.len(),
{
    if fr.len() == 0 {
        0
    } else {
        sum_heights(fr.drop_last()) + fr.last().height
    }
}

/// Total of the vertical gaps between consecutive fragments: the distance
/// from each fragment's bottom to the next fragment's top.
pub open spec fn sum_gaps(fr: Seq<FragModel>) -> int
    decreases fr.len(),
{
    if fr.len() <= 1 {
        0
    } else {
        sum_gaps(fr.drop_last()) + (fr.last().offset - (fr[fr.len() - 2].offset + fr[fr.len()
            - 2].height))
    }
}

/// Height conservation law: the fragments' heights plus the gaps between them
/// telescope exactly to the vertical span from the first fragment's top to
/// the last fragment's bottom — the compiled document's content height in
/// this integer model. Any rounding tolerance arises only in a caller's
/// conversion to display units.
pub proof fn lemma_height_conservation(fr: Seq<FragModel>)
    requires
        fr.len() > 0,
    ensures
        sum_heights(fr) + sum_gaps(fr) == fr.last().offset + fr.last().height - fr[0].offset,
    decreases fr.len(),
{
    if fr.len() == 1 {
        assert(sum_heights(fr.drop_last()) == 0);
        assert(sum_gaps(fr) == 0);
        assert(fr.last() == fr[0]);
    } else {
        lemma_height_conservation(fr.drop_last());
        assert(fr.drop_last()[0] == fr[0]);
        assert(fr.drop_last().last() == fr[fr.len() - 2]);
        assert(sum_heights(fr) == sum_heights(fr.drop_last()) + fr.last().height);
        assert(sum_gaps(fr) == sum_gaps(fr.drop_last()) + (fr.last().offset - (fr[fr.len()
            - 2].offset + fr[fr.len() - 2].height)));
    }
}

/// Idempotence law, extraction side: equal block lists, frame blocks, maps
/// and cutoffs yield equal fragments, and in particular pairwise equal
/// content hashes.
pub proof fn lemma_render_idempotent(
    blocks1: Seq<AstBlock>,
    blocks2: Seq<AstBlock>,
    fbs1: Seq<FrameBlock>,
    fbs2: Seq<FrameBlock>,
    mapper1: Seq<(usize, usize)>,
    mapper2: Seq<(usize, usize)>,
    utf1: Seq<(usize, usize)>,
    utf2: Seq<(usize, usize)>,
    cutoff1: Option<int>,
    cutoff2: Option<int>,
)
    requires
        blocks1 == blocks2,
        fbs1 == fbs2,
        mapper1 == mapper2,
        utf1 == utf2,
        cutoff1 == cutoff2,
    ensures
        spec_render(blocks1, fbs1, mapper1, utf1, cutoff1) == spec_render(
            blocks2,
            fbs2,
            mapper2,
            utf2,
            cutoff2,
        ),
        forall|i: int|
            0 <= i < spec_render(blocks1, fbs1, mapper1, utf1, cutoff1).len() ==> spec_render(
                blocks1,
                fbs1,
                mapper1,
                utf1,
                cutoff1,
            )[i].hash == spec_render(blocks2, fbs2, mapper2, utf2, cutoff2)[i].hash,
{
}

} // verus!
