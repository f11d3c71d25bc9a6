//! Source synthesis: builds the compilable ("main") document from the user
//! ("aux") document.
//!
//! The user text's top-level nodes are walked in order while an "in block"
//! flag is maintained. A node whose own text contains a newline closes the
//! current block: the block's content is appended to the synthesized text,
//! wrapped in a directive that forces a layout break when the block's last
//! node bears content, or verbatim when it is statement-like. Other nodes
//! extend the current block or start a new one. An explicit page-break call
//! terminates the current block immediately. The resulting synthesized text
//! is structurally longer than the user text (prelude plus per-block
//! directives) but keeps a 1:1 correspondence with user ranges through the
//! recorded inflections.

use vstd::prelude::*;
use vstd::string::StrSliceExecFns;
use vstd::utf8::encode_utf8;

use crate::index_mapper::{IndexMapper, inflections_wf, translate_aux_to_main};
use crate::nodes::{
    RawNode, is_pagebreak, is_statement_name, nodes_cover, parse_markup, parsed_markup,
    raw_nodes_view, spec_is_pagebreak, spec_is_statement_name,
};

verus! {

/// Image of one top-level node: `(start, end, kind name, leaf text, callee)`.
pub type NodeImage = (usize, usize, Seq<char>, Seq<u8>, Seq<char>);

/// Index of the first newline byte in `s` at or after `i`; `s.len()` when
/// there is none.
pub open spec fn first_newline_from(s: Seq<u8>, i: int) -> int
    decreases s.len() - i,
    when 0 <= i <= s.len()
{
    if i >= s.len() {
        i
    } else if s[i] == 10 {
        i
    } else {
        first_newline_from(s, i + 1)
    }
}

/// Index of the first newline byte in `s`; `s.len()` when there is none.
pub open spec fn first_newline(s: Seq<u8>) -> int {
    first_newline_from(s, 0)
}

pub proof fn lemma_first_newline_bounds(s: Seq<u8>, i: int)
    requires
        0 <= i <= s.len(),
    ensures
        i <= first_newline_from(s, i) <= s.len(),
    decreases s.len() - i,
{
    if i < s.len() && s[i] != 10 {
        lemma_first_newline_bounds(s, i + 1);
    }
}

/// Finds the first newline byte, returning the text length when none occurs.
pub fn find_newline(s: &Vec<u8>) -> (r: usize)
    ensures
        r == first_newline(s@),
{
    let n: usize = s.len();
    let mut i: usize = 0;
    while i < n
        invariant
            0 <= i <= n,
            n == s@.len(),
            first_newline(s@) == first_newline_from(s@, i as int),
        decreases n - i,
    {
        if s[i] == 10 {
            return i;
        }
        i = i + 1;
    }
    n
}

/// One block of the user document, as the walk models it.
pub ghost struct BlockModel {
    pub start: int,
    pub end: int,
    pub inline: bool,
}

/// State of the walk over the top-level nodes.
pub ghost struct WalkState {
    pub blocks: Seq<BlockModel>,
    pub in_block: bool,
    pub last_statement: bool,
}

/// Closes the last block: fixes its end and records whether its content is
/// wrapped in a layout-break directive.
pub open spec fn close_last(blocks: Seq<BlockModel>, new_end: int, wrapped: bool) -> Seq<
    BlockModel,
> {
    blocks.update(
        blocks.len() - 1,
        BlockModel { start: blocks.last().start, end: new_end, inline: wrapped },
    )
}

/// One step of the walk, consuming one top-level node.
pub open spec fn walk_step(st: WalkState, n: NodeImage) -> WalkState {
    if n.0 == n.1 {
        st
    } else if first_newline(n.3) < n.3.len() {
        if st.in_block {
            WalkState {
                blocks: close_last(st.blocks, n.0 + first_newline(n.3), !st.last_statement),
                in_block: false,
                last_statement: st.last_statement,
            }
        } else {
            st
        }
    } else if spec_is_pagebreak(n.4) {
        if st.in_block {
            WalkState {
                blocks: close_last(st.blocks, st.blocks.last().end, !st.last_statement),
                in_block: false,
                last_statement: st.last_statement,
            }
        } else {
            st
        }
    } else if st.in_block {
        WalkState {
            blocks: st.blocks.update(
                st.blocks.len() - 1,
                BlockModel {
                    start: st.blocks.last().start,
                    end: n.1 as int,
                    inline: st.blocks.last().inline,
                },
            ),
            in_block: true,
            last_statement: spec_is_statement_name(n.2),
        }
    } else {
        WalkState {
            blocks: st.blocks.push(BlockModel { start: n.0 as int, end: n.1 as int, inline: false }),
            in_block: true,
            last_statement: spec_is_statement_name(n.2),
        }
    }
}

/// The walk over a node list, starting outside any block.
pub open spec fn walk_nodes(ns: Seq<NodeImage>) -> WalkState
    decreases ns.len(),
{
    if ns.len() == 0 {
        WalkState { blocks: Seq::empty(), in_block: false, last_statement: false }
    } else {
        walk_step(walk_nodes(ns.drop_last()), ns.last())
    }
}

/// The block partition of a node list: the walk's blocks, with a still-open
/// trailing block flushed the same way a closing node would flush it.
pub open spec fn blocks_of(ns: Seq<NodeImage>) -> Seq<BlockModel> {
    let st = walk_nodes(ns);
    if st.in_block {
        close_last(st.blocks, st.blocks.last().end, !st.last_statement)
    } else {
        st.blocks
    }
}

/// The directive that opens a wrapped block: forces a layout break so that
/// each block is independently height-measurable and has an independent error
/// surface.
pub open spec fn spec_block_prefix() -> Seq<u8> {
    encode_utf8("#block(stroke:red,width:100%)["@)
}

/// The synthesized text starts with the prelude, terminated by a newline.
pub open spec fn base_of(prelude: Seq<u8>) -> Seq<u8> {
    prelude + seq![10u8]
}

/// The segment one block contributes to the synthesized text: a newline,
/// then the block's bytes, wrapped in the layout-break directive when the
/// block was closed by content.
pub open spec fn seg_of(bytes: Seq<u8>, start: int, end: int, wrapped: bool) -> Seq<u8> {
    if wrapped {
        seq![10u8] + spec_block_prefix() + bytes.subrange(start, end) + seq![93u8]
    } else {
        seq![10u8] + bytes.subrange(start, end)
    }
}

/// The synthesized text: the base followed by one segment per block.
pub open spec fn ir_of(bytes: Seq<u8>, base: Seq<u8>, blocks: Seq<BlockModel>) -> Seq<u8>
    decreases blocks.len(),
{
    if blocks.len() == 0 {
        base
    } else {
        ir_of(bytes, base, blocks.drop_last()) + seg_of(
            bytes,
            blocks.last().start,
            blocks.last().end,
            blocks.last().inline,
        )
    }
}

/// Position in the synthesized text where a segment's verbatim content
/// begins, given the length of the text before the segment.
pub open spec fn content_pos(irlen: int, wrapped: bool) -> int {
    irlen + 1 + if wrapped {
        spec_block_prefix().len() as int
    } else {
        0
    }
}

/// The inflection pairs the blocks contribute: for each block, one pair at
/// its content start and one at its content end.
pub open spec fn infl_pairs(bytes: Seq<u8>, base: Seq<u8>, blocks: Seq<BlockModel>) -> Seq<
    (usize, usize),
>
    decreases blocks.len(),
{
    if blocks.len() == 0 {
        Seq::empty()
    } else {
        let b = blocks.last();
        let pos = content_pos(ir_of(bytes, base, blocks.drop_last()).len() as int, b.inline);
        infl_pairs(bytes, base, blocks.drop_last()) + seq![
            (b.start as usize, pos as usize),
            (b.end as usize, (pos + (b.end - b.start)) as usize),
        ]
    }
}

/// The full inflection sequence: a leading pair mapping user offset 0 to the
/// end of the base stands first, except when the first block itself starts at
/// offset 0 (there is then no content before the first block for it to
/// govern, and it would collide with that block's own pair).
pub open spec fn mapper_of(bytes: Seq<u8>, base: Seq<u8>, blocks: Seq<BlockModel>) -> Seq<
    (usize, usize),
> {
    if blocks.len() == 0 || blocks[0].start > 0 {
        seq![(0usize, base.len() as usize)] + infl_pairs(bytes, base, blocks)
    } else {
        infl_pairs(bytes, base, blocks)
    }
}

/// Blocks lie within the text, are nonempty, and are ordered and disjoint.
pub open spec fn blocks_valid(bs: Seq<BlockModel>, n: int) -> bool {
    &&& forall|i: int| 0 <= i < bs.len() ==> 0 <= (#[trigger] bs[i]).start < bs[i].end <= n
    &&& forall|i: int| 0 <= i < bs.len() - 1 ==> (#[trigger] bs[i]).end < bs[i + 1].start
}

/// Node `j` starts where node `j - 1` ends (at 0 for the first node) and ends
/// within the text.
pub proof fn lemma_nodes_cover_bounds(s: Seq<RawNode>, bytes: Seq<u8>, j: int)
    requires
        nodes_cover(s, bytes),
        0 <= j < s.len(),
    ensures
        s[j].end <= bytes.len(),
        s[j].start == if j == 0 {
            0int
        } else {
            s[j - 1].end as int
        },
    decreases s.len() - j,
{
    if j < s.len() - 1 {
        lemma_nodes_cover_bounds(s, bytes, j + 1);
    } else {
        assert(s.last() == s[j]);
    }
}

/// A contiguous range of the user document's top-level nodes that forms one
/// independently recompilable unit. `is_inline` marks a block whose content
/// was wrapped in the layout-break directive.
#[derive(Clone, Copy, Debug, PartialEq, Eq, Structural)]
pub struct AstBlock {
    pub start: usize,
    pub end: usize,
    pub is_inline: bool,
}

/// Image of a block list as the walk models it.
pub open spec fn block_models(s: Seq<AstBlock>) -> Seq<BlockModel> {
    Seq::new(
        s.len(),
        |i: int| BlockModel { start: s[i].start as int, end: s[i].end as int, inline: s[i].is_inline },
    )
}

/// Result of one synthesis pass: the synthesized text, the block partition,
/// and the inflections that map between the two documents.
pub struct SynthOutput {
    pub ir: Vec<u8>,
    pub blocks: Vec<AstBlock>,
    pub mapper: IndexMapper,
}

/// Appends `bytes[start..end]` to `ir`.
pub(crate) fn append_range(ir: &mut Vec<u8>, bytes: &Vec<u8>, start: usize, end: usize)
    requires
        start <= end <= bytes@.len(),
    ensures
        final(ir)@ == old(ir)@ + bytes@.subrange(start as int, end as int),
{
    let mut k: usize = start;
    while k < end
        invariant
            start <= k <= end <= bytes@.len(),
            ir@ == old(ir)@ + bytes@.subrange(start as int, k as int),
        decreases end - k,
    {
        ir.push(bytes[k]);
        proof {
            assert(bytes@.subrange(start as int, k + 1) =~= bytes@.subrange(
                start as int,
                k as int,
            ).push(bytes@[k as int]));
        }
        k = k + 1;
    }
    proof {
        assert(ir@ =~= old(ir)@ + bytes@.subrange(start as int, end as int));
    }
}

/// The block-opening directive, as bytes.
fn block_prefix() -> (r: Vec<u8>)
    ensures
        r@ == spec_block_prefix(),
{
    "#block(stroke:red,width:100%)[".as_bytes_vec()
}

/// Emits one closed block: appends its segment to the synthesized text and
/// records the inflection pair at its content start and content end.
fn flush_block(
    ir: &mut Vec<u8>,
    mapper: &mut IndexMapper,
    bytes: &Vec<u8>,
    start: usize,
    end: usize,
    wrapped: bool,
)
    requires
        start < end <= bytes@.len(),
        inflections_wf(old(mapper)@),
        old(mapper)@.len() > 0 ==> old(mapper)@.last().0 < start,
        old(mapper)@.len() > 0 ==> old(mapper)@.last().1 <= old(ir)@.len(),
    ensures
        final(ir)@ == old(ir)@ + seg_of(bytes@, start as int, end as int, wrapped),
        final(mapper)@ == old(mapper)@ + seq![
            (start, content_pos(old(ir)@.len() as int, wrapped) as usize),
            (end, (content_pos(old(ir)@.len() as int, wrapped) + (end - start)) as usize),
        ],
        inflections_wf(final(mapper)@),
        final(mapper)@.last().0 == end,
        final(mapper)@.last().1 <= final(ir)@.len(),
{
    let ghost irlen0 = ir@.len() as int;
    ir.push(10u8);
    if wrapped {
        let mut p = block_prefix();
        ir.append(&mut p);
    }
    let pos: usize = ir.len();
    assert(pos == content_pos(irlen0, wrapped));
    let ghost m0 = mapper@;
    mapper.add_main_to_aux(start, pos);
    append_range(ir, bytes, start, end);
    let content_end: usize = ir.len();
    mapper.add_main_to_aux(end, content_end);
    if wrapped {
        ir.push(93u8);
    }
    proof {
        assert(final(ir)@ =~= old(ir)@ + seg_of(bytes@, start as int, end as int, wrapped));
        let m2 = m0.push((start, pos)).push((end, content_end));
        assert(mapper@ == m2);
        assert(mapper@ =~= m0 + seq![(start, pos), (end, content_end)]);
        assert forall|a: int, b: int| 0 <= a < b < m2.len() implies (#[trigger] m2[a]).0
            < (#[trigger] m2[b]).0 && m2[a].1 < m2[b].1 by {
            if b >= m0.len() && a < m0.len() {
                if a < m0.len() - 1 {
                    assert(m0[a].0 < m0[m0.len() - 1].0 && m0[a].1 < m0[m0.len() - 1].1);
                }
            }
        }
    }
}

/// Frontier of the walk before node `j`: the end of the previous node, 0 at
/// the start.
pub open spec fn front_of(ns: Seq<NodeImage>, j: int) -> int {
    if j == 0 {
        0
    } else {
        ns[j - 1].1 as int
    }
}

/// The blocks already emitted to the synthesized text: all of them, or all
/// but the still-open last one.
pub open spec fn closed_blocks(bs: Seq<BlockModel>, in_block: bool) -> Seq<BlockModel> {
    if in_block {
        bs.drop_last()
    } else {
        bs
    }
}

/// The leading inflection pair, present unless the first block itself starts
/// at offset 0 (its own pair would then collide with it).
pub open spec fn opt_init(bs: Seq<BlockModel>, base: Seq<u8>) -> Seq<(usize, usize)> {
    if bs.len() == 0 || bs[0].start > 0 {
        seq![(0usize, base.len() as usize)]
    } else {
        Seq::empty()
    }
}

/// The inflections recorded while the walk stands at block list `bs`: none
/// before the first block opens, afterwards the leading pair (when due) and
/// the pairs of the emitted blocks.
pub open spec fn partial_mapper(
    bytes: Seq<u8>,
    base: Seq<u8>,
    bs: Seq<BlockModel>,
    in_block: bool,
) -> Seq<(usize, usize)> {
    if bs.len() == 0 {
        Seq::empty()
    } else {
        opt_init(bs, base) + infl_pairs(bytes, base, closed_blocks(bs, in_block))
    }
}

/// Closes the still-open last block at `new_end` and emits it.
fn close_and_flush(
    ir: &mut Vec<u8>,
    mapper: &mut IndexMapper,
    blocks: &mut Vec<AstBlock>,
    bytes: &Vec<u8>,
    new_end: usize,
    wrapped: bool,
    Ghost(base): Ghost<Seq<u8>>,
)
    requires
        old(blocks)@.len() > 0,
        (old(blocks)@.last().start as int) < new_end <= bytes@.len(),
        old(ir)@ == ir_of(bytes@, base, block_models(old(blocks)@).drop_last()),
        old(mapper)@ == partial_mapper(bytes@, base, block_models(old(blocks)@), true),
        inflections_wf(old(mapper)@),
        old(mapper)@.len() > 0 ==> old(mapper)@.last().1 <= old(ir)@.len(),
        old(mapper)@.len() > 0 ==> (old(mapper)@.last().0 as int) < old(blocks)@.last().start
            as int,
    ensures
        block_models(final(blocks)@) == close_last(
            block_models(old(blocks)@),
            new_end as int,
            wrapped,
        ),
        final(blocks)@.len() == old(blocks)@.len(),
        final(blocks)@[0].start == old(blocks)@[0].start,
        final(blocks)@.last().start == old(blocks)@.last().start,
        final(blocks)@.last().end == new_end,
        final(ir)@ == ir_of(bytes@, base, block_models(final(blocks)@)),
        final(mapper)@ == partial_mapper(bytes@, base, block_models(final(blocks)@), false),
        inflections_wf(final(mapper)@),
        final(mapper)@.len() > 0,
        final(mapper)@.last().0 == new_end,
        final(mapper)@.last().1 <= final(ir)@.len(),
{
    let ghost bs0 = block_models(blocks@);
    let b = blocks.pop().unwrap();
    let nb = AstBlock { start: b.start, end: new_end, is_inline: wrapped };
    blocks.push(nb);
    proof {
        assert(block_models(blocks@) =~= close_last(bs0, new_end as int, wrapped));
        assert(block_models(blocks@).drop_last() =~= bs0.drop_last());
    }
    flush_block(ir, mapper, bytes, b.start, new_end, wrapped);
    proof {
        let closed = block_models(blocks@);
        assert(closed.drop_last() =~= bs0.drop_last());
        assert(closed.last() == BlockModel {
            start: b.start as int,
            end: new_end as int,
            inline: wrapped,
        });
        assert(infl_pairs(bytes@, base, closed) =~= infl_pairs(bytes@, base, closed.drop_last())
            + seq![
            (
                closed.last().start as usize,
                content_pos(
                    ir_of(bytes@, base, closed.drop_last()).len() as int,
                    closed.last().inline,
                ) as usize,
            ),
            (
                closed.last().end as usize,
                (content_pos(
                    ir_of(bytes@, base, closed.drop_last()).len() as int,
                    closed.last().inline,
                ) + (closed.last().end - closed.last().start)) as usize,
            ),
        ]);
        assert(opt_init(closed, base) == opt_init(bs0, base));
        assert(mapper@ =~= partial_mapper(bytes@, base, closed, false));
    }
}

/// Synthesizes the compilable document from the user text (as bytes), its
/// parsed top-level nodes and the injected prelude: the synthesized text, the
/// block partition and the inflections that map between the two documents.
#[verifier::rlimit(60)]
pub fn synthesize(bytes: &Vec<u8>, nodes: &Vec<RawNode>, prelude: &Vec<u8>) -> (r: SynthOutput)
    requires
        nodes_cover(nodes@, bytes@),
    ensures
        block_models(r.blocks@) == blocks_of(raw_nodes_view(nodes@)),
        r.ir@ == ir_of(bytes@, base_of(prelude@), blocks_of(raw_nodes_view(nodes@))),
        r.mapper@ == mapper_of(bytes@, base_of(prelude@), blocks_of(raw_nodes_view(nodes@))),
        inflections_wf(r.mapper@),
        blocks_valid(blocks_of(raw_nodes_view(nodes@)), bytes@.len() as int),
{
    let ghost ns = raw_nodes_view(nodes@);
    let ghost base = base_of(prelude@);

    let mut ir: Vec<u8> = Vec::new();
    append_range(&mut ir, prelude, 0, prelude.len());
    ir.push(10u8);
    proof {
        assert(prelude@.subrange(0, prelude@.len() as int) =~= prelude@);
        assert(ir@ =~= base);
    }
    let base_len: usize = ir.len();

    let mut mapper = IndexMapper::new();
    let mut blocks: Vec<AstBlock> = Vec::new();
    let mut in_block: bool = false;
    let mut last_statement: bool = false;

    let n: usize = nodes.len();
    let mut j: usize = 0;

    proof {
        assert(ns.take(0) =~= Seq::<NodeImage>::empty());
    }

    while j < n
        invariant
            j <= n,
            n == nodes@.len(),
            ns == raw_nodes_view(nodes@),
            base == base_of(prelude@),
            base_len == base.len(),
            nodes_cover(nodes@, bytes@),
            block_models(blocks@) == walk_nodes(ns.take(j as int)).blocks,
            in_block == walk_nodes(ns.take(j as int)).in_block,
            last_statement == walk_nodes(ns.take(j as int)).last_statement,
            in_block ==> blocks@.len() > 0,
            ir@ == ir_of(bytes@, base, closed_blocks(block_models(blocks@), in_block)),
            mapper@ == partial_mapper(bytes@, base, block_models(blocks@), in_block),
            inflections_wf(mapper@),
            mapper@.len() > 0 ==> mapper@.last().1 <= ir@.len(),
            in_block && mapper@.len() > 0 ==> (mapper@.last().0 as int) < blocks@.last().start
                as int,
            !in_block && mapper@.len() > 0 ==> (mapper@.last().0 as int) < front_of(ns, j as int),
            forall|i: int|
                0 <= i < blocks@.len() ==> 0 <= (#[trigger] block_models(blocks@)[i]).start
                    < block_models(blocks@)[i].end <= bytes@.len(),
            forall|i: int|
                0 <= i < blocks@.len() - 1 ==> (#[trigger] block_models(blocks@)[i]).end
                    < block_models(blocks@)[i + 1].start,
            in_block ==> blocks@.last().end as int == front_of(ns, j as int),
            !in_block && blocks@.len() > 0 ==> (blocks@.last().end as int) < front_of(
                ns,
                j as int,
            ),
            front_of(ns, j as int) <= bytes@.len(),
        decreases n - j,
    {
        let ghost st = walk_nodes(ns.take(j as int));
        proof {
            assert(ns.take(j + 1).drop_last() =~= ns.take(j as int));
            assert(ns.take(j + 1).last() == ns[j as int]);
            lemma_nodes_cover_bounds(nodes@, bytes@, j as int);
        }
        let node_start = nodes[j].start;
        let node_end = nodes[j].end;

        if node_start == node_end {
            // an empty node neither starts nor extends a block
        } else {
            let nl = find_newline(&nodes[j].leaf_text);
            proof {
                lemma_first_newline_bounds(nodes@[j as int].leaf_text@, 0);
            }
            if nl < nodes[j].leaf_text.len() {
                if in_block {
                    proof {
                        assert(nodes@[j as int].leaf_text@ == bytes@.subrange(
                            node_start as int,
                            node_end as int,
                        ));
                    }
                    close_and_flush(
                        &mut ir,
                        &mut mapper,
                        &mut blocks,
                        bytes,
                        node_start + nl,
                        !last_statement,
                        Ghost(base),
                    );
                    in_block = false;
                }
            } else if is_pagebreak(&nodes[j].callee) {
                if in_block {
                    let ne = blocks[blocks.len() - 1].end;
                    close_and_flush(
                        &mut ir,
                        &mut mapper,
                        &mut blocks,
                        bytes,
                        ne,
                        !last_statement,
                        Ghost(base),
                    );
                    in_block = false;
                }
            } else {
                let stmt = is_statement_name(&nodes[j].kind_name);
                if in_block {
                    let ghost bs0 = block_models(blocks@);
                    let b = blocks.pop().unwrap();
                    let nb = AstBlock { start: b.start, end: node_end, is_inline: b.is_inline };
                    blocks.push(nb);
                    proof {
                        assert(block_models(blocks@) =~= bs0.update(
                            bs0.len() - 1,
                            BlockModel {
                                start: bs0.last().start,
                                end: node_end as int,
                                inline: bs0.last().inline,
                            },
                        ));
                        assert(block_models(blocks@).drop_last() =~= bs0.drop_last());
                        assert(opt_init(block_models(blocks@), base) == opt_init(bs0, base));
                    }
                } else {
                    let ghost bs0 = block_models(blocks@);
                    if blocks.len() == 0 && node_start > 0 {
                        mapper.add_main_to_aux(0, base_len);
                    }
                    blocks.push(AstBlock { start: node_start, end: node_end, is_inline: false });
                    proof {
                        assert(block_models(blocks@) =~= bs0.push(
                            BlockModel { start: node_start as int, end: node_end as int, inline: false },
                        ));
                        assert(block_models(blocks@).drop_last() =~= bs0);
                        if bs0.len() > 0 {
                            assert(opt_init(block_models(blocks@), base) == opt_init(bs0, base));
                        }
                    }
                    in_block = true;
                }
                last_statement = stmt;
            }
        }
        j = j + 1;
    }

    proof {
        assert(ns.take(n as int) =~= ns);
    }

    if in_block {
        let ne = blocks[blocks.len() - 1].end;
        close_and_flush(&mut ir, &mut mapper, &mut blocks, bytes, ne, !last_statement, Ghost(base));
        proof {
            assert(block_models(blocks@) =~= blocks_of(ns));
            assert(mapper@ =~= mapper_of(bytes@, base, blocks_of(ns)));
        }
    } else if blocks.len() == 0 {
        mapper.add_main_to_aux(0, base_len);
        proof {
            assert(blocks_of(ns) =~= Seq::<BlockModel>::empty());
            assert(mapper@ =~= mapper_of(bytes@, base, blocks_of(ns)));
        }
    } else {
        proof {
            assert(block_models(blocks@) =~= blocks_of(ns));
            assert(mapper@ =~= mapper_of(bytes@, base, blocks_of(ns)));
        }
    }

    SynthOutput { ir, blocks, mapper }
}

/// Parses the user text and synthesizes the compilable document from it and
/// the injected prelude. The parse result is a function of the text alone, so
/// identical text and prelude yield an identical synthesis.
pub fn sync_source_context(text: &str, prelude: &Vec<u8>) -> (r: SynthOutput)
    ensures
        block_models(r.blocks@) == blocks_of(parsed_markup(text@)),
        r.ir@ == ir_of(encode_utf8(text@), base_of(prelude@), blocks_of(parsed_markup(text@))),
        r.mapper@ == mapper_of(
            encode_utf8(text@),
            base_of(prelude@),
            blocks_of(parsed_markup(text@)),
        ),
        inflections_wf(r.mapper@),
        blocks_valid(blocks_of(parsed_markup(text@)), encode_utf8(text@).len() as int),
{
    let nodes = parse_markup(text);
    let bytes: Vec<u8> = text.as_bytes_vec();
    synthesize(&bytes, &nodes, prelude)
}

/// Blocks are strictly ordered: an earlier block ends before a later one
/// starts.
pub proof fn lemma_blocks_ordered(bs: Seq<BlockModel>, n: int, i: int, j: int)
    requires
        blocks_valid(bs, n),
        0 <= i < j < bs.len(),
    ensures
        bs[i].end < bs[j].start,
    decreases j - i,
{
    if i + 1 < j {
        lemma_blocks_ordered(bs, n, i, j - 1);
    }
}

/// The synthesized text of a block prefix is a prefix of the synthesized
/// text of the whole block list.
pub proof fn lemma_ir_prefix(bytes: Seq<u8>, base: Seq<u8>, blocks: Seq<BlockModel>, k: int)
    requires
        0 <= k <= blocks.len(),
    ensures
        ir_of(bytes, base, blocks.take(k)).len() <= ir_of(bytes, base, blocks).len(),
        ir_of(bytes, base, blocks).subrange(
            0,
            ir_of(bytes, base, blocks.take(k)).len() as int,
        ) == ir_of(bytes, base, blocks.take(k)),
    decreases blocks.len() - k,
{
    if k == blocks.len() {
        assert(blocks.take(k) =~= blocks);
        assert(ir_of(bytes, base, blocks).subrange(0, ir_of(bytes, base, blocks).len() as int)
            =~= ir_of(bytes, base, blocks));
    } else {
        assert(blocks.take(k + 1).drop_last() =~= blocks.take(k));
        assert(blocks.take(k + 1).last() == blocks[k]);
        lemma_ir_prefix(bytes, base, blocks, k + 1);
        let shorter = ir_of(bytes, base, blocks.take(k));
        let longer = ir_of(bytes, base, blocks.take(k + 1));
        assert(longer.subrange(0, shorter.len() as int) =~= shorter);
        assert(ir_of(bytes, base, blocks).subrange(0, shorter.len() as int) =~= ir_of(
            bytes,
            base,
            blocks,
        ).subrange(0, longer.len() as int).subrange(0, shorter.len() as int));
    }
}

/// A query strictly before the last block's start is governed by the earlier
/// inflections alone.
proof fn lemma_translate_skip_last(bytes: Seq<u8>, base: Seq<u8>, blocks: Seq<BlockModel>, x: int)
    requires
        blocks_valid(blocks, bytes.len() as int),
        blocks.len() >= 1,
        0 <= x < blocks.last().start,
        bytes.len() <= usize::MAX,
    ensures
        translate_aux_to_main(mapper_of(bytes, base, blocks), x) == translate_aux_to_main(
            mapper_of(bytes, base, blocks.drop_last()),
            x,
        ),
{
    let b = blocks.last();
    let rest = blocks.drop_last();
    let pos = content_pos(ir_of(bytes, base, rest).len() as int, b.inline);
    let pair1 = (b.start as usize, pos as usize);
    let pair2 = (b.end as usize, (pos + (b.end - b.start)) as usize);
    let m = mapper_of(bytes, base, blocks);
    assert(infl_pairs(bytes, base, blocks) =~= infl_pairs(bytes, base, rest) + seq![pair1, pair2]);
    if blocks.len() == 1 {
        // the single block starts after x >= 0, so it starts past 0 and the
        // leading pair is present on both sides
        assert(m =~= seq![(0usize, base.len() as usize)] + seq![pair1, pair2]);
        assert(m.drop_last() =~= seq![(0usize, base.len() as usize), pair1]);
        assert(m.drop_last().drop_last() =~= seq![(0usize, base.len() as usize)]);
        assert(mapper_of(bytes, base, rest) =~= seq![(0usize, base.len() as usize)]);
    } else {
        assert(blocks[0] == rest[0]);
        assert(m =~= mapper_of(bytes, base, rest) + seq![pair1, pair2]);
        assert(m.drop_last() =~= mapper_of(bytes, base, rest) + seq![pair1]);
        assert(m.drop_last().drop_last() =~= mapper_of(bytes, base, rest));
    }
    assert(m.last() == pair2);
    assert(m.last().0 as int == b.end);
    assert(b.start < b.end);
    assert(translate_aux_to_main(m, x) == translate_aux_to_main(m.drop_last(), x));
    assert(m.drop_last().last() == pair1);
    assert(m.drop_last().last().0 as int == b.start);
    assert(translate_aux_to_main(m.drop_last(), x) == translate_aux_to_main(
        m.drop_last().drop_last(),
        x,
    ));
    assert(m.drop_last().drop_last() =~= mapper_of(bytes, base, rest));
}

/// Correspondence law: within any block, the recorded inflections translate
/// each user offset linearly to its content position in the synthesized
/// text, and the block's bytes stand there verbatim. This is what lets the
/// compile loop neutralize exactly one block and lets diagnostics travel
/// back to the user range they arose from.
pub proof fn lemma_content_correspondence(
    bytes: Seq<u8>,
    base: Seq<u8>,
    blocks: Seq<BlockModel>,
    i: int,
)
    requires
        blocks_valid(blocks, bytes.len() as int),
        0 <= i < blocks.len(),
        bytes.len() <= usize::MAX,
        ir_of(bytes, base, blocks).len() <= usize::MAX,
    ensures
        ({
            let m = mapper_of(bytes, base, blocks);
            let p = content_pos(ir_of(bytes, base, blocks.take(i)).len() as int, blocks[i].inline);
            &&& forall|x: int|
                blocks[i].start <= x <= blocks[i].end ==> translate_aux_to_main(m, x) == p + (
                x - blocks[i].start)
            &&& ir_of(bytes, base, blocks).subrange(p, p + (blocks[i].end - blocks[i].start))
                == bytes.subrange(blocks[i].start, blocks[i].end)
        }),
    decreases blocks.len(),
{
    let m = mapper_of(bytes, base, blocks);
    let b = blocks[i];
    let p = content_pos(ir_of(bytes, base, blocks.take(i)).len() as int, b.inline);
    let rest = blocks.drop_last();
    if i == blocks.len() - 1 {
        assert(blocks.take(i) =~= rest);
        let pos = content_pos(ir_of(bytes, base, rest).len() as int, b.inline);
        let pair1 = (b.start as usize, pos as usize);
        let pair2 = (b.end as usize, (pos + (b.end - b.start)) as usize);
        assert(infl_pairs(bytes, base, blocks) =~= infl_pairs(bytes, base, rest) + seq![
            pair1,
            pair2,
        ]);
        assert(m.last() == pair2);
        assert(m.drop_last().last() == pair1);
        assert(m.drop_last().drop_last() =~= opt_init(blocks, base) + infl_pairs(
            bytes,
            base,
            rest,
        ));
        // positions fit the machine word: the content lies within the text
        lemma_ir_prefix(bytes, base, blocks, blocks.len() - 1);
        assert(ir_of(bytes, base, blocks) =~= ir_of(bytes, base, rest) + seg_of(
            bytes,
            b.start,
            b.end,
            b.inline,
        ));
        assert(seg_of(bytes, b.start, b.end, b.inline).len() == (if b.inline {
            2 + spec_block_prefix().len() + (b.end - b.start)
        } else {
            1 + (b.end - b.start)
        }));
        assert(0 <= pos && pos + (b.end - b.start) <= ir_of(bytes, base, blocks).len());
        assert forall|x: int| b.start <= x <= b.end implies translate_aux_to_main(m, x) == p + (
            x - b.start) by {
            if x == b.end {
                assert(translate_aux_to_main(m, x) == pos + (b.end - b.start));
            } else {
                assert(translate_aux_to_main(m, x) == translate_aux_to_main(m.drop_last(), x));
                assert(translate_aux_to_main(m.drop_last(), x) == pos + (x - b.start));
            }
        }
        assert(ir_of(bytes, base, blocks).subrange(p, p + (b.end - b.start)) =~= bytes.subrange(
            b.start,
            b.end,
        ));
    } else {
        assert(blocks_valid(rest, bytes.len() as int)) by {
            assert(forall|a: int|
                0 <= a < rest.len() ==> (#[trigger] rest[a]) == blocks[a]);
        }
        lemma_blocks_ordered(blocks, bytes.len() as int, i, blocks.len() - 1);
        lemma_ir_prefix(bytes, base, blocks, blocks.len() - 1);
        assert(blocks.take(blocks.len() - 1) =~= rest);
        assert(rest.take(i) =~= blocks.take(i));
        lemma_content_correspondence(bytes, base, rest, i);
        let mrest = mapper_of(bytes, base, rest);
        assert forall|x: int| b.start <= x <= b.end implies translate_aux_to_main(m, x) == p + (
            x - b.start) by {
            lemma_translate_skip_last(bytes, base, blocks, x);
            assert(translate_aux_to_main(mrest, x) == p + (x - b.start));
        }
        // the content region lies inside the shorter text, which is a prefix
        let irrest = ir_of(bytes, base, rest);
        lemma_ir_prefix(bytes, base, rest, i + 1);
        assert(rest.take(i + 1).drop_last() =~= rest.take(i));
        assert(rest.take(i + 1).last() == b);
        assert(p + (b.end - b.start) <= irrest.len());
        assert(ir_of(bytes, base, blocks).subrange(p, p + (b.end - b.start)) =~= irrest.subrange(
            p,
            p + (b.end - b.start),
        ));
    }
}

/// Idempotence law, synthesis side: identical user text and prelude yield an
/// identical block partition, an identical synthesized text and an identical
/// inflection mapper; the external parse, being a function of the text alone,
/// cannot tell the two runs apart.
pub proof fn lemma_synthesis_idempotent(
    text1: Seq<char>,
    text2: Seq<char>,
    prelude1: Seq<u8>,
    prelude2: Seq<u8>,
)
    requires
        text1 == text2,
        prelude1 == prelude2,
    ensures
        blocks_of(parsed_markup(text1)) == blocks_of(parsed_markup(text2)),
        ir_of(encode_utf8(text1), base_of(prelude1), blocks_of(parsed_markup(text1))) == ir_of(
            encode_utf8(text2),
            base_of(prelude2),
            blocks_of(parsed_markup(text2)),
        ),
        mapper_of(encode_utf8(text1), base_of(prelude1), blocks_of(parsed_markup(text1)))
            == mapper_of(encode_utf8(text2), base_of(prelude2), blocks_of(parsed_markup(text2))),
{
}

} // verus!
