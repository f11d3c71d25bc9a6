use mnemo_engine::extract::{
    FrameBlock, VisualNode, add64, flatten_nodes, frame_with_bounds, render_by_items, sub64,
};
use mnemo_engine::index_mapper::IndexMapper;
use mnemo_engine::synth::AstBlock;
use mnemo_engine::utf_map::UtfIndexMapper;

fn text_node(x: i64, y: i64, size: i64, range: Option<(usize, usize)>, item: usize) -> VisualNode {
    VisualNode::Text { x, y, size, range, item, fp: item as u64 }
}

#[test]
fn saturating_coordinate_arithmetic() {
    assert_eq!(add64(2, 3), 5);
    assert_eq!(add64(i64::MAX, 1), i64::MAX);
    assert_eq!(add64(i64::MIN, -1), i64::MIN);
    assert_eq!(sub64(2, 3), -1);
    assert_eq!(sub64(i64::MIN, 1), i64::MIN);
    assert_eq!(sub64(i64::MAX, -1), i64::MAX);
}

#[test]
fn flattening_accumulates_group_offsets() {
    let tree = vec![VisualNode::Group {
        dx: 10,
        dy: 100,
        children: vec![
            text_node(1, 2, 16, Some((0, 5)), 0),
            VisualNode::Group {
                dx: 5,
                dy: 50,
                children: vec![VisualNode::Shape {
                    x: 0,
                    y: 0,
                    height: 7,
                    range: Some((5, 9)),
                    item: 1,
                    fp: 9,
                }],
            },
        ],
    }];
    let flat = flatten_nodes(&tree);
    assert_eq!(flat.len(), 2);
    // the text lands at the group offset
    assert_eq!(flat[0].x, 11);
    assert_eq!(flat[0].y, 102);
    // its extent reaches from its baseline up by its size, floored at 0
    assert_eq!(flat[0].start_height, 102 - 16);
    assert_eq!(flat[0].end_height, 102);
    // the nested shape accumulates both offsets and reaches down
    assert_eq!(flat[1].y, 150);
    assert_eq!(flat[1].start_height, 150);
    assert_eq!(flat[1].end_height, 157);
}

#[test]
fn text_extent_does_not_reach_above_zero() {
    let mut out: Vec<FrameBlock> = Vec::new();
    frame_with_bounds(&text_node(0, 5, 16, None, 0), 0, 0, &mut out);
    assert_eq!(out.len(), 1);
    assert_eq!(out[0].start_height, 0);
    assert_eq!(out[0].end_height, 5);
}

fn simple_setup() -> (Vec<AstBlock>, IndexMapper, UtfIndexMapper) {
    // two user blocks at bytes 0..5 and 10..15, mapped 1:1 plus 100 into the
    // synthesized document
    let blocks = vec![
        AstBlock { start: 0, end: 5, is_inline: true },
        AstBlock { start: 10, end: 15, is_inline: true },
    ];
    let mut mapper = IndexMapper::new();
    mapper.add_main_to_aux(0, 100);
    let utf = UtfIndexMapper::new("0123456789012345", 0);
    (blocks, mapper, utf)
}

#[test]
fn items_are_consumed_per_block_and_rehomed() {
    let (blocks, mapper, utf) = simple_setup();
    let tree = vec![
        text_node(0, 30, 10, Some((100, 104)), 0),
        text_node(0, 55, 10, Some((101, 105)), 1),
        text_node(0, 90, 10, Some((110, 114)), 2),
    ];
    let fbs = flatten_nodes(&tree);
    let frags = render_by_items(&blocks, &mapper, &utf, &fbs, None);

    assert_eq!(frags.len(), 2);
    // block one: two items, extent 20..55
    assert_eq!(frags[0].range, (0, 5));
    assert_eq!(frags[0].items.len(), 2);
    assert_eq!(frags[0].offset_height, 20);
    assert_eq!(frags[0].height, 35);
    // positions are re-homed to the block's start height
    assert_eq!(frags[0].items[0].y, 30 - 20);
    assert_eq!(frags[0].items[1].y, 55 - 20);
    // block two: one item, extent 80..90
    assert_eq!(frags[1].range, (10, 15));
    assert_eq!(frags[1].offset_height, 80);
    assert_eq!(frags[1].height, 10);
}

#[test]
fn rangeless_items_defer_to_the_next_ranged_item() {
    let (blocks, mapper, utf) = simple_setup();
    let tree = vec![
        VisualNode::Tag { x: 0, y: 1, item: 7, fp: 70 },
        text_node(0, 30, 10, Some((100, 104)), 0),
        text_node(0, 90, 10, Some((110, 114)), 1),
    ];
    let fbs = flatten_nodes(&tree);
    let frags = render_by_items(&blocks, &mapper, &utf, &fbs, None);
    assert_eq!(frags.len(), 2);
    // the tag is attached to the first block, after the item that landed it
    assert_eq!(frags[0].items.len(), 2);
    assert_eq!(frags[0].items[0].item, 0);
    assert_eq!(frags[0].items[1].item, 7);
    assert_eq!(frags[1].items.len(), 1);
}

#[test]
fn trailing_rangeless_items_join_the_last_fragment() {
    let (blocks, mapper, utf) = simple_setup();
    let tree = vec![
        text_node(0, 30, 10, Some((100, 104)), 0),
        text_node(0, 90, 10, Some((110, 114)), 1),
        VisualNode::Link { x: 0, y: 95, item: 9, fp: 90 },
    ];
    let fbs = flatten_nodes(&tree);
    let frags = render_by_items(&blocks, &mapper, &utf, &fbs, None);
    assert_eq!(frags.len(), 2);
    assert_eq!(frags[1].items.len(), 2);
    assert_eq!(frags[1].items[1].item, 9);
}

#[test]
fn blocks_without_height_or_past_cutoff_are_skipped() {
    let (blocks, mapper, utf) = simple_setup();
    // only the second block has an item; the first produces no fragment
    let tree = vec![text_node(0, 90, 10, Some((110, 114)), 0)];
    let fbs = flatten_nodes(&tree);
    let frags = render_by_items(&blocks, &mapper, &utf, &fbs, None);
    assert_eq!(frags.len(), 1);
    assert_eq!(frags[0].range, (10, 15));

    // a cutoff above the remaining block's start suppresses it too
    let frags2 = render_by_items(&blocks, &mapper, &utf, &fbs, Some(50));
    assert_eq!(frags2.len(), 0);
}

#[test]
fn identical_runs_yield_identical_content_hashes() {
    let (blocks, mapper, utf) = simple_setup();
    let tree = vec![
        text_node(0, 30, 10, Some((100, 104)), 0),
        text_node(0, 90, 10, Some((110, 114)), 1),
    ];
    let fbs = flatten_nodes(&tree);
    let a = render_by_items(&blocks, &mapper, &utf, &fbs, None);
    let b = render_by_items(&blocks, &mapper, &utf, &fbs, None);
    assert_eq!(a.len(), b.len());
    for (x, y) in a.iter().zip(b.iter()) {
        assert_eq!(x.hash, y.hash);
        assert_eq!(x.range, y.range);
        assert_eq!(x.height, y.height);
    }
}

#[test]
fn heights_plus_gaps_telescope_to_the_document_span() {
    let (blocks, mapper, utf) = simple_setup();
    let tree = vec![
        text_node(0, 30, 10, Some((100, 104)), 0),
        text_node(0, 55, 10, Some((101, 105)), 1),
        text_node(0, 90, 10, Some((110, 114)), 2),
    ];
    let fbs = flatten_nodes(&tree);
    let frags = render_by_items(&blocks, &mapper, &utf, &fbs, None);
    assert!(frags.len() > 0);

    let heights: i64 = frags.iter().map(|f| f.height).sum();
    let mut gaps: i64 = 0;
    for w in frags.windows(2) {
        gaps += w[1].offset_height - (w[0].offset_height + w[0].height);
    }
    let first_top = frags[0].offset_height;
    let last = frags.last().unwrap();
    assert_eq!(heights + gaps, last.offset_height + last.height - first_top);
}
