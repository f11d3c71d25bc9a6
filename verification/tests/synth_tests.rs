use mnemo_engine::nodes::{RawNode, ascii_caseless_eq, is_pagebreak, is_statement_name};
use mnemo_engine::synth::{find_newline, sync_source_context, synthesize};

fn node(start: usize, end: usize, kind: &str, leaf: &[u8], callee: &str) -> RawNode {
    RawNode {
        start,
        end,
        kind_name: String::from(kind),
        leaf_text: leaf.to_vec(),
        callee: String::from(callee),
    }
}

const BLOCK_PREFIX: &str = "#block(stroke:red,width:100%)[";

#[test]
fn statement_kinds_are_classified() {
    for name in [
        "`let` expression",
        "`set` expression",
        "`show` expression",
        "`import` expression",
        "`include` expression",
        "`context` expression",
        "list item",
        "enum item",
        "term list item",
        "line break",
        "semicolon",
        "line comment",
        "block comment",
    ] {
        assert!(is_statement_name(&String::from(name)));
    }
    assert!(!is_statement_name(&String::from("text")));
    assert!(!is_statement_name(&String::from("equation")));
    assert!(!is_statement_name(&String::from("heading")));
}

#[test]
fn pagebreak_is_recognized_caselessly() {
    assert!(is_pagebreak(&String::from("pagebreak")));
    assert!(is_pagebreak(&String::from("PageBreak")));
    assert!(!is_pagebreak(&String::from("pagebreaks")));
    assert!(!is_pagebreak(&String::from("")));
    assert!(ascii_caseless_eq("AbC", "aBc"));
    assert!(!ascii_caseless_eq("ab", "abc"));
}

#[test]
fn find_newline_returns_length_when_absent() {
    assert_eq!(find_newline(&b"abc".to_vec()), 3);
    assert_eq!(find_newline(&b"a\nc".to_vec()), 1);
    assert_eq!(find_newline(&b"\n".to_vec()), 0);
    assert_eq!(find_newline(&Vec::new()), 0);
}

#[test]
fn single_content_block_is_wrapped() {
    let text = b"Hello".to_vec();
    let nodes = vec![node(0, 5, "text", b"Hello", "")];
    let prelude = b"P".to_vec();
    let out = synthesize(&text, &nodes, &prelude);

    assert_eq!(out.blocks.len(), 1);
    assert_eq!(out.blocks[0].start, 0);
    assert_eq!(out.blocks[0].end, 5);
    assert!(out.blocks[0].is_inline);

    let expected = format!("P\n\n{}Hello]", BLOCK_PREFIX);
    assert_eq!(out.ir, expected.as_bytes().to_vec());

    // content inflections: the content starts after base + newline + prefix
    let pos = 2 + 1 + BLOCK_PREFIX.len();
    assert_eq!(out.mapper.aux_to_main(0), pos);
    assert_eq!(out.mapper.aux_to_main(5), pos + 5);
    assert_eq!(&out.ir[pos..pos + 5], b"Hello");
}

#[test]
fn statement_block_is_appended_verbatim() {
    let text = b"#let x=1\n".to_vec();
    let nodes = vec![
        node(0, 8, "`let` expression", b"", ""),
        node(8, 9, "space", b"\n", ""),
    ];
    let prelude = b"P".to_vec();
    let out = synthesize(&text, &nodes, &prelude);

    assert_eq!(out.blocks.len(), 1);
    assert_eq!(out.blocks[0].start, 0);
    assert_eq!(out.blocks[0].end, 8);
    assert!(!out.blocks[0].is_inline);
    assert_eq!(out.ir, b"P\n\n#let x=1".to_vec());
    assert_eq!(out.mapper.aux_to_main(0), 3);
    assert_eq!(out.mapper.aux_to_main(8), 11);
}

#[test]
fn separator_extends_block_to_its_newline() {
    // "A b\nC": the separator " b\n"? here: node "A" then a space leaf " \n"
    // whose pre-newline space extends the block
    let text = b"A \nC".to_vec();
    let nodes = vec![
        node(0, 1, "text", b"A", ""),
        node(1, 3, "space", b" \n", ""),
        node(3, 4, "text", b"C", ""),
    ];
    let prelude = b"".to_vec();
    let out = synthesize(&text, &nodes, &prelude);

    assert_eq!(out.blocks.len(), 2);
    // first block extended by the space before the newline
    assert_eq!((out.blocks[0].start, out.blocks[0].end), (0, 2));
    assert!(out.blocks[0].is_inline);
    assert_eq!((out.blocks[1].start, out.blocks[1].end), (3, 4));
    assert!(out.blocks[1].is_inline);

    let expected = format!("\n\n{}A ]\n{}C]", BLOCK_PREFIX, BLOCK_PREFIX);
    assert_eq!(out.ir, expected.as_bytes().to_vec());

    // the mapped content of each block is verbatim
    let p0 = out.mapper.aux_to_main(0);
    assert_eq!(&out.ir[p0..p0 + 2], b"A ");
    let p1 = out.mapper.aux_to_main(3);
    assert_eq!(&out.ir[p1..p1 + 1], b"C");
}

#[test]
fn pagebreak_terminates_block_without_merging() {
    let text = b"A#pagebreak()B".to_vec();
    let nodes = vec![
        node(0, 1, "text", b"A", ""),
        node(1, 13, "function call", b"", "pagebreak"),
        node(13, 14, "text", b"B", ""),
    ];
    let prelude = b"".to_vec();
    let out = synthesize(&text, &nodes, &prelude);

    assert_eq!(out.blocks.len(), 2);
    assert_eq!((out.blocks[0].start, out.blocks[0].end), (0, 1));
    assert_eq!((out.blocks[1].start, out.blocks[1].end), (13, 14));
}

#[test]
fn leading_inflection_present_when_first_block_starts_late() {
    let text = b"\nA".to_vec();
    let nodes = vec![node(0, 1, "space", b"\n", ""), node(1, 2, "text", b"A", "")];
    let prelude = b"PRE".to_vec();
    let out = synthesize(&text, &nodes, &prelude);

    assert_eq!(out.blocks.len(), 1);
    assert_eq!((out.blocks[0].start, out.blocks[0].end), (1, 2));
    // content before the first block resolves to the end of the base
    assert_eq!(out.mapper.aux_to_main(0), 4);
}

#[test]
fn empty_document_synthesizes_base_only() {
    let text = Vec::new();
    let nodes = Vec::new();
    let prelude = b"PRE".to_vec();
    let out = synthesize(&text, &nodes, &prelude);
    assert_eq!(out.blocks.len(), 0);
    assert_eq!(out.ir, b"PRE\n".to_vec());
    assert_eq!(out.mapper.aux_to_main(0), 4);
}

#[test]
fn real_parse_partitions_paragraphs_into_blocks() {
    // exercises the external markup parser through the public entry point
    let prelude = b"".to_vec();
    let out = sync_source_context("Hello\n\nWorld\n", &prelude);

    assert_eq!(out.blocks.len(), 2);
    assert_eq!((out.blocks[0].start, out.blocks[0].end), (0, 5));
    assert_eq!((out.blocks[1].start, out.blocks[1].end), (7, 12));
    assert!(out.blocks[0].is_inline && out.blocks[1].is_inline);

    // each block's content stands verbatim at its mapped position
    let p0 = out.mapper.aux_to_main(0);
    assert_eq!(&out.ir[p0..p0 + 5], b"Hello");
    let p1 = out.mapper.aux_to_main(7);
    assert_eq!(&out.ir[p1..p1 + 5], b"World");
    // and the synthesized text is longer than the user text
    assert!(out.ir.len() > 13);
}

#[test]
fn real_parse_inlines_let_bindings() {
    let prelude = b"".to_vec();
    let out = sync_source_context("#let x = 1\n", &prelude);
    assert_eq!(out.blocks.len(), 1);
    assert!(!out.blocks[0].is_inline);
    let p0 = out.mapper.aux_to_main(out.blocks[0].start);
    let len = out.blocks[0].end - out.blocks[0].start;
    assert_eq!(&out.ir[p0..p0 + len], &b"#let x = 1"[..len]);
}
