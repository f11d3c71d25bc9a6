use mnemo_engine::diag::{DiagRecord, TypstDiagnostic, TypstDiagnosticSeverity, from_diagnostics};
use mnemo_engine::extract::{RangedFragment, VisualNode, flatten_nodes, render_by_items};
use mnemo_engine::nodes::RawNode;
use mnemo_engine::session::{CompileSession, FailureAction};
use mnemo_engine::synth::{sync_source_context, synthesize};
use mnemo_engine::utf_map::UtfIndexMapper;

fn error_at(start: usize, end: usize) -> DiagRecord {
    DiagRecord {
        severity: TypstDiagnosticSeverity::Error,
        message: String::from("expected expression"),
        hints: Vec::new(),
        main_range: Some((start, end)),
        trace_ranges: Vec::new(),
    }
}

fn text_item(main_start: usize, main_end: usize, item: usize, y: i64) -> VisualNode {
    VisualNode::Text {
        x: 0,
        y,
        size: 16,
        range: Some((main_start, main_end)),
        item,
        fp: 1000 + item as u64,
    }
}

#[test]
fn fault_isolation_blanks_only_the_errant_block() {
    // three blocks: B1 valid, B2 invalid, B3 valid
    let text = "good one\n\nbad one\n\ngood two\n";
    let prelude = b"".to_vec();
    let out = sync_source_context(text, &prelude);
    assert_eq!(out.blocks.len(), 3);
    let blocks: Vec<_> = out.blocks.clone();
    let ir_len = out.ir.len();

    let mut session = CompileSession::new(out);

    // the compiler reports an error inside B2's synthesized range; the
    // synthesis is a pure function of its inputs, so a second pass hands
    // back the same mapper the session holds
    let again = sync_source_context(text, &prelude);
    let ir_b2_start = again.mapper.aux_to_main(blocks[1].start);
    let ir_b2_end = again.mapper.aux_to_main(blocks[1].end);

    let diags = vec![error_at(ir_b2_start + 1, ir_b2_end - 1)];
    let action = session.on_failure(&diags);
    assert_eq!(action, FailureAction::Retry);
    assert!(!session.is_blanked(0));
    assert!(session.is_blanked(1));
    assert!(!session.is_blanked(2));

    // B2's bytes are replaced by an equal-length run of spaces: no shifts
    assert_eq!(session.current_ir().len(), ir_len);
    let blanked = session.current_ir();
    for k in ir_b2_start..ir_b2_end {
        assert_eq!(blanked[k], b' ');
    }

    // the retry succeeds; the text is reset to the original
    session.on_success();
    assert!(session.finished());
    assert!(!session.aborted());
    assert_eq!(session.invocations(), 2);
    assert_eq!(session.current_ir()[ir_b2_start], b'b');

    // B1 and B3 produce fragments, B2 none; the diagnostic localizes to B2
    let items = vec![
        text_item(
            again.mapper.aux_to_main(blocks[0].start),
            again.mapper.aux_to_main(blocks[0].end),
            0,
            20,
        ),
        text_item(
            again.mapper.aux_to_main(blocks[2].start),
            again.mapper.aux_to_main(blocks[2].end),
            1,
            60,
        ),
    ];
    let fbs = flatten_nodes(&items);
    let utf = UtfIndexMapper::new(text, 0);
    let out3 = sync_source_context(text, &prelude);
    let frags: Vec<RangedFragment> = render_by_items(&out3.blocks, &out3.mapper, &utf, &fbs, None);
    assert_eq!(frags.len(), 2);
    // fragments carry the user ranges of B1 and B3 in UTF-16 units
    assert_eq!(frags[0].range, (0, 8));
    assert_eq!(frags[1].range, (19, 27));

    // the one diagnostic maps to B2's user range
    let ds: Vec<TypstDiagnostic> =
        from_diagnostics(diags, &out3.mapper, &utf, text.encode_utf16().count());
    assert_eq!(ds.len(), 1);
    assert_eq!(ds[0].severity, TypstDiagnosticSeverity::Error);
    assert!(ds[0].range.0 >= 10 && ds[0].range.1 <= 17);
}

#[test]
fn unattributable_failure_aborts_with_all_diagnostics() {
    // the leading newline keeps every block strictly after user offset 0
    let text = "\none\n\ntwo\n";
    let prelude = b"".to_vec();
    let out = sync_source_context(text, &prelude);
    assert!(out.blocks[0].start > 0);
    let original = out.ir.clone();
    let mut session = CompileSession::new(out);

    // an error that maps before every block (at the leading inflection)
    let diags = vec![error_at(1, 1)];
    let action = session.on_failure(&diags);
    assert_eq!(action, FailureAction::Abort);
    assert!(session.finished());
    assert!(session.aborted());
    // the synthesized text is reset to the original on exit
    assert_eq!(session.current_ir(), &original);
}

#[test]
fn termination_bound_holds_for_any_failure_sequence() {
    let text = "a\n\nb\n\nc\n";
    let prelude = b"".to_vec();
    let out = sync_source_context(text, &prelude);
    let n_blocks = out.blocks.len();
    assert_eq!(n_blocks, 3);
    let ranges: Vec<(usize, usize)> = {
        let o = sync_source_context(text, &prelude);
        o.blocks
            .iter()
            .map(|b| (o.mapper.aux_to_main(b.start), o.mapper.aux_to_main(b.end)))
            .collect()
    };
    let mut session = CompileSession::new(out);

    // keep reporting failures that blame every block until the loop gives up
    let all_errors: Vec<DiagRecord> =
        ranges.iter().map(|&(s, e)| error_at(s, e)).collect();
    let mut steps = 0;
    loop {
        let action = session.on_failure(&all_errors);
        steps += 1;
        assert!(steps <= n_blocks + 1);
        if action == FailureAction::Abort {
            break;
        }
    }
    // one invocation per block, plus the final unrecoverable one
    assert_eq!(session.invocations(), n_blocks + 1);
    assert!(session.aborted());
}

#[test]
fn example_document_compiles_to_three_fragments() {
    // user text with a valid intro, an equation, a broken call and a trailing
    // paragraph; a trivial prelude. The top-level nodes are given as the
    // parser's idealized partition of the paragraphs.
    let text = "Intro text\n\n$x^2+1$\n\n#broken(\n\nMore text\n";
    let bytes = text.as_bytes().to_vec();
    let nodes = vec![
        raw(0, 10, "text", b"Intro text", ""),
        raw(10, 12, "paragraph break", b"\n\n", ""),
        raw(12, 19, "equation", b"", ""),
        raw(19, 21, "paragraph break", b"\n\n", ""),
        raw(21, 29, "function call", b"", "broken"),
        raw(29, 31, "paragraph break", b"\n\n", ""),
        raw(31, 40, "text", b"More text", ""),
        raw(40, 41, "space", b"\n", ""),
    ];
    let prelude = Vec::new();
    let out = synthesize(&bytes, &nodes, &prelude);

    assert_eq!(out.blocks.len(), 4);
    let blocks = out.blocks.clone();
    let ranges: Vec<(usize, usize)> = {
        let o = synthesize(&bytes, &nodes, &prelude);
        o.blocks
            .iter()
            .map(|b| (o.mapper.aux_to_main(b.start), o.mapper.aux_to_main(b.end)))
            .collect()
    };

    // the broken block is the one holding the "#broken(" line
    let broken = 2;
    assert_eq!((blocks[broken].start, blocks[broken].end), (21, 29));

    let mut session = CompileSession::new(out);
    // first invocation fails inside the broken block's synthesized range
    let diags = vec![error_at(ranges[broken].0, ranges[broken].1)];
    assert_eq!(session.on_failure(&diags), FailureAction::Retry);
    // second invocation succeeds: exactly 2 compiler invocations
    session.on_success();
    assert_eq!(session.invocations(), 2);

    // the compiled output has one visual item per remaining block
    let mut items = Vec::new();
    let mut y = 20i64;
    for (k, _b) in blocks.iter().enumerate() {
        if k == broken {
            continue;
        }
        items.push(text_item(ranges[k].0, ranges[k].1, k, y));
        y += 40;
    }
    let fbs = flatten_nodes(&items);
    let utf = UtfIndexMapper::new(text, 0);
    let o = synthesize(&bytes, &nodes, &prelude);
    let frags = render_by_items(&o.blocks, &o.mapper, &utf, &fbs, None);

    // three fragments: the intro, the equation and the trailing paragraph
    assert_eq!(frags.len(), 3);
    assert_eq!(frags[0].range, (0, 10));
    assert_eq!(frags[1].range, (12, 19));
    assert_eq!(frags[2].range, (31, 40));

    // one error diagnostic whose UTF-16 range covers the broken line
    let ds = from_diagnostics(diags, &o.mapper, &utf, text.encode_utf16().count());
    assert_eq!(ds.len(), 1);
    assert_eq!(ds[0].severity, TypstDiagnosticSeverity::Error);
    assert_eq!(ds[0].range, (21, 29));
}

fn raw(start: usize, end: usize, kind: &str, leaf: &[u8], callee: &str) -> RawNode {
    RawNode {
        start,
        end,
        kind_name: String::from(kind),
        leaf_text: leaf.to_vec(),
        callee: String::from(callee),
    }
}
