use mnemo_engine::diag::{
    DiagRecord, TypstDiagnosticSeverity, TypstJump, cursor_to_main, from_diagnostics,
    map_aux_span, map_main_span, offset_to_aux_utf16,
};
use mnemo_engine::index_mapper::IndexMapper;
use mnemo_engine::state::{Rgb, SpaceContext, ThemeColors, TypstFileId, TypstState};
use mnemo_engine::utf_map::UtfIndexMapper;

#[test]
fn rgb_renders_as_markup() {
    assert_eq!(Rgb::new(1, 22, 255).to_string(), "rgb(1,22,255)");
    assert_eq!(Rgb::new(0, 0, 0).to_string(), "rgb(0,0,0)");
}

#[test]
fn theme_renders_every_role() {
    let t = ThemeColors::default();
    let s = t.to_string();
    assert!(s.starts_with("(background:rgb(255,255,255),on-background:rgb(0,0,0)"));
    assert!(s.ends_with(",on-error-container:rgb(255,255,255))"));
    assert!(s.contains(",tertiary-container:rgb(0,0,0),"));
}

#[test]
fn prelude_injects_theme_fonts_and_locale() {
    let space = SpaceContext::new();
    let p = space.prelude();
    assert!(p.starts_with("#let theme=(background:rgb(255,255,255)"));
    assert!(p.contains("lang:\"en\",font:\"Maple Mono\""));
    assert!(p.contains("#show math.equation:set text(font:\"New Computer Modern Math\")"));
    assert!(p.ends_with("#context {show math.equation:set text(size:text.size*2)}"));
}

#[test]
fn store_assigns_fresh_slots_and_tracks_spaces() {
    let mut state = TypstState::new();
    let id1 = state.create_source_id(String::from("a.typ"), String::from("s1"));
    let id2 = state.create_source_id(String::from("b.typ"), String::from("s1"));
    assert_eq!(id1, TypstFileId::new(0));
    assert_eq!(id2, TypstFileId::new(2));
    assert_eq!(id1.inner(), 0);

    let f = state.create_file_id(String::from("img.png"));
    assert_eq!(f, TypstFileId::new(4));

    // both documents share one space
    assert_eq!(state.spaces.len(), 1);
    assert_eq!(state.contexts.len(), 2);

    assert!(state.find(id2).is_some());
    assert!(state.remove_file(&id2));
    assert!(state.find(id2).is_none());
    assert!(!state.remove_file(&id2));
}

#[test]
fn configuration_flows_into_the_prelude() {
    let mut state = TypstState::new();
    let id = state.create_source_id(String::from("a.typ"), String::from("s1"));

    assert!(state.set_locale(&id, String::from("de")));
    assert!(state.set_font(&id, String::from("Libertinus Serif")));
    assert!(state.set_math_font(&id, None));
    let mut theme = ThemeColors::default();
    theme.primary = Rgb(200, 10, 10);
    assert!(state.set_theme(&id, theme));

    let p = state.prelude(&id).unwrap();
    assert!(p.contains("lang:\"de\",font:\"Libertinus Serif\""));
    // without a math font, the text font stands in
    assert!(p.contains("#show math.equation:set text(font:\"Libertinus Serif\")"));
    assert!(p.contains(",primary:rgb(200,10,10),"));

    // a handle of no open document configures nothing
    assert!(!state.set_locale(&TypstFileId::new(99), String::from("fr")));
}

#[test]
fn resize_reports_width_changes() {
    let mut state = TypstState::new();
    let id = state.create_source_id(String::from("a.typ"), String::from("s1"));
    // fresh documents have automatic width
    assert!(!state.resize(&id, None, None));
    assert!(state.resize(&id, Some(String::from("640pt")), Some(900)));
    assert!(!state.resize(&id, Some(String::from("640pt")), Some(500)));
    assert!(state.resize(&id, None, None));
    assert!(!state.resize(&TypstFileId::new(99), None, None));
}

#[test]
fn main_span_prefers_primary_then_error_trace() {
    let trace = vec![None, Some((5usize, 9usize)), Some((20, 21))];
    assert_eq!(map_main_span(&Some((1, 2)), false, &trace), Some((1, 2)));
    assert_eq!(map_main_span(&None, true, &trace), Some((5, 9)));
    // a warning without a primary range resolves to nothing
    assert_eq!(map_main_span(&None, false, &trace), None);
    assert_eq!(map_main_span(&None, true, &Vec::new()), None);
}

#[test]
fn aux_span_falls_back_to_the_whole_document_for_errors() {
    let mut mapper = IndexMapper::new();
    mapper.add_main_to_aux(0, 100);
    let utf = UtfIndexMapper::new("0123456789", 0);

    // a localizable error range
    let r = map_aux_span(&Some((102, 105)), true, &Vec::new(), &mapper, &utf, 10);
    assert_eq!(r, Some((2, 5)));
    // an unlocalizable error spans the whole document
    let r = map_aux_span(&None, true, &Vec::new(), &mapper, &utf, 10);
    assert_eq!(r, Some((0, 10)));
    // an unlocalizable warning is dropped
    let r = map_aux_span(&None, false, &Vec::new(), &mapper, &utf, 10);
    assert_eq!(r, None);
}

#[test]
fn diagnostics_keep_order_and_drop_unlocalizable_warnings() {
    let mut mapper = IndexMapper::new();
    mapper.add_main_to_aux(0, 100);
    let utf = UtfIndexMapper::new("0123456789", 0);

    let records = vec![
        DiagRecord {
            severity: TypstDiagnosticSeverity::Warning,
            message: String::from("unused import"),
            hints: vec![String::from("remove it")],
            main_range: Some((101, 103)),
            trace_ranges: Vec::new(),
        },
        DiagRecord {
            severity: TypstDiagnosticSeverity::Warning,
            message: String::from("lost warning"),
            hints: Vec::new(),
            main_range: None,
            trace_ranges: Vec::new(),
        },
        DiagRecord {
            severity: TypstDiagnosticSeverity::Error,
            message: String::from("broken"),
            hints: Vec::new(),
            main_range: None,
            trace_ranges: vec![None, Some((104, 106))],
        },
    ];
    let out = from_diagnostics(records, &mapper, &utf, 10);
    assert_eq!(out.len(), 2);
    assert_eq!(out[0].message, "unused import");
    assert_eq!(out[0].range, (1, 3));
    assert_eq!(out[0].hints, vec![String::from("remove it")]);
    assert_eq!(out[1].message, "broken");
    assert_eq!(out[1].range, (4, 6));
}

#[test]
fn jumps_and_cursors_translate_between_the_documents() {
    let mut mapper = IndexMapper::new();
    mapper.add_main_to_aux(0, 100);
    // user text with a two-byte character at the front
    let text = "\u{e9}abcdefgh";
    let utf = UtfIndexMapper::new(text, 0);

    // a jump to synthesized byte 104 lands at user byte 4: 3 UTF-16 units in
    let jump = TypstJump::from_mapped(true, 104, &mapper, &utf);
    assert_eq!(jump, Some(TypstJump::File { position: 3 }));
    assert_eq!(TypstJump::from_mapped(false, 104, &mapper, &utf), None);

    // the inverse path: UTF-16 cursor 3 -> user byte 4 -> synthesized 104
    assert_eq!(cursor_to_main(3, &utf, &mapper), Some(104));
    assert_eq!(offset_to_aux_utf16(104, &mapper, &utf), Some(3));
}
