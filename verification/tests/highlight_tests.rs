use mnemo_engine::highlight::highlight;
use mnemo_engine::utf_map::UtfIndexMapper;

#[test]
fn headings_carry_their_level_class() {
    let text = "= Title\n";
    let utf = UtfIndexMapper::new(text, 0);
    let spans = highlight(text, &utf);
    assert!(spans.len() > 0);
    let heading = spans
        .iter()
        .find(|s| s.tag.contains("typ-heading-level-1"))
        .expect("a level-1 heading span");
    assert_eq!(heading.range.0, 0);
    assert!(heading.range.1 >= 7);
}

#[test]
fn spans_are_ordered_by_start() {
    let text = "= Title\nsome *bold* text and a #func() call\n";
    let utf = UtfIndexMapper::new(text, 0);
    let spans = highlight(text, &utf);
    assert!(spans.len() >= 3);
    for w in spans.windows(2) {
        assert!(w[0].range.0 <= w[1].range.0);
    }
    assert!(spans.iter().any(|s| s.tag.contains("typ-strong")));
    assert!(spans.iter().any(|s| s.tag.contains("typ-func")));
}

#[test]
fn ranges_are_utf16_units() {
    // the first character is two UTF-16 units wide, shifting what follows
    let text = "\u{1f600} *b*\n";
    let utf = UtfIndexMapper::new(text, 0);
    let spans = highlight(text, &utf);
    let strong = spans
        .iter()
        .find(|s| s.tag.contains("typ-strong"))
        .expect("a strong span");
    // bytes 5..8 become UTF-16 units 3..6
    assert_eq!(strong.range, (3, 6));
}
