use mnemo_engine::index_mapper::IndexMapper;
use mnemo_engine::utf_map::UtfIndexMapper;

#[test]
fn empty_mapper_translates_to_zero() {
    let m = IndexMapper::new();
    assert_eq!(m.main_to_aux(17), 0);
    assert_eq!(m.aux_to_main(17), 0);
    assert_eq!(m.rmap_aux_to_main(17), 0);
}

#[test]
fn translation_uses_governing_inflection() {
    let mut m = IndexMapper::new();
    // (aux, main) pairs, strictly increasing in both components
    m.add_main_to_aux(0, 10);
    m.add_main_to_aux(5, 40);
    m.add_main_to_aux(9, 60);

    // within the first interval: 1:1 advance from (0, 10)
    assert_eq!(m.aux_to_main(0), 10);
    assert_eq!(m.aux_to_main(3), 13);
    // the governing inflection is the last at-or-before the query
    assert_eq!(m.aux_to_main(5), 40);
    assert_eq!(m.aux_to_main(7), 42);
    assert_eq!(m.aux_to_main(9), 60);
    assert_eq!(m.aux_to_main(12), 63);

    // the other direction
    assert_eq!(m.main_to_aux(10), 0);
    assert_eq!(m.main_to_aux(13), 3);
    assert_eq!(m.main_to_aux(41), 6);
    assert_eq!(m.main_to_aux(60), 9);
    // before the first inflection: 0
    assert_eq!(m.main_to_aux(9), 0);
}

#[test]
fn round_trip_on_recorded_pairs() {
    let mut m = IndexMapper::new();
    m.add_main_to_aux(2, 7);
    m.add_main_to_aux(11, 30);
    m.add_main_to_aux(25, 31);
    for (a, b) in [(2usize, 7usize), (11, 30), (25, 31)] {
        assert_eq!(m.aux_to_main(a), b);
        assert_eq!(m.main_to_aux(b), a);
    }
}

#[test]
fn monotonic_within_interval() {
    let mut m = IndexMapper::new();
    m.add_main_to_aux(2, 7);
    m.add_main_to_aux(11, 30);
    let mut last = m.aux_to_main(2);
    for x in 3..11 {
        let y = m.aux_to_main(x);
        assert!(y > last);
        last = y;
    }
}

#[test]
fn strict_variant_attributes_boundary_to_preceding_interval() {
    let mut m = IndexMapper::new();
    m.add_main_to_aux(2, 7);
    m.add_main_to_aux(11, 30);
    // at exactly 11 the closed-left lookup uses the new inflection,
    // the strict one still the old
    assert_eq!(m.aux_to_main(11), 30);
    assert_eq!(m.rmap_aux_to_main(11), 16);
    assert_eq!(m.rmap_aux_to_main(12), 31);
}

#[test]
fn offset_oriented_names_are_the_same_operations() {
    let mut a = IndexMapper::new();
    a.add_change(3, 9);
    a.add_change(6, 20);
    let mut b = IndexMapper::new();
    b.add_main_to_aux(3, 9);
    b.add_main_to_aux(6, 20);
    for x in 0..25 {
        assert_eq!(a.map_offset(x), b.main_to_aux(x));
        assert_eq!(a.map_index(x), b.aux_to_main(x));
    }
}

#[test]
fn try_translations_agree_with_plain_ones() {
    let mut m = IndexMapper::new();
    m.add_main_to_aux(1, 5);
    assert_eq!(m.try_aux_to_main(4), Some(8));
    assert_eq!(m.try_main_to_aux(7), Some(3));
    assert_eq!(m.try_aux_to_main(0), Some(0));
}

#[test]
fn utf_mapper_ascii_is_identity_plus_offset() {
    let m = UtfIndexMapper::new("hello", 10);
    assert_eq!(m.utf8_to_utf16(10), 0);
    assert_eq!(m.utf8_to_utf16(13), 3);
    assert_eq!(m.utf16_to_utf8(3), 13);
    assert_eq!(m.utf16_to_utf8(5), 15);
}

#[test]
fn utf_mapper_handles_multibyte_characters() {
    // 'a' (1/1), 'é' (2/1), '漢' (3/1), '😀' (4/2), 'z' (1/1)
    let text = "a\u{e9}\u{6f22}\u{1f600}z";
    let m = UtfIndexMapper::new(text, 0);
    // boundaries: utf8 0,1,3,6,10,11  <->  utf16 0,1,2,3,5,6
    assert_eq!(m.utf8_to_utf16(0), 0);
    assert_eq!(m.utf8_to_utf16(1), 1);
    assert_eq!(m.utf8_to_utf16(3), 2);
    assert_eq!(m.utf8_to_utf16(6), 3);
    assert_eq!(m.utf8_to_utf16(10), 5);
    assert_eq!(m.utf8_to_utf16(11), 6);

    assert_eq!(m.utf16_to_utf8(0), 0);
    assert_eq!(m.utf16_to_utf8(1), 1);
    assert_eq!(m.utf16_to_utf8(2), 3);
    assert_eq!(m.utf16_to_utf8(3), 6);
    assert_eq!(m.utf16_to_utf8(5), 10);
    assert_eq!(m.utf16_to_utf8(6), 11);
}

#[test]
fn utf_mapper_with_offset_speaks_enclosing_coordinates() {
    let text = "\u{e9}x";
    let m = UtfIndexMapper::new(text, 100);
    assert_eq!(m.utf8_to_utf16(100), 0);
    assert_eq!(m.utf8_to_utf16(102), 1);
    assert_eq!(m.utf8_to_utf16(103), 2);
    assert_eq!(m.utf16_to_utf8(2), 103);
    assert_eq!(m.try_utf8_to_utf16(102), Some(1));
    assert_eq!(m.try_utf16_to_utf8(1), Some(102));
}
