//! Family names.
use quickdraw_fonts::names::is_white_space;
use quickdraw_fonts::{font_id_for_name, font_name_for_id, font_names};

#[test]
fn every_name_leads_to_its_number_and_back() {
    let table = font_names();
    assert_eq!(table.len(), 18);
    for (font_id, name) in table {
        assert_eq!(font_name_for_id(font_id), Some(name));
        assert_eq!(font_id_for_name(name), Some(font_id));
    }
    assert_eq!(font_name_for_id(8), Some("San Francisco"));
    assert_eq!(font_id_for_name("Los Angeles"), Some(12));
}

#[test]
fn numbers_without_a_name_have_none() {
    assert_eq!(font_name_for_id(10), None);
    assert_eq!(font_name_for_id(-1), None);
    assert_eq!(font_name_for_id(i16::MAX), None);
}

#[test]
fn case_and_white_space_around_a_name_do_not_count() {
    assert_eq!(font_id_for_name("  geneva\t\n"), Some(3));
    assert_eq!(font_id_for_name("NEW YORK"), Some(2));
    assert_eq!(font_id_for_name("\u{3000}cHiCaGo\u{A0}"), Some(0));
    assert_eq!(font_id_for_name("New  York"), None);
    assert_eq!(font_id_for_name("NewYork"), None);
    assert_eq!(font_id_for_name("Genev"), None);
    assert_eq!(font_id_for_name("Genevaa"), None);
    assert_eq!(font_id_for_name("Gen\u{E9}va"), None);
    assert_eq!(font_id_for_name(""), None);
    assert_eq!(font_id_for_name("   "), None);
}

#[test]
fn white_space_is_what_unicode_says() {
    for code in 0..=0x10FFFFu32 {
        if let Some(c) = char::from_u32(code) {
            assert_eq!(is_white_space(c), c.is_whitespace(), "U+{code:04X}");
        }
    }
}
