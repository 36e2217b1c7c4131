//! Bitmap strikes and `FOND` tables that applications carry.
use quickdraw_fonts::lookup::closest_font_face;
use quickdraw_fonts::resource::{resource_long, resource_word};
use quickdraw_fonts::special::{find_italic_glyph, find_macroman_glyph, find_roman_glyph};
use quickdraw_fonts::strike::decode_strike;
use quickdraw_fonts::{
    get_font_face, get_font_face_or_default, get_font_face_scaled, get_macroman_glyph,
    needs_override_directory, parse_fond_associations, refresh_font_overrides,
    register_resource_font_strike, register_resource_font_strike_for_family,
    resolve_font_overrides, strike_ascent_overflows, FondAssociation, FontFace, FontMetrics,
    FontStore, Glyph, ItalicFace, Lookup, MacRomanFace, MacRomanGlyph, OverrideFace, PixelFace,
    PixelFonts, FONT_CHICAGO, FONT_GENEVA,
};

fn blank() -> PixelFace {
    PixelFace {
        metrics: FontMetrics { ascent: 9, descent: 2, wid_max: 8, leading: 1 },
        glyphs: Vec::leak(vec![
            Glyph { width: 0, height: 0, advance: 6, origin_x: 0, origin_y: 0, data_offset: 0 };
            95
        ]),
        data: &[],
    }
}

fn unresolved() -> FontStore {
    let art = PixelFonts {
        chicago9: blank(),
        chicago12: blank(),
        application12: blank(),
        newyork12: blank(),
        newyork14: blank(),
        newyork18: blank(),
        geneva9: blank(),
        geneva10: blank(),
        geneva12: blank(),
        geneva14: blank(),
        geneva18: blank(),
        geneva24: blank(),
        monaco9: blank(),
        monaco10: blank(),
        monaco12: blank(),
        venice14: blank(),
        london18: blank(),
        cairo18: blank(),
    };
    FontStore::new(&art, Vec::new())
}

fn fonts() -> FontStore {
    let mut fonts = unresolved();
    resolve_font_overrides(&mut fonts, None, &Vec::new());
    fonts
}

fn ready<T>(found: Lookup<T>) -> T {
    match found {
        Lookup::Ready(value) => value,
        Lookup::NeedsOverrides => panic!("the environment is already consulted"),
        Lookup::NeedsRaster(_) => panic!("there is no scalable font"),
    }
}

fn put(bytes: &mut [u8], offset: usize, word: u16) {
    bytes[offset..offset + 2].copy_from_slice(&word.to_be_bytes());
}

/// One encoded character and the glyph for missing characters, one pixel each.
fn minimal_nfnt() -> Vec<u8> {
    let mut bytes = vec![0u8; 38];
    put(&mut bytes, 2, 32);
    put(&mut bytes, 4, 32);
    put(&mut bytes, 6, 1);
    put(&mut bytes, 14, 1);
    put(&mut bytes, 16, 9);
    put(&mut bytes, 18, 1);
    put(&mut bytes, 24, 1);
    bytes[26] = 0xC0;
    put(&mut bytes, 28, 0);
    put(&mut bytes, 30, 1);
    put(&mut bytes, 32, 2);
    put(&mut bytes, 34, 1);
    put(&mut bytes, 36, 1);
    bytes
}

/// A strike of two rows with the characters `A` and `B` and a glyph for missing characters:
/// three, two and one columns of one word.
///
/// ```text
/// A   B  ?
/// #.# ## .
/// .#. .# #
/// ```
fn two_letters() -> Vec<u8> {
    let mut bytes = vec![0u8; 26 + 4 + 8 + 6];
    put(&mut bytes, 2, b'A' as u16);
    put(&mut bytes, 4, b'B' as u16);
    put(&mut bytes, 6, 300);
    put(&mut bytes, 8, (-2i16) as u16);
    put(&mut bytes, 14, 2);
    put(&mut bytes, 16, 11);
    put(&mut bytes, 18, 2);
    put(&mut bytes, 20, 1);
    put(&mut bytes, 22, 3);
    put(&mut bytes, 24, 1);
    put(&mut bytes, 26, 0b1011_1000_0000_0000);
    put(&mut bytes, 28, 0b0100_1100_0000_0000);
    put(&mut bytes, 30, 0);
    put(&mut bytes, 32, 3);
    put(&mut bytes, 34, 5);
    put(&mut bytes, 36, 6);
    put(&mut bytes, 38, 0x0104);
    put(&mut bytes, 40, 0x0203);
    put(&mut bytes, 42, 0x0002);
    bytes
}

/// A strike of one row for the characters from `first` to `last`, all of one column. Those in
/// `empty` have an empty table entry.
fn one_row(first: u8, last: u8, empty: &[u8]) -> Vec<u8> {
    let glyphs = last as usize - first as usize + 2;
    let row_words = glyphs / 16 + 1;
    let locations = 26 + row_words * 2;
    let widths = locations + (glyphs + 1) * 2;
    let mut bytes = vec![0u8; widths + glyphs * 2];
    put(&mut bytes, 2, first as u16);
    put(&mut bytes, 4, last as u16);
    put(&mut bytes, 6, 9);
    put(&mut bytes, 14, 1);
    put(&mut bytes, 16, ((widths - 16) / 2) as u16);
    put(&mut bytes, 18, 1);
    put(&mut bytes, 24, row_words as u16);
    for at in 26..locations {
        bytes[at] = 0xAA;
    }
    for glyph in 0..=glyphs {
        put(&mut bytes, locations + glyph * 2, glyph as u16);
    }
    for glyph in 0..glyphs {
        let missing = glyph == glyphs - 1;
        let gone = !missing && empty.contains(&(first + glyph as u8));
        put(&mut bytes, widths + glyph * 2, if gone { 0xFFFF } else { 2 });
    }
    bytes
}

#[test]
fn fond_associations_map_arbitrary_bitmap_resource_ids() {
    let mut fond = vec![0u8; 66];
    fond[2..4].copy_from_slice(&1234u16.to_be_bytes()); // redundant ffFamID
    fond[52..54].copy_from_slice(&1u16.to_be_bytes()); // two entries minus one
    fond[54..56].copy_from_slice(&12u16.to_be_bytes());
    fond[56..58].copy_from_slice(&0u16.to_be_bytes());
    fond[58..60].copy_from_slice(&42u16.to_be_bytes());
    fond[60..62].copy_from_slice(&18u16.to_be_bytes());
    fond[62..64].copy_from_slice(&1u16.to_be_bytes());
    fond[64..66].copy_from_slice(&(-32000i16 as u16).to_be_bytes());

    assert_eq!(
        parse_fond_associations(16000, &fond),
        Some(vec![
            FondAssociation { family_id: 16000, size: 12, style: 0, font_resource_id: 42 },
            FondAssociation { family_id: 16000, size: 18, style: 1, font_resource_id: -32000 },
        ])
    );
}

#[test]
fn fond_tables_that_are_cut_short_or_negative_are_refused() {
    let mut fond = vec![0u8; 66];
    put(&mut fond, 52, 1);
    assert!(parse_fond_associations(1, &fond).is_some());
    assert_eq!(parse_fond_associations(1, &fond[..65]), None);
    assert_eq!(parse_fond_associations(1, &fond[..53]), None);
    assert_eq!(parse_fond_associations(1, &[]), None);
    put(&mut fond, 52, 0xFFFF);
    assert_eq!(parse_fond_associations(1, &fond[..54]), Some(vec![]));
    put(&mut fond, 52, 0xFFFE);
    assert_eq!(parse_fond_associations(1, &fond), None);
    put(&mut fond, 52, 0x7FFF);
    assert_eq!(parse_fond_associations(1, &fond), None);
}

#[test]
fn words_are_big_endian() {
    assert_eq!(resource_word(&[0x12, 0x34, 0x56], 1), Some(0x3456));
    assert_eq!(resource_word(&[0x12, 0x34, 0x56], 2), None);
    assert_eq!(resource_word(&[], 0), None);
    assert_eq!(resource_word(&[1, 2], usize::MAX), None);
    assert_eq!(resource_long(&[0, 0x12, 0x34, 0x56, 0x78], 1), Some(0x1234_5678));
    assert_eq!(resource_long(&[0, 0x12, 0x34, 0x56, 0x78], 2), None);
    assert_eq!(resource_long(&[1, 2, 3, 4], usize::MAX), None);
}

#[test]
fn resource_strike_can_register_under_fond_family_and_size() {
    let mut fonts = fonts();
    let family_id = 30001;
    assert!(register_resource_font_strike_for_family(
        &mut fonts,
        family_id,
        17,
        &minimal_nfnt(),
    ));
    let face = ready(get_font_face(&fonts, family_id, 17))
        .expect("FOND-associated face should resolve");
    assert_eq!(face.font_id, family_id);
    assert_eq!(face.size, 17);
    assert_eq!(face.metrics.ascent, 1);
}

#[test]
fn a_strike_is_decoded_pixel_by_pixel() {
    let strike = decode_strike(&two_letters()).unwrap();
    assert_eq!(
        strike.metrics,
        FontMetrics { ascent: 2, descent: 1, wid_max: 300, leading: 3 }
    );
    assert_eq!(strike.ascii.len(), 95);
    assert!(strike.macroman.is_empty());

    let a = strike.ascii[(b'A' - b' ') as usize];
    assert_eq!((a.width, a.height, a.advance), (3, 2, 4));
    assert_eq!((a.origin_x, a.origin_y), (-1, -2));
    assert_eq!(&strike.coverage[a.data_offset..a.data_offset + 6], &[255, 0, 255, 0, 255, 0]);

    let b = strike.ascii[(b'B' - b' ') as usize];
    assert_eq!((b.width, b.height, b.advance), (2, 2, 3));
    assert_eq!((b.origin_x, b.origin_y), (0, -2));
    assert_eq!(&strike.coverage[b.data_offset..b.data_offset + 4], &[255, 255, 0, 255]);

    for other in [b' ', b'@', b'C', b'~'] {
        let missing = strike.ascii[(other - b' ') as usize];
        assert_eq!((missing.width, missing.height, missing.advance), (1, 2, 2));
        assert_eq!(missing.origin_x, -2);
        let at = missing.data_offset;
        assert_eq!(&strike.coverage[at..at + 2], &[0, 255]);
    }
    assert_eq!(strike.coverage.len(), 6 + 4 + 93 * 2);
}

#[test]
fn a_glyph_that_cannot_be_shown_is_an_empty_box() {
    let mut bytes = two_letters();
    put(&mut bytes, 42, 0xFFFF);
    let strike = decode_strike(&bytes).unwrap();
    let space = strike.ascii[0];
    assert_eq!(
        space,
        Glyph { width: 0, height: 0, advance: 255, origin_x: 0, origin_y: 0, data_offset: 0 }
    );
    put(&mut bytes, 6, (-4i16) as u16);
    assert_eq!(decode_strike(&bytes).unwrap().ascii[0].advance, 0);

    // Columns that run backwards, and columns behind the bitmap.
    let mut bytes = two_letters();
    put(&mut bytes, 30, 4);
    let a = decode_strike(&bytes).unwrap().ascii[(b'A' - b' ') as usize];
    assert_eq!((a.width, a.height), (0, 0));
    let mut bytes = two_letters();
    put(&mut bytes, 36, 17);
    assert_eq!(decode_strike(&bytes).unwrap().ascii[0].width, 0);
    put(&mut bytes, 36, 16);
    assert_eq!(decode_strike(&bytes).unwrap().ascii[0].width, 11);
}

#[test]
fn displacements_are_clamped_to_a_byte() {
    let mut bytes = two_letters();
    put(&mut bytes, 8, 32767);
    put(&mut bytes, 18, (-300i16) as u16);
    let a = decode_strike(&bytes).unwrap().ascii[(b'A' - b' ') as usize];
    assert_eq!((a.origin_x, a.origin_y), (127, 127));
    put(&mut bytes, 8, 0x8000);
    put(&mut bytes, 18, 300);
    let a = decode_strike(&bytes).unwrap().ascii[(b'A' - b' ') as usize];
    assert_eq!((a.origin_x, a.origin_y), (-128, -128));
}

#[test]
fn resources_that_are_no_strikes_are_refused() {
    let good = two_letters();
    assert!(decode_strike(&good).is_some());
    assert!(decode_strike(&good[..good.len() - 1]).is_none());
    assert!(decode_strike(&good[..25]).is_none());
    assert!(decode_strike(&[]).is_none());
    for (offset, word) in
        [(2, 67), (4, 256), (14, 0), (14, 256), (24, 0), (24, 2), (16, 10), (16, 12)]
    {
        let mut bytes = good.clone();
        put(&mut bytes, offset, word);
        assert!(decode_strike(&bytes).is_none(), "word {word} at {offset}");
    }
}

#[test]
fn a_refused_registration_changes_nothing() {
    let mut fonts = fonts();
    assert!(!register_resource_font_strike_for_family(&mut fonts, -1, 12, &two_letters()));
    assert!(!register_resource_font_strike_for_family(&mut fonts, 500, 0, &two_letters()));
    assert!(!register_resource_font_strike_for_family(&mut fonts, 500, -3, &two_letters()));
    assert!(!register_resource_font_strike_for_family(&mut fonts, 500, 12, &[0; 40]));
    assert!(closest_font_face(&fonts, -1, 12).is_none());
    assert!(closest_font_face(&fonts, 500, 12).is_none());
}

#[test]
fn classic_numbers_hold_family_and_size() {
    let mut fonts = fonts();
    assert!(register_resource_font_strike(&mut fonts, 37 * 128 + 9, &two_letters()));
    let face = ready(get_font_face(&fonts, 37, 9)).unwrap();
    assert_eq!((face.font_id, face.size), (37, 9));
    assert!(register_resource_font_strike(&mut fonts, 255 * 128 + 127, &two_letters()));
    assert!(ready(get_font_face(&fonts, 255, 127)).is_some());
    assert!(register_resource_font_strike(&mut fonts, 24, &two_letters()));
    assert!(ready(get_font_face(&fonts, FONT_CHICAGO, 24)).is_some());
    assert!(!register_resource_font_strike(&mut fonts, 37 * 128, &two_letters()));
    assert!(!register_resource_font_strike(&mut fonts, 0, &two_letters()));
    assert!(!register_resource_font_strike(&mut fonts, -1, &two_letters()));
}

#[test]
fn a_strike_goes_before_the_built_in_face_and_a_later_one_replaces_it() {
    let mut fonts = fonts();
    assert!(register_resource_font_strike_for_family(
        &mut fonts,
        FONT_GENEVA,
        12,
        &two_letters()
    ));
    assert_eq!(ready(get_font_face(&fonts, FONT_GENEVA, 12)).unwrap().metrics.leading, 3);
    assert_eq!(ready(get_font_face(&fonts, FONT_GENEVA, 0)).unwrap().metrics.leading, 3);
    assert_eq!(ready(get_font_face(&fonts, FONT_GENEVA, 14)).unwrap().metrics.leading, 1);
    assert!(register_resource_font_strike_for_family(
        &mut fonts,
        FONT_GENEVA,
        12,
        &minimal_nfnt()
    ));
    assert_eq!(ready(get_font_face(&fonts, FONT_GENEVA, 12)).unwrap().metrics.leading, 0);
}

#[test]
fn a_registered_strike_serves_other_sizes() {
    let mut fonts = fonts();
    assert!(register_resource_font_strike_for_family(&mut fonts, 900, 10, &two_letters()));
    assert!(register_resource_font_strike_for_family(&mut fonts, 900, 16, &two_letters()));
    let scaled = |size: i16| -> (i16, i16, i16) {
        let (face, scale) = ready(get_font_face_scaled(&fonts, 900, size));
        (face.font_id, face.size, scale)
    };
    assert_eq!(scaled(10), (900, 10, 1));
    assert_eq!(scaled(20), (900, 10, 2));
    assert_eq!(scaled(30), (900, 10, 3));
    assert_eq!(scaled(32), (900, 16, 2));
    assert_eq!(scaled(13), (900, 16, 1));
    assert_eq!(scaled(12), (900, 10, 1));
    assert_eq!(scaled(200), (900, 16, 1));
    let strike = closest_font_face(&fonts, 900, 11).unwrap();
    assert_eq!(strike.size, 10);
}

#[test]
fn mac_roman_characters_of_a_strike_are_found() {
    let mut fonts = fonts();
    let bytes = one_row(b'A', 0x90, &[0x86]);
    assert!(register_resource_font_strike_for_family(&mut fonts, 77, 12, &bytes));
    let (glyph, data) = get_macroman_glyph(&fonts, 77, 12, 0x81).unwrap();
    assert_eq!((glyph.width, glyph.height, glyph.advance), (1, 1, 2));
    // Column 0x81 - 'A' of the pattern of alternating pixels.
    assert_eq!(data[glyph.data_offset], 255);
    let (glyph, data) = get_macroman_glyph(&fonts, 77, 0, 0x82).unwrap();
    assert_eq!(data[glyph.data_offset], 0);
    // An empty entry shows the glyph for missing characters.
    let (glyph, data) = get_macroman_glyph(&fonts, 77, 12, 0x86).unwrap();
    assert_eq!(data[glyph.data_offset], 255);
    assert!(get_macroman_glyph(&fonts, 77, 12, 0x91).is_none());
    assert!(get_macroman_glyph(&fonts, 77, 12, b'A').is_none());
    assert!(get_macroman_glyph(&fonts, 77, 13, 0x81).is_none());
    assert!(get_macroman_glyph(&fonts, 78, 12, 0x81).is_none());

    // A later strike without such characters leaves those of the earlier in place.
    assert!(register_resource_font_strike_for_family(&mut fonts, 77, 12, &two_letters()));
    assert!(get_macroman_glyph(&fonts, 77, 12, 0x81).is_some());
    // One that has others replaces them.
    let bytes = one_row(0xA0, 0xA1, &[]);
    assert!(register_resource_font_strike_for_family(&mut fonts, 77, 12, &bytes));
    assert!(get_macroman_glyph(&fonts, 77, 12, 0x81).is_none());
    assert!(get_macroman_glyph(&fonts, 77, 12, 0xA1).is_some());
}

#[test]
fn every_pixel_of_a_strike_is_clear_or_set_and_there() {
    for bytes in [minimal_nfnt(), two_letters(), one_row(0, 255, &[0x41, 0xFF])] {
        let strike = decode_strike(&bytes).unwrap();
        assert!(strike.coverage.iter().all(|&b| b == 0 || b == 255));
        let roman = strike.macroman.iter().map(|entry| &entry.glyph);
        for glyph in strike.ascii.iter().chain(roman) {
            let area = glyph.width as usize * glyph.height as usize;
            assert!(glyph.data_offset + area <= strike.coverage.len());
        }
    }
    assert_eq!(decode_strike(&one_row(0, 255, &[])).unwrap().macroman.len(), 128);
}

#[test]
fn the_lowest_ascent_is_out_of_range_only_where_a_glyph_is_shown() {
    let mut bytes = two_letters();
    assert!(!strike_ascent_overflows(&bytes));
    put(&mut bytes, 18, 0x8000);
    assert!(strike_ascent_overflows(&bytes));
    assert!(!strike_ascent_overflows(&bytes[..30]));
    // No glyph has an entry.
    put(&mut bytes, 38, 0xFFFF);
    put(&mut bytes, 40, 0xFFFF);
    put(&mut bytes, 42, 0xFFFF);
    assert!(!strike_ascent_overflows(&bytes));
    assert_eq!(decode_strike(&bytes).unwrap().metrics.ascent, i16::MIN);
}

fn override_face(font_id: i16, size: i16, ascent: i16) -> OverrideFace {
    let face: &'static FontFace = Box::leak(Box::new(FontFace {
        font_id,
        size,
        metrics: FontMetrics { ascent, descent: 1, wid_max: 5, leading: 0 },
        glyphs: blank().glyphs,
        data: &[],
    }));
    OverrideFace { font_id, size, face }
}

#[test]
fn the_environment_is_consulted_before_the_first_lookup() {
    let fonts = unresolved();
    assert!(!fonts.overrides_resolved());
    assert!(matches!(get_font_face(&fonts, FONT_CHICAGO, 12), Lookup::NeedsOverrides));
    assert!(matches!(
        get_font_face_or_default(&fonts, FONT_CHICAGO, 12),
        Lookup::NeedsOverrides
    ));
}

#[test]
fn overriding_faces_win_until_the_directory_changes() {
    let mut fonts = unresolved();
    let dir = Some(b"/fonts".to_vec());
    assert!(needs_override_directory(&fonts, &dir));
    assert!(!needs_override_directory(&fonts, &None));
    let loaded = vec![
        override_face(FONT_CHICAGO, 12, 50),
        override_face(FONT_CHICAGO, 12, 51),
        override_face(700, 8, 52),
    ];
    resolve_font_overrides(&mut fonts, dir.clone(), &loaded);
    assert!(fonts.overrides_resolved());
    let ascent = |fonts: &FontStore, font_id: i16, size: i16| -> i16 {
        ready(get_font_face_or_default(fonts, font_id, size)).metrics.ascent
    };
    // Of two for the same family and size the later counts.
    assert_eq!(ascent(&fonts, FONT_CHICAGO, 12), 51);
    assert_eq!(ascent(&fonts, FONT_CHICAGO, 0), 51);
    assert_eq!(ascent(&fonts, 700, 8), 52);
    assert_eq!(ascent(&fonts, FONT_GENEVA, 12), 9);
    // A strike from an application does not go before them.
    assert!(register_resource_font_strike_for_family(
        &mut fonts,
        FONT_CHICAGO,
        12,
        &two_letters()
    ));
    assert_eq!(ascent(&fonts, FONT_CHICAGO, 12), 51);

    // The same directory is not loaded again.
    refresh_font_overrides(&mut fonts);
    assert!(matches!(get_font_face(&fonts, 700, 8), Lookup::NeedsOverrides));
    assert!(!needs_override_directory(&fonts, &dir));
    resolve_font_overrides(&mut fonts, dir, &Vec::new());
    assert_eq!(ascent(&fonts, 700, 8), 52);

    // Another one is.
    refresh_font_overrides(&mut fonts);
    let other = Some(b"/fontz".to_vec());
    assert!(needs_override_directory(&fonts, &other));
    resolve_font_overrides(&mut fonts, other, &vec![override_face(FONT_GENEVA, 12, 60)]);
    assert_eq!(ascent(&fonts, FONT_GENEVA, 12), 60);
    assert_eq!(ascent(&fonts, FONT_CHICAGO, 12), 2);

    // Without a directory nothing overrides.
    refresh_font_overrides(&mut fonts);
    resolve_font_overrides(&mut fonts, None, &vec![override_face(FONT_GENEVA, 12, 61)]);
    assert_eq!(ascent(&fonts, FONT_GENEVA, 12), 9);
}

fn plain_glyph(width: u8, advance: u8) -> Glyph {
    Glyph { width, height: width, advance, origin_x: 0, origin_y: 0, data_offset: 0 }
}

#[test]
fn mac_roman_tables_are_searched_for_family_size_and_code() {
    let table: &'static [MacRomanFace] = Vec::leak(vec![
        MacRomanFace {
            font_id: 3,
            size: 12,
            glyphs: Vec::leak(vec![
                MacRomanGlyph { mac_code: 0x80, glyph: plain_glyph(1, 1) },
                MacRomanGlyph { mac_code: 0x81, glyph: plain_glyph(2, 2) },
                MacRomanGlyph { mac_code: 0x81, glyph: plain_glyph(3, 3) },
            ]),
            data: &[255],
        },
        MacRomanFace {
            font_id: 3,
            size: 12,
            glyphs: Vec::leak(vec![MacRomanGlyph { mac_code: 0x82, glyph: plain_glyph(4, 4) }]),
            data: &[0],
        },
    ]);
    let (glyph, data) = find_macroman_glyph(table, 3, 12, 0x81).unwrap();
    assert_eq!((glyph.width, data), (2, &[255u8][..]));
    assert!(find_macroman_glyph(table, 3, 12, 0x82).is_none());
    assert!(find_macroman_glyph(table, 3, 14, 0x81).is_none());
    assert!(find_macroman_glyph(table, 4, 12, 0x81).is_none());
    assert!(find_macroman_glyph(&[], 3, 12, 0x81).is_none());
    assert_eq!(find_roman_glyph(&table[1], 0x82).unwrap().0.width, 4);
    assert!(find_roman_glyph(&table[1], 0x80).is_none());
}

#[test]
fn italic_tables_are_searched_for_family_size_and_character() {
    let table: &'static [ItalicFace] = Vec::leak(vec![ItalicFace {
        font_id: 3,
        size: 12,
        glyphs: Vec::leak(vec![plain_glyph(0, 4), plain_glyph(0, 0), plain_glyph(5, 6)]),
        data: &[7],
    }]);
    let (glyph, data) = find_italic_glyph(table, 3, 12, '"').unwrap();
    assert_eq!((glyph.width, data), (5, &[7u8][..]));
    assert_eq!(find_italic_glyph(table, 3, 0, ' ').unwrap().0.advance, 4);
    assert!(find_italic_glyph(table, 3, 12, '!').is_none());
    assert!(find_italic_glyph(table, 3, 12, '#').is_none());
    assert!(find_italic_glyph(table, 3, 12, '\u{1F}').is_none());
    assert!(find_italic_glyph(table, 3, 12, '\u{7F}').is_none());
    assert!(find_italic_glyph(table, 3, 14, ' ').is_none());
    assert!(find_italic_glyph(table, 5, 12, ' ').is_none());
}
