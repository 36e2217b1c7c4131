//! The built-in faces and the routing of families, on stand-in artwork.
use quickdraw_fonts::catalogue::{find_in_table, packed_faces};
use quickdraw_fonts::ids::{fallback_font_id, lookup_size};
use quickdraw_fonts::lookup::{closest_font_face, get_baked_font_face};
use quickdraw_fonts::nearest::is_nearer;
use quickdraw_fonts::{
    font_id_for_name, font_name_for_id, get_font_face, get_font_face_or_default,
    get_font_face_scale_ratio, get_font_face_scaled, get_font_face_with_overrides,
    get_italic_glyph, get_macroman_glyph, resolve_font_overrides, FontFace, FontMetrics, FontStore,
    Glyph, Lookup, OverrideFace, PixelFace, PixelFonts, FONT_APPLICATION, FONT_ATHENS, FONT_CAIRO,
    FONT_CHICAGO, FONT_COURIER, FONT_GENEVA, FONT_HELVETICA, FONT_LONDON, FONT_MONACO,
    FONT_NEWYORK, FONT_PALATINO, FONT_SYMBOL, FONT_TIMES, FONT_VENICE,
};

const PLAIN_X_HEIGHT: &[u8] = b"acemnorsuvwxz";
const ASCENDER_LETTERS: &[u8] = b"bdhkl";
const DESCENDER_LETTERS: &[u8] = b"gpqy";

/// A strike of plain boxes: capitals, digits and ascenders are as tall as the capitals, other
/// small letters as tall as the x, and descenders reach below the baseline.
fn boxes(size: i16, advance: u8) -> PixelFace {
    let cap: u8 = (size * 2 / 3) as u8;
    let x: u8 = cap * 2 / 3;
    let descent: u8 = (size / 5) as u8;
    let mut glyphs: Vec<Glyph> = Vec::new();
    let mut data: Vec<u8> = Vec::new();
    for byte in b' '..=b'~' {
        let data_offset = data.len();
        let (width, height, origin_y): (u8, u8, i8) = if byte == b' ' {
            (1, 1, -1)
        } else if DESCENDER_LETTERS.contains(&byte) {
            (advance - 1, x + descent, -(x as i8))
        } else if PLAIN_X_HEIGHT.contains(&byte) {
            (advance - 1, x, -(x as i8))
        } else {
            (advance - 1, cap, -(cap as i8))
        };
        for pixel in 0..(width as usize) * (height as usize) {
            let ink = byte != b' ' && (pixel + byte as usize) % 3 != 0;
            data.push(if ink { 255 } else { 0 });
        }
        glyphs.push(Glyph { width, height, advance, origin_x: 0, origin_y, data_offset });
    }
    PixelFace {
        metrics: FontMetrics {
            ascent: cap as i16 + 1,
            descent: descent as i16,
            wid_max: advance as i16,
            leading: 1,
        },
        glyphs: Vec::leak(glyphs),
        data: Vec::leak(data),
    }
}

fn artwork() -> PixelFonts {
    PixelFonts {
        chicago9: boxes(9, 6),
        chicago12: boxes(12, 8),
        application12: boxes(12, 7),
        newyork12: boxes(12, 7),
        newyork14: boxes(14, 8),
        newyork18: boxes(18, 10),
        geneva9: boxes(9, 5),
        geneva10: boxes(10, 5),
        geneva12: boxes(12, 7),
        geneva14: boxes(14, 8),
        geneva18: boxes(18, 10),
        geneva24: boxes(24, 13),
        monaco9: boxes(9, 6),
        monaco10: boxes(10, 6),
        monaco12: boxes(12, 7),
        venice14: boxes(14, 6),
        london18: boxes(18, 9),
        cairo18: boxes(18, 18),
    }
}

fn fonts() -> FontStore {
    let mut fonts = FontStore::new(&artwork(), Vec::new());
    resolve_font_overrides(&mut fonts, None, &Vec::new());
    fonts
}

fn ready<T>(found: Lookup<T>) -> T {
    match found {
        Lookup::Ready(value) => value,
        Lookup::NeedsOverrides => panic!("the environment is already consulted"),
        Lookup::NeedsRaster(_) => panic!("there is no scalable font"),
    }
}

fn glyph(face: &FontFace, byte: u8) -> &'static Glyph {
    &face.glyphs[(byte - b' ') as usize]
}

fn width(face: &FontFace, text: &str) -> u16 {
    text.bytes()
        .map(|byte| face.glyphs[(byte - b' ') as usize].advance as u16)
        .sum()
}

fn assert_shared_top(group: &str, letters: &[u8], tol: i8) {
    for face in fonts().font_table() {
        let tops: Vec<i8> = letters
            .iter()
            .map(|&b| glyph(face, b))
            .filter(|g| g.height != 0)
            .map(|g| g.origin_y)
            .collect();
        if let (Some(lo), Some(hi)) = (tops.iter().min(), tops.iter().max()) {
            assert!(
                hi - lo <= tol,
                "({}, {}) {} letters: {:?}",
                face.font_id,
                face.size,
                group,
                tops
            );
        }
    }
}

fn assert_shared_bottom(group: &str, letters: &[u8], tol: i32) {
    for face in fonts().font_table() {
        let bottoms: Vec<i32> = letters
            .iter()
            .map(|&b| glyph(face, b))
            .filter(|g| g.height != 0)
            .map(|g| g.origin_y as i32 + g.height as i32)
            .collect();
        if let (Some(lo), Some(hi)) = (bottoms.iter().min(), bottoms.iter().max()) {
            assert!(
                hi - lo <= tol,
                "({}, {}) {} letters: {:?}",
                face.font_id,
                face.size,
                group,
                bottoms
            );
        }
    }
}

#[test]
fn every_packed_face_is_accessible() {
    let fonts = fonts();
    let table = fonts.font_table();
    assert_eq!(table.len(), 19);
    for packed in table {
        let face = ready(get_font_face(&fonts, packed.font_id, packed.size))
            .unwrap_or_else(|| panic!("missing ({}, {})", packed.font_id, packed.size));
        assert_eq!(face.glyphs.len(), 95);
        assert_eq!((face.font_id, face.size), (packed.font_id, packed.size));
    }
}

#[test]
fn default_face_is_chicago_12() {
    let fonts = fonts();
    let face = ready(get_font_face_or_default(&fonts, FONT_CHICAGO, 12));
    assert_eq!(face.font_id, FONT_CHICAGO);
    assert_eq!(face.size, 12);
}

#[test]
fn implicit_scaling_uses_the_closest_bitmap_strike_and_exact_ratio() {
    let fonts = fonts();
    let (face, numerator, denominator) =
        ready(get_font_face_scale_ratio(&fonts, FONT_CHICAGO, 40));
    assert_eq!(face.font_id, FONT_CHICAGO);
    assert_eq!(face.size, 12);
    assert_eq!((numerator, denominator), (40, 12));
}

#[test]
fn fallback_courier_to_monaco() {
    let fonts = fonts();
    let face = ready(get_font_face_or_default(&fonts, FONT_COURIER, 12));
    assert_eq!(face.font_id, FONT_MONACO);
}

#[test]
fn palatino_uses_the_original_ironbark_serif_face() {
    assert_eq!(font_id_for_name("Palatino"), Some(FONT_PALATINO));
    assert_eq!(font_name_for_id(FONT_PALATINO), Some("Palatino"));

    let fonts = fonts();
    for size in [12, 14, 18, 24] {
        let (face, scale) = ready(get_font_face_scaled(&fonts, FONT_PALATINO, size));
        assert_eq!(face.font_id, FONT_NEWYORK);
        assert_eq!(face.size * scale, size);
    }
}

#[test]
fn baked_helvetica_12_fallback_is_narrower_than_geneva_12() {
    let fonts = fonts();
    let overrides: Vec<OverrideFace> = Vec::new();
    let helvetica = get_font_face_with_overrides(&fonts, &overrides, FONT_HELVETICA, 12)
        .expect("baked Helvetica 12 fallback should resolve directly");
    let geneva = get_font_face_with_overrides(&fonts, &overrides, FONT_GENEVA, 12)
        .expect("baked Geneva 12 should resolve");
    assert_eq!(helvetica.font_id, FONT_HELVETICA);
    assert_eq!(helvetica.size, 12);
    assert_eq!(
        helvetica.metrics.ascent + helvetica.metrics.descent + helvetica.metrics.leading,
        14
    );

    let notice_line = "Please note that EV Override is not a free product.";
    assert!(width(helvetica, notice_line) < width(geneva, notice_line));
    assert!(
        width(helvetica, "Register...") <= 56,
        "fallback Helvetica 12 should fit classic 90px dialog buttons"
    );
}

#[test]
fn space_has_advance_and_no_ink() {
    let fonts = fonts();
    let face = ready(get_font_face(&fonts, FONT_GENEVA, 12)).unwrap();
    let space = &face.glyphs[0];
    assert!(space.advance > 0, "space must advance");
    let len = (space.width as usize) * (space.height as usize);
    let data_slice = &face.data[space.data_offset..space.data_offset + len];
    assert!(
        data_slice.iter().all(|&b| b == 0),
        "space must render no ink"
    );
}

#[test]
fn alphanumerics_rest_on_the_baseline() {
    for face in fonts().font_table() {
        for byte in (b'0'..=b'9').chain(b'A'..=b'Z').chain(b'a'..=b'z') {
            let g = glyph(face, byte);
            if g.height == 0 {
                continue;
            }
            let bottom = g.origin_y as i32 + g.height as i32;
            assert!(
                bottom >= 0,
                "({}, {}) glyph {:?} floats {}px above the baseline",
                face.font_id,
                face.size,
                byte as char,
                -bottom
            );
            assert!(
                bottom <= face.metrics.descent as i32,
                "({}, {}) glyph {:?} sinks {}px below the {}px descent",
                face.font_id,
                face.size,
                byte as char,
                bottom,
                face.metrics.descent
            );
        }
    }
}

#[test]
fn ascender_letters_share_one_top_line() {
    assert_shared_top("ascender", ASCENDER_LETTERS, 1);
}

#[test]
fn descender_bowls_sit_on_the_x_height_line() {
    for face in fonts().font_table() {
        let x_top = glyph(face, b'o').origin_y;
        for &byte in DESCENDER_LETTERS {
            let g = glyph(face, byte);
            if g.height == 0 {
                continue;
            }
            let above = x_top as i32 - g.origin_y as i32;
            assert!(
                (0..=2).contains(&above),
                "({}, {}) descender {:?} bowl starts at row {} but x-height is at {}",
                face.font_id,
                face.size,
                byte as char,
                g.origin_y,
                x_top
            );
        }
    }
}

#[test]
fn descender_letters_share_one_bottom_line() {
    assert_shared_bottom("descender", DESCENDER_LETTERS, 2);
}

#[test]
fn descender_letters_actually_descend() {
    for face in fonts().font_table() {
        for &byte in DESCENDER_LETTERS {
            let g = glyph(face, byte);
            if g.height == 0 {
                continue;
            }
            let bottom = g.origin_y as i32 + g.height as i32;
            assert!(
                bottom > 0 && bottom <= face.metrics.descent as i32,
                "({}, {}) descender {:?} bottom {} outside 1..={}",
                face.font_id,
                face.size,
                byte as char,
                bottom,
                face.metrics.descent
            );
        }
    }
}

#[test]
fn digits_are_uniform_height() {
    assert_shared_top("digit", b"0123456789", 1);
    assert_shared_bottom("digit", b"0123456789", 2);
}

#[test]
fn x_height_letters_share_one_top_line() {
    assert_shared_top("x-height", PLAIN_X_HEIGHT, 0);
}

#[test]
fn baked_data_is_binary() {
    for face in fonts().font_table() {
        for &b in face.data {
            assert!(b == 0 || b == 255, "baked pixel 0x{b:02X} not binary");
        }
    }
}

#[test]
fn override_directory_entries_win_over_baked_faces() {
    let fonts = fonts();
    let glyphs: &'static [Glyph] = Vec::leak(vec![
        Glyph { width: 0, height: 0, advance: 13, origin_x: 0, origin_y: 0, data_offset: 0 };
        95
    ]);
    let face: &'static FontFace = Box::leak(Box::new(FontFace {
        font_id: FONT_CHICAGO,
        size: 12,
        metrics: FontMetrics { ascent: 99, descent: 11, wid_max: 13, leading: 7 },
        glyphs,
        data: &[],
    }));
    let overrides = vec![OverrideFace { font_id: FONT_CHICAGO, size: 12, face }];

    let face = get_font_face_with_overrides(&fonts, &overrides, FONT_CHICAGO, 12)
        .expect("chicago 12 should resolve");
    assert_eq!(face.metrics.ascent, 99, "override should win over baked");
    assert_eq!(face.metrics.descent, 11);
    assert_eq!(face.glyphs.len(), 95);
    assert!(
        face.glyphs.iter().all(|g| g.advance == 13),
        "all override glyphs carry the fingerprint advance"
    );
    let zero = get_font_face_with_overrides(&fonts, &overrides, FONT_CHICAGO, 0).unwrap();
    assert_eq!(zero.metrics.ascent, 99);

    let geneva = get_font_face_with_overrides(&fonts, &overrides, FONT_GENEVA, 12)
        .expect("baked geneva 12 still there");
    assert_ne!(
        geneva.metrics.ascent, 99,
        "non-overridden face must keep built-in systemless metrics"
    );
    assert!(get_font_face_with_overrides(&fonts, &overrides, FONT_GENEVA, 13).is_none());
}

#[test]
fn packed_faces_stand_in_table_order() {
    let keys: Vec<(i16, i16)> =
        packed_faces(&artwork()).iter().map(|face| (face.font_id, face.size)).collect();
    assert_eq!(
        keys,
        vec![
            (0, 9),
            (0, 12),
            (1, 12),
            (2, 12),
            (2, 14),
            (2, 18),
            (3, 9),
            (3, 10),
            (21, 12),
            (3, 12),
            (3, 14),
            (3, 18),
            (3, 24),
            (4, 9),
            (4, 10),
            (4, 12),
            (5, 14),
            (6, 18),
            (11, 18),
        ]
    );
}

#[test]
fn helvetica_12_has_the_glyphs_of_geneva_10() {
    let fonts = fonts();
    let helvetica = get_baked_font_face(&fonts, FONT_HELVETICA, 12).unwrap();
    let geneva = get_baked_font_face(&fonts, FONT_GENEVA, 10).unwrap();
    assert_eq!(helvetica.glyphs, geneva.glyphs);
    assert_eq!(helvetica.data, geneva.data);
    assert_eq!(
        helvetica.metrics,
        FontMetrics { ascent: 10, descent: 3, wid_max: 12, leading: 1 }
    );
}

#[test]
fn a_table_is_searched_for_family_and_size() {
    let table = fonts().font_table();
    let face = find_in_table(table, FONT_MONACO, 10).unwrap();
    assert_eq!((face.font_id, face.size), (FONT_MONACO, 10));
    assert!(find_in_table(table, FONT_MONACO, 11).is_none());
    assert!(find_in_table(table, FONT_SYMBOL, 12).is_none());
    assert!(find_in_table(&[], FONT_MONACO, 10).is_none());
}

#[test]
fn an_exact_lookup_finds_nothing_else() {
    let fonts = fonts();
    assert!(ready(get_font_face(&fonts, FONT_VENICE, 12)).is_none());
    assert!(ready(get_font_face(&fonts, FONT_COURIER, 12)).is_none());
    assert!(ready(get_font_face(&fonts, FONT_CHICAGO, -12)).is_none());
    assert_eq!(ready(get_font_face(&fonts, FONT_CHICAGO, 0)).unwrap().size, 12);
}

#[test]
fn families_are_stood_in_for() {
    assert_eq!(fallback_font_id(FONT_APPLICATION), Some(FONT_GENEVA));
    assert_eq!(fallback_font_id(FONT_HELVETICA), Some(FONT_GENEVA));
    assert_eq!(fallback_font_id(FONT_PALATINO), Some(FONT_NEWYORK));
    assert_eq!(fallback_font_id(FONT_TIMES), Some(FONT_NEWYORK));
    assert_eq!(fallback_font_id(FONT_COURIER), Some(FONT_MONACO));
    assert_eq!(fallback_font_id(FONT_CHICAGO), None);
    assert_eq!(fallback_font_id(-1), None);

    let fonts = fonts();
    let family = |font_id: i16, size: i16| -> (i16, i16) {
        let face = ready(get_font_face_or_default(&fonts, font_id, size));
        (face.font_id, face.size)
    };
    assert_eq!(family(FONT_APPLICATION, 12), (FONT_APPLICATION, 12));
    assert_eq!(family(FONT_APPLICATION, 9), (FONT_GENEVA, 9));
    assert_eq!(family(FONT_HELVETICA, 12), (FONT_HELVETICA, 12));
    assert_eq!(family(FONT_HELVETICA, 18), (FONT_GENEVA, 18));
    assert_eq!(family(FONT_TIMES, 14), (FONT_NEWYORK, 14));
    assert_eq!(family(FONT_COURIER, 10), (FONT_MONACO, 10));
    for size in -3i16..80 {
        assert_eq!(family(FONT_PALATINO, size).0, FONT_NEWYORK);
        assert_eq!(family(FONT_TIMES, size).0, FONT_NEWYORK);
        assert_eq!(family(FONT_COURIER, size).0, FONT_MONACO);
        assert_eq!(family(FONT_VENICE, size).0, FONT_VENICE);
        assert_eq!(family(FONT_LONDON, size).0, FONT_LONDON);
        assert_eq!(family(FONT_CAIRO, size).0, FONT_CAIRO);
        assert_eq!(family(FONT_CHICAGO, size).0, FONT_CHICAGO);
    }
}

#[test]
fn unknown_families_get_chicago_12() {
    let fonts = fonts();
    for (font_id, size) in [(FONT_ATHENS, 18), (FONT_SYMBOL, 0), (-5, 7), (1234, i16::MIN)] {
        let (face, scale) = ready(get_font_face_scaled(&fonts, font_id, size));
        assert_eq!((face.font_id, face.size, scale), (FONT_CHICAGO, 12, 1));
    }
}

#[test]
fn a_half_or_a_third_of_the_size_is_enlarged() {
    let fonts = fonts();
    let scaled = |font_id: i16, size: i16| -> (i16, i16, i16) {
        let (face, scale) = ready(get_font_face_scaled(&fonts, font_id, size));
        (face.font_id, face.size, scale)
    };
    assert_eq!(scaled(FONT_CHICAGO, 18), (FONT_CHICAGO, 9, 2));
    assert_eq!(scaled(FONT_CHICAGO, 24), (FONT_CHICAGO, 12, 2));
    assert_eq!(scaled(FONT_CHICAGO, 27), (FONT_CHICAGO, 9, 3));
    assert_eq!(scaled(FONT_CHICAGO, 36), (FONT_CHICAGO, 12, 3));
    assert_eq!(scaled(FONT_COURIER, 18), (FONT_MONACO, 9, 2));
    assert_eq!(scaled(FONT_COURIER, 30), (FONT_MONACO, 10, 3));
    assert_eq!(scaled(FONT_CHICAGO, 40), (FONT_CHICAGO, 12, 1));
    assert_eq!(scaled(FONT_CHICAGO, 0), (FONT_CHICAGO, 12, 1));
    assert_eq!(scaled(FONT_VENICE, 0), (FONT_VENICE, 14, 1));
}

#[test]
fn the_default_and_the_scaled_lookup_find_the_same_face() {
    let fonts = fonts();
    for font_id in -1i16..30 {
        for size in -2i16..60 {
            let face = ready(get_font_face_or_default(&fonts, font_id, size));
            let (same, scale) = ready(get_font_face_scaled(&fonts, font_id, size));
            assert_eq!((face.font_id, face.size), (same.font_id, same.size));
            assert!(scale == 1 || same.size * scale == size);
        }
    }
}

#[test]
fn ratios_are_of_whole_positive_sizes() {
    let fonts = fonts();
    let ratio = |font_id: i16, size: i16| -> (i16, i32, i32) {
        let (face, numerator, denominator) =
            ready(get_font_face_scale_ratio(&fonts, font_id, size));
        (face.size, numerator, denominator)
    };
    assert_eq!(ratio(FONT_CHICAGO, 12), (12, 12, 12));
    assert_eq!(ratio(FONT_CHICAGO, 0), (12, 12, 12));
    assert_eq!(ratio(FONT_CHICAGO, -7), (9, 1, 9));
    assert_eq!(ratio(FONT_CHICAGO, 24), (12, 24, 12));
    assert_eq!(ratio(FONT_CAIRO, 12), (18, 12, 18));
}

#[test]
fn the_closest_strike_stands_in_and_ties_go_to_the_larger() {
    let fonts = fonts();
    let closest = |font_id: i16, size: i16| -> Option<i16> {
        closest_font_face(&fonts, font_id, size).map(|face| face.size)
    };
    assert_eq!(closest(FONT_NEWYORK, 13), Some(14));
    assert_eq!(closest(FONT_NEWYORK, 16), Some(18));
    assert_eq!(closest(FONT_NEWYORK, 15), Some(14));
    assert_eq!(closest(FONT_GENEVA, 11), Some(12));
    assert_eq!(closest(FONT_GENEVA, i16::MAX), Some(24));
    assert_eq!(closest(FONT_GENEVA, i16::MIN), Some(9));
    assert_eq!(closest(FONT_NEWYORK, 0), Some(12));
    assert_eq!(closest(FONT_COURIER, 12), None);

    assert!(is_nearer(14, 12, 13));
    assert!(!is_nearer(12, 14, 13));
    assert!(is_nearer(12, 14, 12));
    assert!(!is_nearer(12, 12, 12));
}

#[test]
fn size_zero_is_twelve_points() {
    assert_eq!(lookup_size(0), 12);
    assert_eq!(lookup_size(9), 9);
    assert_eq!(lookup_size(-1), -1);
}

#[test]
fn built_in_faces_have_neither_mac_roman_characters_nor_italics() {
    let fonts = fonts();
    assert!(get_macroman_glyph(&fonts, FONT_CHICAGO, 12, 0xA5).is_none());
    assert!(get_italic_glyph(&fonts, FONT_CHICAGO, 12, 'A').is_none());
}

#[test]
fn artwork_is_whole_where_all_its_pixels_are_there_and_clear_or_set() {
    assert!(artwork().is_whole());

    let mut art = artwork();
    art.cairo18.glyphs = &art.cairo18.glyphs[..94];
    assert!(!art.is_whole());

    let mut art = artwork();
    let mut data = art.geneva10.data.to_vec();
    data[3] = 254;
    art.geneva10.data = Vec::leak(data);
    assert!(!art.is_whole());

    let mut art = artwork();
    art.chicago9.data = &art.chicago9.data[..art.chicago9.data.len() - 1];
    assert!(!art.is_whole());
}

#[test]
fn every_found_face_has_its_pixels() {
    let fonts = fonts();
    for family in [FONT_CHICAGO, FONT_PALATINO, FONT_TIMES, FONT_SYMBOL, 4321] {
        for size in [0, 9, 13, 20, 48] {
            let face = ready(get_font_face_or_default(&fonts, family, size));
            assert_eq!(face.glyphs.len(), 95);
            assert!(face.data.iter().all(|&b| b == 0 || b == 255));
            for glyph in face.glyphs {
                let area = glyph.width as usize * glyph.height as usize;
                assert!(glyph.data_offset + area <= face.data.len());
            }
        }
    }
}
