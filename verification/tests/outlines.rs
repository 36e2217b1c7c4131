//! Scalable fonts that applications carry.
use quickdraw_fonts::lookup::request_outline_face;
use quickdraw_fonts::outline::choose_glyph;
use quickdraw_fonts::raster::assemble_face;
use quickdraw_fonts::{
    get_font_face, get_font_face_or_default, get_font_face_scale_ratio, get_font_face_scaled,
    get_italic_glyph, get_macroman_glyph, install_outline_face,
    register_resource_font_strike_for_family, register_resource_outline_font,
    resolve_font_overrides, FontMetrics, FontStore, Glyph, Lookup, OutlineRaster, OutlineRequest,
    PixelFace, PixelFonts, RasterGlyph, RasterOutline, RasterPixel, FONT_CHICAGO, FONT_COURIER,
    FONT_MONACO,
};

fn blank() -> PixelFace {
    PixelFace {
        metrics: FontMetrics { ascent: 9, descent: 2, wid_max: 8, leading: 1 },
        glyphs: Vec::leak(vec![
            Glyph { width: 0, height: 0, advance: 6, origin_x: 0, origin_y: 0, data_offset: 0 };
            95
        ]),
        data: &[],
    }
}

fn fonts(mac_roman: Vec<char>) -> FontStore {
    let art = PixelFonts {
        chicago9: blank(),
        chicago12: blank(),
        application12: blank(),
        newyork12: blank(),
        newyork14: blank(),
        newyork18: blank(),
        geneva9: blank(),
        geneva10: blank(),
        geneva12: blank(),
        geneva14: blank(),
        geneva18: blank(),
        geneva24: blank(),
        monaco9: blank(),
        monaco10: blank(),
        monaco12: blank(),
        venice14: blank(),
        london18: blank(),
        cairo18: blank(),
    };
    let mut fonts = FontStore::new(&art, mac_roman);
    resolve_font_overrides(&mut fonts, None, &Vec::new());
    fonts
}

fn ready<T>(found: Lookup<T>) -> T {
    match found {
        Lookup::Ready(value) => value,
        Lookup::NeedsOverrides => panic!("the environment is already consulted"),
        Lookup::NeedsRaster(_) => panic!("nothing is left to draw"),
    }
}

fn asked<T>(found: Lookup<T>) -> OutlineRequest {
    match found {
        Lookup::NeedsRaster(request) => request,
        Lookup::NeedsOverrides => panic!("the environment is already consulted"),
        Lookup::Ready(_) => panic!("the outline has to be drawn first"),
    }
}

fn word(bytes: &mut Vec<u8>, value: u16) {
    bytes.extend_from_slice(&value.to_be_bytes());
}

fn long(bytes: &mut Vec<u8>, value: u32) {
    bytes.extend_from_slice(&value.to_be_bytes());
}

/// A `cmap` subtable of format 6: glyphs for the characters from `first` on.
fn trimmed_map(first: u16, glyphs: &[u16]) -> Vec<u8> {
    let mut map: Vec<u8> = Vec::new();
    word(&mut map, 6);
    word(&mut map, 10 + 2 * glyphs.len() as u16);
    word(&mut map, 0);
    word(&mut map, first);
    word(&mut map, glyphs.len() as u16);
    for glyph in glyphs {
        word(&mut map, *glyph);
    }
    map
}

/// A scalable font with these `cmap` subtables, each with its platform, and without outlines.
fn sfnt(subtables: &[(u16, Vec<u8>)]) -> Vec<u8> {
    let mut cmap: Vec<u8> = Vec::new();
    word(&mut cmap, 0);
    word(&mut cmap, subtables.len() as u16);
    let mut at = 4 + 8 * subtables.len();
    for (platform, map) in subtables {
        word(&mut cmap, *platform);
        word(&mut cmap, if *platform == 0 { 3 } else { 0 });
        long(&mut cmap, at as u32);
        at += map.len();
    }
    for (_, map) in subtables {
        cmap.extend_from_slice(map);
    }
    let mut head = vec![0u8; 54];
    head[18..20].copy_from_slice(&1000u16.to_be_bytes());
    let hhea = vec![0u8; 36];
    let mut maxp: Vec<u8> = Vec::new();
    long(&mut maxp, 0x0000_5000);
    word(&mut maxp, 400);

    let tables: [(&[u8; 4], Vec<u8>); 4] =
        [(b"cmap", cmap), (b"head", head), (b"hhea", hhea), (b"maxp", maxp)];
    let mut font: Vec<u8> = Vec::new();
    long(&mut font, 0x0001_0000);
    word(&mut font, 4);
    font.extend_from_slice(&[0; 6]);
    let mut offset = 12 + 16 * tables.len();
    for (tag, table) in &tables {
        font.extend_from_slice(*tag);
        long(&mut font, 0);
        long(&mut font, offset as u32);
        long(&mut font, table.len() as u32);
        offset += table.len();
    }
    for (_, table) in &tables {
        font.extend_from_slice(table);
    }
    font
}

/// `A` is glyph 5 by Unicode; `A`, `B` and Mac Roman 0x80 are glyphs 70, 71 and 90 by their
/// Macintosh codes; `é` is glyph 33 by Unicode.
fn two_maps() -> Vec<u8> {
    let mut mac: Vec<u16> = vec![0; 0x100];
    mac[0x41] = 70;
    mac[0x42] = 71;
    mac[0x80] = 90;
    sfnt(&[
        (0, trimmed_map(0x41, &[5])),
        (0, trimmed_map(0xE9, &[33])),
        (1, trimmed_map(0, &mac)),
    ])
}

fn dot(advance: i32, x: u32, y: u32, value: i32) -> RasterGlyph {
    RasterGlyph {
        advance,
        outline: Some(RasterOutline {
            width: 2,
            height: 2,
            min_x: -1,
            min_y: -2,
            pixels: vec![RasterPixel { x, y, value }],
        }),
    }
}

fn no_outline(advance: i32) -> RasterGlyph {
    RasterGlyph { advance, outline: None }
}

/// Spaces but for `!`, which is a dot, and Mac Roman 0x81, which is another.
fn raster() -> OutlineRaster {
    let mut ascii: Vec<RasterGlyph> = Vec::new();
    for nth in 0..95 {
        ascii.push(if nth == 1 { dot(3, 1, 0, 200) } else { no_outline(4) });
    }
    let mut macroman: Vec<RasterGlyph> = Vec::new();
    for nth in 0..128 {
        macroman.push(if nth == 1 { dot(7, 0, 1, 255) } else { no_outline(4) });
    }
    OutlineRaster { ascent: 11, descent: 3, leading: 2, ascii, macroman }
}

#[test]
fn what_is_no_font_is_refused() {
    let mut fonts = fonts(Vec::new());
    assert!(!register_resource_outline_font(&mut fonts, 300, b"not a font"));
    assert!(!register_resource_outline_font(&mut fonts, 300, &[]));
    assert!(!register_resource_outline_font(&mut fonts, -1, &two_maps()));
    assert!(request_outline_face(&fonts, 300, 12).is_none());
    assert!(request_outline_face(&fonts, -1, 12).is_none());
    assert!(register_resource_outline_font(&mut fonts, 300, &two_maps()));
    assert!(request_outline_face(&fonts, 300, 12).is_some());
    assert!(request_outline_face(&fonts, 300, 0).is_none());
    assert!(request_outline_face(&fonts, 300, -4).is_none());
    assert!(request_outline_face(&fonts, 301, 12).is_none());
}

#[test]
fn unicode_goes_before_the_macintosh_code() {
    assert_eq!(choose_glyph(5, Some(70)), 5);
    assert_eq!(choose_glyph(5, None), 5);
    assert_eq!(choose_glyph(0, Some(71)), 71);
    assert_eq!(choose_glyph(0, None), 0);
}

#[test]
fn a_request_names_the_glyphs_to_draw() {
    let mut fonts = fonts(vec!['\u{E9}', 'A']);
    let bytes = two_maps();
    assert!(register_resource_outline_font(&mut fonts, 300, &bytes));
    let request = asked(get_font_face(&fonts, 300, 13));
    assert_eq!((request.font_id, request.size), (300, 13));
    assert_eq!(request.bytes, &bytes[..]);
    assert_eq!(request.ascii.len(), 95);
    assert_eq!(request.ascii[0], 0);
    assert_eq!(request.ascii[(b'A' - b' ') as usize], 5);
    assert_eq!(request.ascii[(b'B' - b' ') as usize], 71);
    assert_eq!(request.ascii[(b'C' - b' ') as usize], 0);
    assert_eq!(request.macroman.len(), 128);
    // 0x80 is `é`, which Unicode maps; 0x81 is `A`; behind the table stands `?`.
    assert_eq!(request.macroman[0], 33);
    assert_eq!(request.macroman[1], 5);
    assert_eq!(request.macroman[2], 0);
}

#[test]
fn a_mac_roman_code_that_unicode_does_not_map_is_drawn_by_its_code() {
    let mut fonts = fonts(vec!['\u{C4}']);
    assert!(register_resource_outline_font(&mut fonts, 300, &two_maps()));
    assert_eq!(asked(get_font_face(&fonts, 300, 13)).macroman[0], 90);
}

#[test]
fn only_the_first_macintosh_subtable_counts_and_a_broken_one_ends_the_search() {
    let first = trimmed_map(0x42, &[71]);
    let second = trimmed_map(0x41, &[72, 73]);
    let mut fonts = fonts(Vec::new());
    let bytes = sfnt(&[(0, trimmed_map(0x61, &[5])), (1, first.clone()), (1, second.clone())]);
    assert!(register_resource_outline_font(&mut fonts, 300, &bytes));
    let request = asked(get_font_face(&fonts, 300, 13));
    assert_eq!(request.ascii[(b'A' - b' ') as usize], 0);
    assert_eq!(request.ascii[(b'B' - b' ') as usize], 71);

    // A subtable of an unknown format.
    let bytes = sfnt(&[(0, vec![0, 99, 0, 0]), (1, second)]);
    assert!(register_resource_outline_font(&mut fonts, 301, &bytes));
    let request = asked(get_font_face(&fonts, 301, 13));
    assert_eq!(request.ascii[(b'A' - b' ') as usize], 0);
}

#[test]
fn a_drawn_face_is_found_from_then_on() {
    let mut fonts = fonts(Vec::new());
    assert!(register_resource_outline_font(&mut fonts, 300, &two_maps()));
    let request = asked(get_font_face(&fonts, 300, 0));
    assert_eq!(request.size, 12);
    let face = install_outline_face(&mut fonts, request.font_id, request.size, &raster());
    assert_eq!((face.font_id, face.size), (300, 12));
    assert_eq!(
        face.metrics,
        FontMetrics { ascent: 11, descent: 3, wid_max: 7, leading: 2 }
    );
    let found = ready(get_font_face(&fonts, 300, 12)).unwrap();
    assert_eq!(found.glyphs, face.glyphs);
    assert_eq!(found.data, &[0, 255, 0, 0, 0, 0, 255, 0]);
    let (glyph, data) = get_macroman_glyph(&fonts, 300, 12, 0x81).unwrap();
    assert_eq!((glyph.advance, glyph.data_offset), (7, 4));
    assert_eq!(data, found.data);
    assert!(get_macroman_glyph(&fonts, 300, 12, 0x7F).is_none());
    // Other sizes are still to be drawn.
    assert_eq!(asked(get_font_face(&fonts, 300, 14)).size, 14);
    assert_eq!(asked(get_font_face_or_default(&fonts, 300, 24)).size, 24);
}

#[test]
fn every_lookup_asks_at_most_once() {
    let mut fonts = fonts(Vec::new());
    assert!(register_resource_outline_font(&mut fonts, FONT_MONACO, &two_maps()));
    // Courier is stood in for by Monaco, whose scalable font has to be drawn.
    let request = asked(get_font_face_scaled(&fonts, FONT_COURIER, 40));
    assert_eq!((request.font_id, request.size), (FONT_MONACO, 40));
    let face = install_outline_face(&mut fonts, request.font_id, request.size, &raster());
    let (found, scale) = ready(get_font_face_scaled(&fonts, FONT_COURIER, 40));
    assert_eq!((found.font_id, found.size, scale), (FONT_MONACO, 40, 1));
    assert_eq!(found.glyphs, face.glyphs);
    assert_eq!(
        ready(get_font_face_or_default(&fonts, FONT_COURIER, 40)).size,
        40
    );

    // So does the default face.
    assert!(register_resource_outline_font(&mut fonts, FONT_CHICAGO, &two_maps()));
    let request = asked(get_font_face_or_default(&fonts, 4321, 10));
    assert_eq!((request.font_id, request.size), (FONT_CHICAGO, 12));
    install_outline_face(&mut fonts, request.font_id, request.size, &raster());
    let face = ready(get_font_face_or_default(&fonts, 4321, 10));
    assert_eq!((face.font_id, face.size, face.metrics.ascent), (FONT_CHICAGO, 12, 11));

    let request = asked(get_font_face_scale_ratio(&fonts, FONT_MONACO, 9));
    assert_eq!((request.font_id, request.size), (FONT_MONACO, 9));
    install_outline_face(&mut fonts, request.font_id, request.size, &raster());
    let (face, wanted, size) = ready(get_font_face_scale_ratio(&fonts, FONT_MONACO, 9));
    assert_eq!((face.font_id, face.size, wanted, size), (FONT_MONACO, 9, 9, 9));

    let (face, wanted, size) = ready(get_font_face_scale_ratio(&fonts, 4322, 10));
    assert_eq!((face.font_id, face.size, wanted, size), (FONT_CHICAGO, 12, 10, 12));
}

#[test]
fn the_greatest_width_is_that_of_a_glyph() {
    let widest = |ascii: i32, roman: i32| {
        let mut drawn = raster();
        drawn.ascii[5].advance = ascii;
        drawn.macroman[9].advance = roman;
        let mut fonts = fonts(Vec::new());
        install_outline_face(&mut fonts, 300, 12, &drawn).metrics.wid_max
    };
    assert_eq!(widest(20, 4), 20);
    assert_eq!(widest(4, 21), 21);
    assert_eq!(widest(4, 4), 7);
    assert_eq!(widest(300, 4), 255);
    assert_eq!(widest(-3, -4), 7);
}

#[test]
fn nothing_that_is_registered_has_italics() {
    let mut fonts = fonts(Vec::new());
    assert!(register_resource_outline_font(&mut fonts, 300, &two_maps()));
    install_outline_face(&mut fonts, 300, 12, &raster());
    assert!(get_italic_glyph(&fonts, 300, 12, 'A').is_none());
    assert!(get_italic_glyph(&fonts, FONT_CHICAGO, 12, 'A').is_none());
}

#[test]
fn a_strike_goes_before_a_scalable_font_which_goes_before_a_built_in_face() {
    let mut fonts = fonts(Vec::new());
    assert!(register_resource_outline_font(&mut fonts, FONT_MONACO, &two_maps()));
    assert_eq!(asked(get_font_face(&fonts, FONT_MONACO, 12)).size, 12);
    let mut strike = vec![0u8; 38];
    strike[3] = 32;
    strike[5] = 32;
    strike[15] = 1;
    strike[17] = 9;
    strike[25] = 1;
    assert!(register_resource_font_strike_for_family(&mut fonts, FONT_MONACO, 12, &strike));
    assert_eq!(ready(get_font_face(&fonts, FONT_MONACO, 12)).unwrap().metrics.ascent, 0);
}

#[test]
fn a_later_scalable_font_replaces_the_earlier() {
    let mut fonts = fonts(Vec::new());
    assert!(register_resource_outline_font(&mut fonts, 300, &two_maps()));
    let later = sfnt(&[(0, trimmed_map(0x41, &[9]))]);
    assert!(register_resource_outline_font(&mut fonts, 300, &later));
    let request = asked(get_font_face(&fonts, 300, 13));
    assert_eq!(request.bytes, &later[..]);
    assert_eq!(request.ascii[(b'A' - b' ') as usize], 9);
    assert_eq!(request.ascii[(b'B' - b' ') as usize], 0);
}

#[test]
fn pixels_are_set_from_a_quarter_of_full_coverage_on() {
    let value_of = |value: i32| -> u8 {
        let mut drawn = raster();
        drawn.ascii[0] = dot(4, 1, 1, value);
        assemble_face(&drawn).coverage[3]
    };
    assert_eq!(value_of(63), 0);
    assert_eq!(value_of(64), 255);
    assert_eq!(value_of(255), 255);
    assert_eq!(value_of(400), 255);
    assert_eq!(value_of(-70), 0);
}

#[test]
fn pixels_land_where_rows_put_them_and_are_dropped_behind_the_box() {
    let mut drawn = raster();
    drawn.ascii[0] = RasterGlyph {
        advance: 4,
        outline: Some(RasterOutline {
            width: 3,
            height: 2,
            min_x: 0,
            min_y: 0,
            pixels: vec![
                RasterPixel { x: 0, y: 0, value: 255 },
                RasterPixel { x: 2, y: 1, value: 255 },
                RasterPixel { x: 1, y: 0, value: 255 },
                RasterPixel { x: 1, y: 0, value: 10 },
                // One column too far is the first pixel of the next row.
                RasterPixel { x: 3, y: 0, value: 255 },
                RasterPixel { x: 0, y: 2, value: 255 },
                RasterPixel { x: u32::MAX, y: u32::MAX, value: 255 },
            ],
        }),
    };
    let face = assemble_face(&drawn);
    assert_eq!(&face.coverage[..6], &[255, 0, 0, 255, 0, 255]);
}

#[test]
fn boxes_advances_and_displacements_are_clamped() {
    let mut drawn = raster();
    drawn.descent = -4;
    drawn.leading = -1;
    drawn.ascii[0] = RasterGlyph {
        advance: 1000,
        outline: Some(RasterOutline {
            width: 300,
            height: -5,
            min_x: -200,
            min_y: 200,
            pixels: vec![RasterPixel { x: 0, y: 0, value: 255 }],
        }),
    };
    drawn.ascii[2] = no_outline(-3);
    let face = assemble_face(&drawn);
    assert_eq!(
        face.metrics,
        FontMetrics { ascent: 11, descent: 0, wid_max: 255, leading: 0 }
    );
    assert_eq!(
        face.ascii[0],
        Glyph {
            width: 255,
            height: 0,
            advance: 255,
            origin_x: -128,
            origin_y: 127,
            data_offset: 0
        }
    );
    assert_eq!(face.ascii[2].advance, 0);
    assert_eq!(face.ascii[2].data_offset, 4);
    assert_eq!(face.macroman[0].mac_code, 0x80);
    assert_eq!(face.macroman[127].mac_code, 0xFF);
    assert!(face.coverage.iter().all(|&b| b == 0 || b == 255));
}
