//! Scalable fonts whose counts and offsets add up to more than 32 bits.
use quickdraw_fonts::decimal::read_decimal;
use quickdraw_fonts::{
    outline_parses_in_range, register_resource_outline_font, FontMetrics, FontStore, Glyph,
    PixelFace, PixelFonts,
};

fn blank() -> PixelFace {
    PixelFace {
        metrics: FontMetrics { ascent: 9, descent: 2, wid_max: 8, leading: 1 },
        glyphs: Vec::leak(vec![
            Glyph { width: 0, height: 0, advance: 6, origin_x: 0, origin_y: 0, data_offset: 0 };
            95
        ]),
        data: &[],
    }
}

fn fonts() -> FontStore {
    let art = PixelFonts {
        chicago9: blank(),
        chicago12: blank(),
        application12: blank(),
        newyork12: blank(),
        newyork14: blank(),
        newyork18: blank(),
        geneva9: blank(),
        geneva10: blank(),
        geneva12: blank(),
        geneva14: blank(),
        geneva18: blank(),
        geneva24: blank(),
        monaco9: blank(),
        monaco10: blank(),
        monaco12: blank(),
        venice14: blank(),
        london18: blank(),
        cairo18: blank(),
    };
    FontStore::new(&art, Vec::new())
}

fn word(bytes: &mut Vec<u8>, value: u16) {
    bytes.extend_from_slice(&value.to_be_bytes());
}

fn long(bytes: &mut Vec<u8>, value: u32) {
    bytes.extend_from_slice(&value.to_be_bytes());
}

fn put_long(bytes: &mut [u8], offset: usize, value: u32) {
    bytes[offset..offset + 4].copy_from_slice(&value.to_be_bytes());
}

/// A scalable font without characters that holds one more table, and colors.
fn font_with(tag: &[u8; 4], table: &[u8]) -> Vec<u8> {
    let mut head = vec![0u8; 54];
    head[18..20].copy_from_slice(&1000u16.to_be_bytes());
    let hhea = vec![0u8; 36];
    let mut maxp: Vec<u8> = Vec::new();
    long(&mut maxp, 0x0000_5000);
    word(&mut maxp, 400);
    let cpal = [0, 0, 0, 1, 0, 1, 0, 1, 0, 0, 0, 14, 0, 0, 9, 9, 9, 9];
    let tables: [(&[u8; 4], &[u8]); 5] = [
        (tag, table),
        (b"head", &head),
        (b"hhea", &hhea),
        (b"maxp", &maxp),
        (b"CPAL", &cpal),
    ];
    let mut font: Vec<u8> = Vec::new();
    long(&mut font, 0x0001_0000);
    word(&mut font, 5);
    font.extend_from_slice(&[0; 6]);
    let mut offset = 12 + 16 * tables.len();
    for (tag, table) in &tables {
        font.extend_from_slice(*tag);
        long(&mut font, 0);
        long(&mut font, offset as u32);
        long(&mut font, table.len() as u32);
        offset += table.len();
    }
    for (_, table) in &tables {
        font.extend_from_slice(table);
    }
    font
}

/// A font that holds the table can be read and is accepted.
fn assert_accepted(tag: &[u8; 4], table: &[u8]) {
    let font = font_with(tag, table);
    assert!(outline_parses_in_range(&font), "{tag:?} is in range");
    assert!(register_resource_outline_font(&mut fonts(), 300, &font), "{tag:?} does no harm");
}

/// A sum in the table is out of range.
fn assert_out_of_range(tag: &[u8; 4], table: &[u8]) {
    assert!(!outline_parses_in_range(&font_with(tag, table)), "{tag:?} is out of range");
}

/// The greatest count of records of `size` bytes that ends in range behind `before` bytes.
fn greatest(before: u32, size: u32) -> u32 {
    (u32::MAX - before) / size
}

#[test]
fn what_is_no_scalable_font_is_in_range() {
    assert!(outline_parses_in_range(&[]));
    assert!(outline_parses_in_range(b"not a font"));
    assert!(outline_parses_in_range(&[0xFF; 64]));
    assert_accepted(b"name", &[]);
}

#[test]
fn a_collection_counts_its_faces() {
    let mut bytes = b"ttcf\0\x01\0\0".to_vec();
    long(&mut bytes, u32::MAX);
    assert!(!outline_parses_in_range(&bytes));
    put_long(&mut bytes, 8, greatest(12, 4) + 1);
    assert!(!outline_parses_in_range(&bytes));
    put_long(&mut bytes, 8, greatest(12, 4));
    assert!(outline_parses_in_range(&bytes));
    assert!(!register_resource_outline_font(&mut fonts(), 300, &bytes));
}

#[test]
fn the_first_face_of_a_collection_starts_in_range() {
    let mut bytes = b"ttcf\0\x01\0\0".to_vec();
    long(&mut bytes, 1);
    // One that is not there is not read.
    long(&mut bytes, u32::MAX);
    assert!(outline_parses_in_range(&bytes));
    assert!(!register_resource_outline_font(&mut fonts(), 300, &bytes));
    // A face that is there is read like one that stands alone.
    put_long(&mut bytes, 12, 16);
    let mut sbix = vec![0, 1, 0, 0];
    long(&mut sbix, u32::MAX);
    let mut font = font_with(b"sbix", &sbix);
    for nth in 0..5 {
        let at = 12 + 16 * nth + 8;
        let offset = u32::from_be_bytes([font[at], font[at + 1], font[at + 2], font[at + 3]]);
        put_long(&mut font, at, offset + 16);
    }
    bytes.extend_from_slice(&font);
    assert!(!outline_parses_in_range(&bytes));
    // Nor is one that starts before the offsets end, or that is not counted.
    put_long(&mut bytes, 8, 2);
    assert!(outline_parses_in_range(&bytes));
    assert!(!register_resource_outline_font(&mut fonts(), 300, &bytes));
    put_long(&mut bytes, 8, 0);
    assert!(outline_parses_in_range(&bytes));
    assert!(!register_resource_outline_font(&mut fonts(), 300, &bytes));
}

#[test]
fn a_directory_of_as_many_records_as_a_word_can_count_is_out_of_range() {
    let mut bytes = vec![0, 1, 0, 0, 0xFF, 0xFF];
    bytes.resize(12 + 16 * 0xFFFF, 0);
    assert!(!outline_parses_in_range(&bytes));
    // One that is cut short is not read.
    assert!(outline_parses_in_range(&bytes[..bytes.len() - 1]));
    assert!(!register_resource_outline_font(&mut fonts(), 300, &bytes[..bytes.len() - 1]));
    bytes[5] = 0xFE;
    assert!(outline_parses_in_range(&bytes));
    assert!(!register_resource_outline_font(&mut fonts(), 300, &bytes));
}

#[test]
fn a_table_that_is_not_there_is_not_read() {
    let mut sbix = vec![0, 1, 0, 0];
    long(&mut sbix, u32::MAX);
    let mut font = font_with(b"sbix", &sbix);
    assert!(!outline_parses_in_range(&font));
    put_long(&mut font, 24, u32::MAX);
    assert!(outline_parses_in_range(&font));
    assert!(register_resource_outline_font(&mut fonts(), 300, &font));
}

#[test]
fn no_table_of_a_font_is_read_where_one_that_it_needs_is_missing_or_broken() {
    let mut sbix = vec![0, 1, 0, 0];
    long(&mut sbix, u32::MAX);
    let sound = font_with(b"sbix", &sbix);
    assert!(!outline_parses_in_range(&sound));
    let (head, hhea, maxp) = (92 + 8, 92 + 8 + 54, 92 + 8 + 54 + 36);
    let broken = |place: usize, value: u8| {
        let mut font = sound.clone();
        font[place] = value;
        assert!(outline_parses_in_range(&font), "byte {place}");
        assert!(!register_resource_outline_font(&mut fonts(), 300, &font), "byte {place}");
    };
    // The tags.
    broken(28, b'x');
    broken(44, b'x');
    broken(60, b'x');
    // The lengths.
    broken(28 + 15, 53);
    broken(44 + 15, 35);
    broken(60 + 15, 5);
    // Units, the form of offsets, the version and the number of glyphs.
    broken(head + 18, 0xFF);
    broken(head + 51, 2);
    broken(maxp + 3, 7);
    let mut font = sound.clone();
    font[maxp + 4] = 0;
    font[maxp + 5] = 0;
    assert!(outline_parses_in_range(&font));
    assert!(!register_resource_outline_font(&mut fonts(), 300, &font));
    assert_eq!(hhea + 36, maxp);
}

#[test]
fn bitmap_strikes_are_counted_in_range() {
    let mut sbix = vec![0, 1, 0, 0];
    long(&mut sbix, greatest(8, 4));
    assert_accepted(b"sbix", &sbix);
    put_long(&mut sbix, 4, greatest(8, 4) + 1);
    assert_out_of_range(b"sbix", &sbix);
    // Another version is not read.
    sbix[1] = 2;
    assert_accepted(b"sbix", &sbix);
    assert_accepted(b"sbix", &[0, 1]);
}

/// A variation store with its regions at an offset.
fn variations(regions: u32) -> Vec<u8> {
    let mut store = vec![0, 1];
    long(&mut store, regions);
    word(&mut store, 0);
    store
}

#[test]
fn paints_layers_clips_and_variations_are_in_range() {
    let mut colr = vec![0u8; 34];
    colr[1] = 1;
    put_long(&mut colr, 14, 34);
    long(&mut colr, 0);
    assert_accepted(b"COLR", &colr);
    put_long(&mut colr, 34, greatest(38, 6));
    assert_accepted(b"COLR", &colr);
    put_long(&mut colr, 34, greatest(38, 6) + 1);
    assert_out_of_range(b"COLR", &colr);
    put_long(&mut colr, 34, 0);

    let mut layers = colr.clone();
    put_long(&mut layers, 18, 38);
    long(&mut layers, greatest(42, 4));
    assert_accepted(b"COLR", &layers);
    put_long(&mut layers, 38, greatest(42, 4) + 1);
    assert_out_of_range(b"COLR", &layers);

    let mut clips = colr.clone();
    put_long(&mut clips, 22, 38);
    clips.push(1);
    long(&mut clips, greatest(5, 7));
    assert_accepted(b"COLR", &clips);
    put_long(&mut clips, 39, greatest(5, 7) + 1);
    assert_out_of_range(b"COLR", &clips);

    let mut varied = colr.clone();
    put_long(&mut varied, 30, 38);
    varied.extend_from_slice(&variations(u32::MAX - 2));
    assert_accepted(b"COLR", &varied);
    put_long(&mut varied, 40, u32::MAX - 1);
    assert_out_of_range(b"COLR", &varied);

    // Version 0 has none of these.
    varied[1] = 0;
    assert_accepted(b"COLR", &varied);
    varied[1] = 1;

    // Nothing is read behind what is not there.
    let mut early = varied.clone();
    put_long(&mut early, 34, greatest(38, 6));
    assert_accepted(b"COLR", &early);
    let mut early = layers.clone();
    early[3] = 9;
    assert_accepted(b"COLR", &early);
    let mut early = layers.clone();
    early[13] = 14;
    assert_accepted(b"COLR", &early);
    assert_accepted(b"COLR", &layers[..33]);

    // Without colors nothing is read.
    let mut font = font_with(b"COLR", &varied);
    assert!(!outline_parses_in_range(&font));
    let palettes = font.len() - 18 + 5;
    font[palettes] = 0;
    assert!(outline_parses_in_range(&font));
    assert!(register_resource_outline_font(&mut fonts(), 300, &font));
    font[palettes] = 1;
    font[12 + 16 * 4] = b'x';
    assert!(outline_parses_in_range(&font));
    assert!(register_resource_outline_font(&mut fonts(), 300, &font));
}

#[test]
fn glyph_definitions_vary_in_range() {
    let mut gdef = vec![0u8; 18];
    put_long(&mut gdef, 0, 0x0001_0003);
    assert_accepted(b"GDEF", &gdef);
    put_long(&mut gdef, 14, 18);
    gdef.extend_from_slice(&variations(u32::MAX - 2));
    assert_accepted(b"GDEF", &gdef);
    put_long(&mut gdef, 20, u32::MAX - 1);
    assert_out_of_range(b"GDEF", &gdef);
    // Sets of marks that start at the end leave the rest unread.
    gdef[13] = 26;
    assert_accepted(b"GDEF", &gdef);
    gdef[13] = 0;
    // A store that is cut short ends before its regions.
    gdef[25] = 1;
    assert_accepted(b"GDEF", &gdef);
    gdef[25] = 0;
    put_long(&mut gdef, 0, 0x0001_0002);
    assert_accepted(b"GDEF", &gdef);
}

#[test]
fn feature_variations_are_counted_in_range() {
    for tag in [b"GPOS", b"GSUB"] {
        let mut layout = vec![0u8; 14];
        put_long(&mut layout, 0, 0x0001_0001);
        put_long(&mut layout, 10, 14);
        layout[5] = 16;
        layout[7] = 16;
        layout[9] = 16;
        long(&mut layout, 0x0001_0000);
        long(&mut layout, greatest(8, 8));
        assert_accepted(tag, &layout);
        put_long(&mut layout, 18, greatest(8, 8) + 1);
        assert_out_of_range(tag, &layout);
        // Scripts, features and lookups have to be there.
        for place in [5, 7, 9] {
            layout[place] = 14;
            if place < 9 {
                // A list of one record of six bytes is.
                assert_out_of_range(tag, &layout);
            }
            layout[place] = 22;
            assert_accepted(tag, &layout);
            layout[place] = 16;
        }
        put_long(&mut layout, 0, 0x0001_0000);
        assert_accepted(tag, &layout);
    }
}

#[test]
fn metrics_vary_in_range() {
    for tag in [b"HVAR", b"VVAR"] {
        let mut metrics = vec![0u8; 24];
        put_long(&mut metrics, 0, 0x0001_0000);
        put_long(&mut metrics, 4, 24);
        metrics.extend_from_slice(&variations(u32::MAX - 26));
        assert_accepted(tag, &metrics);
        put_long(&mut metrics, 26, u32::MAX - 25);
        assert_out_of_range(tag, &metrics);
    }
    let mut mvar = vec![0u8; 12];
    put_long(&mut mvar, 0, 0x0001_0000);
    mvar[7] = 8;
    mvar[9] = 1;
    mvar[11] = 20;
    mvar.extend_from_slice(&[0; 8]);
    mvar.extend_from_slice(&variations(u32::MAX - 22));
    assert_accepted(b"MVAR", &mvar);
    put_long(&mut mvar, 22, u32::MAX - 21);
    assert_out_of_range(b"MVAR", &mvar);
    for (place, value) in [(7, 9), (9, 0), (9, 3), (11, 0)] {
        let mut unread = mvar.clone();
        unread[place] = value;
        assert_accepted(b"MVAR", &unread);
    }
}

#[test]
fn kerning_subtables_are_in_range() {
    let mut kern = vec![0, 1, 0, 0, 0, 0, 0, 2];
    kern.extend_from_slice(&[0, 0, 0, 16, 0, 0, 0, 0, 0, 0, 0, 0, 0, 0, 0, 0]);
    long(&mut kern, u32::MAX - 16);
    kern.extend_from_slice(&[0; 4]);
    assert_accepted(b"kern", &kern);
    put_long(&mut kern, 24, u32::MAX - 15);
    assert_out_of_range(b"kern", &kern);
    // A subtable in no known format ends the list, and so does one that is too short.
    kern[29] = 4;
    assert_accepted(b"kern", &kern);
    kern[29] = 0;
    kern[11] = 7;
    assert_accepted(b"kern", &kern);
    kern[11] = 16;
    // So does one whose pairs are not there.
    kern[17] = 1;
    assert_accepted(b"kern", &kern);
    kern[17] = 0;
    // States, with their classes, have to be there too.
    kern[13] = 1;
    assert_out_of_range(b"kern", &kern);
    for place in [19, 21, 23] {
        kern[place] = 9;
        assert_accepted(b"kern", &kern);
        kern[place] = 0;
    }
    kern[13] = 0;
    assert_out_of_range(b"kern", &kern);
    kern[7] = 0;
    assert_accepted(b"kern", &kern);
    kern[7] = 2;
    kern[1] = 0;
    assert_accepted(b"kern", &kern);
}

#[test]
fn character_maps_are_counted_in_range() {
    for (format, place, size) in [(10u16, 16, 2), (12, 12, 12), (13, 12, 12), (14, 6, 11)] {
        let mut cmap = vec![0, 0, 0, 1, 0, 0, 0, 3, 0, 0, 0, 12];
        word(&mut cmap, format);
        cmap.resize(12 + place, 0);
        let counted = place as u32 + 4;
        long(&mut cmap, greatest(counted, size));
        assert_accepted(b"cmap", &cmap);
        put_long(&mut cmap, 12 + place, greatest(counted, size) + 1);
        assert_out_of_range(b"cmap", &cmap);
        // Records that are not all there are not read.
        cmap[3] = 9;
        assert_accepted(b"cmap", &cmap);
        cmap[3] = 1;
        // A map in a format without such a count.
        cmap[13] = 6;
        assert_accepted(b"cmap", &cmap);
    }
}

/// An index of one object whose last offset is given, with a word or a long for its count.
fn index(wide: bool, last: u32) -> Vec<u8> {
    let mut index: Vec<u8> = Vec::new();
    if wide {
        long(&mut index, 1);
    } else {
        word(&mut index, 1);
    }
    index.push(4);
    long(&mut index, 1);
    long(&mut index, last);
    index
}

/// A whole number as an operand.
fn number(value: usize) -> [u8; 3] {
    [28, (value >> 8) as u8, value as u8]
}

/// A `CFF` table with this top dictionary and something behind it.
fn cff(dict: &[u8], behind: &[u8]) -> Vec<u8> {
    let mut table = vec![1, 0, 4, 4, 0, 0, 0, 1, 1, 1, 1 + dict.len() as u8];
    table.extend_from_slice(dict);
    table.extend_from_slice(&[0, 0, 0, 0]);
    table.extend_from_slice(behind);
    table
}

/// A `CFF2` table with this top dictionary and something behind it.
fn cff2(dict: &[u8], behind: &[u8]) -> Vec<u8> {
    let mut table = vec![2, 0, 5, 0, dict.len() as u8];
    table.extend_from_slice(dict);
    table.extend_from_slice(&[0, 0, 0, 0]);
    table.extend_from_slice(behind);
    table
}

/// An operator with whole numbers as its operands.
fn entry(operands: &[usize], operator: &[u8]) -> Vec<u8> {
    let mut entry: Vec<u8> = Vec::new();
    for operand in operands {
        entry.extend_from_slice(&number(*operand));
    }
    entry.extend_from_slice(operator);
    entry
}

/// An index of one glyph.
fn glyphs(wide: bool) -> Vec<u8> {
    let mut glyphs = index(wide, 2);
    glyphs.push(14);
    glyphs
}

#[test]
fn the_lists_of_a_cff_table_are_in_range() {
    assert_accepted(b"CFF ", &[]);
    assert_accepted(b"CFF ", &cff(&[], &[]));

    // The names, behind which at least the next count has to be in range, and the top
    // dictionaries.
    for (before, spare) in [(0, 2), (1, 0)] {
        let mut table = vec![1, 0, 4, 4];
        table.resize(4 + 2 * before, 0);
        let greatest = u32::MAX - (table.len() as u32 + 11) + 1 - spare;
        let mut fits = table.clone();
        fits.extend_from_slice(&index(false, greatest));
        assert_accepted(b"CFF ", &fits);
        table.extend_from_slice(&index(false, greatest + 1));
        assert_out_of_range(b"CFF ", &table);
        // Another version is not read.
        table[0] = 3;
        assert_accepted(b"CFF ", &table);
    }

    // The strings and the global subroutines, which are read where the dictionary leads to glyphs.
    for before in [0, 1] {
        for (dict, read) in [
            (entry(&[9], &[17]), true),
            (entry(&[0], &[17]), false),
            (entry(&[9], &[15]), false),
            (entry(&[9, 9], &[17]), false),
            (vec![138, 17, 140, 17], false),
            (vec![140, 17, 141, 17], true),
            (vec![140, 17, 30, 0xDF, 12, 7], false),
            (vec![140, 17, 30, 0x1F, 12, 7], true),
        ] {
            let mut table = vec![1, 0, 4, 4, 0, 0, 0, 1, 1, 1, 1 + dict.len() as u8];
            table.extend_from_slice(&dict);
            table.resize(table.len() + 2 * before, 0);
            let greatest = u32::MAX - (table.len() as u32 + 11) + 1;
            let mut fits = table.clone();
            fits.extend_from_slice(&index(false, greatest));
            assert_accepted(b"CFF ", &fits);
            table.extend_from_slice(&index(false, greatest + 1));
            if read {
                assert_out_of_range(b"CFF ", &table);
            } else {
                assert_accepted(b"CFF ", &table);
            }
        }
    }
}

#[test]
fn the_glyphs_of_a_cff_table_are_in_range() {
    let place = cff(&entry(&[0], &[17]), &[]).len();
    let dict = entry(&[place], &[17]);
    let greatest = u32::MAX - (place as u32 + 11) + 1;
    assert_accepted(b"CFF ", &cff(&dict, &index(false, greatest)));
    assert_out_of_range(b"CFF ", &cff(&dict, &index(false, greatest + 1)));
    // Only the last of two offsets counts.
    let dict = [entry(&[place + 4], &[17]), entry(&[9], &[17])].concat();
    assert_accepted(b"CFF ", &cff(&dict, &index(false, greatest)));
    let dict = [entry(&[9], &[17]), entry(&[place + 4], &[17])].concat();
    assert_out_of_range(b"CFF ", &cff(&dict, &index(false, greatest)));
}

/// A `CFF` table with glyphs and, behind them, something that the rest of its dictionary, which is
/// made for its place, leads to.
fn cff_with(dict: &dyn Fn(usize) -> Vec<u8>, behind: &[u8]) -> Vec<u8> {
    let glyphs_at = cff(&[entry(&[0], &[17]), dict(0)].concat(), &[]).len();
    let place = glyphs_at + glyphs(false).len();
    let dict = [entry(&[glyphs_at], &[17]), dict(place)].concat();
    cff(&dict, &[glyphs(false), behind.to_vec()].concat())
}

#[test]
fn the_subroutines_of_a_private_dictionary_are_in_range() {
    // They are counted from where they start.
    let mut private = entry(&[4], &[19]);
    private.extend_from_slice(&index(false, u32::MAX - 10));
    let leads = |place: usize| entry(&[4, place], &[18]);
    assert_accepted(b"CFF ", &cff_with(&leads, &private));
    let last = private.len() - 4;
    put_long(&mut private, last, u32::MAX - 9);
    assert_out_of_range(b"CFF ", &cff_with(&leads, &private));

    // The last of several places counts, and one that is no place leads nowhere.
    let twice = |place: usize| [entry(&[4, 0], &[18]), entry(&[4, place], &[18])].concat();
    assert_out_of_range(b"CFF ", &cff_with(&twice, &private));
    let away = |place: usize| [entry(&[4, place], &[18]), entry(&[4, 0], &[18])].concat();
    assert_accepted(b"CFF ", &cff_with(&away, &private));
    assert_accepted(b"CFF ", &cff_with(&|place| entry(&[place], &[18]), &private));
    assert_accepted(b"CFF ", &cff_with(&|place| entry(&[4, place + 99], &[18]), &private));

    // Charset and encoding have to be there, unless they are known ones.
    for (operator, value, read) in [
        (15, 2, true),
        (15, 9999, false),
        (16, 1, true),
        (16, 9999, false),
    ] {
        let dict = |place: usize| [entry(&[value], &[operator]), leads(place)].concat();
        let table = cff_with(&dict, &private);
        if read {
            assert_out_of_range(b"CFF ", &table);
        } else {
            assert_accepted(b"CFF ", &table);
        }
    }
    for (operator, list, read) in [
        (15u8, vec![0u8], true),
        (15, vec![1], true),
        (15, vec![2], true),
        (15, vec![3], false),
        (16, vec![0, 0], true),
        (16, vec![1, 1, 7, 7], true),
        (16, vec![2, 0], false),
        (16, vec![0x80, 0, 1, 7, 7, 7], true),
        (16, vec![0x80, 0, 0xFF], false),
    ] {
        let len = list.len();
        let dict = |place: usize| {
            [entry(&[place], &[operator]), entry(&[4, place + len], &[18])].concat()
        };
        let table = cff_with(&dict, &[list, private.clone()].concat());
        if read {
            assert_out_of_range(b"CFF ", &table);
        } else {
            assert_accepted(b"CFF ", &table);
        }
    }
}

#[test]
fn charsets_cover_all_glyphs() {
    // Four glyphs, of which the first is left out.
    let mut four = vec![0, 4, 1, 1, 1, 1, 1, 2];
    four.push(14);
    let mut private = entry(&[4], &[19]);
    private.extend_from_slice(&index(false, u32::MAX));
    for (list, read) in [
        (vec![0u8, 0, 1, 0, 2, 0, 3], true),
        (vec![1, 0, 1, 2], true),
        (vec![1, 0, 1, 0, 0, 2, 1], true),
        (vec![1, 0, 1, 3], false),
        (vec![2, 0, 1, 0, 2], true),
        (vec![2, 0, 1, 0, 3], false),
        (vec![2, 0, 1, 0xFF, 0xFF], false),
    ] {
        let dict = |glyphs: usize| {
            [
                entry(&[glyphs], &[17]),
                entry(&[glyphs + four.len()], &[15]),
                entry(&[4, glyphs + four.len() + list.len()], &[18]),
            ]
            .concat()
        };
        let glyphs = cff(&dict(0), &[]).len();
        let table = cff(&dict(glyphs), &[four.clone(), list.clone(), private.clone()].concat());
        if read {
            assert_out_of_range(b"CFF ", &table);
        } else {
            assert_accepted(b"CFF ", &table);
        }
    }
    // A charset that is cut short.
    let dict = |glyphs: usize| {
        [
            entry(&[glyphs], &[17]),
            entry(&[glyphs + four.len() + 4 + 11], &[15]),
            entry(&[4, glyphs + four.len()], &[18]),
        ]
        .concat()
    };
    let glyphs = cff(&dict(0), &[]).len();
    let behind = [four.clone(), private.clone(), vec![0, 0, 1, 0, 2, 0]].concat();
    assert_accepted(b"CFF ", &cff(&dict(glyphs), &behind));
}

#[test]
fn font_dictionaries_are_in_range() {
    let list = index(false, u32::MAX);
    let whole = |place: usize| {
        [
            entry(&[1, 1, 1], &[12, 30]),
            entry(&[place], &[15]),
            entry(&[place + 1], &[12, 36]),
            entry(&[1], &[12, 37]),
        ]
    };
    let behind = [vec![0], list].concat();
    assert_out_of_range(b"CFF ", &cff_with(&|place| whole(place).concat(), &behind));
    // Each of the entries is needed.
    for left_out in 0..4 {
        let dict = |place: usize| {
            let mut entries = whole(place);
            entries[left_out] = entry(&[1], &[12, 99]);
            entries.concat()
        };
        assert_accepted(b"CFF ", &cff_with(&dict, &behind));
    }
    // No known charset will do.
    let known = |place: usize| [whole(place).concat(), entry(&[2], &[15])].concat();
    assert_accepted(b"CFF ", &cff_with(&known, &behind));
}

/// The half bytes of a decimal number; `e` stands for a negative exponent.
fn half_bytes(text: &str) -> Vec<u8> {
    text.chars()
        .map(|ch| match ch {
            '.' => 10,
            'E' => 11,
            'e' => 12,
            '-' => 14,
            _ => ch as u8 - b'0',
        })
        .collect()
}

/// What a double-precision number makes of the text.
fn by_float(text: &str) -> Option<i64> {
    let spelled = text.replace('e', "E-");
    if spelled.len() > 64 {
        return None;
    }
    let value: i64 = spelled.parse::<f64>().ok()? as i32 as i64;
    // Only the sign of a negative number counts at its limit.
    Some(if value == i32::MIN as i64 { value + 1 } else { value })
}

#[test]
fn decimal_numbers_are_read_as_floats_read_them() {
    for text in [
        "", "-", ".", "-.", "E", "e", "1E", "1e", "E5", ".E5", "1E-", "1e-1", "--1", "1-", "1.2.3",
        "1E5.", "1E5E5", "0", "-0", "7", "-7", "5.", ".5", "-.5", "00012", "1.5E1", "15e1",
        "1E-1", "12E-1", "0.03E3", "1E9", "1E10", "-1E10", "1E99999999999999999999", "0E9999",
        "9e99999999999999999999", "2147483646.5", "2147483647", "2147483648", "2147483646.9999999",
        "0.99999999999999994", "0.99999999999999995", "0.999999999999999944488848768742172978818",
        "0.999999999999999944488848768742172978819", "1.9999999999999998", "1.9999999999999999",
        "1.99999999999999988897769753748", "1.9999999999999998889776975374843459576368",
        "1.9999999999999998889776975374843459576369", "2.99999999999999977795539507496",
        "2.99999999999999977795539507497", "3.9999999999999997", "3.9999999999999998",
        "4.9999999999999995", "4.9999999999999996", "-0.99999999999999999", "-0.9999999999999999",
        "29.99999999999999822364316059975", "29.999999999999998223643160599749535321893310546875",
        "29.999999999999998223643160599749535321893310546874", "9999999999999999999999999e25",
        "99999999999999999999999999999999999999999999999999999999999999e62",
        "99999999999999999999999999999999999999999999999999999999999999e61",
        "0000000000000000000000000000000000000000000000000000000000000030",
        "00000000000000000000000000000000000000000000000000000000000000030",
        "000000000000000000000000000000000000000000000000000000000000003e1",
        "00000000000000000000000000000000000000000000000000000000000003e1",
    ] {
        assert_eq!(read_decimal(&half_bytes(text)), by_float(text), "{text}");
    }
    // 13 stands for nothing.
    assert_eq!(read_decimal(&vec![1, 13]), None);

    // Numbers around the places where they are rounded up.
    let mut seed: u64 = 7;
    for nth in 0..20000u64 {
        seed = seed.wrapping_mul(6364136223846793005).wrapping_add(1442695040888963407);
        let whole = (seed >> 33) >> (nth % 31);
        let power = if whole == 0 { 54 } else { 53 - (63 - whole.leading_zeros()) };
        // The digits of 1 - 1/2^power, and one more or less in some place.
        let mut digits: Vec<u8> = Vec::new();
        let mut short: u128 = 1;
        let five: u128 = 5u128.pow(power);
        for place in (0..power).rev() {
            // What is short of one, in units of this place, rounded up.
            let scale = 10u128.checked_pow(place);
            let wanted = match scale {
                Some(scale) => five.div_ceil(scale),
                None => 1,
            };
            let digit = short * 10 - wanted.min(short * 10);
            digits.push(digit.min(9) as u8);
            short = short * 10 - digit.min(9);
        }
        let at = (seed % power as u64) as usize;
        match nth % 3 {
            0 => {}
            1 => digits[at] = (digits[at] + 1).min(9),
            _ => digits[at] = digits[at].saturating_sub(1),
        }
        let mut text = format!("{whole}.");
        for digit in &digits {
            text.push((b'0' + digit) as char);
        }
        assert_eq!(read_decimal(&half_bytes(&text)), by_float(&text), "{text}");
    }
}

#[test]
fn an_offset_can_be_a_decimal_number() {
    // The glyphs stand at 64; there are none at 63, where a zero goes before them.
    for (text, there) in [
        ("64", true),
        ("64.9", true),
        ("6.4E1", true),
        ("640e1", true),
        ("63.99999999999999999", true),
        ("63.9999", false),
        ("-64", false),
        ("6.4.0E1", false),
        ("", false),
    ] {
        let mut parts = half_bytes(text);
        parts.push(15);
        if parts.len() % 2 == 1 {
            parts.push(15);
        }
        let mut dict = vec![30];
        for pair in parts.chunks(2) {
            dict.push(pair[0] * 16 + pair[1]);
        }
        dict.push(17);
        let mut table = cff(&dict, &[]);
        table.resize(64, 0);
        table.extend_from_slice(&index(false, u32::MAX));
        if there {
            assert_out_of_range(b"CFF ", &table);
        } else {
            assert_accepted(b"CFF ", &table);
        }
    }
}

#[test]
fn the_parts_of_a_cff2_table_are_in_range() {
    assert_accepted(b"CFF2", &cff2(&[], &[]));

    // The global subroutines, which are read where the dictionary leads to glyphs.
    for (dict, read) in [
        (entry(&[9], &[17]), true),
        (entry(&[0], &[17]), false),
        (vec![138, 17, 140, 17], false),
        (vec![], false),
    ] {
        let mut globals = vec![2, 0, 5, 0, dict.len() as u8];
        globals.extend_from_slice(&dict);
        let greatest = u32::MAX - (globals.len() as u32 + 13) + 1;
        globals.extend_from_slice(&index(true, greatest));
        assert_accepted(b"CFF2", &globals);
        let last = globals.len() - 4;
        put_long(&mut globals, last, greatest + 1);
        if read {
            assert_out_of_range(b"CFF2", &globals);
        } else {
            assert_accepted(b"CFF2", &globals);
        }
    }

    // The glyphs.
    let place = cff2(&entry(&[0], &[17]), &[]).len();
    let dict = entry(&[place], &[17]);
    let greatest = u32::MAX - (place as u32 + 13) + 1;
    assert_accepted(b"CFF2", &cff2(&dict, &index(true, greatest)));
    assert_out_of_range(b"CFF2", &cff2(&dict, &index(true, greatest + 1)));
}

/// A `CFF2` table with glyphs and, behind them, something that the rest of its dictionary, which
/// is made for its place, leads to.
fn cff2_with(dict: &dyn Fn(usize) -> Vec<u8>, behind: &[u8]) -> Vec<u8> {
    let glyphs_at = cff2(&[entry(&[0], &[17]), dict(0)].concat(), &[]).len();
    let place = glyphs_at + glyphs(true).len();
    let dict = [entry(&[glyphs_at], &[17]), dict(place)].concat();
    cff2(&dict, &[glyphs(true), behind.to_vec()].concat())
}

#[test]
fn the_variations_and_dictionaries_of_a_cff2_table_are_in_range() {
    // The variations, with a word before them.
    let leads = |place: usize| entry(&[place], &[24]);
    let store_at = cff2_with(&leads, &[]).len() as u32 + 2;
    let mut behind = vec![0, 0];
    behind.extend_from_slice(&variations(u32::MAX - store_at - 2));
    assert_accepted(b"CFF2", &cff2_with(&leads, &behind));
    put_long(&mut behind, 4, u32::MAX - store_at - 1);
    assert_out_of_range(b"CFF2", &cff2_with(&leads, &behind));

    // The index of font dictionaries.
    let leads = |place: usize| entry(&[place], &[12, 36]);
    let dicts_at = cff2_with(&leads, &[]).len() as u32;
    let greatest = u32::MAX - (dicts_at + 13) + 1;
    assert_accepted(b"CFF2", &cff2_with(&leads, &index(true, greatest)));
    assert_out_of_range(b"CFF2", &cff2_with(&leads, &index(true, greatest + 1)));
    // Variations that are not whole leave it unread.
    let unread = |place: usize| [leads(place), entry(&[1], &[24])].concat();
    assert_accepted(b"CFF2", &cff2_with(&unread, &index(true, greatest + 1)));
    let mut store = vec![0, 0];
    store.extend_from_slice(&variations(8));
    store.extend_from_slice(&[0, 1, 0, 0]);
    let read = |place: usize| [entry(&[place], &[24]), leads(place + store.len())].concat();
    let list = index(true, u32::MAX);
    assert_out_of_range(b"CFF2", &cff2_with(&read, &[store.clone(), list.clone()].concat()));
    let mut short = store.clone();
    short[11] = 1;
    short[13] = 9;
    assert_accepted(b"CFF2", &cff2_with(&read, &[short, list].concat()));

    // The subroutines of the private dictionary of the first font dictionary that has some.
    let subroutines = |first: &dyn Fn(usize) -> Vec<u8>, last: u32| {
        let leads = |place: usize| entry(&[place], &[12, 36]);
        let place = cff2_with(&leads, &[]).len();
        let private = place + 25 + first(0).len() + 7;
        let dicts = [first(private), entry(&[4, private], &[18])];
        let mut behind = Vec::new();
        long(&mut behind, 2);
        behind.push(4);
        long(&mut behind, 1);
        long(&mut behind, 1 + dicts[0].len() as u32);
        long(&mut behind, 1 + dicts[0].len() as u32 + 7);
        behind.resize(25, 0);
        behind.drain(17..);
        behind.extend_from_slice(&dicts.concat());
        behind.resize(private - place, 0);
        behind.extend_from_slice(&entry(&[4], &[19]));
        behind.extend_from_slice(&index(true, last));
        cff2_with(&leads, &behind)
    };
    let nothing = |_: usize| Vec::new();
    assert_accepted(b"CFF2", &subroutines(&nothing, u32::MAX - 12));
    assert_out_of_range(b"CFF2", &subroutines(&nothing, u32::MAX - 11));
    // A private dictionary that is not there ends the search.
    let missing = |_: usize| entry(&[4, 30000], &[18]);
    assert_accepted(b"CFF2", &subroutines(&missing, u32::MAX - 11));
    // One without subroutines does not, and neither does one that is no place.
    let empty = |private: usize| entry(&[0, private], &[18]);
    assert_out_of_range(b"CFF2", &subroutines(&empty, u32::MAX - 11));
    let no_place = |private: usize| entry(&[private], &[18]);
    assert_out_of_range(b"CFF2", &subroutines(&no_place, u32::MAX - 11));
    // Of two places in one dictionary the first counts.
    let two = |private: usize| [entry(&[0, private], &[18]), entry(&[4, 30000], &[18])].concat();
    assert_out_of_range(b"CFF2", &subroutines(&two, u32::MAX - 11));
}

/// A font with two tables of one tag.
fn font_with_two(tag: &[u8; 4], first: &[u8], second: &[u8]) -> Vec<u8> {
    let mut font = font_with(tag, first);
    // A record behind the others moves all tables on.
    font[5] = 6;
    let end = font.len() as u32;
    let mut record = tag.to_vec();
    long(&mut record, 0);
    long(&mut record, end + 16);
    long(&mut record, second.len() as u32);
    for nth in 0..5 {
        let at = 12 + 16 * nth + 8;
        let offset = u32::from_be_bytes([font[at], font[at + 1], font[at + 2], font[at + 3]]);
        put_long(&mut font, at, offset + 16);
    }
    let tables = font.split_off(12 + 16 * 5);
    font.extend_from_slice(&record);
    font.extend_from_slice(&tables);
    font.extend_from_slice(second);
    font
}

#[test]
fn the_last_table_of_a_tag_counts() {
    let mut broken = vec![0, 1, 0, 0];
    long(&mut broken, u32::MAX);
    let sound = [0, 1, 0, 0, 0, 0, 0, 0];
    let font = font_with_two(b"sbix", &broken, &sound);
    assert!(outline_parses_in_range(&font));
    assert!(register_resource_outline_font(&mut fonts(), 300, &font));
    let mut font = font_with_two(b"sbix", &sound, &broken);
    assert!(!outline_parses_in_range(&font));
    // One that is not there counts too.
    let record = 12 + 16 * 5;
    put_long(&mut font, record + 12, 9999);
    assert!(outline_parses_in_range(&font));
    assert!(register_resource_outline_font(&mut fonts(), 300, &font));
    let mut font = font_with_two(b"sbix", &broken, &sound);
    put_long(&mut font, record + 12, 9999);
    assert!(outline_parses_in_range(&font));
    assert!(register_resource_outline_font(&mut fonts(), 300, &font));

    let mut cmap = vec![0, 0, 0, 1, 0, 0, 0, 3, 0, 0, 0, 12, 0, 12, 0, 0, 0, 0, 0, 0, 0, 0, 0, 0];
    long(&mut cmap, u32::MAX);
    let font = font_with_two(b"cmap", &cmap, &[0, 0, 0, 0]);
    assert!(outline_parses_in_range(&font));
    assert!(register_resource_outline_font(&mut fonts(), 300, &font));
    assert!(!outline_parses_in_range(&font_with_two(b"cmap", &[0, 0, 0, 0], &cmap)));
}

#[test]
fn character_maps_are_read_up_to_the_first_that_is_not_there() {
    let map = |platform: u16, first: &[u8]| {
        let mut cmap = vec![0, 0, 0, 2];
        word(&mut cmap, platform);
        word(&mut cmap, 3);
        long(&mut cmap, 20);
        cmap.extend_from_slice(&[0, 1, 0, 0]);
        long(&mut cmap, 20 + first.len() as u32);
        cmap.extend_from_slice(first);
        cmap.extend_from_slice(&[0, 12, 0, 0, 0, 0, 0, 0, 0, 0, 0, 0]);
        long(&mut cmap, u32::MAX);
        cmap
    };
    let sized = |format: u8, len: usize, places: &[(usize, u8)]| {
        let mut first = vec![0u8; len];
        first[1] = format;
        for (place, value) in places {
            first[*place] = *value;
        }
        first
    };
    for (first, there) in [
        (sized(0, 262, &[]), true),
        (sized(0, 245, &[]), false),
        (sized(2, 526, &[]), true),
        (sized(2, 526, &[(6 + 510, 1)]), false),
        (sized(2, 509, &[]), false),
        (sized(4, 24, &[(7, 2)]), true),
        (sized(4, 24, &[(7, 1)]), false),
        (sized(4, 24, &[(7, 8)]), false),
        (sized(6, 12, &[(9, 1)]), true),
        (sized(6, 12, &[(9, 20)]), false),
        (sized(8, 2, &[]), true),
        (sized(10, 22, &[(19, 1)]), true),
        (sized(10, 22, &[(19, 20)]), false),
        (sized(12, 28, &[(15, 1)]), true),
        (sized(12, 28, &[(15, 3)]), false),
        (sized(13, 16, &[]), true),
        (sized(14, 10, &[]), true),
        (sized(14, 10, &[(9, 2)]), false),
        (sized(9, 300, &[]), false),
    ] {
        if there {
            assert_out_of_range(b"cmap", &map(0, &first));
        } else {
            assert_accepted(b"cmap", &map(0, &first));
        }
    }
    assert_out_of_range(b"cmap", &map(4, &[0, 8]));
    assert_accepted(b"cmap", &map(5, &[0, 8]));
}

#[test]
fn bitmap_strikes_of_too_many_glyphs_are_not_read() {
    let mut sbix = vec![0, 1, 0, 0];
    long(&mut sbix, u32::MAX);
    let mut font = font_with(b"sbix", &sbix);
    assert!(!outline_parses_in_range(&font));
    let maxp = 92 + 8 + 54 + 36;
    font[maxp + 4] = 0xFF;
    font[maxp + 5] = 0xFF;
    assert!(outline_parses_in_range(&font));
    assert!(register_resource_outline_font(&mut fonts(), 300, &font));
}
