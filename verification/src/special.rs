//! Glyphs outside the printable ASCII characters: Mac Roman characters and italics.
use crate::glyph::{Glyph, ItalicFace, ItalicModel, MacRomanFace, RomanModel};
#[allow(unused_imports)]
use crate::ids::effective_size;
use crate::ids::lookup_size;
use crate::store::{FontStore, StoreModel};
use vstd::prelude::*;

verus! {

/// A glyph, and the coverage bytes that it indexes into.
pub open spec fn inked(found: Option<(&'static Glyph, &'static [u8])>) -> Option<
    (Glyph, Seq<u8>),
> {
    match found {
        Some((glyph, data)) => Some((*glyph, data@)),
        None => None,
    }
}

/// The face's first glyph for a Mac Roman code, from glyph number `from` on.
pub open spec fn roman_glyph_from(face: RomanModel, mac_code: u8, from: int) -> Option<
    (Glyph, Seq<u8>),
>
    decreases face.glyphs.len() - from,
{
    if from < 0 || from >= face.glyphs.len() {
        None
    } else if face.glyphs[from].mac_code == mac_code {
        Some((face.glyphs[from].glyph, face.data))
    } else {
        roman_glyph_from(face, mac_code, from + 1)
    }
}

/// The face's first glyph for a Mac Roman code.
pub open spec fn roman_glyph(face: RomanModel, mac_code: u8) -> Option<(Glyph, Seq<u8>)> {
    roman_glyph_from(face, mac_code, 0)
}

/// The first face of a table for exactly that family and size, from face number `from` on.
pub open spec fn roman_face_from(
    table: Seq<RomanModel>,
    font_id: i16,
    size: i16,
    from: int,
) -> Option<RomanModel>
    decreases table.len() - from,
{
    if from < 0 || from >= table.len() {
        None
    } else if table[from].font_id == font_id && table[from].size == size {
        Some(table[from])
    } else {
        roman_face_from(table, font_id, size, from + 1)
    }
}

/// The glyph for a Mac Roman code in the first face of a table for exactly that family and size.
pub open spec fn table_roman_glyph(
    table: Seq<RomanModel>,
    font_id: i16,
    size: i16,
    mac_code: u8,
) -> Option<(Glyph, Seq<u8>)> {
    match roman_face_from(table, font_id, size, 0) {
        Some(face) => roman_glyph(face, mac_code),
        None => None,
    }
}

/// The glyph for a Mac Roman code: that of a strike from an application, else a built-in one.
pub open spec fn macroman_lookup(
    fonts: StoreModel,
    font_id: i16,
    size: i16,
    mac_code: u8,
) -> Option<(Glyph, Seq<u8>)> {
    let key = (font_id, effective_size(size));
    if fonts.roman_strikes.contains_key(key) && roman_glyph(
        fonts.roman_strikes[key],
        mac_code,
    ) is Some {
        roman_glyph(fonts.roman_strikes[key], mac_code)
    } else {
        table_roman_glyph(fonts.macroman_table, key.0, key.1, mac_code)
    }
}

/// The first face of a table for exactly that family and size, from face number `from` on.
pub open spec fn italic_face_from(
    table: Seq<ItalicModel>,
    font_id: i16,
    size: i16,
    from: int,
) -> Option<ItalicModel>
    decreases table.len() - from,
{
    if from < 0 || from >= table.len() {
        None
    } else if table[from].font_id == font_id && table[from].size == size {
        Some(table[from])
    } else {
        italic_face_from(table, font_id, size, from + 1)
    }
}

/// The italic glyph of a character in the first face of a table for exactly that family and size.
/// Only printable ASCII characters have one, and a glyph without box and advance is none.
pub open spec fn italic_lookup(
    table: Seq<ItalicModel>,
    font_id: i16,
    size: i16,
    ch: char,
) -> Option<(Glyph, Seq<u8>)> {
    match italic_face_from(table, font_id, effective_size(size), 0) {
        Some(face) => {
            let nth = ch as int - 0x20;
            if ' ' <= ch <= '~' && nth < face.glyphs.len() && !(face.glyphs[nth].width == 0
                && face.glyphs[nth].height == 0 && face.glyphs[nth].advance == 0) {
                Some((face.glyphs[nth], face.data))
            } else {
                None
            }
        },
        None => None,
    }
}

/// What the faces of a table hold.
pub open spec fn roman_models(table: Seq<MacRomanFace>) -> Seq<RomanModel> {
    table.map_values(|face: MacRomanFace| face@)
}

/// What the faces of a table hold.
pub open spec fn italic_models(table: Seq<ItalicFace>) -> Seq<ItalicModel> {
    table.map_values(|face: ItalicFace| face@)
}

/// The face's first glyph for a Mac Roman code.
pub fn find_roman_glyph(face: &'static MacRomanFace, mac_code: u8) -> (found: Option<
    (&'static Glyph, &'static [u8]),
>)
    ensures
        inked(found) == roman_glyph(face@, mac_code),
{
    let mut i: usize = 0;
    while i < face.glyphs.len()
        invariant
            i <= face.glyphs@.len(),
            roman_glyph(face@, mac_code) == roman_glyph_from(face@, mac_code, i as int),
        decreases face.glyphs@.len() - i,
    {
        let entry = &face.glyphs[i];
        if entry.mac_code == mac_code {
            return Some((&entry.glyph, face.data));
        }
        i = i + 1;
    }
    None
}

/// The glyph for a Mac Roman code in the first face of a table for exactly that family and size.
pub fn find_macroman_glyph(
    table: &'static [MacRomanFace],
    font_id: i16,
    size: i16,
    mac_code: u8,
) -> (found: Option<(&'static Glyph, &'static [u8])>)
    ensures
        inked(found) == table_roman_glyph(roman_models(table@), font_id, size, mac_code),
{
    let mut i: usize = 0;
    while i < table.len()
        invariant
            i <= table@.len(),
            roman_face_from(roman_models(table@), font_id, size, 0) == roman_face_from(
                roman_models(table@),
                font_id,
                size,
                i as int,
            ),
        decreases table@.len() - i,
    {
        let face: &'static MacRomanFace = &table[i];
        assert(roman_models(table@)[i as int] == face@);
        if face.font_id == font_id && face.size == size {
            return find_roman_glyph(face, mac_code);
        }
        i = i + 1;
    }
    None
}

/// The glyph for a Mac Roman code above the ASCII range, and the coverage bytes that it indexes
/// into.
pub fn get_macroman_glyph(fonts: &FontStore, font_id: i16, size: i16, mac_code: u8) -> (found:
    Option<(&'static Glyph, &'static [u8])>)
    requires
        fonts.wf(),
    ensures
        inked(found) == macroman_lookup(fonts@, font_id, size, mac_code),
{
    let size: i16 = lookup_size(size);
    if let Some(face) = fonts.roman_strike(font_id, size) {
        if let Some(hit) = find_roman_glyph(face, mac_code) {
            return Some(hit);
        }
    }
    find_macroman_glyph(fonts.macroman_table(), font_id, size, mac_code)
}

/// The italic glyph of a character in the first face of a table for exactly that family and size.
pub fn find_italic_glyph(table: &'static [ItalicFace], font_id: i16, size: i16, ch: char) -> (
found: Option<(&'static Glyph, &'static [u8])>)
    ensures
        inked(found) == italic_lookup(italic_models(table@), font_id, size, ch),
{
    let wanted: i16 = lookup_size(size);
    let mut i: usize = 0;
    while i < table.len()
        invariant
            i <= table@.len(),
            wanted == effective_size(size),
            italic_face_from(italic_models(table@), font_id, wanted, 0) == italic_face_from(
                italic_models(table@),
                font_id,
                wanted,
                i as int,
            ),
        decreases table@.len() - i,
    {
        let face: &'static ItalicFace = &table[i];
        assert(italic_models(table@)[i as int] == face@);
        if face.font_id == font_id && face.size == wanted {
            if ch < ' ' || ch > '~' {
                return None;
            }
            let nth: usize = ch as usize - 32;
            if nth >= face.glyphs.len() {
                return None;
            }
            let glyph = &face.glyphs[nth];
            if glyph.width == 0 && glyph.height == 0 && glyph.advance == 0 {
                return None;
            }
            return Some((glyph, face.data));
        }
        i = i + 1;
    }
    None
}

/// The italic glyph of a character, and the coverage bytes that it indexes into. No italics are
/// built in and none are ever registered, so there is none.
pub fn get_italic_glyph(fonts: &FontStore, font_id: i16, size: i16, ch: char) -> (found: Option<
    (&'static Glyph, &'static [u8]),
>)
    requires
        fonts.wf(),
    ensures
        inked(found) == italic_lookup(fonts@.italic_table, font_id, size, ch),
        found is None,
{
    proof {
        fonts.lemma_wf();
    }
    find_italic_glyph(fonts.italic_table(), font_id, size, ch)
}

} // verus!
