//! What holds of every bitmap strike that is taken in.
use crate::glyph::{glyph_in_bounds, is_binary, RomanModel, ASCII_GLYPHS};
use crate::special::{roman_glyph, roman_glyph_from};
use crate::store::{strike_face, strike_roman};
use crate::strike::{
    ascii_coverage, ascii_glyph, glyph_pixels, glyph_width, has_glyph, has_roman, header,
    is_strike, roman_coverage, roman_glyphs, strike_glyph, ROMAN_CODES,
};
use vstd::prelude::*;

verus! {

/// A glyph's coverage bytes fill its box, and the box fits into bytes.
pub proof fn lemma_glyph_box(bytes: Seq<u8>, index: int)
    requires
        is_strike(bytes),
        has_glyph(bytes, index),
    ensures
        0 <= glyph_width(bytes, index) <= 255,
        glyph_pixels(bytes, index).len() == glyph_width(bytes, index) * header(bytes).height,
        glyph_pixels(bytes, index).len() <= 65025,
        is_binary(glyph_pixels(bytes, index)),
{
    let width = glyph_width(bytes, index);
    let height = header(bytes).height as int;
    assert(0 <= width * height <= 65025) by (nonlinear_arith)
        requires
            0 <= width <= 255,
            0 <= height <= 255,
    ;
}

/// All pixels of the printable ASCII characters are fully clear or fully set, and they are few.
pub proof fn lemma_ascii_coverage(bytes: Seq<u8>, count: nat)
    requires
        is_strike(bytes),
    ensures
        is_binary(ascii_coverage(bytes, count)),
        ascii_coverage(bytes, count).len() <= count * 65025,
    decreases count,
{
    if count > 0 {
        lemma_ascii_coverage(bytes, (count - 1) as nat);
        let index = header(bytes).index_of(0x20 + count - 1);
        if has_glyph(bytes, index) {
            lemma_glyph_box(bytes, index);
        }
    }
}

/// All pixels are fully clear or fully set, and they are few.
pub proof fn lemma_roman_coverage(bytes: Seq<u8>, count: nat)
    requires
        is_strike(bytes),
    ensures
        is_binary(roman_coverage(bytes, count)),
        roman_coverage(bytes, count).len() <= (ASCII_GLYPHS + count) * 65025,
    decreases count,
{
    if count == 0 {
        lemma_ascii_coverage(bytes, ASCII_GLYPHS as nat);
    } else {
        lemma_roman_coverage(bytes, (count - 1) as nat);
        let code = 0x80 + count - 1;
        if has_roman(bytes, code) {
            lemma_glyph_box(bytes, code - header(bytes).first_char);
        }
    }
}

/// Later characters leave the pixels of earlier ones where they are.
pub proof fn lemma_ascii_prefix(bytes: Seq<u8>, shorter: nat, longer: nat)
    requires
        shorter <= longer,
    ensures
        ascii_coverage(bytes, shorter).is_prefix_of(ascii_coverage(bytes, longer)),
    decreases longer,
{
    if shorter < longer {
        lemma_ascii_prefix(bytes, shorter, (longer - 1) as nat);
    }
}

/// Later characters leave the pixels of earlier ones where they are.
pub proof fn lemma_roman_prefix(bytes: Seq<u8>, shorter: nat, longer: nat)
    requires
        shorter <= longer,
    ensures
        roman_coverage(bytes, shorter).is_prefix_of(roman_coverage(bytes, longer)),
    decreases longer,
{
    if shorter < longer {
        lemma_roman_prefix(bytes, shorter, (longer - 1) as nat);
    }
}

/// What stands behind `before` at the start of `data` is found at its place.
pub proof fn lemma_block(data: Seq<u8>, before: Seq<u8>, block: Seq<u8>)
    requires
        (before + block).is_prefix_of(data),
    ensures
        before.len() + block.len() <= data.len(),
        data.subrange(before.len() as int, (before.len() + block.len()) as int) == block,
{
    let all = before + block;
    assert forall|i: int| 0 <= i < block.len() implies data[before.len() + i] == block[i] by {
        assert(all[before.len() + i] == block[i]);
        assert(data.subrange(0, all.len() as int)[before.len() + i] == data[before.len() + i]);
    }
    assert(data.subrange(before.len() as int, (before.len() + block.len()) as int) =~= block);
}

/// The coverage bytes that a registered face has for a printable ASCII character are the pixels
/// that the strike's bitmap has for it.
pub proof fn law_ascii_glyph_shows_its_bitmap(font_id: i16, size: i16, bytes: Seq<u8>, nth: int)
    requires
        is_strike(bytes),
        0 <= nth < ASCII_GLYPHS,
        has_glyph(bytes, header(bytes).index_of(0x20 + nth)),
    ensures
        ({
            let face = strike_face(font_id, size, bytes);
            let glyph = face.glyphs[nth];
            &&& glyph_in_bounds(glyph, face.data)
            &&& face.data.subrange(
                glyph.data_offset as int,
                glyph.data_offset + glyph.width * glyph.height,
            ) == glyph_pixels(bytes, header(bytes).index_of(0x20 + nth))
        }),
{
    let index = header(bytes).index_of(0x20 + nth);
    let data = roman_coverage(bytes, ROMAN_CODES as nat);
    lemma_glyph_box(bytes, index);
    lemma_ascii_coverage(bytes, nth as nat);
    lemma_ascii_prefix(bytes, (nth + 1) as nat, ASCII_GLYPHS as nat);
    lemma_roman_prefix(bytes, 0, ROMAN_CODES as nat);
    let glyph = ascii_glyph(bytes, nth);
    let offset = ascii_coverage(bytes, nth as nat).len() as int;
    assert(glyph.data_offset == offset);
    assert(glyph.width == glyph_width(bytes, index));
    assert(glyph.height == header(bytes).height);
    let before = ascii_coverage(bytes, nth as nat);
    let upto = ascii_coverage(bytes, (nth + 1) as nat);
    assert(upto == before + glyph_pixels(bytes, index));
    lemma_block(data, before, glyph_pixels(bytes, index));
}

/// Where the glyph of an encoded Mac Roman character that can be shown stands in the list.
pub proof fn lemma_roman_entry(bytes: Seq<u8>, code: int, count: nat) -> (at: int)
    requires
        is_strike(bytes),
        has_roman(bytes, code),
        0x80 <= code < 0x80 + count,
        count <= ROMAN_CODES,
    ensures
        0 <= at < roman_glyphs(bytes, count).len(),
        roman_glyphs(bytes, count)[at].mac_code == code,
        roman_glyphs(bytes, count)[at].glyph == strike_glyph(
            bytes,
            code - header(bytes).first_char,
            roman_coverage(bytes, (code - 0x80) as nat).len() as int,
        ),
    decreases count,
{
    if code == 0x80 + count - 1 {
        roman_glyphs(bytes, (count - 1) as nat).len() as int
    } else {
        lemma_roman_entry(bytes, code, (count - 1) as nat)
    }
}

/// The list has its glyphs in the order of their codes.
pub proof fn lemma_roman_order(bytes: Seq<u8>, count: nat)
    requires
        count <= ROMAN_CODES,
    ensures
        forall|i: int|
            0 <= i < roman_glyphs(bytes, count).len() ==> 0x80 <= (#[trigger] roman_glyphs(
                bytes,
                count,
            )[i]).mac_code < 0x80 + count,
        forall|i: int, j: int|
            0 <= i < j < roman_glyphs(bytes, count).len() ==> (#[trigger] roman_glyphs(
                bytes,
                count,
            )[i]).mac_code < (#[trigger] roman_glyphs(bytes, count)[j]).mac_code,
    decreases count,
{
    if count > 0 {
        lemma_roman_order(bytes, (count - 1) as nat);
        let before = roman_glyphs(bytes, (count - 1) as nat);
        let list = roman_glyphs(bytes, count);
        assert forall|i: int| 0 <= i < list.len() implies 0x80 <= (#[trigger] list[i]).mac_code
            < 0x80 + count by {
            if i < before.len() {
                assert(list[i] == before[i]);
            }
        }
        assert forall|i: int, j: int| 0 <= i < j < list.len() implies (
        #[trigger] list[i]).mac_code < (#[trigger] list[j]).mac_code by {
            assert(list[i] == before[i]);
            if j < before.len() {
                assert(list[j] == before[j]);
            }
        }
    }
}

/// The first glyph with a code is found where no glyph before it has the code.
pub proof fn lemma_roman_glyph_at(
    face: RomanModel,
    mac_code: u8,
    from: int,
    at: int,
)
    requires
        0 <= from <= at < face.glyphs.len(),
        face.glyphs[at].mac_code == mac_code,
        forall|i: int| from <= i < at ==> (#[trigger] face.glyphs[i]).mac_code != mac_code,
    ensures
        roman_glyph_from(face, mac_code, from) == Some((face.glyphs[at].glyph, face.data)),
    decreases at - from,
{
    if from < at {
        assert(face.glyphs[from].mac_code != mac_code);
        lemma_roman_glyph_at(face, mac_code, from + 1, at);
    }
}

/// A registered face has a glyph for each Mac Roman character above the ASCII range that the
/// strike encodes and can show, and the glyph's coverage bytes are the pixels that the strike's
/// bitmap has for it.
pub proof fn law_roman_glyph_shows_its_bitmap(
    font_id: i16,
    size: i16,
    bytes: Seq<u8>,
    mac_code: u8,
)
    requires
        is_strike(bytes),
        mac_code >= 0x80,
        has_roman(bytes, mac_code as int),
    ensures
        roman_glyph(strike_roman(font_id, size, bytes), mac_code) matches Some((glyph, data)) && {
            &&& data == strike_face(font_id, size, bytes).data
            &&& glyph_in_bounds(glyph, data)
            &&& data.subrange(
                glyph.data_offset as int,
                glyph.data_offset + glyph.width * glyph.height,
            ) == glyph_pixels(bytes, mac_code - header(bytes).first_char)
        },
{
    let face = strike_roman(font_id, size, bytes);
    let index = mac_code - header(bytes).first_char;
    let before = (mac_code - 0x80) as nat;
    let at = lemma_roman_entry(bytes, mac_code as int, ROMAN_CODES as nat);
    lemma_roman_order(bytes, ROMAN_CODES as nat);
    assert forall|i: int| 0 <= i < at implies (#[trigger] face.glyphs[i]).mac_code != mac_code by {
        assert(face.glyphs[i] == roman_glyphs(bytes, ROMAN_CODES as nat)[i]);
    }
    lemma_roman_glyph_at(face, mac_code, 0, at);
    lemma_glyph_box(bytes, index);
    lemma_roman_coverage(bytes, before);
    lemma_roman_prefix(bytes, before + 1, ROMAN_CODES as nat);
    let glyph = face.glyphs[at].glyph;
    let offset = roman_coverage(bytes, before).len() as int;
    assert(glyph.data_offset == offset);
    assert(roman_coverage(bytes, before + 1) == roman_coverage(bytes, before) + glyph_pixels(
        bytes,
        index,
    ));
    assert(glyph.width == glyph_width(bytes, index));
    assert(glyph.height == header(bytes).height);
    lemma_block(face.data, roman_coverage(bytes, before), glyph_pixels(bytes, index));
}

/// A character that the strike does not encode, or cannot show, has no Mac Roman glyph in the
/// registered face.
pub proof fn law_no_roman_glyph_without_bitmap(
    font_id: i16,
    size: i16,
    bytes: Seq<u8>,
    mac_code: u8,
)
    requires
        is_strike(bytes),
        !(mac_code >= 0x80 && has_roman(bytes, mac_code as int)),
    ensures
        roman_glyph(strike_roman(font_id, size, bytes), mac_code) is None,
{
    let face = strike_roman(font_id, size, bytes);
    lemma_roman_only(bytes, ROMAN_CODES as nat);
    lemma_roman_glyph_none(face, mac_code, 0);
}

pub proof fn lemma_roman_only(bytes: Seq<u8>, count: nat)
    requires
        count <= ROMAN_CODES,
    ensures
        forall|i: int|
            0 <= i < roman_glyphs(bytes, count).len() ==> {
                let entry = #[trigger] roman_glyphs(bytes, count)[i];
                &&& entry.mac_code >= 0x80
                &&& has_roman(bytes, entry.mac_code as int)
            },
    decreases count,
{
    if count > 0 {
        lemma_roman_only(bytes, (count - 1) as nat);
        let before = roman_glyphs(bytes, (count - 1) as nat);
        let list = roman_glyphs(bytes, count);
        assert forall|i: int| 0 <= i < list.len() implies (#[trigger] list[i]).mac_code >= 0x80
            && has_roman(bytes, list[i].mac_code as int) by {
            if i < before.len() {
                assert(list[i] == before[i]);
            }
        }
    }
}

proof fn lemma_roman_glyph_none(face: RomanModel, mac_code: u8, from: int)
    requires
        0 <= from <= face.glyphs.len(),
        forall|i: int|
            from <= i < face.glyphs.len() ==> (#[trigger] face.glyphs[i]).mac_code != mac_code,
    ensures
        roman_glyph_from(face, mac_code, from) is None,
    decreases face.glyphs.len() - from,
{
    if from < face.glyphs.len() {
        lemma_roman_glyph_none(face, mac_code, from + 1);
    }
}

/// Every registered face has a glyph for each printable ASCII character, every pixel is fully
/// clear or fully set, and every glyph's coverage bytes are there.
pub proof fn law_strike_faces_are_drawable(font_id: i16, size: i16, bytes: Seq<u8>)
    requires
        is_strike(bytes),
    ensures
        strike_face(font_id, size, bytes).whole(),
        strike_roman(font_id, size, bytes).drawable(),
{
    let face = strike_face(font_id, size, bytes);
    lemma_roman_coverage(bytes, ROMAN_CODES as nat);
    assert forall|i: int| 0 <= i < face.glyphs.len() implies glyph_in_bounds(
        #[trigger] face.glyphs[i],
        face.data,
    ) by {
        if has_glyph(bytes, header(bytes).index_of(0x20 + i)) {
            law_ascii_glyph_shows_its_bitmap(font_id, size, bytes, i);
        } else {
            assert(face.glyphs[i] == ascii_glyph(bytes, i));
            assert(face.glyphs[i].width * face.glyphs[i].height == 0) by (nonlinear_arith)
                requires
                    face.glyphs[i].width == 0,
            ;
        }
    }
    let roman = strike_roman(font_id, size, bytes);
    assert forall|i: int| 0 <= i < roman.glyphs.len() implies glyph_in_bounds(
        #[trigger] roman.glyphs[i].glyph,
        roman.data,
    ) by {
        let entry = roman_glyphs(bytes, ROMAN_CODES as nat)[i];
        lemma_roman_only(bytes, ROMAN_CODES as nat);
        lemma_roman_order(bytes, ROMAN_CODES as nat);
        let at = lemma_roman_entry(bytes, entry.mac_code as int, ROMAN_CODES as nat);
        assert(at == i) by {
            let list = roman_glyphs(bytes, ROMAN_CODES as nat);
            assert(list[at].mac_code == list[i].mac_code);
        }
        law_roman_glyph_shows_its_bitmap(font_id, size, bytes, entry.mac_code);
        assert forall|j: int| 0 <= j < at implies (#[trigger] roman.glyphs[j]).mac_code
            != entry.mac_code by {
            assert(roman.glyphs[j] == roman_glyphs(bytes, ROMAN_CODES as nat)[j]);
        }
        lemma_roman_glyph_at(roman, entry.mac_code, 0, at);
    }
}

} // verus!
