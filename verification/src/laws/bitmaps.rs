//! What a bitmap strike's bytes mean for the face that is made of it.
use crate::glyph::Glyph;
use crate::laws::rasters::is_held_within;
use crate::laws::strikes::{
    law_ascii_glyph_shows_its_bitmap, law_no_roman_glyph_without_bitmap,
    law_roman_glyph_shows_its_bitmap, lemma_ascii_coverage, lemma_glyph_box, lemma_roman_coverage,
    lemma_roman_entry, lemma_roman_glyph_at, lemma_roman_only, lemma_roman_order,
};
use crate::special::{macroman_lookup, roman_glyph};
use crate::store::{registers, strike_face, strike_roman, with_strike, StoreModel};
use crate::strike::{
    ascent_overflows, ascii_glyph, bitmap_pixel, glyph_pixels, has_glyph, has_roman, header,
    is_strike, location, offset_width, roman_glyphs, shown_index, shows, strike_glyph, ROMAN_CODES,
};
use vstd::prelude::*;

verus! {

/// The number that two bytes make, the high one first.
pub open spec fn pair(bytes: Seq<u8>, at: int) -> int {
    bytes[at] * 256 + bytes[at + 1]
}

/// The number with a sign that two bytes make.
pub open spec fn signed_pair(bytes: Seq<u8>, at: int) -> int {
    if bytes[at] < 128 {
        pair(bytes, at)
    } else {
        pair(bytes, at) - 65536
    }
}

/// The first and the last character of a strike stand at 2 and at 4. Behind the glyphs of these
/// and all between them comes the one that is shown for missing characters.
pub open spec fn missing_glyph(bytes: Seq<u8>) -> int {
    pair(bytes, 4) - pair(bytes, 2) + 1
}

/// Where the bitmap ends and the columns are listed: behind as many rows as stand at 14, of as
/// many words as stand at 24.
pub open spec fn columns_at(bytes: Seq<u8>) -> int {
    26 + pair(bytes, 24) * 2 * pair(bytes, 14)
}

/// Where offsets and advances are listed: as many words behind 16 as stand there.
pub open spec fn advances_at(bytes: Seq<u8>) -> int {
    16 + 2 * pair(bytes, 16)
}

/// The column at which a glyph starts. It ends where the next one starts.
pub open spec fn column_of(bytes: Seq<u8>, glyph: int) -> int {
    pair(bytes, columns_at(bytes) + 2 * glyph)
}

/// The glyph's entry among offsets and advances is not the one that marks empty entries.
pub open spec fn is_entered(bytes: Seq<u8>, glyph: int) -> bool {
    !(bytes[advances_at(bytes) + 2 * glyph] == 255 && bytes[advances_at(bytes) + 2 * glyph + 1]
        == 255)
}

/// The glyph that is shown for a character: its own, if the strike has the character and an entry
/// for it, and else the one for missing characters.
pub open spec fn is_glyph_for(bytes: Seq<u8>, code: int, glyph: int) -> bool {
    if pair(bytes, 2) <= code <= pair(bytes, 4) && is_entered(bytes, code - pair(bytes, 2)) {
        glyph == code - pair(bytes, 2)
    } else {
        glyph == missing_glyph(bytes)
    }
}

/// The glyph can be shown: it has an entry, its columns are in order and in the bitmap, and there
/// are at most 255.
pub open spec fn can_be_shown(bytes: Seq<u8>, glyph: int) -> bool {
    &&& is_entered(bytes, glyph)
    &&& column_of(bytes, glyph) <= column_of(bytes, glyph + 1) <= 16 * pair(bytes, 24)
    &&& column_of(bytes, glyph + 1) - column_of(bytes, glyph) <= 255
}

/// What a bit is worth in its byte; the bits are counted from the highest.
pub open spec fn worth(bit: int) -> int {
    if bit == 0 {
        128
    } else if bit == 1 {
        64
    } else if bit == 2 {
        32
    } else if bit == 3 {
        16
    } else if bit == 4 {
        8
    } else if bit == 5 {
        4
    } else if bit == 6 {
        2
    } else {
        1
    }
}

/// The pixel in a row and a column of the strike's bitmap is set. A row starts with the highest
/// bit of its first byte.
pub open spec fn is_inked(bytes: Seq<u8>, row: int, column: int) -> bool {
    let byte = bytes[26 + row * (pair(bytes, 24) * 2) + column / 8] as int;
    (byte / worth(column % 8)) % 2 == 1
}

/// The box, the place, the advance and the pixels of a glyph of the strike. The box is as high as
/// the strike, and as wide as the glyph has columns. Its left side is away from the pen by the
/// glyph's offset and the strike's kerning, its top by the ascent above the baseline.
pub open spec fn depicts(glyph: Glyph, data: Seq<u8>, bytes: Seq<u8>, from: int) -> bool {
    let entry = advances_at(bytes) + 2 * from;
    &&& glyph.width == column_of(bytes, from + 1) - column_of(bytes, from)
    &&& glyph.height == pair(bytes, 14)
    &&& glyph.advance == bytes[entry + 1]
    &&& is_held_within(
        glyph.origin_x as int,
        signed_pair(bytes, 8) + bytes[entry],
        -128,
        127,
    )
    &&& is_held_within(glyph.origin_y as int, -signed_pair(bytes, 18), -128, 127)
    &&& forall|row: int, column: int|
        #![trigger is_inked(bytes, row, column_of(bytes, from) + column)]
        0 <= row < glyph.height && 0 <= column < glyph.width ==> data[glyph.data_offset + row
            * glyph.width + column] == (if is_inked(bytes, row, column_of(bytes, from) + column) {
            255int
        } else {
            0
        })
}

proof fn lemma_bit(byte: u8, bit: u8)
    requires
        bit < 8,
    ensures
        byte & (0x80u8 >> bit) != 0 <==> (byte as int / worth(bit as int)) % 2 == 1,
{
    assert(byte & (0x80u8 >> 0u8) != 0 <==> (byte / 128) % 2 == 1) by (bit_vector);
    assert(byte & (0x80u8 >> 1u8) != 0 <==> (byte / 64) % 2 == 1) by (bit_vector);
    assert(byte & (0x80u8 >> 2u8) != 0 <==> (byte / 32) % 2 == 1) by (bit_vector);
    assert(byte & (0x80u8 >> 3u8) != 0 <==> (byte / 16) % 2 == 1) by (bit_vector);
    assert(byte & (0x80u8 >> 4u8) != 0 <==> (byte / 8) % 2 == 1) by (bit_vector);
    assert(byte & (0x80u8 >> 5u8) != 0 <==> (byte / 4) % 2 == 1) by (bit_vector);
    assert(byte & (0x80u8 >> 6u8) != 0 <==> (byte / 2) % 2 == 1) by (bit_vector);
    assert(byte & (0x80u8 >> 7u8) != 0 <==> (byte / 1) % 2 == 1) by (bit_vector);
}

/// A resource is a strike if it has a header, characters in order and up to 255, from 1 to 255
/// rows of at least one word, the bitmap and both lists one behind the other, and is long enough
/// for all of them. It is registered under a family that is not negative and a positive size.
pub proof fn law_strikes_are_recognised(family_id: i16, size: i16, bytes: Seq<u8>)
    ensures
        registers(family_id, size, bytes) <==> {
            &&& family_id >= 0
            &&& size > 0
            &&& bytes.len() >= 26
            &&& pair(bytes, 2) <= pair(bytes, 4) <= 255
            &&& 1 <= pair(bytes, 14) <= 255
            &&& 1 <= pair(bytes, 24)
            &&& columns_at(bytes) + 2 * (missing_glyph(bytes) + 2) <= advances_at(bytes)
            &&& advances_at(bytes) + 2 * (missing_glyph(bytes) + 1) <= bytes.len()
        },
{
}

proof fn lemma_strike_words(bytes: Seq<u8>, glyph: int)
    requires
        is_strike(bytes),
        0 <= glyph <= missing_glyph(bytes),
    ensures
        header(bytes).first_char == pair(bytes, 2),
        header(bytes).last_char == pair(bytes, 4),
        header(bytes).height == pair(bytes, 14),
        header(bytes).row_words == pair(bytes, 24),
        header(bytes).kern_max == signed_pair(bytes, 8),
        header(bytes).ascent == signed_pair(bytes, 18),
        header(bytes).wid_max == signed_pair(bytes, 6),
        header(bytes).missing_index() == missing_glyph(bytes),
        location(bytes, glyph) == column_of(bytes, glyph),
        location(bytes, glyph + 1) == column_of(bytes, glyph + 1),
        offset_width(bytes, glyph) == pair(bytes, advances_at(bytes) + 2 * glyph),
        offset_width(bytes, glyph) != 0xFFFF <==> is_entered(bytes, glyph),
{
}

proof fn lemma_shown(bytes: Seq<u8>, code: int, glyph: int)
    requires
        is_strike(bytes),
        is_glyph_for(bytes, code, glyph),
    ensures
        0 <= glyph <= missing_glyph(bytes),
        shown_index(bytes, header(bytes).index_of(code)) == glyph,
        has_glyph(bytes, header(bytes).index_of(code)) == can_be_shown(bytes, glyph),
{
    lemma_strike_words(bytes, missing_glyph(bytes));
    if pair(bytes, 2) <= code <= pair(bytes, 4) {
        lemma_strike_words(bytes, code - pair(bytes, 2));
    }
}

/// What was decoded for a glyph is what its bytes depict.
proof fn lemma_depicts(
    glyph: Glyph,
    data: Seq<u8>,
    bytes: Seq<u8>,
    index: int,
    from: int,
)
    requires
        is_strike(bytes),
        0 <= from <= missing_glyph(bytes),
        shown_index(bytes, index) == from,
        has_glyph(bytes, index),
        glyph == strike_glyph(bytes, index, glyph.data_offset as int),
        data.subrange(
            glyph.data_offset as int,
            glyph.data_offset + glyph.width * glyph.height,
        ) == glyph_pixels(bytes, index),
        glyph.data_offset + glyph.width * glyph.height <= data.len(),
    ensures
        depicts(glyph, data, bytes, from),
{
    lemma_strike_words(bytes, from);
    lemma_glyph_box(bytes, index);
    let entry = advances_at(bytes) + 2 * from;
    assert(pair(bytes, entry) / 256 == bytes[entry]);
    assert(pair(bytes, entry) % 256 == bytes[entry + 1]);
    let width = glyph.width as int;
    let pixels = glyph_pixels(bytes, index);
    assert forall|row: int, column: int|
        #![trigger is_inked(bytes, row, column_of(bytes, from) + column)]
        0 <= row < glyph.height && 0 <= column < glyph.width implies data[glyph.data_offset + row
        * glyph.width + column] == (if is_inked(bytes, row, column_of(bytes, from) + column) {
        255int
    } else {
        0
    }) by {
        let k = row * width + column;
        assert(0 <= k < width * glyph.height && k / width == row && k % width == column)
            by (nonlinear_arith)
            requires
                0 <= row < glyph.height,
                0 <= column < width,
                k == row * width + column,
        ;
        assert(data.subrange(
            glyph.data_offset as int,
            glyph.data_offset + glyph.width * glyph.height,
        )[k] == data[glyph.data_offset + k]);
        let place = column_of(bytes, from) + column;
        assert(pixels[k] == bitmap_pixel(bytes, row, place));
        lemma_bit(
            bytes[26 + row * (pair(bytes, 24) * 2) + place / 8],
            (place % 8) as u8,
        );
    }
}

/// The glyph of a printable ASCII character in the face of a strike shows what the strike has for
/// the character. If that cannot be shown, it is an empty box with the strike's greatest width for
/// its advance.
pub proof fn law_ascii_glyphs_depict_the_strike(
    font_id: i16,
    size: i16,
    bytes: Seq<u8>,
    code: int,
    from: int,
)
    requires
        is_strike(bytes),
        32 <= code <= 126,
        is_glyph_for(bytes, code, from),
    ensures
        ({
            let face = strike_face(font_id, size, bytes);
            let glyph = face.glyphs[code - 32];
            &&& face.glyphs.len() == 95
            &&& if can_be_shown(bytes, from) {
                depicts(glyph, face.data, bytes, from)
            } else {
                &&& glyph.width == 0 && glyph.height == 0 && glyph.data_offset == 0
                &&& glyph.origin_x == 0 && glyph.origin_y == 0
                &&& is_held_within(glyph.advance as int, signed_pair(bytes, 6), 0, 255)
            }
        }),
{
    let face = strike_face(font_id, size, bytes);
    let glyph = face.glyphs[code - 32];
    let index = header(bytes).index_of(code);
    lemma_shown(bytes, code, from);
    lemma_strike_words(bytes, from);
    assert(glyph == ascii_glyph(bytes, code - 32));
    if can_be_shown(bytes, from) {
        law_ascii_glyph_shows_its_bitmap(font_id, size, bytes, code - 32);
        lemma_ascii_coverage(bytes, (code - 32) as nat);
        lemma_depicts(glyph, face.data, bytes, index, from);
    }
}

/// A Mac Roman code above the ASCII range has a glyph if the strike has the character and what is
/// shown for it can be shown. The glyph shows that.
pub proof fn law_mac_roman_glyphs_depict_the_strike(
    font_id: i16,
    size: i16,
    bytes: Seq<u8>,
    mac_code: u8,
    from: int,
)
    requires
        is_strike(bytes),
        is_glyph_for(bytes, mac_code as int, from),
    ensures
        ({
            let found = roman_glyph(strike_roman(font_id, size, bytes), mac_code);
            if mac_code >= 128 && pair(bytes, 2) <= mac_code <= pair(bytes, 4) && can_be_shown(
                bytes,
                from,
            ) {
                found matches Some((glyph, data)) && depicts(glyph, data, bytes, from) && data
                    == strike_face(font_id, size, bytes).data
            } else {
                found is None
            }
        }),
{
    let code = mac_code as int;
    lemma_shown(bytes, code, from);
    lemma_strike_words(bytes, from);
    if mac_code >= 128 && has_roman(bytes, code) {
        let face = strike_roman(font_id, size, bytes);
        let index = code - header(bytes).first_char;
        law_roman_glyph_shows_its_bitmap(font_id, size, bytes, mac_code);
        let at = lemma_roman_entry(bytes, code, ROMAN_CODES as nat);
        lemma_roman_order(bytes, ROMAN_CODES as nat);
        assert forall|i: int| 0 <= i < at implies (#[trigger] face.glyphs[i]).mac_code
            != mac_code by {
            assert(face.glyphs[i] == roman_glyphs(bytes, ROMAN_CODES as nat)[i]);
        }
        lemma_roman_glyph_at(face, mac_code, 0, at);
        lemma_roman_coverage(bytes, (code - 0x80) as nat);
        let glyph = face.glyphs[at].glyph;
        lemma_depicts(glyph, face.data, bytes, index, from);
    } else {
        law_no_roman_glyph_without_bitmap(font_id, size, bytes, mac_code);
    }
}

/// The strike has the Mac Roman character above the ASCII range, and the glyph that is shown for
/// it can be shown.
pub open spec fn has_mac_roman(bytes: Seq<u8>, code: int, from: int) -> bool {
    &&& 128 <= code <= 255
    &&& pair(bytes, 2) <= code <= pair(bytes, 4)
    &&& is_glyph_for(bytes, code, from)
    &&& can_be_shown(bytes, from)
}

/// Once a strike is registered that has Mac Roman characters above the ASCII range, those and no
/// others are found under its family and size. One that has none leaves those that were there.
pub proof fn law_strikes_bring_their_mac_roman_characters(
    fonts: StoreModel,
    family_id: i16,
    size: i16,
    bytes: Seq<u8>,
    mac_code: u8,
)
    requires
        fonts.wf(),
        registers(family_id, size, bytes),
    ensures
        ({
            let before = macroman_lookup(fonts, family_id, size, mac_code);
            let found = macroman_lookup(
                with_strike(fonts, family_id, size, bytes),
                family_id,
                size,
                mac_code,
            );
            &&& (exists|code: int, from: int| #[trigger] has_mac_roman(bytes, code, from)) ==> found
                == roman_glyph(strike_roman(family_id, size, bytes), mac_code)
            &&& (forall|code: int, from: int| !#[trigger] has_mac_roman(bytes, code, from))
                ==> found == before
        }),
{
    let list = roman_glyphs(bytes, ROMAN_CODES as nat);
    if exists|code: int, from: int| #[trigger] has_mac_roman(bytes, code, from) {
        let (code, from) = choose|code: int, from: int| #[trigger]
            has_mac_roman(bytes, code, from);
        lemma_shown(bytes, code, from);
        lemma_strike_words(bytes, from);
        let at = lemma_roman_entry(bytes, code, ROMAN_CODES as nat);
        assert(list.len() > 0);
    } else if list.len() > 0 {
        lemma_roman_only(bytes, ROMAN_CODES as nat);
        let code = list[0].mac_code as int;
        let from = if is_entered(bytes, code - pair(bytes, 2)) {
            code - pair(bytes, 2)
        } else {
            missing_glyph(bytes)
        };
        lemma_strike_words(bytes, missing_glyph(bytes));
        lemma_shown(bytes, code, from);
        assert(has_mac_roman(bytes, code, from));
    }
}

/// The face of a strike bears the family and the size that it is registered under, and the metrics
/// of the strike's header: the ascent stands at 18, the descent at 20, the greatest width at 6 and
/// the leading at 22.
pub proof fn law_strike_metrics_are_kept(font_id: i16, size: i16, bytes: Seq<u8>)
    requires
        bytes.len() >= 26,
    ensures
        ({
            let face = strike_face(font_id, size, bytes);
            let roman = strike_roman(font_id, size, bytes);
            &&& face.font_id == font_id && face.size == size
            &&& roman.font_id == font_id && roman.size == size
            &&& face.metrics.ascent == signed_pair(bytes, 18)
            &&& face.metrics.descent == signed_pair(bytes, 20)
            &&& face.metrics.wid_max == signed_pair(bytes, 6)
            &&& face.metrics.leading == signed_pair(bytes, 22)
        }),
{
}

/// The ascent is out of range only if it is the lowest number of a word, and then just where some
/// character that is taken in can be shown.
pub proof fn law_only_the_lowest_ascent_is_out_of_range(bytes: Seq<u8>, code: int, from: int)
    requires
        is_strike(bytes),
        is_glyph_for(bytes, code, from),
    ensures
        signed_pair(bytes, 18) != -32768 ==> !ascent_overflows(bytes),
        signed_pair(bytes, 18) == -32768 && can_be_shown(bytes, from) && (32 <= code <= 126 || 128
            <= code <= 255 && pair(bytes, 2) <= code <= pair(bytes, 4)) ==> ascent_overflows(bytes),
{
    lemma_shown(bytes, code, from);
    lemma_strike_words(bytes, from);
    if can_be_shown(bytes, from) && (32 <= code <= 126 || 128 <= code <= 255 && pair(bytes, 2)
        <= code <= pair(bytes, 4)) {
        assert(shows(bytes, code));
    }
}

/// What is out of range has a character that is taken in and can be shown.
pub proof fn law_out_of_range_ascents_belong_to_a_glyph(bytes: Seq<u8>) -> (shown: (int, int))
    requires
        ascent_overflows(bytes),
    ensures
        is_glyph_for(bytes, shown.0, shown.1),
        can_be_shown(bytes, shown.1),
        32 <= shown.0 <= 126 || 128 <= shown.0 <= 255 && pair(bytes, 2) <= shown.0 <= pair(
            bytes,
            4,
        ),
{
    let code = choose|code: int| shows(bytes, code);
    let from = if pair(bytes, 2) <= code <= pair(bytes, 4) && is_entered(
        bytes,
        code - pair(bytes, 2),
    ) {
        code - pair(bytes, 2)
    } else {
        missing_glyph(bytes)
    };
    lemma_shown(bytes, code, from);
    lemma_strike_words(bytes, from);
    (code, from)
}

} // verus!
