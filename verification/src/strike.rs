//! Bitmap strikes: the `FONT` and `NFNT` resources that applications carry.
//!
//! A strike is a header of words, one wide bitmap with every glyph beside the next, a table of
//! the columns at which the glyphs start, and a table with an offset and an advance for each.
use crate::glyph::{FontMetrics, Glyph, MacRomanGlyph, ASCII_GLYPHS};
use crate::resource::{resource_word, to_signed};
#[allow(unused_imports)]
use crate::resource::{signed, word};
use vstd::prelude::*;

verus! {

/// Length of the record that a strike starts with.
pub const HEADER_LEN: usize = 26;

/// The words of the record that a strike starts with.
#[derive(Clone, Copy, Debug, PartialEq, Eq)]
pub struct StrikeHeader {
    pub first_char: u16,
    pub last_char: u16,
    pub wid_max: i16,
    pub kern_max: i16,
    pub height: u16,
    pub ow_t_loc: u16,
    pub ascent: i16,
    pub descent: i16,
    pub leading: i16,
    pub row_words: u16,
}

impl StrikeHeader {
    /// Bytes in one row of the bitmap.
    pub open spec fn row_bytes(self) -> int {
        self.row_words * 2
    }

    /// Columns in the bitmap.
    pub open spec fn bitmap_width(self) -> int {
        self.row_words * 16
    }

    /// Where the location table starts, right behind the bitmap.
    pub open spec fn location_offset(self) -> int {
        HEADER_LEN + self.row_bytes() * self.height
    }

    /// One glyph for each encoded character, and one that is shown for missing characters.
    pub open spec fn glyph_count(self) -> int {
        self.last_char - self.first_char + 2
    }

    /// The glyph that is shown for missing characters is the last.
    pub open spec fn missing_index(self) -> int {
        self.last_char - self.first_char + 1
    }

    /// Where the location table ends: it has one entry more than there are glyphs.
    pub open spec fn location_end(self) -> int {
        self.location_offset() + (self.glyph_count() + 1) * 2
    }

    /// Where the offset and width table starts. The header counts in words, from the field
    /// itself.
    pub open spec fn ow_offset(self) -> int {
        16 + self.ow_t_loc * 2
    }

    /// The strike encodes the character.
    pub open spec fn encodes(self, code: int) -> bool {
        self.first_char <= code <= self.last_char
    }

    /// The glyph that belongs to the character.
    pub open spec fn index_of(self, code: int) -> int {
        if self.encodes(code) {
            code - self.first_char
        } else {
            self.missing_index()
        }
    }
}

/// The header of a strike that is long enough to have one.
pub open spec fn header(bytes: Seq<u8>) -> StrikeHeader {
    StrikeHeader {
        first_char: word(bytes, 2),
        last_char: word(bytes, 4),
        wid_max: signed(word(bytes, 6)),
        kern_max: signed(word(bytes, 8)),
        height: word(bytes, 14),
        ow_t_loc: word(bytes, 16),
        ascent: signed(word(bytes, 18)),
        descent: signed(word(bytes, 20)),
        leading: signed(word(bytes, 22)),
        row_words: word(bytes, 24),
    }
}

/// The resource is a strike: it has a header that makes sense, and holds the bitmap and both
/// tables that the header announces.
pub open spec fn is_strike(bytes: Seq<u8>) -> bool {
    let h = header(bytes);
    &&& bytes.len() >= HEADER_LEN
    &&& h.first_char <= h.last_char <= 255
    &&& 1 <= h.height <= 255
    &&& h.row_words > 0
    &&& h.location_end() <= h.ow_offset()
    &&& h.ow_offset() + h.glyph_count() * 2 <= bytes.len()
}

/// The entry of the offset and width table: the offset in the high byte, the advance in the low.
pub open spec fn offset_width(bytes: Seq<u8>, index: int) -> u16 {
    word(bytes, header(bytes).ow_offset() + index * 2)
}

/// The column of the bitmap at which the glyph starts. The glyph before it ends there.
pub open spec fn location(bytes: Seq<u8>, index: int) -> u16 {
    word(bytes, header(bytes).location_offset() + index * 2)
}

/// The glyph that is shown when the one at `index` is asked for: itself, or, if there is none
/// or its table entry is empty, the one for missing characters.
pub open spec fn shown_index(bytes: Seq<u8>, index: int) -> int {
    if index >= header(bytes).glyph_count() || offset_width(bytes, index) == 0xFFFF {
        header(bytes).missing_index()
    } else {
        index
    }
}

/// There is something to show for the glyph at `index`: its table entry is not empty, and its
/// columns lie in the bitmap and are at most 255.
pub open spec fn has_glyph(bytes: Seq<u8>, index: int) -> bool {
    let shown = shown_index(bytes, index);
    &&& offset_width(bytes, shown) != 0xFFFF
    &&& location(bytes, shown) <= location(bytes, shown + 1) <= header(bytes).bitmap_width()
    &&& location(bytes, shown + 1) - location(bytes, shown) <= 255
}

/// Columns of the glyph at `index`.
pub open spec fn glyph_width(bytes: Seq<u8>, index: int) -> int {
    let shown = shown_index(bytes, index);
    location(bytes, shown + 1) - location(bytes, shown)
}

/// The value nearest to `value` that a signed byte can hold.
pub open spec fn clamp_i8(value: int) -> i8 {
    if value < -128 {
        i8::MIN
    } else if value > 127 {
        127
    } else {
        value as i8
    }
}

/// The value nearest to `value` that an unsigned byte can hold.
pub open spec fn clamp_u8(value: int) -> u8 {
    if value < 0 {
        0
    } else if value > 255 {
        255
    } else {
        value as u8
    }
}

/// The glyph at `index`, with its coverage bytes at `data_offset`. The offset in the table is
/// unsigned; the header's `kern_max` makes it a displacement from the pen.
pub open spec fn strike_glyph(bytes: Seq<u8>, index: int, data_offset: int) -> Glyph {
    let h = header(bytes);
    let ow = offset_width(bytes, shown_index(bytes, index));
    Glyph {
        width: glyph_width(bytes, index) as u8,
        height: h.height as u8,
        advance: (ow % 0x100) as u8,
        origin_x: clamp_i8(h.kern_max + ow / 0x100),
        origin_y: clamp_i8(-h.ascent),
        data_offset: data_offset as usize,
    }
}

/// The coverage of one pixel of the strike's bitmap. The leftmost pixel of a byte is its highest
/// bit.
pub open spec fn bitmap_pixel(bytes: Seq<u8>, row: int, column: int) -> u8 {
    let byte = bytes[HEADER_LEN + row * header(bytes).row_bytes() + column / 8];
    if byte & (0x80u8 >> ((column % 8) as u8)) != 0 {
        255
    } else {
        0
    }
}

/// The coverage bytes of the glyph at `index`, row after row; none if there is no glyph.
pub open spec fn glyph_pixels(bytes: Seq<u8>, index: int) -> Seq<u8> {
    if has_glyph(bytes, index) {
        let width = glyph_width(bytes, index);
        let start = location(bytes, shown_index(bytes, index));
        Seq::new(
            (width * header(bytes).height) as nat,
            |k: int| bitmap_pixel(bytes, k / width, start + k % width),
        )
    } else {
        Seq::empty()
    }
}

/// The coverage bytes of the first `count` printable ASCII characters, one after the other.
pub open spec fn ascii_coverage(bytes: Seq<u8>, count: nat) -> Seq<u8>
    decreases count,
{
    if count == 0 {
        Seq::empty()
    } else {
        ascii_coverage(bytes, (count - 1) as nat) + glyph_pixels(
            bytes,
            header(bytes).index_of(0x20 + count - 1),
        )
    }
}

/// The glyph of the printable ASCII character number `nth`. One that cannot be shown is an empty
/// box as wide as the widest character.
pub open spec fn ascii_glyph(bytes: Seq<u8>, nth: int) -> Glyph {
    let index = header(bytes).index_of(0x20 + nth);
    if has_glyph(bytes, index) {
        strike_glyph(bytes, index, ascii_coverage(bytes, nth as nat).len() as int)
    } else {
        Glyph {
            width: 0,
            height: 0,
            advance: clamp_u8(header(bytes).wid_max as int),
            origin_x: 0,
            origin_y: 0,
            data_offset: 0,
        }
    }
}

/// The glyphs of all printable ASCII characters.
pub open spec fn ascii_glyphs(bytes: Seq<u8>) -> Seq<Glyph> {
    Seq::new(ASCII_GLYPHS as nat, |nth: int| ascii_glyph(bytes, nth))
}

/// The character is encoded by the strike and can be shown.
pub open spec fn has_roman(bytes: Seq<u8>, code: int) -> bool {
    header(bytes).encodes(code) && has_glyph(bytes, code - header(bytes).first_char)
}

/// The coverage bytes of the printable ASCII characters and, behind them, of the first `count`
/// Mac Roman characters above the ASCII range.
pub open spec fn roman_coverage(bytes: Seq<u8>, count: nat) -> Seq<u8>
    decreases count,
{
    if count == 0 {
        ascii_coverage(bytes, ASCII_GLYPHS as nat)
    } else {
        let before = roman_coverage(bytes, (count - 1) as nat);
        let code = 0x80 + count - 1;
        if has_roman(bytes, code) {
            before + glyph_pixels(bytes, code - header(bytes).first_char)
        } else {
            before
        }
    }
}

/// The glyphs of those of the first `count` Mac Roman characters above the ASCII range that the
/// strike encodes and can show.
pub open spec fn roman_glyphs(bytes: Seq<u8>, count: nat) -> Seq<MacRomanGlyph>
    decreases count,
{
    if count == 0 {
        Seq::empty()
    } else {
        let before = roman_glyphs(bytes, (count - 1) as nat);
        let code = 0x80 + count - 1;
        if has_roman(bytes, code) {
            before.push(
                MacRomanGlyph {
                    mac_code: code as u8,
                    glyph: strike_glyph(
                        bytes,
                        code - header(bytes).first_char,
                        roman_coverage(bytes, (count - 1) as nat).len() as int,
                    ),
                },
            )
        } else {
            before
        }
    }
}

/// The number of Mac Roman characters above the ASCII range.
pub const ROMAN_CODES: usize = 128;

/// The metrics that the header gives.
pub open spec fn strike_metrics(bytes: Seq<u8>) -> FontMetrics {
    let h = header(bytes);
    FontMetrics { ascent: h.ascent, descent: h.descent, wid_max: h.wid_max, leading: h.leading }
}

/// Some character of a strike with the lowest possible ascent can be shown. The distance from
/// such a glyph's top to the baseline is out of the range of a word.
pub open spec fn ascent_overflows(bytes: Seq<u8>) -> bool {
    &&& is_strike(bytes)
    &&& header(bytes).ascent == i16::MIN
    &&& exists|code: int| shows(bytes, code)
}

/// The character is one that is decoded, and can be shown.
pub open spec fn shows(bytes: Seq<u8>, code: int) -> bool {
    ||| 0x20 <= code <= 0x7E && has_glyph(bytes, header(bytes).index_of(code))
    ||| 0x80 <= code <= 0xFF && has_roman(bytes, code)
}

/// A strike taken apart: its glyphs, with the coverage bytes that both lists index into.
pub struct DecodedStrike {
    pub metrics: FontMetrics,
    pub ascii: Vec<Glyph>,
    pub macroman: Vec<MacRomanGlyph>,
    pub coverage: Vec<u8>,
}

/// Reads a strike's header, if the resource is a strike.
fn read_header(bytes: &[u8]) -> (found: Option<StrikeHeader>)
    ensures
        found is Some <==> is_strike(bytes@),
        found matches Some(h) ==> h == header(bytes@),
{
    if bytes.len() < HEADER_LEN {
        return None;
    }
    let first_char: u16 = resource_word(bytes, 2).unwrap();
    let last_char: u16 = resource_word(bytes, 4).unwrap();
    let wid_max: i16 = to_signed(resource_word(bytes, 6).unwrap());
    let kern_max: i16 = to_signed(resource_word(bytes, 8).unwrap());
    let height: u16 = resource_word(bytes, 14).unwrap();
    let ow_t_loc: u16 = resource_word(bytes, 16).unwrap();
    let ascent: i16 = to_signed(resource_word(bytes, 18).unwrap());
    let descent: i16 = to_signed(resource_word(bytes, 20).unwrap());
    let leading: i16 = to_signed(resource_word(bytes, 22).unwrap());
    let row_words: u16 = resource_word(bytes, 24).unwrap();
    if first_char > last_char || last_char > 255 || height == 0 || height > 255 || row_words == 0 {
        return None;
    }
    let h = StrikeHeader {
        first_char,
        last_char,
        wid_max,
        kern_max,
        height,
        ow_t_loc,
        ascent,
        descent,
        leading,
        row_words,
    };
    proof {
        lemma_bitmap_bounds(h);
    }
    let bitmap_len: usize = row_words as usize * 2 * height as usize;
    let location_offset: usize = HEADER_LEN + bitmap_len;
    let glyph_count: usize = last_char as usize - first_char as usize + 2;
    let location_end: usize = location_offset + (glyph_count + 1) * 2;
    let ow_offset: usize = 16 + ow_t_loc as usize * 2;
    if location_end > bytes.len() || ow_offset < location_end || ow_offset + glyph_count * 2
        > bytes.len() {
        return None;
    }
    Some(h)
}

/// The bitmap of a strike with a sensible header is small.
proof fn lemma_bitmap_bounds(h: StrikeHeader)
    requires
        h.height <= 255,
    ensures
        0 <= h.row_bytes() * h.height <= 0xFFFF * 2 * 255,
        h.row_bytes() * h.height == (h.row_words * 2) * h.height,
{
    assert(0 <= (h.row_words * 2) * h.height <= 0xFFFF * 2 * 255) by (nonlinear_arith)
        requires
            0 <= h.row_words <= 0xFFFF,
            0 <= h.height <= 255,
    ;
}

/// Decodes the glyph at `index` and appends its coverage bytes.
fn decode_index(bytes: &[u8], h: &StrikeHeader, index: usize, coverage: &mut Vec<u8>) -> (found:
    Option<Glyph>)
    requires
        is_strike(bytes@),
        *h == header(bytes@),
    ensures
        final(coverage)@ == old(coverage)@ + glyph_pixels(bytes@, index as int),
        found is Some <==> has_glyph(bytes@, index as int),
        found matches Some(glyph) ==> glyph == strike_glyph(
            bytes@,
            index as int,
            old(coverage)@.len() as int,
        ),
{
    proof {
        lemma_bitmap_bounds(*h);
    }
    let row_bytes: usize = h.row_words as usize * 2;
    let height: usize = h.height as usize;
    let location_offset: usize = HEADER_LEN + row_bytes * height;
    let ow_offset: usize = 16 + h.ow_t_loc as usize * 2;
    let missing_index: usize = h.last_char as usize - h.first_char as usize + 1;
    let mut shown: usize = index;
    if shown > missing_index {
        shown = missing_index;
    }
    let mut ow: u16 = resource_word(bytes, ow_offset + shown * 2).unwrap();
    if ow == 0xFFFF && shown != missing_index {
        shown = missing_index;
        ow = resource_word(bytes, ow_offset + shown * 2).unwrap();
    }
    assert(shown == shown_index(bytes@, index as int));
    let start: usize = resource_word(bytes, location_offset + shown * 2).unwrap() as usize;
    let end: usize = resource_word(bytes, location_offset + (shown + 1) * 2).unwrap() as usize;
    if ow == 0xFFFF || end < start || end > h.row_words as usize * 16 || end - start > 255 {
        assert(coverage@ =~= old(coverage)@ + glyph_pixels(bytes@, index as int));
        return None;
    }
    let width: usize = end - start;
    let data_offset: usize = coverage.len();
    append_pixels(bytes, h, index, start, width, coverage);
    let origin_x: i32 = h.kern_max as i32 + (ow / 0x100) as i32;
    let origin_y: i32 = -(h.ascent as i32);
    Some(
        Glyph {
            width: width as u8,
            height: height as u8,
            advance: (ow % 0x100) as u8,
            origin_x: to_i8(origin_x),
            origin_y: to_i8(origin_y),
            data_offset,
        },
    )
}

/// The value nearest to `value` that a signed byte can hold.
pub(crate) fn to_i8(value: i32) -> (clamped: i8)
    ensures
        clamped == clamp_i8(value as int),
{
    if value < -128 {
        -128
    } else if value > 127 {
        127
    } else {
        value as i8
    }
}

/// The value nearest to `value` that an unsigned byte can hold.
pub(crate) fn to_u8(value: i16) -> (clamped: u8)
    ensures
        clamped == clamp_u8(value as int),
{
    if value < 0 {
        0
    } else if value > 255 {
        255
    } else {
        value as u8
    }
}

/// Appends the coverage bytes of the glyph at `index`, which starts at column `start`.
fn append_pixels(
    bytes: &[u8],
    h: &StrikeHeader,
    index: usize,
    start: usize,
    width: usize,
    coverage: &mut Vec<u8>,
)
    requires
        is_strike(bytes@),
        *h == header(bytes@),
        has_glyph(bytes@, index as int),
        start == location(bytes@, shown_index(bytes@, index as int)),
        width == glyph_width(bytes@, index as int),
    ensures
        final(coverage)@ == old(coverage)@ + glyph_pixels(bytes@, index as int),
{
    let ghost pixels = glyph_pixels(bytes@, index as int);
    let height: usize = h.height as usize;
    let row_bytes: usize = h.row_words as usize * 2;
    proof {
        lemma_bitmap_bounds(*h);
    }
    let mut row: usize = 0;
    assert(coverage@ =~= old(coverage)@ + pixels.take(0));
    while row < height
        invariant
            is_strike(bytes@),
            *h == header(bytes@),
            has_glyph(bytes@, index as int),
            start == location(bytes@, shown_index(bytes@, index as int)),
            width == glyph_width(bytes@, index as int),
            pixels == glyph_pixels(bytes@, index as int),
            height == h.height,
            row_bytes == h.row_bytes(),
            row <= height,
            pixels.len() == width * height,
            0 <= row * width <= width * height,
            coverage@ == old(coverage)@ + pixels.take(row * width),
        decreases height - row,
    {
        proof {
            lemma_row_bounds(row as int, height as int, width as int, row_bytes as int);
        }
        let row_start: usize = HEADER_LEN + row * row_bytes;
        let mut column: usize = 0;
        while column < width
            invariant
                is_strike(bytes@),
                *h == header(bytes@),
                has_glyph(bytes@, index as int),
                start == location(bytes@, shown_index(bytes@, index as int)),
                width == glyph_width(bytes@, index as int),
                pixels == glyph_pixels(bytes@, index as int),
                height == h.height,
                row_bytes == h.row_bytes(),
                row < height,
                column <= width,
                pixels.len() == width * height,
                0 <= row * width,
                row * width + width <= width * height,
                row_start == HEADER_LEN + row * row_bytes,
                row * row_bytes + row_bytes <= row_bytes * height,
                coverage@ == old(coverage)@ + pixels.take(row * width + column),
            decreases width - column,
        {
            let at: usize = start + column;
            let byte: u8 = bytes[row_start + at / 8];
            let mask: u8 = 0x80u8 >> ((at % 8) as u8);
            let pixel: u8 = if byte & mask != 0 {
                255
            } else {
                0
            };
            let ghost k = row * width + column;
            proof {
                vstd::arithmetic::div_mod::lemma_fundamental_div_mod_converse(
                    k,
                    width as int,
                    row as int,
                    column as int,
                );
                assert(pixels[k] == pixel);
                assert(pixels.take(k + 1) =~= pixels.take(k).push(pixel));
            }
            coverage.push(pixel);
            assert(coverage@ =~= old(coverage)@ + pixels.take(k + 1));
            column = column + 1;
        }
        row = row + 1;
        proof {
            assert((row - 1) * width + width == row * width) by (nonlinear_arith);
        }
    }
    assert(pixels.take(height * width) =~= pixels) by {
        assert(height * width == width * height) by (nonlinear_arith);
    }
}

/// A row before the last leaves room for one row more.
proof fn lemma_row_bounds(row: int, height: int, width: int, row_bytes: int)
    requires
        0 <= row < height,
        0 <= width,
        0 <= row_bytes,
    ensures
        0 <= row * width,
        row * width + width <= width * height,
        0 <= row * row_bytes,
        row * row_bytes + row_bytes <= row_bytes * height,
{
    assert(row * width + width <= width * height) by (nonlinear_arith)
        requires
            0 <= row < height,
            0 <= width,
    ;
    assert(row * row_bytes + row_bytes <= row_bytes * height) by (nonlinear_arith)
        requires
            0 <= row < height,
            0 <= row_bytes,
    ;
    assert(0 <= row * width) by (nonlinear_arith)
        requires
            0 <= row,
            0 <= width,
    ;
    assert(0 <= row * row_bytes) by (nonlinear_arith)
        requires
            0 <= row,
            0 <= row_bytes,
    ;
}

/// Tells whether [`decode_strike`] has to be kept from a resource because some glyph's top would
/// be out of range.
pub fn strike_ascent_overflows(bytes: &[u8]) -> (overflows: bool)
    ensures
        overflows == ascent_overflows(bytes@),
{
    let h = match read_header(bytes) {
        Some(h) => h,
        None => return false,
    };
    if h.ascent != i16::MIN {
        return false;
    }
    let mut scratch: Vec<u8> = Vec::new();
    let mut code: usize = 0x20;
    while code < 0x100
        invariant
            is_strike(bytes@),
            h == header(bytes@),
            h.ascent == i16::MIN,
            0x20 <= code <= 0x100,
            forall|earlier: int| 0x20 <= earlier < code ==> !shows(bytes@, earlier),
        decreases 0x100 - code,
    {
        let encoded = h.first_char as usize <= code && code <= h.last_char as usize;
        if code <= 0x7E || (code >= 0x80 && encoded) {
            let index: usize = code_index(&h, code);
            if decode_index(bytes, &h, index, &mut scratch).is_some() {
                assert(shows(bytes@, code as int));
                return true;
            }
        }
        code = code + 1;
    }
    assert forall|any: int| !shows(bytes@, any) by {
        if 0x20 <= any < 0x100 {
        }
    }
    false
}

/// The glyph that belongs to the character.
fn code_index(h: &StrikeHeader, code: usize) -> (index: usize)
    requires
        h.first_char <= h.last_char,
    ensures
        index == h.index_of(code as int),
{
    if h.first_char as usize <= code && code <= h.last_char as usize {
        code - h.first_char as usize
    } else {
        h.last_char as usize - h.first_char as usize + 1
    }
}

/// Takes a strike apart, if the resource is one. The glyphs of the printable ASCII characters
/// come first, each with its own coverage bytes; characters above the ASCII range are left out
/// where the strike cannot show them.
pub fn decode_strike(bytes: &[u8]) -> (decoded: Option<DecodedStrike>)
    requires
        !ascent_overflows(bytes@),
    ensures
        decoded is Some <==> is_strike(bytes@),
        decoded matches Some(strike) ==> {
            &&& strike.metrics == strike_metrics(bytes@)
            &&& strike.ascii@ == ascii_glyphs(bytes@)
            &&& strike.macroman@ == roman_glyphs(bytes@, ROMAN_CODES as nat)
            &&& strike.coverage@ == roman_coverage(bytes@, ROMAN_CODES as nat)
        },
{
    let h = match read_header(bytes) {
        Some(h) => h,
        None => return None,
    };
    let mut coverage: Vec<u8> = Vec::new();
    let mut ascii: Vec<Glyph> = Vec::with_capacity(ASCII_GLYPHS);
    while ascii.len() < ASCII_GLYPHS
        invariant
            is_strike(bytes@),
            h == header(bytes@),
            ascii@.len() <= ASCII_GLYPHS,
            forall|i: int| 0 <= i < ascii@.len() ==> #[trigger] ascii@[i] == ascii_glyph(bytes@, i),
            coverage@ == ascii_coverage(bytes@, ascii@.len()),
        decreases ASCII_GLYPHS - ascii@.len(),
    {
        let index: usize = code_index(&h, 0x20 + ascii.len());
        let glyph = match decode_index(bytes, &h, index, &mut coverage) {
            Some(glyph) => glyph,
            None => Glyph {
                width: 0,
                height: 0,
                advance: to_u8(h.wid_max),
                origin_x: 0,
                origin_y: 0,
                data_offset: 0,
            },
        };
        ascii.push(glyph);
    }
    assert(ascii@ =~= ascii_glyphs(bytes@));
    let mut macroman: Vec<MacRomanGlyph> = Vec::new();
    let mut code: usize = 0x80;
    while code < 0x100
        invariant
            is_strike(bytes@),
            h == header(bytes@),
            0x80 <= code <= 0x100,
            macroman@ == roman_glyphs(bytes@, (code - 0x80) as nat),
            coverage@ == roman_coverage(bytes@, (code - 0x80) as nat),
        decreases 0x100 - code,
    {
        if h.first_char as usize <= code && code <= h.last_char as usize {
            if let Some(glyph) = decode_index(
                bytes,
                &h,
                code - h.first_char as usize,
                &mut coverage,
            ) {
                macroman.push(MacRomanGlyph { mac_code: code as u8, glyph });
            } else {
                assert(coverage@ =~= roman_coverage(bytes@, (code - 0x80) as nat));
            }
        }
        code = code + 1;
    }
    Some(
        DecodedStrike {
            metrics: FontMetrics {
                ascent: h.ascent,
                descent: h.descent,
                wid_max: h.wid_max,
                leading: h.leading,
            },
            ascii,
            macroman,
            coverage,
        },
    )
}

} // verus!
