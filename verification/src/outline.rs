//! Scalable fonts: which glyph of the font stands for which character.
#[allow(unused_imports)]
use crate::extent::parses_in_range;
use crate::glyph::ASCII_GLYPHS;
use crate::sfnt::{subtable_glyph, subtable_platform, unicode_glyph, CmapPlatform};
#[allow(unused_imports)]
use crate::sfnt::{cmap_glyph, cmap_platform, font_ref_accepts, font_ref_glyph_id};
use crate::strike::ROMAN_CODES;
use vstd::prelude::*;

verus! {

/// The first `cmap` subtable from `from` on that maps Macintosh codes. A subtable that cannot be
/// read ends the search.
pub open spec fn macintosh_subtable(bytes: Seq<u8>, from: int) -> Option<u16>
    decreases 0xFFFF - from,
{
    if from >= 0xFFFF {
        None
    } else {
        match cmap_platform(bytes, from as u16) {
            None => None,
            Some(CmapPlatform::Macintosh) => Some(from as u16),
            Some(_) => macintosh_subtable(bytes, from + 1),
        }
    }
}

/// What the font's Macintosh `cmap` subtable maps a code to.
pub open spec fn macintosh_glyph(bytes: Seq<u8>, mac_code: u8) -> Option<u16> {
    match macintosh_subtable(bytes, 0) {
        Some(index) => cmap_glyph(bytes, index, mac_code as u32),
        None => None,
    }
}

/// The glyph that is drawn: the one that Unicode gives, unless it is the font's glyph for
/// missing characters and the Macintosh code gives another.
pub open spec fn chosen_glyph(unicode: u16, macintosh: Option<u16>) -> u16 {
    match macintosh {
        Some(mapped) if unicode == 0 => mapped,
        _ => unicode,
    }
}

/// The glyph that is drawn for a character with that Macintosh code.
pub open spec fn glyph_for(bytes: Seq<u8>, mac_code: u8, ch: char) -> u16 {
    chosen_glyph(font_ref_glyph_id(bytes, ch)->0, macintosh_glyph(bytes, mac_code))
}

/// The character of a Mac Roman code above the ASCII range; `table` lists them from 0x80 on.
pub open spec fn mac_char(table: Seq<char>, nth: int) -> char {
    if 0 <= nth < table.len() {
        table[nth]
    } else {
        '?'
    }
}

/// A face that has to be rasterised: the family, the size, the font's bytes, and the glyphs to
/// draw for the printable ASCII characters and for the Mac Roman codes above them.
pub struct OutlineRequest {
    pub font_id: i16,
    pub size: i16,
    pub bytes: &'static [u8],
    pub ascii: Vec<u16>,
    pub macroman: Vec<u16>,
}

/// What an [`OutlineRequest`] holds.
#[verifier::ext_equal]
pub struct RequestModel {
    pub font_id: i16,
    pub size: i16,
    pub bytes: Seq<u8>,
    pub ascii: Seq<u16>,
    pub macroman: Seq<u16>,
}

impl View for OutlineRequest {
    type V = RequestModel;

    open spec fn view(&self) -> RequestModel {
        RequestModel {
            font_id: self.font_id,
            size: self.size,
            bytes: self.bytes@,
            ascii: self.ascii@,
            macroman: self.macroman@,
        }
    }
}

/// The request for a family's font at a size.
pub open spec fn request(
    font_id: i16,
    size: i16,
    bytes: Seq<u8>,
    mac_roman: Seq<char>,
) -> RequestModel {
    RequestModel {
        font_id,
        size,
        bytes,
        ascii: Seq::new(
            ASCII_GLYPHS as nat,
            |nth: int| glyph_for(bytes, (0x20 + nth) as u8, (0x20 + nth) as char),
        ),
        macroman: Seq::new(
            ROMAN_CODES as nat,
            |nth: int| glyph_for(bytes, (0x80 + nth) as u8, mac_char(mac_roman, nth)),
        ),
    }
}

/// The glyph that is drawn: the one that Unicode gives, unless it is the font's glyph for
/// missing characters and the Macintosh code gives another.
pub fn choose_glyph(unicode: u16, macintosh: Option<u16>) -> (id: u16)
    ensures
        id == chosen_glyph(unicode, macintosh),
{
    if unicode == 0 {
        if let Some(mapped) = macintosh {
            return mapped;
        }
    }
    unicode
}

/// Finds the font's first `cmap` subtable that maps Macintosh codes.
fn find_macintosh_subtable(bytes: &[u8]) -> (found: Option<u16>)
    requires
        parses_in_range(bytes@),
    ensures
        found == macintosh_subtable(bytes@, 0),
{
    let mut index: u16 = 0;
    while index < 0xFFFF
        invariant
            parses_in_range(bytes@),
            macintosh_subtable(bytes@, 0) == macintosh_subtable(bytes@, index as int),
            forall|earlier: u16|
                earlier < index ==> #[trigger] cmap_platform(bytes@, earlier) is Some,
        decreases 0xFFFF - index,
    {
        match subtable_platform(bytes, index) {
            None => return None,
            Some(CmapPlatform::Macintosh) => return Some(index),
            Some(_) => {},
        }
        index = index + 1;
    }
    None
}

/// All subtables before the one that is found can be read.
proof fn lemma_earlier_subtables(bytes: Seq<u8>, from: int)
    requires
        0 <= from,
    ensures
        macintosh_subtable(bytes, from) matches Some(index) ==> forall|earlier: u16|
            from <= earlier < index ==> #[trigger] cmap_platform(bytes, earlier) is Some,
    decreases 0xFFFF - from,
{
    if from < 0xFFFF {
        lemma_earlier_subtables(bytes, from + 1);
    }
}

/// The glyph that is drawn for a character with that Macintosh code.
fn find_glyph(bytes: &[u8], subtable: Option<u16>, mac_code: u8, ch: char) -> (id: u16)
    requires
        parses_in_range(bytes@),
        font_ref_accepts(bytes@),
        subtable == macintosh_subtable(bytes@, 0),
    ensures
        id == glyph_for(bytes@, mac_code, ch),
{
    let unicode: u16 = unicode_glyph(bytes, ch).unwrap();
    proof {
        lemma_earlier_subtables(bytes@, 0);
    }
    let macintosh: Option<u16> = match subtable {
        Some(index) => subtable_glyph(bytes, index, mac_code as u32),
        None => None,
    };
    choose_glyph(unicode, macintosh)
}

/// Makes the request for a family's font at a size.
pub(crate) fn make_request(
    font_id: i16,
    size: i16,
    bytes: &'static [u8],
    mac_roman: &Vec<char>,
) -> (made: OutlineRequest)
    requires
        parses_in_range(bytes@),
        font_ref_accepts(bytes@),
    ensures
        made@ == request(font_id, size, bytes@, mac_roman@),
{
    let subtable = find_macintosh_subtable(bytes);
    let mut ascii: Vec<u16> = Vec::with_capacity(ASCII_GLYPHS);
    let mut code: u8 = 0x20;
    while code < 0x7F
        invariant
            parses_in_range(bytes@),
            font_ref_accepts(bytes@),
            subtable == macintosh_subtable(bytes@, 0),
            0x20 <= code <= 0x7F,
            ascii@.len() == code - 0x20,
            forall|i: int|
                0 <= i < ascii@.len() ==> #[trigger] ascii@[i] == glyph_for(
                    bytes@,
                    (0x20 + i) as u8,
                    (0x20 + i) as char,
                ),
        decreases 0x7F - code,
    {
        ascii.push(find_glyph(bytes, subtable, code, code as char));
        code = code + 1;
    }
    let mut macroman: Vec<u16> = Vec::with_capacity(ROMAN_CODES);
    let mut nth: usize = 0;
    while nth < ROMAN_CODES
        invariant
            parses_in_range(bytes@),
            font_ref_accepts(bytes@),
            subtable == macintosh_subtable(bytes@, 0),
            nth <= ROMAN_CODES,
            macroman@.len() == nth,
            forall|i: int|
                0 <= i < macroman@.len() ==> #[trigger] macroman@[i] == glyph_for(
                    bytes@,
                    (0x80 + i) as u8,
                    mac_char(mac_roman@, i),
                ),
        decreases ROMAN_CODES - nth,
    {
        let ch: char = if nth < mac_roman.len() {
            mac_roman[nth]
        } else {
            '?'
        };
        macroman.push(find_glyph(bytes, subtable, (0x80 + nth) as u8, ch));
        nth = nth + 1;
    }
    let made = OutlineRequest { font_id, size, bytes, ascii, macroman };
    assert(made@ =~= request(font_id, size, bytes@, mac_roman@));
    made
}

} // verus!
