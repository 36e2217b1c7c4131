//! Which glyphs of a scalable font are asked to be drawn.
use crate::outline::{macintosh_subtable, request};
use crate::sfnt::{cmap_glyph, cmap_platform, font_ref_glyph_id, CmapPlatform};
use vstd::prelude::*;

verus! {

/// The font's subtable number `index` is the first that maps Macintosh codes. All before it can be
/// read and map other codes.
pub open spec fn is_macintosh_map(bytes: Seq<u8>, index: u16) -> bool {
    &&& index < 65535
    &&& cmap_platform(bytes, index) == Some(CmapPlatform::Macintosh)
    &&& forall|earlier: u16|
        earlier < index ==> (#[trigger] cmap_platform(bytes, earlier)) is Some && cmap_platform(
            bytes,
            earlier,
        ) != Some(CmapPlatform::Macintosh)
}

proof fn lemma_macintosh_map(bytes: Seq<u8>, from: int)
    requires
        0 <= from,
        forall|earlier: u16|
            earlier < from ==> (#[trigger] cmap_platform(bytes, earlier)) is Some && cmap_platform(
                bytes,
                earlier,
            ) != Some(CmapPlatform::Macintosh),
    ensures
        forall|index: u16| #[trigger]
            is_macintosh_map(bytes, index) ==> macintosh_subtable(bytes, from) == Some(index),
        macintosh_subtable(bytes, from) matches Some(index) ==> is_macintosh_map(bytes, index),
    decreases 65535 - from,
{
    if from < 65535 {
        let here = cmap_platform(bytes, from as u16);
        if here is Some && here != Some(CmapPlatform::Macintosh) {
            lemma_macintosh_map(bytes, from + 1);
        } else {
            assert forall|index: u16| #[trigger] is_macintosh_map(bytes, index) implies index
                == from by {
                if index < from {
                    assert(cmap_platform(bytes, index) != Some(CmapPlatform::Macintosh));
                } else if index > from {
                    assert(cmap_platform(bytes, from as u16) is Some);
                }
            }
        }
    }
}

/// The glyph that stands for a character: the one that Unicode gives, unless that is number 0,
/// which stands for missing characters; then the one that the first Macintosh map has for the
/// code, if there is such a map and it has one.
pub open spec fn stands_for(glyph: u16, bytes: Seq<u8>, mac_code: u32, ch: char) -> bool {
    let unicode = font_ref_glyph_id(bytes, ch)->0;
    if unicode != 0 {
        glyph == unicode
    } else {
        &&& forall|index: u16| #[trigger]
            is_macintosh_map(bytes, index) ==> glyph == (match cmap_glyph(bytes, index, mac_code) {
                Some(mapped) => mapped,
                None => 0,
            })
        &&& (forall|index: u16| !#[trigger] is_macintosh_map(bytes, index)) ==> glyph == 0
    }
}

/// A request is for the family, the size and the font that it is made for. It names a glyph for
/// each printable ASCII character and for each Mac Roman code above them. A code that the table of
/// Mac Roman characters does not list stands for a question mark.
pub proof fn law_requests_name_the_glyphs(
    font_id: i16,
    size: i16,
    bytes: Seq<u8>,
    mac_roman: Seq<char>,
    nth: int,
)
    requires
        0 <= nth < 128,
    ensures
        ({
            let req = request(font_id, size, bytes, mac_roman);
            &&& req.font_id == font_id && req.size == size && req.bytes == bytes
            &&& req.ascii.len() == 95 && req.macroman.len() == 128
            &&& nth < 95 ==> stands_for(
                req.ascii[nth],
                bytes,
                (32 + nth) as u32,
                (32 + nth) as char,
            )
            &&& stands_for(
                req.macroman[nth],
                bytes,
                (128 + nth) as u32,
                if nth < mac_roman.len() {
                    mac_roman[nth]
                } else {
                    '?'
                },
            )
        }),
{
    lemma_macintosh_map(bytes, 0);
}

} // verus!
