//! What `ab_glyph` and `ttf_parser` read from a scalable font.
//!
//! Both are asked only about resources whose sums are in range: beyond that range `ttf_parser`
//! panics where debug assertions are on. Subtables of the `cmap` table are asked for in order, up
//! to the first that cannot be read.
#[allow(unused_imports)]
use crate::extent::parses_in_range;
use ab_glyph::{Font, FontRef};
use ttf_parser::{Face, PlatformId};
use vstd::prelude::*;

verus! {

/// The platform whose character codes a `cmap` subtable maps.
#[derive(Clone, Copy, Debug, PartialEq, Eq)]
pub enum CmapPlatform {
    Unicode,
    Macintosh,
    Iso,
    Windows,
    Custom,
}

/// `ab_glyph::FontRef::try_from_slice` accepts the bytes.
pub uninterp spec fn font_ref_accepts(bytes: Seq<u8>) -> bool;

/// What `ab_glyph::Font::glyph_id` gives for a character of the font that
/// `ab_glyph::FontRef::try_from_slice` makes of the bytes, if it makes one.
pub uninterp spec fn font_ref_glyph_id(bytes: Seq<u8>, ch: char) -> Option<u16>;

/// `ttf_parser::Face::parse` accepts the bytes as its first face.
pub uninterp spec fn face_accepts(bytes: Seq<u8>) -> bool;

/// The platform of the `cmap` subtable that `ttf_parser::cmap::Subtables::get` gives for an index,
/// if the bytes are a face with a `cmap` table and there is such a subtable.
pub uninterp spec fn cmap_platform(bytes: Seq<u8>, index: u16) -> Option<CmapPlatform>;

/// What `ttf_parser::cmap::Subtable::glyph_index` gives for a code in the `cmap` subtable at an
/// index, if there is such a subtable.
pub uninterp spec fn cmap_glyph(bytes: Seq<u8>, index: u16, code: u32) -> Option<u16>;

/// `ab_glyph::FontRef::try_from_slice`. The contract names whether it accepts the bytes, and
/// claims that it does so exactly where `ttf_parser::Face::parse` accepts them as their first
/// face, which is all that it asks.
#[verifier::external_body]
pub(crate) fn is_font_ref(bytes: &[u8]) -> (accepted: bool)
    requires
        parses_in_range(bytes@),
    ensures
        accepted == font_ref_accepts(bytes@),
        accepted == face_accepts(bytes@),
{
    FontRef::try_from_slice(bytes).is_ok()
}

/// `ab_glyph::Font::glyph_id` on an `ab_glyph::FontRef`. The contract names the glyph's number,
/// and claims that there is one for every character of a font that is accepted.
#[verifier::external_body]
pub(crate) fn unicode_glyph(bytes: &[u8], ch: char) -> (id: Option<u16>)
    requires
        parses_in_range(bytes@),
    ensures
        id == font_ref_glyph_id(bytes@, ch),
        id is Some <==> font_ref_accepts(bytes@),
{
    match FontRef::try_from_slice(bytes) {
        Ok(font) => Some(font.glyph_id(ch).0),
        Err(_) => None,
    }
}

/// `ttf_parser::Face::parse`. The contract names whether it accepts the bytes.
#[verifier::external_body]
pub(crate) fn is_face(bytes: &[u8]) -> (accepted: bool)
    requires
        parses_in_range(bytes@),
    ensures
        accepted == face_accepts(bytes@),
{
    Face::parse(bytes, 0).is_ok()
}

/// `ttf_parser::cmap::Subtables::get`. The contract names the subtable's platform.
#[verifier::external_body]
pub(crate) fn subtable_platform(bytes: &[u8], index: u16) -> (platform: Option<CmapPlatform>)
    requires
        parses_in_range(bytes@),
        forall|earlier: u16| earlier < index ==> #[trigger] cmap_platform(bytes@, earlier) is Some,
    ensures
        platform == cmap_platform(bytes@, index),
{
    let face = Face::parse(bytes, 0).ok()?;
    let cmap = face.tables().cmap?;
    match cmap.subtables.get(index)?.platform_id {
        PlatformId::Unicode => Some(CmapPlatform::Unicode),
        PlatformId::Macintosh => Some(CmapPlatform::Macintosh),
        PlatformId::Iso => Some(CmapPlatform::Iso),
        PlatformId::Windows => Some(CmapPlatform::Windows),
        PlatformId::Custom => Some(CmapPlatform::Custom),
    }
}

/// `ttf_parser::cmap::Subtable::glyph_index`. The contract names the glyph's number.
#[verifier::external_body]
pub(crate) fn subtable_glyph(bytes: &[u8], index: u16, code: u32) -> (id: Option<u16>)
    requires
        parses_in_range(bytes@),
        forall|earlier: u16| earlier < index ==> #[trigger] cmap_platform(bytes@, earlier) is Some,
    ensures
        id == cmap_glyph(bytes@, index, code),
{
    let face = Face::parse(bytes, 0).ok()?;
    let cmap = face.tables().cmap?;
    let id = cmap.subtables.get(index)?.glyph_index(code)?;
    Some(id.0)
}

} // verus!
