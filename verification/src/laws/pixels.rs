//! What holds of the pixels of every face that a lookup finds.
use crate::catalogue::{find_face, lemma_find_face_sound, packed_models, PixelFonts};
use crate::glyph::{glyph_in_bounds, is_binary, FaceModel, RomanModel};
use crate::ids::{effective_size, substitute, FONT_CHICAGO};
use crate::laws::lookups::{law_closest_is_nearest, lemma_nearest_exists};
use crate::laws::rasters::law_raster_faces_are_drawable;
use crate::laws::strikes::law_strike_faces_are_drawable;
use crate::lookup::{
    closest, default_lookup, enlarged, exact, face_lookup, ratio_lookup, ratio_size, scaled_lookup,
    stand_in, strike_at, strike_sizes, substitute_route, Attempt, LookupModel,
};
use crate::nearest::nearest;
use crate::raster::OutlineRaster;
use crate::special::{macroman_lookup, roman_glyph_from};
use crate::store::{new_fonts, registers, with_raster, with_strike, StoreModel};
use vstd::prelude::*;

verus! {

/// Whole artwork makes well-formed fonts: all built-in faces are whole.
pub proof fn law_new_fonts_are_whole(art: PixelFonts, mac_roman: Seq<char>)
    requires
        art.whole(),
    ensures
        new_fonts(art, mac_roman).wf(),
        forall|i: int|
            0 <= i < packed_models(art).len() ==> (#[trigger] packed_models(art)[i]).whole(),
{
}

/// Registering a strike keeps the fonts well-formed, and so all faces whole.
pub proof fn law_strikes_keep_fonts_whole(
    fonts: StoreModel,
    family_id: i16,
    size: i16,
    bytes: Seq<u8>,
)
    requires
        fonts.wf(),
        registers(family_id, size, bytes),
    ensures
        with_strike(fonts, family_id, size, bytes).wf(),
{
    law_strike_faces_are_drawable(family_id, size, bytes);
}

/// Drawing a scalable font keeps the fonts well-formed, and so all faces whole.
pub proof fn law_rasters_keep_fonts_whole(
    fonts: StoreModel,
    font_id: i16,
    size: i16,
    raster: OutlineRaster,
)
    requires
        fonts.wf(),
        raster.complete(),
    ensures
        with_raster(fonts, font_id, size, raster).wf(),
{
    law_raster_faces_are_drawable(font_id, size, raster);
}

/// The face is one that overrides another.
pub open spec fn overrides(fonts: StoreModel, face: FaceModel) -> bool {
    exists|k: (i16, i16)| #[trigger]
        fonts.override_faces.contains_key(k) && fonts.override_faces[k] == face
}

proof fn lemma_table_face_whole(fonts: StoreModel, font_id: i16, size: i16)
    requires
        fonts.wf(),
    ensures
        find_face(fonts.table, font_id, size) matches Some(face) ==> face.whole(),
{
    lemma_find_face_sound(fonts.table, font_id, size);
}

spec fn finds_whole(fonts: StoreModel, found: Attempt) -> bool {
    found matches LookupModel::Ready(Some((face, _))) ==> face.whole() || overrides(fonts, face)
}

proof fn lemma_exact_whole(fonts: StoreModel, font_id: i16, size: i16, scale: i16)
    requires
        fonts.wf(),
    ensures
        finds_whole(fonts, exact(fonts, font_id, size, scale)),
{
    lemma_table_face_whole(fonts, font_id, effective_size(size));
}

proof fn lemma_family_whole(fonts: StoreModel, font_id: i16, size: i16)
    requires
        fonts.wf(),
    ensures
        finds_whole(fonts, exact(fonts, font_id, size, 1)),
        finds_whole(fonts, enlarged(fonts, font_id, size, 2)),
        finds_whole(fonts, enlarged(fonts, font_id, size, 3)),
        finds_whole(fonts, stand_in(fonts, font_id, size)),
{
    lemma_exact_whole(fonts, font_id, size, 1);
    lemma_exact_whole(fonts, font_id, (size / 2) as i16, 2);
    lemma_exact_whole(fonts, font_id, (size / 3) as i16, 3);
    law_closest_is_nearest(fonts, font_id, size);
    if closest(fonts, font_id, size) is Some {
        let sizes = strike_sizes(fonts, font_id);
        let any = choose|any: i16| sizes.contains(any);
        lemma_nearest_exists(sizes, effective_size(size), any);
        let best = nearest(sizes, effective_size(size));
        assert(sizes.contains(best));
        lemma_table_face_whole(fonts, font_id, best);
        assert(strike_at(fonts, font_id, best).whole());
    }
}

/// Every face that any lookup finds, but for one that overrides others, has a glyph for each
/// printable ASCII character, with all of its pixels there, and every pixel is fully clear or
/// fully set. So it is in every state of the fonts.
pub proof fn law_found_faces_are_whole(fonts: StoreModel, font_id: i16, size: i16)
    requires
        fonts.wf(),
    ensures
        face_lookup(fonts, font_id, size) matches LookupModel::Ready(Some(face)) ==> face.whole()
            || overrides(fonts, face),
        !fonts.override_faces.contains_key((font_id, effective_size(size))) ==> (face_lookup(
            fonts,
            font_id,
            size,
        ) matches LookupModel::Ready(Some(face)) ==> face.whole()),
        scaled_lookup(fonts, font_id, size) matches LookupModel::Ready((face, _)) ==> face.whole()
            || overrides(fonts, face),
        default_lookup(fonts, font_id, size) matches LookupModel::Ready(face) ==> face.whole()
            || overrides(fonts, face),
        ratio_lookup(fonts, font_id, size) matches LookupModel::Ready((face, _, _)) ==> face.whole()
            || overrides(fonts, face),
{
    lemma_scaled_whole(fonts, font_id, size);
    lemma_scaled_whole(fonts, font_id, ratio_size(size));
    lemma_exact_whole(fonts, font_id, size, 1);
    lemma_table_face_whole(fonts, font_id, effective_size(size));
}

proof fn lemma_scaled_whole(fonts: StoreModel, font_id: i16, size: i16)
    requires
        fonts.wf(),
    ensures
        scaled_lookup(fonts, font_id, size) matches LookupModel::Ready((face, _)) ==> face.whole()
            || overrides(fonts, face),
{
    lemma_family_whole(fonts, font_id, size);
    if let Some(other) = substitute(font_id) {
        lemma_family_whole(fonts, other, size);
        assert(finds_whole(fonts, substitute_route(fonts, other, size)));
    }
    lemma_exact_whole(fonts, FONT_CHICAGO, 12, 1);
    assert(fonts.table[0].whole());
}

/// Every Mac Roman glyph that is found has all of its pixels there, and every pixel is fully
/// clear or fully set.
pub proof fn law_found_roman_glyphs_are_whole(
    fonts: StoreModel,
    font_id: i16,
    size: i16,
    mac_code: u8,
)
    requires
        fonts.wf(),
    ensures
        macroman_lookup(fonts, font_id, size, mac_code) matches Some((glyph, data)) ==> {
            &&& glyph_in_bounds(glyph, data)
            &&& is_binary(data)
        },
{
    let key = (font_id, effective_size(size));
    if fonts.roman_strikes.contains_key(key) {
        lemma_roman_glyph_whole(fonts.roman_strikes[key], mac_code, 0);
    }
}

proof fn lemma_roman_glyph_whole(face: RomanModel, mac_code: u8, from: int)
    requires
        face.drawable(),
    ensures
        roman_glyph_from(face, mac_code, from) matches Some((glyph, data)) ==> {
            &&& glyph_in_bounds(glyph, data)
            &&& is_binary(data)
        },
    decreases face.glyphs.len() - from,
{
    if 0 <= from < face.glyphs.len() {
        assert(glyph_in_bounds(face.glyphs[from].glyph, face.data));
        lemma_roman_glyph_whole(face, mac_code, from + 1);
    }
}

} // verus!
