//! What holds from one change of the fonts to the lookups after it.
use crate::catalogue::{find_face, packed_models, PixelFonts};
use crate::extent::parses_in_range;
use crate::glyph::FaceModel;
use crate::ids::{effective_size, substitute, FONT_CHICAGO};
use crate::laws::lookups::{law_closest_is_nearest, lemma_built_in};
use crate::laws::pixels::{law_rasters_keep_fonts_whole, law_strikes_keep_fonts_whole};
use crate::laws::rasters::law_raster_roman_shows_its_pixels;
use crate::laws::strikes::law_roman_glyph_shows_its_bitmap;
use crate::lookup::{
    default_lookup, enlarged, exact, face_lookup, ratio_lookup, ratio_size, route, scaled_lookup,
    stand_in, strike_at, strike_sizes, LookupModel,
};
use crate::nearest::nearest;
use crate::outline::request;
use crate::raster::{raster_face, raster_roman, OutlineRaster};
use crate::sfnt::{face_accepts, font_ref_accepts};
use crate::special::{macroman_lookup, roman_glyph};
use crate::store::{
    new_fonts, override_map, path_model, registers, registers_classic, strike_face, strike_roman,
    with_classic_strike, with_outline, with_overrides, with_raster, with_strike, OverrideFace,
    StoreModel,
};
use crate::strike::{has_roman, roman_glyphs, ROMAN_CODES};
use vstd::prelude::*;

verus! {

/// A registered strike is what is found under its family and size, unless it is overridden,
/// whatever was registered before.
pub proof fn law_registered_strikes_are_found(
    fonts: StoreModel,
    family_id: i16,
    size: i16,
    bytes: Seq<u8>,
)
    requires
        fonts.wf(),
        fonts.overrides_resolved,
        registers(family_id, size, bytes),
        !fonts.override_faces.contains_key((family_id, size)),
    ensures
        ({
            let after = with_strike(fonts, family_id, size, bytes);
            let face = strike_face(family_id, size, bytes);
            &&& after.wf()
            &&& face_lookup(after, family_id, size) == LookupModel::Ready(Some(face))
            &&& default_lookup(after, family_id, size) == LookupModel::Ready(face)
            &&& scaled_lookup(after, family_id, size) == LookupModel::Ready((face, 1i16))
        }),
{
    law_strikes_keep_fonts_whole(fonts, family_id, size, bytes);
}

/// The Mac Roman characters of a registered strike are found under its family and size, whatever
/// was registered before.
pub proof fn law_registered_roman_glyphs_are_found(
    fonts: StoreModel,
    family_id: i16,
    size: i16,
    bytes: Seq<u8>,
    mac_code: u8,
)
    requires
        registers(family_id, size, bytes),
        mac_code >= 0x80,
        has_roman(bytes, mac_code as int),
    ensures
        ({
            let after = with_strike(fonts, family_id, size, bytes);
            &&& macroman_lookup(after, family_id, size, mac_code) is Some
            &&& macroman_lookup(after, family_id, size, mac_code) == roman_glyph(
                strike_roman(family_id, size, bytes),
                mac_code,
            )
        }),
{
    law_roman_glyph_shows_its_bitmap(family_id, size, bytes, mac_code);
    assert(roman_glyphs(bytes, ROMAN_CODES as nat).len() > 0);
}

/// Of two strikes for one family and size the later counts, and is what is found; it is as if the
/// earlier had never been, but for Mac Roman characters that a later strike without any leaves in
/// place.
pub proof fn law_later_strikes_replace_earlier(
    fonts: StoreModel,
    family_id: i16,
    size: i16,
    earlier: Seq<u8>,
    later: Seq<u8>,
)
    requires
        registers(family_id, size, earlier),
        registers(family_id, size, later),
    ensures
        ({
            let both = with_strike(
                with_strike(fonts, family_id, size, earlier),
                family_id,
                size,
                later,
            );
            let alone = with_strike(fonts, family_id, size, later);
            &&& both.strikes == alone.strikes
            &&& fonts.overrides_resolved && !fonts.override_faces.contains_key((family_id, size))
                ==> face_lookup(both, family_id, size) == LookupModel::Ready(
                Some(strike_face(family_id, size, later)),
            )
            &&& roman_glyphs(later, ROMAN_CODES as nat).len() > 0 ==> both == alone
        }),
{
    let both = with_strike(with_strike(fonts, family_id, size, earlier), family_id, size, later);
    let alone = with_strike(fonts, family_id, size, later);
    assert(both.strikes =~= alone.strikes);
    if roman_glyphs(later, ROMAN_CODES as nat).len() > 0 {
        assert(both.roman_strikes =~= alone.roman_strikes);
    }
}

/// Registering a strike changes nothing that is found exactly under another family or size.
pub proof fn law_strikes_leave_others_alone(
    fonts: StoreModel,
    family_id: i16,
    size: i16,
    bytes: Seq<u8>,
    other_id: i16,
    other_size: i16,
    mac_code: u8,
)
    requires
        (other_id, effective_size(other_size)) != (family_id, size),
    ensures
        ({
            let after = with_strike(fonts, family_id, size, bytes);
            &&& face_lookup(after, other_id, other_size) == face_lookup(
                fonts,
                other_id,
                other_size,
            )
            &&& macroman_lookup(after, other_id, other_size, mac_code) == macroman_lookup(
                fonts,
                other_id,
                other_size,
                mac_code,
            )
        }),
{
}

/// The number of a classic strike holds its family and its size: each family up to 255 and size
/// up to 127 has a number, and the number gives them back.
pub proof fn law_classic_numbers_hold_family_and_size(family_id: i16, size: i16)
    requires
        0 <= family_id <= 255,
        0 < size < 128,
    ensures
        0 < family_id * 128 + size <= i16::MAX,
        (family_id * 128 + size) / 128 == family_id,
        (family_id * 128 + size) % 128 == size,
{
}

/// Registering a classic strike is registering it under the family and the size that its number
/// holds.
pub proof fn law_classic_strikes_are_family_strikes(
    fonts: StoreModel,
    resource_id: i16,
    bytes: Seq<u8>,
)
    requires
        resource_id > 0,
        resource_id % 128 != 0,
    ensures
        ({
            let family_id = (resource_id / 128) as i16;
            let size = (resource_id % 128) as i16;
            &&& family_id >= 0 && size > 0
            &&& resource_id == family_id * 128 + size
            &&& registers_classic(resource_id, bytes) == registers(family_id, size, bytes)
            &&& with_classic_strike(fonts, resource_id, bytes) == with_strike(
                fonts,
                family_id,
                size,
                bytes,
            )
        }),
{
}

/// A registered scalable font is asked to be drawn at every positive size for which nothing
/// overrides it and no strike is there, with the font's own bytes.
pub proof fn law_registered_outlines_are_drawn(
    fonts: StoreModel,
    family_id: i16,
    size: i16,
    bytes: Seq<u8>,
)
    requires
        fonts.wf(),
        fonts.overrides_resolved,
        parses_in_range(bytes),
        effective_size(size) > 0,
        !fonts.override_faces.contains_key((family_id, effective_size(size))),
        !fonts.strikes.contains_key((family_id, effective_size(size))),
    ensures
        font_ref_accepts(bytes) && face_accepts(bytes) ==> {
            let after = with_outline(fonts, family_id, bytes);
            let req = request(family_id, effective_size(size), bytes, fonts.mac_roman);
            &&& after.wf()
            &&& face_lookup(after, family_id, size) == LookupModel::<
                Option<FaceModel>,
            >::NeedsRaster(req)
            &&& default_lookup(after, family_id, size) == LookupModel::<FaceModel>::NeedsRaster(req)
        },
{
}

/// Of two scalable fonts for one family the later counts, as if the earlier had never been. The
/// fonts of other families stay, and so do all strikes.
pub proof fn law_later_outlines_replace_earlier(
    fonts: StoreModel,
    family_id: i16,
    earlier: Seq<u8>,
    later: Seq<u8>,
    other_id: i16,
)
    requires
        other_id != family_id,
    ensures
        ({
            let both = with_outline(with_outline(fonts, family_id, earlier), family_id, later);
            &&& both == with_outline(fonts, family_id, later)
            &&& both.outlines.contains_key(family_id) && both.outlines[family_id] == later
            &&& both.outlines.contains_key(other_id) == fonts.outlines.contains_key(other_id)
            &&& fonts.outlines.contains_key(other_id) ==> both.outlines[other_id]
                == fonts.outlines[other_id]
            &&& both.strikes == fonts.strikes && both.roman_strikes == fonts.roman_strikes
        }),
{
    let both = with_outline(with_outline(fonts, family_id, earlier), family_id, later);
    assert(both.outlines =~= with_outline(fonts, family_id, later).outlines);
}

/// A face that was rasterised is filed with the strikes: it is what is found from then on under
/// the family and size, and no strike at another place is touched.
pub proof fn law_rasters_are_found(
    fonts: StoreModel,
    font_id: i16,
    size: i16,
    raster: OutlineRaster,
    mac_code: u8,
)
    requires
        fonts.wf(),
        fonts.overrides_resolved,
        raster.complete(),
        size != 0,
        !fonts.override_faces.contains_key((font_id, size)),
    ensures
        ({
            let after = with_raster(fonts, font_id, size, raster);
            &&& after.wf()
            &&& face_lookup(after, font_id, size) == LookupModel::Ready(
                Some(raster_face(font_id, size, raster)),
            )
            &&& mac_code >= 0x80 ==> macroman_lookup(after, font_id, size, mac_code) == roman_glyph(
                raster_roman(font_id, size, raster),
                mac_code,
            ) && macroman_lookup(after, font_id, size, mac_code) is Some
        }),
{
    law_rasters_keep_fonts_whole(fonts, font_id, size, raster);
    if mac_code >= 0x80 {
        law_raster_roman_shows_its_pixels(font_id, size, raster, mac_code);
    }
}

/// When a lookup asks for an outline to be drawn and gets it, the same lookup is answered with
/// the face that was drawn.
pub proof fn law_drawing_answers_the_lookup(
    fonts: StoreModel,
    font_id: i16,
    size: i16,
    raster: OutlineRaster,
)
    requires
        fonts.wf(),
    ensures
        face_lookup(fonts, font_id, size) matches LookupModel::NeedsRaster(req) ==> {
            &&& (req.font_id, req.size) == (font_id, effective_size(size))
            &&& face_lookup(with_raster(fonts, req.font_id, req.size, raster), font_id, size)
                == LookupModel::Ready(Some(raster_face(req.font_id, req.size, raster)))
        },
{
}

/// The family and size are ones for which an outline is asked to be drawn.
spec fn asked_for(fonts: StoreModel, drawn: (i16, i16)) -> bool {
    drawn.1 != 0 && face_lookup(fonts, drawn.0, drawn.1) is NeedsRaster
}

/// A step that found nothing finds nothing still, and one that asked finds what was drawn.
proof fn lemma_exact_step(
    fonts: StoreModel,
    font_id: i16,
    size: i16,
    scale: i16,
    drawn: (i16, i16),
    raster: OutlineRaster,
)
    requires
        asked_for(fonts, drawn),
    ensures
        ({
            let before = exact(fonts, font_id, size, scale);
            let after = exact(
                with_raster(fonts, drawn.0, drawn.1, raster),
                font_id,
                size,
                scale,
            );
            &&& before == LookupModel::Ready(None::<(FaceModel, i16)>) ==> after == before
            &&& before matches LookupModel::NeedsRaster(req) ==> ((req.font_id, req.size) == drawn
                ==> after == LookupModel::Ready(
                Some((raster_face(drawn.0, drawn.1, raster), scale)),
            ))
        }),
{
}

/// As for an exact step.
proof fn lemma_enlarged_step(
    fonts: StoreModel,
    font_id: i16,
    size: i16,
    scale: i16,
    drawn: (i16, i16),
    raster: OutlineRaster,
)
    requires
        asked_for(fonts, drawn),
    ensures
        ({
            let before = enlarged(fonts, font_id, size, scale);
            let after = enlarged(
                with_raster(fonts, drawn.0, drawn.1, raster),
                font_id,
                size,
                scale,
            );
            &&& before == LookupModel::Ready(None::<(FaceModel, i16)>) ==> after == before
            &&& before matches LookupModel::NeedsRaster(req) ==> ((req.font_id, req.size) == drawn
                ==> after == LookupModel::Ready(
                Some((raster_face(drawn.0, drawn.1, raster), scale)),
            ))
        }),
{
    lemma_exact_step(fonts, font_id, (size / scale) as i16, scale, drawn, raster);
}

/// What is drawn for one family leaves the strikes of the others alone.
proof fn lemma_stand_in_unchanged(
    fonts: StoreModel,
    font_id: i16,
    size: i16,
    drawn: (i16, i16),
    raster: OutlineRaster,
)
    requires
        font_id != drawn.0,
    ensures
        stand_in(with_raster(fonts, drawn.0, drawn.1, raster), font_id, size) == stand_in(
            fonts,
            font_id,
            size,
        ),
{
    let after = with_raster(fonts, drawn.0, drawn.1, raster);
    assert(strike_sizes(after, font_id) =~= strike_sizes(fonts, font_id));
    let best = nearest(strike_sizes(fonts, font_id), effective_size(size));
    assert(strike_at(after, font_id, best) == strike_at(fonts, font_id, best));
}

/// A face that is asked for bears the family and size that the request names.
proof fn lemma_asked_for(fonts: StoreModel, font_id: i16, size: i16, scale: i16)
    ensures
        exact(fonts, font_id, size, scale) matches LookupModel::NeedsRaster(req) ==> {
            &&& req.font_id == font_id
            &&& asked_for(fonts, (req.font_id, req.size))
        },
        enlarged(fonts, font_id, size, scale) matches LookupModel::NeedsRaster(req) ==> {
            &&& req.font_id == font_id
            &&& asked_for(fonts, (req.font_id, req.size))
        },
{
}

/// The outcome of a lookup is that of its first step that does not find nothing.
proof fn lemma_route_asks(fonts: StoreModel, font_id: i16, size: i16)
    ensures
        route(fonts, font_id, size) matches LookupModel::NeedsRaster(req) ==> asked_for(
            fonts,
            (req.font_id, req.size),
        ) && (req.font_id == font_id || Some(req.font_id) == substitute(font_id)),
{
    lemma_asked_for(fonts, font_id, size, 1);
    lemma_asked_for(fonts, font_id, size, 2);
    lemma_asked_for(fonts, font_id, size, 3);
    if let Some(other) = substitute(font_id) {
        lemma_asked_for(fonts, other, size, 1);
        lemma_asked_for(fonts, other, size, 2);
        lemma_asked_for(fonts, other, size, 3);
    }
}

/// When the lookup for the face that serves a family and a size asks for an outline to be drawn
/// and gets it, the same lookup is answered with the face that was drawn: no lookup asks twice.
pub proof fn law_drawing_answers_the_default_lookup(
    fonts: StoreModel,
    font_id: i16,
    size: i16,
    raster: OutlineRaster,
)
    requires
        fonts.wf(),
    ensures
        scaled_lookup(fonts, font_id, size) matches LookupModel::NeedsRaster(req) ==> {
            let after = with_raster(fonts, req.font_id, req.size, raster);
            let face = raster_face(req.font_id, req.size, raster);
            &&& scaled_lookup(after, font_id, size) matches LookupModel::Ready((found, _)) && found
                == face
            &&& default_lookup(after, font_id, size) == LookupModel::Ready(face)
        },
{
    if let LookupModel::NeedsRaster(req) = scaled_lookup(fonts, font_id, size) {
        let drawn = (req.font_id, req.size);
        lemma_route_asks(fonts, font_id, size);
        lemma_asked_for(fonts, FONT_CHICAGO, 12, 1);
        lemma_exact_step(fonts, font_id, size, 1, drawn, raster);
        if let Some(other) = substitute(font_id) {
            lemma_exact_step(fonts, other, size, 1, drawn, raster);
            lemma_enlarged_step(fonts, other, size, 2, drawn, raster);
            lemma_enlarged_step(fonts, other, size, 3, drawn, raster);
            if other != drawn.0 {
                lemma_stand_in_unchanged(fonts, other, size, drawn, raster);
            }
        }
        lemma_enlarged_step(fonts, font_id, size, 2, drawn, raster);
        lemma_enlarged_step(fonts, font_id, size, 3, drawn, raster);
        if font_id != drawn.0 {
            lemma_stand_in_unchanged(fonts, font_id, size, drawn, raster);
        } else if font_id == FONT_CHICAGO {
            law_closest_is_nearest(fonts, FONT_CHICAGO, size);
            lemma_built_in(fonts.table, 1);
            assert(strike_sizes(fonts, FONT_CHICAGO).contains(12));
        }
        lemma_exact_step(fonts, FONT_CHICAGO, 12, 1, drawn, raster);
    }
}

/// When the lookup for a face and its ratio asks for an outline to be drawn and gets it, the same
/// lookup is answered with the face that was drawn, and the ratio of the size that is asked for
/// to the face's.
pub proof fn law_drawing_answers_the_ratio_lookup(
    fonts: StoreModel,
    font_id: i16,
    size: i16,
    raster: OutlineRaster,
)
    requires
        fonts.wf(),
    ensures
        ratio_lookup(fonts, font_id, size) matches LookupModel::NeedsRaster(req) ==> ratio_lookup(
            with_raster(fonts, req.font_id, req.size, raster),
            font_id,
            size,
        ) == LookupModel::Ready(
            (
                raster_face(req.font_id, req.size, raster),
                ratio_size(size) as i32,
                req.size as i32,
            ),
        ),
{
    law_drawing_answers_the_default_lookup(fonts, font_id, ratio_size(size), raster);
    if let LookupModel::NeedsRaster(req) = scaled_lookup(fonts, font_id, ratio_size(size)) {
        lemma_scaled_asks(fonts, font_id, ratio_size(size));
        assert(req.size >= 1);
    }
}

/// An outline is asked to be drawn at positive sizes only.
proof fn lemma_scaled_asks(fonts: StoreModel, font_id: i16, size: i16)
    ensures
        scaled_lookup(fonts, font_id, size) matches LookupModel::NeedsRaster(req) ==> req.size > 0,
{
    lemma_route_asks(fonts, font_id, size);
    lemma_asked_for(fonts, FONT_CHICAGO, 12, 1);
}

/// Once the environment has been consulted, no lookup asks for it.
pub proof fn law_resolving_answers_the_lookup(
    fonts: StoreModel,
    env_dir: Option<Seq<u8>>,
    loaded: Seq<OverrideFace>,
    font_id: i16,
    size: i16,
)
    requires
        fonts.wf(),
    ensures
        ({
            let after = with_overrides(fonts, env_dir, loaded);
            &&& after.wf()
            &&& !(face_lookup(after, font_id, size) is NeedsOverrides)
            &&& !(scaled_lookup(after, font_id, size) is NeedsOverrides)
            &&& !(default_lookup(after, font_id, size) is NeedsOverrides)
            &&& !(ratio_lookup(after, font_id, size) is NeedsOverrides)
        }),
{
}

/// After a refresh every lookup asks for the environment first.
pub proof fn law_refresh_consults_the_environment(fonts: StoreModel, font_id: i16, size: i16)
    requires
        !fonts.overrides_resolved,
    ensures
        face_lookup(fonts, font_id, size) is NeedsOverrides,
        scaled_lookup(fonts, font_id, size) is NeedsOverrides,
        default_lookup(fonts, font_id, size) is NeedsOverrides,
        ratio_lookup(fonts, font_id, size) is NeedsOverrides,
{
}

/// Where the environment names the directory that was loaded last, a refresh changes nothing:
/// the faces are kept, whatever would have been loaded.
pub proof fn law_same_directory_is_not_loaded_again(fonts: StoreModel, loaded: Seq<OverrideFace>)
    requires
        fonts.overrides_resolved,
    ensures
        with_overrides(
            StoreModel { overrides_resolved: false, ..fonts },
            fonts.override_dir,
            loaded,
        ) == fonts,
{
}

/// Where the environment names another directory, exactly the faces loaded from it override, each
/// for its family and size, and the last of those for the same.
pub proof fn law_loaded_faces_override(
    fonts: StoreModel,
    dir: Seq<u8>,
    loaded: Seq<OverrideFace>,
    nth: int,
)
    requires
        fonts.override_dir != Some(dir),
        0 <= nth < loaded.len(),
        loaded[nth].size != 0,
        forall|later: int|
            nth < later < loaded.len() ==> (#[trigger] loaded[later].font_id, loaded[later].size)
                != (loaded[nth].font_id, loaded[nth].size),
    ensures
        ({
            let after = with_overrides(fonts, Some(dir), loaded);
            let entry = loaded[nth];
            face_lookup(after, entry.font_id, entry.size) == LookupModel::Ready(
                Some(entry.face@),
            )
        }),
{
    lemma_override_map_last(loaded, nth, loaded.len());
}

proof fn lemma_override_map_last(loaded: Seq<OverrideFace>, nth: int, count: nat)
    requires
        0 <= nth < count <= loaded.len(),
        forall|later: int|
            nth < later < count ==> (#[trigger] loaded[later].font_id, loaded[later].size) != (
                loaded[nth].font_id,
                loaded[nth].size,
            ),
    ensures
        override_map(loaded, count).contains_key((loaded[nth].font_id, loaded[nth].size)),
        override_map(loaded, count)[(loaded[nth].font_id, loaded[nth].size)] == loaded[nth].face@,
    decreases count,
{
    if count - 1 > nth {
        assert((loaded[count - 1].font_id, loaded[count - 1].size) != (
            loaded[nth].font_id,
            loaded[nth].size,
        ));
        lemma_override_map_last(loaded, nth, (count - 1) as nat);
    }
}

/// Where the environment names no directory, nothing overrides any face.
pub proof fn law_no_directory_no_overrides(
    fonts: StoreModel,
    loaded: Seq<OverrideFace>,
    key: (i16, i16),
)
    requires
        fonts.wf(),
    ensures
        !with_overrides(fonts, None, loaded).override_faces.contains_key(key),
{
}

/// The number that a family, up to 255, and a size, up to 127, make registers a strike just as
/// they do themselves. A multiple of 128 registers none, and neither does a number that is not
/// positive.
pub proof fn law_classic_numbers_are_family_and_size(
    fonts: StoreModel,
    family_id: i16,
    size: i16,
    resource_id: i16,
    bytes: Seq<u8>,
)
    requires
        0 <= family_id <= 255,
        0 <= size <= 127,
    ensures
        resource_id == family_id * 128 + size && size > 0 ==> {
            &&& registers_classic(resource_id, bytes) == registers(family_id, size, bytes)
            &&& with_classic_strike(fonts, resource_id, bytes) == with_strike(
                fonts,
                family_id,
                size,
                bytes,
            )
        },
        resource_id == family_id * 128 ==> !registers_classic(resource_id, bytes),
        resource_id <= 0 ==> !registers_classic(resource_id, bytes),
{
}

/// Drawing a scalable font changes nothing that is found exactly under another family or size, and
/// no scalable font.
pub proof fn law_rasters_leave_others_alone(
    fonts: StoreModel,
    font_id: i16,
    size: i16,
    raster: OutlineRaster,
    other_id: i16,
    other_size: i16,
    mac_code: u8,
)
    requires
        other_size != 0,
        other_id != font_id || other_size != size,
    ensures
        ({
            let after = with_raster(fonts, font_id, size, raster);
            &&& after.outlines == fonts.outlines
            &&& face_lookup(after, other_id, other_size) == face_lookup(
                fonts,
                other_id,
                other_size,
            )
            &&& macroman_lookup(after, other_id, other_size, mac_code) == macroman_lookup(
                fonts,
                other_id,
                other_size,
                mac_code,
            )
        }),
{
}

/// Registering a scalable font changes nothing that is found exactly under another family, nor
/// what is found of its own family where a strike or an overriding face is there.
pub proof fn law_outlines_leave_others_alone(
    fonts: StoreModel,
    family_id: i16,
    bytes: Seq<u8>,
    other_id: i16,
    size: i16,
    mac_code: u8,
)
    requires
        size != 0,
        other_id != family_id || fonts.strikes.contains_key((other_id, size))
            || fonts.override_faces.contains_key((other_id, size)),
    ensures
        ({
            let after = with_outline(fonts, family_id, bytes);
            &&& face_lookup(after, other_id, size) == face_lookup(fonts, other_id, size)
            &&& macroman_lookup(after, other_id, size, mac_code) == macroman_lookup(
                fonts,
                other_id,
                size,
                mac_code,
            )
        }),
{
}

/// At first, once the environment was found to name no directory, exactly the built-in faces are
/// found, and no Mac Roman character above the ASCII range.
pub proof fn law_at_first_only_built_in_faces_are_found(
    art: PixelFonts,
    mac_roman: Seq<char>,
    loaded: Seq<OverrideFace>,
    font_id: i16,
    size: i16,
    mac_code: u8,
)
    requires
        size != 0,
    ensures
        ({
            let first = new_fonts(art, mac_roman);
            let fonts = with_overrides(first, None, loaded);
            &&& face_lookup(first, font_id, size) is NeedsOverrides
            &&& face_lookup(fonts, font_id, size) == LookupModel::Ready(
                find_face(packed_models(art), font_id, size),
            )
            &&& macroman_lookup(fonts, font_id, size, mac_code) is None
            &&& fonts.mac_roman == mac_roman
        }),
{
}

/// Two directories are the same if neither is named, or if both are and by the same bytes.
pub proof fn law_directories_are_told_apart_by_their_bytes(a: Option<Vec<u8>>, b: Option<Vec<u8>>)
    ensures
        path_model(a) == path_model(b) <==> match (a, b) {
            (Some(x), Some(y)) => x@ == y@,
            (None, None) => true,
            _ => false,
        },
{
}

} // verus!
