//! What holds of every lookup.
use crate::catalogue::{
    find_face, is_catalogue, lemma_find_face_first, lemma_find_face_sound, packed_keys,
    packed_models, PixelFonts,
};
use crate::glyph::FaceModel;
use crate::ids::{
    effective_size, substitute, FONT_CHICAGO, FONT_GENEVA, FONT_HELVETICA, FONT_MONACO,
    FONT_NEWYORK,
};
use crate::lookup::{
    closest, default_lookup, enlarged, exact, face_lookup, ratio_lookup, ratio_size, route,
    scaled_lookup, stand_in, strike_at, strike_sizes, substitute_route, Attempt, LookupModel,
};
use crate::nearest::{distance, is_nearest, lemma_nearest_unique, nearer, nearest};
use crate::special::{italic_lookup, macroman_lookup};
use crate::store::StoreModel;
use vstd::prelude::*;

verus! {

/// A face that overrides others is the one that is found, by every kind of lookup.
pub proof fn law_overrides_win(fonts: StoreModel, font_id: i16, size: i16)
    requires
        fonts.overrides_resolved,
        fonts.override_faces.contains_key((font_id, effective_size(size))),
    ensures
        ({
            let face = fonts.override_faces[(font_id, effective_size(size))];
            &&& face_lookup(fonts, font_id, size) == LookupModel::Ready(Some(face))
            &&& scaled_lookup(fonts, font_id, size) == LookupModel::Ready((face, 1i16))
            &&& default_lookup(fonts, font_id, size) == LookupModel::Ready(face)
        }),
{
}

/// A strike from an application is the one that is found, unless it is overridden: neither a
/// scalable font nor a built-in face goes before it.
pub proof fn law_strikes_win(fonts: StoreModel, font_id: i16, size: i16)
    requires
        fonts.overrides_resolved,
        !fonts.override_faces.contains_key((font_id, effective_size(size))),
        fonts.strikes.contains_key((font_id, effective_size(size))),
    ensures
        ({
            let face = fonts.strikes[(font_id, effective_size(size))];
            &&& face_lookup(fonts, font_id, size) == LookupModel::Ready(Some(face))
            &&& scaled_lookup(fonts, font_id, size) == LookupModel::Ready((face, 1i16))
            &&& default_lookup(fonts, font_id, size) == LookupModel::Ready(face)
        }),
{
}

/// No two built-in faces share a family and a size.
pub proof fn lemma_packed_keys_distinct(i: int, j: int)
    requires
        0 <= i < j < packed_keys().len(),
    ensures
        packed_keys()[i] != packed_keys()[j],
{
}

/// Each built-in face is found in the table under its family and size.
pub proof fn lemma_built_in(table: Seq<FaceModel>, nth: int)
    requires
        is_catalogue(table),
        0 <= nth < table.len(),
    ensures
        find_face(table, packed_keys()[nth].0, packed_keys()[nth].1) == Some(table[nth]),
{
    assert((table[nth].font_id, table[nth].size) == packed_keys()[nth]);
    assert forall|j: int| 0 <= j < nth implies !(#[trigger] table[j].font_id == table[nth].font_id
        && table[j].size == table[nth].size) by {
        assert((table[j].font_id, table[j].size) == packed_keys()[j]);
        lemma_packed_keys_distinct(j, nth);
    }
    lemma_find_face_first(table, nth);
}

/// No other family or size is built in.
pub proof fn law_nothing_else_is_built_in(fonts: StoreModel, font_id: i16, size: i16)
    requires
        fonts.wf(),
        !packed_keys().contains((font_id, size)),
    ensures
        find_face(fonts.table, font_id, size) is None,
{
    lemma_find_face_sound(fonts.table, font_id, size);
    if let Some(face) = find_face(fonts.table, font_id, size) {
        let nth = choose|nth: int| 0 <= nth < fonts.table.len() && fonts.table[nth] == face;
        assert((fonts.table[nth].font_id, fonts.table[nth].size) == packed_keys()[nth]);
    }
}

/// Every built-in face is found under its family and size, unless it is overridden or an
/// application brings the family along at that size or as a scalable font.
pub proof fn law_built_in_faces_are_found(fonts: StoreModel, nth: int)
    requires
        fonts.wf(),
        fonts.overrides_resolved,
        0 <= nth < packed_keys().len(),
        !fonts.override_faces.contains_key(packed_keys()[nth]),
        !fonts.strikes.contains_key(packed_keys()[nth]),
        !fonts.outlines.contains_key(packed_keys()[nth].0),
    ensures
        ({
            let (font_id, size) = packed_keys()[nth];
            &&& face_lookup(fonts, font_id, size) == LookupModel::Ready(Some(fonts.table[nth]))
            &&& scaled_lookup(fonts, font_id, size) == LookupModel::Ready((fonts.table[nth], 1i16))
            &&& default_lookup(fonts, font_id, size) == LookupModel::Ready(fonts.table[nth])
        }),
{
    lemma_built_in(fonts.table, nth);
}

/// The built-in Helvetica 12 has the glyphs of Geneva 10, and lines of 14 pixels.
pub proof fn law_helvetica_is_drawn_with_geneva_10(art: PixelFonts)
    ensures
        ({
            let helvetica = find_face(packed_models(art), FONT_HELVETICA, 12);
            let geneva = find_face(packed_models(art), FONT_GENEVA, 10);
            &&& helvetica matches Some(h) && geneva matches Some(g) && h.glyphs == g.glyphs
                && h.data == g.data && h.metrics.ascent + h.metrics.descent + h.metrics.leading
                == 14
        }),
{
    let table = packed_models(art);
    assert(is_catalogue(table));
    lemma_built_in(table, 8);
    lemma_built_in(table, 7);
}

/// Only what an application brings along, and the built-in faces, serve the family: nothing
/// overrides it, and it has no scalable font.
pub open spec fn plain(fonts: StoreModel, font_id: i16) -> bool {
    &&& fonts.overrides_resolved
    &&& !fonts.outlines.contains_key(font_id)
    &&& forall|size: i16| !#[trigger] fonts.override_faces.contains_key((font_id, size))
}

/// The family has a face at some size, from an application or built in.
pub open spec fn has_strikes(fonts: StoreModel, font_id: i16) -> bool {
    exists|size: i16| strike_sizes(fonts, font_id).contains(size)
}

/// The face is one of the family's: it bears the family's number, or overrides a face of the
/// family.
pub open spec fn of_family(fonts: StoreModel, face: FaceModel, font_id: i16) -> bool {
    face.font_id == font_id || exists|size: i16| #[trigger]
        fonts.override_faces.contains_key((font_id, size)) && fonts.override_faces[(font_id, size)]
            == face
}

/// The outcome is a face of the family, or that the family's scalable font has to be drawn.
pub open spec fn served_by(
    fonts: StoreModel,
    found: LookupModel<(FaceModel, i16)>,
    font_id: i16,
) -> bool {
    match found {
        LookupModel::Ready((face, _)) => of_family(fonts, face, font_id),
        LookupModel::NeedsRaster(req) => req.font_id == font_id,
        LookupModel::NeedsOverrides => false,
    }
}

/// The attempt finds nothing, or the family serves.
spec fn serves(fonts: StoreModel, found: Attempt, font_id: i16) -> bool {
    match found {
        LookupModel::Ready(Some((face, _))) => of_family(fonts, face, font_id),
        LookupModel::Ready(None) => true,
        LookupModel::NeedsRaster(req) => req.font_id == font_id,
        LookupModel::NeedsOverrides => false,
    }
}

/// A family is found under its own number only.
proof fn lemma_exact_family(fonts: StoreModel, font_id: i16, size: i16, scale: i16)
    requires
        fonts.wf(),
        fonts.overrides_resolved,
    ensures
        serves(fonts, exact(fonts, font_id, size, scale), font_id),
{
    lemma_find_face_sound(fonts.table, font_id, effective_size(size));
}

/// A best size always is there, if there is a size at all.
pub proof fn lemma_nearest_exists(sizes: Set<i16>, requested: i16, candidate: i16)
    requires
        sizes.contains(candidate),
    ensures
        is_nearest(sizes, requested, nearest(sizes, requested)),
    decreases
            2 * distance(candidate, requested) - (if candidate > requested {
                1int
            } else {
                0int
            }),
{
    if is_nearest(sizes, requested, candidate) {
        lemma_nearest_unique(sizes, requested, candidate);
    } else {
        let other = choose|other: i16|
            sizes.contains(other) && !(other == candidate || nearer(candidate, other, requested));
        lemma_nearest_exists(sizes, requested, other);
    }
}

/// The strike that stands in is one of the family's, and stands in better than all others: its
/// size is the closest to the one that is asked for, and of two that are as close the larger. If
/// the family has a strike, one stands in.
pub proof fn law_closest_is_nearest(fonts: StoreModel, font_id: i16, size: i16)
    requires
        fonts.wf(),
    ensures
        closest(fonts, font_id, size) is Some <==> has_strikes(fonts, font_id),
        closest(fonts, font_id, size) matches Some(face) ==> {
            &&& face.font_id == font_id
            &&& is_nearest(strike_sizes(fonts, font_id), effective_size(size), face.size)
        },
{
    let sizes = strike_sizes(fonts, font_id);
    if has_strikes(fonts, font_id) {
        let any = choose|any: i16| sizes.contains(any);
        lemma_nearest_exists(sizes, effective_size(size), any);
        let best = nearest(sizes, effective_size(size));
        assert(sizes.contains(best));
        lemma_find_face_sound(fonts.table, font_id, best);
        assert(strike_at(fonts, font_id, best).size == best);
    }
}

/// Every built-in family has a strike.
pub proof fn lemma_built_in_family(fonts: StoreModel, nth: int)
    requires
        fonts.wf(),
        0 <= nth < packed_keys().len(),
    ensures
        has_strikes(fonts, packed_keys()[nth].0),
{
    let (font_id, size) = packed_keys()[nth];
    lemma_built_in(fonts.table, nth);
    assert(strike_sizes(fonts, font_id).contains(size));
}

/// All that can be found of a family belongs to the family.
proof fn lemma_family_attempts(fonts: StoreModel, font_id: i16, size: i16)
    requires
        fonts.wf(),
        fonts.overrides_resolved,
    ensures
        serves(fonts, substitute_route(fonts, font_id, size), font_id),
        has_strikes(fonts, font_id) ==> substitute_route(fonts, font_id, size)
            != LookupModel::Ready(None::<(FaceModel, i16)>),
{
    lemma_exact_family(fonts, font_id, size, 1);
    lemma_exact_family(fonts, font_id, (size / 2) as i16, 2);
    lemma_exact_family(fonts, font_id, (size / 3) as i16, 3);
    law_closest_is_nearest(fonts, font_id, size);
}

/// A family without a stand-in that has a face at some size serves itself, whatever the size: with
/// one of its faces, or with its scalable font.
pub proof fn law_families_serve_themselves(fonts: StoreModel, font_id: i16, size: i16)
    requires
        fonts.wf(),
        fonts.overrides_resolved,
        has_strikes(fonts, font_id),
        substitute(font_id) is None,
    ensures
        served_by(fonts, scaled_lookup(fonts, font_id, size), font_id),
{
    lemma_family_attempts(fonts, font_id, size);
}

/// The built-in families serve themselves: Chicago, New York, Geneva, Monaco, Venice, London and
/// Cairo.
pub proof fn law_built_in_families_serve_themselves(fonts: StoreModel, nth: int, size: i16)
    requires
        fonts.wf(),
        fonts.overrides_resolved,
        0 <= nth < packed_keys().len(),
        substitute(packed_keys()[nth].0) is None,
    ensures
        served_by(
            fonts,
            scaled_lookup(fonts, packed_keys()[nth].0, size),
            packed_keys()[nth].0,
        ),
{
    lemma_built_in_family(fonts, nth);
    law_families_serve_themselves(fonts, packed_keys()[nth].0, size);
}

/// Where a family has no face of exactly the size, the family that stands in for it serves, with
/// one of its faces or with its scalable font: Geneva for Application and Helvetica, New York for
/// Palatino and Times, Monaco for Courier.
pub proof fn law_families_are_stood_in_for(fonts: StoreModel, font_id: i16, size: i16)
    requires
        fonts.wf(),
        substitute(font_id) is Some,
        face_lookup(fonts, font_id, size) == LookupModel::Ready(None::<FaceModel>),
    ensures
        served_by(fonts, scaled_lookup(fonts, font_id, size), substitute(font_id)->0),
{
    let other = substitute(font_id)->0;
    if other == FONT_GENEVA {
        lemma_built_in_family(fonts, 6);
    } else if other == FONT_NEWYORK {
        lemma_built_in_family(fonts, 3);
    } else {
        assert(other == FONT_MONACO);
        lemma_built_in_family(fonts, 13);
    }
    lemma_family_attempts(fonts, other, size);
}

/// A family that nothing serves gets Chicago 12: the built-in face, unless that is overridden or
/// an application brings Chicago along at that size or as a scalable font, which then goes before
/// it.
pub proof fn law_unknown_families_get_chicago_12(fonts: StoreModel, font_id: i16, size: i16)
    requires
        fonts.wf(),
        plain(fonts, font_id),
        !has_strikes(fonts, font_id),
        substitute(font_id) is None,
    ensures
        match face_lookup(fonts, FONT_CHICAGO, 12) {
            LookupModel::Ready(Some(face)) => scaled_lookup(fonts, font_id, size)
                == LookupModel::Ready((face, 1i16)),
            LookupModel::NeedsRaster(req) => scaled_lookup(fonts, font_id, size)
                == LookupModel::<(FaceModel, i16)>::NeedsRaster(req),
            _ => false,
        },
        !fonts.override_faces.contains_key((FONT_CHICAGO, 12)) && !fonts.strikes.contains_key(
            (FONT_CHICAGO, 12),
        ) && !fonts.outlines.contains_key(FONT_CHICAGO) ==> scaled_lookup(fonts, font_id, size)
            == LookupModel::Ready((fonts.table[1], 1i16)),
        fonts.table[1].font_id == FONT_CHICAGO,
        fonts.table[1].size == 12,
{
    lemma_built_in(fonts.table, 1);
    assert((fonts.table[1].font_id, fonts.table[1].size) == packed_keys()[1]);
    lemma_nothing_exact(fonts, font_id, size, 1);
    lemma_nothing_exact(fonts, font_id, (size / 2) as i16, 2);
    lemma_nothing_exact(fonts, font_id, (size / 3) as i16, 3);
    assert(stand_in(fonts, font_id, size) == LookupModel::Ready(None::<(FaceModel, i16)>));
    assert(route(fonts, font_id, size) == LookupModel::Ready(None::<(FaceModel, i16)>));
}

proof fn lemma_nothing_exact(fonts: StoreModel, font_id: i16, size: i16, scale: i16)
    requires
        plain(fonts, font_id),
        !has_strikes(fonts, font_id),
    ensures
        exact(fonts, font_id, size, scale) == LookupModel::Ready(None::<(FaceModel, i16)>),
{
    assert(!fonts.override_faces.contains_key((font_id, effective_size(size))));
    assert(!strike_sizes(fonts, font_id).contains(effective_size(size)));
}

/// Every overriding face is filed under its own family and size.
pub open spec fn overrides_filed(fonts: StoreModel) -> bool {
    forall|k: (i16, i16)| #[trigger]
        fonts.override_faces.contains_key(k) ==> fonts.override_faces[k].font_id == k.0
            && fonts.override_faces[k].size == k.1
}

/// A face that is found for a family and a size has that family and that size.
pub proof fn law_found_faces_are_those_asked_for(fonts: StoreModel, font_id: i16, size: i16)
    requires
        fonts.wf(),
        overrides_filed(fonts),
    ensures
        face_lookup(fonts, font_id, size) matches LookupModel::Ready(Some(face)) ==> face.font_id
            == font_id && face.size == effective_size(size),
{
    lemma_find_face_sound(fonts.table, font_id, effective_size(size));
}

/// What an attempt may find: a face to be taken as it is, or one whose size times the scale is
/// the size that is asked for.
spec fn fits(found: Attempt, size: i16) -> bool {
    found matches LookupModel::Ready(Some((face, scale))) ==> {
        ||| scale == 1
        ||| (scale == 2 || scale == 3) && face.size * scale == size
    }
}

proof fn lemma_enlarged_fits(fonts: StoreModel, font_id: i16, size: i16, scale: i16)
    requires
        fonts.wf(),
        overrides_filed(fonts),
        scale == 2 || scale == 3,
        size != 0 || exact(fonts, font_id, size, 1) == LookupModel::Ready(
            None::<(FaceModel, i16)>,
        ),
    ensures
        fits(enlarged(fonts, font_id, size, scale), size),
{
    law_found_faces_are_those_asked_for(fonts, font_id, (size / scale) as i16);
    if size != 0 && size % scale == 0 {
        assert((size / scale) * scale == size) by (nonlinear_arith)
            requires
                scale == 2 || scale == 3,
                size % scale == 0,
        ;
        assert(size / scale != 0);
    }
}

/// Only a face of exactly half or a third of the size is to be enlarged, and then by just so much.
pub proof fn law_scale_is_exact(fonts: StoreModel, font_id: i16, size: i16)
    requires
        fonts.wf(),
        overrides_filed(fonts),
    ensures
        scaled_lookup(fonts, font_id, size) matches LookupModel::Ready((face, scale)) ==> {
            ||| scale == 1
            ||| (scale == 2 || scale == 3) && face.size * scale == size
        },
{
    let none = LookupModel::Ready(None::<(FaceModel, i16)>);
    if exact(fonts, font_id, size, 1) == none {
        if let Some(other) = substitute(font_id) {
            if exact(fonts, other, size, 1) == none {
                lemma_enlarged_fits(fonts, other, size, 2);
                lemma_enlarged_fits(fonts, other, size, 3);
            }
            assert(fits(substitute_route(fonts, other, size), size));
        }
        lemma_enlarged_fits(fonts, font_id, size, 2);
        lemma_enlarged_fits(fonts, font_id, size, 3);
    }
    assert(fits(route(fonts, font_id, size), size));
}

/// The lookup for a face alone, and the one that also tells the scale, find the same face.
pub proof fn law_default_and_scaled_agree(fonts: StoreModel, font_id: i16, size: i16)
    ensures
        match (default_lookup(fonts, font_id, size), scaled_lookup(fonts, font_id, size)) {
            (LookupModel::Ready(face), LookupModel::Ready((same, _))) => face == same,
            (LookupModel::NeedsOverrides, LookupModel::NeedsOverrides) => true,
            (LookupModel::NeedsRaster(req), LookupModel::NeedsRaster(same)) => req == same,
            _ => false,
        },
{
}

/// The ratio is that of the size that is asked for to the size of the face that serves it, and is
/// never zero or undefined. It is one to one for a face of exactly the size.
pub proof fn law_ratio_is_exact(fonts: StoreModel, font_id: i16, size: i16)
    requires
        fonts.wf(),
        overrides_filed(fonts),
    ensures
        ratio_lookup(fonts, font_id, size) matches LookupModel::Ready(
            (face, numerator, denominator),
        ) ==> {
            &&& numerator >= 1 && denominator >= 1
            &&& numerator == ratio_size(size)
            &&& face.size >= 1 ==> denominator == face.size
            &&& default_lookup(fonts, font_id, ratio_size(size)) == LookupModel::Ready(face)
            &&& face_lookup(fonts, font_id, ratio_size(size)) is Ready && face_lookup(
                fonts,
                font_id,
                ratio_size(size),
            ) != LookupModel::Ready(None::<FaceModel>) ==> numerator == denominator
        },
{
    law_found_faces_are_those_asked_for(fonts, font_id, ratio_size(size));
}

/// Size 0 stands for 12 points.
pub proof fn law_size_zero_is_twelve(fonts: StoreModel, font_id: i16, mac_code: u8, ch: char)
    ensures
        face_lookup(fonts, font_id, 0) == face_lookup(fonts, font_id, 12),
        closest(fonts, font_id, 0) == closest(fonts, font_id, 12),
        ratio_lookup(fonts, font_id, 0) == ratio_lookup(fonts, font_id, 12),
        macroman_lookup(fonts, font_id, 0, mac_code) == macroman_lookup(
            fonts,
            font_id,
            12,
            mac_code,
        ),
        italic_lookup(fonts.italic_table, font_id, 0, ch) == italic_lookup(
            fonts.italic_table,
            font_id,
            12,
            ch,
        ),
{
}

/// No face has italics, and only those from applications have Mac Roman characters above the
/// ASCII range.
pub proof fn law_built_in_faces_are_plain_ascii(
    fonts: StoreModel,
    font_id: i16,
    size: i16,
    mac_code: u8,
    ch: char,
)
    requires
        fonts.wf(),
    ensures
        italic_lookup(fonts.italic_table, font_id, size, ch) is None,
        !fonts.roman_strikes.contains_key((font_id, effective_size(size))) ==> macroman_lookup(
            fonts,
            font_id,
            size,
            mac_code,
        ) is None,
{
}

} // verus!
