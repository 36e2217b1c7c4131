//! Finding the face for a family and a size.
//!
//! A lookup can need something that only the host can do: read the environment, or rasterise an
//! outline. Then it says so, and is repeated when the host has done it.
#[allow(unused_imports)]
use crate::catalogue::{face_models, find_face, lemma_find_face_first, lemma_find_face_sound};
use crate::catalogue::find_in_table;
#[allow(unused_imports)]
use crate::cache::family_sizes;
use crate::glyph::{FaceModel, FontFace};
use crate::ids::{fallback_font_id, lookup_size, FONT_CHICAGO};
#[allow(unused_imports)]
use crate::ids::{effective_size, substitute};
use crate::nearest::is_nearer;
#[allow(unused_imports)]
use crate::nearest::{is_nearest, lemma_nearest_unique, nearer, nearest};
use crate::outline::{make_request, request, OutlineRequest, RequestModel};
use crate::sfnt::{is_face, is_font_ref};
#[allow(unused_imports)]
use crate::sfnt::{face_accepts, font_ref_accepts};
use crate::store::{override_map, FontStore, OverrideFace, StoreModel};
use vstd::prelude::*;

verus! {

/// The outcome of a lookup.
pub enum Lookup<T> {
    /// The answer.
    Ready(T),
    /// The directory of overriding faces is not known. The host reads the environment, loads the
    /// directory if `needs_override_directory` says so, and hands both to
    /// `resolve_font_overrides`.
    NeedsOverrides,
    /// An outline has to be drawn at this size. The host rasterises it and hands the result to
    /// `install_outline_face`.
    NeedsRaster(OutlineRequest),
}

/// What a [`Lookup`] holds.
pub enum LookupModel<M> {
    Ready(M),
    NeedsOverrides,
    NeedsRaster(RequestModel),
}

impl<T: DeepView> DeepView for Lookup<T> {
    type V = LookupModel<T::V>;

    open spec fn deep_view(&self) -> LookupModel<T::V> {
        match self {
            Lookup::Ready(value) => LookupModel::Ready(value.deep_view()),
            Lookup::NeedsOverrides => LookupModel::NeedsOverrides,
            Lookup::NeedsRaster(req) => LookupModel::NeedsRaster(req@),
        }
    }
}

/// The family has a scalable font that can be drawn at the size.
pub open spec fn can_rasterise(fonts: StoreModel, font_id: i16, size: i16) -> bool {
    &&& size > 0
    &&& fonts.outlines.contains_key(font_id)
    &&& font_ref_accepts(fonts.outlines[font_id])
    &&& face_accepts(fonts.outlines[font_id])
}

/// The face for exactly that family and size: one that overrides, else one from an application,
/// else one drawn from the family's scalable font, else a built-in one.
pub open spec fn face_lookup(fonts: StoreModel, font_id: i16, size: i16) -> LookupModel<
    Option<FaceModel>,
> {
    let size = effective_size(size);
    if !fonts.overrides_resolved {
        LookupModel::NeedsOverrides
    } else if fonts.override_faces.contains_key((font_id, size)) {
        LookupModel::Ready(Some(fonts.override_faces[(font_id, size)]))
    } else if fonts.strikes.contains_key((font_id, size)) {
        LookupModel::Ready(Some(fonts.strikes[(font_id, size)]))
    } else if can_rasterise(fonts, font_id, size) {
        LookupModel::NeedsRaster(
            request(font_id, size, fonts.outlines[font_id], fonts.mac_roman),
        )
    } else {
        LookupModel::Ready(find_face(fonts.table, font_id, size))
    }
}

/// The sizes at which the family has a strike from an application or a built-in face.
pub open spec fn strike_sizes(fonts: StoreModel, font_id: i16) -> Set<i16> {
    Set::new(
        |size: i16|
            fonts.strikes.contains_key((font_id, size)) || find_face(
                fonts.table,
                font_id,
                size,
            ) is Some,
    )
}

/// The strike at a size that has one. One from an application goes before a built-in face.
pub open spec fn strike_at(fonts: StoreModel, font_id: i16, size: i16) -> FaceModel {
    if fonts.strikes.contains_key((font_id, size)) {
        fonts.strikes[(font_id, size)]
    } else {
        find_face(fonts.table, font_id, size)->0
    }
}

/// The family's strike at the size that stands in best for the one that is asked for.
pub open spec fn closest(fonts: StoreModel, font_id: i16, size: i16) -> Option<FaceModel> {
    let sizes = strike_sizes(fonts, font_id);
    if exists|any: i16| sizes.contains(any) {
        Some(strike_at(fonts, font_id, nearest(sizes, effective_size(size))))
    } else {
        None
    }
}

/// A lookup that may find a face, and by how much the face has to be enlarged.
pub type Attempt = LookupModel<Option<(FaceModel, i16)>>;

/// The face for exactly that family and size, to be enlarged by `scale`.
pub open spec fn exact(fonts: StoreModel, font_id: i16, size: i16, scale: i16) -> Attempt {
    match face_lookup(fonts, font_id, size) {
        LookupModel::Ready(Some(face)) => LookupModel::Ready(Some((face, scale))),
        LookupModel::Ready(None) => LookupModel::Ready(None),
        LookupModel::NeedsOverrides => LookupModel::NeedsOverrides,
        LookupModel::NeedsRaster(req) => LookupModel::NeedsRaster(req),
    }
}

/// The face whose size is the one that is asked for divided by `scale`, if that is a whole number.
pub open spec fn enlarged(fonts: StoreModel, font_id: i16, size: i16, scale: i16) -> Attempt {
    if size % scale == 0 {
        exact(fonts, font_id, (size / scale) as i16, scale)
    } else {
        LookupModel::Ready(None)
    }
}

/// The family's strike at the size that stands in best.
pub open spec fn stand_in(fonts: StoreModel, font_id: i16, size: i16) -> Attempt {
    match closest(fonts, font_id, size) {
        Some(face) => LookupModel::Ready(Some((face, 1))),
        None => LookupModel::Ready(None),
    }
}

/// The first attempt, unless it finds nothing; then the second.
pub open spec fn or_else(first: Attempt, second: Attempt) -> Attempt {
    if first == LookupModel::Ready(None::<(FaceModel, i16)>) {
        second
    } else {
        first
    }
}

/// Everything that is tried with the family that stands in for another.
pub open spec fn substitute_route(fonts: StoreModel, font_id: i16, size: i16) -> Attempt {
    or_else(
        exact(fonts, font_id, size, 1),
        or_else(
            enlarged(fonts, font_id, size, 2),
            or_else(enlarged(fonts, font_id, size, 3), stand_in(fonts, font_id, size)),
        ),
    )
}

/// Everything that is tried before the default face: the exact face; if another family stands in
/// for this one, what that family has; a face of half or a third of the size; and the strike at
/// the size that stands in best.
pub open spec fn route(fonts: StoreModel, font_id: i16, size: i16) -> Attempt {
    or_else(
        exact(fonts, font_id, size, 1),
        or_else(
            match substitute(font_id) {
                Some(other) => substitute_route(fonts, other, size),
                None => LookupModel::Ready(None),
            },
            or_else(
                enlarged(fonts, font_id, size, 2),
                or_else(enlarged(fonts, font_id, size, 3), stand_in(fonts, font_id, size)),
            ),
        ),
    )
}

/// The face that serves a family and a size, and by how much it has to be enlarged. When nothing
/// else serves, Chicago 12 does.
pub open spec fn scaled_lookup(fonts: StoreModel, font_id: i16, size: i16) -> LookupModel<
    (FaceModel, i16),
> {
    match or_else(route(fonts, font_id, size), exact(fonts, FONT_CHICAGO, 12, 1)) {
        LookupModel::Ready(Some(found)) => LookupModel::Ready(found),
        LookupModel::Ready(None) => LookupModel::Ready((fonts.table[0], 1)),
        LookupModel::NeedsOverrides => LookupModel::NeedsOverrides,
        LookupModel::NeedsRaster(req) => LookupModel::NeedsRaster(req),
    }
}

/// The face that serves a family and a size.
pub open spec fn default_lookup(fonts: StoreModel, font_id: i16, size: i16) -> LookupModel<
    FaceModel,
> {
    match scaled_lookup(fonts, font_id, size) {
        LookupModel::Ready(found) => LookupModel::Ready(found.0),
        LookupModel::NeedsOverrides => LookupModel::NeedsOverrides,
        LookupModel::NeedsRaster(req) => LookupModel::NeedsRaster(req),
    }
}

/// A size that is at least 1, with 0 standing for 12.
pub open spec fn ratio_size(size: i16) -> i16 {
    if effective_size(size) < 1 {
        1
    } else {
        effective_size(size)
    }
}

/// The face that serves a family and a size, and the ratio of the size that is asked for to the
/// face's own.
pub open spec fn ratio_lookup(fonts: StoreModel, font_id: i16, size: i16) -> LookupModel<
    (FaceModel, i32, i32),
> {
    let requested = ratio_size(size);
    match scaled_lookup(fonts, font_id, requested) {
        LookupModel::Ready(found) => LookupModel::Ready(
            (
                found.0,
                requested as i32,
                if found.0.size < 1 {
                    1
                } else {
                    found.0.size as i32
                },
            ),
        ),
        LookupModel::NeedsOverrides => LookupModel::NeedsOverrides,
        LookupModel::NeedsRaster(req) => LookupModel::NeedsRaster(req),
    }
}

/// The built-in face for exactly that family and size.
pub fn get_baked_font_face(fonts: &FontStore, font_id: i16, size: i16) -> (face: Option<
    &'static FontFace,
>)
    requires
        fonts.wf(),
    ensures
        face.deep_view() == find_face(fonts@.table, font_id, size),
{
    find_in_table(fonts.font_table(), font_id, size)
}

/// The face that overrides all others under exactly that family and size.
pub fn get_override_font_face(fonts: &FontStore, font_id: i16, size: i16) -> (found: Lookup<
    Option<&'static FontFace>,
>)
    requires
        fonts.wf(),
    ensures
        found.deep_view() == (if fonts@.overrides_resolved {
            LookupModel::Ready(fonts@.override_faces.get((font_id, size)))
        } else {
            LookupModel::NeedsOverrides
        }),
{
    if !fonts.overrides_resolved() {
        return Lookup::NeedsOverrides;
    }
    Lookup::Ready(fonts.override_face(font_id, size))
}

/// The request to draw the family's scalable font at a size, if it has one that can be drawn.
pub fn request_outline_face(fonts: &FontStore, font_id: i16, size: i16) -> (made: Option<
    OutlineRequest,
>)
    requires
        fonts.wf(),
    ensures
        made is Some <==> can_rasterise(fonts@, font_id, size),
        made matches Some(req) ==> req@ == request(
            font_id,
            size,
            fonts@.outlines[font_id],
            fonts@.mac_roman,
        ),
{
    if size <= 0 {
        return None;
    }
    proof {
        fonts.lemma_wf();
    }
    let bytes = match fonts.outline(font_id) {
        Some(bytes) => bytes,
        None => return None,
    };
    if !is_font_ref(bytes) || !is_face(bytes) {
        return None;
    }
    Some(make_request(font_id, size, bytes, fonts.mac_roman()))
}

/// The face for exactly that family and size.
pub fn get_font_face(fonts: &FontStore, font_id: i16, size: i16) -> (found: Lookup<
    Option<&'static FontFace>,
>)
    requires
        fonts.wf(),
    ensures
        found.deep_view() == face_lookup(fonts@, font_id, size),
{
    let size: i16 = lookup_size(size);
    match get_override_font_face(fonts, font_id, size) {
        Lookup::Ready(None) => {},
        other => return other,
    }
    if let Some(face) = fonts.strike(font_id, size) {
        return Lookup::Ready(Some(face));
    }
    if let Some(req) = request_outline_face(fonts, font_id, size) {
        return Lookup::NeedsRaster(req);
    }
    Lookup::Ready(get_baked_font_face(fonts, font_id, size))
}

/// The family's strike at the size that stands in best, from an application or built in.
pub fn closest_font_face(fonts: &FontStore, font_id: i16, size: i16) -> (face: Option<
    &'static FontFace,
>)
    requires
        fonts.wf(),
    ensures
        face.deep_view() == closest(fonts@, font_id, size),
{
    proof {
        fonts.lemma_wf();
    }
    let requested: i16 = lookup_size(size);
    let ghost sizes = strike_sizes(fonts@, font_id);
    let mut best: Option<&'static FontFace> = match fonts.nearest_strike(font_id, requested) {
        Some(strike_size) => {
            assert(family_sizes(fonts@.strikes, font_id).contains(strike_size));
            fonts.strike(font_id, strike_size)
        },
        None => None,
    };
    proof {
        assert forall|s: i16| #[trigger]
            fonts@.strikes.contains_key((font_id, s)) implies best is Some && (
        best->0.size == s || nearer(best->0.size, s, requested)) by {
            assert(family_sizes(fonts@.strikes, font_id).contains(s));
        }
    }
    let table = fonts.font_table();
    let mut i: usize = 0;
    while i < table.len()
        invariant
            fonts@.wf(),
            face_models(table@) == fonts@.table,
            i <= table@.len(),
            best matches Some(face) ==> {
                &&& face.font_id == font_id
                &&& sizes.contains(face.size)
                &&& face@ == strike_at(fonts@, font_id, face.size)
            },
            sizes == strike_sizes(fonts@, font_id),
            forall|s: i16| #[trigger]
                fonts@.strikes.contains_key((font_id, s)) ==> best is Some && (best->0.size == s
                    || nearer(best->0.size, s, requested)),
            forall|j: int|
                0 <= j < i && (#[trigger] fonts@.table[j]).font_id == font_id ==> best is Some && (
                best->0.size == fonts@.table[j].size || nearer(
                    best->0.size,
                    fonts@.table[j].size,
                    requested,
                )),
        decreases table@.len() - i,
    {
        let face: &'static FontFace = &table[i];
        assert(face_models(table@)[i as int] == face@);
        if face.font_id == font_id {
            let better = match best {
                Some(b) => is_nearer(face.size, b.size, requested),
                None => true,
            };
            if better {
                proof {
                    lemma_find_face_first(fonts@.table, i as int);
                    assert(!fonts@.strikes.contains_key((font_id, face.size)));
                }
                best = Some(face);
            }
        }
        i = i + 1;
    }
    proof {
        match best {
            Some(face) => {
                assert forall|other: i16| #[trigger] sizes.contains(other) implies other
                    == face.size || nearer(face.size, other, requested) by {
                    if !fonts@.strikes.contains_key((font_id, other)) {
                        lemma_find_face_sound(fonts@.table, font_id, other);
                        let found = find_face(fonts@.table, font_id, other)->0;
                        let j = choose|j: int|
                            0 <= j < fonts@.table.len() && fonts@.table[j] == found;
                        assert(fonts@.table[j].font_id == font_id);
                    }
                }
                assert(is_nearest(sizes, requested, face.size));
                lemma_nearest_unique(sizes, requested, face.size);
            },
            None => {
                assert forall|other: i16| !sizes.contains(other) by {
                    lemma_find_face_sound(fonts@.table, font_id, other);
                    if find_face(fonts@.table, font_id, other) is Some {
                        let found = find_face(fonts@.table, font_id, other)->0;
                        let j = choose|j: int|
                            0 <= j < fonts@.table.len() && fonts@.table[j] == found;
                        assert(fonts@.table[j].font_id == font_id);
                    }
                }
            },
        }
    }
    best
}

/// The face for exactly that family and size, to be enlarged by `scale`.
fn try_exact(fonts: &FontStore, font_id: i16, size: i16, scale: i16) -> (found: Lookup<
    Option<(&'static FontFace, i16)>,
>)
    requires
        fonts.wf(),
    ensures
        found.deep_view() == exact(fonts@, font_id, size, scale),
{
    match get_font_face(fonts, font_id, size) {
        Lookup::Ready(Some(face)) => Lookup::Ready(Some((face, scale))),
        Lookup::Ready(None) => Lookup::Ready(None),
        Lookup::NeedsOverrides => Lookup::NeedsOverrides,
        Lookup::NeedsRaster(req) => Lookup::NeedsRaster(req),
    }
}

/// The face whose size is the one that is asked for divided by `scale`, if that is a whole number.
fn try_enlarged(fonts: &FontStore, font_id: i16, size: i16, scale: i16) -> (found: Lookup<
    Option<(&'static FontFace, i16)>,
>)
    requires
        fonts.wf(),
        scale == 2 || scale == 3,
    ensures
        found.deep_view() == enlarged(fonts@, font_id, size, scale),
{
    let base_size: i16 = size / scale;
    if base_size * scale == size {
        try_exact(fonts, font_id, base_size, scale)
    } else {
        Lookup::Ready(None)
    }
}

/// A face of half or a third of the size, or the strike at the size that stands in best.
fn try_strikes(fonts: &FontStore, font_id: i16, size: i16) -> (found: Lookup<
    Option<(&'static FontFace, i16)>,
>)
    requires
        fonts.wf(),
    ensures
        found.deep_view() == or_else(
            enlarged(fonts@, font_id, size, 2),
            or_else(enlarged(fonts@, font_id, size, 3), stand_in(fonts@, font_id, size)),
        ),
{
    match try_enlarged(fonts, font_id, size, 2) {
        Lookup::Ready(None) => {},
        other => return other,
    }
    match try_enlarged(fonts, font_id, size, 3) {
        Lookup::Ready(None) => {},
        other => return other,
    }
    match closest_font_face(fonts, font_id, size) {
        Some(face) => Lookup::Ready(Some((face, 1))),
        None => Lookup::Ready(None),
    }
}

/// Everything that is tried before the default face.
fn try_route(fonts: &FontStore, font_id: i16, size: i16) -> (found: Lookup<
    Option<(&'static FontFace, i16)>,
>)
    requires
        fonts.wf(),
    ensures
        found.deep_view() == route(fonts@, font_id, size),
{
    match try_exact(fonts, font_id, size, 1) {
        Lookup::Ready(None) => {},
        other => return other,
    }
    if let Some(fallback) = fallback_font_id(font_id) {
        match try_exact(fonts, fallback, size, 1) {
            Lookup::Ready(None) => {},
            other => return other,
        }
        match try_strikes(fonts, fallback, size) {
            Lookup::Ready(None) => {},
            other => return other,
        }
    }
    try_strikes(fonts, font_id, size)
}

/// The face that serves a family and a size, and by how much it has to be enlarged: it is one of
/// exactly that size, or of half or a third of it, or the one that stands in best.
pub fn get_font_face_scaled(fonts: &FontStore, font_id: i16, size: i16) -> (found: Lookup<
    (&'static FontFace, i16),
>)
    requires
        fonts.wf(),
    ensures
        found.deep_view() == scaled_lookup(fonts@, font_id, size),
{
    proof {
        fonts.lemma_wf();
    }
    match try_route(fonts, font_id, size) {
        Lookup::Ready(Some(found)) => return Lookup::Ready(found),
        Lookup::Ready(None) => {},
        Lookup::NeedsOverrides => return Lookup::NeedsOverrides,
        Lookup::NeedsRaster(req) => return Lookup::NeedsRaster(req),
    }
    match get_font_face(fonts, FONT_CHICAGO, 12) {
        Lookup::Ready(Some(face)) => Lookup::Ready((face, 1)),
        Lookup::Ready(None) => {
            let table = fonts.font_table();
            assert(face_models(table@)[0] == table@[0]@);
            Lookup::Ready((&table[0], 1))
        },
        Lookup::NeedsOverrides => Lookup::NeedsOverrides,
        Lookup::NeedsRaster(req) => Lookup::NeedsRaster(req),
    }
}

/// The face that serves a family and a size, whatever they are.
pub fn get_font_face_or_default(fonts: &FontStore, font_id: i16, size: i16) -> (found: Lookup<
    &'static FontFace,
>)
    requires
        fonts.wf(),
    ensures
        found.deep_view() == default_lookup(fonts@, font_id, size),
{
    match get_font_face_scaled(fonts, font_id, size) {
        Lookup::Ready((face, _)) => Lookup::Ready(face),
        Lookup::NeedsOverrides => Lookup::NeedsOverrides,
        Lookup::NeedsRaster(req) => Lookup::NeedsRaster(req),
    }
}

/// The face that serves a family and a size, and the ratio by which it has to be enlarged to the
/// exact size: numerator, then denominator.
pub fn get_font_face_scale_ratio(fonts: &FontStore, font_id: i16, size: i16) -> (found: Lookup<
    (&'static FontFace, i32, i32),
>)
    requires
        fonts.wf(),
    ensures
        found.deep_view() == ratio_lookup(fonts@, font_id, size),
{
    let effective: i16 = lookup_size(size);
    let requested: i16 = if effective < 1 {
        1
    } else {
        effective
    };
    match get_font_face_scaled(fonts, font_id, requested) {
        Lookup::Ready((face, _)) => {
            let own: i32 = if face.size < 1 {
                1
            } else {
                face.size as i32
            };
            Lookup::Ready((face, requested as i32, own))
        },
        Lookup::NeedsOverrides => Lookup::NeedsOverrides,
        Lookup::NeedsRaster(req) => Lookup::NeedsRaster(req),
    }
}

/// The face for exactly that family and size: the last of the overriding faces for them, else
/// the built-in face.
pub open spec fn overridden(
    fonts: StoreModel,
    overrides: Seq<OverrideFace>,
    font_id: i16,
    size: i16,
) -> Option<FaceModel> {
    let size = effective_size(size);
    let faces = override_map(overrides, overrides.len());
    if faces.contains_key((font_id, size)) {
        Some(faces[(font_id, size)])
    } else {
        find_face(fonts.table, font_id, size)
    }
}

/// The face for exactly that family and size, as if only these overriding faces and the built-in
/// faces were there.
pub fn get_font_face_with_overrides(
    fonts: &FontStore,
    overrides: &Vec<OverrideFace>,
    font_id: i16,
    size: i16,
) -> (face: Option<&'static FontFace>)
    requires
        fonts.wf(),
    ensures
        face.deep_view() == overridden(fonts@, overrides@, font_id, size),
{
    let wanted: i16 = lookup_size(size);
    let mut i: usize = overrides.len();
    while i > 0
        invariant
            i <= overrides@.len(),
            wanted == effective_size(size),
            override_map(overrides@, overrides@.len()).get((font_id, wanted)) == override_map(
                overrides@,
                i as nat,
            ).get((font_id, wanted)),
        decreases i,
    {
        i = i - 1;
        let entry = overrides[i];
        if entry.font_id == font_id && entry.size == wanted {
            assert(override_map(overrides@, overrides@.len()).get((font_id, wanted)) == Some(
                entry.face@,
            ));
            return Some(entry.face);
        }
    }
    get_baked_font_face(fonts, font_id, wanted)
}

} // verus!
