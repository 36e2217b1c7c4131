//! Which face serves: of those for exactly a family and a size, and of all others.
use crate::catalogue::{
    find_face, lemma_find_face_sound, packed_keys, packed_models, PixelFace, PixelFonts,
};
use crate::glyph::{FaceModel, FontMetrics, ItalicModel, RomanModel};
use crate::ids::{effective_size, substitute};
use crate::laws::lookups::{
    law_closest_is_nearest, lemma_built_in, lemma_built_in_family, lemma_nearest_exists,
};
use crate::lookup::{
    closest, default_lookup, enlarged, face_lookup, overridden, ratio_lookup, scaled_lookup,
    strike_sizes, LookupModel,
};
use crate::nearest::{nearer, nearest};
use crate::sfnt::{face_accepts, font_ref_accepts};
use crate::special::{
    italic_face_from, italic_lookup, macroman_lookup, roman_face_from, roman_glyph_from,
    table_roman_glyph,
};
use crate::store::{override_map, with_overrides, OverrideFace, StoreModel};
use vstd::prelude::*;

verus! {

/// Face number `nth` is the first of the table with that family and size.
pub open spec fn is_first(table: Seq<FaceModel>, nth: int, font_id: i16, size: i16) -> bool {
    &&& 0 <= nth < table.len()
    &&& table[nth].font_id == font_id && table[nth].size == size
    &&& forall|earlier: int|
        0 <= earlier < nth ==> !((#[trigger] table[earlier]).font_id == font_id
            && table[earlier].size == size)
}

/// A table is searched from the start: the first face with the family and the size is found, and
/// nothing is found if there is none.
pub proof fn law_the_first_face_is_found(table: Seq<FaceModel>, font_id: i16, size: i16)
    ensures
        forall|nth: int| #[trigger]
            is_first(table, nth, font_id, size) ==> find_face(table, font_id, size) == Some(
                table[nth],
            ),
        (forall|nth: int|
            0 <= nth < table.len() ==> !((#[trigger] table[nth]).font_id == font_id
                && table[nth].size == size)) ==> find_face(table, font_id, size) is None,
    decreases table.len(),
{
    if table.len() > 0 {
        let rest = table.drop_first();
        law_the_first_face_is_found(rest, font_id, size);
        assert forall|nth: int| #[trigger] is_first(table, nth, font_id, size) implies find_face(
            table,
            font_id,
            size,
        ) == Some(table[nth]) by {
            if nth > 0 {
                assert(!(table[0].font_id == font_id && table[0].size == size));
                assert forall|earlier: int| 0 <= earlier < nth - 1 implies !((
                #[trigger] rest[earlier]).font_id == font_id && rest[earlier].size == size) by {
                    assert(rest[earlier] == table[earlier + 1]);
                }
                assert(is_first(rest, nth - 1, font_id, size));
            }
        }
        if forall|nth: int|
            0 <= nth < table.len() ==> !((#[trigger] table[nth]).font_id == font_id
                && table[nth].size == size) {
            assert(!(table[0].font_id == font_id && table[0].size == size));
            assert forall|nth: int| 0 <= nth < rest.len() implies !((#[trigger] rest[nth]).font_id
                == font_id && rest[nth].size == size) by {
                assert(rest[nth] == table[nth + 1]);
            }
        }
    }
}

/// Of a family and a size, other than 0, that is asked for exactly, an overriding face is found
/// first, then one from an application; then the family's scalable font is asked to be drawn at
/// that very size, if the size is positive and the font can be read; and else a built-in face is
/// found.
pub proof fn law_exact_faces_are_found_in_order(fonts: StoreModel, font_id: i16, size: i16)
    requires
        fonts.overrides_resolved,
        size != 0,
    ensures
        ({
            let key = (font_id, size);
            let found = face_lookup(fonts, font_id, size);
            if fonts.override_faces.contains_key(key) {
                found == LookupModel::Ready(Some(fonts.override_faces[key]))
            } else if fonts.strikes.contains_key(key) {
                found == LookupModel::Ready(Some(fonts.strikes[key]))
            } else if size > 0 && fonts.outlines.contains_key(font_id) && font_ref_accepts(
                fonts.outlines[font_id],
            ) && face_accepts(fonts.outlines[font_id]) {
                found matches LookupModel::NeedsRaster(req) && req.font_id == font_id && req.size
                    == size && req.bytes == fonts.outlines[font_id]
            } else {
                found == LookupModel::Ready(find_face(fonts.table, font_id, size))
            }
        }),
{
}

/// A face that is found exactly serves as it is, and a scalable font that is asked to be drawn at
/// the size is the answer.
pub proof fn law_exact_faces_serve_as_they_are(fonts: StoreModel, font_id: i16, size: i16)
    ensures
        match face_lookup(fonts, font_id, size) {
            LookupModel::Ready(Some(face)) => scaled_lookup(fonts, font_id, size)
                == LookupModel::Ready((face, 1i16)),
            LookupModel::Ready(None) => true,
            LookupModel::NeedsRaster(req) => scaled_lookup(fonts, font_id, size)
                == LookupModel::<(FaceModel, i16)>::NeedsRaster(req),
            LookupModel::NeedsOverrides => scaled_lookup(fonts, font_id, size) is NeedsOverrides,
        },
{
}

/// No other family stands in for the family.
pub open spec fn stands_alone(font_id: i16) -> bool {
    font_id != 1 && font_id != 16 && font_id != 20 && font_id != 21 && font_id != 22
}

/// There is nothing for exactly that family and size.
pub open spec fn is_missing(fonts: StoreModel, font_id: i16, size: i16) -> bool {
    face_lookup(fonts, font_id, size) == LookupModel::Ready(None::<FaceModel>)
}

/// The family has nothing at a whole part of the size.
pub open spec fn no_part(fonts: StoreModel, font_id: i16, size: i16, part: int) -> bool {
    forall|smaller: i16|
        smaller * part == size ==> #[trigger] is_missing(fonts, font_id, smaller)
}

/// The answer is what is found exactly, to be enlarged by `scale`.
pub open spec fn answers_with(
    answer: LookupModel<(FaceModel, i16)>,
    found: LookupModel<Option<FaceModel>>,
    scale: i16,
) -> bool {
    match found {
        LookupModel::Ready(Some(face)) => answer == LookupModel::Ready((face, scale)),
        LookupModel::Ready(None) => false,
        LookupModel::NeedsRaster(req) => answer == LookupModel::<(FaceModel, i16)>::NeedsRaster(
            req,
        ),
        LookupModel::NeedsOverrides => answer is NeedsOverrides,
    }
}

/// Where a family for which no other stands in has no face of exactly the size, a face of half the
/// size serves, enlarged twice.
pub proof fn law_half_sizes_are_enlarged_twice(
    fonts: StoreModel,
    font_id: i16,
    size: i16,
    half: i16,
)
    requires
        stands_alone(font_id),
        is_missing(fonts, font_id, size),
        half * 2 == size,
        !is_missing(fonts, font_id, half),
    ensures
        answers_with(scaled_lookup(fonts, font_id, size), face_lookup(fonts, font_id, half), 2),
{
    assert(size % 2 == 0 && size / 2 == half);
}

/// Where such a family has no face of half the size either, a face of a third of the size serves,
/// enlarged three times.
pub proof fn law_third_sizes_are_enlarged_three_times(
    fonts: StoreModel,
    font_id: i16,
    size: i16,
    third: i16,
)
    requires
        stands_alone(font_id),
        is_missing(fonts, font_id, size),
        no_part(fonts, font_id, size, 2),
        third * 3 == size,
        !is_missing(fonts, font_id, third),
    ensures
        answers_with(scaled_lookup(fonts, font_id, size), face_lookup(fonts, font_id, third), 3),
{
    assert(size % 3 == 0 && size / 3 == third);
    lemma_no_part(fonts, font_id, size, 2);
}

proof fn lemma_no_part(fonts: StoreModel, font_id: i16, size: i16, part: i16)
    requires
        part == 2 || part == 3,
        no_part(fonts, font_id, size, part as int),
    ensures
        enlarged(fonts, font_id, size, part) == LookupModel::Ready(None::<(FaceModel, i16)>),
{
    if size % part == 0 {
        let smaller = (size / part) as i16;
        if part == 2 {
            assert(size % 2 == 0 && smaller == size / 2);
        } else {
            assert(size % 3 == 0 && smaller == size / 3);
        }
        assert(smaller * part == size) by (nonlinear_arith)
            requires
                part == 2 && smaller * 2 == size || part == 3 && smaller * 3 == size,
        ;
        assert(is_missing(fonts, font_id, smaller));
    }
}

/// Where such a family has neither, its closest strike serves as it is, if it has one.
pub proof fn law_closest_strikes_serve_as_they_are(
    fonts: StoreModel,
    font_id: i16,
    size: i16,
    face: FaceModel,
)
    requires
        stands_alone(font_id),
        is_missing(fonts, font_id, size),
        no_part(fonts, font_id, size, 2),
        no_part(fonts, font_id, size, 3),
        closest(fonts, font_id, size) == Some(face),
    ensures
        scaled_lookup(fonts, font_id, size) == LookupModel::Ready((face, 1i16)),
{
    lemma_no_part(fonts, font_id, size, 2);
    lemma_no_part(fonts, font_id, size, 3);
}

/// Where such a family has no strike at all, Chicago 12 serves as it is.
pub proof fn law_chicago_12_serves_last(fonts: StoreModel, font_id: i16, size: i16)
    requires
        fonts.wf(),
        stands_alone(font_id),
        is_missing(fonts, font_id, size),
        no_part(fonts, font_id, size, 2),
        no_part(fonts, font_id, size, 3),
        closest(fonts, font_id, size) is None,
    ensures
        answers_with(scaled_lookup(fonts, font_id, size), face_lookup(fonts, 0, 12), 1),
{
    lemma_no_part(fonts, font_id, size, 2);
    lemma_no_part(fonts, font_id, size, 3);
    lemma_built_in(fonts.table, 1);
}

/// The family that stands in: Geneva for Application and Helvetica, New York for Palatino and
/// Times, Monaco for Courier.
pub open spec fn stand_in_family(font_id: i16, other: i16) -> bool {
    ||| (font_id == 1 || font_id == 21) && other == 3
    ||| (font_id == 16 || font_id == 20) && other == 2
    ||| font_id == 22 && other == 4
}

/// These and no others stand in. A size of 0 is looked up as 12, and every other size as it is.
pub proof fn law_no_other_family_stands_in(font_id: i16, other: i16, size: i16)
    ensures
        substitute(font_id) == Some(other) <==> stand_in_family(font_id, other),
        substitute(font_id) is None <==> stands_alone(font_id),
        size != 0 ==> effective_size(size) == size,
        effective_size(0) == 12,
{
}

/// Where a family has no face of exactly the size, a lookup is answered as one for the family that
/// stands in for it.
pub proof fn law_stand_ins_answer_as_for_themselves(
    fonts: StoreModel,
    font_id: i16,
    other: i16,
    size: i16,
)
    requires
        fonts.wf(),
        fonts.overrides_resolved,
        stand_in_family(font_id, other),
        is_missing(fonts, font_id, size),
    ensures
        stands_alone(other),
        scaled_lookup(fonts, font_id, size) == scaled_lookup(fonts, other, size),
        default_lookup(fonts, font_id, size) == default_lookup(fonts, other, size),
{
    if other == 3 {
        lemma_built_in_family(fonts, 6);
    } else if other == 2 {
        lemma_built_in_family(fonts, 3);
    } else {
        lemma_built_in_family(fonts, 13);
    }
    law_closest_is_nearest(fonts, other, size);
}

/// The family has a strike of the size, from an application or built in.
pub open spec fn has_strike(fonts: StoreModel, font_id: i16, size: i16) -> bool {
    fonts.strikes.contains_key((font_id, size)) || exists|nth: int|
        0 <= nth < fonts.table.len() && (#[trigger] fonts.table[nth]).font_id == font_id
            && fonts.table[nth].size == size
}

proof fn lemma_strike_sizes(fonts: StoreModel, font_id: i16, size: i16)
    ensures
        strike_sizes(fonts, font_id).contains(size) == has_strike(fonts, font_id, size),
{
    law_the_first_face_is_found(fonts.table, font_id, size);
    lemma_find_face_sound(fonts.table, font_id, size);
}

/// The closest strike is one of the family's. No strike of the family is closer in size to the one
/// that is asked for, where 0 stands for 12, and of two that are as close it is the larger. Of two
/// of the same size one from an application goes before a built-in one. There is one if the family
/// has a strike.
pub proof fn law_closest_strikes_are_closest(fonts: StoreModel, font_id: i16, size: i16)
    requires
        fonts.wf(),
    ensures
        ({
            let wanted = if size == 0 {
                12int
            } else {
                size as int
            };
            &&& closest(fonts, font_id, size) is Some <==> exists|any: i16|
                has_strike(fonts, font_id, any)
            &&& closest(fonts, font_id, size) matches Some(face) ==> {
                &&& has_strike(fonts, font_id, face.size)
                &&& face.font_id == font_id
                &&& if fonts.strikes.contains_key((font_id, face.size)) {
                    face == fonts.strikes[(font_id, face.size)]
                } else {
                    fonts.table.contains(face)
                }
                &&& forall|other: i16| #[trigger]
                    has_strike(fonts, font_id, other) ==> {
                        let near = (face.size - wanted) * (face.size - wanted);
                        let far = (other - wanted) * (other - wanted);
                        near < far || near == far && other <= face.size
                    }
            }
        }),
{
    law_closest_is_nearest(fonts, font_id, size);
    let sizes = strike_sizes(fonts, font_id);
    if exists|any: i16| has_strike(fonts, font_id, any) {
        let any = choose|any: i16| has_strike(fonts, font_id, any);
        lemma_strike_sizes(fonts, font_id, any);
        assert(sizes.contains(any));
    }
    if let Some(face) = closest(fonts, font_id, size) {
        let wanted = if size == 0 {
            12i16
        } else {
            size
        };
        assert(sizes.contains(face.size));
        lemma_strike_sizes(fonts, font_id, face.size);
        lemma_find_face_sound(fonts.table, font_id, face.size);
        let any = choose|any: i16| sizes.contains(any);
        lemma_nearest_exists(sizes, wanted, any);
        assert(nearest(sizes, wanted) == face.size);
        assert forall|other: i16| #[trigger] has_strike(fonts, font_id, other) implies {
            let near = (face.size - wanted) * (face.size - wanted);
            let far = (other - wanted) * (other - wanted);
            near < far || near == far && other <= face.size
        } by {
            lemma_strike_sizes(fonts, font_id, other);
            if other != face.size {
                law_nearer_sizes_are_closer(face.size, other, wanted);
            }
        }
    }
}

/// One size stands in better than another if it is closer to the one that is asked for, or as
/// close and larger. So of two sizes exactly one stands in better.
pub proof fn law_nearer_sizes_are_closer(a: i16, b: i16, wanted: i16)
    ensures
        ({
            let near = (a - wanted) * (a - wanted);
            let far = (b - wanted) * (b - wanted);
            nearer(a, b, wanted) <==> near < far || near == far && a > b
        }),
        a != b ==> nearer(a, b, wanted) != nearer(b, a, wanted),
        !nearer(a, a, wanted),
{
    lemma_square((a - wanted) as int, (b - wanted) as int);
}

proof fn lemma_square(a: int, b: int)
    ensures
        a * a < b * b <==> -a < b && a < b || -a < -b && a < -b,
        a * a == b * b <==> a == b || a == -b,
{
    let x = if a < 0 {
        -a
    } else {
        a
    };
    let y = if b < 0 {
        -b
    } else {
        b
    };
    assert(a * a == x * x && b * b == y * y) by (nonlinear_arith)
        requires
            x == a || x == -a,
            y == b || y == -b,
    ;
    if x < y {
        assert(x * x < y * y) by (nonlinear_arith)
            requires
                0 <= x < y,
        ;
    } else if y < x {
        assert(y * y < x * x) by (nonlinear_arith)
            requires
                0 <= y < x,
        ;
    }
}

/// The ratio is that of the size that is asked for to the size of the face that serves it. A size
/// of 0 stands for 12, one below that for 1, and a face of a size below 1 counts as one of size 1.
pub proof fn law_ratios_are_of_sizes(fonts: StoreModel, font_id: i16, size: i16, wanted: i16)
    requires
        size == 0 ==> wanted == 12,
        size < 0 ==> wanted == 1,
        size > 0 ==> wanted == size,
    ensures
        match scaled_lookup(fonts, font_id, wanted) {
            LookupModel::Ready((face, _)) => ratio_lookup(
                fonts,
                font_id,
                size,
            ) matches LookupModel::Ready((same, numerator, denominator)) && same == face && numerator == wanted && (if face.size >= 1 {
                denominator == face.size
            } else {
                denominator == 1
            }),
            LookupModel::NeedsRaster(req) => ratio_lookup(fonts, font_id, size)
                == LookupModel::<(FaceModel, i32, i32)>::NeedsRaster(req),
            LookupModel::NeedsOverrides => ratio_lookup(fonts, font_id, size) is NeedsOverrides,
        },
{
}

/// Glyph number `nth` is the face's first for the code.
pub open spec fn is_first_glyph(face: RomanModel, nth: int, mac_code: u8) -> bool {
    &&& 0 <= nth < face.glyphs.len()
    &&& face.glyphs[nth].mac_code == mac_code
    &&& forall|earlier: int|
        0 <= earlier < nth ==> (#[trigger] face.glyphs[earlier]).mac_code != mac_code
}

proof fn lemma_first_glyph(face: RomanModel, mac_code: u8, from: int)
    requires
        0 <= from <= face.glyphs.len(),
        forall|earlier: int|
            0 <= earlier < from ==> (#[trigger] face.glyphs[earlier]).mac_code != mac_code,
    ensures
        forall|nth: int| #[trigger]
            is_first_glyph(face, nth, mac_code) ==> roman_glyph_from(face, mac_code, from) == Some(
                (face.glyphs[nth].glyph, face.data),
            ),
        (forall|nth: int|
            0 <= nth < face.glyphs.len() ==> (#[trigger] face.glyphs[nth]).mac_code != mac_code)
            ==> roman_glyph_from(face, mac_code, from) is None,
    decreases face.glyphs.len() - from,
{
    if from < face.glyphs.len() {
        if face.glyphs[from].mac_code == mac_code {
            assert forall|nth: int| #[trigger] is_first_glyph(face, nth, mac_code) implies nth
                == from by {
                if nth > from {
                    assert(face.glyphs[from].mac_code != mac_code);
                } else if nth < from {
                    assert(face.glyphs[nth].mac_code != mac_code);
                }
            }
        } else {
            lemma_first_glyph(face, mac_code, from + 1);
        }
    }
}

/// The glyph for a Mac Roman code is the first that the strike of exactly the family and the size
/// has for it, where size 0 stands for 12, with that strike's coverage bytes. Without such a strike
/// or such a glyph there is none.
pub proof fn law_mac_roman_glyphs_are_those_of_the_strike(
    fonts: StoreModel,
    font_id: i16,
    size: i16,
    wanted: i16,
    mac_code: u8,
)
    requires
        fonts.wf(),
        size == 0 ==> wanted == 12,
        size != 0 ==> wanted == size,
    ensures
        !fonts.roman_strikes.contains_key((font_id, wanted)) ==> macroman_lookup(
            fonts,
            font_id,
            size,
            mac_code,
        ) is None,
        fonts.roman_strikes.contains_key((font_id, wanted)) ==> {
            let face = fonts.roman_strikes[(font_id, wanted)];
            let found = macroman_lookup(fonts, font_id, size, mac_code);
            &&& forall|nth: int| #[trigger]
                is_first_glyph(face, nth, mac_code) ==> found == Some(
                    (face.glyphs[nth].glyph, face.data),
                )
            &&& (forall|nth: int|
                0 <= nth < face.glyphs.len() ==> (#[trigger] face.glyphs[nth]).mac_code
                    != mac_code) ==> found is None
        },
{
    if fonts.roman_strikes.contains_key((font_id, wanted)) {
        lemma_first_glyph(fonts.roman_strikes[(font_id, wanted)], mac_code, 0);
    }
}

/// A table of Mac Roman faces is searched for the first face of the family and the size, and that
/// face for the first glyph of the code. A second face of the family and the size is not looked at.
pub proof fn law_mac_roman_tables_are_searched_from_the_start(
    table: Seq<RomanModel>,
    font_id: i16,
    size: i16,
    mac_code: u8,
    nth: int,
)
    requires
        0 <= nth < table.len(),
        table[nth].font_id == font_id && table[nth].size == size,
        forall|earlier: int|
            0 <= earlier < nth ==> !((#[trigger] table[earlier]).font_id == font_id
                && table[earlier].size == size),
    ensures
        forall|at: int| #[trigger]
            is_first_glyph(table[nth], at, mac_code) ==> table_roman_glyph(
                table,
                font_id,
                size,
                mac_code,
            ) == Some((table[nth].glyphs[at].glyph, table[nth].data)),
        (forall|at: int|
            0 <= at < table[nth].glyphs.len() ==> (#[trigger] table[nth].glyphs[at]).mac_code
                != mac_code) ==> table_roman_glyph(table, font_id, size, mac_code) is None,
{
    lemma_roman_face_at(table, font_id, size, 0, nth);
    lemma_first_glyph(table[nth], mac_code, 0);
}

proof fn lemma_roman_face_at(
    table: Seq<RomanModel>,
    font_id: i16,
    size: i16,
    from: int,
    nth: int,
)
    requires
        0 <= from <= nth < table.len(),
        table[nth].font_id == font_id && table[nth].size == size,
        forall|earlier: int|
            from <= earlier < nth ==> !((#[trigger] table[earlier]).font_id == font_id
                && table[earlier].size == size),
    ensures
        roman_face_from(table, font_id, size, from) == Some(table[nth]),
    decreases nth - from,
{
    if from < nth {
        assert(!(table[from].font_id == font_id && table[from].size == size));
        lemma_roman_face_at(table, font_id, size, from + 1, nth);
    }
}

/// A table of italics is searched for the first face of the family and the size, where size 0
/// stands for 12. That face has the glyphs of the printable ASCII characters from the space on. A
/// glyph without box and advance counts as none.
pub proof fn law_italic_tables_are_searched_from_the_start(
    table: Seq<ItalicModel>,
    font_id: i16,
    size: i16,
    ch: char,
    nth: int,
)
    requires
        0 <= nth < table.len(),
        table[nth].font_id == font_id && table[nth].size == (if size == 0 {
            12
        } else {
            size
        }),
        forall|earlier: int|
            0 <= earlier < nth ==> !((#[trigger] table[earlier]).font_id == font_id
                && table[earlier].size == table[nth].size),
    ensures
        ({
            let code = ch as int;
            let glyphs = table[nth].glyphs;
            let glyph = glyphs[code - 32];
            let found = italic_lookup(table, font_id, size, ch);
            if 32 <= code <= 126 && code - 32 < glyphs.len() && (glyph.width != 0 || glyph.height
                != 0 || glyph.advance != 0) {
                found == Some((glyph, table[nth].data))
            } else {
                found is None
            }
        }),
{
    lemma_italic_face_at(table, font_id, table[nth].size, 0, nth);
}

proof fn lemma_italic_face_at(
    table: Seq<ItalicModel>,
    font_id: i16,
    size: i16,
    from: int,
    nth: int,
)
    requires
        0 <= from <= nth < table.len(),
        table[nth].font_id == font_id && table[nth].size == size,
        forall|earlier: int|
            from <= earlier < nth ==> !((#[trigger] table[earlier]).font_id == font_id
                && table[earlier].size == size),
    ensures
        italic_face_from(table, font_id, size, from) == Some(table[nth]),
    decreases nth - from,
{
    if from < nth {
        assert(!(table[from].font_id == font_id && table[from].size == size));
        lemma_italic_face_at(table, font_id, size, from + 1, nth);
    }
}

/// Nothing is found in a table without a face of the family and the size.
pub proof fn law_other_faces_are_not_found(
    romans: Seq<RomanModel>,
    italics: Seq<ItalicModel>,
    font_id: i16,
    size: i16,
    mac_code: u8,
    ch: char,
)
    requires
        size != 0,
        forall|nth: int|
            0 <= nth < romans.len() ==> !((#[trigger] romans[nth]).font_id == font_id
                && romans[nth].size == size),
        forall|nth: int|
            0 <= nth < italics.len() ==> !((#[trigger] italics[nth]).font_id == font_id
                && italics[nth].size == size),
    ensures
        table_roman_glyph(romans, font_id, size, mac_code) is None,
        italic_lookup(italics, font_id, size, ch) is None,
{
    lemma_no_roman_face(romans, font_id, size, 0);
    lemma_no_italic_face(italics, font_id, size, 0);
}

proof fn lemma_no_roman_face(table: Seq<RomanModel>, font_id: i16, size: i16, from: int)
    requires
        0 <= from <= table.len(),
        forall|nth: int|
            from <= nth < table.len() ==> !((#[trigger] table[nth]).font_id == font_id
                && table[nth].size == size),
    ensures
        roman_face_from(table, font_id, size, from) is None,
    decreases table.len() - from,
{
    if from < table.len() {
        lemma_no_roman_face(table, font_id, size, from + 1);
    }
}

proof fn lemma_no_italic_face(table: Seq<ItalicModel>, font_id: i16, size: i16, from: int)
    requires
        0 <= from <= table.len(),
        forall|nth: int|
            from <= nth < table.len() ==> !((#[trigger] table[nth]).font_id == font_id
                && table[nth].size == size),
    ensures
        italic_face_from(table, font_id, size, from) is None,
    decreases table.len() - from,
{
    if from < table.len() {
        lemma_no_italic_face(table, font_id, size, from + 1);
    }
}

/// The face holds what was drawn, under that family and size.
pub open spec fn holds(face: Option<FaceModel>, art: PixelFace, font_id: i16, size: i16) -> bool {
    face matches Some(f) && f.font_id == font_id && f.size == size && f.metrics == art.metrics
        && f.glyphs == art.glyphs@ && f.data == art.data@
}

/// Each drawn strike is built in under its own family and size: Chicago 9 and 12, Application 12,
/// New York 12, 14 and 18, Geneva 9, 10, 12, 14, 18 and 24, Monaco 9, 10 and 12, Venice 14, London
/// 18 and Cairo 18. Helvetica 12 has the glyphs of Geneva 10 and metrics of its own. Nothing else
/// is built in.
pub proof fn law_drawn_strikes_are_built_in(art: PixelFonts, font_id: i16, size: i16)
    ensures
        ({
            let found = find_face(packed_models(art), font_id, size);
            let helvetica = PixelFace {
                metrics: FontMetrics { ascent: 10, descent: 3, wid_max: 12, leading: 1 },
                ..art.geneva10
            };
            match (font_id, size) {
                (0, 9) => holds(found, art.chicago9, 0, 9),
                (0, 12) => holds(found, art.chicago12, 0, 12),
                (1, 12) => holds(found, art.application12, 1, 12),
                (2, 12) => holds(found, art.newyork12, 2, 12),
                (2, 14) => holds(found, art.newyork14, 2, 14),
                (2, 18) => holds(found, art.newyork18, 2, 18),
                (3, 9) => holds(found, art.geneva9, 3, 9),
                (3, 10) => holds(found, art.geneva10, 3, 10),
                (3, 12) => holds(found, art.geneva12, 3, 12),
                (3, 14) => holds(found, art.geneva14, 3, 14),
                (3, 18) => holds(found, art.geneva18, 3, 18),
                (3, 24) => holds(found, art.geneva24, 3, 24),
                (4, 9) => holds(found, art.monaco9, 4, 9),
                (4, 10) => holds(found, art.monaco10, 4, 10),
                (4, 12) => holds(found, art.monaco12, 4, 12),
                (5, 14) => holds(found, art.venice14, 5, 14),
                (6, 18) => holds(found, art.london18, 6, 18),
                (11, 18) => holds(found, art.cairo18, 11, 18),
                (21, 12) => holds(found, helvetica, 21, 12),
                _ => found is None,
            }
        }),
{
    let table = packed_models(art);
    assert(table.len() == 19);
    assert forall|nth: int| 0 <= nth < table.len() implies ((#[trigger] table[nth]).font_id, table[
        nth
    ].size) == packed_keys()[nth] by {}
    lemma_find_face_sound(table, font_id, size);
    if let Some(face) = find_face(table, font_id, size) {
        let nth = choose|nth: int| 0 <= nth < table.len() && table[nth] == face;
        assert((table[nth].font_id, table[nth].size) == packed_keys()[nth]);
    } else {
        assert forall|nth: int| 0 <= nth < table.len() implies (font_id, size)
            != #[trigger] packed_keys()[nth] by {
            if (font_id, size) == packed_keys()[nth] {
                lemma_built_in(table, nth);
            }
        }
        let keys = packed_keys();
        assert(keys[0] == (0i16, 9i16) && keys[1] == (0i16, 12i16) && keys[2] == (1i16, 12i16));
        assert(keys[3] == (2i16, 12i16) && keys[4] == (2i16, 14i16) && keys[5] == (2i16, 18i16));
        assert(keys[6] == (3i16, 9i16) && keys[7] == (3i16, 10i16) && keys[8] == (21i16, 12i16));
        assert(keys[9] == (3i16, 12i16) && keys[10] == (3i16, 14i16) && keys[11] == (3i16, 18i16));
        assert(keys[12] == (3i16, 24i16) && keys[13] == (4i16, 9i16) && keys[14] == (4i16, 10i16));
        assert(keys[15] == (4i16, 12i16) && keys[16] == (5i16, 14i16));
        assert(keys[17] == (6i16, 18i16) && keys[18] == (11i16, 18i16));
    }
}

/// As if only some overriding faces and the built-in ones were there, the last overriding face for
/// exactly the family and the size is found, where size 0 stands for 12, and else the built-in one.
pub proof fn law_given_overrides_win(
    fonts: StoreModel,
    overrides: Seq<OverrideFace>,
    font_id: i16,
    size: i16,
    wanted: i16,
)
    requires
        size == 0 ==> wanted == 12,
        size != 0 ==> wanted == size,
    ensures
        forall|last: int|
            0 <= last < overrides.len() && (#[trigger] overrides[last]).font_id == font_id
                && overrides[last].size == wanted && (forall|later: int|
                last < later < overrides.len() ==> !((#[trigger] overrides[later]).font_id
                    == font_id && overrides[later].size == wanted)) ==> overridden(
                fonts,
                overrides,
                font_id,
                size,
            ) == Some(overrides[last].face@),
        (forall|any: int|
            0 <= any < overrides.len() ==> !((#[trigger] overrides[any]).font_id == font_id
                && overrides[any].size == wanted)) ==> overridden(fonts, overrides, font_id, size)
            == find_face(fonts.table, font_id, wanted),
{
    lemma_last_override(overrides, (font_id, wanted), overrides.len());
}

proof fn lemma_last_override(loaded: Seq<OverrideFace>, key: (i16, i16), count: nat)
    requires
        count <= loaded.len(),
    ensures
        forall|last: int|
            0 <= last < count && (#[trigger] loaded[last]).font_id == key.0 && loaded[last].size
                == key.1 && (forall|later: int|
                last < later < count ==> !((#[trigger] loaded[later]).font_id == key.0
                    && loaded[later].size == key.1)) ==> override_map(loaded, count).contains_key(
                key,
            ) && override_map(loaded, count)[key] == loaded[last].face@,
        (forall|any: int|
            0 <= any < count ==> !((#[trigger] loaded[any]).font_id == key.0 && loaded[any].size
                == key.1)) ==> !override_map(loaded, count).contains_key(key),
    decreases count,
{
    if count > 0 {
        lemma_last_override(loaded, key, (count - 1) as nat);
        let newest = loaded[count - 1];
        assert forall|last: int|
            0 <= last < count && (#[trigger] loaded[last]).font_id == key.0 && loaded[last].size
                == key.1 && (forall|later: int|
                last < later < count ==> !((#[trigger] loaded[later]).font_id == key.0
                    && loaded[later].size == key.1)) implies override_map(
            loaded,
            count,
        ).contains_key(key) && override_map(loaded, count)[key] == loaded[last].face@ by {
            if last < count - 1 {
                assert(!(newest.font_id == key.0 && newest.size == key.1));
            }
        }
        if forall|any: int|
            0 <= any < count ==> !((#[trigger] loaded[any]).font_id == key.0 && loaded[any].size
                == key.1) {
            assert(!(newest.font_id == key.0 && newest.size == key.1));
        }
    }
}

/// Once a directory other than the one before was loaded, the last face that was loaded for a
/// family and a size overrides there, and no face overrides where none was loaded. All else stays.
pub proof fn law_exactly_the_loaded_faces_override(
    fonts: StoreModel,
    dir: Seq<u8>,
    loaded: Seq<OverrideFace>,
    key: (i16, i16),
)
    requires
        fonts.override_dir != Some(dir),
    ensures
        ({
            let after = with_overrides(fonts, Some(dir), loaded);
            &&& forall|last: int|
                0 <= last < loaded.len() && (#[trigger] loaded[last]).font_id == key.0
                    && loaded[last].size == key.1 && (forall|later: int|
                    last < later < loaded.len() ==> !((#[trigger] loaded[later]).font_id == key.0
                        && loaded[later].size == key.1)) ==> after.override_faces.contains_key(key)
                    && after.override_faces[key] == loaded[last].face@
            &&& (forall|any: int|
                0 <= any < loaded.len() ==> !((#[trigger] loaded[any]).font_id == key.0
                    && loaded[any].size == key.1)) ==> !after.override_faces.contains_key(key)
            &&& after.override_dir == Some(dir) && after.overrides_resolved
            &&& after.table == fonts.table && after.strikes == fonts.strikes
            &&& after.roman_strikes == fonts.roman_strikes && after.outlines == fonts.outlines
            &&& after.mac_roman == fonts.mac_roman
        }),
{
    lemma_last_override(loaded, key, loaded.len());
}

} // verus!
