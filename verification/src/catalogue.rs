//! The built-in faces: which drawn strike serves which family and size.
//!
//! | Family                               | Face      |
//! |--------------------------------------|-----------|
//! | Chicago                              | Jarrah    |
//! | Geneva, Application, Helvetica       | Kurrajong |
//! | Monaco, Courier                      | Mallee    |
//! | New York, Palatino, Times            | Ironbark  |
//! | Venice                               | Wattle    |
//! | London                               | Karri     |
//! | Cairo                                | Grevillea |
use crate::glyph::{FaceModel, FontFace, FontMetrics, Glyph, ASCII_GLYPHS};
#[allow(unused_imports)]
use crate::glyph::{glyph_in_bounds, is_binary};
use crate::ids::{
    FONT_APPLICATION, FONT_CAIRO, FONT_CHICAGO, FONT_GENEVA, FONT_HELVETICA, FONT_LONDON,
    FONT_MONACO, FONT_NEWYORK, FONT_VENICE,
};
use vstd::prelude::*;

verus! {

/// One drawn strike: metrics, glyphs and coverage bytes.
#[derive(Clone, Copy, Debug)]
pub struct PixelFace {
    pub metrics: FontMetrics,
    pub glyphs: &'static [Glyph],
    pub data: &'static [u8],
}

/// All drawn strikes.
#[derive(Clone, Copy, Debug)]
pub struct PixelFonts {
    pub chicago9: PixelFace,
    pub chicago12: PixelFace,
    pub application12: PixelFace,
    pub newyork12: PixelFace,
    pub newyork14: PixelFace,
    pub newyork18: PixelFace,
    pub geneva9: PixelFace,
    pub geneva10: PixelFace,
    pub geneva12: PixelFace,
    pub geneva14: PixelFace,
    pub geneva18: PixelFace,
    pub geneva24: PixelFace,
    pub monaco9: PixelFace,
    pub monaco10: PixelFace,
    pub monaco12: PixelFace,
    pub venice14: PixelFace,
    pub london18: PixelFace,
    pub cairo18: PixelFace,
}

impl PixelFace {
    /// There is a glyph for each printable ASCII character, every pixel is fully clear or fully
    /// set, and every glyph can be read.
    pub open spec fn whole(self) -> bool {
        &&& self.glyphs@.len() == ASCII_GLYPHS
        &&& is_binary(self.data@)
        &&& forall|i: int|
            0 <= i < self.glyphs@.len() ==> glyph_in_bounds(#[trigger] self.glyphs@[i], self.data@)
    }

    /// Tells whether the strike is whole.
    fn is_whole(&self) -> (whole: bool)
        ensures
            whole == self.whole(),
    {
        if self.glyphs.len() != ASCII_GLYPHS {
            return false;
        }
        let mut i: usize = 0;
        while i < self.data.len()
            invariant
                i <= self.data@.len(),
                forall|j: int| 0 <= j < i ==> #[trigger] self.data@[j] == 0 || self.data@[j] == 255,
            decreases self.data@.len() - i,
        {
            if self.data[i] != 0 && self.data[i] != 255 {
                assert(self.data@[i as int] != 0 && self.data@[i as int] != 255);
                return false;
            }
            i = i + 1;
        }
        let mut n: usize = 0;
        while n < self.glyphs.len()
            invariant
                n <= self.glyphs@.len(),
                is_binary(self.data@),
                self.glyphs@.len() == ASCII_GLYPHS,
                forall|j: int|
                    0 <= j < n ==> glyph_in_bounds(#[trigger] self.glyphs@[j], self.data@),
            decreases self.glyphs@.len() - n,
        {
            let glyph = self.glyphs[n];
            assert(0 <= glyph.width * glyph.height <= 255 * 255) by (nonlinear_arith)
                requires
                    0 <= glyph.width <= 255,
                    0 <= glyph.height <= 255,
            ;
            let area: usize = glyph.width as usize * glyph.height as usize;
            if area > self.data.len() || glyph.data_offset > self.data.len() - area {
                assert(!glyph_in_bounds(self.glyphs@[n as int], self.data@));
                return false;
            }
            n = n + 1;
        }
        true
    }
}

impl PixelFonts {
    /// Every strike is whole.
    pub open spec fn whole(self) -> bool {
        &&& self.chicago9.whole()
        &&& self.chicago12.whole()
        &&& self.application12.whole()
        &&& self.newyork12.whole()
        &&& self.newyork14.whole()
        &&& self.newyork18.whole()
        &&& self.geneva9.whole()
        &&& self.geneva10.whole()
        &&& self.geneva12.whole()
        &&& self.geneva14.whole()
        &&& self.geneva18.whole()
        &&& self.geneva24.whole()
        &&& self.monaco9.whole()
        &&& self.monaco10.whole()
        &&& self.monaco12.whole()
        &&& self.venice14.whole()
        &&& self.london18.whole()
        &&& self.cairo18.whole()
    }

    /// Tells whether every strike is whole.
    pub fn is_whole(&self) -> (whole: bool)
        ensures
            whole == self.whole(),
    {
        self.chicago9.is_whole() && self.chicago12.is_whole() && self.application12.is_whole()
            && self.newyork12.is_whole() && self.newyork14.is_whole() && self.newyork18.is_whole()
            && self.geneva9.is_whole() && self.geneva10.is_whole() && self.geneva12.is_whole()
            && self.geneva14.is_whole() && self.geneva18.is_whole() && self.geneva24.is_whole()
            && self.monaco9.is_whole() && self.monaco10.is_whole() && self.monaco12.is_whole()
            && self.venice14.is_whole() && self.london18.is_whole() && self.cairo18.is_whole()
    }
}

/// The metrics of the built-in Helvetica 12.
pub open spec fn helvetica_metrics() -> FontMetrics {
    FontMetrics { ascent: 10, descent: 3, wid_max: 12, leading: 1 }
}

/// A strike with other metrics.
pub open spec fn with_metrics(face: PixelFace, metrics: FontMetrics) -> PixelFace {
    PixelFace { metrics, glyphs: face.glyphs, data: face.data }
}

/// A strike under a family and a size.
pub open spec fn packed(font_id: i16, size: i16, face: PixelFace) -> FaceModel {
    FaceModel {
        font_id,
        size,
        metrics: face.metrics,
        glyphs: face.glyphs@,
        data: face.data@,
    }
}

/// The built-in faces, in the order in which they are searched.
pub open spec fn packed_models(art: PixelFonts) -> Seq<FaceModel> {
    seq![
        packed(FONT_CHICAGO, 9, art.chicago9),
        packed(FONT_CHICAGO, 12, art.chicago12),
        packed(FONT_APPLICATION, 12, art.application12),
        packed(FONT_NEWYORK, 12, art.newyork12),
        packed(FONT_NEWYORK, 14, art.newyork14),
        packed(FONT_NEWYORK, 18, art.newyork18),
        packed(FONT_GENEVA, 9, art.geneva9),
        packed(FONT_GENEVA, 10, art.geneva10),
        packed(FONT_HELVETICA, 12, with_metrics(art.geneva10, helvetica_metrics())),
        packed(FONT_GENEVA, 12, art.geneva12),
        packed(FONT_GENEVA, 14, art.geneva14),
        packed(FONT_GENEVA, 18, art.geneva18),
        packed(FONT_GENEVA, 24, art.geneva24),
        packed(FONT_MONACO, 9, art.monaco9),
        packed(FONT_MONACO, 10, art.monaco10),
        packed(FONT_MONACO, 12, art.monaco12),
        packed(FONT_VENICE, 14, art.venice14),
        packed(FONT_LONDON, 18, art.london18),
        packed(FONT_CAIRO, 18, art.cairo18),
    ]
}

/// The families and sizes of the built-in faces.
pub open spec fn packed_keys() -> Seq<(i16, i16)> {
    seq![
        (FONT_CHICAGO, 9i16),
        (FONT_CHICAGO, 12i16),
        (FONT_APPLICATION, 12i16),
        (FONT_NEWYORK, 12i16),
        (FONT_NEWYORK, 14i16),
        (FONT_NEWYORK, 18i16),
        (FONT_GENEVA, 9i16),
        (FONT_GENEVA, 10i16),
        (FONT_HELVETICA, 12i16),
        (FONT_GENEVA, 12i16),
        (FONT_GENEVA, 14i16),
        (FONT_GENEVA, 18i16),
        (FONT_GENEVA, 24i16),
        (FONT_MONACO, 9i16),
        (FONT_MONACO, 10i16),
        (FONT_MONACO, 12i16),
        (FONT_VENICE, 14i16),
        (FONT_LONDON, 18i16),
        (FONT_CAIRO, 18i16),
    ]
}

/// The table holds one face for each family and size that is built in.
pub open spec fn is_catalogue(table: Seq<FaceModel>) -> bool {
    &&& table.len() == packed_keys().len()
    &&& forall|i: int|
        0 <= i < table.len() ==> (#[trigger] table[i].font_id, table[i].size) == packed_keys()[i]
}

/// What the faces of a table hold.
pub open spec fn face_models(table: Seq<FontFace>) -> Seq<FaceModel> {
    table.map_values(|face: FontFace| face@)
}

/// The first face of the table with that family and size.
pub open spec fn find_face(table: Seq<FaceModel>, font_id: i16, size: i16) -> Option<FaceModel>
    decreases table.len(),
{
    if table.len() == 0 {
        None
    } else if table[0].font_id == font_id && table[0].size == size {
        Some(table[0])
    } else {
        find_face(table.drop_first(), font_id, size)
    }
}

fn pack(font_id: i16, size: i16, face: &PixelFace) -> (filed: FontFace)
    ensures
        filed@ == packed(font_id, size, *face),
{
    FontFace { font_id, size, metrics: face.metrics, glyphs: face.glyphs, data: face.data }
}

/// The built-in faces, in the order in which they are searched.
pub fn packed_faces(art: &PixelFonts) -> (table: Vec<FontFace>)
    ensures
        face_models(table@) == packed_models(*art),
        is_catalogue(face_models(table@)),
{
    let table: Vec<FontFace> = vec![
        pack(FONT_CHICAGO, 9, &art.chicago9),
        pack(FONT_CHICAGO, 12, &art.chicago12),
        pack(FONT_APPLICATION, 12, &art.application12),
        pack(FONT_NEWYORK, 12, &art.newyork12),
        pack(FONT_NEWYORK, 14, &art.newyork14),
        pack(FONT_NEWYORK, 18, &art.newyork18),
        pack(FONT_GENEVA, 9, &art.geneva9),
        pack(FONT_GENEVA, 10, &art.geneva10),
        // Helvetica 12 is drawn with the narrower strike of Geneva 10, so that dialogs laid out
        // for Helvetica keep their text inside its boxes.
        FontFace {
            font_id: FONT_HELVETICA,
            size: 12,
            metrics: FontMetrics { ascent: 10, descent: 3, wid_max: 12, leading: 1 },
            glyphs: art.geneva10.glyphs,
            data: art.geneva10.data,
        },
        pack(FONT_GENEVA, 12, &art.geneva12),
        pack(FONT_GENEVA, 14, &art.geneva14),
        pack(FONT_GENEVA, 18, &art.geneva18),
        pack(FONT_GENEVA, 24, &art.geneva24),
        pack(FONT_MONACO, 9, &art.monaco9),
        pack(FONT_MONACO, 10, &art.monaco10),
        pack(FONT_MONACO, 12, &art.monaco12),
        pack(FONT_VENICE, 14, &art.venice14),
        pack(FONT_LONDON, 18, &art.london18),
        pack(FONT_CAIRO, 18, &art.cairo18),
    ];
    assert(face_models(table@) =~= packed_models(*art));
    table
}

/// The first face of the table with that family and size.
pub fn find_in_table(table: &'static [FontFace], font_id: i16, size: i16) -> (found: Option<
    &'static FontFace,
>)
    ensures
        found.deep_view() == find_face(face_models(table@), font_id, size),
{
    let mut i: usize = 0;
    assert(face_models(table@).skip(0) =~= face_models(table@));
    while i < table.len()
        invariant
            i <= table@.len(),
            find_face(face_models(table@), font_id, size) == find_face(
                face_models(table@).skip(i as int),
                font_id,
                size,
            ),
        decreases table@.len() - i,
    {
        let face: &'static FontFace = &table[i];
        assert(face_models(table@).skip(i as int)[0] == face@);
        if face.font_id == font_id && face.size == size {
            return Some(face);
        }
        assert(face_models(table@).skip(i as int).drop_first() =~= face_models(table@).skip(
            i + 1,
        ));
        i = i + 1;
    }
    None
}

/// The face that is found is the first of the table with that family and size.
pub proof fn lemma_find_face_first(table: Seq<FaceModel>, at: int)
    requires
        0 <= at < table.len(),
        forall|j: int|
            0 <= j < at ==> !(#[trigger] table[j].font_id == table[at].font_id && table[j].size
                == table[at].size),
    ensures
        find_face(table, table[at].font_id, table[at].size) == Some(table[at]),
    decreases at,
{
    if at > 0 {
        let rest = table.drop_first();
        assert(rest[at - 1] == table[at]);
        assert forall|j: int| 0 <= j < at - 1 implies !(#[trigger] rest[j].font_id == rest[at
            - 1].font_id && rest[j].size == rest[at - 1].size) by {
            assert(rest[j] == table[j + 1]);
        }
        assert(table[0].font_id == table[0].font_id);
        lemma_find_face_first(rest, at - 1);
    }
}

/// What is found is in the table, under the family and size that were asked for.
pub proof fn lemma_find_face_sound(table: Seq<FaceModel>, font_id: i16, size: i16)
    ensures
        find_face(table, font_id, size) matches Some(face) ==> table.contains(face) && face.font_id
            == font_id && face.size == size,
        find_face(table, font_id, size) is None ==> forall|i: int|
            0 <= i < table.len() ==> !(#[trigger] table[i].font_id == font_id && table[i].size
                == size),
    decreases table.len(),
{
    if table.len() > 0 {
        let rest = table.drop_first();
        lemma_find_face_sound(rest, font_id, size);
        if table[0].font_id == font_id && table[0].size == size {
            assert(table.contains(table[0]));
        } else {
            match find_face(rest, font_id, size) {
                Some(face) => {
                    let i = choose|i: int| 0 <= i < rest.len() && rest[i] == face;
                    assert(table[i + 1] == face);
                },
                None => {
                    assert forall|i: int| 0 <= i < table.len() implies !(#[trigger] table[i].font_id
                        == font_id && table[i].size == size) by {
                        if i > 0 {
                            assert(rest[i - 1] == table[i]);
                        }
                    }
                },
            }
        }
    }
}

} // verus!
