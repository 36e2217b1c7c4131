//! Glyphs, metrics and faces, and the values that contracts speak of in their place.
use vstd::prelude::*;

verus! {

/// The coverage at which a pixel counts as set when it is drawn with one bit. Coverage bytes of
/// glyphs are 0 or 255, so the value matters only to shapes that share it.
pub const MONO_COVERAGE_THRESHOLD: u8 = 128;

/// A single character's bitmap: its box, its place relative to the pen, and where its coverage
/// bytes start in the face's `data`.
#[derive(Clone, Copy, Debug, PartialEq, Eq)]
pub struct Glyph {
    pub width: u8,
    pub height: u8,
    pub advance: u8,
    pub origin_x: i8,
    pub origin_y: i8,
    pub data_offset: usize,
}

/// Vertical metrics and greatest width of a face at one size.
#[derive(Clone, Copy, Debug, PartialEq, Eq)]
pub struct FontMetrics {
    pub ascent: i16,
    pub descent: i16,
    pub wid_max: i16,
    pub leading: i16,
}

/// One family at one point size: metrics, the glyphs of the printable ASCII characters from the
/// space on, and the coverage bytes that the glyphs index into.
#[derive(Clone, Copy, Debug)]
pub struct FontFace {
    pub font_id: i16,
    pub size: i16,
    pub metrics: FontMetrics,
    pub glyphs: &'static [Glyph],
    pub data: &'static [u8],
}

/// The glyph of one Mac Roman character above the ASCII range.
#[derive(Clone, Copy, Debug, PartialEq, Eq)]
pub struct MacRomanGlyph {
    pub mac_code: u8,
    pub glyph: Glyph,
}

/// The Mac Roman characters above the ASCII range of one family at one point size.
#[derive(Clone, Copy, Debug)]
pub struct MacRomanFace {
    pub font_id: i16,
    pub size: i16,
    pub glyphs: &'static [MacRomanGlyph],
    pub data: &'static [u8],
}

/// Italic strikes of one family at one point size.
#[derive(Clone, Copy, Debug)]
pub struct ItalicFace {
    pub font_id: i16,
    pub size: i16,
    pub glyphs: &'static [Glyph],
    pub data: &'static [u8],
}

/// What a [`FontFace`] holds.
#[verifier::ext_equal]
pub struct FaceModel {
    pub font_id: i16,
    pub size: i16,
    pub metrics: FontMetrics,
    pub glyphs: Seq<Glyph>,
    pub data: Seq<u8>,
}

/// What a [`MacRomanFace`] holds.
#[verifier::ext_equal]
pub struct RomanModel {
    pub font_id: i16,
    pub size: i16,
    pub glyphs: Seq<MacRomanGlyph>,
    pub data: Seq<u8>,
}

/// What an [`ItalicFace`] holds.
#[verifier::ext_equal]
pub struct ItalicModel {
    pub font_id: i16,
    pub size: i16,
    pub glyphs: Seq<Glyph>,
    pub data: Seq<u8>,
}

impl View for Glyph {
    type V = Glyph;

    open spec fn view(&self) -> Glyph {
        *self
    }
}

impl View for FontFace {
    type V = FaceModel;

    open spec fn view(&self) -> FaceModel {
        FaceModel {
            font_id: self.font_id,
            size: self.size,
            metrics: self.metrics,
            glyphs: self.glyphs@,
            data: self.data@,
        }
    }
}

impl DeepView for FontFace {
    type V = FaceModel;

    open spec fn deep_view(&self) -> FaceModel {
        self@
    }
}

impl View for MacRomanFace {
    type V = RomanModel;

    open spec fn view(&self) -> RomanModel {
        RomanModel {
            font_id: self.font_id,
            size: self.size,
            glyphs: self.glyphs@,
            data: self.data@,
        }
    }
}

impl View for ItalicFace {
    type V = ItalicModel;

    open spec fn view(&self) -> ItalicModel {
        ItalicModel {
            font_id: self.font_id,
            size: self.size,
            glyphs: self.glyphs@,
            data: self.data@,
        }
    }
}

/// The number of printable ASCII characters, which every face has a glyph for.
pub const ASCII_GLYPHS: usize = 95;

/// Every coverage byte is fully clear or fully set.
pub open spec fn is_binary(data: Seq<u8>) -> bool {
    forall|i: int| 0 <= i < data.len() ==> #[trigger] data[i] == 0 || data[i] == 255
}

/// The glyph's coverage bytes lie inside `data`.
pub open spec fn glyph_in_bounds(glyph: Glyph, data: Seq<u8>) -> bool {
    glyph.data_offset + glyph.width * glyph.height <= data.len()
}

impl FaceModel {
    /// Every pixel is fully clear or fully set, and every glyph can be read.
    pub open spec fn drawable(self) -> bool {
        &&& is_binary(self.data)
        &&& forall|i: int|
            0 <= i < self.glyphs.len() ==> glyph_in_bounds(#[trigger] self.glyphs[i], self.data)
    }

    /// The face has a glyph for each printable ASCII character, and is drawable.
    pub open spec fn whole(self) -> bool {
        self.glyphs.len() == ASCII_GLYPHS && self.drawable()
    }
}

impl RomanModel {
    /// Every pixel is fully clear or fully set, and every glyph can be read.
    pub open spec fn drawable(self) -> bool {
        &&& is_binary(self.data)
        &&& forall|i: int|
            0 <= i < self.glyphs.len() ==> glyph_in_bounds(
                #[trigger] self.glyphs[i].glyph,
                self.data,
            )
    }
}

} // verus!
