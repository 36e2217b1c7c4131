//! Rasterised glyphs, and the face that they make up.
//!
//! Whoever rasterises hands over whole numbers: lengths rounded to pixels, and for each pixel
//! how much of it is covered, with 255 for all of it. What they mean for the face is decided
//! here.
use crate::glyph::{FaceModel, FontMetrics, Glyph, MacRomanGlyph, RomanModel, ASCII_GLYPHS};
use crate::strike::{to_i8, ROMAN_CODES};
#[allow(unused_imports)]
use crate::strike::{clamp_i8, clamp_u8};
use vstd::prelude::*;

verus! {

/// The coverage from which on a pixel of a rasterised outline is set. It is low: rasterisation
/// without hints leaves strokes thinner than a pixel at a third of full coverage, and such
/// strokes have to stay visible.
pub const OUTLINE_COVERAGE_THRESHOLD: u8 = 64;

/// One pixel of a rasterised glyph.
#[derive(Clone, Copy, Debug, PartialEq, Eq)]
pub struct RasterPixel {
    pub x: u32,
    pub y: u32,
    pub value: i32,
}

/// The box of a rasterised glyph, and its pixels in the order in which they were drawn.
#[derive(Debug)]
pub struct RasterOutline {
    pub width: i32,
    pub height: i32,
    pub min_x: i32,
    pub min_y: i32,
    pub pixels: Vec<RasterPixel>,
}

/// One rasterised glyph. Some, such as the space, have no outline.
#[derive(Debug)]
pub struct RasterGlyph {
    pub advance: i32,
    pub outline: Option<RasterOutline>,
}

/// A font rasterised at one size.
#[derive(Debug)]
pub struct OutlineRaster {
    pub ascent: i16,
    pub descent: i16,
    pub leading: i16,
    pub ascii: Vec<RasterGlyph>,
    pub macroman: Vec<RasterGlyph>,
}

impl OutlineRaster {
    /// There is a glyph for each printable ASCII character and each Mac Roman code above them.
    pub open spec fn complete(self) -> bool {
        self.ascii@.len() == ASCII_GLYPHS && self.macroman@.len() == ROMAN_CODES
    }

    /// All glyphs in the order in which they were rasterised.
    pub open spec fn glyphs(self) -> Seq<RasterGlyph> {
        self.ascii@ + self.macroman@
    }
}

/// What is drawn for a pixel with that coverage.
pub open spec fn quantised(value: i32) -> u8 {
    if clamp_u8(value as int) >= OUTLINE_COVERAGE_THRESHOLD {
        255
    } else {
        0
    }
}

/// The coverage bytes of a box of that width after the first `count` pixels have been drawn. A
/// pixel behind the box's last row is dropped.
pub open spec fn painted(outline: RasterOutline, count: nat) -> Seq<u8>
    decreases count,
{
    let width = clamp_u8(outline.width as int);
    let height = clamp_u8(outline.height as int);
    if count == 0 {
        Seq::new((width * height) as nat, |i: int| 0u8)
    } else {
        let before = painted(outline, (count - 1) as nat);
        let pixel = outline.pixels@[count - 1];
        let at = pixel.y * width + pixel.x;
        if at < before.len() {
            before.update(at, quantised(pixel.value))
        } else {
            before
        }
    }
}

/// The coverage bytes of a rasterised glyph.
pub open spec fn raster_pixels(glyph: RasterGlyph) -> Seq<u8> {
    match glyph.outline {
        Some(outline) => painted(outline, outline.pixels@.len()),
        None => Seq::empty(),
    }
}

/// The coverage bytes of the first `count` glyphs, one after the other.
pub open spec fn raster_coverage(glyphs: Seq<RasterGlyph>, count: nat) -> Seq<u8>
    decreases count,
{
    if count == 0 {
        Seq::empty()
    } else {
        raster_coverage(glyphs, (count - 1) as nat) + raster_pixels(glyphs[count - 1])
    }
}

/// The glyph, with its coverage bytes at `data_offset`.
pub open spec fn raster_glyph(glyph: RasterGlyph, data_offset: int) -> Glyph {
    match glyph.outline {
        Some(outline) => Glyph {
            width: clamp_u8(outline.width as int),
            height: clamp_u8(outline.height as int),
            advance: clamp_u8(glyph.advance as int),
            origin_x: clamp_i8(outline.min_x as int),
            origin_y: clamp_i8(outline.min_y as int),
            data_offset: data_offset as usize,
        },
        None => Glyph {
            width: 0,
            height: 0,
            advance: clamp_u8(glyph.advance as int),
            origin_x: 0,
            origin_y: 0,
            data_offset: data_offset as usize,
        },
    }
}

/// Glyph number `nth` of the face.
pub open spec fn placed_glyph(glyphs: Seq<RasterGlyph>, nth: int) -> Glyph {
    raster_glyph(glyphs[nth], raster_coverage(glyphs, nth as nat).len() as int)
}

/// The greatest advance of the first `count` glyphs.
pub open spec fn widest(glyphs: Seq<RasterGlyph>, count: nat) -> i16
    decreases count,
{
    if count == 0 {
        0
    } else {
        let before = widest(glyphs, (count - 1) as nat);
        let advance = clamp_u8(glyphs[count - 1].advance as int) as i16;
        if advance > before {
            advance
        } else {
            before
        }
    }
}

/// The greater of a number and 0.
pub open spec fn at_least_zero(value: i16) -> i16 {
    if value < 0 {
        0
    } else {
        value
    }
}

/// The face that a rasterised font makes up.
pub open spec fn raster_face(font_id: i16, size: i16, raster: OutlineRaster) -> FaceModel {
    let glyphs = raster.glyphs();
    FaceModel {
        font_id,
        size,
        metrics: FontMetrics {
            ascent: raster.ascent,
            descent: at_least_zero(raster.descent),
            wid_max: widest(glyphs, glyphs.len()),
            leading: at_least_zero(raster.leading),
        },
        glyphs: Seq::new(ASCII_GLYPHS as nat, |nth: int| placed_glyph(glyphs, nth)),
        data: raster_coverage(glyphs, glyphs.len()),
    }
}

/// The Mac Roman characters above the ASCII range of the face that a rasterised font makes up.
pub open spec fn raster_roman(font_id: i16, size: i16, raster: OutlineRaster) -> RomanModel {
    let glyphs = raster.glyphs();
    RomanModel {
        font_id,
        size,
        glyphs: Seq::new(
            ROMAN_CODES as nat,
            |nth: int|
                MacRomanGlyph {
                    mac_code: (0x80 + nth) as u8,
                    glyph: placed_glyph(glyphs, ASCII_GLYPHS + nth),
                },
        ),
        data: raster_coverage(glyphs, glyphs.len()),
    }
}

/// A rasterised font turned into glyphs, with the coverage bytes that both lists index into.
pub struct AssembledFace {
    pub metrics: FontMetrics,
    pub ascii: Vec<Glyph>,
    pub macroman: Vec<MacRomanGlyph>,
    pub coverage: Vec<u8>,
}

/// The value nearest to `value` that an unsigned byte can hold.
fn to_byte(value: i32) -> (clamped: u8)
    ensures
        clamped == clamp_u8(value as int),
{
    if value < 0 {
        0
    } else if value > 255 {
        255
    } else {
        value as u8
    }
}

/// A glyph takes at most this many coverage bytes.
pub open spec fn greatest_box() -> int {
    65025
}

/// Every box of bytes fits.
pub proof fn lemma_box_size(width: u8, height: u8)
    ensures
        0 <= width * height <= greatest_box(),
{
    assert(0 <= width * height <= 255 * 255) by (nonlinear_arith)
        requires
            0 <= width <= 255,
            0 <= height <= 255,
    ;
}

/// Drawing a pixel leaves the box as large as it is.
pub proof fn lemma_painted_len(outline: RasterOutline, count: nat)
    ensures
        painted(outline, count).len() == clamp_u8(outline.width as int) * clamp_u8(
            outline.height as int,
        ),
    decreases count,
{
    lemma_box_size(clamp_u8(outline.width as int), clamp_u8(outline.height as int));
    if count > 0 {
        lemma_painted_len(outline, (count - 1) as nat);
    }
}

/// Appends the glyph's coverage bytes, and places the glyph.
fn assemble_glyph(raster: &RasterGlyph, coverage: &mut Vec<u8>) -> (glyph: Glyph)
    requires
        old(coverage)@.len() <= 0xFF * greatest_box(),
    ensures
        final(coverage)@ == old(coverage)@ + raster_pixels(*raster),
        final(coverage)@.len() <= old(coverage)@.len() + greatest_box(),
        glyph == raster_glyph(*raster, old(coverage)@.len() as int),
{
    let advance: u8 = to_byte(raster.advance);
    let data_offset: usize = coverage.len();
    match &raster.outline {
        None => {
            assert(coverage@ =~= old(coverage)@ + raster_pixels(*raster));
            Glyph { width: 0, height: 0, advance, origin_x: 0, origin_y: 0, data_offset }
        },
        Some(outline) => {
            let width: u8 = to_byte(outline.width);
            let height: u8 = to_byte(outline.height);
            proof {
                lemma_box_size(width, height);
                lemma_painted_len(*outline, outline.pixels@.len());
            }
            paint(outline, width, height, coverage);
            Glyph {
                width,
                height,
                advance,
                origin_x: to_i8(outline.min_x),
                origin_y: to_i8(outline.min_y),
                data_offset,
            }
        },
    }
}

/// Appends the coverage bytes of an outline with that box.
fn paint(outline: &RasterOutline, width: u8, height: u8, coverage: &mut Vec<u8>)
    requires
        width == clamp_u8(outline.width as int),
        height == clamp_u8(outline.height as int),
        old(coverage)@.len() <= 0xFF * greatest_box(),
    ensures
        final(coverage)@ == old(coverage)@ + painted(*outline, outline.pixels@.len()),
{
    proof {
        lemma_box_size(width, height);
    }
    let data_offset: usize = coverage.len();
    let area: usize = width as usize * height as usize;
    coverage.resize(data_offset + area, 0);
    assert(coverage@ =~= old(coverage)@ + painted(*outline, 0));
    let mut drawn: usize = 0;
    while drawn < outline.pixels.len()
        invariant
            width == clamp_u8(outline.width as int),
            height == clamp_u8(outline.height as int),
            data_offset == old(coverage)@.len(),
            data_offset <= 0xFF * greatest_box(),
            area == width * height,
            area <= greatest_box(),
            drawn <= outline.pixels@.len(),
            coverage@ == old(coverage)@ + painted(*outline, drawn as nat),
            coverage@.len() == data_offset + area,
        decreases outline.pixels@.len() - drawn,
    {
        let pixel = outline.pixels[drawn];
        assert(0 <= pixel.y * width <= 0xFFFF_FFFF * 255) by (nonlinear_arith)
            requires
                0 <= pixel.y <= 0xFFFF_FFFF,
                0 <= width <= 255,
        ;
        let at: u64 = pixel.y as u64 * width as u64 + pixel.x as u64;
        proof {
            lemma_painted_len(*outline, drawn as nat);
        }
        if at < area as u64 {
            let set: u8 = if to_byte(pixel.value) >= OUTLINE_COVERAGE_THRESHOLD {
                255
            } else {
                0
            };
            coverage.set(data_offset + at as usize, set);
            assert(coverage@ =~= old(coverage)@ + painted(*outline, (drawn + 1) as nat));
        }
        drawn = drawn + 1;
    }
}

/// The greater of a number and 0.
fn or_zero(value: i16) -> (result: i16)
    ensures
        result == at_least_zero(value),
{
    if value < 0 {
        0
    } else {
        value
    }
}

/// Turns a rasterised font into glyphs: the printable ASCII characters first, then the Mac Roman
/// codes above them.
pub fn assemble_face(raster: &OutlineRaster) -> (face: AssembledFace)
    requires
        raster.complete(),
    ensures
        face.metrics == raster_face(0, 0, *raster).metrics,
        face.ascii@ == raster_face(0, 0, *raster).glyphs,
        face.macroman@ == raster_roman(0, 0, *raster).glyphs,
        face.coverage@ == raster_coverage(raster.glyphs(), raster.glyphs().len()),
{
    let ghost all = raster.glyphs();
    let mut coverage: Vec<u8> = Vec::new();
    let mut ascii: Vec<Glyph> = Vec::with_capacity(ASCII_GLYPHS);
    let mut macroman: Vec<MacRomanGlyph> = Vec::with_capacity(ROMAN_CODES);
    let mut wid_max: i16 = 0;
    let mut nth: usize = 0;
    while nth < ASCII_GLYPHS
        invariant
            raster.complete(),
            all == raster.glyphs(),
            nth <= ASCII_GLYPHS,
            ascii@.len() == nth,
            forall|i: int| 0 <= i < nth ==> #[trigger] ascii@[i] == placed_glyph(all, i),
            coverage@ == raster_coverage(all, nth as nat),
            coverage@.len() <= nth * greatest_box(),
            wid_max == widest(all, nth as nat),
        decreases ASCII_GLYPHS - nth,
    {
        let glyph = assemble_glyph(&raster.ascii[nth], &mut coverage);
        assert(all[nth as int] == raster.ascii@[nth as int]);
        if glyph.advance as i16 > wid_max {
            wid_max = glyph.advance as i16;
        }
        ascii.push(glyph);
        nth = nth + 1;
    }
    nth = 0;
    while nth < ROMAN_CODES
        invariant
            raster.complete(),
            all == raster.glyphs(),
            nth <= ROMAN_CODES,
            macroman@.len() == nth,
            forall|i: int|
                0 <= i < nth ==> #[trigger] macroman@[i] == (MacRomanGlyph {
                    mac_code: (0x80 + i) as u8,
                    glyph: placed_glyph(all, ASCII_GLYPHS + i),
                }),
            coverage@ == raster_coverage(all, (ASCII_GLYPHS + nth) as nat),
            coverage@.len() <= (ASCII_GLYPHS + nth) * greatest_box(),
            wid_max == widest(all, (ASCII_GLYPHS + nth) as nat),
        decreases ROMAN_CODES - nth,
    {
        let glyph = assemble_glyph(&raster.macroman[nth], &mut coverage);
        assert(all[ASCII_GLYPHS + nth] == raster.macroman@[nth as int]);
        if glyph.advance as i16 > wid_max {
            wid_max = glyph.advance as i16;
        }
        macroman.push(MacRomanGlyph { mac_code: (0x80 + nth) as u8, glyph });
        nth = nth + 1;
    }
    assert(ascii@ =~= raster_face(0, 0, *raster).glyphs);
    assert(macroman@ =~= raster_roman(0, 0, *raster).glyphs);
    AssembledFace {
        metrics: FontMetrics {
            ascent: raster.ascent,
            descent: or_zero(raster.descent),
            wid_max,
            leading: or_zero(raster.leading),
        },
        ascii,
        macroman,
        coverage,
    }
}

} // verus!
