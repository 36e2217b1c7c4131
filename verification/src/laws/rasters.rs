//! What holds of every face that is made of a rasterised font.
use crate::glyph::{glyph_in_bounds, is_binary, Glyph, ASCII_GLYPHS};
use crate::laws::strikes::{lemma_block, lemma_roman_glyph_at};
use crate::raster::{
    lemma_box_size, lemma_painted_len, painted, placed_glyph, quantised, raster_coverage,
    raster_face, raster_pixels, raster_roman, widest, OutlineRaster, RasterGlyph, RasterOutline,
};
use crate::special::roman_glyph;
use crate::strike::{clamp_u8, ROMAN_CODES};
use vstd::prelude::*;

verus! {

/// Where in its box's coverage bytes a pixel is drawn.
pub open spec fn pixel_place(outline: RasterOutline, nth: int) -> int {
    outline.pixels@[nth].y * clamp_u8(outline.width as int) + outline.pixels@[nth].x
}

/// What is drawn for a pixel stays, unless a later pixel is drawn in the same place: fully set
/// if the coverage reaches the threshold, else fully clear.
pub proof fn law_pixels_are_drawn(outline: RasterOutline, nth: int, count: nat)
    requires
        0 <= nth < count <= outline.pixels@.len(),
        pixel_place(outline, nth) < clamp_u8(outline.width as int) * clamp_u8(
            outline.height as int,
        ),
        forall|later: int|
            nth < later < count ==> #[trigger] pixel_place(outline, later) != pixel_place(
                outline,
                nth,
            ),
    ensures
        painted(outline, count)[pixel_place(outline, nth)] == quantised(
            outline.pixels@[nth].value,
        ),
    decreases count,
{
    lemma_painted_len(outline, (count - 1) as nat);
    lemma_place(outline, nth);
    lemma_place(outline, count - 1);
    if count - 1 > nth {
        law_pixels_are_drawn(outline, nth, (count - 1) as nat);
        assert(pixel_place(outline, count - 1) != pixel_place(outline, nth));
    }
}

proof fn lemma_place(outline: RasterOutline, nth: int)
    ensures
        0 <= pixel_place(outline, nth),
{
    let y = outline.pixels@[nth].y as int;
    let width = clamp_u8(outline.width as int) as int;
    assert(0 <= y * width) by (nonlinear_arith)
        requires
            0 <= y,
            0 <= width,
    ;
}

/// Every pixel of a box is fully clear or fully set.
pub proof fn lemma_painted_binary(outline: RasterOutline, count: nat)
    ensures
        is_binary(painted(outline, count)),
    decreases count,
{
    if count > 0 {
        lemma_painted_binary(outline, (count - 1) as nat);
    }
}

/// A glyph's coverage bytes fill its box.
proof fn lemma_raster_pixels(glyph: RasterGlyph)
    ensures
        is_binary(raster_pixels(glyph)),
        raster_pixels(glyph).len() <= 65025,
{
    match glyph.outline {
        Some(outline) => {
            lemma_painted_len(outline, outline.pixels@.len());
            lemma_painted_binary(outline, outline.pixels@.len());
            lemma_box_size(clamp_u8(outline.width as int), clamp_u8(outline.height as int));
        },
        None => {},
    }
}

proof fn lemma_raster_coverage(glyphs: Seq<RasterGlyph>, count: nat)
    ensures
        is_binary(raster_coverage(glyphs, count)),
        raster_coverage(glyphs, count).len() <= count * 65025,
    decreases count,
{
    if count > 0 {
        lemma_raster_coverage(glyphs, (count - 1) as nat);
        lemma_raster_pixels(glyphs[count - 1]);
    }
}

proof fn lemma_raster_prefix(glyphs: Seq<RasterGlyph>, shorter: nat, longer: nat)
    requires
        shorter <= longer,
    ensures
        raster_coverage(glyphs, shorter).is_prefix_of(raster_coverage(glyphs, longer)),
    decreases longer,
{
    if shorter < longer {
        lemma_raster_prefix(glyphs, shorter, (longer - 1) as nat);
    }
}

/// The coverage bytes that a face has for a glyph are the pixels that were drawn for it.
pub proof fn lemma_placed_glyph(glyphs: Seq<RasterGlyph>, nth: int)
    requires
        0 <= nth < glyphs.len() <= ASCII_GLYPHS + ROMAN_CODES,
    ensures
        ({
            let data = raster_coverage(glyphs, glyphs.len());
            let glyph = placed_glyph(glyphs, nth);
            &&& glyph_in_bounds(glyph, data)
            &&& data.subrange(
                glyph.data_offset as int,
                glyph.data_offset + glyph.width * glyph.height,
            ) == raster_pixels(glyphs[nth])
        }),
{
    let data = raster_coverage(glyphs, glyphs.len());
    let glyph = placed_glyph(glyphs, nth);
    let before = raster_coverage(glyphs, nth as nat);
    let block = raster_pixels(glyphs[nth]);
    lemma_raster_coverage(glyphs, nth as nat);
    lemma_raster_prefix(glyphs, (nth + 1) as nat, glyphs.len());
    assert(raster_coverage(glyphs, (nth + 1) as nat) == before + block);
    assert(glyph.data_offset == before.len());
    assert(glyph.width * glyph.height == block.len()) by {
        match glyphs[nth].outline {
            Some(outline) => {
                lemma_painted_len(outline, outline.pixels@.len());
            },
            None => {
                assert(glyph.width * glyph.height == 0) by (nonlinear_arith)
                    requires
                        glyph.width == 0,
                ;
            },
        }
    }
    lemma_block(data, before, block);
}

/// The coverage bytes that the face of a rasterised font has for a printable ASCII character are
/// the pixels that were drawn for it.
pub proof fn law_raster_glyph_shows_its_pixels(
    font_id: i16,
    size: i16,
    raster: OutlineRaster,
    nth: int,
)
    requires
        raster.complete(),
        0 <= nth < ASCII_GLYPHS,
    ensures
        ({
            let face = raster_face(font_id, size, raster);
            let glyph = face.glyphs[nth];
            &&& glyph_in_bounds(glyph, face.data)
            &&& face.data.subrange(
                glyph.data_offset as int,
                glyph.data_offset + glyph.width * glyph.height,
            ) == raster_pixels(raster.ascii@[nth])
        }),
{
    lemma_placed_glyph(raster.glyphs(), nth);
}

/// The face of a rasterised font has a glyph for every Mac Roman code above the ASCII range, and
/// the glyph's coverage bytes are the pixels that were drawn for it.
pub proof fn law_raster_roman_shows_its_pixels(
    font_id: i16,
    size: i16,
    raster: OutlineRaster,
    mac_code: u8,
)
    requires
        raster.complete(),
        mac_code >= 0x80,
    ensures
        roman_glyph(raster_roman(font_id, size, raster), mac_code) matches Some((glyph, data)) && {
            &&& data == raster_face(font_id, size, raster).data
            &&& glyph_in_bounds(glyph, data)
            &&& data.subrange(
                glyph.data_offset as int,
                glyph.data_offset + glyph.width * glyph.height,
            ) == raster_pixels(raster.macroman@[mac_code - 0x80])
        },
{
    let face = raster_roman(font_id, size, raster);
    lemma_roman_glyph_at(face, mac_code, 0, mac_code - 0x80);
    lemma_placed_glyph(raster.glyphs(), ASCII_GLYPHS + mac_code - 0x80);
}

/// Every face of a rasterised font has a glyph for each printable ASCII character, every pixel is
/// fully clear or fully set, and every glyph's coverage bytes are there.
pub proof fn law_raster_faces_are_drawable(font_id: i16, size: i16, raster: OutlineRaster)
    requires
        raster.complete(),
    ensures
        raster_face(font_id, size, raster).whole(),
        raster_roman(font_id, size, raster).drawable(),
{
    let face = raster_face(font_id, size, raster);
    let roman = raster_roman(font_id, size, raster);
    let glyphs = raster.glyphs();
    lemma_raster_coverage(glyphs, glyphs.len());
    assert forall|i: int| 0 <= i < face.glyphs.len() implies glyph_in_bounds(
        #[trigger] face.glyphs[i],
        face.data,
    ) by {
        lemma_placed_glyph(glyphs, i);
    }
    assert forall|i: int| 0 <= i < roman.glyphs.len() implies glyph_in_bounds(
        #[trigger] roman.glyphs[i].glyph,
        roman.data,
    ) by {
        lemma_placed_glyph(glyphs, ASCII_GLYPHS + i);
    }
}

/// No glyph of a rasterised font's face is wider than the greatest width in its metrics, and one
/// is as wide.
pub proof fn law_raster_width_is_greatest(font_id: i16, size: i16, raster: OutlineRaster)
    requires
        raster.complete(),
    ensures
        ({
            let face = raster_face(font_id, size, raster);
            let roman = raster_roman(font_id, size, raster);
            &&& face.metrics.descent >= 0 && face.metrics.leading >= 0
            &&& forall|i: int|
                0 <= i < face.glyphs.len() ==> (#[trigger] face.glyphs[i]).advance
                    <= face.metrics.wid_max
            &&& forall|i: int|
                0 <= i < roman.glyphs.len() ==> (#[trigger] roman.glyphs[i]).glyph.advance
                    <= face.metrics.wid_max
            &&& {
                ||| exists|i: int|
                    0 <= i < face.glyphs.len() && (#[trigger] face.glyphs[i]).advance
                        == face.metrics.wid_max
                ||| exists|i: int|
                    0 <= i < roman.glyphs.len() && (#[trigger] roman.glyphs[i]).glyph.advance
                        == face.metrics.wid_max
            }
        }),
{
    let glyphs = raster.glyphs();
    lemma_widest(glyphs, glyphs.len());
    let face = raster_face(font_id, size, raster);
    let roman = raster_roman(font_id, size, raster);
    assert forall|i: int| 0 <= i < face.glyphs.len() implies (
    #[trigger] face.glyphs[i]).advance <= face.metrics.wid_max by {
        assert(clamp_u8(glyphs[i].advance as int) <= face.metrics.wid_max);
    }
    assert forall|i: int| 0 <= i < roman.glyphs.len() implies (
    #[trigger] roman.glyphs[i]).glyph.advance <= face.metrics.wid_max by {
        assert(clamp_u8(glyphs[ASCII_GLYPHS + i].advance as int) <= face.metrics.wid_max);
    }
    let at = lemma_widest_attained(glyphs, glyphs.len());
    if at < ASCII_GLYPHS {
        assert(face.glyphs[at].advance == face.metrics.wid_max);
    } else {
        assert(roman.glyphs[at - ASCII_GLYPHS].glyph.advance == face.metrics.wid_max);
    }
}

proof fn lemma_widest_attained(glyphs: Seq<RasterGlyph>, count: nat) -> (at: int)
    requires
        0 < count <= glyphs.len(),
    ensures
        0 <= at < count,
        clamp_u8(glyphs[at].advance as int) == widest(glyphs, count),
    decreases count,
{
    let last = clamp_u8(glyphs[count - 1].advance as int);
    if count == 1 || last > widest(glyphs, (count - 1) as nat) {
        reveal_with_fuel(widest, 2);
        count - 1
    } else {
        lemma_widest_attained(glyphs, (count - 1) as nat)
    }
}

proof fn lemma_widest(glyphs: Seq<RasterGlyph>, count: nat)
    requires
        count <= glyphs.len(),
    ensures
        forall|i: int|
            0 <= i < count ==> clamp_u8((#[trigger] glyphs[i]).advance as int) <= widest(
                glyphs,
                count,
            ),
    decreases count,
{
    if count > 0 {
        lemma_widest(glyphs, (count - 1) as nat);
    }
}

/// The glyph that was drawn for character number `nth`: the printable ASCII characters, then the
/// Mac Roman codes above them.
pub open spec fn drawn_glyph(raster: OutlineRaster, nth: int) -> RasterGlyph {
    if nth < 95 {
        raster.ascii@[nth]
    } else {
        raster.macroman@[nth - 95]
    }
}

/// The glyph that the face has for character number `nth`.
pub open spec fn filed_glyph(raster: OutlineRaster, font_id: i16, size: i16, nth: int) -> Glyph {
    if nth < 95 {
        raster_face(font_id, size, raster).glyphs[nth]
    } else {
        raster_roman(font_id, size, raster).glyphs[nth - 95].glyph
    }
}

/// `held` is `value`, or, if that is not from `least` to `most`, the nearer of the two.
pub open spec fn is_held_within(held: int, value: int, least: int, most: int) -> bool {
    &&& least <= held <= most
    &&& least <= value <= most ==> held == value
    &&& value < least ==> held == least
    &&& value > most ==> held == most
}

/// A glyph of the face has the box that was drawn for it, where it was drawn, and its advance: the
/// box's top left corner is at the least x and y of the outline, whatever its width and height. A
/// number that a byte cannot hold becomes the nearest that it can hold. A glyph without an outline
/// has no box. The glyphs of both lists stand under their own codes.
pub proof fn law_raster_glyphs_keep_their_boxes(
    font_id: i16,
    size: i16,
    raster: OutlineRaster,
    nth: int,
)
    requires
        raster.complete(),
        0 <= nth < 223,
    ensures
        raster_face(font_id, size, raster).glyphs.len() == 95,
        raster_roman(font_id, size, raster).glyphs.len() == 128,
        nth >= 95 ==> raster_roman(font_id, size, raster).glyphs[nth - 95].mac_code == 128 + nth
            - 95,
        ({
            let drawn = drawn_glyph(raster, nth);
            let glyph = filed_glyph(raster, font_id, size, nth);
            &&& is_held_within(glyph.advance as int, drawn.advance as int, 0, 255)
            &&& drawn.outline matches Some(outline) ==> {
                &&& is_held_within(glyph.origin_x as int, outline.min_x as int, -128, 127)
                &&& is_held_within(glyph.origin_y as int, outline.min_y as int, -128, 127)
                &&& is_held_within(glyph.width as int, outline.width as int, 0, 255)
                &&& is_held_within(glyph.height as int, outline.height as int, 0, 255)
            }
            &&& drawn.outline is None ==> glyph.width == 0 && glyph.height == 0 && glyph.origin_x
                == 0 && glyph.origin_y == 0
        }),
{
}

/// The coverage bytes of the characters follow one another without gap or overlap: the first
/// starts at the beginning, each starts where the one before it ends, and the last ends at the
/// end. Both lists share them.
pub proof fn law_raster_boxes_follow_one_another(
    font_id: i16,
    size: i16,
    raster: OutlineRaster,
    nth: int,
)
    requires
        raster.complete(),
        0 <= nth < 223,
    ensures
        ({
            let data = raster_face(font_id, size, raster).data;
            let glyph = filed_glyph(raster, font_id, size, nth);
            let end = glyph.data_offset + glyph.width * glyph.height;
            &&& raster_roman(font_id, size, raster).data == data
            &&& nth == 0 ==> glyph.data_offset == 0
            &&& nth < 222 ==> filed_glyph(raster, font_id, size, nth + 1).data_offset == end
            &&& nth == 222 ==> data.len() == end
        }),
{
    let glyphs = raster.glyphs();
    lemma_placed_glyph(glyphs, nth);
    lemma_raster_coverage(glyphs, nth as nat);
    lemma_raster_coverage(glyphs, (nth + 1) as nat);
    let glyph = placed_glyph(glyphs, nth);
    let before = raster_coverage(glyphs, nth as nat);
    assert(raster_coverage(glyphs, (nth + 1) as nat) == before + raster_pixels(glyphs[nth]));
    assert(glyph.width * glyph.height == raster_pixels(glyphs[nth]).len());
}

/// A place in a box is fully set if the last pixel that was drawn there is covered by at least 64
/// of 255 parts. It is fully clear if that pixel is covered by less, or if none was drawn there.
/// Pixels are placed row by row, from the top left corner on.
pub proof fn law_raster_boxes_show_what_was_drawn(
    font_id: i16,
    size: i16,
    raster: OutlineRaster,
    nth: int,
    place: int,
)
    requires
        raster.complete(),
        0 <= nth < 223,
        drawn_glyph(raster, nth).outline is Some,
        0 <= place < filed_glyph(raster, font_id, size, nth).width * filed_glyph(
            raster,
            font_id,
            size,
            nth,
        ).height,
    ensures
        ({
            let glyph = filed_glyph(raster, font_id, size, nth);
            let pixels = drawn_glyph(raster, nth).outline->0.pixels@;
            let shown = raster_face(font_id, size, raster).data[glyph.data_offset + place];
            let width = glyph.width as int;
            &&& forall|last: int|
                0 <= last < pixels.len() && (#[trigger] pixels[last]).y * width + pixels[last].x
                    == place && (forall|later: int|
                    last < later < pixels.len() ==> (#[trigger] pixels[later]).y * width
                        + pixels[later].x != place) ==> shown == (if pixels[last].value >= 64 {
                    255int
                } else {
                    0
                })
            &&& (forall|any: int|
                0 <= any < pixels.len() ==> (#[trigger] pixels[any]).y * width + pixels[any].x
                    != place) ==> shown == 0
        }),
{
    let glyphs = raster.glyphs();
    let glyph = filed_glyph(raster, font_id, size, nth);
    let outline = drawn_glyph(raster, nth).outline->0;
    let pixels = outline.pixels@;
    let width = glyph.width as int;
    let data = raster_face(font_id, size, raster).data;
    assert(glyphs[nth] == drawn_glyph(raster, nth));
    lemma_placed_glyph(glyphs, nth);
    lemma_painted_len(outline, pixels.len());
    let block = raster_pixels(glyphs[nth]);
    assert(data.subrange(
        glyph.data_offset as int,
        glyph.data_offset + glyph.width * glyph.height,
    )[place] == data[glyph.data_offset + place]);
    assert forall|last: int|
        0 <= last < pixels.len() && (#[trigger] pixels[last]).y * width + pixels[last].x == place
            && (forall|later: int|
            last < later < pixels.len() ==> (#[trigger] pixels[later]).y * width + pixels[later].x
                != place) implies block[place] == (if pixels[last].value >= 64 {
        255int
    } else {
        0
    }) by {
        assert forall|later: int|
            last < later < pixels.len() implies #[trigger] pixel_place(outline, later)
            != pixel_place(outline, last) by {
            assert(pixels[later].y * width + pixels[later].x != place);
        }
        law_pixels_are_drawn(outline, last, pixels.len());
    }
    if forall|any: int|
        0 <= any < pixels.len() ==> (#[trigger] pixels[any]).y * width + pixels[any].x != place {
        assert forall|any: int| 0 <= any < pixels.len() implies #[trigger] pixel_place(outline, any)
            != place by {
            assert(pixels[any].y * width + pixels[any].x != place);
        }
        lemma_never_drawn(outline, pixels.len(), place);
    }
}

proof fn lemma_never_drawn(outline: RasterOutline, count: nat, place: int)
    requires
        count <= outline.pixels@.len(),
        0 <= place < clamp_u8(outline.width as int) * clamp_u8(outline.height as int),
        forall|any: int| 0 <= any < count ==> #[trigger] pixel_place(outline, any) != place,
    ensures
        painted(outline, count)[place] == 0,
    decreases count,
{
    if count > 0 {
        lemma_never_drawn(outline, (count - 1) as nat, place);
        lemma_painted_len(outline, (count - 1) as nat);
        lemma_place(outline, count - 1);
        assert(pixel_place(outline, count - 1) != place);
    }
}

/// The face of a rasterised font bears the family and the size that were asked for, and the
/// metrics of the rasterised font. A descent or leading below zero counts as zero.
pub proof fn law_raster_metrics_are_kept(font_id: i16, size: i16, raster: OutlineRaster)
    ensures
        ({
            let face = raster_face(font_id, size, raster);
            let roman = raster_roman(font_id, size, raster);
            &&& face.font_id == font_id && face.size == size
            &&& roman.font_id == font_id && roman.size == size
            &&& face.metrics.ascent == raster.ascent
            &&& is_held_within(face.metrics.descent as int, raster.descent as int, 0, 32767)
            &&& is_held_within(face.metrics.leading as int, raster.leading as int, 0, 32767)
        }),
{
}

} // verus!
