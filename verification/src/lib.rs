//! Bitmap fonts and the routing of classic Mac font families.
//!
//! A face is one family at one point size: metrics, and a coverage bitmap for each printable
//! ASCII character. Every pixel of a bitmap is 0 or 255. Faces come from four places. In the
//! order in which a lookup prefers them, these are a directory of overriding faces that the
//! environment names, the bitmap strikes that an application carries, the scalable fonts that it
//! carries, and the built-in faces.
//!
//! All of them are held by a [`FontStore`]. It does no input or output and no floating-point
//! arithmetic. Where a lookup needs either, it answers with what it needs, see [`Lookup`]; the
//! host does that and asks again.
//!
//! The contracts speak of what a store holds, [`store::StoreModel`], and of what a lookup yields,
//! such as [`lookup::scaled_lookup`]. What holds of the fonts as a whole is stated and proved in
//! [`laws`].
mod cache;
pub mod catalogue;
pub mod compact;
pub mod decimal;
pub mod extent;
pub mod glyph;
pub mod ids;
pub mod laws;
mod leak;
pub mod lookup;
pub mod names;
pub mod nearest;
pub mod outline;
pub mod raster;
pub mod resource;
pub mod sfnt;
pub mod special;
pub mod store;
pub mod strike;

pub use crate::catalogue::{PixelFace, PixelFonts};
pub use crate::extent::outline_parses_in_range;
pub use crate::glyph::{
    FontFace, FontMetrics, Glyph, ItalicFace, MacRomanFace, MacRomanGlyph, MONO_COVERAGE_THRESHOLD,
};
pub use crate::ids::{
    FONT_APPLICATION, FONT_ATHENS, FONT_CAIRO, FONT_CHICAGO, FONT_COURIER, FONT_GENEVA,
    FONT_HELVETICA, FONT_LONDON, FONT_LOSANGELES, FONT_MOBILE, FONT_MONACO, FONT_NEWYORK,
    FONT_PALATINO, FONT_SANFRAN, FONT_SEATTLE, FONT_SYMBOL, FONT_TIMES, FONT_TORONTO, FONT_VENICE,
};
pub use crate::lookup::{
    get_font_face, get_font_face_or_default, get_font_face_scale_ratio, get_font_face_scaled,
    get_font_face_with_overrides, Lookup,
};
pub use crate::names::{font_id_for_name, font_name_for_id, font_names};
pub use crate::outline::OutlineRequest;
pub use crate::raster::{OutlineRaster, RasterGlyph, RasterOutline, RasterPixel};
pub use crate::resource::{parse_fond_associations, FondAssociation};
pub use crate::special::{get_italic_glyph, get_macroman_glyph};
pub use crate::store::{
    install_outline_face, needs_override_directory, refresh_font_overrides,
    register_resource_font_strike, register_resource_font_strike_for_family,
    register_resource_outline_font, resolve_font_overrides, FontStore, OverrideFace,
};
pub use crate::strike::strike_ascent_overflows;
