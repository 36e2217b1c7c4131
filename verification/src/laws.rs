//! What holds of the fonts as a whole.
//!
//! Each law is a proof function over the models that the contracts speak of.
#[allow(unused_imports)]
pub mod bitmaps;
#[allow(unused_imports)]
pub mod lookups;
#[allow(unused_imports)]
pub mod names;
#[allow(unused_imports)]
pub mod outlines;
#[allow(unused_imports)]
pub mod pixels;
#[allow(unused_imports)]
pub mod rasters;
#[allow(unused_imports)]
pub mod registrations;
#[allow(unused_imports)]
pub mod routes;
#[allow(unused_imports)]
pub mod strikes;
#[allow(unused_imports)]
pub mod tables;
