//! A labeled contact-sheet compositor: grid layout, label placement, glyph
//! blending and image copying on an RGB canvas, with every step specified.
pub mod grid;
pub mod layout;
pub mod numeric;
pub mod plot;
pub mod raster;
pub mod text;
