//! Conversion of CAM (Gerber/drill) output file sets to one canonical naming
//! convention, with a content-derived, visually inert aperture watermark
//! inserted into each converted Gerber file.
pub mod classify;
pub mod errors;
pub mod header;
pub mod jlc;
pub mod laws;
pub mod styles;
pub mod text;
pub mod watermark;
