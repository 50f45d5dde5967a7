//! Verified core of an 8x8 LED dot-matrix text scroller.
//!
//! The crate covers the glyph table that turns characters into column bit
//! patterns, the compositor that flattens a string into a column stream, the
//! scrolling/animating framebuffer, the logical-to-physical coordinate
//! remapping that the display wiring demands, and the binary-string codec
//! used to author glyph patterns. Hardware access (I2C, audio, the GUI
//! editor) lives outside the library and only consumes plain values.

pub mod coord;
pub mod creator;
pub mod display;
pub mod font;
pub mod util;
