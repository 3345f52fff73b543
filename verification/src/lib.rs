//! Lines of shaped text: where their glyphs are, how they go onto a grid of columns, where they
//! break to fit a width, and a cache that keeps them from frame to frame.
//!
//! - [`geometry`] has lengths, points and sizes.
//! - [`layout`] has shaped lines and the way between text indices and x coordinates.
//! - [`snap`] moves the glyphs of a line onto a grid.
//! - [`wrap`] finds the places at which a line breaks; [`wrapped`] has the lines that come of
//!   it and the way between text indices and places in them.
//! - [`cache`] keeps lines for two frames, under the keys of [`keys`] in the tables of
//!   [`table`].
//! - [`inline_lists`] has the short lists that keys and wrapped lines hold.
//! - [`laws`] states what holds of all this together.

pub mod cache;
pub mod geometry;
pub mod inline_lists;
pub mod keys;
pub mod laws;
pub mod layout;
pub mod snap;
pub mod table;
pub mod wrap;
pub mod wrapped;
