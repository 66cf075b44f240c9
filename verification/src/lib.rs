//! A character-grid drawing library for terminal applications.
//!
//! The crate models corner-anchored screen geometry, the viewport transform
//! that maps absolute terminal coordinates onto a fixed-size content buffer,
//! and the paint operations (brush, erase, bucket fill) that act on that
//! buffer. Terminal I/O stays outside; the library computes what to draw.

pub mod area;
pub mod boxes;
pub mod canvas;
pub mod input;
pub mod panel;
pub mod utils;
