//! Layout, styling and text-buffer core of a terminal user-interface toolkit.
//!
//! Everything in this crate is plain data plus verified algorithms: geometry, sizes and
//! offsets of nodes, style helpers, text attributes and grapheme-aware buffers, styled
//! lines and canvases, the hit map and viewport of an application, and the bounded
//! history of the console element.

mod geometry;

pub use geometry::{PartialRect, Rect};
pub mod offset;
pub mod style;
pub mod app;
pub mod node;
pub mod elements;
pub mod code;
pub mod text;
pub mod unicode;
pub mod line;
pub mod canvas;
pub mod strings;
