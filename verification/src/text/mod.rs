//! Text: attributes, grapheme-aware buffer lines and visual lines.
pub mod attrs;
pub mod buffer_line;
pub mod document;
pub mod lines;
pub mod styles;
pub mod visual;

pub use attrs::Attrs;
pub use buffer_line::BufferLine;
pub use document::{Text, TextWrap};
pub use visual::{StyleSpan, StyledUnit, VisualGrapheme};
