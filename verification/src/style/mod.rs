//! Style of a node: placement, size, padding and alignment.
pub(crate) mod alignment;
pub mod border;
pub mod node_style;
mod offset;
mod padding;
pub mod size;

pub use alignment::{Align, Justify};
pub use border::{Border, BorderStyle};
pub use node_style::Style;
pub use offset::Offset;
pub use padding::Padding;
pub use size::{Size, SizeValue};
