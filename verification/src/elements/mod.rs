//! State kept by the built-in elements.
pub mod console;
pub mod drag;
pub mod input;

pub use console::{Console, Entry, History};
pub mod tabs;
