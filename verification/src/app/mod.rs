//! Application-level state: hit map, viewport and focus navigation.
pub mod dispatch;
pub mod focus;
mod hitmap;
pub mod recompute;
mod viewport;

pub use focus::Navigation;
pub use hitmap::HitMap;
pub use viewport::Viewport;
