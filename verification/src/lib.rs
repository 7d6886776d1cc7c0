//! Multi-display wallpaper compositing engine.
//!
//! The crate models the core of a layered-surface wallpaper daemon: a region
//! algebra over display geometry, a resize engine with cover and stretch
//! policies, per-display double-buffered presentation with damage tracking,
//! a render coordinator that fans composites out to displays and groups, and
//! the rotation rules that drive multi-image render passes.

pub mod config;
pub mod display;
pub mod events;
pub mod pixmap;
pub mod random;
pub mod region;
pub mod resize;
pub mod state;
