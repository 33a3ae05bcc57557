//! A verified core for a chunked 2D tile world.
//!
//! The world is a finite grid of tiles split into fixed-size chunks. The
//! library covers coordinate translation, bounded tile mutation with typed
//! failures, per-chunk dirty tracking with coalesced rebuild notification,
//! and a bounded camera (pan/zoom) in fixed-point milli-units.

pub mod camera;
pub mod chunk;
pub mod config;
pub mod coords;
pub mod errors;
pub mod layer;
pub mod notifier;
pub mod tile;
pub mod world;
