//! A software 2D rasterizer over raw RGBA pixel buffers.
//!
//! The heart of the crate is [`Bitmap`]: a fixed-size pixel surface
//! with mutable pen state (stroke and fill colour) and drawing
//! operations — bulk clears through an incremental-doubling fill,
//! Bresenham lines, barycentric triangles, clipped rectangles and
//! image blits — plus tiled sub-bitmap iteration for chunk-based
//! processing.  Every operation carries a contract describing exactly
//! which pixels it writes; coordinates may run out of bounds freely,
//! clipping always happens before indexing.
//!
//! The host hands the library a raw byte buffer and an extent once
//! per frame (see [`color::pixels_from_bytes`]), draws through the
//! [`Bitmap`] methods, and presents the mutated buffer.  Windowing,
//! input and audio live outside this crate.

pub mod bitmap;
pub mod bresenham;
pub mod buf;
pub mod canvas;
pub mod chunk;
pub mod color;
pub mod draw;
pub mod error;
pub mod fill;
pub mod math;
pub mod triangle;

pub use bitmap::Bitmap;
pub use bresenham::Bresenham;
pub use buf::{FlatPixelBuf, FlatPixelBufMut, PixelBuf, PixelBufMut};
pub use canvas::{Canvas, CanvasId};
pub use chunk::Chunk;
pub use color::Rgba;
pub use error::BitmapError;
pub use fill::incremental_fill;
pub use math::{Extent2, Vec2};
pub use triangle::{Bary, Barycentric, Triangle};
