//! Composes one wallpaper that spans every display of a virtual desktop.
//!
//! - `geometry`: rectangles, displays, and moving a configuration to the origin.
//! - `resize`: the size each source is resized to under a resize mode.
//! - `raster`: RGB pixel grids, with filling and copying.
//! - `compose`: painting each source on its display of one canvas.
//! - `arguments`: reading wallpaper arguments and output names.

pub mod arguments;
pub mod compose;
pub mod geometry;
pub mod raster;
pub mod resize;
