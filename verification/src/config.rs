//! The size of the window and of the world seen through it.

use vstd::prelude::*;

verus! {

/// The window's width in pixels.
pub const REAL_W: i32 = 800;

/// The window's height in pixels.
pub const REAL_H: i32 = 600;

/// World units per pixel, in thousandths.
pub const SCALE: i32 = 200;

/// The width of the world seen through the window.
pub const W: i32 = 160000;

/// The height of the world seen through the window.
pub const H: i32 = 120000;

} // verus!
