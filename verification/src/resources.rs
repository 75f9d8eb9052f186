//! Colours and sizes that the simulation hands to whatever draws it.

use vstd::prelude::*;

verus! {

/// A colour as red, green, blue and opacity, one byte each, from the highest
/// byte down.
pub type Color = u32;

pub const COL_BG: Color = 0x03050AFF;

pub const COL_MARKER_HOME: Color = 0xABA3A6FF;

pub const COL_MARKER_FOOD: Color = 0xFF823DFF;

/// The width a particle is drawn with at birth.
pub const PARTICLE_SIZE: i32 = 6000;

} // verus!
