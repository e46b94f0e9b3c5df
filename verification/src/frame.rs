//! The frame laid over a finished map: a coordinate grid and a caption.

use vstd::prelude::*;

verus! {

/// The caption, centred above the map.
pub const CAPTION: &'static str = "GeoJSON Map";

/// The font family of the caption.
pub const CAPTION_FONT: &'static str = "sans-serif";

/// The size of the caption, in points.
pub const CAPTION_SIZE: u32 = 50;

/// The western end of the grid, in degrees of longitude.
pub const LONGITUDE_MIN: i32 = -180;

/// The eastern end of the grid, in degrees of longitude.
pub const LONGITUDE_MAX: i32 = 180;

/// The southern end of the grid, in degrees of latitude.
pub const LATITUDE_MIN: i32 = -90;

/// The northern end of the grid, in degrees of latitude.
pub const LATITUDE_MAX: i32 = 90;

} // verus!
