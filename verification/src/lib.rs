//! Renders GeoJSON geometries onto a fixed-size canvas.
//!
//! A document is walked depth first; every geometry found is turned into
//! shapes in pixel space, and the shapes are recorded on a [`Canvas`] in the
//! order in which they are painted.

pub mod binary64;
pub mod canvas;
pub mod frame;
pub mod geometry;
pub mod leaves;
pub mod render;
pub mod transform;

pub use canvas::{Canvas, Color, Pixel, Shape, ShapeStyle};
pub use geometry::{Feature, GeoJson, Geometry, GeometryKind, Position};
pub use render::{
    can_draw, can_draw_geometry, draw_linestring, draw_point, draw_polygon, match_geometry,
    process_geojson, render, Rendering,
};
pub use transform::transform;
