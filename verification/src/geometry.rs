//! The document model: geometries, features and feature collections.
//!
//! Coordinates are binary64 numbers held by their bit patterns (what
//! `f64::to_bits` gives), so that a document is made of integers alone.

use vstd::prelude::*;

verus! {

/// A position: the encodings of its coordinates, longitude first. Only the
/// first two are read.
pub type Position = Vec<u64>;

/// A geometry of one of the kinds that a document can hold.
#[derive(Debug, PartialEq, Eq)]
pub enum Geometry {
    /// One position.
    Point(Position),
    /// Several positions, each a point of its own.
    MultiPoint(Vec<Position>),
    /// The positions of an open path, in order.
    LineString(Vec<Position>),
    /// Several line strings.
    MultiLineString(Vec<Vec<Position>>),
    /// The rings of a polygon: the outer boundary first, then the holes.
    Polygon(Vec<Vec<Position>>),
    /// Several polygons.
    MultiPolygon(Vec<Vec<Vec<Position>>>),
    /// Geometries of any kind, further collections among them.
    GeometryCollection(Vec<Geometry>),
    /// A geometry of a kind that is not drawn.
    Unsupported,
}

/// The kind of a geometry, without its coordinates.
#[derive(Clone, Copy, Debug, PartialEq, Eq, Structural)]
pub enum GeometryKind {
    Point,
    MultiPoint,
    LineString,
    MultiLineString,
    Polygon,
    MultiPolygon,
    GeometryCollection,
    Unsupported,
}

/// A feature: a geometry, if it has one. Its properties play no part in
/// drawing and are not kept.
#[derive(Debug, PartialEq, Eq)]
pub struct Feature {
    pub geometry: Option<Geometry>,
}

/// A document.
#[derive(Debug, PartialEq, Eq)]
pub enum GeoJson {
    /// A bare geometry.
    Geometry(Geometry),
    /// A single feature.
    Feature(Feature),
    /// The features of a collection, in order.
    FeatureCollection(Vec<Feature>),
}

impl Geometry {
    /// The kind of this geometry.
    pub open spec fn kind_of(self) -> GeometryKind {
        match self {
            Geometry::Point(_) => GeometryKind::Point,
            Geometry::MultiPoint(_) => GeometryKind::MultiPoint,
            Geometry::LineString(_) => GeometryKind::LineString,
            Geometry::MultiLineString(_) => GeometryKind::MultiLineString,
            Geometry::Polygon(_) => GeometryKind::Polygon,
            Geometry::MultiPolygon(_) => GeometryKind::MultiPolygon,
            Geometry::GeometryCollection(_) => GeometryKind::GeometryCollection,
            Geometry::Unsupported => GeometryKind::Unsupported,
        }
    }

    /// Tells the kind of this geometry.
    pub fn kind(&self) -> (kind: GeometryKind)
        ensures
            kind == self.kind_of(),
    {
        match self {
            Geometry::Point(_) => GeometryKind::Point,
            Geometry::MultiPoint(_) => GeometryKind::MultiPoint,
            Geometry::LineString(_) => GeometryKind::LineString,
            Geometry::MultiLineString(_) => GeometryKind::MultiLineString,
            Geometry::Polygon(_) => GeometryKind::Polygon,
            Geometry::MultiPolygon(_) => GeometryKind::MultiPolygon,
            Geometry::GeometryCollection(_) => GeometryKind::GeometryCollection,
            Geometry::Unsupported => GeometryKind::Unsupported,
        }
    }
}

impl GeometryKind {
    /// The line that reports a geometry of this kind.
    pub open spec fn message_text(self) -> Seq<char> {
        match self {
            GeometryKind::Point => "Matched a Point"@,
            GeometryKind::MultiPoint => "Matched a MultiPoint"@,
            GeometryKind::LineString => "Matched a LineString"@,
            GeometryKind::MultiLineString => "Matched a MultiLineString"@,
            GeometryKind::Polygon => "Matched a Polygon"@,
            GeometryKind::MultiPolygon => "Matched a MultiPolygon"@,
            GeometryKind::GeometryCollection => "Matched a GeometryCollection"@,
            GeometryKind::Unsupported => "Matched some other geometry"@,
        }
    }

    /// The line that reports a geometry of this kind.
    pub fn message(&self) -> (line: &'static str)
        ensures
            line@ == self.message_text(),
    {
        match self {
            GeometryKind::Point => "Matched a Point",
            GeometryKind::MultiPoint => "Matched a MultiPoint",
            GeometryKind::LineString => "Matched a LineString",
            GeometryKind::MultiLineString => "Matched a MultiLineString",
            GeometryKind::Polygon => "Matched a Polygon",
            GeometryKind::MultiPolygon => "Matched a MultiPolygon",
            GeometryKind::GeometryCollection => "Matched a GeometryCollection",
            GeometryKind::Unsupported => "Matched some other geometry",
        }
    }
}

} // verus!
