//! Drawing: from geometries to shapes on a canvas.

use vstd::prelude::*;
use crate::canvas::{
    blue, green, lemma_extended_by_nothing, lemma_extended_twice, white, yellow, Canvas,
    CanvasView, Pixel, Shape, ShapeStyle, ShapeView,
};
use crate::geometry::{Feature, GeoJson, Geometry, GeometryKind, Position};
use crate::transform::{transform, transformed};

verus! {

/// Width of the canvas that a document is rendered on, in pixels.
pub const CANVAS_WIDTH: u32 = 1024;

/// Height of the canvas that a document is rendered on, in pixels.
pub const CANVAS_HEIGHT: u32 = 768;

/// Radius of the circle that marks a point, in pixels.
pub const POINT_RADIUS: u32 = 5;

/// Polygons are filled in green at a tenth of full opacity.
#[verifier::allow_in_spec]
pub fn polygon_style() -> ShapeStyle
    returns
        (ShapeStyle { color: green().with_opacity(10), filled: true, stroke_width: 1 }),
{
    ShapeStyle { color: green().with_opacity(10), filled: true, stroke_width: 1 }
}

/// Points are filled in yellow.
#[verifier::allow_in_spec]
pub fn point_style() -> ShapeStyle
    returns
        (ShapeStyle { color: yellow(), filled: true, stroke_width: 1 }),
{
    ShapeStyle { color: yellow(), filled: true, stroke_width: 1 }
}

/// Lines are stroked in blue.
#[verifier::allow_in_spec]
pub fn line_style() -> ShapeStyle
    returns
        (ShapeStyle { color: blue(), filled: false, stroke_width: 1 }),
{
    ShapeStyle { color: blue(), filled: false, stroke_width: 1 }
}

/// A position can be drawn when it has a longitude and a latitude.
pub open spec fn has_pixel(position: Seq<u64>) -> bool {
    position.len() >= 2
}

/// Whether every position of the sequence can be drawn.
pub open spec fn all_have_pixels(positions: Seq<Position>) -> bool {
    forall|i: int| 0 <= i < positions.len() ==> has_pixel(#[trigger] positions[i]@)
}

/// The pixel of a position: the transform of its first two coordinates.
pub open spec fn pixel_of(position: Seq<u64>) -> Pixel {
    let pixel = transformed(position[0], position[1]);
    (pixel.0 as i32, pixel.1 as i32)
}

/// The pixels of the positions, in order.
pub open spec fn pixels_of(positions: Seq<Position>) -> Seq<Pixel> {
    Seq::new(positions.len(), |i: int| pixel_of(positions[i]@))
}

/// The circle painted for a point.
pub open spec fn point_shape(position: Seq<u64>) -> ShapeView {
    ShapeView::Circle { center: pixel_of(position), radius: POINT_RADIUS, style: point_style() }
}

/// The path painted for a line string.
pub open spec fn line_shape(positions: Seq<Position>) -> ShapeView {
    ShapeView::Path { points: pixels_of(positions), style: line_style() }
}

/// A polygon can be drawn when it has an outer ring whose positions can.
pub open spec fn polygon_drawable(rings: Seq<Vec<Position>>) -> bool {
    rings.len() >= 1 && all_have_pixels(rings[0]@)
}

/// The shape painted for a polygon: its outer ring, whatever holes follow.
pub open spec fn polygon_shape(rings: Seq<Vec<Position>>) -> ShapeView {
    ShapeView::Polygon { points: pixels_of(rings[0]@), style: polygon_style() }
}

/// The circles painted for the points of a multi-point, in order.
pub open spec fn point_shapes(points: Seq<Position>) -> Seq<ShapeView> {
    Seq::new(points.len(), |i: int| point_shape(points[i]@))
}

/// Whether every line string of the sequence can be drawn.
pub open spec fn all_lines_drawable(lines: Seq<Vec<Position>>) -> bool {
    forall|i: int| 0 <= i < lines.len() ==> all_have_pixels(#[trigger] lines[i]@)
}

/// The paths painted for the members of a multi-line-string, in order.
pub open spec fn line_shapes(lines: Seq<Vec<Position>>) -> Seq<ShapeView> {
    Seq::new(lines.len(), |i: int| line_shape(lines[i]@))
}

/// Whether every polygon of the sequence can be drawn.
pub open spec fn all_polygons_drawable(polygons: Seq<Vec<Vec<Position>>>) -> bool {
    forall|i: int| 0 <= i < polygons.len() ==> polygon_drawable(#[trigger] polygons[i]@)
}

/// The shapes painted for the members of a multi-polygon, in order.
pub open spec fn polygon_shapes(polygons: Seq<Vec<Vec<Position>>>) -> Seq<ShapeView> {
    Seq::new(polygons.len(), |i: int| polygon_shape(polygons[i]@))
}

/// Whether the geometry can be drawn: every position that drawing reads has
/// its two coordinates, and every polygon its outer ring.
pub open spec fn geometry_drawable(geometry: Geometry) -> bool
    decreases geometry,
{
    match geometry {
        Geometry::Point(position) => has_pixel(position@),
        Geometry::MultiPoint(points) => all_have_pixels(points@),
        Geometry::LineString(positions) => all_have_pixels(positions@),
        Geometry::MultiLineString(lines) => all_lines_drawable(lines@),
        Geometry::Polygon(rings) => polygon_drawable(rings@),
        Geometry::MultiPolygon(polygons) => all_polygons_drawable(polygons@),
        Geometry::GeometryCollection(members) => forall|i: int|
            0 <= i < members.len() ==> geometry_drawable(#[trigger] members[i]),
        Geometry::Unsupported => true,
    }
}

/// The shapes painted for a geometry, in the order in which they are
/// painted: a collection gives the shapes of its members, each member
/// finished before the next begins.
pub open spec fn geometry_shapes(geometry: Geometry) -> Seq<ShapeView>
    decreases geometry, 0nat,
{
    match geometry {
        Geometry::Point(position) => seq![point_shape(position@)],
        Geometry::MultiPoint(points) => point_shapes(points@),
        Geometry::LineString(positions) => seq![line_shape(positions@)],
        Geometry::MultiLineString(lines) => line_shapes(lines@),
        Geometry::Polygon(rings) => seq![polygon_shape(rings@)],
        Geometry::MultiPolygon(polygons) => polygon_shapes(polygons@),
        Geometry::GeometryCollection(members) => shapes_of_first(members@, members@.len()),
        Geometry::Unsupported => Seq::empty(),
    }
}

/// The shapes painted for the first `count` geometries of a sequence, each
/// geometry finished before the next begins.
pub open spec fn shapes_of_first(geometries: Seq<Geometry>, count: nat) -> Seq<ShapeView>
    decreases geometries, count,
{
    if count == 0 || count > geometries.len() {
        Seq::empty()
    } else {
        shapes_of_first(geometries, (count - 1) as nat) + geometry_shapes(geometries[count - 1])
    }
}

/// The kinds of the geometries matched while a geometry is drawn, in order:
/// its own, and for a collection those of its members after it.
pub open spec fn geometry_kinds(geometry: Geometry) -> Seq<GeometryKind>
    decreases geometry, 0nat,
{
    match geometry {
        Geometry::GeometryCollection(members) => seq![GeometryKind::GeometryCollection]
            + kinds_of_first(members@, members@.len()),
        _ => seq![geometry.kind_of()],
    }
}

/// The kinds matched while the first `count` geometries of a sequence are
/// drawn.
pub open spec fn kinds_of_first(geometries: Seq<Geometry>, count: nat) -> Seq<GeometryKind>
    decreases geometries, count,
{
    if count == 0 || count > geometries.len() {
        Seq::empty()
    } else {
        kinds_of_first(geometries, (count - 1) as nat) + geometry_kinds(geometries[count - 1])
    }
}

/// Whether the feature can be drawn; one without a geometry can.
pub open spec fn feature_drawable(feature: Feature) -> bool {
    match feature.geometry {
        Some(geometry) => geometry_drawable(geometry),
        None => true,
    }
}

/// The shapes painted for a feature: those of its geometry, if it has one.
pub open spec fn feature_shapes(feature: Feature) -> Seq<ShapeView> {
    match feature.geometry {
        Some(geometry) => geometry_shapes(geometry),
        None => Seq::empty(),
    }
}

/// The kinds matched while a feature is drawn.
pub open spec fn feature_kinds(feature: Feature) -> Seq<GeometryKind> {
    match feature.geometry {
        Some(geometry) => geometry_kinds(geometry),
        None => Seq::empty(),
    }
}

/// The shapes painted for the first `count` features of a collection.
pub open spec fn features_shapes(features: Seq<Feature>, count: nat) -> Seq<ShapeView>
    decreases count,
{
    if count == 0 || count > features.len() {
        Seq::empty()
    } else {
        features_shapes(features, (count - 1) as nat) + feature_shapes(features[count - 1])
    }
}

/// The kinds matched while the first `count` features of a collection are
/// drawn.
pub open spec fn features_kinds(features: Seq<Feature>, count: nat) -> Seq<GeometryKind>
    decreases count,
{
    if count == 0 || count > features.len() {
        Seq::empty()
    } else {
        features_kinds(features, (count - 1) as nat) + feature_kinds(features[count - 1])
    }
}

/// Whether every geometry of the document can be drawn.
pub open spec fn document_drawable(document: GeoJson) -> bool {
    match document {
        GeoJson::Geometry(geometry) => geometry_drawable(geometry),
        GeoJson::Feature(feature) => feature_drawable(feature),
        GeoJson::FeatureCollection(features) => forall|i: int|
            0 <= i < features.len() ==> feature_drawable(#[trigger] features[i]),
    }
}

/// The shapes painted for a document, in the order in which they are
/// painted.
pub open spec fn document_shapes(document: GeoJson) -> Seq<ShapeView> {
    match document {
        GeoJson::Geometry(geometry) => geometry_shapes(geometry),
        GeoJson::Feature(feature) => feature_shapes(feature),
        GeoJson::FeatureCollection(features) => features_shapes(features@, features@.len()),
    }
}

/// The kinds of the geometries matched while a document is drawn, in order.
pub open spec fn document_kinds(document: GeoJson) -> Seq<GeometryKind> {
    match document {
        GeoJson::Geometry(geometry) => geometry_kinds(geometry),
        GeoJson::Feature(feature) => feature_kinds(feature),
        GeoJson::FeatureCollection(features) => features_kinds(features@, features@.len()),
    }
}

/// A polygon paints one shape, whatever holes it has: the filled shape
/// through the pixels of its outer ring.
pub proof fn lemma_polygon_paints_outer_ring(rings: Vec<Vec<Position>>)
    ensures
        geometry_shapes(Geometry::Polygon(rings)) == seq![
            ShapeView::Polygon { points: pixels_of(rings@[0]@), style: polygon_style() },
        ],
        pixels_of(rings@[0]@).len() == rings@[0]@.len(),
        polygon_style().filled,
{
}

/// A multi-point paints one circle for each of its positions, in order, each
/// of the fixed radius.
pub proof fn lemma_multipoint_paints_circles(points: Vec<Position>)
    ensures
        geometry_shapes(Geometry::MultiPoint(points)).len() == points@.len(),
        forall|i: int|
            0 <= i < points@.len() ==> #[trigger] geometry_shapes(Geometry::MultiPoint(points))[i]
                == (ShapeView::Circle {
                center: pixel_of(points@[i]@),
                radius: POINT_RADIUS,
                style: point_style(),
            }),
{
}

/// A collection without features can be drawn, and paints and matches
/// nothing.
pub proof fn lemma_empty_collection_paints_nothing(features: Vec<Feature>)
    requires
        features@.len() == 0,
    ensures
        document_drawable(GeoJson::FeatureCollection(features)),
        document_shapes(GeoJson::FeatureCollection(features)) == Seq::<ShapeView>::empty(),
        document_kinds(GeoJson::FeatureCollection(features)) == Seq::<GeometryKind>::empty(),
{
}

/// Maps each position to its pixel.
fn to_pixels(positions: &Vec<Position>) -> (pixels: Vec<Pixel>)
    requires
        all_have_pixels(positions@),
    ensures
        pixels@ == pixels_of(positions@),
{
    let mut pixels: Vec<Pixel> = Vec::new();
    let mut i: usize = 0;
    while i < positions.len()
        invariant
            i <= positions.len(),
            all_have_pixels(positions@),
            pixels@ == pixels_of(positions@).take(i as int),
        decreases positions.len() - i,
    {
        let position = &positions[i];
        assert(has_pixel(positions@[i as int]@));
        pixels.push(transform(position[0], position[1]));
        i = i + 1;
    }
    pixels
}

/// Paints the outer ring of a polygon as a filled shape.
pub fn draw_polygon(coordinates: &Vec<Vec<Position>>, canvas: &mut Canvas)
    requires
        polygon_drawable(coordinates@),
    ensures
        final(canvas)@ == old(canvas)@.extended(seq![polygon_shape(coordinates@)]),
{
    let points = to_pixels(&coordinates[0]);
    canvas.draw(Shape::Polygon { points, style: polygon_style() });
}

/// Paints a point as a small filled circle.
pub fn draw_point(coordinates: &Position, canvas: &mut Canvas)
    requires
        has_pixel(coordinates@),
    ensures
        final(canvas)@ == old(canvas)@.extended(seq![point_shape(coordinates@)]),
{
    let center = transform(coordinates[0], coordinates[1]);
    canvas.draw(Shape::Circle { center, radius: POINT_RADIUS, style: point_style() });
}

/// Paints a line string as an open path through its positions.
pub fn draw_linestring(coordinates: &Vec<Position>, canvas: &mut Canvas)
    requires
        all_have_pixels(coordinates@),
    ensures
        final(canvas)@ == old(canvas)@.extended(seq![line_shape(coordinates@)]),
{
    let points = to_pixels(coordinates);
    canvas.draw(Shape::Path { points, style: line_style() });
}

/// Draws a geometry: paints its shapes on `canvas`, and adds to `matched` the
/// kind of every geometry met on the way, a collection before its members.
#[verifier::loop_isolation(false)]
pub fn match_geometry(geom: &Geometry, canvas: &mut Canvas, matched: &mut Vec<GeometryKind>)
    requires
        geometry_drawable(*geom),
    ensures
        final(canvas)@ == old(canvas)@.extended(geometry_shapes(*geom)),
        final(matched)@ == old(matched)@ + geometry_kinds(*geom),
    decreases geom,
{
    let ghost before = canvas@;
    let ghost seen = matched@;
    matched.push(geom.kind());
    assert(matched@ =~= seen + seq![geom.kind_of()]);
    match geom {
        Geometry::Polygon(coordinates) => {
            draw_polygon(coordinates, canvas);
        },
        Geometry::MultiPolygon(coordinates) => {
            let mut i: usize = 0;
            proof {
                lemma_extended_by_nothing(before);
                assert(polygon_shapes(coordinates@).take(0) =~= Seq::empty());
            }
            while i < coordinates.len()
                invariant
                    i <= coordinates.len(),
                    canvas@ == before.extended(polygon_shapes(coordinates@).take(i as int)),
                decreases coordinates.len() - i,
            {
                let ghost painted = polygon_shapes(coordinates@).take(i as int);
                assert(polygon_drawable(coordinates@[i as int]@));
                draw_polygon(&coordinates[i], canvas);
                proof {
                    lemma_extended_twice(before, painted, seq![polygon_shape(coordinates@[i as int]@)]);
                    assert(painted + seq![polygon_shape(coordinates@[i as int]@)]
                        =~= polygon_shapes(coordinates@).take(i + 1));
                }
                i = i + 1;
            }
            assert(polygon_shapes(coordinates@).take(i as int) =~= polygon_shapes(coordinates@));
        },
        Geometry::GeometryCollection(gc) => {
            let mut i: usize = 0;
            proof {
                lemma_extended_by_nothing(before);
                assert(seen + seq![GeometryKind::GeometryCollection] + kinds_of_first(gc@, 0) =~= seen
                    + seq![GeometryKind::GeometryCollection]);
            }
            while i < gc.len()
                invariant
                    i <= gc.len(),
                    canvas@ == before.extended(shapes_of_first(gc@, i as nat)),
                    matched@ == seen + seq![GeometryKind::GeometryCollection] + kinds_of_first(
                        gc@,
                        i as nat,
                    ),
                decreases gc.len() - i,
            {
                let ghost painted = shapes_of_first(gc@, i as nat);
                let ghost met = matched@;
                match_geometry(&gc[i], canvas, matched);
                proof {
                    lemma_extended_twice(before, painted, geometry_shapes(gc@[i as int]));
                    assert(met + geometry_kinds(gc@[i as int]) =~= seen
                        + seq![GeometryKind::GeometryCollection] + kinds_of_first(
                        gc@,
                        (i + 1) as nat,
                    ));
                }
                i = i + 1;
            }
            assert(matched@ =~= seen + geometry_kinds(*geom));
        },
        Geometry::Point(coordinates) => {
            draw_point(coordinates, canvas);
        },
        Geometry::MultiPoint(coordinates) => {
            let mut i: usize = 0;
            proof {
                lemma_extended_by_nothing(before);
                assert(point_shapes(coordinates@).take(0) =~= Seq::empty());
            }
            while i < coordinates.len()
                invariant
                    i <= coordinates.len(),
                    canvas@ == before.extended(point_shapes(coordinates@).take(i as int)),
                decreases coordinates.len() - i,
            {
                let ghost painted = point_shapes(coordinates@).take(i as int);
                assert(has_pixel(coordinates@[i as int]@));
                draw_point(&coordinates[i], canvas);
                proof {
                    lemma_extended_twice(before, painted, seq![point_shape(coordinates@[i as int]@)]);
                    assert(painted + seq![point_shape(coordinates@[i as int]@)] =~= point_shapes(
                        coordinates@,
                    ).take(i + 1));
                }
                i = i + 1;
            }
            assert(point_shapes(coordinates@).take(i as int) =~= point_shapes(coordinates@));
        },
        Geometry::LineString(coordinates) => {
            draw_linestring(coordinates, canvas);
        },
        Geometry::MultiLineString(coordinates) => {
            let mut i: usize = 0;
            proof {
                lemma_extended_by_nothing(before);
                assert(line_shapes(coordinates@).take(0) =~= Seq::empty());
            }
            while i < coordinates.len()
                invariant
                    i <= coordinates.len(),
                    canvas@ == before.extended(line_shapes(coordinates@).take(i as int)),
                decreases coordinates.len() - i,
            {
                let ghost painted = line_shapes(coordinates@).take(i as int);
                assert(all_have_pixels(coordinates@[i as int]@));
                draw_linestring(&coordinates[i], canvas);
                proof {
                    lemma_extended_twice(before, painted, seq![line_shape(coordinates@[i as int]@)]);
                    assert(painted + seq![line_shape(coordinates@[i as int]@)] =~= line_shapes(
                        coordinates@,
                    ).take(i + 1));
                }
                i = i + 1;
            }
            assert(line_shapes(coordinates@).take(i as int) =~= line_shapes(coordinates@));
        },
        Geometry::Unsupported => {
            proof {
                lemma_extended_by_nothing(before);
            }
        },
    }
}

/// Draws a document: every geometry of it, feature by feature, in the order
/// in which the document holds them.
#[verifier::loop_isolation(false)]
pub fn process_geojson(gj: &GeoJson, canvas: &mut Canvas, matched: &mut Vec<GeometryKind>)
    requires
        document_drawable(*gj),
    ensures
        final(canvas)@ == old(canvas)@.extended(document_shapes(*gj)),
        final(matched)@ == old(matched)@ + document_kinds(*gj),
{
    let ghost before = canvas@;
    let ghost seen = matched@;
    proof {
        lemma_extended_by_nothing(before);
        assert(seen + Seq::<GeometryKind>::empty() =~= seen);
    }
    match gj {
        GeoJson::FeatureCollection(features) => {
            let mut i: usize = 0;
            while i < features.len()
                invariant
                    i <= features.len(),
                    canvas@ == before.extended(features_shapes(features@, i as nat)),
                    matched@ == seen + features_kinds(features@, i as nat),
                decreases features.len() - i,
            {
                let ghost painted = features_shapes(features@, i as nat);
                let ghost met = matched@;
                assert(feature_drawable(features@[i as int]));
                if let Some(geom) = &features[i].geometry {
                    match_geometry(geom, canvas, matched);
                }
                proof {
                    lemma_extended_by_nothing(canvas@);
                    lemma_extended_twice(before, painted, feature_shapes(features@[i as int]));
                    assert(met + feature_kinds(features@[i as int]) =~= seen + features_kinds(
                        features@,
                        (i + 1) as nat,
                    ));
                }
                i = i + 1;
            }
        },
        GeoJson::Feature(feature) => {
            if let Some(geom) = &feature.geometry {
                match_geometry(geom, canvas, matched);
            }
        },
        GeoJson::Geometry(geometry) => match_geometry(geometry, canvas, matched),
    }
}

/// Tells whether every position has its two coordinates.
fn can_draw_positions(positions: &Vec<Position>) -> (drawable: bool)
    ensures
        drawable == all_have_pixels(positions@),
{
    let mut i: usize = 0;
    while i < positions.len()
        invariant
            i <= positions.len(),
            forall|j: int| 0 <= j < i ==> has_pixel(#[trigger] positions@[j]@),
        decreases positions.len() - i,
    {
        if positions[i].len() < 2 {
            return false;
        }
        i = i + 1;
    }
    true
}

/// Tells whether a polygon has an outer ring that can be drawn.
fn can_draw_polygon(rings: &Vec<Vec<Position>>) -> (drawable: bool)
    ensures
        drawable == polygon_drawable(rings@),
{
    rings.len() >= 1 && can_draw_positions(&rings[0])
}

/// Tells whether a geometry can be drawn.
#[verifier::loop_isolation(false)]
pub fn can_draw_geometry(geom: &Geometry) -> (drawable: bool)
    ensures
        drawable == geometry_drawable(*geom),
    decreases geom,
{
    match geom {
        Geometry::Point(position) => position.len() >= 2,
        Geometry::MultiPoint(points) => can_draw_positions(points),
        Geometry::LineString(positions) => can_draw_positions(positions),
        Geometry::MultiLineString(lines) => {
            let mut i: usize = 0;
            while i < lines.len()
                invariant
                    i <= lines.len(),
                    forall|j: int| 0 <= j < i ==> all_have_pixels(#[trigger] lines@[j]@),
                decreases lines.len() - i,
            {
                if !can_draw_positions(&lines[i]) {
                    return false;
                }
                i = i + 1;
            }
            true
        },
        Geometry::Polygon(rings) => can_draw_polygon(rings),
        Geometry::MultiPolygon(polygons) => {
            let mut i: usize = 0;
            while i < polygons.len()
                invariant
                    i <= polygons.len(),
                    forall|j: int| 0 <= j < i ==> polygon_drawable(#[trigger] polygons@[j]@),
                decreases polygons.len() - i,
            {
                if !can_draw_polygon(&polygons[i]) {
                    return false;
                }
                i = i + 1;
            }
            true
        },
        Geometry::GeometryCollection(members) => {
            let mut i: usize = 0;
            while i < members.len()
                invariant
                    i <= members.len(),
                    forall|j: int| 0 <= j < i ==> geometry_drawable(#[trigger] members@[j]),
                decreases members.len() - i,
            {
                if !can_draw_geometry(&members[i]) {
                    return false;
                }
                i = i + 1;
            }
            true
        },
        Geometry::Unsupported => true,
    }
}

/// Tells whether every geometry of a document can be drawn.
#[verifier::loop_isolation(false)]
pub fn can_draw(gj: &GeoJson) -> (drawable: bool)
    ensures
        drawable == document_drawable(*gj),
{
    match gj {
        GeoJson::Geometry(geometry) => can_draw_geometry(geometry),
        GeoJson::Feature(feature) => match &feature.geometry {
            Some(geometry) => can_draw_geometry(geometry),
            None => true,
        },
        GeoJson::FeatureCollection(features) => {
            let mut i: usize = 0;
            while i < features.len()
                invariant
                    i <= features.len(),
                    forall|j: int| 0 <= j < i ==> feature_drawable(#[trigger] features@[j]),
                decreases features.len() - i,
            {
                let drawable = match &features[i].geometry {
                    Some(geometry) => can_draw_geometry(geometry),
                    None => true,
                };
                if !drawable {
                    return false;
                }
                i = i + 1;
            }
            true
        },
    }
}

/// What rendering a document gives: the canvas with its shapes, and the
/// kinds of the geometries matched, in the order in which they were met.
#[derive(Debug, PartialEq, Eq)]
pub struct Rendering {
    pub canvas: Canvas,
    pub matched: Vec<GeometryKind>,
}

/// The canvas that every rendering starts from: white, with no shape on it.
pub open spec fn blank_canvas() -> CanvasView {
    CanvasView {
        width: CANVAS_WIDTH,
        height: CANVAS_HEIGHT,
        background: white(),
        shapes: Seq::empty(),
    }
}

/// Renders a document on a blank canvas. A document that cannot be drawn
/// gives nothing at all: no canvas comes back with a part of it painted.
pub fn render(gj: &GeoJson) -> (rendering: Option<Rendering>)
    ensures
        rendering is Some <==> document_drawable(*gj),
        rendering matches Some(done) ==> {
            &&& done.canvas@ == blank_canvas().extended(document_shapes(*gj))
            &&& done.matched@ == document_kinds(*gj)
        },
{
    if !can_draw(gj) {
        return None;
    }
    let mut canvas = Canvas::new(CANVAS_WIDTH, CANVAS_HEIGHT, white());
    let mut matched: Vec<GeometryKind> = Vec::new();
    process_geojson(gj, &mut canvas, &mut matched);
    assert(matched@ =~= document_kinds(*gj));
    Some(Rendering { canvas, matched })
}

} // verus!
