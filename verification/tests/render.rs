use geojson_map::canvas::{blue, green, white, yellow};
use geojson_map::render::{
    line_style, point_style, polygon_style, CANVAS_HEIGHT, CANVAS_WIDTH, POINT_RADIUS,
};
use geojson_map::{
    can_draw, can_draw_geometry, draw_linestring, draw_point, draw_polygon, match_geometry,
    process_geojson, render, Canvas, Color, Feature, GeoJson, Geometry, GeometryKind, Position,
    Shape, ShapeStyle,
};

fn position(x: f64, y: f64) -> Position {
    vec![x.to_bits(), y.to_bits()]
}

fn square(corner: f64, side: f64) -> Vec<Position> {
    vec![
        position(corner, corner),
        position(corner + side, corner),
        position(corner + side, corner + side),
        position(corner, corner + side),
    ]
}

fn circle(x: i32, y: i32) -> Shape {
    Shape::Circle { center: (x, y), radius: 5, style: point_style() }
}

fn feature(geometry: Geometry) -> Feature {
    Feature { geometry: Some(geometry) }
}

fn blank() -> Canvas {
    Canvas::new(CANVAS_WIDTH, CANVAS_HEIGHT, white())
}

#[test]
fn colours_are_the_named_ones() {
    assert_eq!(white(), Color { red: 255, green: 255, blue: 255, opacity: 100 });
    assert_eq!(green(), Color { red: 0, green: 255, blue: 0, opacity: 100 });
    assert_eq!(blue(), Color { red: 0, green: 0, blue: 255, opacity: 100 });
    assert_eq!(yellow(), Color { red: 255, green: 255, blue: 0, opacity: 100 });
    assert_eq!(Color::opaque(1, 2, 3), Color { red: 1, green: 2, blue: 3, opacity: 100 });
    assert_eq!(
        Color::opaque(1, 2, 3).with_opacity(40),
        Color { red: 1, green: 2, blue: 3, opacity: 40 }
    );
}

#[test]
fn styles_are_the_fixed_ones() {
    assert_eq!(
        polygon_style(),
        ShapeStyle {
            color: Color { red: 0, green: 255, blue: 0, opacity: 10 },
            filled: true,
            stroke_width: 1
        }
    );
    assert_eq!(point_style(), ShapeStyle { color: yellow(), filled: true, stroke_width: 1 });
    assert_eq!(line_style(), ShapeStyle { color: blue(), filled: false, stroke_width: 1 });
    assert_eq!(POINT_RADIUS, 5);
}

#[test]
fn new_canvas_is_blank() {
    let canvas = Canvas::new(640, 480, green());
    assert_eq!(canvas.width(), 640);
    assert_eq!(canvas.height(), 480);
    assert_eq!(canvas.background(), green());
    assert!(canvas.shapes().is_empty());
}

#[test]
fn canvas_keeps_shapes_in_painting_order() {
    let mut canvas = blank();
    canvas.draw(circle(1, 2));
    canvas.draw(Shape::Path { points: vec![(0, 0), (3, 4)], style: line_style() });
    canvas.draw(circle(5, 6));
    assert_eq!(
        canvas.shapes(),
        &vec![
            circle(1, 2),
            Shape::Path { points: vec![(0, 0), (3, 4)], style: line_style() },
            circle(5, 6),
        ]
    );
    assert_eq!(canvas.width(), 1024);
    assert_eq!(canvas.height(), 768);
    assert_eq!(canvas.background(), white());
}

#[test]
fn point_is_a_yellow_circle_of_radius_five() {
    let mut canvas = blank();
    draw_point(&position(1.5, -1.5), &mut canvas);
    assert_eq!(
        canvas.shapes(),
        &vec![Shape::Circle {
            center: (662, 234),
            radius: 5,
            style: ShapeStyle {
                color: Color { red: 255, green: 255, blue: 0, opacity: 100 },
                filled: true,
                stroke_width: 1
            },
        }]
    );
}

#[test]
fn point_ignores_coordinates_beyond_the_second() {
    let mut canvas = blank();
    draw_point(&vec![1.0f64.to_bits(), 2.0f64.to_bits(), 9000.0f64.to_bits(), 7.0f64.to_bits()], &mut canvas);
    assert_eq!(canvas.shapes(), &vec![circle(612, 584)]);
}

#[test]
fn linestring_is_one_open_blue_path() {
    let mut canvas = blank();
    draw_linestring(&vec![position(0.0, 0.0), position(1.0, 1.0), position(2.0, 0.5)], &mut canvas);
    assert_eq!(
        canvas.shapes(),
        &vec![Shape::Path {
            points: vec![(512, 384), (612, 484), (712, 434)],
            style: ShapeStyle {
                color: Color { red: 0, green: 0, blue: 255, opacity: 100 },
                filled: false,
                stroke_width: 1
            },
        }]
    );
}

#[test]
fn empty_linestring_is_an_empty_path() {
    let mut canvas = blank();
    draw_linestring(&vec![], &mut canvas);
    assert_eq!(canvas.shapes(), &vec![Shape::Path { points: vec![], style: line_style() }]);
}

#[test]
fn polygon_of_four_corners_is_one_filled_shape() {
    let mut canvas = blank();
    draw_polygon(&vec![square(0.0, 1.0)], &mut canvas);
    assert_eq!(
        canvas.shapes(),
        &vec![Shape::Polygon {
            points: vec![(512, 384), (612, 384), (612, 484), (512, 484)],
            style: ShapeStyle {
                color: Color { red: 0, green: 255, blue: 0, opacity: 10 },
                filled: true,
                stroke_width: 1
            },
        }]
    );
}

#[test]
fn polygon_holes_are_ignored() {
    let mut with_holes = blank();
    draw_polygon(&vec![square(0.0, 1.0), square(0.25, 0.5), square(0.4, 0.1)], &mut with_holes);
    let mut without = blank();
    draw_polygon(&vec![square(0.0, 1.0)], &mut without);
    assert_eq!(with_holes.shapes().len(), 1);
    assert_eq!(with_holes, without);
}

#[test]
fn polygon_with_a_malformed_hole_can_still_be_drawn() {
    let polygon = Geometry::Polygon(vec![square(0.0, 1.0), vec![vec![0.5f64.to_bits()]]]);
    assert!(can_draw_geometry(&polygon));
    let rendering = render(&GeoJson::Geometry(polygon)).unwrap();
    assert_eq!(rendering.canvas.shapes().len(), 1);
}

#[test]
fn multipoint_paints_one_circle_for_each_position() {
    let points: Vec<Position> = (0..7).map(|i| position(i as f64, -(i as f64))).collect();
    let mut canvas = blank();
    let mut matched = Vec::new();
    match_geometry(&Geometry::MultiPoint(points), &mut canvas, &mut matched);
    assert_eq!(canvas.shapes().len(), 7);
    for (i, shape) in canvas.shapes().iter().enumerate() {
        let i = i as i32;
        assert_eq!(shape, &circle(512 + 100 * i, 384 - 100 * i));
    }
    assert_eq!(matched, vec![GeometryKind::MultiPoint]);
}

#[test]
fn empty_multipoint_paints_nothing() {
    let mut canvas = blank();
    let mut matched = Vec::new();
    match_geometry(&Geometry::MultiPoint(vec![]), &mut canvas, &mut matched);
    assert!(canvas.shapes().is_empty());
    assert_eq!(matched, vec![GeometryKind::MultiPoint]);
}

#[test]
fn multilinestring_paints_one_path_for_each_line() {
    let lines = vec![
        vec![position(0.0, 0.0), position(1.0, 0.0)],
        vec![],
        vec![position(0.0, 1.0), position(1.0, 1.0), position(2.0, 1.0)],
    ];
    let mut canvas = blank();
    let mut matched = Vec::new();
    match_geometry(&Geometry::MultiLineString(lines), &mut canvas, &mut matched);
    assert_eq!(
        canvas.shapes(),
        &vec![
            Shape::Path { points: vec![(512, 384), (612, 384)], style: line_style() },
            Shape::Path { points: vec![], style: line_style() },
            Shape::Path { points: vec![(512, 484), (612, 484), (712, 484)], style: line_style() },
        ]
    );
    assert_eq!(matched, vec![GeometryKind::MultiLineString]);
}

#[test]
fn multipolygon_paints_the_outer_ring_of_each_polygon() {
    let polygons = vec![
        vec![square(0.0, 1.0), square(0.25, 0.5)],
        vec![square(-2.0, 1.0)],
    ];
    let mut canvas = blank();
    let mut matched = Vec::new();
    match_geometry(&Geometry::MultiPolygon(polygons), &mut canvas, &mut matched);
    assert_eq!(
        canvas.shapes(),
        &vec![
            Shape::Polygon {
                points: vec![(512, 384), (612, 384), (612, 484), (512, 484)],
                style: polygon_style()
            },
            Shape::Polygon {
                points: vec![(312, 184), (412, 184), (412, 284), (312, 284)],
                style: polygon_style()
            },
        ]
    );
    assert_eq!(matched, vec![GeometryKind::MultiPolygon]);
}

#[test]
fn unsupported_geometry_is_matched_and_not_drawn() {
    let mut canvas = blank();
    let mut matched = Vec::new();
    match_geometry(&Geometry::Unsupported, &mut canvas, &mut matched);
    assert!(canvas.shapes().is_empty());
    assert_eq!(matched, vec![GeometryKind::Unsupported]);
}

#[test]
fn match_geometry_paints_over_what_is_there() {
    let mut canvas = blank();
    let mut matched = vec![GeometryKind::LineString];
    canvas.draw(circle(9, 9));
    match_geometry(&Geometry::Point(position(0.0, 0.0)), &mut canvas, &mut matched);
    assert_eq!(canvas.shapes(), &vec![circle(9, 9), circle(512, 384)]);
    assert_eq!(matched, vec![GeometryKind::LineString, GeometryKind::Point]);
}

#[test]
fn nested_collections_are_drawn_depth_first_in_order() {
    let inner = Geometry::GeometryCollection(vec![
        Geometry::Point(position(2.0, 0.0)),
        Geometry::GeometryCollection(vec![Geometry::Point(position(3.0, 0.0))]),
        Geometry::GeometryCollection(vec![]),
        Geometry::Point(position(4.0, 0.0)),
    ]);
    let outer = Geometry::GeometryCollection(vec![
        Geometry::Point(position(1.0, 0.0)),
        inner,
        Geometry::LineString(vec![position(0.0, 0.0), position(5.0, 0.0)]),
        Geometry::Point(position(6.0, 0.0)),
    ]);
    let mut canvas = blank();
    let mut matched = Vec::new();
    match_geometry(&outer, &mut canvas, &mut matched);
    assert_eq!(
        canvas.shapes(),
        &vec![
            circle(612, 384),
            circle(712, 384),
            circle(812, 384),
            circle(912, 384),
            Shape::Path { points: vec![(512, 384), (1012, 384)], style: line_style() },
            circle(1112, 384),
        ]
    );
    assert_eq!(
        matched,
        vec![
            GeometryKind::GeometryCollection,
            GeometryKind::Point,
            GeometryKind::GeometryCollection,
            GeometryKind::Point,
            GeometryKind::GeometryCollection,
            GeometryKind::Point,
            GeometryKind::GeometryCollection,
            GeometryKind::Point,
            GeometryKind::LineString,
            GeometryKind::Point,
        ]
    );
}

#[test]
fn every_leaf_is_drawn_once_in_document_order() {
    let document = GeoJson::FeatureCollection(vec![
        feature(Geometry::Point(position(0.0, 0.0))),
        Feature { geometry: None },
        feature(Geometry::GeometryCollection(vec![
            Geometry::MultiPoint(vec![position(1.0, 0.0), position(2.0, 0.0)]),
            Geometry::Polygon(vec![square(0.0, 1.0)]),
        ])),
        feature(Geometry::Unsupported),
        feature(Geometry::Point(position(3.0, 0.0))),
    ]);
    let mut canvas = blank();
    let mut matched = Vec::new();
    process_geojson(&document, &mut canvas, &mut matched);
    assert_eq!(
        canvas.shapes(),
        &vec![
            circle(512, 384),
            circle(612, 384),
            circle(712, 384),
            Shape::Polygon {
                points: vec![(512, 384), (612, 384), (612, 484), (512, 484)],
                style: polygon_style()
            },
            circle(812, 384),
        ]
    );
    assert_eq!(
        matched,
        vec![
            GeometryKind::Point,
            GeometryKind::GeometryCollection,
            GeometryKind::MultiPoint,
            GeometryKind::Polygon,
            GeometryKind::Unsupported,
            GeometryKind::Point,
        ]
    );
}

#[test]
fn single_feature_is_drawn() {
    let document = GeoJson::Feature(feature(Geometry::Point(position(-1.0, 1.0))));
    let rendering = render(&document).unwrap();
    assert_eq!(rendering.canvas.shapes(), &vec![circle(412, 484)]);
    assert_eq!(rendering.matched, vec![GeometryKind::Point]);
}

#[test]
fn feature_without_geometry_paints_nothing() {
    let rendering = render(&GeoJson::Feature(Feature { geometry: None })).unwrap();
    assert!(rendering.canvas.shapes().is_empty());
    assert!(rendering.matched.is_empty());
}

#[test]
fn bare_geometry_is_drawn() {
    let document = GeoJson::Geometry(Geometry::LineString(vec![position(0.0, 0.0)]));
    let rendering = render(&document).unwrap();
    assert_eq!(
        rendering.canvas.shapes(),
        &vec![Shape::Path { points: vec![(512, 384)], style: line_style() }]
    );
    assert_eq!(rendering.matched, vec![GeometryKind::LineString]);
}

#[test]
fn empty_feature_collection_gives_a_blank_canvas() {
    let rendering = render(&GeoJson::FeatureCollection(vec![])).unwrap();
    assert!(rendering.canvas.shapes().is_empty());
    assert!(rendering.matched.is_empty());
    assert_eq!(rendering.canvas.width(), 1024);
    assert_eq!(rendering.canvas.height(), 768);
    assert_eq!(rendering.canvas.background(), white());
    assert_eq!(rendering.canvas, blank());
}

#[test]
fn render_agrees_with_process_geojson() {
    let document = GeoJson::FeatureCollection(vec![
        feature(Geometry::MultiLineString(vec![vec![position(0.5, 0.5), position(0.75, 0.75)]])),
        feature(Geometry::MultiPolygon(vec![vec![square(1.0, 2.0)]])),
    ]);
    let mut canvas = blank();
    let mut matched = Vec::new();
    process_geojson(&document, &mut canvas, &mut matched);
    let rendering = render(&document).unwrap();
    assert_eq!(rendering.canvas, canvas);
    assert_eq!(rendering.matched, matched);
    assert_eq!(canvas.shapes().len(), 2);
}

#[test]
fn position_with_one_coordinate_cannot_be_drawn() {
    let point = Geometry::Point(vec![1.0f64.to_bits()]);
    assert!(!can_draw_geometry(&point));
    assert!(!can_draw(&GeoJson::Geometry(Geometry::Point(vec![1.0f64.to_bits()]))));
    assert_eq!(render(&GeoJson::Geometry(point)), None);
    assert_eq!(render(&GeoJson::Geometry(Geometry::Point(vec![]))), None);
}

#[test]
fn one_malformed_position_spoils_the_whole_document() {
    let document = GeoJson::FeatureCollection(vec![
        feature(Geometry::Point(position(0.0, 0.0))),
        feature(Geometry::GeometryCollection(vec![
            Geometry::Point(position(1.0, 1.0)),
            Geometry::GeometryCollection(vec![Geometry::LineString(vec![
                position(0.0, 0.0),
                vec![2.0f64.to_bits()],
            ])]),
        ])),
    ]);
    assert!(!can_draw(&document));
    assert_eq!(render(&document), None);
}

#[test]
fn malformed_members_of_every_kind_are_found() {
    let short = || vec![0.0f64.to_bits()];
    assert!(!can_draw_geometry(&Geometry::MultiPoint(vec![position(0.0, 0.0), short()])));
    assert!(!can_draw_geometry(&Geometry::LineString(vec![short()])));
    assert!(!can_draw_geometry(&Geometry::MultiLineString(vec![vec![], vec![short()]])));
    assert!(!can_draw_geometry(&Geometry::Polygon(vec![vec![position(0.0, 0.0), short()]])));
    assert!(!can_draw_geometry(&Geometry::MultiPolygon(vec![
        vec![square(0.0, 1.0)],
        vec![vec![short()]],
    ])));
    assert!(!can_draw(&GeoJson::Feature(feature(Geometry::Point(short())))));
    assert!(can_draw_geometry(&Geometry::MultiPoint(vec![])));
    assert!(can_draw_geometry(&Geometry::MultiLineString(vec![vec![]])));
    assert!(can_draw_geometry(&Geometry::MultiPolygon(vec![])));
    assert!(can_draw_geometry(&Geometry::GeometryCollection(vec![])));
    assert!(can_draw_geometry(&Geometry::Unsupported));
    assert!(can_draw(&GeoJson::Feature(Feature { geometry: None })));
}

#[test]
fn polygon_without_rings_cannot_be_drawn() {
    assert!(!can_draw_geometry(&Geometry::Polygon(vec![])));
    assert!(!can_draw_geometry(&Geometry::MultiPolygon(vec![vec![square(0.0, 1.0)], vec![]])));
    assert_eq!(render(&GeoJson::Geometry(Geometry::Polygon(vec![]))), None);
    assert!(can_draw_geometry(&Geometry::Polygon(vec![vec![]])));
}

#[test]
fn kind_of_each_geometry() {
    assert_eq!(Geometry::Point(position(0.0, 0.0)).kind(), GeometryKind::Point);
    assert_eq!(Geometry::MultiPoint(vec![]).kind(), GeometryKind::MultiPoint);
    assert_eq!(Geometry::LineString(vec![]).kind(), GeometryKind::LineString);
    assert_eq!(Geometry::MultiLineString(vec![]).kind(), GeometryKind::MultiLineString);
    assert_eq!(Geometry::Polygon(vec![]).kind(), GeometryKind::Polygon);
    assert_eq!(Geometry::MultiPolygon(vec![]).kind(), GeometryKind::MultiPolygon);
    assert_eq!(Geometry::GeometryCollection(vec![]).kind(), GeometryKind::GeometryCollection);
    assert_eq!(Geometry::Unsupported.kind(), GeometryKind::Unsupported);
}

#[test]
fn message_of_each_kind() {
    assert_eq!(GeometryKind::Polygon.message(), "Matched a Polygon");
    assert_eq!(GeometryKind::MultiPolygon.message(), "Matched a MultiPolygon");
    assert_eq!(GeometryKind::GeometryCollection.message(), "Matched a GeometryCollection");
    assert_eq!(GeometryKind::Point.message(), "Matched a Point");
    assert_eq!(GeometryKind::MultiPoint.message(), "Matched a MultiPoint");
    assert_eq!(GeometryKind::LineString.message(), "Matched a LineString");
    assert_eq!(GeometryKind::MultiLineString.message(), "Matched a MultiLineString");
    assert_eq!(GeometryKind::Unsupported.message(), "Matched some other geometry");
}
