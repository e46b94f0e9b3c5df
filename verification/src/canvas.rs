//! The drawing surface and the shapes painted on it.
//!
//! A canvas only grows: each paint call adds one shape behind those already
//! there, and nothing is ever taken away.

use vstd::prelude::*;

verus! {

/// A colour: its red, green and blue parts, and its opacity in percent.
#[derive(Clone, Copy, Debug, PartialEq, Eq, Structural)]
pub struct Color {
    pub red: u8,
    pub green: u8,
    pub blue: u8,
    pub opacity: u8,
}

impl Color {
    /// The colour with the given parts, fully opaque.
    #[verifier::allow_in_spec]
    pub fn opaque(red: u8, green: u8, blue: u8) -> Color
        returns
            (Color { red, green, blue, opacity: 100 }),
    {
        Color { red, green, blue, opacity: 100 }
    }

    /// This colour at the given opacity, in percent.
    #[verifier::allow_in_spec]
    pub fn with_opacity(self, opacity: u8) -> Color
        returns
            (Color { opacity, ..self }),
    {
        Color { red: self.red, green: self.green, blue: self.blue, opacity }
    }
}

#[verifier::allow_in_spec]
pub fn white() -> Color
    returns
        Color::opaque(255, 255, 255),
{
    Color::opaque(255, 255, 255)
}

#[verifier::allow_in_spec]
pub fn green() -> Color
    returns
        Color::opaque(0, 255, 0),
{
    Color::opaque(0, 255, 0)
}

#[verifier::allow_in_spec]
pub fn blue() -> Color
    returns
        Color::opaque(0, 0, 255),
{
    Color::opaque(0, 0, 255)
}

#[verifier::allow_in_spec]
pub fn yellow() -> Color
    returns
        Color::opaque(255, 255, 0),
{
    Color::opaque(255, 255, 0)
}

/// How a shape is painted.
#[derive(Clone, Copy, Debug, PartialEq, Eq, Structural)]
pub struct ShapeStyle {
    pub color: Color,
    pub filled: bool,
    pub stroke_width: u32,
}

/// A pixel: its column and its row.
pub type Pixel = (i32, i32);

/// A shape in pixel space, as one paint call draws it.
#[derive(Debug, PartialEq, Eq)]
pub enum Shape {
    /// The closed shape with the given corners.
    Polygon { points: Vec<Pixel>, style: ShapeStyle },
    /// The circle around `center`.
    Circle { center: Pixel, radius: u32, style: ShapeStyle },
    /// The open path through the given points.
    Path { points: Vec<Pixel>, style: ShapeStyle },
}

/// What a [`Shape`] stands for.
pub ghost enum ShapeView {
    Polygon { points: Seq<Pixel>, style: ShapeStyle },
    Circle { center: Pixel, radius: u32, style: ShapeStyle },
    Path { points: Seq<Pixel>, style: ShapeStyle },
}

impl View for Shape {
    type V = ShapeView;

    open spec fn view(&self) -> ShapeView {
        match *self {
            Shape::Polygon { points, style } => ShapeView::Polygon { points: points@, style },
            Shape::Circle { center, radius, style } => ShapeView::Circle { center, radius, style },
            Shape::Path { points, style } => ShapeView::Path { points: points@, style },
        }
    }
}

/// A drawing surface of a fixed size, with the shapes painted on it so far.
#[derive(Debug, PartialEq, Eq)]
pub struct Canvas {
    width: u32,
    height: u32,
    background: Color,
    shapes: Vec<Shape>,
}

/// What a [`Canvas`] stands for: its size, its background, and the shapes
/// painted on it, the earliest first.
pub ghost struct CanvasView {
    pub width: u32,
    pub height: u32,
    pub background: Color,
    pub shapes: Seq<ShapeView>,
}

impl CanvasView {
    /// This canvas with the shapes of `added` painted over it, in order.
    pub open spec fn extended(self, added: Seq<ShapeView>) -> CanvasView {
        CanvasView { shapes: self.shapes + added, ..self }
    }
}

/// Painting nothing leaves a canvas as it is.
pub proof fn lemma_extended_by_nothing(canvas: CanvasView)
    ensures
        canvas.extended(Seq::empty()) == canvas,
{
    assert(canvas.shapes + Seq::<ShapeView>::empty() =~= canvas.shapes);
}

/// Painting one run of shapes and then another is painting the two runs
/// joined.
pub proof fn lemma_extended_twice(canvas: CanvasView, first: Seq<ShapeView>, second: Seq<ShapeView>)
    ensures
        canvas.extended(first).extended(second) == canvas.extended(first + second),
{
    assert((canvas.shapes + first) + second =~= canvas.shapes + (first + second));
}

impl View for Canvas {
    type V = CanvasView;

    closed spec fn view(&self) -> CanvasView {
        CanvasView {
            width: self.width,
            height: self.height,
            background: self.background,
            shapes: self.shapes@.map_values(|shape: Shape| shape@),
        }
    }
}

impl Canvas {
    /// A canvas of the given size, filled with `background`, with no shape
    /// on it.
    pub fn new(width: u32, height: u32, background: Color) -> (canvas: Canvas)
        ensures
            canvas@ == (CanvasView { width, height, background, shapes: Seq::empty() }),
    {
        let canvas = Canvas { width, height, background, shapes: Vec::new() };
        assert(canvas@.shapes =~= Seq::empty());
        canvas
    }

    /// Paints `shape` over what is on the canvas.
    pub fn draw(&mut self, shape: Shape)
        ensures
            final(self)@ == old(self)@.extended(seq![shape@]),
    {
        self.shapes.push(shape);
        assert(self@.shapes =~= old(self)@.shapes + seq![shape@]);
    }

    pub fn width(&self) -> (width: u32)
        ensures
            width == self@.width,
    {
        self.width
    }

    pub fn height(&self) -> (height: u32)
        ensures
            height == self@.height,
    {
        self.height
    }

    pub fn background(&self) -> (background: Color)
        ensures
            background == self@.background,
    {
        self.background
    }

    /// The shapes on the canvas, in the order in which they were painted.
    pub fn shapes(&self) -> (shapes: &Vec<Shape>)
        ensures
            shapes@.map_values(|shape: Shape| shape@) == self@.shapes,
    {
        &self.shapes
    }
}

} // verus!
