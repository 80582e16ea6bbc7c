//! Concrete geometry value types: coordinates, points, linear rings and
//! polygons. All coordinates are exact 64-bit integers, so the shoelace
//! sums computed from them are exact as well.

use vstd::prelude::*;

verus! {

/// A coordinate pair: `x` is the easting (or longitude), `y` the northing
/// (or latitude).
#[derive(Clone, Copy, PartialEq, Eq, Structural, Debug)]
pub struct Coordinate {
    pub x: i64,
    pub y: i64,
}

/// A point is a coordinate pair with no further identity; it is freely
/// copyable and immutable.
#[derive(Clone, Copy, PartialEq, Eq, Structural, Debug)]
pub struct Point(pub Coordinate);

impl Point {
    /// Builds the point `(x, y)`.
    pub fn new(x: i64, y: i64) -> (p: Point)
        ensures
            p.0.x == x,
            p.0.y == y,
    {
        Point(Coordinate { x, y })
    }

    /// The easting (longitude) of the point.
    pub fn x(&self) -> (r: i64)
        ensures
            r == self.0.x,
    {
        self.0.x
    }

    /// The northing (latitude) of the point.
    pub fn y(&self) -> (r: i64)
        ensures
            r == self.0.y,
    {
        self.0.y
    }
}

/// An ordered, possibly empty sequence of points. For area purposes a ring
/// is conceptually closed (first and last point coincide), but no closure
/// is required or checked: consecutive pairs are summed exactly as given.
pub struct LineString(pub Vec<Point>);

impl View for LineString {
    type V = Seq<Point>;

    open spec fn view(&self) -> Seq<Point> {
        self.0@
    }
}

impl LineString {
    /// The points of the ring, in ring order.
    pub fn points(&self) -> (r: &Vec<Point>)
        ensures
            r@ == self@,
    {
        &self.0
    }
}

/// One outer ring followed by zero or more hole rings. The first ring is
/// always treated as the outer boundary; every later ring is a hole. A
/// polygon with no rings at all is malformed, and taking its area fails.
pub struct Polygon {
    pub rings: Vec<LineString>,
}

impl View for Polygon {
    type V = Seq<Seq<Point>>;

    open spec fn view(&self) -> Seq<Seq<Point>> {
        self.rings@.map_values(|ls: LineString| ls@)
    }
}

impl Polygon {
    /// Builds a polygon from its outer boundary and its hole rings.
    pub fn new(exterior: LineString, interiors: Vec<LineString>) -> (p: Polygon)
        ensures
            p.rings@ == seq![exterior] + interiors@,
            p@ == seq![exterior@] + interiors@.map_values(|ls: LineString| ls@),
    {
        let ghost holes = interiors@;
        let mut rings: Vec<LineString> = Vec::new();
        rings.push(exterior);
        let mut interiors = interiors;
        rings.append(&mut interiors);
        let p = Polygon { rings };
        proof {
            assert(p.rings@ =~= seq![exterior] + holes);
            assert(p@ =~= seq![exterior@] + holes.map_values(|ls: LineString| ls@));
        }
        p
    }

    /// The rings of the polygon: the outer boundary first, then every
    /// hole, in a stable order.
    pub fn rings(&self) -> (r: &Vec<LineString>)
        ensures
            r@ == self.rings@,
    {
        &self.rings
    }
}

} // verus!
