use geo::area::{get_linestring_area, Area, AreaError};
use geo::types::{Coordinate, LineString, Point, Polygon};

fn p(x: i64, y: i64) -> Point {
    Point(Coordinate { x, y })
}

#[test]
fn area_empty_polygon_test() {
    let poly = Polygon::new(LineString(Vec::new()), Vec::new());
    assert_eq!(poly.area(), Ok(0));
}

#[test]
fn area_one_point_polygon_test() {
    let poly = Polygon::new(LineString(vec![Point::new(1, 0)]), Vec::new());
    assert_eq!(poly.area(), Ok(0));
}

#[test]
fn area_polygon_test() {
    let linestring = LineString(vec![p(0, 0), p(5, 0), p(5, 6), p(0, 6), p(0, 0)]);
    let poly = Polygon::new(linestring, Vec::new());
    assert_eq!(poly.area(), Ok(30));
}

#[test]
fn area_polygon_inner_test() {
    let outer = LineString(vec![p(0, 0), p(10, 0), p(10, 10), p(0, 10), p(0, 0)]);
    let inner0 = LineString(vec![p(1, 1), p(2, 1), p(2, 2), p(1, 2), p(1, 1)]);
    let inner1 = LineString(vec![p(5, 5), p(6, 5), p(6, 6), p(5, 6), p(5, 5)]);
    let poly = Polygon::new(outer, vec![inner0, inner1]);
    assert_eq!(poly.area(), Ok(98));
}

#[test]
fn area_missing_outer_ring_test() {
    let poly = Polygon { rings: Vec::new() };
    let r = poly.area();
    assert_eq!(r, Err(AreaError::MissingOuterRing));
    assert_eq!(r.unwrap_err().message(), "missing outer ring");
}

#[test]
fn ring_area_degenerate_test() {
    assert_eq!(get_linestring_area(&LineString(Vec::new())), 0);
    assert_eq!(get_linestring_area(&LineString(vec![p(7, -3)])), 0);
}

#[test]
fn ring_area_winding_test() {
    let ccw = LineString(vec![p(0, 0), p(5, 0), p(5, 6), p(0, 6), p(0, 0)]);
    let cw = LineString(vec![p(0, 0), p(0, 6), p(5, 6), p(5, 0), p(0, 0)]);
    assert_eq!(get_linestring_area(&ccw), 30);
    assert_eq!(get_linestring_area(&cw), -30);
}

#[test]
fn ring_area_translation_test() {
    let ring = LineString(vec![p(0, 0), p(5, 0), p(5, 6), p(0, 6), p(0, 0)]);
    let moved = LineString(vec![p(7, -3), p(12, -3), p(12, 3), p(7, 3), p(7, -3)]);
    assert_eq!(get_linestring_area(&ring), get_linestring_area(&moved));
}

#[test]
fn ring_area_halves_toward_zero_test() {
    // A triangle with an odd shoelace sum (true area 1.5): halving
    // rounds toward zero with either winding.
    let tri = LineString(vec![p(0, 0), p(3, 0), p(0, 1), p(0, 0)]);
    let tri_rev = LineString(vec![p(0, 0), p(0, 1), p(3, 0), p(0, 0)]);
    assert_eq!(get_linestring_area(&tri), 1);
    assert_eq!(get_linestring_area(&tri_rev), -1);
}

#[test]
fn polygon_accessors_test() {
    let q = Point::new(2, 9);
    assert_eq!(q.x(), 2);
    assert_eq!(q.y(), 9);
    let poly = Polygon::new(LineString(vec![q]), Vec::new());
    assert_eq!(poly.rings.len(), 1);
    assert_eq!(poly.rings[0].0[0], q);
}
