// The geometric predicate itself is evaluated by the geo crate at the
// command-line front end; these tests pin down the boundary-inclusive
// intersection semantics the engine's hit inputs are built from.

use geo::{Intersects, LineString, Polygon};

fn square(x0: f64, y0: f64, x1: f64, y1: f64) -> Polygon<f64> {
    Polygon::new(
        LineString::from(vec![(x0, y0), (x1, y0), (x1, y1), (x0, y1), (x0, y0)]),
        vec![],
    )
}

#[test]
fn footprint_inside_geometry_intersects() {
    let geometry = square(0.0, 0.0, 10.0, 10.0);
    let footprint = square(4.0, 4.0, 5.0, 5.0);
    assert!(footprint.intersects(&geometry));
}

#[test]
fn footprint_outside_geometry_does_not_intersect() {
    let geometry = square(0.0, 0.0, 10.0, 10.0);
    let footprint = square(11.5, 0.0, 12.5, 1.0);
    assert!(!footprint.intersects(&geometry));
}

#[test]
fn footprint_sharing_only_an_edge_intersects() {
    let geometry = square(0.0, 0.0, 10.0, 10.0);
    let footprint = square(10.0, 4.0, 11.0, 5.0);
    assert!(footprint.intersects(&geometry));
}

#[test]
fn footprint_sharing_only_a_corner_intersects() {
    let geometry = square(0.0, 0.0, 10.0, 10.0);
    let footprint = square(10.0, 10.0, 11.0, 11.0);
    assert!(footprint.intersects(&geometry));
}

#[test]
fn footprint_straddling_the_boundary_intersects() {
    let geometry = square(0.0, 0.0, 10.0, 10.0);
    let footprint = square(9.5, 4.0, 10.5, 5.0);
    assert!(footprint.intersects(&geometry));
}
