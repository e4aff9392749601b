use cdt::orientation::Orientation;
use cdt::point::Point;
use cdt::predicates::{
    ccw, crossing_le, intersection_point, is_ccw, is_crossing, is_point_in_triangle,
    on_open_segment_test, point_in_triangle_closed, project_to_line, FaceLocateResult,
    FastLocate, ProjectToLine,
};

fn p(x: i64, y: i64) -> Point {
    Point::new(x, y)
}

#[test]
fn orientation_counter_clockwise_exact_value() {
    // (a - b) x (a - c) of a left turn is positive.
    assert_eq!(ccw(p(0, 0), p(2, 0), p(0, 2)), 4);
    assert_eq!(is_ccw(p(0, 0), p(2, 0), p(0, 2)), Orientation::CounterClockwise);
}

#[test]
fn orientation_clockwise() {
    assert_eq!(is_ccw(p(0, 0), p(0, 2), p(2, 0)), Orientation::Clockwise);
}

#[test]
fn orientation_collinear_is_exact() {
    assert_eq!(is_ccw(p(0, 0), p(5, 5), p(10, 10)), Orientation::Collinear);
    assert_eq!(ccw(p(0, 0), p(5, 5), p(10, 10)), 0);
}

#[test]
fn orientation_at_the_coordinate_limit() {
    let l = 100_000_000;
    assert_eq!(is_ccw(p(-l, -l), p(l, -l), p(l, l)), Orientation::CounterClockwise);
    assert_eq!(is_ccw(p(-l, -l), p(0, 0), p(l, l)), Orientation::Collinear);
}

#[test]
fn incircle_cocircular_counts_as_delaunay() {
    // The four corners of a square are cocircular: the determinant is zero.
    assert!(cdt::cdt::CDT::is_delaunay(p(0, 0), p(2, 0), p(0, 2), p(2, 2)));
    assert!(cdt::cdt::CDT::is_delaunay(p(0, 0), p(0, 2), p(2, 0), p(2, 2)));
}

#[test]
fn incircle_sign_follows_winding() {
    // With a clockwise triple an interior point drives the determinant
    // negative, which is what lets the legaliser flip.
    assert!(!cdt::cdt::CDT::is_delaunay(p(0, 0), p(0, 2), p(2, 0), p(1, 1)));
    // The counter-clockwise triple of the same triangle flips the sign.
    assert!(cdt::cdt::CDT::is_delaunay(p(0, 0), p(2, 0), p(0, 2), p(1, 1)));
}

#[test]
fn proper_crossing_of_diagonals() {
    assert!(is_crossing((p(0, 0), p(2, 2)), (p(2, 0), p(0, 2))));
}

#[test]
fn crossing_excludes_shared_endpoints() {
    assert!(!is_crossing((p(0, 0), p(2, 2)), (p(2, 2), p(4, 0))));
}

#[test]
fn crossing_excludes_touching() {
    // One segment ends on the interior of the other: no proper crossing.
    assert!(!is_crossing((p(0, 0), p(4, 0)), (p(2, 0), p(2, 3))));
}

#[test]
fn crossing_excludes_parallel() {
    assert!(!is_crossing((p(0, 0), p(4, 0)), (p(0, 1), p(4, 1))));
}

#[test]
fn crossing_order_along_segment() {
    let s = p(0, 0);
    let t = p(10, 0);
    let near = (p(3, -1), p(3, 1));
    let far = (p(7, -1), p(7, 1));
    assert!(crossing_le(s, t, near, far));
    assert!(!crossing_le(s, t, far, near));
    assert!(crossing_le(s, t, near, near));
}

#[test]
fn point_in_triangle_classification() {
    let a = p(0, 0);
    let b = p(10, 0);
    let c = p(0, 10);
    assert_eq!(is_point_in_triangle(&a, &b, &c, &p(2, 2)), FaceLocateResult::Face);
    assert_eq!(is_point_in_triangle(&a, &b, &c, &p(5, 0)), FaceLocateResult::Edge);
    assert_eq!(is_point_in_triangle(&a, &b, &c, &p(20, 20)), FaceLocateResult::Outside);
}

#[test]
fn closed_containment_includes_boundary() {
    let a = p(0, 0);
    let b = p(10, 0);
    let c = p(0, 10);
    assert!(point_in_triangle_closed(a, b, c, p(5, 0)));
    assert!(point_in_triangle_closed(a, b, c, p(0, 0)));
    assert!(point_in_triangle_closed(a, b, c, p(3, 3)));
    assert!(!point_in_triangle_closed(a, b, c, p(11, 0)));
    // Winding does not matter.
    assert!(point_in_triangle_closed(a, c, b, p(3, 3)));
}

#[test]
fn open_segment_membership() {
    assert!(on_open_segment_test(p(0, 0), p(4, 4), p(2, 2)));
    assert!(!on_open_segment_test(p(0, 0), p(4, 4), p(0, 0)));
    assert!(!on_open_segment_test(p(0, 0), p(4, 4), p(4, 4)));
    assert!(!on_open_segment_test(p(0, 0), p(4, 4), p(2, 3)));
    assert!(!on_open_segment_test(p(0, 0), p(4, 4), p(6, 6)));
}

#[test]
fn projection_onto_segment() {
    assert_eq!(project_to_line(p(1, 1), p(0, 0), p(2, 0)), p(1, 0));
    // A point already on the line projects to itself.
    assert_eq!(project_to_line(p(1, 1), p(0, 0), p(2, 2)), p(1, 1));
}

#[test]
fn projection_clamps_to_the_segment() {
    assert_eq!(project_to_line(p(5, 5), p(0, 0), p(2, 0)), p(2, 0));
    assert_eq!(project_to_line(p(-5, 5), p(0, 0), p(2, 0)), p(0, 0));
}

#[test]
fn projection_of_degenerate_segment() {
    assert_eq!(project_to_line(p(7, 7), p(3, 3), p(3, 3)), p(3, 3));
}

#[test]
fn intersection_point_of_crossing_segments() {
    assert_eq!(
        intersection_point((p(0, 0), p(2, 2)), (p(2, 0), p(0, 2))),
        Some(p(1, 1))
    );
    assert_eq!(intersection_point((p(0, 0), p(2, 2)), (p(3, 0), p(3, 5))), None);
    // touching at an endpoint is not a proper crossing
    assert_eq!(intersection_point((p(0, 0), p(2, 2)), (p(2, 2), p(4, 0))), None);
}

#[test]
fn intersection_point_rounds_towards_the_start() {
    // the exact crossing is at (1, 1/3)
    assert_eq!(
        intersection_point((p(0, 0), p(3, 1)), (p(1, -5), p(1, 5))),
        Some(p(1, 0))
    );
}

#[test]
fn fast_locate_on_a_point_triangle() {
    let tri = (p(0, 0), p(10, 0), p(0, 10));
    assert!(tri.locate_point(&p(2, 2)));
    assert!(tri.locate_point(&p(5, 0)));
    assert!(!tri.locate_point(&p(20, 2)));
}

#[test]
fn project_onto_through_the_trait() {
    assert_eq!(p(1, 1).project_onto(&(p(0, 0), p(2, 0))), p(1, 0));
    assert_eq!(p(9, 9).project_onto(&(p(0, 0), p(2, 0))), p(2, 0));
}
