use cdt::cdt::CDT;
use cdt::locate_result::LocateResult;
use cdt::point::Point;
use cdt::predicates::{is_point_in_triangle, FaceLocateResult};

fn p(x: i64, y: i64) -> Point {
    Point::new(x, y)
}

fn square_mesh() -> CDT {
    let mut m = CDT::new();
    m.add_vertex(p(0, 0), 0);
    m.add_vertex(p(2, 0), 0);
    m.add_vertex(p(2, 2), 0);
    m.add_vertex(p(0, 2), 0);
    assert!(m.add_face(0, 2, 1).is_some());
    assert!(m.add_face(0, 3, 2).is_some());
    m
}

#[test]
fn locate_point_inside_a_face() {
    // a side-4 square, so that an interior grid point exists
    let mut m = CDT::new();
    m.add_vertex(p(0, 0), 0);
    m.add_vertex(p(4, 0), 0);
    m.add_vertex(p(4, 4), 0);
    m.add_vertex(p(0, 4), 0);
    assert!(m.add_face(0, 2, 1).is_some());
    assert!(m.add_face(0, 3, 2).is_some());
    // strictly inside the lower triangle, away from the diagonal
    match m.locate_point(p(2, 1)) {
        LocateResult::Face(f) => {
            let fc = m.faces[f].unwrap();
            // verify by barycentric containment; the sign test wants the
            // triple counter-clockwise
            let a = m.vertices[fc.v0].position;
            let b = m.vertices[fc.v1].position;
            let c = m.vertices[fc.v2].position;
            assert_eq!(is_point_in_triangle(&a, &c, &b, &p(2, 1)), FaceLocateResult::Face);
        },
        other => panic!("expected a face hit, got {:?}", other),
    }
}

#[test]
fn locate_centre_lands_on_the_diagonal() {
    let m = square_mesh();
    // the centre of the square lies exactly on the diagonal edge
    match m.locate_point(p(1, 1)) {
        LocateResult::Edge(e) => {
            let ed = m.edges[e].as_ref().unwrap();
            assert!((ed.a == 0 && ed.b == 2) || (ed.a == 2 && ed.b == 0));
        },
        other => panic!("expected an edge hit, got {:?}", other),
    }
}

#[test]
fn locate_corner_is_a_vertex() {
    let m = square_mesh();
    assert_eq!(m.locate_point(p(2, 2)), LocateResult::Vertex(2));
    assert_eq!(m.locate_point(p(0, 0)), LocateResult::Vertex(0));
}

#[test]
fn locate_far_point_is_outside() {
    let m = square_mesh();
    assert_eq!(m.locate_point(p(50, 50)), LocateResult::Outside);
    assert_eq!(m.locate_point(p(-1, 1)), LocateResult::Outside);
}

#[test]
fn is_point_on_edge_reports_collinearity() {
    let m = square_mesh();
    let fc = m.faces[0].unwrap();
    // (1,1) lies on the diagonal's line, (3,1) on no side's line
    assert!(m.is_point_on_edge(p(1, 1), &fc));
    assert!(!m.is_point_on_edge(p(3, 1), &fc));
}

/// Two clockwise triangles over the base (0,0)-(10,0): the apex above, the
/// fourth vertex below at `below`.
fn quad_mesh(below: Point) -> CDT {
    let mut m = CDT::new();
    m.add_vertex(p(0, 0), 0);
    m.add_vertex(p(10, 0), 0);
    m.add_vertex(p(5, 10), 0);
    m.add_vertex(below, 0);
    assert!(m.add_face(0, 2, 1).is_some());
    assert!(m.add_face(0, 1, 3).is_some());
    m
}

#[test]
fn illegal_edge_is_flipped() {
    // (5,-1) lies inside the circumcircle of the upper triangle: the base
    // edge must be flipped to the (2,3) diagonal.
    let mut m = quad_mesh(p(5, -1));
    assert!(!m.is_delaunay_mesh());
    let e = m.find_live_edge(0, 1).unwrap();
    let (flips, completed) = m.flip_edges(p(5, -1), vec![e], 100);
    assert_eq!(flips, 1);
    assert!(completed);
    assert_eq!(m.find_live_edge(0, 1), None);
    assert!(m.find_live_edge(2, 3).is_some());
    assert_eq!(m.face_count(), 2);
    assert!(m.is_delaunay_mesh());
}

#[test]
fn reflex_quadrilateral_is_not_flipped() {
    // (12,-1) lies outside the circumcircle of the upper triangle and the
    // quadrilateral is reflex: the in-circle sign convention rejects the
    // flip and the mesh is untouched.
    let mut m = quad_mesh(p(12, -1));
    assert!(m.is_delaunay_mesh());
    let before_faces = m.export_faces();
    let before_vertices = m.export_vertices();
    let e = m.find_live_edge(0, 1).unwrap();
    let (flips, completed) = m.flip_edges(p(12, -1), vec![e], 100);
    assert_eq!(flips, 0);
    assert!(completed);
    assert_eq!(m.export_faces(), before_faces);
    assert_eq!(m.export_vertices(), before_vertices);
    assert!(m.find_live_edge(0, 1).is_some());
    assert_eq!(m.find_live_edge(2, 3), None);
}

#[test]
fn legalize_is_idempotent_on_a_delaunay_mesh() {
    let mut m = square_mesh();
    assert!(m.is_delaunay_mesh());
    // feed it every edge: nothing may change
    let before = m.export_faces();
    let queue: Vec<usize> = (0..m.edges.len()).collect();
    let (flips, completed) = m.flip_edges(p(1, 1), queue, 1000);
    assert_eq!(flips, 0);
    assert!(completed);
    assert_eq!(m.export_faces(), before);
    assert!(m.is_delaunay_mesh());
}

#[test]
fn constrained_edge_is_never_flipped() {
    let mut m = quad_mesh(p(5, -1));
    let e = m.find_live_edge(0, 1).unwrap();
    let ids = vec![3usize];
    m.edge_add_constraints(e, &ids);
    let (flips, _) = m.flip_edges(p(5, -1), vec![e], 100);
    assert_eq!(flips, 0);
    // illegal but constrained: still there
    assert!(m.find_live_edge(0, 1).is_some());
    assert_eq!(m.find_live_edge(2, 3), None);
    // and the mesh checker ignores constrained edges
    assert!(m.is_delaunay_mesh());
}

#[test]
fn flip_edge_rebuilds_the_two_faces() {
    let mut m = quad_mesh(p(5, -1));
    let e = m.find_live_edge(0, 1).unwrap();
    assert!(m.flip_edge(e));
    assert!(m.find_live_edge(2, 3).is_some());
    assert_eq!(m.find_live_edge(0, 1), None);
    assert_eq!(m.face_count(), 2);
    assert_eq!(m.vertex_count() as i64 - m.edge_count() as i64 + m.face_count() as i64, 1);
}

#[test]
fn flip_edge_refuses_a_boundary_edge() {
    let mut m = square_mesh();
    let before = m.export_faces();
    let e = m.find_live_edge(0, 1).unwrap();
    assert!(!m.flip_edge(e));
    assert_eq!(m.export_faces(), before);
}

#[test]
fn flip_preserves_surrounding_constraints() {
    let mut m = quad_mesh(p(5, -1));
    let side = m.find_live_edge(0, 2).unwrap();
    let ids = vec![11usize];
    m.edge_add_constraints(side, &ids);
    let e = m.find_live_edge(0, 1).unwrap();
    assert!(m.flip_edge(e));
    let side_after = m.find_live_edge(0, 2).expect("perimeter side survives");
    assert!(m.edges[side_after].as_ref().unwrap().carries(11));
}
