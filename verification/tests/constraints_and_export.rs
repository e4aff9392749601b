use cdt::cdt::CDT;
use cdt::constraints::{ConstraintSegment, Constraints};
use cdt::point::Point;

fn p(x: i64, y: i64) -> Point {
    Point::new(x, y)
}

fn square_mesh() -> CDT {
    let mut m = CDT::new();
    m.add_vertex(p(0, 0), 0);
    m.add_vertex(p(2, 0), 0);
    m.add_vertex(p(2, 2), 0);
    m.add_vertex(p(0, 2), 0);
    assert!(m.add_face(0, 2, 1).is_some());
    assert!(m.add_face(0, 3, 2).is_some());
    m
}

fn euler(m: &CDT) -> i64 {
    m.vertex_count() as i64 - m.edge_count() as i64 + m.face_count() as i64
}

#[test]
fn inserting_the_other_diagonal_rebuilds_the_square() {
    // A square triangulated along one diagonal; constraining the other
    // diagonal must leave exactly two triangles sharing it, with the old
    // diagonal gone.
    let mut m = square_mesh();
    assert!(m.find_live_edge(0, 2).is_some());
    let polyline = vec![p(2, 0), p(0, 2)];
    let (vs, ok) = m.insert_constraint(&polyline, 7);
    assert!(ok);
    assert_eq!(vs, vec![1, 3]);
    assert_eq!(m.face_count(), 2);
    assert_eq!(m.vertex_count(), 4);
    assert_eq!(m.find_live_edge(0, 2), None);
    let d = m.find_live_edge(1, 3).expect("the constrained diagonal exists");
    assert!(m.edges[d].as_ref().unwrap().carries(7));
    assert_eq!(euler(&m), 1);
}

#[test]
fn insert_segment_marks_an_existing_edge() {
    let mut m = square_mesh();
    assert!(m.insert_segment(0, 2, 3));
    let d = m.find_live_edge(0, 2).unwrap();
    assert!(m.edges[d].as_ref().unwrap().carries(3));
    // the mesh itself is untouched
    assert_eq!(m.face_count(), 2);
}

#[test]
fn insert_segment_reports_unreachable_pairs() {
    let mut m = square_mesh();
    // vertices 1 and 3 are joined by no edge and their segment crosses the
    // diagonal; after carving the result is established
    assert!(m.insert_segment(1, 3, 9));
    // repeating it now only re-marks the edge
    assert!(m.insert_segment(1, 3, 10));
    let d = m.find_live_edge(1, 3).unwrap();
    assert!(m.edges[d].as_ref().unwrap().carries(9));
    assert!(m.edges[d].as_ref().unwrap().carries(10));
}

#[test]
fn splitting_an_edge_surrounded_by_neighbors() {
    // A strip of four triangles; the vertical edge between vertices 1 and 4
    // is interior and its quadrilateral is flanked by further faces, so the
    // replacement triangles must take the windings the removed faces freed.
    let mut m = CDT::new();
    m.add_vertex(p(0, 0), 0);
    m.add_vertex(p(4, 0), 0);
    m.add_vertex(p(8, 0), 0);
    m.add_vertex(p(0, 3), 0);
    m.add_vertex(p(4, 3), 0);
    m.add_vertex(p(8, 3), 0);
    assert!(m.add_face(0, 3, 1).is_some());
    assert!(m.add_face(1, 3, 4).is_some());
    assert!(m.add_face(1, 4, 2).is_some());
    assert!(m.add_face(2, 4, 5).is_some());
    // mark the edge so the split's halves must inherit the id
    assert!(m.insert_segment(1, 4, 9));
    let (vs, ok) = m.insert_constraint(&vec![p(4, 1)], 3);
    assert!(ok);
    assert_eq!(vs, vec![6]);
    assert_eq!(m.vertices[6].position, p(4, 1));
    // the split edge is gone, both halves exist and carry the old id
    assert_eq!(m.find_live_edge(1, 4), None);
    let h1 = m.find_live_edge(1, 6).expect("lower half");
    let h2 = m.find_live_edge(6, 4).expect("upper half");
    assert!(m.edges[h1].as_ref().unwrap().carries(9));
    assert!(m.edges[h2].as_ref().unwrap().carries(9));
    // two faces became four: no hole was left behind
    assert_eq!(m.face_count(), 6);
    assert_eq!(euler(&m), 1);
    assert!(m.is_delaunay_mesh());
}

#[test]
fn splitting_an_interior_edge_keeps_the_mesh_consistent() {
    let mut m = square_mesh();
    // (1,1) lies exactly on the diagonal: the constraint point splits it
    let polyline = vec![p(1, 1)];
    m.insert_constraint(&polyline, 2);
    assert_eq!(m.vertex_count(), 5);
    assert_eq!(m.vertices[4].position, p(1, 1));
    assert_eq!(m.face_count(), 4);
    assert_eq!(euler(&m), 1);
}

#[test]
fn split_halves_inherit_the_constraint_set() {
    let mut m = square_mesh();
    let diagonal = vec![p(0, 0), p(2, 2)];
    m.insert_constraint(&diagonal, 5);
    // now split the constrained diagonal in its middle
    let single = vec![p(1, 1)];
    m.insert_constraint(&single, 6);
    let h1 = m.find_live_edge(0, 4).expect("first half of the diagonal");
    let h2 = m.find_live_edge(4, 2).expect("second half of the diagonal");
    assert!(m.edges[h1].as_ref().unwrap().carries(5));
    assert!(m.edges[h2].as_ref().unwrap().carries(5));
}

#[test]
fn splitting_a_face_fans_three_triangles() {
    let mut m = CDT::new();
    m.add_vertex(p(0, 0), 0);
    m.add_vertex(p(5, 10), 0);
    m.add_vertex(p(10, 0), 0);
    assert!(m.add_face(0, 1, 2).is_some());
    let polyline = vec![p(5, 3)];
    m.insert_constraint(&polyline, 1);
    assert_eq!(m.vertex_count(), 4);
    assert_eq!(m.face_count(), 3);
    assert_eq!(euler(&m), 1);
    assert_eq!(m.vertices[3].position, p(5, 3));
}

#[test]
fn points_outside_the_mesh_are_dropped() {
    let mut m = square_mesh();
    let before = m.export_faces();
    let polyline = vec![p(50, 50), p(-7, 1)];
    m.insert_constraint(&polyline, 8);
    assert_eq!(m.export_faces(), before);
    assert_eq!(m.vertex_count(), 4);
}

#[test]
fn constraint_insertion_keeps_the_mesh_delaunay() {
    let mut m = square_mesh();
    assert!(m.is_delaunay_mesh());
    let polyline = vec![p(2, 0), p(0, 2)];
    m.insert_constraint(&polyline, 7);
    // no unconstrained edge of the result is flippable
    assert!(m.is_delaunay_mesh());
}

#[test]
fn find_crossed_edges_sees_the_diagonal() {
    let m = square_mesh();
    let crossed = m.find_crossed_edges(1, 3);
    assert_eq!(crossed.len(), 1);
    let ed = m.edges[crossed[0]].as_ref().unwrap();
    assert!((ed.a == 0 && ed.b == 2) || (ed.a == 2 && ed.b == 0));
    assert_eq!(m.find_crossed_edges(0, 2).len(), 0);
}

#[test]
fn add_constraints_applies_every_polyline() {
    let mut m = square_mesh();
    let cs = Constraints {
        constraint_segments: vec![
            ConstraintSegment { constraints: vec![p(0, 0), p(2, 2)], id: 0 },
            ConstraintSegment { constraints: vec![p(2, 0), p(2, 2)], id: 1 },
        ],
    };
    m.add_constraints(&cs);
    let d = m.find_live_edge(0, 2).unwrap();
    assert!(m.edges[d].as_ref().unwrap().carries(0));
    let side = m.find_live_edge(1, 2).unwrap();
    assert!(m.edges[side].as_ref().unwrap().carries(1));
}

#[test]
fn constraint_crossing_several_edges_carves_a_channel() {
    // A strip of four triangles between two horizontal rows; the polyline
    // runs at mid-height and crosses three interior edges.
    let mut m = CDT::new();
    m.add_vertex(p(0, 0), 0);
    m.add_vertex(p(4, 0), 0);
    m.add_vertex(p(8, 0), 0);
    m.add_vertex(p(0, 3), 0);
    m.add_vertex(p(4, 3), 0);
    m.add_vertex(p(8, 3), 0);
    assert!(m.add_face(0, 3, 1).is_some());
    assert!(m.add_face(1, 3, 4).is_some());
    assert!(m.add_face(1, 4, 2).is_some());
    assert!(m.add_face(2, 4, 5).is_some());
    assert_eq!(euler(&m), 1);
    let polyline = vec![p(1, 1), p(7, 1)];
    m.insert_constraint(&polyline, 12);
    // the two polyline points became vertices joined by a constrained edge
    assert_eq!(m.vertices[6].position, p(1, 1));
    assert_eq!(m.vertices[7].position, p(7, 1));
    let e = m.find_live_edge(6, 7).expect("constrained edge exists");
    assert!(m.edges[e].as_ref().unwrap().carries(12));
    assert_eq!(euler(&m), 1);
}

#[test]
fn generate_line_steps_evenly() {
    let seg = ConstraintSegment::generate_line(4, p(0, 0), p(8, 4), 3);
    assert_eq!(seg.id, 3);
    assert_eq!(seg.constraints, vec![p(0, 0), p(2, 1), p(4, 2), p(6, 3)]);
}

#[test]
fn generate_line_rounds_towards_the_start() {
    let seg = ConstraintSegment::generate_line(3, p(0, 0), p(-7, 2), 0);
    // -7/3 truncates towards zero
    assert_eq!(seg.constraints, vec![p(0, 0), p(-2, 0), p(-4, 1)]);
}

#[test]
fn generate_square_corners() {
    let seg = ConstraintSegment::generate_square(p(10, 20), 6, 4);
    assert_eq!(seg.id, 4);
    assert_eq!(
        seg.constraints,
        vec![p(7, 17), p(13, 17), p(13, 23), p(7, 23)]
    );
}

#[test]
fn build_accepts_a_clean_soup() {
    let vs = vec![p(0, 0), p(2, 0), p(2, 2), p(0, 2)];
    let ts = vec![(0usize, 2usize, 1usize), (0usize, 3usize, 2usize)];
    let m = CDT::build(&vs, &ts).expect("clean triangle soup");
    assert_eq!(m.vertex_count(), 4);
    assert_eq!(m.face_count(), 2);
    assert_eq!(m.export_vertices(), vs);
    assert_eq!(m.export_faces(), ts);
}

#[test]
fn build_rejects_bad_input() {
    let vs = vec![p(0, 0), p(2, 0), p(2, 2)];
    assert!(CDT::build(&vs, &vec![(0usize, 1usize, 5usize)]).is_none());
    assert!(CDT::build(&vs, &vec![(0usize, 0usize, 1usize)]).is_none());
    assert!(CDT::build(&vs, &vec![(0usize, 1usize, 2usize), (0usize, 1usize, 2usize)]).is_none());
    assert!(CDT::build(&vec![p(200_000_000, 0)], &Vec::new()).is_none());
}

#[test]
fn export_and_rebuild_round_trip() {
    let mut m = square_mesh();
    let polyline = vec![p(2, 0), p(0, 2)];
    m.insert_constraint(&polyline, 7);
    let vs = m.export_vertices();
    let ts = m.export_faces();
    let m2 = CDT::build(&vs, &ts).expect("exported mesh re-imports");
    assert_eq!(m2.export_vertices(), vs);
    assert_eq!(m2.export_faces(), ts);
}

#[test]
fn empty_mesh_behaviour() {
    let mut m = CDT::new();
    assert_eq!(m.vertex_count(), 0);
    assert_eq!(m.edge_count(), 0);
    assert_eq!(m.face_count(), 0);
    assert!(m.export_vertices().is_empty());
    assert!(m.export_faces().is_empty());
    assert!(m.is_delaunay_mesh());
    assert_eq!(m.locate_point(p(0, 0)), cdt::locate_result::LocateResult::Outside);
    // constraints over an empty mesh drop all their points
    m.insert_constraint(&vec![p(0, 0), p(1, 1)], 0);
    assert_eq!(m.vertex_count(), 0);
    let m2 = CDT::build(&Vec::new(), &Vec::new()).expect("the empty soup is clean");
    assert_eq!(m2.face_count(), 0);
}

#[test]
fn round_trip_after_channel_insertion() {
    let mut m = CDT::new();
    m.add_vertex(p(0, 0), 0);
    m.add_vertex(p(4, 0), 0);
    m.add_vertex(p(8, 0), 0);
    m.add_vertex(p(0, 3), 0);
    m.add_vertex(p(4, 3), 0);
    m.add_vertex(p(8, 3), 0);
    assert!(m.add_face(0, 3, 1).is_some());
    assert!(m.add_face(1, 3, 4).is_some());
    assert!(m.add_face(1, 4, 2).is_some());
    assert!(m.add_face(2, 4, 5).is_some());
    m.insert_constraint(&vec![p(1, 1), p(7, 1)], 12);
    let vs = m.export_vertices();
    let ts = m.export_faces();
    let m2 = CDT::build(&vs, &ts).expect("exported mesh re-imports");
    assert_eq!(m2.export_vertices(), vs);
    assert_eq!(m2.export_faces(), ts);
}

#[test]
fn euler_invariant_after_every_operation() {
    let mut m = square_mesh();
    assert_eq!(euler(&m), 1);
    m.insert_constraint(&vec![p(1, 1)], 0);
    assert_eq!(euler(&m), 1);
    m.insert_constraint(&vec![p(2, 0), p(0, 2)], 1);
    assert_eq!(euler(&m), 1);
    let mut t = CDT::new();
    t.add_vertex(p(0, 0), 0);
    t.add_vertex(p(5, 10), 0);
    t.add_vertex(p(10, 0), 0);
    assert!(t.add_face(0, 1, 2).is_some());
    assert_eq!(euler(&t), 1);
    t.insert_constraint(&vec![p(5, 3)], 2);
    assert_eq!(euler(&t), 1);
}
