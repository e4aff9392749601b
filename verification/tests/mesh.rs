use cdt::cdt::CDT;
use cdt::face::ToIndices;
use cdt::point::Point;
use cdt::symmetric_compare::{Flipped, SymmetricCompare, TupleOrdered};
use cdt::vertex::Vertex;

fn p(x: i64, y: i64) -> Point {
    Point::new(x, y)
}

/// A unit square of side 2 with its diagonal from (0,0) to (2,2), as two
/// clockwise triangles.
fn square_mesh() -> CDT {
    let mut m = CDT::new();
    m.add_vertex(p(0, 0), 0);
    m.add_vertex(p(2, 0), 0);
    m.add_vertex(p(2, 2), 0);
    m.add_vertex(p(0, 2), 0);
    assert!(m.add_face(0, 2, 1).is_some());
    assert!(m.add_face(0, 3, 2).is_some());
    m
}

fn euler(m: &CDT) -> i64 {
    m.vertex_count() as i64 - m.edge_count() as i64 + m.face_count() as i64
}

#[test]
fn square_mesh_counts_and_euler() {
    let m = square_mesh();
    assert_eq!(m.vertex_count(), 4);
    assert_eq!(m.edge_count(), 5);
    assert_eq!(m.face_count(), 2);
    assert_eq!(euler(&m), 1);
}

#[test]
fn single_triangle_euler() {
    let mut m = CDT::new();
    m.add_vertex(p(0, 0), 0);
    m.add_vertex(p(5, 10), 0);
    m.add_vertex(p(10, 0), 0);
    assert!(m.add_face(0, 1, 2).is_some());
    assert_eq!(euler(&m), 1);
}

#[test]
fn add_face_rejects_duplicate_half_edge() {
    let mut m = square_mesh();
    // the directed side (0, 2) is already present
    assert!(m.add_face(0, 2, 3).is_none());
}

#[test]
fn add_face_rejects_degenerate_and_out_of_range() {
    let mut m = square_mesh();
    assert!(m.add_face(0, 0, 1).is_none());
    assert!(m.add_face(0, 1, 99).is_none());
}

#[test]
fn remove_face_updates_counts() {
    let mut m = square_mesh();
    assert!(m.remove_face(0));
    assert_eq!(m.face_count(), 1);
    // the two boundary edges of the removed triangle are gone, the shared
    // diagonal stays; vertex 1 is left isolated (vertices are never removed)
    assert_eq!(m.edge_count(), 3);
    assert_eq!(m.vertex_count(), 4);
    assert!(!m.remove_face(0));
}

#[test]
fn half_edge_lookup_and_neighbors() {
    let m = square_mesh();
    let s = m.get_sym_edge_for_half_edge((0, 2)).expect("diagonal half-edge");
    let n = m.neighbor(s).expect("the diagonal has two sides");
    assert_ne!(n, s);
    let f1 = m.sym_edges[s].unwrap().face;
    let f2 = m.sym_edges[n].unwrap().face;
    assert_ne!(f1, f2);
    assert_eq!(m.neighbor_face(s), Some(f2));
    assert_eq!(m.find_neighboring_face(f1, 0), Some(f2));
}

#[test]
fn boundary_edge_has_no_neighbor() {
    let m = square_mesh();
    let s = m.get_sym_edge_for_half_edge((2, 1)).expect("boundary half-edge");
    assert_eq!(m.neighbor(s), None);
}

#[test]
fn get_all_sym_edges_for_edge_counts_sides() {
    let m = square_mesh();
    assert_eq!(m.get_all_sym_edges_for_edge(0, 2).len(), 2);
    assert_eq!(m.get_all_sym_edges_for_edge(1, 2).len(), 1);
    assert_eq!(m.get_all_sym_edges_for_edge(1, 3).len(), 0);
}

#[test]
fn find_live_edge_is_direction_blind() {
    let m = square_mesh();
    let e1 = m.find_live_edge(0, 2);
    let e2 = m.find_live_edge(2, 0);
    assert!(e1.is_some());
    assert_eq!(e1, e2);
    assert_eq!(m.find_live_edge(1, 3), None);
}

#[test]
fn edge_constraint_bookkeeping() {
    let mut m = square_mesh();
    let e = m.find_live_edge(0, 2).unwrap();
    assert!(!m.edges[e].as_ref().unwrap().is_constrained());
    let ids = vec![4usize, 4, 9];
    m.edge_add_constraints(e, &ids);
    let ed = m.edges[e].as_ref().unwrap();
    assert!(ed.is_constrained());
    assert!(ed.carries(4));
    assert!(ed.carries(9));
    assert!(!ed.carries(5));
    // duplicates are not recorded twice
    assert_eq!(ed.crep.len(), 2);
}

#[test]
fn edge_indices_keeps_orientation() {
    let m = square_mesh();
    let e = m.find_live_edge(0, 2).unwrap();
    assert_eq!(m.edges[e].as_ref().unwrap().edge_indices(), (0, 2));
}

#[test]
fn symmetric_compare_on_pairs() {
    assert!((3usize, 7usize).symmetric_compare(&(3, 7)));
    assert!((3usize, 7usize).symmetric_compare(&(7, 3)));
    assert!(!(3usize, 7usize).symmetric_compare(&(3, 8)));
    assert!((3usize, 7usize).inverse_compare(&(7, 3)));
    assert!(!(3usize, 7usize).inverse_compare(&(3, 7)));
}

#[test]
fn flipped_and_ordered_pairs() {
    assert_eq!((3usize, 7usize).flipped(), (7, 3));
    assert_eq!((7usize, 3usize).ordered(), (3, 7));
    assert_eq!((3usize, 7usize).ordered(), (3, 7));
}

#[test]
fn vertex_pair_to_indices() {
    let a = Vertex { index: 4, position: p(0, 0), constraints: 0 };
    let b = Vertex { index: 9, position: p(1, 1), constraints: 0 };
    let pair = (a, b);
    let r: (usize, usize) = pair.to_indices();
    assert_eq!(r, (4, 9));
}

#[test]
fn face_accessors() {
    let m = square_mesh();
    let fc = m.faces[0].unwrap();
    assert_eq!(fc.vertex_indices(), [0, 2, 1]);
    assert_eq!(fc.edge_indices(), [(0, 2), (2, 1), (1, 0)]);
    assert_eq!(fc.opposite_vertex(0, 2), 1);
    assert_eq!(fc.opposite_vertex(2, 1), 0);
}

#[test]
fn validate_faces_accepts_a_well_formed_mesh() {
    let m = square_mesh();
    assert!(m.validate_faces());
    assert!(CDT::new().validate_faces());
}

#[test]
fn build_sym_edges_rebuilds_rotate_chains() {
    let mut m = square_mesh();
    m.build_sym_edges();
    let s1 = m.get_sym_edge_for_half_edge((0, 2)).unwrap();
    let s2 = m.get_sym_edge_for_half_edge((0, 3)).unwrap();
    assert_eq!(m.sym_edges[s1].unwrap().rot, Some(s2));
    assert_eq!(m.sym_edges[s2].unwrap().rot, Some(s1));
}

#[test]
fn rotate_chains_close_around_a_vertex() {
    let m = square_mesh();
    // vertex 0 has three outgoing sym-edges: along (0,2), (0,1)... (0,1) is
    // a destination only; outgoing are (0,2) of face 0 and (0,3) of face 1.
    let s1 = m.get_sym_edge_for_half_edge((0, 2)).unwrap();
    let s2 = m.get_sym_edge_for_half_edge((0, 3)).unwrap();
    let r1 = m.sym_edges[s1].unwrap().rot.expect("chain present");
    let r2 = m.sym_edges[s2].unwrap().rot.expect("chain present");
    // the two sym-edges of vertex 0 point at each other
    assert_eq!(r1 as usize, s2);
    assert_eq!(r2 as usize, s1);
}
