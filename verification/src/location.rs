use vstd::prelude::*;

use crate::cdt::CDT;
use crate::face::Face;
use crate::locate_result::LocateResult;
use crate::orientation::Orientation;
use crate::point::Point;
use crate::predicates;

verus! {

impl CDT {
    /// The query point lies in the closed triangle of live face `f`.
    pub open spec fn face_contains(self, f: int, q: Point) -> bool {
        predicates::in_face_closed(
            self.pos(self.face_at(f).v0 as int),
            self.pos(self.face_at(f).v1 as int),
            self.pos(self.face_at(f).v2 as int),
            q,
        )
    }

    /// Brute-force point location: scans the live faces in slot order for
    /// one whose closed triangle contains `p`, then classifies the hit. A
    /// coincidence with a corner beats lying on an edge, which beats lying
    /// inside the face.
    pub fn locate_point(&self, p: Point) -> (r: LocateResult)
        requires
            self.wf(),
            p.wf(),
        ensures
            match r {
                LocateResult::Vertex(v) => v < self.n_verts() && self.pos(v as int) == p,
                LocateResult::Edge(e) => self.live_edge(e as int) && (
                predicates::on_open_segment(
                    self.pos(self.edge_at(e as int).a as int),
                    self.pos(self.edge_at(e as int).b as int),
                    p,
                ) || predicates::on_open_segment(
                    self.pos(self.edge_at(e as int).b as int),
                    self.pos(self.edge_at(e as int).a as int),
                    p,
                )),
                LocateResult::Face(f) => self.live_face(f as int) && self.face_contains(
                    f as int,
                    p,
                ),
                LocateResult::Outside => forall|f: int|
                    #[trigger] self.live_face(f) ==> !self.face_contains(f, p),
            },
            !(r is Outside) ==> exists|f: int| #[trigger] self.live_face(f) && self.face_contains(
                f,
                p,
            ),
            r is Face ==> {
                let fc = self.face_at(r->Face_0 as int);
                &&& self.pos(fc.v0 as int) != p
                &&& self.pos(fc.v1 as int) != p
                &&& self.pos(fc.v2 as int) != p
                &&& !predicates::on_open_segment(self.pos(fc.v0 as int), self.pos(fc.v1 as int), p)
                &&& !predicates::on_open_segment(self.pos(fc.v1 as int), self.pos(fc.v2 as int), p)
                &&& !predicates::on_open_segment(self.pos(fc.v2 as int), self.pos(fc.v0 as int), p)
            },
            r is Edge ==> exists|f: int|
                #[trigger] self.live_face(f) && self.face_contains(f, p) && self.pos(
                    self.face_at(f).v0 as int,
                ) != p && self.pos(self.face_at(f).v1 as int) != p && self.pos(
                    self.face_at(f).v2 as int,
                ) != p,
    {
        let mut f: usize = 0;
        while f < self.faces.len()
            invariant
                self.wf(),
                p.wf(),
                0 <= f <= self.faces@.len(),
                forall|ff: int|
                    0 <= ff < f && #[trigger] self.live_face(ff) ==> !self.face_contains(ff, p),
            decreases self.faces@.len() - f,
        {
            match self.faces[f] {
                Some(fc) => {
                    proof {
                        assert(self.live_face(f as int));
                        assert(self.face_corner_ok(f as int, 0));
                        assert(self.face_corner_ok(f as int, 1));
                        assert(self.face_corner_ok(f as int, 2));
                    }
                    let pa = self.vertices[fc.v0].position;
                    let pb = self.vertices[fc.v1].position;
                    let pc = self.vertices[fc.v2].position;
                    if predicates::point_in_triangle_closed(pa, pb, pc, p) {
                        if pa.x == p.x && pa.y == p.y {
                            return LocateResult::Vertex(fc.v0);
                        }
                        if pb.x == p.x && pb.y == p.y {
                            return LocateResult::Vertex(fc.v1);
                        }
                        if pc.x == p.x && pc.y == p.y {
                            return LocateResult::Vertex(fc.v2);
                        }
                        if predicates::on_open_segment_test(pa, pb, p) {
                            let se = self.sym_edges[fc.s0].unwrap();
                            return LocateResult::Edge(se.edge);
                        }
                        if predicates::on_open_segment_test(pb, pc, p) {
                            let se = self.sym_edges[fc.s1].unwrap();
                            return LocateResult::Edge(se.edge);
                        }
                        if predicates::on_open_segment_test(pc, pa, p) {
                            let se = self.sym_edges[fc.s2].unwrap();
                            return LocateResult::Edge(se.edge);
                        }
                        return LocateResult::Face(f);
                    }
                },
                None => {},
            }
            f = f + 1;
        }
        LocateResult::Outside
    }

    /// Whether `p` is exactly collinear with one of the triangle's sides.
    pub fn is_point_on_edge(&self, p: Point, triangle: &Face) -> (r: bool)
        requires
            self.wf(),
            p.wf(),
            triangle.v0 < self.n_verts(),
            triangle.v1 < self.n_verts(),
            triangle.v2 < self.n_verts(),
        ensures
            r == (predicates::ccw_val(
                self.pos(triangle.v0 as int),
                self.pos(triangle.v1 as int),
                p,
            ) == 0 || predicates::ccw_val(
                self.pos(triangle.v1 as int),
                self.pos(triangle.v2 as int),
                p,
            ) == 0 || predicates::ccw_val(
                self.pos(triangle.v2 as int),
                self.pos(triangle.v0 as int),
                p,
            ) == 0),
    {
        let pa = self.vertices[triangle.v0].position;
        let pb = self.vertices[triangle.v1].position;
        let pc = self.vertices[triangle.v2].position;
        predicates::is_ccw(pa, pb, p) == Orientation::Collinear || predicates::is_ccw(pb, pc, p)
            == Orientation::Collinear || predicates::is_ccw(pc, pa, p) == Orientation::Collinear
    }

    /// The exact cross product `(a - b) x (a - c)` as a mesh-level helper.
    pub fn ccw(a: &Point, b: &Point, c: &Point) -> (r: i128)
        requires
            a.wf(),
            b.wf(),
            c.wf(),
        ensures
            r == predicates::ccw_val(*a, *b, *c),
    {
        predicates::ccw(*a, *b, *c)
    }

    /// Exact orientation of the triple `(a, b, c)`.
    pub fn is_ccw(a: &Point, b: &Point, c: &Point) -> (r: Orientation)
        requires
            a.wf(),
            b.wf(),
            c.wf(),
        ensures
            r == predicates::orientation_of(*a, *b, *c),
    {
        predicates::is_ccw(*a, *b, *c)
    }
}

} // verus!
