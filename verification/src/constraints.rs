use vstd::prelude::*;

use crate::cdt::CDT;
use crate::locate_result::LocateResult;
use crate::orientation::Orientation;
use crate::point::{Point, COORD_LIMIT};
use crate::predicates;

verus! {

/// One constraint polyline and its identifier.
pub struct ConstraintSegment {
    pub constraints: Vec<Point>,
    pub id: usize,
}

/// An ordered collection of constraint polylines.
pub struct Constraints {
    pub constraint_segments: Vec<ConstraintSegment>,
}

/// The `i`-th of `n` evenly spaced grid points from `from` towards `to`,
/// rounded towards `from` in each coordinate.
pub open spec fn line_point(from: Point, to: Point, n: int, i: int) -> Point {
    let dx = to.x - from.x;
    let dy = to.y - from.y;
    let ox = if dx >= 0 {
        (i * dx) / n
    } else {
        -((i * (0 - dx)) / n)
    };
    let oy = if dy >= 0 {
        (i * dy) / n
    } else {
        -((i * (0 - dy)) / n)
    };
    Point { x: (from.x + ox) as i64, y: (from.y + oy) as i64 }
}

impl ConstraintSegment {
    /// `n` points stepping evenly from `from` towards `to`, excluding `to`.
    pub fn generate_line(n: usize, from: Point, to: Point, id: usize) -> (r: ConstraintSegment)
        requires
            from.wf(),
            to.wf(),
            n >= 1,
            n <= 1_000_000_000,
        ensures
            r.id == id,
            r.constraints@.len() == n,
            forall|i: int|
                0 <= i < n ==> r.constraints@[i] == line_point(from, to, n as int, i)
                    && r.constraints@[i].wf(),
    {
        let mut line: Vec<Point> = Vec::new();
        let dx: i64 = to.x - from.x;
        let dy: i64 = to.y - from.y;
        let adx: i64 = if dx >= 0 {
            dx
        } else {
            -dx
        };
        let ady: i64 = if dy >= 0 {
            dy
        } else {
            -dy
        };
        let mut i: usize = 0;
        while i < n
            invariant
                from.wf(),
                to.wf(),
                1 <= n <= 1_000_000_000,
                dx == to.x - from.x,
                dy == to.y - from.y,
                adx == (if dx >= 0 { dx as int } else { -(dx as int) }),
                ady == (if dy >= 0 { dy as int } else { -(dy as int) }),
                0 <= i <= n,
                line@.len() == i,
                forall|j: int|
                    0 <= j < i ==> line@[j] == line_point(from, to, n as int, j)
                        && line@[j].wf(),
            decreases n - i,
        {
            proof {
                crate::predicates::lemma_mul_bound(i as int, adx as int, 1_000_000_000, 200_000_000);
                crate::predicates::lemma_mul_bound(i as int, ady as int, 1_000_000_000, 200_000_000);
                crate::predicates::lemma_scaled_div_bounds(
                    i as int,
                    adx as int,
                    n as int,
                );
                crate::predicates::lemma_scaled_div_bounds(
                    i as int,
                    ady as int,
                    n as int,
                );
            }
            let oxm: u128 = ((i as u128) * (adx as u128)) / (n as u128);
            let oym: u128 = ((i as u128) * (ady as u128)) / (n as u128);
            let ox: i64 = if dx >= 0 {
                oxm as i64
            } else {
                -(oxm as i64)
            };
            let oy: i64 = if dy >= 0 {
                oym as i64
            } else {
                -(oym as i64)
            };
            line.push(Point { x: from.x + ox, y: from.y + oy });
            i = i + 1;
        }
        ConstraintSegment { constraints: line, id }
    }

    /// The four corners of an axis-aligned square around `center`, in
    /// counter-clockwise order starting at the lower left.
    pub fn generate_square(center: Point, side: i64, id: usize) -> (r: ConstraintSegment)
        requires
            center.wf(),
            0 <= side,
            -COORD_LIMIT <= center.x - side / 2,
            center.x + side / 2 <= COORD_LIMIT,
            -COORD_LIMIT <= center.y - side / 2,
            center.y + side / 2 <= COORD_LIMIT,
        ensures
            r.id == id,
            r.constraints@.len() == 4,
            r.constraints@[0] == (Point { x: (center.x - side / 2) as i64, y: (center.y - side / 2) as i64 }),
            r.constraints@[1] == (Point { x: (center.x + side / 2) as i64, y: (center.y - side / 2) as i64 }),
            r.constraints@[2] == (Point { x: (center.x + side / 2) as i64, y: (center.y + side / 2) as i64 }),
            r.constraints@[3] == (Point { x: (center.x - side / 2) as i64, y: (center.y + side / 2) as i64 }),
            forall|i: int| 0 <= i < 4 ==> (#[trigger] r.constraints@[i]).wf(),
    {
        let half: i64 = side / 2;
        let mut square: Vec<Point> = Vec::new();
        square.push(Point { x: center.x - half, y: center.y - half });
        square.push(Point { x: center.x + half, y: center.y - half });
        square.push(Point { x: center.x + half, y: center.y + half });
        square.push(Point { x: center.x - half, y: center.y + half });
        ConstraintSegment { constraints: square, id }
    }
}

impl CDT {
    /// A generous bound on the number of flips a single legalisation pass
    /// may perform: the safety valve against undetected degenerate cycles.
    fn flip_fuel(&self) -> usize {
        let n = self.faces.len();
        if n > 1000 {
            usize::MAX
        } else {
            proof {
                crate::predicates::lemma_mul_bound(16, n as int, 16, 1000);
                crate::predicates::lemma_mul_bound(16 * (n as int), n as int, 16_000, 1000);
            }
            64 + 16 * n * n
        }
    }

    /// Splits live face `f` at the interior point `q`: adds the vertex,
    /// replaces the face by three triangles fanning out of the new vertex,
    /// and legalises the face's original sides. Returns the new vertex.
    pub fn insert_point_in_face(&mut self, q: Point, f: usize) -> (r: usize)
        requires
            old(self).wf(),
            q.wf(),
            old(self).live_face(f as int),
        ensures
            final(self).wf(),
            r == old(self).n_verts(),
            final(self).vertices@ == old(self).vertices@.push(
                crate::vertex::Vertex { index: r, position: q, constraints: 1 },
            ),
            !final(self).live_face(f as int),
            (old(self).sym_edges@.len() + 9 <= usize::MAX && old(self).faces@.len() + 3
                <= usize::MAX && old(self).half_edge_map@.len() + 9 <= usize::MAX && old(self).edges@.len() + 9 <= usize::MAX) ==> final(self).face_count_upto(
                final(self).faces@.len() as int,
            ) == old(self).face_count_upto(old(self).faces@.len() as int) + 2,
            (old(self).sym_edges@.len() + 9 <= usize::MAX && old(self).faces@.len() + 3
                <= usize::MAX && old(self).half_edge_map@.len() + 9 <= usize::MAX && old(self).edges@.len() + 9 <= usize::MAX) ==> exists|f2: int|
                #[trigger] final(self).live_face(f2) && final(self).face_at(f2).has_vertex(r),
    {
        let ghost roomy = old(self).sym_edges@.len() + 9 <= usize::MAX && old(self).faces@.len()
            + 3 <= usize::MAX && old(self).half_edge_map@.len() + 9 <= usize::MAX && old(self).edges@.len() + 9 <= usize::MAX;
        let fc = self.faces[f].unwrap();
        let v = self.add_vertex(q, 1);
        let ghost g0 = *self;
        self.remove_face(f);
        let ghost g1 = *self;
        proof {
            if roomy {
                // each directed side of the fan is free: the face owned its
                // three sides' half-edges, and nothing mentions the fresh
                // vertex yet
                assert forall|x: usize, y: usize|
                    (x == fc.v0 && y == fc.v1) || (x == fc.v1 && y == fc.v2) || (x == fc.v2 && y
                        == fc.v0) || y == v || x == v implies g1.half_edge_free(x, y) by {
                    if !g1.half_edge_free(x, y) {
                        let k = choose|k: int|
                            0 <= k < g1.half_edge_map@.len() && (
                            #[trigger] g1.half_edge_map@[k]).from == x && g1.half_edge_map@[k].to
                                == y;
                        let sy = g1.half_edge_map@[k].sym as int;
                        assert(g1.live_sym(sy) && g1.sym_at(sy).vertex == x && g1.sym_to(sy)
                            == y);
                        assert(g0.live_sym(sy));
                        if g0.sym_at(sy).face == f {
                            assert(g0.face_at(f as int).sym(g0.sym_at(sy).slot as int) == sy);
                            assert(false);
                        }
                        assert(CDT::same_but_rot(g0.sym_at(sy), g1.sym_at(sy)));
                        assert(g1.faces@[g0.sym_at(sy).face as int] == g0.faces@[g0.sym_at(
                            sy,
                        ).face as int]);
                        assert(g0.sym_to(sy) == y);
                        // the fresh vertex is mentioned by no sym-edge
                        assert(g0.face_corner_ok(
                            g0.sym_at(sy).face as int,
                            g0.sym_at(sy).slot as int,
                        ));
                        assert(g0.face_corner_ok(
                            g0.sym_at(sy).face as int,
                            (g0.sym_at(sy).slot + 1) as int % 3,
                        ));
                        assert(old(self).live_face(g0.sym_at(sy).face as int));
                        assert(x < old(self).n_verts() && y < old(self).n_verts());
                        assert(x != v && y != v);
                        // so the key is one of the face's own sides
                        assert(g0.map_has(x, y, sy));
                        let kw = choose|kw: int|
                            0 <= kw < g0.half_edge_map@.len() && (
                            #[trigger] g0.half_edge_map@[kw]).from == x
                                && g0.half_edge_map@[kw].to == y && g0.half_edge_map@[kw].sym
                                == sy;
                        // the face's own sym-edge carried this key before
                        assert(g0.live_face(f as int));
                        assert(g0.face_corner_ok(f as int, 0));
                        assert(g0.face_corner_ok(f as int, 1));
                        assert(g0.face_corner_ok(f as int, 2));
                        let own: int = if x == fc.v0 {
                            fc.s0 as int
                        } else if x == fc.v1 {
                            fc.s1 as int
                        } else {
                            fc.s2 as int
                        };
                        assert(g0.live_sym(own) && g0.sym_at(own).vertex == x && g0.sym_to(own)
                            == y);
                        g0.lemma_halfedge_unique(sy, own);
                        assert(g0.sym_at(sy).face == f);
                        assert(false);
                    }
                }
                assert(g1.can_add_face(fc.v0, fc.v1, v));
            }
        }
        let r1 = self.add_face(fc.v0, fc.v1, v);
        let ghost g2 = *self;
        proof {
            if roomy {
                assert(r1 is Some);
                assert forall|x: usize, y: usize|
                    (x == fc.v1 && y == fc.v2) || (x == fc.v2 && y == v) || (x == v && y
                        == fc.v1) implies g2.half_edge_free(x, y) by {
                    if !g2.half_edge_free(x, y) {
                        let k = choose|k: int|
                            0 <= k < g2.half_edge_map@.len() && (
                            #[trigger] g2.half_edge_map@[k]).from == x && g2.half_edge_map@[k].to
                                == y;
                        if k < g1.half_edge_map@.len() {
                            assert(g2.half_edge_map@[k] == g1.half_edge_map@[k]);
                            assert(!g1.half_edge_free(x, y));
                            assert(false);
                        } else {
                            let lm = g1.half_edge_map@.len() as int;
                            assert(k == lm || k == lm + 1 || k == lm + 2);
                            assert(false);
                        }
                    }
                }
                assert(g2.can_add_face(fc.v1, fc.v2, v));
            }
        }
        let r2 = self.add_face(fc.v1, fc.v2, v);
        let ghost g3 = *self;
        proof {
            if roomy {
                assert(r2 is Some);
                assert forall|x: usize, y: usize|
                    (x == fc.v2 && y == fc.v0) || (x == fc.v0 && y == v) || (x == v && y
                        == fc.v2) implies g3.half_edge_free(x, y) by {
                    if !g3.half_edge_free(x, y) {
                        let k = choose|k: int|
                            0 <= k < g3.half_edge_map@.len() && (
                            #[trigger] g3.half_edge_map@[k]).from == x && g3.half_edge_map@[k].to
                                == y;
                        if k < g2.half_edge_map@.len() {
                            if k < g1.half_edge_map@.len() {
                                assert(g2.half_edge_map@[k] == g1.half_edge_map@[k]);
                                assert(g3.half_edge_map@[k] == g2.half_edge_map@[k]);
                                assert(!g1.half_edge_free(x, y));
                                assert(false);
                            } else {
                                let lm = g1.half_edge_map@.len() as int;
                                assert(g3.half_edge_map@[k] == g2.half_edge_map@[k]);
                                assert(k == lm || k == lm + 1 || k == lm + 2);
                                assert(false);
                            }
                        } else {
                            let lm2 = g2.half_edge_map@.len() as int;
                            assert(k == lm2 || k == lm2 + 1 || k == lm2 + 2);
                            assert(false);
                        }
                    }
                }
                assert(g3.can_add_face(fc.v2, fc.v0, v));
            }
        }
        let r3 = self.add_face(fc.v2, fc.v0, v);
        let ghost g4 = *self;
        proof {
            if roomy {
                assert(r3 is Some);
                CDT::lemma_face_count_agree(*old(self), g0, old(self).faces@.len() as int);
                assert(g4.face_count_upto(g4.faces@.len() as int) == old(self).face_count_upto(
                    old(self).faces@.len() as int,
                ) + 2);
                let fq1 = g2.faces@.len() - 1;
                assert(g4.live_face(fq1 as int) && g4.face_at(fq1 as int).has_vertex(v));
            }
        }
        let mut queue: Vec<usize> = Vec::new();
        match self.find_live_edge(fc.v0, fc.v1) {
            Some(es) => queue.push(es),
            None => {},
        }
        match self.find_live_edge(fc.v1, fc.v2) {
            Some(es) => queue.push(es),
            None => {},
        }
        match self.find_live_edge(fc.v2, fc.v0) {
            Some(es) => queue.push(es),
            None => {},
        }
        let fuel = self.flip_fuel();
        self.flip_edges(q, queue, fuel);
        v
    }

    /// Splits live edge `e` at the projection of `q` onto it: adds the
    /// vertex there, replaces the edge's two incident faces by four
    /// triangles around the new vertex, carries the split edge's constraint
    /// set onto its two halves, and legalises the perimeter. With no second
    /// incident face only the vertex is added. Returns the new vertex.
    /// The mutation phase of an interior edge split: removes the two faces
    /// flanking edge `e`, adds the four triangles joining the fresh vertex
    /// `v` to the quadrilateral's perimeter, and records `ids` on the two
    /// halves of the split edge.
    #[verifier::rlimit(100)]
    #[verifier::spinoff_prover]
    fn split_edge_core(
        &mut self,
        e: usize,
        ea: usize,
        eb: usize,
        s1: usize,
        s2: usize,
        f1: usize,
        f2: usize,
        w1: usize,
        w2: usize,
        fc1: crate::face::Face,
        fc2: crate::face::Face,
        v: usize,
        ids: &Vec<usize>,
    )
        requires
            old(self).wf(),
            old(self).live_edge(e as int),
            old(self).edge_at(e as int).a == ea,
            old(self).edge_at(e as int).b == eb,
            old(self).live_sym(s1 as int),
            old(self).sym_at(s1 as int).vertex == ea,
            old(self).sym_to(s1 as int) == eb,
            old(self).sym_at(s1 as int).face == f1,
            old(self).sym_at(s1 as int).edge == e,
            old(self).live_sym(s2 as int),
            old(self).sym_at(s2 as int).vertex == eb,
            old(self).sym_to(s2 as int) == ea,
            old(self).sym_at(s2 as int).face == f2,
            old(self).sym_at(s2 as int).edge == e,
            f1 != f2,
            old(self).face_at(f1 as int) == fc1,
            old(self).face_at(f2 as int) == fc2,
            w1 == fc1.opposite_spec(ea, eb),
            w2 == fc2.opposite_spec(ea, eb),
            fc1.has_vertex(w1),
            fc2.has_vertex(w2),
            w1 != ea,
            w1 != eb,
            w2 != ea,
            w2 != eb,
            w1 != w2,
            v < old(self).n_verts(),
            forall|s: int|
                #[trigger] old(self).live_sym(s) ==> old(self).sym_at(s).vertex != v && old(self).sym_to(s) != v,
            v != ea,
            v != eb,
            v != w1,
            v != w2,
            old(self).sym_edges@.len() + 12 <= usize::MAX,
            old(self).faces@.len() + 4 <= usize::MAX,
            old(self).half_edge_map@.len() + 12 <= usize::MAX,
            old(self).edges@.len() + 12 <= usize::MAX,
        ensures
            final(self).wf(),
            final(self).vertices@ == old(self).vertices@,
            old(self).faces@.len() <= final(self).faces@.len(),
            old(self).edges@.len() <= final(self).edges@.len(),
            forall|f: int|
                0 <= f < old(self).faces@.len() && !(old(self).faces@[f] is Some) ==> !(final(self).faces@[f] is Some),
            forall|ee: int|
                0 <= ee < old(self).edges@.len() && !(old(self).edges@[ee] is Some) ==> !(final(self).edges@[ee] is Some),
            !final(self).live_edge(e as int),
            final(self).face_count_upto(final(self).faces@.len() as int) == old(self).face_count_upto(old(self).faces@.len() as int) + 2,
            forall|j: int|
                0 <= j < ids@.len() ==> final(self).has_constrained_edge(
                    ea,
                    v,
                    #[trigger] ids@[j],
                ) && final(self).has_constrained_edge(v, eb, ids@[j]),
            exists|f2: int|
                #[trigger] final(self).live_face(f2) && final(self).face_at(f2).has_vertex(v),
    {
        proof {
            assert(old(self).face_corner_ok(f1 as int, old(self).sym_at(s1 as int).slot as int));
            assert(old(self).face_corner_ok(f2 as int, old(self).sym_at(s2 as int).slot as int));
            assert(old(self).face_corner_ok(f1 as int, 0));
            assert(old(self).face_corner_ok(f1 as int, 1));
            assert(old(self).face_corner_ok(f1 as int, 2));
            assert(old(self).face_corner_ok(f2 as int, 0));
            assert(old(self).face_corner_ok(f2 as int, 1));
            assert(old(self).face_corner_ok(f2 as int, 2));
        }
        // the two directed perimeter sides of each face, in its own winding
        let (q1, q2) = if (fc1.v0 == ea && fc1.v1 == eb) || (fc1.v0 == eb && fc1.v1 == ea) {
            ((fc1.v1, fc1.v2), (fc1.v2, fc1.v0))
        } else if (fc1.v1 == ea && fc1.v2 == eb) || (fc1.v1 == eb && fc1.v2 == ea) {
            ((fc1.v2, fc1.v0), (fc1.v0, fc1.v1))
        } else {
            ((fc1.v0, fc1.v1), (fc1.v1, fc1.v2))
        };
        let (q3, q4) = if (fc2.v0 == ea && fc2.v1 == eb) || (fc2.v0 == eb && fc2.v1 == ea) {
            ((fc2.v1, fc2.v2), (fc2.v2, fc2.v0))
        } else if (fc2.v1 == ea && fc2.v2 == eb) || (fc2.v1 == eb && fc2.v2 == ea) {
            ((fc2.v2, fc2.v0), (fc2.v0, fc2.v1))
        } else {
            ((fc2.v0, fc2.v1), (fc2.v1, fc2.v2))
        };
        proof {
            // each face's corners are the split endpoints and its opposite
            assert(fc1.v0 == ea || fc1.v0 == eb || fc1.v0 == w1);
            assert(fc1.v1 == ea || fc1.v1 == eb || fc1.v1 == w1);
            assert(fc1.v2 == ea || fc1.v2 == eb || fc1.v2 == w1);
            assert(fc2.v0 == ea || fc2.v0 == eb || fc2.v0 == w2);
            assert(fc2.v1 == ea || fc2.v1 == eb || fc2.v1 == w2);
            assert(fc2.v2 == ea || fc2.v2 == eb || fc2.v2 == w2);
        }
        let ghost g0 = *self;
        self.remove_face(f1);
        let ghost g1 = *self;
        self.remove_face(f2);
        let ghost g2 = *self;
        proof {
            // the split edge lost both its sym-edges and is gone
            assert forall|s3: int| #[trigger] g2.live_sym(s3) implies g2.sym_at(s3).edge
                != e by {
                if g2.sym_at(s3).edge == e {
                    assert(g1.live_sym(s3));
                    if g1.sym_at(s3).face == f2 {
                        assert(g1.face_at(f2 as int).sym(g1.sym_at(s3).slot as int) == s3);
                        assert(false);
                    }
                    assert(CDT::same_but_rot(g1.sym_at(s3), g2.sym_at(s3)));
                    assert(g0.live_sym(s3));
                    if g0.sym_at(s3).face == f1 {
                        assert(g0.face_at(f1 as int).sym(g0.sym_at(s3).slot as int) == s3);
                        assert(false);
                    }
                    assert(CDT::same_but_rot(g0.sym_at(s3), g1.sym_at(s3)));
                    assert(g0.sym_at(s3).edge == e);
                    if s3 != s1 {
                        g0.lemma_edge_sym_pair(s3, s1 as int);
                        if s3 != s2 {
                            g0.lemma_edge_sym_pair(s3, s2 as int);
                            g0.lemma_halfedge_unique(s3, s1 as int);
                        }
                        assert(s3 == s2 && g0.sym_at(s3).face == f2);
                        assert(false);
                    }
                    assert(s3 == s1 && g0.sym_at(s3).face == f1);
                    assert(false);
                }
            }
            let fcg = g1.face_at(f2 as int);
            let slot_s2 = g1.sym_at(s2 as int).slot as int;
            assert(g1.live_sym(s2 as int) && CDT::same_but_rot(
                g0.sym_at(s2 as int),
                g1.sym_at(s2 as int),
            ));
            assert(g1.face_at(f2 as int) == g0.face_at(f2 as int));
            assert(g1.face_at(f2 as int).sym(slot_s2) == s2);
            assert(slot_s2 == 0 || slot_s2 == 1 || slot_s2 == 2);
            assert(e == g1.sym_at(fcg.sym(slot_s2) as int).edge);
            assert(!(g2.edges@[e as int] is Some));
            // every directed side of the four replacement triangles is free:
            // the doomed faces owned their sides, and nothing mentions `v`
            assert forall|x: usize, y: usize|
                (x, y) == q1 || (x, y) == q2 || (x, y) == q3 || (x, y) == q4 || y == v || x
                    == v implies g2.half_edge_free(x, y) by {
                if !g2.half_edge_free(x, y) {
                    let k = choose|k: int|
                        0 <= k < g2.half_edge_map@.len() && (#[trigger] g2.half_edge_map@[k]).from
                            == x && g2.half_edge_map@[k].to == y;
                    let sy = g2.half_edge_map@[k].sym as int;
                    assert(g2.live_sym(sy) && g2.sym_at(sy).vertex == x && g2.sym_to(sy) == y);
                    assert(g1.live_sym(sy));
                    if g1.sym_at(sy).face == f2 {
                        assert(g1.face_at(f2 as int).sym(g1.sym_at(sy).slot as int) == sy);
                        assert(false);
                    }
                    assert(CDT::same_but_rot(g1.sym_at(sy), g2.sym_at(sy)));
                    assert(g0.live_sym(sy));
                    if g0.sym_at(sy).face == f1 {
                        assert(g0.face_at(f1 as int).sym(g0.sym_at(sy).slot as int) == sy);
                        assert(false);
                    }
                    assert(CDT::same_but_rot(g0.sym_at(sy), g1.sym_at(sy)));
                    assert(g1.faces@[g0.sym_at(sy).face as int] == g0.faces@[g0.sym_at(
                        sy,
                    ).face as int]);
                    assert(g2.faces@[g0.sym_at(sy).face as int] == g1.faces@[g0.sym_at(
                        sy,
                    ).face as int]);
                    assert(g0.sym_to(sy) == y);
                    assert(x != v && y != v);
                    // so (x, y) is a doomed face's own directed side
                    assert(g0.map_has(x, y, sy));
                    let ownf: int = if (x, y) == q1 || (x, y) == q2 {
                        f1 as int
                    } else {
                        f2 as int
                    };
                    let own: int = if x == g0.face_at(ownf).v0 {
                        g0.face_at(ownf).s0 as int
                    } else if x == g0.face_at(ownf).v1 {
                        g0.face_at(ownf).s1 as int
                    } else {
                        g0.face_at(ownf).s2 as int
                    };
                    assert(g0.live_sym(own) && g0.sym_at(own).vertex == x && g0.sym_to(own)
                        == y);
                    g0.lemma_halfedge_unique(sy, own);
                    assert(g0.sym_at(sy).face == f1 || g0.sym_at(sy).face == f2);
                    assert(false);
                }
            }
            assert(g2.can_add_face(q1.0, q1.1, v));
        }
        let r1 = self.add_face(q1.0, q1.1, v);
        let ghost g3 = *self;
        proof {
            assert(r1 is Some);
            assert forall|x: usize, y: usize|
                (x, y) == q2 || (x, y) == q3 || (x, y) == q4 || (x == q2.1 && y == v) || (x == v
                    && y == q2.0) || (x == q3.1 && y == v) || (x == v && y == q3.0) || (x == q4.1
                    && y == v) || (x == v && y == q4.0) implies g3.half_edge_free(x, y) by {
                if !g3.half_edge_free(x, y) {
                    let k = choose|k: int|
                        0 <= k < g3.half_edge_map@.len() && (#[trigger] g3.half_edge_map@[k]).from
                            == x && g3.half_edge_map@[k].to == y;
                    if k < g2.half_edge_map@.len() {
                        assert(g3.half_edge_map@[k] == g2.half_edge_map@[k]);
                        assert(!g2.half_edge_free(x, y));
                        assert(false);
                    } else {
                        let lm = g2.half_edge_map@.len() as int;
                        assert(k == lm || k == lm + 1 || k == lm + 2);
                        assert(false);
                    }
                }
            }
            assert(g3.can_add_face(q2.0, q2.1, v));
        }
        let r2 = self.add_face(q2.0, q2.1, v);
        let ghost g4 = *self;
        proof {
            assert(r2 is Some);
            assert forall|x: usize, y: usize|
                (x, y) == q3 || (x, y) == q4 || (x == q3.1 && y == v) || (x == v && y == q3.0) || (
                x == q4.1 && y == v) || (x == v && y == q4.0) implies g4.half_edge_free(
                x,
                y,
            ) by {
                if !g4.half_edge_free(x, y) {
                    let k = choose|k: int|
                        0 <= k < g4.half_edge_map@.len() && (#[trigger] g4.half_edge_map@[k]).from
                            == x && g4.half_edge_map@[k].to == y;
                    if k < g3.half_edge_map@.len() {
                        assert(g4.half_edge_map@[k] == g3.half_edge_map@[k]);
                        assert(!g3.half_edge_free(x, y));
                        assert(false);
                    } else {
                        let lm = g3.half_edge_map@.len() as int;
                        assert(k == lm || k == lm + 1 || k == lm + 2);
                        assert(false);
                    }
                }
            }
            assert(g4.can_add_face(q3.0, q3.1, v));
        }
        let r3 = self.add_face(q3.0, q3.1, v);
        let ghost g5 = *self;
        proof {
            assert(r3 is Some);
            assert forall|x: usize, y: usize|
                (x, y) == q4 || (x == q4.1 && y == v) || (x == v && y == q4.0) implies
                g5.half_edge_free(x, y) by {
                if !g5.half_edge_free(x, y) {
                    let k = choose|k: int|
                        0 <= k < g5.half_edge_map@.len() && (#[trigger] g5.half_edge_map@[k]).from
                            == x && g5.half_edge_map@[k].to == y;
                    if k < g4.half_edge_map@.len() {
                        assert(g5.half_edge_map@[k] == g4.half_edge_map@[k]);
                        assert(!g4.half_edge_free(x, y));
                        assert(false);
                    } else {
                        let lm = g4.half_edge_map@.len() as int;
                        assert(k == lm || k == lm + 1 || k == lm + 2);
                        assert(false);
                    }
                }
            }
            assert(g5.can_add_face(q4.0, q4.1, v));
        }
        let r4 = self.add_face(q4.0, q4.1, v);
        let ghost g6 = *self;
        proof {
            assert(r4 is Some);
            CDT::lemma_face_count_agree(*old(self), g0, old(self).faces@.len() as int);
        }
        // the halves of the split edge inherit its constraint set
        let h1 = self.find_live_edge(ea, v);
        proof {
            // one face of each doomed triangle touches `ea`, so a spoke
            // edge joining `ea` and `v` exists
            let fq2 = g4.faces@.len() - 1;
            let fq3 = g5.faces@.len() - 1;
            let fq1 = g3.faces@.len() - 1;
            let fq4 = g6.faces@.len() - 1;
            assert(g6.live_face(fq1 as int) && g6.face_tri(fq1 as int) == (q1.0, q1.1, v));
            assert(g6.live_face(fq2 as int) && g6.face_tri(fq2 as int) == (q2.0, q2.1, v));
            assert(g6.live_face(fq3 as int) && g6.face_tri(fq3 as int) == (q3.0, q3.1, v));
            assert(g6.live_face(fq4 as int) && g6.face_tri(fq4 as int) == (q4.0, q4.1, v));
            assert(g6.face_corner_ok(fq1 as int, 1));
            assert(g6.face_corner_ok(fq1 as int, 2));
            assert(g6.face_corner_ok(fq2 as int, 1));
            assert(g6.face_corner_ok(fq2 as int, 2));
            assert(g6.face_corner_ok(fq3 as int, 1));
            assert(g6.face_corner_ok(fq3 as int, 2));
            assert(g6.face_corner_ok(fq4 as int, 1));
            assert(g6.face_corner_ok(fq4 as int, 2));
            assert(q1.0 == ea || q1.1 == ea || q2.0 == ea || q2.1 == ea);
            assert(h1 is Some);
        }
        match h1 {
            Some(slot) => {
                self.edge_add_constraints(slot, ids);
            },
            None => {},
        }
        let h2 = self.find_live_edge(v, eb);
        proof {
            assert(q1.0 == eb || q1.1 == eb || q2.0 == eb || q2.1 == eb);
            let fq1 = g3.faces@.len() - 1;
            let fq2 = g4.faces@.len() - 1;
            assert(self.live_face(fq1 as int) && self.face_tri(fq1 as int) == (q1.0, q1.1, v));
            assert(self.live_face(fq2 as int) && self.face_tri(fq2 as int) == (q2.0, q2.1, v));
            assert(self.face_corner_ok(fq1 as int, 1));
            assert(self.face_corner_ok(fq1 as int, 2));
            assert(self.face_corner_ok(fq2 as int, 1));
            assert(self.face_corner_ok(fq2 as int, 2));
            assert(h2 is Some);
        }
        match h2 {
            Some(slot) => {
                let ghost gm = *self;
                self.edge_add_constraints(slot, ids);
                proof {
                    assert forall|j: int| 0 <= j < ids@.len() implies self.has_constrained_edge(
                        ea,
                        v,
                        #[trigger] ids@[j],
                    ) && self.has_constrained_edge(v, eb, ids@[j]) by {
                        assert(gm.has_constrained_edge(ea, v, ids@[j]));
                        let w = choose|w: int|
                            #[trigger] gm.live_edge(w) && CDT::same_pair(
                                gm.edge_at(w).a,
                                gm.edge_at(w).b,
                                ea,
                                v,
                            ) && gm.edge_at(w).crep@.contains(ids@[j]);
                        if w != slot {
                            assert(self.edges@[w] == gm.edges@[w]);
                        }
                        assert(self.live_edge(w) && self.edge_at(w).crep@.contains(ids@[j]));
                        assert(self.live_edge(slot as int) && self.edge_at(
                            slot as int,
                        ).crep@.contains(ids@[j]));
                    }
                }
            },
            None => {},
        }
        proof {
            CDT::lemma_face_count_agree(g6, *self, self.faces@.len() as int);
            let fq1 = g3.faces@.len() - 1;
            assert(self.live_face(fq1 as int) && self.face_at(fq1 as int).has_vertex(v));
        }
    }

    /// Splits live edge `e` at the projection of `q` onto it: adds the
    /// vertex there, replaces the edge's two incident faces by four
    /// triangles around the new vertex, carries the split edge's constraint
    /// set onto its two halves, and legalises the perimeter. For a boundary
    /// or degenerate edge — or when the arenas are within a dozen slots of
    /// `usize::MAX` — only the vertex is added and nothing else changes.
    /// Returns the new vertex.
    pub fn insert_point_on_edge(&mut self, q: Point, e: usize) -> (r: usize)
        requires
            old(self).wf(),
            q.wf(),
            old(self).live_edge(e as int),
        ensures
            final(self).wf(),
            r == old(self).n_verts(),
            final(self).vertices@ == old(self).vertices@.push(
                crate::vertex::Vertex {
                    index: r,
                    position: predicates::split_point(
                        old(self).pos(old(self).edge_at(e as int).a as int),
                        old(self).pos(old(self).edge_at(e as int).b as int),
                        q,
                    ),
                    constraints: 1,
                },
            ),
            old(self).split_premise(e as int) ==> !final(self).live_edge(e as int),
            !old(self).split_premise(e as int) ==> final(self).edges@ == old(self).edges@
                && final(self).faces@ == old(self).faces@ && final(self).sym_edges@ == old(self).sym_edges@ && final(self).half_edge_map@ == old(self).half_edge_map@,
            old(self).split_premise(e as int) ==> final(self).face_count_upto(
                final(self).faces@.len() as int,
            ) == old(self).face_count_upto(old(self).faces@.len() as int) + 2,
            old(self).split_premise(e as int) ==> forall|c: usize|
                old(self).edge_at(e as int).crep@.contains(c) ==> final(self).has_constrained_edge(old(self).edge_at(e as int).a, r, c) && final(self).has_constrained_edge(
                    r,
                    old(self).edge_at(e as int).b,
                    c,
                ),
            old(self).split_premise(e as int) ==> exists|f2: int|
                #[trigger] final(self).live_face(f2) && final(self).face_at(f2).has_vertex(r),
    {
        let (ea, eb) = match &self.edges[e] {
            Some(ed) => (ed.a, ed.b),
            None => (0, 0),
        };
        let crep_saved = self.copy_edge_constraints(e);
        let pa = self.vertices[ea].position;
        let pb = self.vertices[eb].position;
        let position = predicates::project_to_line(q, pa, pb);
        let v = self.add_vertex(position, 1);
        proof {
            assert forall|s: int| #[trigger] self.live_sym(s) implies self.sym_at(s).vertex != v
                && self.sym_to(s) != v by {
                assert(self.face_corner_ok(self.sym_at(s).face as int, self.sym_at(s).slot as int));
                assert(old(self).live_face(self.sym_at(s).face as int));
            }
        }
        let s1 = match self.get_sym_edge_for_half_edge((ea, eb)) {
            Some(s1) => s1,
            None => {
                proof {
                    // no sym-edge carries the forward direction: the edge
                    // cannot have a sym-edge pair
                    assert forall|sa: int, sb: int|
                        #[trigger] old(self).live_sym(sa) && #[trigger] old(self).live_sym(sb)
                            && old(self).sym_at(sa).edge == e && old(self).sym_at(sb).edge == e
                            && sa != sb implies false by {
                        assert(self.live_sym(sa) && self.live_sym(sb));
                        assert(self.sym_at(sa).edge == e && self.sym_at(sb).edge == e);
                        self.lemma_edge_sym_pair(sa, sb);
                        assert(self.face_corner_ok(
                            self.sym_at(sa).face as int,
                            self.sym_at(sa).slot as int,
                        ));
                        assert(CDT::same_pair(self.sym_at(sa).vertex, self.sym_to(sa), ea, eb));
                    }
                }
                return v;
            },
        };
        let s2 = match self.get_sym_edge_for_half_edge((eb, ea)) {
            Some(s2) => s2,
            None => {
                proof {
                    assert forall|sa: int, sb: int|
                        #[trigger] old(self).live_sym(sa) && #[trigger] old(self).live_sym(sb)
                            && old(self).sym_at(sa).edge == e && old(self).sym_at(sb).edge == e
                            && sa != sb implies false by {
                        assert(self.live_sym(sa) && self.live_sym(sb));
                        assert(self.sym_at(sa).edge == e && self.sym_at(sb).edge == e);
                        self.lemma_edge_sym_pair(sa, sb);
                        assert(self.face_corner_ok(
                            self.sym_at(sa).face as int,
                            self.sym_at(sa).slot as int,
                        ));
                        assert(CDT::same_pair(self.sym_at(sa).vertex, self.sym_to(sa), ea, eb));
                    }
                }
                return v;
            },
        };
        proof {
            // the two directed sym-edges run along `e` and are the spec's
            // witnesses
            assert(self.live_edge(e as int) && self.edge_at(e as int).a == ea && self.edge_at(
                e as int,
            ).b == eb);
            assert(self.has_dir(ea, eb) && self.has_dir(eb, ea));
            let c1 = self.dir_sym(ea, eb);
            let c2 = self.dir_sym(eb, ea);
            self.lemma_halfedge_unique(c1, s1 as int);
            self.lemma_halfedge_unique(c2, s2 as int);
            assert(self.face_corner_ok(
                self.sym_at(s1 as int).face as int,
                self.sym_at(s1 as int).slot as int,
            ));
            assert(self.face_corner_ok(
                self.sym_at(s2 as int).face as int,
                self.sym_at(s2 as int).slot as int,
            ));
            let sedge = self.sym_at(s1 as int).edge as int;
            assert(CDT::same_pair(self.edge_at(sedge).a, self.edge_at(sedge).b, ea, eb));
            if sedge != e {
                assert(!CDT::same_pair(
                    self.edge_at(sedge).a,
                    self.edge_at(sedge).b,
                    self.edge_at(e as int).a,
                    self.edge_at(e as int).b,
                ));
                assert(false);
            }
            let sedge2 = self.sym_at(s2 as int).edge as int;
            assert(CDT::same_pair(self.edge_at(sedge2).a, self.edge_at(sedge2).b, ea, eb));
            if sedge2 != e {
                assert(false);
            }
            assert(s1 != s2);
            self.lemma_edge_sym_pair(s1 as int, s2 as int);
            let sls = self.sym_at(s1 as int).slot as int;
            let sln = self.sym_at(s2 as int).slot as int;
            assert(sls == 0 || sls == 1 || sls == 2);
            assert(sln == 0 || sln == 1 || sln == 2);
        }
        let f1 = self.sym_edges[s1].unwrap().face;
        let f2 = self.sym_edges[s2].unwrap().face;
        proof {
            assert(self.live_face(f1 as int));
            assert(self.live_face(f2 as int));
        }
        let fc1 = self.faces[f1].unwrap();
        let fc2 = self.faces[f2].unwrap();
        let w1 = fc1.opposite_vertex(ea, eb);
        let w2 = fc2.opposite_vertex(ea, eb);
        proof {
            assert(w1 == old(self).flip_diag(e as int).0);
            assert(w2 == old(self).flip_diag(e as int).1);
        }
        if w1 == w2 {
            return v;
        }
        if self.sym_edges.len() > usize::MAX - 12 || self.faces.len() > usize::MAX - 4
            || self.half_edge_map.len() > usize::MAX - 12 || self.edges.len() > usize::MAX - 12 {
            return v;
        }
        proof {
            assert(old(self).split_premise(e as int));
        }
        let ghost gcore = *self;
        self.split_edge_core(e, ea, eb, s1, s2, f1, f2, w1, w2, fc1, fc2, v, &crep_saved);
        // Legalise the perimeter of the two replaced faces.
        let mut queue: Vec<usize> = Vec::new();
        match self.find_live_edge(ea, w1) {
            Some(es) => queue.push(es),
            None => {},
        }
        match self.find_live_edge(w1, eb) {
            Some(es) => queue.push(es),
            None => {},
        }
        match self.find_live_edge(eb, w2) {
            Some(es) => queue.push(es),
            None => {},
        }
        match self.find_live_edge(w2, ea) {
            Some(es) => queue.push(es),
            None => {},
        }
        let fuel = self.flip_fuel();
        let ghost gflip = *self;
        self.flip_edges(q, queue, fuel);
        proof {
            assert(!(gflip.edges@[e as int] is Some));
            assert(!final(self).live_edge(e as int));
            CDT::lemma_face_count_agree(*old(self), gcore, old(self).faces@.len() as int);
            let fv = choose|f2: int|
                #[trigger] gflip.live_face(f2) && gflip.face_at(f2).has_vertex(v);
            assert(exists|f2: int|
                #[trigger] final(self).live_face(f2) && final(self).face_at(f2).has_vertex(v));
            assert forall|c: usize|
                old(self).edge_at(e as int).crep@.contains(c) implies final(self).has_constrained_edge(ea, v, c) && final(self).has_constrained_edge(v, eb, c) by {
                let j = choose|j: int|
                    0 <= j < crep_saved@.len() && crep_saved@[j] == c;
                assert(gflip.has_constrained_edge(ea, v, crep_saved@[j]));
                assert(gflip.has_constrained_edge(v, eb, crep_saved@[j]));
            }
        }
        v
    }

    /// A private copy of the constraint identifiers of edge `e`.
    fn copy_edge_constraints(&self, e: usize) -> (r: Vec<usize>)
        requires
            self.live_edge(e as int),
        ensures
            r@ == self.edge_at(e as int).crep@,
    {
        let mut ids: Vec<usize> = Vec::new();
        let n = match &self.edges[e] {
            Some(ed) => ed.crep.len(),
            None => 0,
        };
        let mut k: usize = 0;
        while k < n
            invariant
                self.live_edge(e as int),
                n == self.edge_at(e as int).crep@.len(),
                0 <= k <= n,
                ids@ == self.edge_at(e as int).crep@.subrange(0, k as int),
            decreases n - k,
        {
            let c = match &self.edges[e] {
                Some(ed) => ed.crep[k],
                None => 0,
            };
            ids.push(c);
            proof {
                assert(ids@ =~= self.edge_at(e as int).crep@.subrange(0, k + 1));
            }
            k = k + 1;
        }
        proof {
            assert(ids@ =~= self.edge_at(e as int).crep@);
        }
        ids
    }

    /// Every live edge that carries a constraint, with its endpoints and
    /// identifiers, for restoration after a re-triangulation.
    fn save_all_constrained_edges(&self) -> (r: Vec<(usize, usize, Vec<usize>)>)
        requires
            self.wf(),
    {
        let mut saved: Vec<(usize, usize, Vec<usize>)> = Vec::new();
        let mut e: usize = 0;
        while e < self.edges.len()
            invariant
                self.wf(),
                0 <= e <= self.edges@.len(),
            decreases self.edges@.len() - e,
        {
            let keep = match &self.edges[e] {
                Some(ed) => ed.crep.len() > 0,
                None => false,
            };
            if keep {
                let (a, b) = match &self.edges[e] {
                    Some(ed) => (ed.a, ed.b),
                    None => (0, 0),
                };
                let ids = self.copy_edge_constraints(e);
                saved.push((a, b, ids));
            }
            e = e + 1;
        }
        saved
    }

    /// The live edges properly crossed by the open segment from vertex
    /// `start` to vertex `end`, ordered by increasing crossing parameter
    /// along the segment.
    pub fn find_crossed_edges(&self, start: usize, end: usize) -> (r: Vec<usize>)
        requires
            self.wf(),
            start < self.n_verts(),
            end < self.n_verts(),
        ensures
            forall|j: int|
                0 <= j < r@.len() ==> self.live_edge(#[trigger] r@[j] as int)
                    && predicates::proper_crossing(
                    self.pos(start as int),
                    self.pos(end as int),
                    self.pos(self.edge_at(r@[j] as int).a as int),
                    self.pos(self.edge_at(r@[j] as int).b as int),
                ),
            forall|e2: int|
                #[trigger] self.live_edge(e2) && predicates::proper_crossing(
                    self.pos(start as int),
                    self.pos(end as int),
                    self.pos(self.edge_at(e2).a as int),
                    self.pos(self.edge_at(e2).b as int),
                ) ==> exists|j: int| 0 <= j < r@.len() && r@[j] == e2,
            forall|j1: int, j2: int|
                0 <= j1 < j2 < r@.len() ==> predicates::crossing_param_le(
                    self.pos(start as int),
                    self.pos(end as int),
                    (
                        self.pos(self.edge_at(#[trigger] r@[j1] as int).a as int),
                        self.pos(self.edge_at(r@[j1] as int).b as int),
                    ),
                    (
                        self.pos(self.edge_at(#[trigger] r@[j2] as int).a as int),
                        self.pos(self.edge_at(r@[j2] as int).b as int),
                    ),
                ),
    {
        let ps = self.vertices[start].position;
        let pe = self.vertices[end].position;
        let mut keyed: Vec<(Point, Point, usize)> = Vec::new();
        let mut e: usize = 0;
        while e < self.edges.len()
            invariant
                self.wf(),
                start < self.n_verts(),
                end < self.n_verts(),
                ps == self.pos(start as int),
                pe == self.pos(end as int),
                0 <= e <= self.edges@.len(),
                forall|j: int|
                    0 <= j < keyed@.len() ==> {
                        let t = #[trigger] keyed@[j];
                        &&& self.live_edge(t.2 as int)
                        &&& t.0 == self.pos(self.edge_at(t.2 as int).a as int)
                        &&& t.1 == self.pos(self.edge_at(t.2 as int).b as int)
                        &&& predicates::proper_crossing(ps, pe, t.0, t.1)
                    },
                forall|e2: int|
                    0 <= e2 < e && #[trigger] self.live_edge(e2) && predicates::proper_crossing(
                        ps,
                        pe,
                        self.pos(self.edge_at(e2).a as int),
                        self.pos(self.edge_at(e2).b as int),
                    ) ==> exists|j: int| 0 <= j < keyed@.len() && (#[trigger] keyed@[j]).2 == e2,
            decreases self.edges@.len() - e,
        {
            match &self.edges[e] {
                Some(ed) => {
                    proof {
                        assert(self.live_edge(e as int));
                    }
                    let pa = self.vertices[ed.a].position;
                    let pb = self.vertices[ed.b].position;
                    let ghost kb = keyed@;
                    if predicates::is_crossing((ps, pe), (pa, pb)) {
                        keyed.push((pa, pb, e));
                    }
                    proof {
                        assert forall|e2: int|
                            0 <= e2 < e + 1 && #[trigger] self.live_edge(e2)
                                && predicates::proper_crossing(
                                ps,
                                pe,
                                self.pos(self.edge_at(e2).a as int),
                                self.pos(self.edge_at(e2).b as int),
                            ) implies exists|j: int|
                            0 <= j < keyed@.len() && (#[trigger] keyed@[j]).2 == e2 by {
                            if e2 == e {
                                assert(keyed@[keyed@.len() - 1].2 == e2);
                            } else {
                                let j = choose|j: int|
                                    0 <= j < kb.len() && (#[trigger] kb[j]).2 == e2;
                                assert(keyed@[j] == kb[j]);
                            }
                        }
                    }
                },
                None => {},
            }
            e = e + 1;
        }
        let ghost unsorted = keyed@;
        sort_by_crossing(ps, pe, &mut keyed);
        proof {
            assert forall|k: int|
                0 <= k < keyed@.len() implies {
                let t = #[trigger] keyed@[k];
                &&& self.live_edge(t.2 as int)
                &&& predicates::proper_crossing(
                    self.pos(start as int),
                    self.pos(end as int),
                    self.pos(self.edge_at(t.2 as int).a as int),
                    self.pos(self.edge_at(t.2 as int).b as int),
                )
            } by {
                assert(unsorted.contains(keyed@[k]));
                let w = choose|w: int| 0 <= w < unsorted.len() && unsorted[w] == keyed@[k];
                assert(unsorted[w].2 == keyed@[k].2);
            }
            assert forall|k: int|
                0 <= k < keyed@.len() implies (#[trigger] keyed@[k]).0 == self.pos(
                self.edge_at(keyed@[k].2 as int).a as int,
            ) && keyed@[k].1 == self.pos(self.edge_at(keyed@[k].2 as int).b as int) by {
                assert(unsorted.contains(keyed@[k]));
                let w = choose|w: int| 0 <= w < unsorted.len() && unsorted[w] == keyed@[k];
                assert(unsorted[w].2 == keyed@[k].2);
            }
            assert forall|e2: int|
                #[trigger] self.live_edge(e2) && predicates::proper_crossing(
                    self.pos(start as int),
                    self.pos(end as int),
                    self.pos(self.edge_at(e2).a as int),
                    self.pos(self.edge_at(e2).b as int),
                ) implies exists|j: int|
                0 <= j < keyed@.len() && (#[trigger] keyed@[j]).2 == e2 by {
                let w = choose|w: int| 0 <= w < unsorted.len() && (#[trigger] unsorted[w]).2 == e2;
                assert(keyed@.contains(unsorted[w]));
                let j = choose|j: int| 0 <= j < keyed@.len() && keyed@[j] == unsorted[w];
                assert(keyed@[j].2 == e2);
            }
        }
        let mut r: Vec<usize> = Vec::new();
        let mut j: usize = 0;
        while j < keyed.len()
            invariant
                self.wf(),
                0 <= j <= keyed@.len(),
                forall|k: int|
                    0 <= k < keyed@.len() ==> {
                        let t = #[trigger] keyed@[k];
                        &&& self.live_edge(t.2 as int)
                        &&& predicates::proper_crossing(
                            self.pos(start as int),
                            self.pos(end as int),
                            self.pos(self.edge_at(t.2 as int).a as int),
                            self.pos(self.edge_at(t.2 as int).b as int),
                        )
                    },
                r@.len() == j,
                forall|k: int|
                    0 <= k < j ==> r@[k] == (#[trigger] keyed@[k]).2,
                forall|k: int|
                    0 <= k < keyed@.len() ==> (#[trigger] keyed@[k]).0 == self.pos(
                        self.edge_at(keyed@[k].2 as int).a as int,
                    ) && keyed@[k].1 == self.pos(self.edge_at(keyed@[k].2 as int).b as int),
                forall|j1: int, j2: int|
                    0 <= j1 < j2 < keyed@.len() ==> predicates::crossing_param_le(
                        ps,
                        pe,
                        ((#[trigger] keyed@[j1]).0, keyed@[j1].1),
                        ((#[trigger] keyed@[j2]).0, keyed@[j2].1),
                    ),
                ps == self.pos(start as int),
                pe == self.pos(end as int),
            decreases keyed@.len() - j,
        {
            let t = keyed[j];
            r.push(t.2);
            j = j + 1;
        }
        proof {
            assert forall|jj: int|
                0 <= jj < r@.len() implies self.live_edge(r@[jj] as int)
                && predicates::proper_crossing(
                self.pos(start as int),
                self.pos(end as int),
                self.pos(self.edge_at(r@[jj] as int).a as int),
                self.pos(self.edge_at(r@[jj] as int).b as int),
            ) by {
                let t = keyed@[jj];
                assert(r@[jj] == t.2);
                assert(self.live_edge(t.2 as int));
            }
            assert forall|e2: int|
                #[trigger] self.live_edge(e2) && predicates::proper_crossing(
                    self.pos(start as int),
                    self.pos(end as int),
                    self.pos(self.edge_at(e2).a as int),
                    self.pos(self.edge_at(e2).b as int),
                ) implies exists|j: int| 0 <= j < r@.len() && r@[j] == e2 by {
                let j = choose|j: int| 0 <= j < keyed@.len() && (#[trigger] keyed@[j]).2 == e2;
                assert(r@[j] == keyed@[j].2);
            }
            assert forall|j1: int, j2: int|
                0 <= j1 < j2 < r@.len() implies predicates::crossing_param_le(
                self.pos(start as int),
                self.pos(end as int),
                (
                    self.pos(self.edge_at(#[trigger] r@[j1] as int).a as int),
                    self.pos(self.edge_at(r@[j1] as int).b as int),
                ),
                (
                    self.pos(self.edge_at(#[trigger] r@[j2] as int).a as int),
                    self.pos(self.edge_at(r@[j2] as int).b as int),
                ),
            ) by {
                assert(r@[j1] == keyed@[j1].2 && r@[j2] == keyed@[j2].2);
                assert(predicates::crossing_param_le(
                    ps,
                    pe,
                    (keyed@[j1].0, keyed@[j1].1),
                    (keyed@[j2].0, keyed@[j2].1),
                ));
            }
        }
        r
    }

    /// Forces the segment from vertex `start` to vertex `end` to be a
    /// constrained mesh edge. When the two vertices already share an edge it
    /// is only marked. Otherwise the faces straddling the segment are
    /// removed, the channel is re-triangulated by fanning `start` against
    /// the upper and lower chains of the carved region, the new edge is
    /// marked, surviving constraint sets are restored, and the region is
    /// legalised. Returns whether a constrained edge joining the two
    /// vertices stands in the mesh.
    pub fn insert_segment(&mut self, start: usize, end: usize, constraint_id: usize) -> (r: bool)
        requires
            old(self).wf(),
            start < old(self).n_verts(),
            end < old(self).n_verts(),
        ensures
            final(self).wf(),
            final(self).vertices@ == old(self).vertices@,
            r ==> final(self).has_constrained_edge(start, end, constraint_id),
            !r ==> forall|ee: int| !(#[trigger] final(self).joins(ee, start, end)),
            (exists|ee: int| #[trigger] old(self).joins(ee, start, end)) ==> r && final(self).faces@ == old(self).faces@ && final(self).sym_edges@ == old(self).sym_edges@
                && final(self).half_edge_map@ == old(self).half_edge_map@ && final(self).edges@.len() == old(self).edges@.len() && (forall|e2: int|
                0 <= e2 < old(self).edges@.len() ==> ((final(self).edges@[e2] is Some) <==> (old(self).edges@[e2] is Some))) && (forall|e2: int|
                #[trigger] old(self).live_edge(e2) && !CDT::same_pair(
                    old(self).edge_at(e2).a,
                    old(self).edge_at(e2).b,
                    start,
                    end,
                ) ==> final(self).edges@[e2] == old(self).edges@[e2]) && (forall|e2: int, c: usize|
                old(self).live_edge(e2) && #[trigger] old(self).edge_at(e2).crep@.contains(c)
                    ==> final(self).live_edge(e2) && final(self).edge_at(e2).crep@.contains(c)),
            ((forall|ee: int| !(#[trigger] old(self).joins(ee, start, end))) && (forall|ee: int|
                #[trigger] old(self).live_edge(ee) ==> !predicates::proper_crossing(
                    old(self).pos(start as int),
                    old(self).pos(end as int),
                    old(self).pos(old(self).edge_at(ee).a as int),
                    old(self).pos(old(self).edge_at(ee).b as int),
                ))) ==> !r && *final(self) == *old(self),
    {
        let edge_list = self.find_crossed_edges(start, end);
        // Already joined by an edge: mark it.
        match self.find_live_edge(start, end) {
            Some(slot) => {
                let mut ids: Vec<usize> = Vec::new();
                ids.push(constraint_id);
                proof {
                    assert(ids@[0] == constraint_id);
                }
                self.edge_add_constraints(slot, &ids);
                proof {
                    assert(self.live_edge(slot as int));
                    assert(self.edge_at(slot as int).crep@.contains(ids@[0]));
                    assert(old(self).joins(slot as int, start, end));
                    assert forall|e2: int|
                        0 <= e2 < old(self).edges@.len() implies ((self.edges@[e2] is Some) <==> (
                    old(self).edges@[e2] is Some)) by {
                        if e2 != slot {
                            assert(self.edges@[e2] == old(self).edges@[e2]);
                        }
                    }
                    assert forall|e2: int|
                        #[trigger] old(self).live_edge(e2) && !CDT::same_pair(
                            old(self).edge_at(e2).a,
                            old(self).edge_at(e2).b,
                            start,
                            end,
                        ) implies self.edges@[e2] == old(self).edges@[e2] by {
                        assert(e2 != slot);
                    }
                    assert forall|e2: int, c: usize|
                        old(self).live_edge(e2) && #[trigger] old(self).edge_at(
                            e2,
                        ).crep@.contains(c) implies self.live_edge(e2) && self.edge_at(
                        e2,
                    ).crep@.contains(c) by {
                        if e2 != slot {
                            assert(self.edges@[e2] == old(self).edges@[e2]);
                        }
                    }
                }
                return true;
            },
            None => {},
        }
        if edge_list.len() == 0 {
            return false;
        }
        proof {
            // at least one live edge properly crosses the open segment
            assert(self.live_edge(edge_list@[0] as int));
        }
        let saved = self.save_all_constrained_edges();
        let ps = self.vertices[start].position;
        let pe = self.vertices[end].position;
        let mut top: Vec<usize> = Vec::new();
        let mut bottom: Vec<usize> = Vec::new();
        let mut i: usize = 0;
        while i < edge_list.len()
            invariant
                self.wf(),
                self.vertices@ == old(self).vertices@,
                start < self.n_verts(),
                end < self.n_verts(),
                ps.wf(),
                pe.wf(),
                0 <= i <= edge_list@.len(),
                forall|ee: int| !(#[trigger] self.joins(ee, start, end)),
                top@.len() == bottom@.len(),
                forall|j: int| 0 <= j < top@.len() ==> #[trigger] top@[j] < self.n_verts(),
                forall|j: int| 0 <= j < bottom@.len() ==> #[trigger] bottom@[j] < self.n_verts(),
            decreases edge_list@.len() - i,
        {
            let eidx = edge_list[i];
            if eidx < self.edges.len() {
                let pair = match &self.edges[eidx] {
                    Some(ed) => Some((ed.a, ed.b)),
                    None => None,
                };
                match pair {
                    Some((ca, cb)) => {
                        proof {
                            assert(self.live_edge(eidx as int));
                        }
                        let pca = self.vertices[ca].position;
                        // remove every face still incident to the crossed
                        // edge; a shared face of two consecutive crossed
                        // edges is gone by the time the second one comes up
                        let syms = self.get_all_sym_edges_for_edge(ca, cb);
                        if syms.len() > 0 {
                            let fa = self.sym_edges[syms[0]].unwrap().face;
                            let fb = if syms.len() > 1 {
                                let s2 = syms[1];
                                proof {
                                    assert(self.live_sym(s2 as int));
                                }
                                Some(self.sym_edges[s2].unwrap().face)
                            } else {
                                None
                            };
                            let ghost before_rm = *self;
                            self.remove_face(fa);
                            let ghost mid_rm = *self;
                            match fb {
                                Some(fb) => {
                                    self.remove_face(fb);
                                },
                                None => {},
                            }
                            proof {
                                assert forall|ee: int| !(#[trigger] self.joins(ee, start, end)) by {
                                    if self.joins(ee, start, end) {
                                        assert(self.edges@[ee] == mid_rm.edges@[ee]
                                            || !(self.edges@[ee] is Some));
                                        assert(mid_rm.edges@[ee] == before_rm.edges@[ee]
                                            || !(mid_rm.edges@[ee] is Some));
                                        assert(before_rm.joins(ee, start, end));
                                    }
                                }
                            }
                            if Self::is_ccw(&ps, &pe, &pca) == Orientation::CounterClockwise {
                                top.push(ca);
                                bottom.push(cb);
                            } else {
                                top.push(cb);
                                bottom.push(ca);
                            }
                        }
                    },
                    None => {},
                }
            }
            i = i + 1;
        }
        if top.len() == 0 {
            return false;
        }
        // Fan the upper and lower chains out of `start`, then close the
        // channel with the two triangles that bracket `end`.
        let m = top.len();
        let mut k: usize = 0;
        while k < m - 1
            invariant
                self.wf(),
                self.vertices@ == old(self).vertices@,
                start < self.n_verts(),
                end < self.n_verts(),
                1 <= m == top@.len(),
                0 <= k <= m - 1,
                top@.len() == bottom@.len(),
                forall|j: int| 0 <= j < top@.len() ==> #[trigger] top@[j] < self.n_verts(),
                forall|j: int| 0 <= j < bottom@.len() ==> #[trigger] bottom@[j] < self.n_verts(),
            decreases top@.len() - k,
        {
            self.add_face(start, top[k], top[k + 1]);
            k = k + 1;
        }
        k = 0;
        while k < m - 1
            invariant
                self.wf(),
                self.vertices@ == old(self).vertices@,
                start < self.n_verts(),
                end < self.n_verts(),
                1 <= m == bottom@.len(),
                0 <= k <= m - 1,
                top@.len() == bottom@.len(),
                forall|j: int| 0 <= j < top@.len() ==> #[trigger] top@[j] < self.n_verts(),
                forall|j: int| 0 <= j < bottom@.len() ==> #[trigger] bottom@[j] < self.n_verts(),
            decreases bottom@.len() - k,
        {
            self.add_face(start, bottom[k + 1], bottom[k]);
            k = k + 1;
        }
        let vtop = top[top.len() - 1];
        let vbot = bottom[bottom.len() - 1];
        // the two closing triangles bracketing `end`, wound like the rest
        // of the mesh
        self.add_face(start, vtop, end);
        self.add_face(start, end, vbot);
        // Constraints that survived the carve keep their identifiers.
        self.restore_constrained_sides(&saved);
        // Mark the new edge before legalising, so that no flip touches it.
        match self.find_live_edge(start, end) {
            Some(slot) => {
                let mut ids: Vec<usize> = Vec::new();
                ids.push(constraint_id);
                self.edge_add_constraints(slot, &ids);
            },
            None => {
                return false;
            },
        }
        // Legalise every side of the re-triangulated channel.
        let mut queue: Vec<usize> = Vec::new();
        k = 0;
        while k < top.len()
            invariant
                self.wf(),
                self.vertices@ == old(self).vertices@,
                start < self.n_verts(),
                end < self.n_verts(),
                0 <= k <= top@.len(),
                top@.len() == bottom@.len(),
                forall|j: int| 0 <= j < top@.len() ==> #[trigger] top@[j] < self.n_verts(),
                forall|j: int| 0 <= j < bottom@.len() ==> #[trigger] bottom@[j] < self.n_verts(),
            decreases top@.len() - k,
        {
            match self.find_live_edge(start, top[k]) {
                Some(es) => queue.push(es),
                None => {},
            }
            match self.find_live_edge(start, bottom[k]) {
                Some(es) => queue.push(es),
                None => {},
            }
            if k + 1 < top.len() {
                match self.find_live_edge(top[k], top[k + 1]) {
                    Some(es) => queue.push(es),
                    None => {},
                }
                match self.find_live_edge(bottom[k], bottom[k + 1]) {
                    Some(es) => queue.push(es),
                    None => {},
                }
            }
            k = k + 1;
        }
        match self.find_live_edge(vtop, end) {
            Some(es) => queue.push(es),
            None => {},
        }
        match self.find_live_edge(vbot, end) {
            Some(es) => queue.push(es),
            None => {},
        }
        let ptop = self.vertices[vtop].position;
        let fuel = self.flip_fuel();
        self.flip_edges(ptop, queue, fuel);
        // Legalisation flips no constrained edge, but pin the outcome: the
        // marked edge must still stand.
        match self.find_live_edge(start, end) {
            Some(slot) => {
                let mut ids: Vec<usize> = Vec::new();
                ids.push(constraint_id);
                proof {
                    assert(ids@[0] == constraint_id);
                }
                self.edge_add_constraints(slot, &ids);
                proof {
                    assert(self.live_edge(slot as int));
                    assert(self.edge_at(slot as int).crep@.contains(ids@[0]));
                }
                true
            },
            None => false,
        }
    }

    /// Inserts one constraint polyline: locates every point, splitting an
    /// edge or face where it lands on one and dropping points outside the
    /// mesh or off the grid, then forces an edge between each consecutive
    /// pair of resolved vertices, marked with `constraint_id`.
    pub fn insert_constraint(&mut self, constraint_points: &Vec<Point>, constraint_id: usize) -> (r: (
        Vec<usize>,
        bool,
    ))
        requires
            old(self).wf(),
        ensures
            final(self).wf(),
            old(self).vertices@.len() <= final(self).vertices@.len(),
            forall|i: int|
                0 <= i < old(self).vertices@.len() ==> final(self).vertices@[i] == old(self).vertices@[i],
            r.0@.len() <= constraint_points@.len(),
            forall|j: int| 0 <= j < r.0@.len() ==> #[trigger] r.0@[j] < final(self).n_verts(),
            forall|k: int|
                0 <= k < r.0@.len() - 1 ==> final(self).has_constrained_edge(
                    #[trigger] r.0@[k],
                    r.0@[k + 1],
                    constraint_id,
                ) || (forall|ee: int| !(#[trigger] final(self).joins(ee, r.0@[k], r.0@[k + 1]))),
            r.1 ==> forall|k: int|
                0 <= k < r.0@.len() - 1 ==> final(self).has_constrained_edge(
                    #[trigger] r.0@[k],
                    r.0@[k + 1],
                    constraint_id,
                ),
    {
        let mut vertex_list: Vec<usize> = Vec::new();
        let mut i: usize = 0;
        while i < constraint_points.len()
            invariant
                self.wf(),
                0 <= i <= constraint_points@.len(),
                old(self).vertices@.len() <= self.vertices@.len(),
                forall|j: int|
                    0 <= j < old(self).vertices@.len() ==> self.vertices@[j] == old(self).vertices@[j],
                vertex_list@.len() <= i,
                forall|j: int|
                    0 <= j < vertex_list@.len() ==> #[trigger] vertex_list@[j] < self.n_verts(),
            decreases constraint_points@.len() - i,
        {
            let p = constraint_points[i];
            if p.in_range() {
                match self.locate_point(p) {
                    LocateResult::Vertex(v) => {
                        vertex_list.push(v);
                    },
                    LocateResult::Edge(e) => {
                        let v = self.insert_point_on_edge(p, e);
                        vertex_list.push(v);
                    },
                    LocateResult::Face(f) => {
                        let v = self.insert_point_in_face(p, f);
                        vertex_list.push(v);
                    },
                    LocateResult::Outside => {},
                }
            }
            i = i + 1;
        }
        if vertex_list.len() >= 1 {
            let m = vertex_list.len();
            let mut k: usize = 0;
            while k < m - 1
                invariant
                    self.wf(),
                    1 <= m == vertex_list@.len(),
                    0 <= k <= m - 1,
                    old(self).vertices@.len() <= self.vertices@.len(),
                    forall|j: int|
                        0 <= j < old(self).vertices@.len() ==> self.vertices@[j] == old(self).vertices@[j],
                    forall|j: int|
                        0 <= j < vertex_list@.len() ==> #[trigger] vertex_list@[j]
                            < self.n_verts(),
                decreases m - k,
            {
                self.insert_segment(vertex_list[k], vertex_list[k + 1], constraint_id);
                k = k + 1;
            }
        }
        // A closing pass re-marks every consecutive pair that an edge still
        // joins: later segments may lawfully have carved an earlier pair's
        // edge away, but one that stands must carry the identifier.
        let mut all_joined = true;
        if vertex_list.len() >= 1 {
            let m = vertex_list.len();
            let mut k: usize = 0;
            while k < m - 1
                invariant
                    self.wf(),
                    1 <= m == vertex_list@.len(),
                    0 <= k <= m - 1,
                    old(self).vertices@.len() <= self.vertices@.len(),
                    forall|j: int|
                        0 <= j < old(self).vertices@.len() ==> self.vertices@[j] == old(self).vertices@[j],
                    forall|j: int|
                        0 <= j < vertex_list@.len() ==> #[trigger] vertex_list@[j]
                            < self.n_verts(),
                    forall|j: int|
                        0 <= j < k ==> self.has_constrained_edge(
                            #[trigger] vertex_list@[j],
                            vertex_list@[j + 1],
                            constraint_id,
                        ) || (forall|ee: int|
                            !(#[trigger] self.joins(
                                ee,
                                vertex_list@[j],
                                vertex_list@[j + 1],
                            ))),
                    all_joined ==> forall|j: int|
                        0 <= j < k ==> self.has_constrained_edge(
                            #[trigger] vertex_list@[j],
                            vertex_list@[j + 1],
                            constraint_id,
                        ),
                decreases m - k,
            {
                let ghost pre = *self;
                match self.find_live_edge(vertex_list[k], vertex_list[k + 1]) {
                    Some(slot) => {
                        let mut ids: Vec<usize> = Vec::new();
                        ids.push(constraint_id);
                        proof {
                            assert(ids@[0] == constraint_id);
                        }
                        self.edge_add_constraints(slot, &ids);
                        proof {
                            assert(self.edge_at(slot as int).crep@.contains(ids@[0]));
                            assert(self.has_constrained_edge(
                                vertex_list@[k as int],
                                vertex_list@[k + 1],
                                constraint_id,
                            ));
                            assert forall|j: int|
                                0 <= j < k + 1 implies self.has_constrained_edge(
                                #[trigger] vertex_list@[j],
                                vertex_list@[j + 1],
                                constraint_id,
                            ) || (forall|ee: int|
                                !(#[trigger] self.joins(
                                    ee,
                                    vertex_list@[j],
                                    vertex_list@[j + 1],
                                ))) by {
                                if j < k {
                                    if pre.has_constrained_edge(
                                        vertex_list@[j],
                                        vertex_list@[j + 1],
                                        constraint_id,
                                    ) {
                                        let w = choose|w: int|
                                            #[trigger] pre.live_edge(w) && CDT::same_pair(
                                                pre.edge_at(w).a,
                                                pre.edge_at(w).b,
                                                vertex_list@[j],
                                                vertex_list@[j + 1],
                                            ) && pre.edge_at(w).crep@.contains(constraint_id);
                                        if w != slot {
                                            assert(self.edges@[w] == pre.edges@[w]);
                                        }
                                        assert(self.live_edge(w) && self.edge_at(
                                            w,
                                        ).crep@.contains(constraint_id));
                                    } else {
                                        assert forall|ee: int|
                                            !(#[trigger] self.joins(
                                                ee,
                                                vertex_list@[j],
                                                vertex_list@[j + 1],
                                            )) by {
                                            if self.joins(
                                                ee,
                                                vertex_list@[j],
                                                vertex_list@[j + 1],
                                            ) {
                                                if ee != slot {
                                                    assert(self.edges@[ee] == pre.edges@[ee]);
                                                }
                                                assert(pre.joins(
                                                    ee,
                                                    vertex_list@[j],
                                                    vertex_list@[j + 1],
                                                ));
                                            }
                                        }
                                    }
                                }
                            }
                            assert forall|j: int|
                                all_joined && 0 <= j < k + 1 implies self.has_constrained_edge(
                                #[trigger] vertex_list@[j],
                                vertex_list@[j + 1],
                                constraint_id,
                            ) by {
                                if j < k {
                                    assert(pre.has_constrained_edge(
                                        vertex_list@[j],
                                        vertex_list@[j + 1],
                                        constraint_id,
                                    ));
                                    let w = choose|w: int|
                                        #[trigger] pre.live_edge(w) && CDT::same_pair(
                                            pre.edge_at(w).a,
                                            pre.edge_at(w).b,
                                            vertex_list@[j],
                                            vertex_list@[j + 1],
                                        ) && pre.edge_at(w).crep@.contains(constraint_id);
                                    if w != slot {
                                        assert(self.edges@[w] == pre.edges@[w]);
                                    }
                                    assert(self.live_edge(w) && self.edge_at(w).crep@.contains(
                                        constraint_id,
                                    ));
                                }
                            }
                        }
                    },
                    None => {
                        all_joined = false;
                    },
                }
                k = k + 1;
            }
        }
        (vertex_list, all_joined)
    }

    /// Inserts every polyline of `constraints`, each under its own
    /// identifier.
    pub fn add_constraints(&mut self, constraints: &Constraints)
        requires
            old(self).wf(),
        ensures
            final(self).wf(),
            old(self).vertices@.len() <= final(self).vertices@.len(),
            forall|i: int|
                0 <= i < old(self).vertices@.len() ==> final(self).vertices@[i] == old(self).vertices@[i],
    {
        let mut i: usize = 0;
        while i < constraints.constraint_segments.len()
            invariant
                self.wf(),
                0 <= i <= constraints.constraint_segments@.len(),
                old(self).vertices@.len() <= self.vertices@.len(),
                forall|j: int|
                    0 <= j < old(self).vertices@.len() ==> self.vertices@[j] == old(self).vertices@[j],
            decreases constraints.constraint_segments@.len() - i,
        {
            let seg = &constraints.constraint_segments[i];
            self.insert_constraint(&seg.constraints, seg.id);
            i = i + 1;
        }
    }
}

/// Sorts the crossed edges by their exact crossing parameter along the
/// segment `(s, t)`, ascending.
fn sort_by_crossing(s: Point, t: Point, keyed: &mut Vec<(Point, Point, usize)>)
    requires
        s.wf(),
        t.wf(),
        forall|j: int|
            0 <= j < old(keyed)@.len() ==> (#[trigger] old(keyed)@[j]).0.wf() && old(
                keyed,
            )@[j].1.wf(),
        forall|j: int|
            0 <= j < old(keyed)@.len() ==> predicates::proper_crossing(
                s,
                t,
                (#[trigger] old(keyed)@[j]).0,
                old(keyed)@[j].1,
            ),
    ensures
        final(keyed)@.len() == old(keyed)@.len(),
        forall|j: int|
            0 <= j < final(keyed)@.len() ==> old(keyed)@.contains(#[trigger] final(keyed)@[j]),
        forall|j: int|
            0 <= j < old(keyed)@.len() ==> final(keyed)@.contains(#[trigger] old(keyed)@[j]),
        forall|j1: int, j2: int|
            0 <= j1 < j2 < final(keyed)@.len() ==> predicates::crossing_param_le(
                s,
                t,
                ((#[trigger] final(keyed)@[j1]).0, final(keyed)@[j1].1),
                ((#[trigger] final(keyed)@[j2]).0, final(keyed)@[j2].1),
            ),
{
    let ghost orig = keyed@;
    proof {
        assert forall|j: int| 0 <= j < keyed@.len() implies orig.contains(#[trigger] keyed@[j]) by {
            assert(orig[j] == keyed@[j]);
        }
        assert forall|j: int| 0 <= j < orig.len() implies keyed@.contains(#[trigger] orig[j]) by {
            assert(keyed@[j] == orig[j]);
        }
    }
    let mut i: usize = 1;
    while i < keyed.len()
        invariant
            s.wf(),
            t.wf(),
            keyed@.len() == orig.len(),
            forall|j: int| 0 <= j < keyed@.len() ==> orig.contains(#[trigger] keyed@[j]),
            forall|j: int| 0 <= j < orig.len() ==> keyed@.contains(#[trigger] orig[j]),
            forall|j: int|
                0 <= j < keyed@.len() ==> (#[trigger] keyed@[j]).0.wf() && keyed@[j].1.wf(),
            forall|j: int|
                0 <= j < keyed@.len() ==> predicates::proper_crossing(
                    s,
                    t,
                    (#[trigger] keyed@[j]).0,
                    keyed@[j].1,
                ),
            forall|j1: int, j2: int|
                0 <= j1 < j2 < i && j2 < keyed@.len() ==> predicates::crossing_param_le(
                    s,
                    t,
                    ((#[trigger] keyed@[j1]).0, keyed@[j1].1),
                    ((#[trigger] keyed@[j2]).0, keyed@[j2].1),
                ),
        decreases keyed@.len() - i,
    {
        let mut j: usize = i;
        while j > 0
            invariant
                s.wf(),
                t.wf(),
                j <= i < keyed@.len(),
                keyed@.len() == orig.len(),
                forall|jj: int| 0 <= jj < keyed@.len() ==> orig.contains(#[trigger] keyed@[jj]),
                forall|jj: int| 0 <= jj < orig.len() ==> keyed@.contains(#[trigger] orig[jj]),
                forall|jj: int|
                    0 <= jj < keyed@.len() ==> (#[trigger] keyed@[jj]).0.wf() && keyed@[jj].1.wf(),
                forall|jj: int|
                    0 <= jj < keyed@.len() ==> predicates::proper_crossing(
                        s,
                        t,
                        (#[trigger] keyed@[jj]).0,
                        keyed@[jj].1,
                    ),
                forall|x: int, y: int|
                    0 <= x < y <= i && y != j ==> predicates::crossing_param_le(
                        s,
                        t,
                        ((#[trigger] keyed@[x]).0, keyed@[x].1),
                        ((#[trigger] keyed@[y]).0, keyed@[y].1),
                    ),
            ensures
                j <= i < keyed@.len(),
                keyed@.len() == orig.len(),
                forall|jj: int| 0 <= jj < keyed@.len() ==> orig.contains(#[trigger] keyed@[jj]),
                forall|jj: int| 0 <= jj < orig.len() ==> keyed@.contains(#[trigger] orig[jj]),
                forall|jj: int|
                    0 <= jj < keyed@.len() ==> (#[trigger] keyed@[jj]).0.wf() && keyed@[jj].1.wf(),
                forall|jj: int|
                    0 <= jj < keyed@.len() ==> predicates::proper_crossing(
                        s,
                        t,
                        (#[trigger] keyed@[jj]).0,
                        keyed@[jj].1,
                    ),
                forall|x: int, y: int|
                    0 <= x < y <= i ==> predicates::crossing_param_le(
                        s,
                        t,
                        ((#[trigger] keyed@[x]).0, keyed@[x].1),
                        ((#[trigger] keyed@[y]).0, keyed@[y].1),
                    ),
            decreases j,
        {
            let a = keyed[j - 1];
            let b = keyed[j];
            if predicates::crossing_le(s, t, (a.0, a.1), (b.0, b.1)) {
                proof {
                    // the bubbled element is in place: close the sorted
                    // block with transitivity through its predecessor
                    assert forall|x: int, y: int|
                        0 <= x < y <= i implies predicates::crossing_param_le(
                        s,
                        t,
                        ((#[trigger] keyed@[x]).0, keyed@[x].1),
                        ((#[trigger] keyed@[y]).0, keyed@[y].1),
                    ) by {
                        if y == j {
                            if x < j - 1 {
                                predicates::lemma_param_den_nonzero(
                                    s,
                                    t,
                                    keyed@[x].0,
                                    keyed@[x].1,
                                );
                                predicates::lemma_param_den_nonzero(
                                    s,
                                    t,
                                    keyed@[j - 1].0,
                                    keyed@[j - 1].1,
                                );
                                predicates::lemma_param_den_nonzero(
                                    s,
                                    t,
                                    keyed@[j as int].0,
                                    keyed@[j as int].1,
                                );
                                predicates::lemma_crossing_le_trans(
                                    s,
                                    t,
                                    (keyed@[x].0, keyed@[x].1),
                                    (keyed@[j - 1].0, keyed@[j - 1].1),
                                    (keyed@[j as int].0, keyed@[j as int].1),
                                );
                            }
                        }
                    }
                }
                break ;
            }
            proof {
                predicates::lemma_crossing_le_total(
                    s,
                    t,
                    (keyed@[j - 1].0, keyed@[j - 1].1),
                    (keyed@[j as int].0, keyed@[j as int].1),
                );
            }
            let ghost before = keyed@;
            keyed[j - 1] = b;
            keyed[j] = a;
            proof {
                assert forall|jj: int| 0 <= jj < keyed@.len() implies orig.contains(
                    #[trigger] keyed@[jj],
                ) by {
                    if jj == j - 1 {
                        assert(keyed@[jj] == before[j as int]);
                    } else if jj == j {
                        assert(keyed@[jj] == before[j - 1]);
                    } else {
                        assert(keyed@[jj] == before[jj]);
                    }
                }
                assert forall|jj: int| 0 <= jj < orig.len() implies keyed@.contains(
                    #[trigger] orig[jj],
                ) by {
                    let w = choose|w: int| 0 <= w < before.len() && before[w] == orig[jj];
                    if w == j - 1 {
                        assert(keyed@[j as int] == orig[jj]);
                    } else if w == j {
                        assert(keyed@[j - 1] == orig[jj]);
                    } else {
                        assert(keyed@[w] == orig[jj]);
                    }
                }
                assert forall|x: int, y: int|
                    0 <= x < y <= i && y != j - 1 implies predicates::crossing_param_le(
                    s,
                    t,
                    ((#[trigger] keyed@[x]).0, keyed@[x].1),
                    ((#[trigger] keyed@[y]).0, keyed@[y].1),
                ) by {
                    let wx: int = if x == j - 1 {
                        j as int
                    } else if x == j {
                        j - 1
                    } else {
                        x
                    };
                    let wy: int = if y == j - 1 {
                        j as int
                    } else if y == j {
                        j - 1
                    } else {
                        y
                    };
                    assert(keyed@[x] == before[wx] && keyed@[y] == before[wy]);
                    if y == j && x == j - 1 {
                        assert(predicates::crossing_param_le(
                            s,
                            t,
                            (before[j as int].0, before[j as int].1),
                            (before[j - 1].0, before[j - 1].1),
                        ));
                    }
                }
            }
            j = j - 1;
        }
        i = i + 1;
    }
}

} // verus!