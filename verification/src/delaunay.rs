use vstd::prelude::*;

use crate::cdt::CDT;
use crate::point::Point;
use crate::predicates;

verus! {

impl CDT {
    /// The in-circle check that legalisation performs for the ordered pair
    /// of sym-edges `(s1, s2)` of one shared edge: the triple of `s1`'s face
    /// against the vertex of `s2`'s face opposite the edge.
    pub open spec fn edge_locally_delaunay(self, s1: int, s2: int) -> bool {
        let e = self.sym_at(s1).edge as int;
        let f1 = self.face_at(self.sym_at(s1).face as int);
        let f2 = self.face_at(self.sym_at(s2).face as int);
        let o = f2.opposite_spec(self.edge_at(e).a, self.edge_at(e).b);
        predicates::is_delaunay_spec(
            self.pos(f1.v0 as int),
            self.pos(f1.v1 as int),
            self.pos(f1.v2 as int),
            self.pos(o as int),
        )
    }

    /// The Delaunay invariant of the whole mesh: every unconstrained edge
    /// with two incident faces passes the in-circle check from both sides.
    pub open spec fn delaunay_ok(self) -> bool {
        forall|s1: int, s2: int|
            #[trigger] self.live_sym(s1) && #[trigger] self.live_sym(s2) && self.sym_at(s1).edge
                == self.sym_at(s2).edge && s1 != s2 && self.edge_at(
                self.sym_at(s1).edge as int,
            ).crep@.len() == 0 ==> self.edge_locally_delaunay(s1, s2)
    }

    /// The in-circle test: the edge of the triangle `(a, b, c)` opposite
    /// `d` is locally Delaunay exactly when the lifted determinant is
    /// non-negative, under the mesh's winding convention.
    pub fn is_delaunay(a: Point, b: Point, c: Point, d: Point) -> (r: bool)
        requires
            a.wf(),
            b.wf(),
            c.wf(),
            d.wf(),
        ensures
            r == predicates::is_delaunay_spec(a, b, c, d),
    {
        predicates::is_delaunay_points(a, b, c, d)
    }

    /// Runs the in-circle check of `edge_locally_delaunay` on live sym-edges
    /// `s1` and `s2` of one shared edge.
    fn check_pair(&self, s1: usize, s2: usize) -> (r: bool)
        requires
            self.wf(),
            self.live_sym(s1 as int),
            self.live_sym(s2 as int),
            self.sym_at(s1 as int).edge == self.sym_at(s2 as int).edge,
        ensures
            r == self.edge_locally_delaunay(s1 as int, s2 as int),
    {
        let se1 = self.sym_edges[s1].unwrap();
        let se2 = self.sym_edges[s2].unwrap();
        proof {
            assert(self.live_face(se1.face as int));
            assert(self.live_face(se2.face as int));
            assert(self.face_corner_ok(se1.face as int, se1.slot as int));
        }
        let f1 = self.faces[se1.face].unwrap();
        let f2 = self.faces[se2.face].unwrap();
        let ed = match &self.edges[se1.edge] {
            Some(ed) => (ed.a, ed.b),
            None => (0, 0),
        };
        proof {
            assert(self.face_corner_ok(se2.face as int, se2.slot as int));
            assert(self.live_edge(se1.edge as int));
            let sl = se2.slot as int;
            assert(sl == 0 || sl == 1 || sl == 2);
            assert(f2.side_is(sl, ed.0, ed.1));
        }
        let o = f2.opposite_vertex(ed.0, ed.1);
        let pa = self.vertices[f1.v0].position;
        let pb = self.vertices[f1.v1].position;
        let pc = self.vertices[f1.v2].position;
        let po = self.vertices[o].position;
        Self::is_delaunay(pa, pb, pc, po)
    }

    /// Whole-mesh Delaunay check: scans every pair of sym-edges that share
    /// an unconstrained edge and reports whether each passes the in-circle
    /// test. This is the executable face of `delaunay_ok`.
    pub fn is_delaunay_mesh(&self) -> (r: bool)
        requires
            self.wf(),
        ensures
            r == self.delaunay_ok(),
    {
        let n = self.sym_edges.len();
        let mut s1: usize = 0;
        while s1 < n
            invariant
                self.wf(),
                n == self.sym_edges@.len(),
                0 <= s1 <= n,
                forall|a: int, b: int|
                    0 <= a < s1 && #[trigger] self.live_sym(a) && #[trigger] self.live_sym(b)
                        && self.sym_at(a).edge == self.sym_at(b).edge && a != b && self.edge_at(
                        self.sym_at(a).edge as int,
                    ).crep@.len() == 0 ==> self.edge_locally_delaunay(a, b),
            decreases n - s1,
        {
            if self.sym_edges[s1].is_some() {
                let mut s2: usize = 0;
                while s2 < n
                    invariant
                        self.wf(),
                        n == self.sym_edges@.len(),
                        0 <= s2 <= n,
                        s1 < n,
                        self.live_sym(s1 as int),
                        forall|b: int|
                            0 <= b < s2 && #[trigger] self.live_sym(b) && self.sym_at(
                                s1 as int,
                            ).edge == self.sym_at(b).edge && s1 != b && self.edge_at(
                                self.sym_at(s1 as int).edge as int,
                            ).crep@.len() == 0 ==> self.edge_locally_delaunay(s1 as int, b),
                    decreases n - s2,
                {
                    if s2 != s1 && self.sym_edges[s2].is_some() {
                        let se1 = self.sym_edges[s1].unwrap();
                        let se2 = self.sym_edges[s2].unwrap();
                        if se1.edge == se2.edge {
                            proof {
                                assert(self.live_sym(s2 as int));
                                assert(self.face_corner_ok(
                                    self.sym_at(s1 as int).face as int,
                                    self.sym_at(s1 as int).slot as int,
                                ));
                            }
                            let unconstrained = match &self.edges[se1.edge] {
                                Some(ed) => ed.crep.len() == 0,
                                None => false,
                            };
                            if unconstrained {
                                if !self.check_pair(s1, s2) {
                                    proof {
                                        if self.delaunay_ok() {
                                            assert(self.live_sym(s1 as int) && self.live_sym(
                                                s2 as int,
                                            ));
                                            assert(self.edge_locally_delaunay(
                                                s1 as int,
                                                s2 as int,
                                            ));
                                        }
                                    }
                                    return false;
                                }
                            }
                        }
                    }
                    s2 = s2 + 1;
                }
            }
            s1 = s1 + 1;
        }
        true
    }

    /// Edge slot `e` raises no suspicion: whenever it is live, unconstrained
    /// and carries two sym-edges, one ordered pair of them passes the
    /// in-circle check.
    pub open spec fn edge_settled(self, e: int) -> bool {
        (self.live_edge(e) && self.edge_at(e).crep@.len() == 0 && exists|s1: int, s2: int|
            #[trigger] self.live_sym(s1) && #[trigger] self.live_sym(s2) && self.sym_at(s1).edge
                == e && self.sym_at(s2).edge == e && s1 != s2) ==> exists|s1: int, s2: int|
            #[trigger] self.live_sym(s1) && #[trigger] self.live_sym(s2) && self.sym_at(s1).edge
                == e && self.sym_at(s2).edge == e && s1 != s2 && self.edge_locally_delaunay(
                s1,
                s2,
            )
    }

    /// Pops suspect edges and flips each one that is unconstrained, has two
    /// incident faces, and fails the in-circle check; the two surviving
    /// sides of the checked face are pushed back as new suspects. `p` is the
    /// vertex whose insertion raised the suspects: the check is run from the
    /// face not containing it. `fuel` bounds the number of flips, as a
    /// safety valve; processing stops when it runs out.
    ///
    /// Returns the number of flips performed and whether the queue was
    /// drained before the fuel ran out. When no flip was performed the mesh
    /// is returned exactly as it was, and if in addition the queue was
    /// drained, every suspect handed in has been checked: each is settled.
    /// A mesh that already satisfies the Delaunay invariant is never
    /// flipped.
    pub fn flip_edges(&mut self, p: Point, queue: Vec<usize>, fuel: usize) -> (r: (usize, bool))
        requires
            old(self).wf(),
            p.wf(),
        ensures
            final(self).wf(),
            final(self).vertices@ == old(self).vertices@,
            old(self).faces@.len() <= final(self).faces@.len(),
            old(self).edges@.len() <= final(self).edges@.len(),
            forall|f: int|
                0 <= f < old(self).faces@.len() && !(old(self).faces@[f] is Some) ==> !(final(self).faces@[f] is Some),
            forall|ee: int|
                0 <= ee < old(self).edges@.len() && !(old(self).edges@[ee] is Some) ==> !(final(self).edges@[ee] is Some),
            final(self).face_count_upto(final(self).faces@.len() as int) == old(self).face_count_upto(old(self).faces@.len() as int),
            forall|x: usize, y: usize, c: usize|
                #[trigger] old(self).has_constrained_edge(x, y, c) ==> final(self).has_constrained_edge(x, y, c),
            forall|u: usize, f: int|
                #[trigger] old(self).live_face(f) && #[trigger] old(self).face_at(f).has_vertex(
                    u,
                ) ==> (exists|f2: int|
                    #[trigger] final(self).live_face(f2) && final(self).face_at(f2).has_vertex(u)),
            r.0 == 0 ==> *final(self) == *old(self),
            old(self).delaunay_ok() ==> r.0 == 0 && r.1,
            r.0 == 0 && r.1 ==> forall|j: int|
                0 <= j < queue@.len() ==> final(self).edge_settled(#[trigger] queue@[j] as int),
    {
        let ghost q0 = queue@;
        let ghost fuel0 = fuel;
        let mut queue = queue;
        let mut fuel = fuel;
        let mut flips: usize = 0;
        while queue.len() > 0
            invariant
                self.wf(),
                p.wf(),
                self.vertices@ == old(self).vertices@,
                old(self).faces@.len() <= self.faces@.len(),
                old(self).edges@.len() <= self.edges@.len(),
                forall|f: int|
                    0 <= f < old(self).faces@.len() && !(old(self).faces@[f] is Some) ==> !(self.faces@[f] is Some),
                forall|ee: int|
                    0 <= ee < old(self).edges@.len() && !(old(self).edges@[ee] is Some) ==> !(self.edges@[ee] is Some),
                flips + fuel <= fuel0,
                self.face_count_upto(self.faces@.len() as int) == old(self).face_count_upto(
                    old(self).faces@.len() as int,
                ),
                forall|x: usize, y: usize, c: usize|
                    #[trigger] old(self).has_constrained_edge(x, y, c) ==> self.has_constrained_edge(x, y, c),
                forall|u: usize, f: int|
                    #[trigger] old(self).live_face(f) && #[trigger] old(self).face_at(
                        f,
                    ).has_vertex(u) ==> (exists|f2: int|
                        #[trigger] self.live_face(f2) && self.face_at(f2).has_vertex(u)),
                old(self).delaunay_ok() ==> flips == 0,
                flips == 0 ==> *self == *old(self),
                flips == 0 ==> queue@.len() <= q0.len(),
                flips == 0 ==> queue@ == q0.subrange(0, queue@.len() as int),
                flips == 0 ==> forall|j: int|
                    queue@.len() <= j < q0.len() ==> self.edge_settled(#[trigger] q0[j] as int),
            decreases fuel, queue@.len(),
        {
            let ghost queue_before = queue@;
            let e = queue.pop().unwrap();
            proof {
                if flips == 0 {
                    let n = queue_before.len() as int;
                    assert(queue_before == q0.subrange(0, n));
                    assert(queue_before[n - 1] == e);
                    assert(q0.subrange(0, n)[n - 1] == q0[n - 1]);
                    assert(q0[queue@.len() as int] == e);
                    assert forall|i: int| 0 <= i < n - 1 implies queue@[i] == q0[i] by {
                        assert(queue@[i] == queue_before[i]);
                        assert(q0.subrange(0, n)[i] == q0[i]);
                    }
                    assert(queue@ =~= q0.subrange(0, queue@.len() as int));
                }
            }
            if e >= self.edges.len() {
                proof {
                    assert(self.edge_settled(e as int));
                }
                continue ;
            }
            let (ea, eb, unconstrained) = match &self.edges[e] {
                Some(ed) => (ed.a, ed.b, ed.crep.len() == 0),
                None => (0, 0, false),
            };
            if !unconstrained {
                proof {
                    assert(self.edge_settled(e as int));
                }
                continue ;
            }
            proof {
                assert(self.live_edge(e as int));
                assert(self.edge_at(e as int).a == ea && self.edge_at(e as int).b == eb);
            }
            let s = match self.get_sym_edge_for_half_edge((ea, eb)) {
                Some(s) => s,
                None => {
                    match self.get_sym_edge_for_half_edge((eb, ea)) {
                        Some(s) => s,
                        None => {
                            proof {
                                // no sym-edge carries either direction, so
                                // the edge has no sym-edge pair at all
                                assert forall|s1: int|
                                    #[trigger] self.live_sym(s1) && self.sym_at(s1).edge
                                        == e implies false by {
                                    assert(self.face_corner_ok(
                                        self.sym_at(s1).face as int,
                                        self.sym_at(s1).slot as int,
                                    ));
                                    assert(CDT::same_pair(
                                        self.sym_at(s1).vertex,
                                        self.sym_to(s1),
                                        ea,
                                        eb,
                                    ));
                                }
                                assert(self.edge_settled(e as int));
                            }
                            continue ;
                        },
                    }
                },
            };
            proof {
                // the found sym-edge runs along the popped edge slot
                let sedge = self.sym_at(s as int).edge as int;
                assert(self.face_corner_ok(
                    self.sym_at(s as int).face as int,
                    self.sym_at(s as int).slot as int,
                ));
                assert(CDT::same_pair(self.edge_at(sedge).a, self.edge_at(sedge).b, ea, eb));
                if sedge != e {
                    assert(!CDT::same_pair(
                        self.edge_at(sedge).a,
                        self.edge_at(sedge).b,
                        self.edge_at(e as int).a,
                        self.edge_at(e as int).b,
                    ));
                    assert(false);
                }
            }
            let ns = match self.neighbor(s) {
                Some(ns) => ns,
                None => {
                    proof {
                        // the edge has a single sym-edge: nothing to flip
                        assert forall|s1: int, s2: int|
                            #[trigger] self.live_sym(s1) && #[trigger] self.live_sym(s2)
                                && self.sym_at(s1).edge == e && self.sym_at(s2).edge == e && s1
                                != s2 implies false by {
                            assert(s1 == s && s2 == s);
                        }
                        assert(self.edge_settled(e as int));
                    }
                    continue ;
                },
            };
            let sface = self.sym_edges[s].unwrap().face;
            let nsface = self.sym_edges[ns].unwrap().face;
            proof {
                assert(self.live_face(sface as int));
                assert(self.live_face(nsface as int));
            }
            let fc_s = self.faces[sface].unwrap();
            let qa = self.vertices[fc_s.v0].position;
            let qb = self.vertices[fc_s.v1].position;
            let qc = self.vertices[fc_s.v2].position;
            // When the freshly inserted vertex lies in this face, check from
            // the other side.
            let swapped = predicates::point_in_triangle_closed(qa, qb, qc, p);
            let tri_f = if swapped {
                nsface
            } else {
                sface
            };
            let opp_f = if swapped {
                sface
            } else {
                nsface
            };
            let fct = self.faces[tri_f].unwrap();
            let fco = self.faces[opp_f].unwrap();
            proof {
                assert(self.face_corner_ok(
                    self.sym_at(s as int).face as int,
                    self.sym_at(s as int).slot as int,
                ));
                assert(self.face_corner_ok(
                    self.sym_at(ns as int).face as int,
                    self.sym_at(ns as int).slot as int,
                ));
                let sls = self.sym_at(s as int).slot as int;
                let sln = self.sym_at(ns as int).slot as int;
                assert(sls == 0 || sls == 1 || sls == 2);
                assert(sln == 0 || sln == 1 || sln == 2);
                assert(self.live_edge(e as int));
            }
            let o = fco.opposite_vertex(ea, eb);
            proof {
                assert(o == fco.v0 || o == fco.v1 || o == fco.v2);
            }
            let pa = self.vertices[fct.v0].position;
            let pb = self.vertices[fct.v1].position;
            let pc = self.vertices[fct.v2].position;
            let po = self.vertices[o].position;
            let ghost ts: int = if swapped {
                ns as int
            } else {
                s as int
            };
            let ghost os: int = if swapped {
                s as int
            } else {
                ns as int
            };
            proof {
                // the executable check is exactly the specification's check
                // for the ordered sym-edge pair (ts, os)
                assert(self.sym_at(ts).edge == e && self.sym_at(os).edge == e);
                assert(self.face_at(self.sym_at(ts).face as int) == fct);
                assert(self.face_at(self.sym_at(os).face as int) == fco);
                assert(self.edge_locally_delaunay(ts, os) == predicates::is_delaunay_spec(
                    pa,
                    pb,
                    pc,
                    po,
                ));
            }
            if Self::is_delaunay(pa, pb, pc, po) {
                proof {
                    assert(self.edge_locally_delaunay(ts, os));
                    assert(self.edge_settled(e as int));
                }
                continue ;
            }
            proof {
                // Under a mesh-wide Delaunay invariant this point is
                // unreachable: the pair of sym-edges of this edge passes the
                // in-circle check in both orders.
                if old(self).delaunay_ok() {
                    assert(*self == *old(self));
                    assert(self.edge_locally_delaunay(ts, os));
                    assert(false);
                }
            }
            if fuel == 0 {
                return (flips, false);
            }
            fuel = fuel - 1;
            flips = flips + 1;
            let ghost before_flip = *self;
            // The other two sides of the checked face become suspects.
            let side0 = (fct.v0, fct.v1);
            let side1 = (fct.v1, fct.v2);
            let side2 = (fct.v2, fct.v0);
            if !((side0.0 == ea && side0.1 == eb) || (side0.0 == eb && side0.1 == ea)) {
                match self.find_live_edge(side0.0, side0.1) {
                    Some(es) => queue.push(es),
                    None => {},
                }
            }
            if !((side1.0 == ea && side1.1 == eb) || (side1.0 == eb && side1.1 == ea)) {
                match self.find_live_edge(side1.0, side1.1) {
                    Some(es) => queue.push(es),
                    None => {},
                }
            }
            if !((side2.0 == ea && side2.1 == eb) || (side2.0 == eb && side2.1 == ea)) {
                match self.find_live_edge(side2.0, side2.1) {
                    Some(es) => queue.push(es),
                    None => {},
                }
            }
            self.flip_edge(e);
            proof {
                // the flipped edge was unconstrained, so no constrained pair
                // coincides with it and every constrained edge survives
                assert forall|x: usize, y: usize, c: usize|
                    #[trigger] old(self).has_constrained_edge(x, y, c) implies
                    self.has_constrained_edge(x, y, c) by {
                    assert(before_flip.has_constrained_edge(x, y, c));
                    if CDT::same_pair(x, y, ea, eb) {
                        let w = choose|w: int|
                            #[trigger] before_flip.live_edge(w) && CDT::same_pair(
                                before_flip.edge_at(w).a,
                                before_flip.edge_at(w).b,
                                x,
                                y,
                            ) && before_flip.edge_at(w).crep@.contains(c);
                        assert(before_flip.live_edge(e as int));
                        if w != e {
                            assert(!CDT::same_pair(
                                before_flip.edge_at(w).a,
                                before_flip.edge_at(w).b,
                                before_flip.edge_at(e as int).a,
                                before_flip.edge_at(e as int).b,
                            ));
                            assert(false);
                        }
                        assert(before_flip.edge_at(e as int).crep@.len() == 0);
                        assert(false);
                    }
                }
            }
        }
        (flips, true)
    }

    /// There is a live sym-edge carrying the directed half-edge `(a, b)`.
    pub open spec fn has_dir(self, a: usize, b: usize) -> bool {
        exists|s: int|
            #[trigger] self.live_sym(s) && self.sym_at(s).vertex == a && self.sym_to(s) == b
    }

    /// The sym-edge carrying the directed half-edge `(a, b)`; under
    /// well-formedness there is at most one.
    pub open spec fn dir_sym(self, a: usize, b: usize) -> int {
        choose|s: int|
            #[trigger] self.live_sym(s) && self.sym_at(s).vertex == a && self.sym_to(s) == b
    }

    /// The two face corners opposite edge `e`: the flip replaces `e` by the
    /// edge joining them.
    pub open spec fn flip_diag(self, e: int) -> (usize, usize) {
        let a = self.edge_at(e).a;
        let b = self.edge_at(e).b;
        let f1 = self.sym_at(self.dir_sym(a, b)).face as int;
        let f2 = self.sym_at(self.dir_sym(b, a)).face as int;
        (self.face_at(f1).opposite_spec(a, b), self.face_at(f2).opposite_spec(a, b))
    }

    /// Edge `e` is split as an interior edge: it is live with a sym-edge
    /// pair, the two opposite corners differ, and the arenas have room for
    /// the four replacement triangles.
    pub open spec fn split_premise(self, e: int) -> bool {
        &&& self.live_edge(e)
        &&& (exists|sa: int, sb: int|
            #[trigger] self.live_sym(sa) && #[trigger] self.live_sym(sb) && self.sym_at(sa).edge
                == e && self.sym_at(sb).edge == e && sa != sb)
        &&& self.flip_diag(e).0 != self.flip_diag(e).1
        &&& self.sym_edges@.len() + 12 <= usize::MAX
        &&& self.faces@.len() + 4 <= usize::MAX
        &&& self.half_edge_map@.len() + 12 <= usize::MAX
        &&& self.edges@.len() + 12 <= usize::MAX
    }

    /// The checks under which `flip_edge` flips: the edge is live with two
    /// incident faces, the two opposite corners differ, the arenas have
    /// room, and each directed side of the two replacement triangles is
    /// either absent or owned by one of the two faces about to go.
    pub open spec fn can_flip(self, e: int) -> bool {
        let a = self.edge_at(e).a;
        let b = self.edge_at(e).b;
        let f1 = self.sym_at(self.dir_sym(a, b)).face;
        let f2 = self.sym_at(self.dir_sym(b, a)).face;
        let v1 = self.flip_diag(e).0;
        let v2 = self.flip_diag(e).1;
        &&& self.live_edge(e)
        &&& self.has_dir(a, b)
        &&& self.has_dir(b, a)
        &&& v1 != v2
        &&& self.sym_edges@.len() + 6 <= usize::MAX
        &&& self.faces@.len() + 2 <= usize::MAX
        &&& self.half_edge_map@.len() + 6 <= usize::MAX
        &&& self.edges@.len() + 6 <= usize::MAX
        &&& (forall|k: int|
            0 <= k < self.half_edge_map@.len() ==> {
                let en = #[trigger] self.half_edge_map@[k];
                ((en.from == v2 && en.to == v1) || (en.from == v1 && en.to == a) || (en.from == a
                    && en.to == v2) || (en.from == v1 && en.to == v2) || (en.from == v2 && en.to
                    == b) || (en.from == b && en.to == v1)) ==> (self.sym_at(en.sym as int).face
                    == f1 || self.sym_at(en.sym as int).face == f2)
            })
    }

    /// The directed half-edge `(from, to)` is absent or owned by face `f1`
    /// or `f2`.
    fn side_clear(&self, from: usize, to: usize, f1: usize, f2: usize) -> (r: bool)
        requires
            self.wf(),
        ensures
            r == (forall|k: int|
                0 <= k < self.half_edge_map@.len() ==> (((#[trigger] self.half_edge_map@[k]).from
                    == from && self.half_edge_map@[k].to == to) ==> (self.sym_at(
                    self.half_edge_map@[k].sym as int,
                ).face == f1 || self.sym_at(self.half_edge_map@[k].sym as int).face == f2))),
    {
        match self.get_sym_edge_for_half_edge((from, to)) {
            None => true,
            Some(sk) => {
                let fk = self.sym_edges[sk].unwrap().face;
                let ok = fk == f1 || fk == f2;
                proof {
                    assert(self.map_has(from, to, sk as int));
                    assert forall|k: int|
                        0 <= k < self.half_edge_map@.len() && (
                        #[trigger] self.half_edge_map@[k]).from == from
                            && self.half_edge_map@[k].to == to implies self.half_edge_map@[k].sym
                        == sk by {
                        let kw = choose|kw: int|
                            0 <= kw < self.half_edge_map@.len() && (
                            #[trigger] self.half_edge_map@[kw]).from == from
                                && self.half_edge_map@[kw].to == to && self.half_edge_map@[kw].sym
                                == sk as int;
                        if k != kw {
                            assert(false);
                        }
                    }
                }
                ok
            },
        }
    }

    /// The mutation phase of `flip_edge`: removes the two faces flanking
    /// edge `e`, re-adds the two triangles over the opposite-corner
    /// diagonal, and restores the surrounding constraint sets.
    #[verifier::rlimit(100)]
    #[verifier::spinoff_prover]
    fn flip_edge_core(
        &mut self,
        e: usize,
        ea: usize,
        eb: usize,
        s1: usize,
        s2: usize,
        f1: usize,
        f2: usize,
        v1: usize,
        v2: usize,
        fc1: crate::face::Face,
        fc2: crate::face::Face,
    )
        requires
            old(self).wf(),
            old(self).live_edge(e as int),
            old(self).edge_at(e as int).a == ea,
            old(self).edge_at(e as int).b == eb,
            old(self).live_sym(s1 as int),
            old(self).sym_at(s1 as int).vertex == ea,
            old(self).sym_to(s1 as int) == eb,
            old(self).sym_at(s1 as int).face == f1,
            old(self).sym_at(s1 as int).edge == e,
            old(self).live_sym(s2 as int),
            old(self).sym_at(s2 as int).vertex == eb,
            old(self).sym_to(s2 as int) == ea,
            old(self).sym_at(s2 as int).face == f2,
            old(self).sym_at(s2 as int).edge == e,
            f1 != f2,
            old(self).face_at(f1 as int) == fc1,
            old(self).face_at(f2 as int) == fc2,
            v1 == fc1.opposite_spec(ea, eb),
            v2 == fc2.opposite_spec(ea, eb),
            fc1.has_vertex(v1),
            fc2.has_vertex(v2),
            v1 != ea,
            v1 != eb,
            v2 != ea,
            v2 != eb,
            v1 != v2,
            old(self).sym_edges@.len() + 6 <= usize::MAX,
            old(self).faces@.len() + 2 <= usize::MAX,
            old(self).half_edge_map@.len() + 6 <= usize::MAX,
            old(self).edges@.len() + 6 <= usize::MAX,
            forall|k: int|
                0 <= k < old(self).half_edge_map@.len() ==> {
                    let en = #[trigger] old(self).half_edge_map@[k];
                    (((en.from == v2 && en.to == v1) || (en.from == v1 && en.to == ea) || (en.from
                        == ea && en.to == v2) || (en.from == v1 && en.to == v2) || (en.from == v2
                        && en.to == eb) || (en.from == eb && en.to == v1)) ==> (old(self).sym_at(
                        en.sym as int,
                    ).face == f1 || old(self).sym_at(en.sym as int).face == f2))
                },
        ensures
            final(self).wf(),
            final(self).vertices@ == old(self).vertices@,
            old(self).faces@.len() <= final(self).faces@.len(),
            old(self).edges@.len() <= final(self).edges@.len(),
            forall|f: int|
                0 <= f < old(self).faces@.len() && !(old(self).faces@[f] is Some) ==> !(final(self).faces@[f] is Some),
            forall|ee: int|
                0 <= ee < old(self).edges@.len() && !(old(self).edges@[ee] is Some) ==> !(final(self).edges@[ee] is Some),
            !final(self).live_edge(e as int),
            forall|ee: int| !(#[trigger] final(self).joins(ee, ea, eb)),
            exists|ee: int| #[trigger] final(self).joins(ee, v1, v2),
            !final(self).live_face(f1 as int),
            !final(self).live_face(f2 as int),
            final(self).faces@.len() == old(self).faces@.len() + 2,
            final(self).live_face(old(self).faces@.len() as int),
            final(self).face_tri(old(self).faces@.len() as int) == (v2, v1, ea),
            final(self).live_face(old(self).faces@.len() as int + 1),
            final(self).face_tri(old(self).faces@.len() as int + 1) == (v1, v2, eb),
            final(self).face_count_upto(final(self).faces@.len() as int) == old(self).face_count_upto(old(self).faces@.len() as int),
            forall|x: usize, y: usize, c: usize|
                #[trigger] old(self).has_constrained_edge(x, y, c) && !CDT::same_pair(
                    x,
                    y,
                    ea,
                    eb,
                ) ==> final(self).has_constrained_edge(x, y, c),
            forall|u: usize, f: int|
                #[trigger] old(self).live_face(f) && #[trigger] old(self).face_at(f).has_vertex(
                    u,
                ) ==> (exists|f2: int|
                    #[trigger] final(self).live_face(f2) && final(self).face_at(f2).has_vertex(u)),
    {
        // Remember the constraint sets of the four surrounding sides: their
        // edges may be rebuilt from scratch when a removed face was their
        // last owner.
        proof {
            assert(old(self).face_corner_ok(f1 as int, old(self).sym_at(s1 as int).slot as int));
            assert(old(self).face_corner_ok(f2 as int, old(self).sym_at(s2 as int).slot as int));
        }
        let saved = self.save_constrained_sides(&fc1, &fc2, ea, eb);
        let ghost g0 = *self;
        self.remove_face(f1);
        let ghost g1 = *self;
        self.remove_face(f2);
        let ghost g2 = *self;
        proof {
            // the split edge lost both its sym-edges and is gone
            assert forall|s3: int| #[trigger] g2.live_sym(s3) implies g2.sym_at(s3).edge
                != e by {
                if g2.sym_at(s3).edge == e {
                    assert(g1.live_sym(s3));
                    if g1.sym_at(s3).face == f2 {
                        assert(g1.face_at(f2 as int).sym(g1.sym_at(s3).slot as int) == s3);
                        assert(false);
                    }
                    assert(CDT::same_but_rot(g1.sym_at(s3), g2.sym_at(s3)));
                    assert(g0.live_sym(s3));
                    if g0.sym_at(s3).face == f1 {
                        assert(g0.face_at(f1 as int).sym(g0.sym_at(s3).slot as int) == s3);
                        assert(false);
                    }
                    assert(CDT::same_but_rot(g0.sym_at(s3), g1.sym_at(s3)));
                    assert(g0.sym_at(s3).edge == e);
                    if s3 != s1 {
                        g0.lemma_edge_sym_pair(s3, s1 as int);
                        if s3 != s2 {
                            g0.lemma_edge_sym_pair(s3, s2 as int);
                            g0.lemma_halfedge_unique(s3, s1 as int);
                        }
                        assert(s3 == s2 && g0.sym_at(s3).face == f2);
                        assert(false);
                    }
                    assert(s3 == s1 && g0.sym_at(s3).face == f1);
                    assert(false);
                }
            }
            let fcg = g1.face_at(f2 as int);
            let slot_s2 = g1.sym_at(s2 as int).slot as int;
            assert(g1.live_sym(s2 as int) && CDT::same_but_rot(g0.sym_at(s2 as int), g1.sym_at(s2 as int)));
            assert(g1.face_at(f2 as int) == g0.face_at(f2 as int));
            assert(g1.face_at(f2 as int).sym(slot_s2) == s2);
            assert(slot_s2 == 0 || slot_s2 == 1 || slot_s2 == 2);
            assert(e == g1.sym_at(fcg.sym(slot_s2) as int).edge);
            assert(!(g2.edges@[e as int] is Some));
            // the sides of the replacement triangles are free now: any
            // claiming sym-edge would have survived from a removed face
            assert forall|x: usize, y: usize|
                (x == v2 && y == v1) || (x == v1 && y == ea) || (x == ea && y == v2) || (x == v1
                    && y == v2) || (x == v2 && y == eb) || (x == eb && y == v1) implies
                g2.half_edge_free(x, y) by {
                if !g2.half_edge_free(x, y) {
                    let k = choose|k: int|
                        0 <= k < g2.half_edge_map@.len() && (#[trigger] g2.half_edge_map@[k]).from
                            == x && g2.half_edge_map@[k].to == y;
                    let sy = g2.half_edge_map@[k].sym as int;
                    assert(g2.live_sym(sy) && g2.sym_at(sy).vertex == x && g2.sym_to(sy) == y);
                    assert(g1.live_sym(sy));
                    if g1.sym_at(sy).face == f2 {
                        assert(g1.face_at(f2 as int).sym(g1.sym_at(sy).slot as int) == sy);
                        assert(false);
                    }
                    assert(CDT::same_but_rot(g1.sym_at(sy), g2.sym_at(sy)));
                    assert(g0.live_sym(sy));
                    if g0.sym_at(sy).face == f1 {
                        assert(g0.face_at(f1 as int).sym(g0.sym_at(sy).slot as int) == sy);
                        assert(false);
                    }
                    assert(CDT::same_but_rot(g0.sym_at(sy), g1.sym_at(sy)));
                    assert(g1.faces@[g0.sym_at(sy).face as int] == g0.faces@[g0.sym_at(
                        sy,
                    ).face as int]);
                    assert(g2.faces@[g0.sym_at(sy).face as int] == g1.faces@[g0.sym_at(
                        sy,
                    ).face as int]);
                    assert(g0.sym_to(sy) == y);
                    assert(g0.map_has(x, y, sy));
                    let kw = choose|kw: int|
                        0 <= kw < g0.half_edge_map@.len() && (#[trigger] g0.half_edge_map@[kw]).from
                            == x && g0.half_edge_map@[kw].to == y && g0.half_edge_map@[kw].sym
                            == sy;
                    assert(g0.sym_at(g0.half_edge_map@[kw].sym as int).face != f1 && g0.sym_at(
                        g0.half_edge_map@[kw].sym as int,
                    ).face != f2);
                    assert(false);
                }
            }
            assert(g2.can_add_face(v2, v1, ea));
        }
        let r1 = self.add_face(v2, v1, ea);
        let ghost g3 = *self;
        proof {
            assert(r1 is Some);
            assert forall|x: usize, y: usize|
                (x == v1 && y == v2) || (x == v2 && y == eb) || (x == eb && y == v1) implies
                g3.half_edge_free(x, y) by {
                if !g3.half_edge_free(x, y) {
                    let k = choose|k: int|
                        0 <= k < g3.half_edge_map@.len() && (#[trigger] g3.half_edge_map@[k]).from
                            == x && g3.half_edge_map@[k].to == y;
                    if k < g2.half_edge_map@.len() {
                        assert(g3.half_edge_map@[k] == g2.half_edge_map@[k]);
                        assert(!g2.half_edge_free(x, y));
                        assert(false);
                    } else {
                        let lm = g2.half_edge_map@.len() as int;
                        assert(k == lm || k == lm + 1 || k == lm + 2);
                        assert(false);
                    }
                }
            }
            assert(g3.can_add_face(v1, v2, eb));
        }
        let r2 = self.add_face(v1, v2, eb);
        proof {
            assert(r2 is Some);
        }
        let ghost g4 = *self;
        self.restore_constrained_sides(&saved);
        proof {
            let fpos = g2.faces@.len() as int;
            // the diagonal edge of the first replacement face is live
            assert(self.live_face(fpos) && self.face_tri(fpos) == (v2, v1, ea));
            assert(self.face_corner_ok(fpos, 0));
            let de = self.sym_at(self.face_at(fpos).sym(0) as int).edge as int;
            assert(self.joins(de, v1, v2));
            // nothing joins the flipped pair any more
            assert forall|ee: int| !(#[trigger] self.joins(ee, ea, eb)) by {
                if self.joins(ee, ea, eb) {
                    if ee < g2.edges@.len() {
                        assert(self.edges@[ee] is Some);
                        assert((g3.edges@[ee] is Some) && self.edge_at(ee).a == g3.edge_at(ee).a
                            && self.edge_at(ee).b == g3.edge_at(ee).b);
                        if ee < g2.edges@.len() && !(g2.edges@[ee] is Some) {
                            assert(!(g3.edges@[ee] is Some));
                            assert(false);
                        }
                        assert(g3.edges@[ee] == g2.edges@[ee] || ee >= g2.edges@.len());
                        assert(g2.live_edge(ee) && CDT::same_pair(
                            g2.edge_at(ee).a,
                            g2.edge_at(ee).b,
                            ea,
                            eb,
                        ));
                        assert(g2.edges@[ee] == g0.edges@[ee] || !(g2.edges@[ee] is Some));
                        assert(g0.live_edge(ee) && CDT::same_pair(
                            g0.edge_at(ee).a,
                            g0.edge_at(ee).b,
                            ea,
                            eb,
                        ));
                        if ee != e {
                            assert(false);
                        }
                        assert(!(g2.edges@[e as int] is Some));
                        assert(false);
                    } else {
                        // a fresh edge joins only sides of the new faces
                        assert(g4.live_edge(ee) && self.edge_at(ee).a == g4.edge_at(ee).a
                            && self.edge_at(ee).b == g4.edge_at(ee).b);
                        if ee < g3.edges@.len() {
                            assert(g4.edges@[ee] == g3.edges@[ee]);
                            assert(g3.live_edge(ee));
                            assert(CDT::same_pair(g3.edge_at(ee).a, g3.edge_at(ee).b, v2, v1)
                                || CDT::same_pair(g3.edge_at(ee).a, g3.edge_at(ee).b, v1, ea)
                                || CDT::same_pair(g3.edge_at(ee).a, g3.edge_at(ee).b, ea, v2));
                            assert(false);
                        } else {
                            assert(CDT::same_pair(g4.edge_at(ee).a, g4.edge_at(ee).b, v1, v2)
                                || CDT::same_pair(g4.edge_at(ee).a, g4.edge_at(ee).b, v2, eb)
                                || CDT::same_pair(g4.edge_at(ee).a, g4.edge_at(ee).b, eb, v1));
                            assert(false);
                        }
                    }
                }
            }
            assert(!self.live_edge(e as int));
            assert(!self.live_face(f1 as int) && !self.live_face(f2 as int));
            // two faces went, two came: the live-face count is unchanged
            CDT::lemma_face_count_agree(g4, *self, self.faces@.len() as int);
            // every constrained edge other than the flipped one keeps its
            // identifiers: untouched edges carry them over, perimeter sides
            // were saved and re-applied to the rebuilt quadrilateral
            let fpos = g2.faces@.len() as int;
            let fpos2 = g2.faces@.len() as int + 1;
            assert(self.live_face(fpos2) && self.face_tri(fpos2) == (v1, v2, eb));
            assert(self.face_corner_ok(fpos, 1));
            assert(self.face_corner_ok(fpos, 2));
            assert(self.face_corner_ok(fpos2, 1));
            assert(self.face_corner_ok(fpos2, 2));
            assert forall|x: usize, y: usize, c: usize|
                #[trigger] old(self).has_constrained_edge(x, y, c) && !CDT::same_pair(
                    x,
                    y,
                    ea,
                    eb,
                ) implies self.has_constrained_edge(x, y, c) by {
                let w = choose|w: int|
                    #[trigger] old(self).live_edge(w) && CDT::same_pair(
                        old(self).edge_at(w).a,
                        old(self).edge_at(w).b,
                        x,
                        y,
                    ) && old(self).edge_at(w).crep@.contains(c);
                let wa = old(self).edge_at(w).a;
                let wb = old(self).edge_at(w).b;
                if CDT::same_pair(wa, wb, fc1.v0, fc1.v1) || CDT::same_pair(
                    wa,
                    wb,
                    fc1.v1,
                    fc1.v2,
                ) || CDT::same_pair(wa, wb, fc1.v2, fc1.v0) || CDT::same_pair(
                    wa,
                    wb,
                    fc2.v0,
                    fc2.v1,
                ) || CDT::same_pair(wa, wb, fc2.v1, fc2.v2) || CDT::same_pair(
                    wa,
                    wb,
                    fc2.v2,
                    fc2.v0,
                ) {
                    // a perimeter side: saved, rebuilt, re-marked
                    let j = choose|j: int|
                        0 <= j < saved@.len() && CDT::same_pair(
                            (#[trigger] saved@[j]).0,
                            saved@[j].1,
                            wa,
                            wb,
                        ) && (forall|cc: usize|
                            old(self).edge_at(w).crep@.contains(cc) ==> saved@[j].2@.contains(
                                cc,
                            ));
                    assert(saved@[j].2@.contains(c));
                    // the corners of the two old faces are ea, eb and the
                    // two opposite corners, so the side is rebuilt
                    assert(fc1.v0 == ea || fc1.v0 == eb || fc1.v0 == v1);
                    assert(fc1.v1 == ea || fc1.v1 == eb || fc1.v1 == v1);
                    assert(fc1.v2 == ea || fc1.v2 == eb || fc1.v2 == v1);
                    assert(fc2.v0 == ea || fc2.v0 == eb || fc2.v0 == v2);
                    assert(fc2.v1 == ea || fc2.v1 == eb || fc2.v1 == v2);
                    assert(fc2.v2 == ea || fc2.v2 == eb || fc2.v2 == v2);
                    let d1 = self.sym_at(self.face_at(fpos).sym(1) as int).edge as int;
                    let d2 = self.sym_at(self.face_at(fpos).sym(2) as int).edge as int;
                    let d3 = self.sym_at(self.face_at(fpos2).sym(1) as int).edge as int;
                    let d4 = self.sym_at(self.face_at(fpos2).sym(2) as int).edge as int;
                    assert(self.joins(d1, v1, ea));
                    assert(self.joins(d2, ea, v2));
                    assert(self.joins(d3, v2, eb));
                    assert(self.joins(d4, eb, v1));
                    let sj0 = saved@[j].0;
                    let sj1 = saved@[j].1;
                    if CDT::same_pair(sj0, sj1, v1, ea) {
                        assert(self.joins(d1, sj0, sj1));
                    } else if CDT::same_pair(sj0, sj1, ea, v2) {
                        assert(self.joins(d2, sj0, sj1));
                    } else if CDT::same_pair(sj0, sj1, v2, eb) {
                        assert(self.joins(d3, sj0, sj1));
                    } else {
                        assert(CDT::same_pair(sj0, sj1, eb, v1));
                        assert(self.joins(d4, sj0, sj1));
                    }
                    assert(exists|ee: int| self.joins(ee, saved@[j].0, saved@[j].1));
                    assert(self.has_constrained_edge(saved@[j].0, saved@[j].1, c));
                    let w2 = choose|w2: int|
                        #[trigger] self.live_edge(w2) && CDT::same_pair(
                            self.edge_at(w2).a,
                            self.edge_at(w2).b,
                            saved@[j].0,
                            saved@[j].1,
                        ) && self.edge_at(w2).crep@.contains(c);
                    assert(CDT::same_pair(self.edge_at(w2).a, self.edge_at(w2).b, x, y));
                } else {
                    // untouched: the slot survives with its endpoints and a
                    // superset of its identifiers
                    assert(g0 == *old(self));
                    assert(g0.face_corner_ok(f1 as int, 0));
                    assert(g0.face_corner_ok(f1 as int, 1));
                    assert(g0.face_corner_ok(f1 as int, 2));
                    assert(g0.face_corner_ok(f2 as int, 0));
                    assert(g0.face_corner_ok(f2 as int, 1));
                    assert(g0.face_corner_ok(f2 as int, 2));
                    assert(g1.edges@[w] == g0.edges@[w]);
                    assert(g1.face_corner_ok(f2 as int, 0) || true);
                    assert(g1.face_at(f2 as int) == g0.face_at(f2 as int));
                    assert forall|kk: int| 0 <= kk < 3 implies g1.sym_at(
                        g1.face_at(f2 as int).sym(kk) as int,
                    ).edge == g0.sym_at(g0.face_at(f2 as int).sym(kk) as int).edge by {
                        let sk = g0.face_at(f2 as int).sym(kk) as int;
                        assert(g0.live_sym(sk) && g0.sym_at(sk).face == f2);
                        assert(g1.live_sym(sk) && CDT::same_but_rot(
                            g0.sym_at(sk),
                            g1.sym_at(sk),
                        ));
                    }
                    assert(g2.edges@[w] == g1.edges@[w]);
                    assert(g3.edges@[w] == g2.edges@[w]);
                    assert(g4.edges@[w] == g3.edges@[w]);
                    assert(self.live_edge(w) && self.edge_at(w).a == g4.edge_at(w).a
                        && self.edge_at(w).b == g4.edge_at(w).b && self.edge_at(
                        w,
                    ).crep@.contains(c));
                }
            }
            // a vertex with a face keeps one: untouched faces survive, and
            // the rebuilt triangles cover all four quadrilateral corners
            assert forall|u: usize, fo: int|
                #[trigger] old(self).live_face(fo) && #[trigger] old(self).face_at(
                    fo,
                ).has_vertex(u) implies (exists|f2: int|
                #[trigger] self.live_face(f2) && self.face_at(f2).has_vertex(u)) by {
                if fo != f1 && fo != f2 {
                    assert(g1.faces@[fo] == g0.faces@[fo]);
                    assert(g2.faces@[fo] == g1.faces@[fo]);
                    assert(g3.faces@[fo] == g2.faces@[fo]);
                    assert(g4.faces@[fo] == g3.faces@[fo]);
                    assert(self.faces@[fo] == g4.faces@[fo]);
                    assert(self.live_face(fo) && self.face_at(fo).has_vertex(u));
                } else {
                    assert(fc1.v0 == ea || fc1.v0 == eb || fc1.v0 == v1);
                    assert(fc1.v1 == ea || fc1.v1 == eb || fc1.v1 == v1);
                    assert(fc1.v2 == ea || fc1.v2 == eb || fc1.v2 == v1);
                    assert(fc2.v0 == ea || fc2.v0 == eb || fc2.v0 == v2);
                    assert(fc2.v1 == ea || fc2.v1 == eb || fc2.v1 == v2);
                    assert(fc2.v2 == ea || fc2.v2 == eb || fc2.v2 == v2);
                    assert(u == ea || u == eb || u == v1 || u == v2);
                    if u == eb {
                        assert(self.live_face(fpos2) && self.face_at(fpos2).has_vertex(u));
                    } else {
                        assert(self.live_face(fpos) && self.face_at(fpos).has_vertex(u));
                    }
                }
            }
        }
    }

    /// Flips one edge: removes the two faces sharing it and re-adds the two
    /// triangles over the opposite-corner diagonal, with the winding that
    /// preserves each face's orientation. The constraint sets of the four
    /// surrounding sides are carried over to the rebuilt edges. The flip is
    /// performed exactly when `can_flip` holds; otherwise nothing changes.
    #[verifier::rlimit(100)]
    #[verifier::spinoff_prover]
    pub fn flip_edge(&mut self, e: usize) -> (r: bool)
        requires
            old(self).wf(),
        ensures
            final(self).wf(),
            final(self).vertices@ == old(self).vertices@,
            !r ==> *final(self) == *old(self),
            r == old(self).can_flip(e as int),
            old(self).faces@.len() <= final(self).faces@.len(),
            old(self).edges@.len() <= final(self).edges@.len(),
            forall|f: int|
                0 <= f < old(self).faces@.len() && !(old(self).faces@[f] is Some) ==> !(final(self).faces@[f] is Some),
            forall|ee: int|
                0 <= ee < old(self).edges@.len() && !(old(self).edges@[ee] is Some) ==> !(final(self).edges@[ee] is Some),
            forall|x: usize, y: usize, c: usize|
                #[trigger] old(self).has_constrained_edge(x, y, c) && !CDT::same_pair(
                    x,
                    y,
                    old(self).edge_at(e as int).a,
                    old(self).edge_at(e as int).b,
                ) ==> final(self).has_constrained_edge(x, y, c),
            forall|u: usize, f: int|
                #[trigger] old(self).live_face(f) && #[trigger] old(self).face_at(f).has_vertex(
                    u,
                ) ==> (exists|f2: int|
                    #[trigger] final(self).live_face(f2) && final(self).face_at(f2).has_vertex(u)),
            r ==> {
                let a = old(self).edge_at(e as int).a;
                let b = old(self).edge_at(e as int).b;
                let d = old(self).flip_diag(e as int);
                &&& !final(self).live_edge(e as int)
                &&& (forall|ee: int| !(#[trigger] final(self).joins(ee, a, b)))
                &&& (exists|ee: int| #[trigger] final(self).joins(ee, d.0, d.1))
                &&& !final(self).live_face(old(self).sym_at(old(self).dir_sym(a, b)).face as int)
                &&& !final(self).live_face(old(self).sym_at(old(self).dir_sym(b, a)).face as int)
                &&& final(self).faces@.len() == old(self).faces@.len() + 2
                &&& final(self).live_face(old(self).faces@.len() as int)
                &&& final(self).face_tri(old(self).faces@.len() as int) == (d.1, d.0, a)
                &&& final(self).live_face(old(self).faces@.len() as int + 1)
                &&& final(self).face_tri(old(self).faces@.len() as int + 1) == (d.0, d.1, b)
                &&& final(self).face_count_upto(final(self).faces@.len() as int) == old(self).face_count_upto(old(self).faces@.len() as int)
            },
    {
        if e >= self.edges.len() {
            return false;
        }
        let (ea, eb) = match &self.edges[e] {
            Some(ed) => (ed.a, ed.b),
            None => {
                return false;
            },
        };
        let s1 = match self.get_sym_edge_for_half_edge((ea, eb)) {
            Some(s1) => s1,
            None => {
                return false;
            },
        };
        let s2 = match self.get_sym_edge_for_half_edge((eb, ea)) {
            Some(s2) => s2,
            None => {
                return false;
            },
        };
        proof {
            // the two directed sym-edges are the spec's witnesses, and they
            // run along the popped edge slot
            assert(self.live_edge(e as int));
            assert(self.has_dir(ea, eb) && self.has_dir(eb, ea));
            let c1 = self.dir_sym(ea, eb);
            let c2 = self.dir_sym(eb, ea);
            self.lemma_halfedge_unique(c1, s1 as int);
            self.lemma_halfedge_unique(c2, s2 as int);
            assert(self.face_corner_ok(
                self.sym_at(s1 as int).face as int,
                self.sym_at(s1 as int).slot as int,
            ));
            assert(self.face_corner_ok(
                self.sym_at(s2 as int).face as int,
                self.sym_at(s2 as int).slot as int,
            ));
            let sedge = self.sym_at(s1 as int).edge as int;
            assert(CDT::same_pair(self.edge_at(sedge).a, self.edge_at(sedge).b, ea, eb));
            if sedge != e {
                assert(!CDT::same_pair(
                    self.edge_at(sedge).a,
                    self.edge_at(sedge).b,
                    self.edge_at(e as int).a,
                    self.edge_at(e as int).b,
                ));
                assert(false);
            }
            let sedge2 = self.sym_at(s2 as int).edge as int;
            assert(CDT::same_pair(self.edge_at(sedge2).a, self.edge_at(sedge2).b, ea, eb));
            if sedge2 != e {
                assert(false);
            }
            assert(s1 != s2);
            self.lemma_edge_sym_pair(s1 as int, s2 as int);
            let sls = self.sym_at(s1 as int).slot as int;
            let sln = self.sym_at(s2 as int).slot as int;
            assert(sls == 0 || sls == 1 || sls == 2);
            assert(sln == 0 || sln == 1 || sln == 2);
        }
        let f1 = self.sym_edges[s1].unwrap().face;
        let f2 = self.sym_edges[s2].unwrap().face;
        proof {
            assert(self.live_face(f1 as int));
            assert(self.live_face(f2 as int));
        }
        let fc1 = self.faces[f1].unwrap();
        let fc2 = self.faces[f2].unwrap();
        let v1 = fc1.opposite_vertex(ea, eb);
        let v2 = fc2.opposite_vertex(ea, eb);
        proof {
            assert(v1 == old(self).flip_diag(e as int).0);
            assert(v2 == old(self).flip_diag(e as int).1);
        }
        if v1 == v2 {
            return false;
        }
        if self.sym_edges.len() > usize::MAX - 6 || self.faces.len() > usize::MAX - 2
            || self.half_edge_map.len() > usize::MAX - 6 || self.edges.len() > usize::MAX - 6 {
            return false;
        }
        // every directed side of the two replacement triangles must be
        // absent or owned by one of the two faces about to go
        if !self.side_clear(v2, v1, f1, f2) {
            return false;
        }
        if !self.side_clear(v1, ea, f1, f2) {
            return false;
        }
        if !self.side_clear(ea, v2, f1, f2) {
            return false;
        }
        if !self.side_clear(v1, v2, f1, f2) {
            return false;
        }
        if !self.side_clear(v2, eb, f1, f2) {
            return false;
        }
        if !self.side_clear(eb, v1, f1, f2) {
            return false;
        }
        proof {
            assert(old(self).can_flip(e as int));
        }
        self.flip_edge_core(e, ea, eb, s1, s2, f1, f2, v1, v2, fc1, fc2);
        proof {
            assert(v1 == old(self).flip_diag(e as int).0 && v2 == old(self).flip_diag(
                e as int,
            ).1);
            assert(!self.live_face(old(self).sym_at(old(self).dir_sym(ea, eb)).face as int));
            assert(!self.live_face(old(self).sym_at(old(self).dir_sym(eb, ea)).face as int));
        }
        true
    }

    /// Collects `(a, b, crep)` for each side of the two faces other than the
    /// edge `{ea, eb}` itself, keeping only constrained sides.
    fn save_constrained_sides(&self, fc1: &crate::face::Face, fc2: &crate::face::Face, ea: usize, eb: usize) -> (r: Vec<
        (usize, usize, Vec<usize>),
    >)
        requires
            self.wf(),
        ensures
            forall|ee: int|
                #[trigger] self.live_edge(ee) && self.edge_at(ee).crep@.len() > 0
                    && !CDT::same_pair(self.edge_at(ee).a, self.edge_at(ee).b, ea, eb) && (
                CDT::same_pair(self.edge_at(ee).a, self.edge_at(ee).b, fc1.v0, fc1.v1)
                    || CDT::same_pair(self.edge_at(ee).a, self.edge_at(ee).b, fc1.v1, fc1.v2)
                    || CDT::same_pair(self.edge_at(ee).a, self.edge_at(ee).b, fc1.v2, fc1.v0)
                    || CDT::same_pair(self.edge_at(ee).a, self.edge_at(ee).b, fc2.v0, fc2.v1)
                    || CDT::same_pair(self.edge_at(ee).a, self.edge_at(ee).b, fc2.v1, fc2.v2)
                    || CDT::same_pair(self.edge_at(ee).a, self.edge_at(ee).b, fc2.v2, fc2.v0))
                    ==> exists|j: int|
                    0 <= j < r@.len() && CDT::same_pair(
                        (#[trigger] r@[j]).0,
                        r@[j].1,
                        self.edge_at(ee).a,
                        self.edge_at(ee).b,
                    ) && (forall|c: usize|
                        self.edge_at(ee).crep@.contains(c) ==> r@[j].2@.contains(c)),
    {
        let mut saved: Vec<(usize, usize, Vec<usize>)> = Vec::new();
        let sides: [(usize, usize); 6] = [
            (fc1.v0, fc1.v1),
            (fc1.v1, fc1.v2),
            (fc1.v2, fc1.v0),
            (fc2.v0, fc2.v1),
            (fc2.v1, fc2.v2),
            (fc2.v2, fc2.v0),
        ];
        let ghost sideseq: Seq<(usize, usize)> = seq![
            (fc1.v0, fc1.v1),
            (fc1.v1, fc1.v2),
            (fc1.v2, fc1.v0),
            (fc2.v0, fc2.v1),
            (fc2.v1, fc2.v2),
            (fc2.v2, fc2.v0),
        ];
        let mut i: usize = 0;
        while i < 6
            invariant
                self.wf(),
                0 <= i <= 6,
                sides@ == sideseq,
                forall|ee: int|
                    #[trigger] self.live_edge(ee) && self.edge_at(ee).crep@.len() > 0
                        && !CDT::same_pair(self.edge_at(ee).a, self.edge_at(ee).b, ea, eb) && (
                    exists|ii: int|
                        0 <= ii < i && CDT::same_pair(
                            self.edge_at(ee).a,
                            self.edge_at(ee).b,
                            (#[trigger] sideseq[ii]).0,
                            sideseq[ii].1,
                        )) ==> exists|j: int|
                        0 <= j < saved@.len() && CDT::same_pair(
                            (#[trigger] saved@[j]).0,
                            saved@[j].1,
                            self.edge_at(ee).a,
                            self.edge_at(ee).b,
                        ) && (forall|c: usize|
                            self.edge_at(ee).crep@.contains(c) ==> saved@[j].2@.contains(c)),
            decreases 6 - i,
        {
            let (x, y) = sides[i];
            let ghost sb = saved@;
            if !((x == ea && y == eb) || (x == eb && y == ea)) {
                match self.find_live_edge(x, y) {
                    Some(slot) => {
                        match &self.edges[slot] {
                            Some(ed) => {
                                if ed.crep.len() > 0 {
                                    let mut ids: Vec<usize> = Vec::new();
                                    let mut k: usize = 0;
                                    while k < ed.crep.len()
                                        invariant
                                            0 <= k <= ed.crep@.len(),
                                            ids@ == ed.crep@.subrange(0, k as int),
                                        decreases ed.crep@.len() - k,
                                    {
                                        ids.push(ed.crep[k]);
                                        proof {
                                            assert(ids@ =~= ed.crep@.subrange(0, k + 1));
                                        }
                                        k = k + 1;
                                    }
                                    proof {
                                        assert(ids@ =~= ed.crep@);
                                    }
                                    saved.push((x, y, ids));
                                }
                            },
                            None => {},
                        }
                    },
                    None => {},
                }
            }
            proof {
                assert forall|ee: int|
                    #[trigger] self.live_edge(ee) && self.edge_at(ee).crep@.len() > 0
                        && !CDT::same_pair(self.edge_at(ee).a, self.edge_at(ee).b, ea, eb) && (
                    exists|ii: int|
                        0 <= ii < i + 1 && CDT::same_pair(
                            self.edge_at(ee).a,
                            self.edge_at(ee).b,
                            (#[trigger] sideseq[ii]).0,
                            sideseq[ii].1,
                        )) implies exists|j: int|
                    0 <= j < saved@.len() && CDT::same_pair(
                        (#[trigger] saved@[j]).0,
                        saved@[j].1,
                        self.edge_at(ee).a,
                        self.edge_at(ee).b,
                    ) && (forall|c: usize|
                        self.edge_at(ee).crep@.contains(c) ==> saved@[j].2@.contains(c)) by {
                    let ii = choose|ii: int|
                        0 <= ii < i + 1 && CDT::same_pair(
                            self.edge_at(ee).a,
                            self.edge_at(ee).b,
                            (#[trigger] sideseq[ii]).0,
                            sideseq[ii].1,
                        );
                    if ii < i {
                        let j = choose|j: int|
                            0 <= j < sb.len() && CDT::same_pair(
                                (#[trigger] sb[j]).0,
                                sb[j].1,
                                self.edge_at(ee).a,
                                self.edge_at(ee).b,
                            ) && (forall|c: usize|
                                self.edge_at(ee).crep@.contains(c) ==> sb[j].2@.contains(c));
                        assert(saved@[j] == sb[j]);
                    } else {
                        // this iteration's side matches: the edge was found
                        // and its constraint ids copied
                        assert(CDT::same_pair(self.edge_at(ee).a, self.edge_at(ee).b, x, y));
                        assert(saved@[saved@.len() - 1].0 == x && saved@[saved@.len() - 1].1
                            == y);
                    }
                }
            }
            i = i + 1;
        }
        saved
    }

    /// Re-applies saved constraint sets to whichever of the sides are live.
    pub(crate) fn restore_constrained_sides(&mut self, saved: &Vec<(usize, usize, Vec<usize>)>)
        requires
            old(self).wf(),
        ensures
            final(self).wf(),
            final(self).vertices@ == old(self).vertices@,
            final(self).faces@ == old(self).faces@,
            final(self).sym_edges@ == old(self).sym_edges@,
            final(self).half_edge_map@ == old(self).half_edge_map@,
            final(self).edges@.len() == old(self).edges@.len(),
            forall|e: int|
                0 <= e < old(self).edges@.len() ==> ((final(self).edges@[e] is Some) <==> (old(self).edges@[e] is Some)),
            forall|e: int|
                0 <= e < old(self).edges@.len() && old(self).edges@[e] is Some ==> final(self).edge_at(e).a == old(self).edge_at(e).a && final(self).edge_at(e).b == old(self).edge_at(e).b && (forall|c: usize|
                    old(self).edge_at(e).crep@.contains(c) ==> final(self).edge_at(
                        e,
                    ).crep@.contains(c)),
            forall|j: int, c: usize|
                0 <= j < saved@.len() && #[trigger] saved@[j].2@.contains(c) && (exists|ee: int|
                    final(self).joins(ee, saved@[j].0, saved@[j].1)) ==> final(self).has_constrained_edge(saved@[j].0, saved@[j].1, c),
    {
        let mut i: usize = 0;
        while i < saved.len()
            invariant
                self.wf(),
                self.vertices@ == old(self).vertices@,
                self.faces@ == old(self).faces@,
                self.sym_edges@ == old(self).sym_edges@,
                self.half_edge_map@ == old(self).half_edge_map@,
                self.edges@.len() == old(self).edges@.len(),
                forall|e: int|
                    0 <= e < old(self).edges@.len() ==> ((self.edges@[e] is Some) <==> (old(self).edges@[e] is Some)),
                forall|e: int|
                    0 <= e < old(self).edges@.len() && old(self).edges@[e] is Some
                        ==> self.edge_at(e).a == old(self).edge_at(e).a && self.edge_at(e).b
                        == old(self).edge_at(e).b && (forall|c: usize|
                        old(self).edge_at(e).crep@.contains(c) ==> self.edge_at(e).crep@.contains(
                            c,
                        )),
                0 <= i <= saved@.len(),
                forall|j: int, c: usize|
                    0 <= j < i && #[trigger] saved@[j].2@.contains(c) && (exists|ee: int|
                        self.joins(ee, saved@[j].0, saved@[j].1)) ==> self.has_constrained_edge(
                        saved@[j].0,
                        saved@[j].1,
                        c,
                    ),
            decreases saved@.len() - i,
        {
            let ghost pre = *self;
            let (x, y) = (saved[i].0, saved[i].1);
            match self.find_live_edge(x, y) {
                Some(slot) => {
                    let ids = &saved[i].2;
                    self.edge_add_constraints(slot, ids);
                    proof {
                        assert forall|j: int, c: usize|
                            0 <= j < i + 1 && #[trigger] saved@[j].2@.contains(c) && (
                            exists|ee: int|
                                self.joins(ee, saved@[j].0, saved@[j].1)) implies
                            self.has_constrained_edge(saved@[j].0, saved@[j].1, c) by {
                            if j < i {
                                // already handled; its witness edge only grew
                                let ee = choose|ee: int|
                                    #[trigger] self.joins(ee, saved@[j].0, saved@[j].1);
                                assert(pre.joins(ee, saved@[j].0, saved@[j].1));
                                assert(pre.has_constrained_edge(saved@[j].0, saved@[j].1, c));
                                let w = choose|w: int|
                                    #[trigger] pre.live_edge(w) && CDT::same_pair(
                                        pre.edge_at(w).a,
                                        pre.edge_at(w).b,
                                        saved@[j].0,
                                        saved@[j].1,
                                    ) && pre.edge_at(w).crep@.contains(c);
                                assert(self.live_edge(w) && self.edge_at(w).a == pre.edge_at(
                                    w,
                                ).a && self.edge_at(w).b == pre.edge_at(w).b);
                                assert(self.edge_at(w).crep@.contains(c));
                            } else {
                                // this round marked the found slot with
                                // every saved identifier
                                let k = choose|k: int| 0 <= k < ids@.len() && ids@[k] == c;
                                assert(self.edge_at(slot as int).crep@.contains(ids@[k]));
                                assert(self.live_edge(slot as int));
                            }
                        }
                    }
                },
                None => {
                    proof {
                        assert forall|j: int, c: usize|
                            0 <= j < i + 1 && #[trigger] saved@[j].2@.contains(c) && (
                            exists|ee: int|
                                self.joins(ee, saved@[j].0, saved@[j].1)) implies
                            self.has_constrained_edge(saved@[j].0, saved@[j].1, c) by {
                            if j == i {
                                let ee = choose|ee: int|
                                    #[trigger] self.joins(ee, saved@[j].0, saved@[j].1);
                                assert(false);
                            }
                        }
                    }
                },
            }
            i = i + 1;
        }
    }
}

} // verus!
