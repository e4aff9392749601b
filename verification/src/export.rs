use vstd::prelude::*;

use crate::cdt::CDT;
use crate::point::Point;

verus! {

/// The directed side `k` of the vertex triple `tr`.
pub open spec fn tri_side(tr: (usize, usize, usize), k: int) -> (usize, usize) {
    if k == 0 {
        (tr.0, tr.1)
    } else if k == 1 {
        (tr.1, tr.2)
    } else {
        (tr.2, tr.0)
    }
}

/// A vertex/triangle list that `build` is guaranteed to accept: every
/// position on the grid, every triangle three distinct existing vertices,
/// no directed side repeated anywhere, and a machine-level size bound.
pub open spec fn clean_triangle_soup(vs: Seq<Point>, ts: Seq<(usize, usize, usize)>) -> bool {
    &&& forall|i: int| 0 <= i < vs.len() ==> (#[trigger] vs[i]).wf()
    &&& ts.len() <= 100_000_000
    &&& forall|t: int|
        0 <= t < ts.len() ==> {
            let tr = #[trigger] ts[t];
            &&& tr.0 < vs.len()
            &&& tr.1 < vs.len()
            &&& tr.2 < vs.len()
            &&& tr.0 != tr.1
            &&& tr.1 != tr.2
            &&& tr.0 != tr.2
        }
    &&& forall|t1: int, k1: int, t2: int, k2: int|
        0 <= t1 < ts.len() && 0 <= k1 < 3 && 0 <= t2 < ts.len() && 0 <= k2 < 3 && !(t1 == t2 && k1
            == k2) ==> #[trigger] tri_side(ts[t1], k1) != #[trigger] tri_side(ts[t2], k2)
}

impl CDT {
    /// The positions of all vertices, in index order.
    pub open spec fn position_list(self) -> Seq<Point> {
        Seq::new(self.vertices@.len(), |i: int| self.vertices@[i].position)
    }

    /// The vertex triple of live face `f`.
    pub open spec fn face_tri(self, f: int) -> (usize, usize, usize) {
        (self.face_at(f).v0, self.face_at(f).v1, self.face_at(f).v2)
    }

    /// The triples of the live faces among the first `k` slots, in slot
    /// order.
    pub open spec fn face_list_upto(self, k: int) -> Seq<(usize, usize, usize)>
        decreases k,
    {
        if k <= 0 {
            Seq::empty()
        } else if self.live_face(k - 1) {
            self.face_list_upto(k - 1).push(self.face_tri(k - 1))
        } else {
            self.face_list_upto(k - 1)
        }
    }

    /// The connectivity of the mesh: the triples of all live faces in slot
    /// order.
    pub open spec fn face_list(self) -> Seq<(usize, usize, usize)> {
        self.face_list_upto(self.faces@.len() as int)
    }

    /// What `build` guarantees of a mesh it returns for the lists
    /// `(vs, ts)`: a well-formed mesh carrying exactly those positions and,
    /// one live face per list entry in order, exactly that connectivity.
    pub open spec fn built_from(m: CDT, vs: Seq<Point>, ts: Seq<(usize, usize, usize)>) -> bool {
        &&& m.wf()
        &&& m.position_list() == vs
        &&& forall|i: int| 0 <= i < vs.len() ==> (#[trigger] m.vertices@[i]).constraints == 0
        &&& m.faces@.len() == ts.len()
        &&& forall|f: int| 0 <= f < ts.len() ==> #[trigger] m.live_face(f) && m.face_tri(f) == ts[f]
    }

    /// Builds a mesh from a flat vertex-position list and a triangle list,
    /// calling `add_vertex` and `add_face` for each entry. Returns `None`
    /// when a position is off the grid or a triangle is rejected; a clean
    /// triangle soup is never rejected.
    pub fn build(vertices: &Vec<Point>, triangles: &Vec<(usize, usize, usize)>) -> (r: Option<
        CDT,
    >)
        ensures
            r is Some ==> Self::built_from(r->Some_0, vertices@, triangles@),
            clean_triangle_soup(vertices@, triangles@) ==> r is Some,
    {
        let ghost clean = clean_triangle_soup(vertices@, triangles@);
        let mut m = CDT::new();
        let mut i: usize = 0;
        while i < vertices.len()
            invariant
                m.wf(),
                0 <= i <= vertices@.len(),
                m.vertices@.len() == i,
                forall|j: int| 0 <= j < i ==> m.vertices@[j].position == vertices@[j],
                forall|j: int| 0 <= j < i ==> (#[trigger] m.vertices@[j]).constraints == 0,
                m.edges@.len() == 0,
                m.faces@.len() == 0,
                m.sym_edges@.len() == 0,
                m.half_edge_map@.len() == 0,
                clean == clean_triangle_soup(vertices@, triangles@),
            decreases vertices@.len() - i,
        {
            let p = vertices[i];
            if !p.in_range() {
                proof {
                    assert(!clean_triangle_soup(vertices@, triangles@)) by {
                        if clean_triangle_soup(vertices@, triangles@) {
                            assert(vertices@[i as int].wf());
                        }
                    }
                }
                return None;
            }
            m.add_vertex(p, 0);
            i = i + 1;
        }
        let mut t: usize = 0;
        while t < triangles.len()
            invariant
                m.wf(),
                0 <= t <= triangles@.len(),
                m.vertices@.len() == vertices@.len(),
                forall|j: int|
                    0 <= j < vertices@.len() ==> m.vertices@[j].position == vertices@[j],
                forall|j: int|
                    0 <= j < vertices@.len() ==> (#[trigger] m.vertices@[j]).constraints == 0,
                m.faces@.len() == t,
                forall|f: int| 0 <= f < t ==> #[trigger] m.live_face(f),
                forall|f: int| 0 <= f < t ==> #[trigger] m.face_tri(f) == triangles@[f],
                m.sym_edges@.len() == 3 * t,
                m.half_edge_map@.len() == 3 * t,
                m.edges@.len() <= 3 * t,
                forall|k: int|
                    0 <= k < m.half_edge_map@.len() ==> exists|t2: int, k2: int|
                        0 <= t2 < t && 0 <= k2 < 3 && ((#[trigger] m.half_edge_map@[k]).from, m.half_edge_map@[k].to)
                            == tri_side(triangles@[t2], k2),
                clean == clean_triangle_soup(vertices@, triangles@),
            decreases triangles@.len() - t,
        {
            let tr = triangles[t];
            let ghost pre = m;
            proof {
                if clean {
                    // a clean soup satisfies every check `add_face` makes
                    assert(triangles@[t as int] == tr);
                    assert(tr.0 < vertices@.len() && tr.1 < vertices@.len() && tr.2
                        < vertices@.len());
                    assert forall|a: usize, b: usize, k2: int|
                        0 <= k2 < 3 && (a, b) == tri_side(triangles@[t as int], k2) implies
                        m.half_edge_free(a, b) by {
                        assert forall|k: int|
                            0 <= k < m.half_edge_map@.len() implies !((
                        #[trigger] m.half_edge_map@[k]).from == a && m.half_edge_map@[k].to
                            == b) by {
                            let (t3, k3) = choose|t3: int, k3: int|
                                0 <= t3 < t && 0 <= k3 < 3 && (
                                m.half_edge_map@[k].from,
                                m.half_edge_map@[k].to,
                                ) == tri_side(triangles@[t3], k3);
                            assert(tri_side(triangles@[t3], k3) != tri_side(
                                triangles@[t as int],
                                k2,
                            ));
                        }
                    }
                    assert((tr.0, tr.1) == tri_side(triangles@[t as int], 0));
                    assert((tr.1, tr.2) == tri_side(triangles@[t as int], 1));
                    assert((tr.2, tr.0) == tri_side(triangles@[t as int], 2));
                    assert(m.can_add_face(tr.0, tr.1, tr.2));
                }
            }
            let added = m.add_face(tr.0, tr.1, tr.2);
            match added {
                Some(fi) => {
                    proof {
                        assert(fi == t);
                        assert(m.face_tri(t as int) == (tr.0, tr.1, tr.2));
                        assert(tr == triangles@[t as int]);
                        assert((tr.0, tr.1, tr.2) == tr);
                        assert forall|k: int|
                            0 <= k < m.half_edge_map@.len() implies exists|t2: int, k2: int|
                            0 <= t2 < t + 1 && 0 <= k2 < 3 && ((
                        #[trigger] m.half_edge_map@[k]).from, m.half_edge_map@[k].to) == tri_side(
                            triangles@[t2],
                            k2,
                        ) by {
                            let lm = pre.half_edge_map@.len() as int;
                            if k < lm {
                                let (t3, k3) = choose|t3: int, k3: int|
                                    0 <= t3 < t && 0 <= k3 < 3 && (
                                    (#[trigger] pre.half_edge_map@[k]).from,
                                    pre.half_edge_map@[k].to,
                                    ) == tri_side(triangles@[t3], k3);
                                assert(m.half_edge_map@[k] == pre.half_edge_map@[k]);
                                assert(((m.half_edge_map@[k]).from, m.half_edge_map@[k].to)
                                    == tri_side(triangles@[t3], k3));
                            } else if k == lm {
                                assert(((m.half_edge_map@[k]).from, m.half_edge_map@[k].to)
                                    == tri_side(triangles@[t as int], 0));
                            } else if k == lm + 1 {
                                assert(((m.half_edge_map@[k]).from, m.half_edge_map@[k].to)
                                    == tri_side(triangles@[t as int], 1));
                            } else {
                                assert(((m.half_edge_map@[k]).from, m.half_edge_map@[k].to)
                                    == tri_side(triangles@[t as int], 2));
                            }
                        }
                    }
                },
                None => {
                    proof {
                        assert(!clean);
                    }
                    return None;
                },
            }
            proof {
                assert(m.live_face(t as int));
                assert(m.face_tri(t as int) == triangles@[t as int]);
                assert forall|f: int| 0 <= f < t + 1 implies #[trigger] m.live_face(f) by {
                    if f < t {
                        assert(pre.live_face(f));
                        assert(m.faces@[f] == pre.faces@[f]);
                    }
                }
                assert forall|f: int|
                    0 <= f < t + 1 implies #[trigger] m.face_tri(f) == triangles@[f] by {
                    if f < t {
                        assert(pre.live_face(f));
                        assert(m.faces@[f] == pre.faces@[f]);
                        assert(pre.face_tri(f) == triangles@[f]);
                    }
                }
            }
            t = t + 1;
        }
        proof {
            assert(m.position_list() =~= vertices@);
            assert forall|f: int|
                0 <= f < triangles@.len() implies #[trigger] m.live_face(f) && m.face_tri(f)
                == triangles@[f] by {
                assert(m.live_face(f));
                assert(m.face_tri(f) == triangles@[f]);
            }
            assert(CDT::built_from(m, vertices@, triangles@));
        }
        Some(m)
    }

    /// The vertex positions, in index order, ready for export.
    pub fn export_vertices(&self) -> (r: Vec<Point>)
        ensures
            r@ == self.position_list(),
    {
        let mut r: Vec<Point> = Vec::new();
        let mut i: usize = 0;
        while i < self.vertices.len()
            invariant
                0 <= i <= self.vertices@.len(),
                r@.len() == i,
                forall|j: int| 0 <= j < i ==> r@[j] == self.vertices@[j].position,
            decreases self.vertices@.len() - i,
        {
            r.push(self.vertices[i].position);
            i = i + 1;
        }
        proof {
            assert(r@ =~= self.position_list());
        }
        r
    }

    /// The vertex triples of the live faces, in slot order, ready for
    /// export.
    pub fn export_faces(&self) -> (r: Vec<(usize, usize, usize)>)
        ensures
            r@ == self.face_list(),
    {
        let mut r: Vec<(usize, usize, usize)> = Vec::new();
        let mut f: usize = 0;
        while f < self.faces.len()
            invariant
                0 <= f <= self.faces@.len(),
                r@ == self.face_list_upto(f as int),
            decreases self.faces@.len() - f,
        {
            match self.faces[f] {
                Some(fc) => {
                    r.push((fc.v0, fc.v1, fc.v2));
                },
                None => {},
            }
            f = f + 1;
        }
        r
    }

    /// The number of live edges among the first `k` slots.
    pub open spec fn edge_count_upto(self, k: int) -> int
        decreases k,
    {
        if k <= 0 {
            0
        } else if self.live_edge(k - 1) {
            self.edge_count_upto(k - 1) + 1
        } else {
            self.edge_count_upto(k - 1)
        }
    }

    /// The number of live faces among the first `k` slots.
    pub open spec fn face_count_upto(self, k: int) -> int
        decreases k,
    {
        if k <= 0 {
            0
        } else if self.live_face(k - 1) {
            self.face_count_upto(k - 1) + 1
        } else {
            self.face_count_upto(k - 1)
        }
    }

    /// Two meshes with pointwise equally-live face slots below `k` count the
    /// same number of faces there.
    pub proof fn lemma_face_count_agree(m1: CDT, m2: CDT, k: int)
        requires
            forall|f: int| 0 <= f < k ==> (m1.live_face(f) <==> m2.live_face(f)),
        ensures
            m1.face_count_upto(k) == m2.face_count_upto(k),
        decreases k,
    {
        if k > 0 {
            Self::lemma_face_count_agree(m1, m2, k - 1);
        }
    }

    /// Tombstoning one live face slot lowers the live-face count by one.
    pub proof fn lemma_face_count_tombstone(m1: CDT, m2: CDT, k: int, fi: int)
        requires
            0 <= fi < k,
            forall|f: int| 0 <= f < k && f != fi ==> (m1.live_face(f) <==> m2.live_face(f)),
            m1.live_face(fi),
            !m2.live_face(fi),
        ensures
            m2.face_count_upto(k) == m1.face_count_upto(k) - 1,
        decreases k,
    {
        if k - 1 == fi {
            Self::lemma_face_count_agree(m1, m2, k - 1);
        } else {
            Self::lemma_face_count_tombstone(m1, m2, k - 1, fi);
        }
    }

    /// The number of vertices.
    pub fn vertex_count(&self) -> (r: usize)
        ensures
            r == self.vertices@.len(),
    {
        self.vertices.len()
    }

    /// The number of live edges.
    pub fn edge_count(&self) -> (r: usize)
        ensures
            r == self.edge_count_upto(self.edges@.len() as int),
    {
        let mut n: usize = 0;
        let mut e: usize = 0;
        while e < self.edges.len()
            invariant
                0 <= e <= self.edges@.len(),
                n == self.edge_count_upto(e as int),
                n <= e,
            decreases self.edges@.len() - e,
        {
            if self.edges[e].is_some() {
                n = n + 1;
            }
            e = e + 1;
        }
        n
    }

    /// The number of live faces.
    pub fn face_count(&self) -> (r: usize)
        ensures
            r == self.face_count_upto(self.faces@.len() as int),
    {
        let mut n: usize = 0;
        let mut f: usize = 0;
        while f < self.faces.len()
            invariant
                0 <= f <= self.faces@.len(),
                n == self.face_count_upto(f as int),
                n <= f,
            decreases self.faces@.len() - f,
        {
            if self.faces[f].is_some() {
                n = n + 1;
            }
            f = f + 1;
        }
        n
    }

    /// In a mesh whose face slots are all live and match `ts`, the first
    /// `k` slots list exactly the first `k` entries of `ts`.
    proof fn lemma_face_list_all_live(m: CDT, ts: Seq<(usize, usize, usize)>, k: int)
        requires
            m.faces@.len() == ts.len(),
            forall|f: int| 0 <= f < ts.len() ==> #[trigger] m.live_face(f) && m.face_tri(f) == ts[f],
            0 <= k <= ts.len(),
        ensures
            m.face_list_upto(k) == ts.subrange(0, k),
        decreases k,
    {
        if k == 0 {
            assert(m.face_list_upto(0) =~= ts.subrange(0, 0));
        } else {
            Self::lemma_face_list_all_live(m, ts, k - 1);
            assert(m.live_face(k - 1));
            assert(m.face_list_upto(k) =~= ts.subrange(0, k));
        }
    }

    /// The live face slots among the first `k`, in order: the slot of each
    /// entry of `face_list_upto(k)`.
    pub open spec fn face_slots_upto(self, k: int) -> Seq<int>
        decreases k,
    {
        if k <= 0 {
            Seq::empty()
        } else if self.live_face(k - 1) {
            self.face_slots_upto(k - 1).push(k - 1)
        } else {
            self.face_slots_upto(k - 1)
        }
    }

    /// Each exported triple comes from a live face slot, and the slots are
    /// strictly increasing.
    proof fn lemma_face_list_slots(self, k: int)
        requires
            0 <= k,
        ensures
            self.face_slots_upto(k).len() == self.face_list_upto(k).len(),
            forall|j: int|
                0 <= j < self.face_slots_upto(k).len() ==> self.live_face(
                    #[trigger] self.face_slots_upto(k)[j],
                ) && self.face_slots_upto(k)[j] < k && self.face_tri(self.face_slots_upto(k)[j])
                    == self.face_list_upto(k)[j],
            forall|j1: int, j2: int|
                0 <= j1 < j2 < self.face_slots_upto(k).len() ==> #[trigger] self.face_slots_upto(
                    k,
                )[j1] < #[trigger] self.face_slots_upto(k)[j2],
        decreases k,
    {
        if k > 0 {
            self.lemma_face_list_slots(k - 1);
        }
    }

    /// A well-formed mesh of at most a hundred million faces exports a
    /// clean triangle soup: `build` accepts its own export. The size bound
    /// is a machine limit of `build`'s arithmetic, not a property of the
    /// mesh.
    pub proof fn lemma_exported_soup_clean(m: CDT)
        requires
            m.wf(),
            m.face_list().len() <= 100_000_000,
        ensures
            clean_triangle_soup(m.position_list(), m.face_list()),
    {
        let vs = m.position_list();
        let ts = m.face_list();
        let kk = m.faces@.len() as int;
        m.lemma_face_list_slots(kk);
        let slots = m.face_slots_upto(kk);
        assert forall|i: int| 0 <= i < vs.len() implies (#[trigger] vs[i]).wf() by {
            assert(m.vertices@[i].position.wf());
        }
        assert forall|t: int|
            0 <= t < ts.len() implies {
            let tr = #[trigger] ts[t];
            &&& tr.0 < vs.len()
            &&& tr.1 < vs.len()
            &&& tr.2 < vs.len()
            &&& tr.0 != tr.1
            &&& tr.1 != tr.2
            &&& tr.0 != tr.2
        } by {
            assert(m.live_face(slots[t]) && m.face_tri(slots[t]) == ts[t]);
        }
        assert forall|t1: int, k1: int, t2: int, k2: int|
            0 <= t1 < ts.len() && 0 <= k1 < 3 && 0 <= t2 < ts.len() && 0 <= k2 < 3 && !(t1 == t2
                && k1 == k2) implies #[trigger] tri_side(ts[t1], k1) != #[trigger] tri_side(
            ts[t2],
            k2,
        ) by {
            if tri_side(ts[t1], k1) == tri_side(ts[t2], k2) {
                let fa = slots[t1];
                let fb = slots[t2];
                assert(m.live_face(fa) && m.face_tri(fa) == ts[t1]);
                assert(m.live_face(fb) && m.face_tri(fb) == ts[t2]);
                assert(m.face_corner_ok(fa, k1));
                assert(m.face_corner_ok(fb, k2));
                let sa = m.face_at(fa).sym(k1) as int;
                let sb = m.face_at(fb).sym(k2) as int;
                // each directed side is its corner sym-edge's half-edge
                assert(m.sym_at(sa).vertex == tri_side(ts[t1], k1).0 && m.sym_to(sa)
                    == tri_side(ts[t1], k1).1);
                assert(m.sym_at(sb).vertex == tri_side(ts[t2], k2).0 && m.sym_to(sb)
                    == tri_side(ts[t2], k2).1);
                m.lemma_halfedge_unique(sa, sb);
                assert(m.sym_at(sa).face == fa && m.sym_at(sa).slot == k1);
                assert(fa == fb && k1 == k2);
                if t1 < t2 {
                    assert(slots[t1] < slots[t2]);
                } else if t2 < t1 {
                    assert(slots[t2] < slots[t1]);
                }
                assert(false);
            }
        }
    }

    /// Round trip: re-importing a mesh's exported vertex and face lists
    /// reproduces the identical vertex positions and face connectivity,
    /// whatever internal slot assignment the rebuilt mesh uses.
    pub proof fn lemma_export_build_round_trip(m: CDT, m2: CDT)
        requires
            m.wf(),
            CDT::built_from(m2, m.position_list(), m.face_list()),
        ensures
            m2.position_list() == m.position_list(),
            m2.face_list() == m.face_list(),
    {
        Self::lemma_face_list_all_live(m2, m.face_list(), m.face_list().len() as int);
        assert(m2.face_list() =~= m.face_list().subrange(0, m.face_list().len() as int));
        assert(m.face_list().subrange(0, m.face_list().len() as int) =~= m.face_list());
    }
}

} // verus!
