use vstd::prelude::*;

use crate::cdt::{CDT, HalfEdgeEntry};
use crate::edge::Edge;
use crate::face::Face;
use crate::point::Point;
use crate::sym_edge::SymEdge;
use crate::vertex::Vertex;

verus! {

/// Pseudo-angle class of the direction `(dx, dy)`, ordered as `atan2` orders
/// directions: the lower half plane, the positive x axis, the upper half
/// plane, the negative x axis.
fn angle_class(dx: i64, dy: i64) -> u8 {
    if dy < 0 {
        0
    } else if dy == 0 && dx > 0 {
        1
    } else if dy > 0 {
        2
    } else {
        3
    }
}

/// Exact `atan2(d1) < atan2(d2)` for bounded direction vectors.
fn angle_less(d1x: i64, d1y: i64, d2x: i64, d2y: i64) -> bool
    requires
        -400_000_000 <= d1x <= 400_000_000,
        -400_000_000 <= d1y <= 400_000_000,
        -400_000_000 <= d2x <= 400_000_000,
        -400_000_000 <= d2y <= 400_000_000,
{
    let c1 = angle_class(d1x, d1y);
    let c2 = angle_class(d2x, d2y);
    if c1 != c2 {
        c1 < c2
    } else if c1 == 0 || c1 == 2 {
        // Within an open half plane the angle grows counter-clockwise.
        proof {
            crate::predicates::lemma_mul_bound(d1x as int, d2y as int, 400_000_000, 400_000_000);
            crate::predicates::lemma_mul_bound(d1y as int, d2x as int, 400_000_000, 400_000_000);
        }
        (d1x as i128) * (d2y as i128) - (d1y as i128) * (d2x as i128) > 0
    } else {
        false
    }
}

/// Sorts `keyed` so that the pseudo-angles of the `(dx, dy)` components
/// descend. Only the rearrangement property is specified; the order itself
/// is a behavioural choice that the rotate chains inherit.
fn sort_by_angle_desc(keyed: &mut Vec<(i64, i64, usize)>)
    requires
        forall|j: int|
            0 <= j < old(keyed)@.len() ==> -400_000_000 <= (#[trigger] old(keyed)@[j]).0
                <= 400_000_000 && -400_000_000 <= old(keyed)@[j].1 <= 400_000_000,
        forall|j1: int, j2: int|
            0 <= j1 < j2 < old(keyed)@.len() ==> #[trigger] old(keyed)@[j1]
                != #[trigger] old(keyed)@[j2],
    ensures
        final(keyed)@.len() == old(keyed)@.len(),
        forall|j: int|
            0 <= j < final(keyed)@.len() ==> old(keyed)@.contains(#[trigger] final(keyed)@[j]),
        forall|j: int|
            0 <= j < old(keyed)@.len() ==> final(keyed)@.contains(#[trigger] old(keyed)@[j]),
        forall|j1: int, j2: int|
            0 <= j1 < j2 < final(keyed)@.len() ==> #[trigger] final(keyed)@[j1]
                != #[trigger] final(keyed)@[j2],
{
    let ghost orig = keyed@;
    proof {
        assert forall|j: int| 0 <= j < keyed@.len() implies orig.contains(#[trigger] keyed@[j]) by {
            assert(orig[j] == keyed@[j]);
        }
        assert forall|j: int| 0 <= j < orig.len() implies keyed@.contains(#[trigger] orig[j]) by {
            assert(keyed@[j] == orig[j]);
        }
    }
    let mut i: usize = 1;
    while i < keyed.len()
        invariant
            keyed@.len() == orig.len(),
            forall|j: int| 0 <= j < keyed@.len() ==> orig.contains(#[trigger] keyed@[j]),
            forall|j: int| 0 <= j < orig.len() ==> keyed@.contains(#[trigger] orig[j]),
            forall|j1: int, j2: int|
                0 <= j1 < j2 < keyed@.len() ==> #[trigger] keyed@[j1] != #[trigger] keyed@[j2],
            forall|j: int|
                0 <= j < keyed@.len() ==> -400_000_000 <= (#[trigger] keyed@[j]).0 <= 400_000_000
                    && -400_000_000 <= keyed@[j].1 <= 400_000_000,
        decreases keyed@.len() - i,
    {
        let mut j: usize = i;
        while j > 0
            invariant
                j <= i < keyed@.len(),
                keyed@.len() == orig.len(),
                forall|jj: int| 0 <= jj < keyed@.len() ==> orig.contains(#[trigger] keyed@[jj]),
                forall|jj: int| 0 <= jj < orig.len() ==> keyed@.contains(#[trigger] orig[jj]),
                forall|j1: int, j2: int|
                    0 <= j1 < j2 < keyed@.len() ==> #[trigger] keyed@[j1] != #[trigger] keyed@[j2],
                forall|jj: int|
                    0 <= jj < keyed@.len() ==> -400_000_000 <= (#[trigger] keyed@[jj]).0
                        <= 400_000_000 && -400_000_000 <= keyed@[jj].1 <= 400_000_000,
            decreases j,
        {
            let a = keyed[j - 1];
            let b = keyed[j];
            if !angle_less(a.0, a.1, b.0, b.1) {
                break;
            }
            let ghost before = keyed@;
            keyed[j - 1] = b;
            keyed[j] = a;
            proof {
                assert forall|jj: int| 0 <= jj < keyed@.len() implies orig.contains(
                    #[trigger] keyed@[jj],
                ) by {
                    if jj == j - 1 {
                        assert(keyed@[jj] == before[j as int]);
                    } else if jj == j {
                        assert(keyed@[jj] == before[j - 1]);
                    } else {
                        assert(keyed@[jj] == before[jj]);
                    }
                }
                assert forall|jj: int| 0 <= jj < orig.len() implies keyed@.contains(
                    #[trigger] orig[jj],
                ) by {
                    let w = choose|w: int| 0 <= w < before.len() && before[w] == orig[jj];
                    if w == j - 1 {
                        assert(keyed@[j as int] == orig[jj]);
                    } else if w == j {
                        assert(keyed@[j - 1] == orig[jj]);
                    } else {
                        assert(keyed@[w] == orig[jj]);
                    }
                }
                assert forall|j1: int, j2: int| 0 <= j1 < j2 < keyed@.len() implies
                    #[trigger] keyed@[j1] != #[trigger] keyed@[j2] by {
                    let w1: int = if j1 == j - 1 {
                        j as int
                    } else if j1 == j {
                        j - 1
                    } else {
                        j1
                    };
                    let w2: int = if j2 == j - 1 {
                        j as int
                    } else if j2 == j {
                        j - 1
                    } else {
                        j2
                    };
                    assert(keyed@[j1] == before[w1] && keyed@[j2] == before[w2]);
                }
            }
            j = j - 1;
        }
        i = i + 1;
    }
}

/// The cyclic successor `(j + 1) % n` within `0..n` is injective.
proof fn lemma_cyclic_succ(j1: int, j2: int, n: int)
    requires
        2 <= n,
        0 <= j1 < n,
        0 <= j2 < n,
        j1 != j2,
    ensures
        (j1 + 1) % n != (j2 + 1) % n,
        (j1 + 1) % n != j1,
{
    if j1 + 1 < n {
        vstd::arithmetic::div_mod::lemma_small_mod((j1 + 1) as nat, n as nat);
    } else {
        vstd::arithmetic::div_mod::lemma_mod_self_0(n);
    }
    if j2 + 1 < n {
        vstd::arithmetic::div_mod::lemma_small_mod((j2 + 1) as nat, n as nat);
    } else {
        vstd::arithmetic::div_mod::lemma_mod_self_0(n);
    }
}

impl CDT {
    /// Looks the directed half-edge `(from, to)` up in the derived index.
    pub fn get_sym_edge_for_half_edge(&self, edge: (usize, usize)) -> (r: Option<usize>)
        requires
            self.wf(),
        ensures
            match r {
                Some(s) => self.live_sym(s as int) && self.sym_at(s as int).vertex == edge.0
                    && self.sym_to(s as int) == edge.1,
                None => self.half_edge_free(edge.0, edge.1) && forall|s: int|
                    #[trigger] self.live_sym(s) ==> !(self.sym_at(s).vertex == edge.0
                        && self.sym_to(s) == edge.1),
            },
    {
        let mut k: usize = 0;
        while k < self.half_edge_map.len()
            invariant
                self.wf(),
                0 <= k <= self.half_edge_map@.len(),
                forall|kk: int|
                    0 <= kk < k ==> !((#[trigger] self.half_edge_map@[kk]).from == edge.0
                        && self.half_edge_map@[kk].to == edge.1),
            decreases self.half_edge_map@.len() - k,
        {
            let en = self.half_edge_map[k];
            if en.from == edge.0 && en.to == edge.1 {
                return Some(en.sym);
            }
            k = k + 1;
        }
        proof {
            assert forall|s: int| #[trigger] self.live_sym(s) implies !(self.sym_at(s).vertex
                == edge.0 && self.sym_to(s) == edge.1) by {
                if self.sym_at(s).vertex == edge.0 && self.sym_to(s) == edge.1 {
                    assert(self.map_has(edge.0, edge.1, s));
                }
            }
        }
        None
    }

    /// All sym-edge slots of the two directed half-edges of the vertex pair
    /// `(a, b)`, in the order `(a, b)` then `(b, a)`: every live sym-edge
    /// running between the two vertices, and nothing else.
    pub fn get_all_sym_edges_for_edge(&self, a: usize, b: usize) -> (r: Vec<usize>)
        requires
            self.wf(),
        ensures
            r@.len() <= 2,
            forall|j: int|
                0 <= j < r@.len() ==> self.live_sym(#[trigger] r@[j] as int) && Self::same_pair(
                    self.sym_at(r@[j] as int).vertex,
                    self.sym_to(r@[j] as int),
                    a,
                    b,
                ),
            forall|j1: int, j2: int| 0 <= j1 < j2 < r@.len() ==> r@[j1] != r@[j2],
            forall|s: int|
                #[trigger] self.live_sym(s) && Self::same_pair(
                    self.sym_at(s).vertex,
                    self.sym_to(s),
                    a,
                    b,
                ) ==> exists|j: int| 0 <= j < r@.len() && r@[j] == s,
    {
        let mut r: Vec<usize> = Vec::new();
        match self.get_sym_edge_for_half_edge((a, b)) {
            Some(s) => {
                r.push(s);
            },
            None => {},
        }
        match self.get_sym_edge_for_half_edge((b, a)) {
            Some(s) => {
                proof {
                    if r@.len() == 1 {
                        // the two entries carry opposite directed half-edges
                        let s0 = r@[0] as int;
                        assert(self.face_corner_ok(
                            self.sym_at(s0).face as int,
                            self.sym_at(s0).slot as int,
                        ));
                        assert(self.sym_at(s0).vertex != self.sym_to(s0));
                        if r@[0] == s {
                            assert(a == b && self.sym_at(s0).vertex == self.sym_to(s0));
                            assert(false);
                        }
                    }
                }
                r.push(s);
            },
            None => {},
        }
        proof {
            assert forall|s: int|
                #[trigger] self.live_sym(s) && Self::same_pair(
                    self.sym_at(s).vertex,
                    self.sym_to(s),
                    a,
                    b,
                ) implies exists|j: int| 0 <= j < r@.len() && r@[j] == s by {
                if self.sym_at(s).vertex == a && self.sym_to(s) == b {
                    assert(r@.len() >= 1);
                    if r@[0] != s {
                        self.lemma_halfedge_unique(r@[0] as int, s);
                        assert(false);
                    }
                    assert(r@[0] == s);
                } else {
                    assert(self.sym_at(s).vertex == b && self.sym_to(s) == a);
                    assert(r@.len() >= 1);
                    if r@[r@.len() - 1] != s {
                        self.lemma_halfedge_unique(r@[r@.len() - 1] as int, s);
                        assert(false);
                    }
                    assert(r@[r@.len() - 1] == s);
                }
            }
        }
        r
    }

    /// Finds the live edge slot joining `a` and `b`, in either orientation.
    pub fn find_live_edge(&self, a: usize, b: usize) -> (r: Option<usize>)
        ensures
            match r {
                Some(e) => self.live_edge(e as int) && Self::same_pair(
                    self.edge_at(e as int).a,
                    self.edge_at(e as int).b,
                    a,
                    b,
                ),
                None => forall|e: int|
                    #[trigger] self.live_edge(e) ==> !Self::same_pair(
                        self.edge_at(e).a,
                        self.edge_at(e).b,
                        a,
                        b,
                    ),
            },
    {
        let mut e: usize = 0;
        while e < self.edges.len()
            invariant
                0 <= e <= self.edges@.len(),
                forall|ee: int|
                    0 <= ee < e && #[trigger] self.live_edge(ee) ==> !Self::same_pair(
                        self.edge_at(ee).a,
                        self.edge_at(ee).b,
                        a,
                        b,
                    ),
            decreases self.edges@.len() - e,
        {
            match &self.edges[e] {
                Some(ed) => {
                    if (ed.a == a && ed.b == b) || (ed.a == b && ed.b == a) {
                        return Some(e);
                    }
                },
                None => {},
            }
            e = e + 1;
        }
        None
    }

    /// Appends a new vertex with the next unused index.
    pub fn add_vertex(&mut self, position: Point, constraints: usize) -> (r: usize)
        requires
            old(self).wf(),
            position.wf(),
        ensures
            final(self).wf(),
            r == old(self).n_verts(),
            final(self).vertices@ == old(self).vertices@.push(
                Vertex { index: r, position, constraints },
            ),
            final(self).edges@ == old(self).edges@,
            final(self).faces@ == old(self).faces@,
            final(self).sym_edges@ == old(self).sym_edges@,
            final(self).half_edge_map@ == old(self).half_edge_map@,
    {
        let r = self.vertices.len();
        self.vertices.push(Vertex { index: r, position, constraints });
        proof {
            CDT::lemma_wf_after_vertex_push(*old(self), *self);
        }
        r
    }

    /// Finds the live edge joining `a` and `b`, creating it when absent.
    fn find_or_create_edge(&mut self, a: usize, b: usize) -> (e: usize)
        requires
            old(self).wf(),
            a < old(self).n_verts(),
            b < old(self).n_verts(),
            a != b,
        ensures
            final(self).wf(),
            final(self).live_edge(e as int),
            Self::same_pair(final(self).edge_at(e as int).a, final(self).edge_at(e as int).b, a, b),
            final(self).vertices@ == old(self).vertices@,
            final(self).faces@ == old(self).faces@,
            final(self).sym_edges@ == old(self).sym_edges@,
            final(self).half_edge_map@ == old(self).half_edge_map@,
            old(self).edges@.len() <= final(self).edges@.len() <= old(self).edges@.len() + 1,
            final(self).edges@.len() == old(self).edges@.len() + 1 ==> e == old(self).edges@.len(),
            forall|ee: int|
                0 <= ee < old(self).edges@.len() ==> final(self).edges@[ee] == old(self).edges@[ee],
    {
        match self.find_live_edge(a, b) {
            Some(e) => e,
            None => {
                let e = self.edges.len();
                self.edges.push(Some(Edge { a, b, crep: Vec::new() }));
                proof {
                    CDT::lemma_wf_after_edge_push(*old(self), *self, a, b);
                }
                e
            },
        }
    }

    /// Pushing one face, its three sym-edges and its three index entries, on
    /// top of edges that already join its corners, preserves
    /// well-formedness.
    proof fn lemma_wf_after_face_push(
        pre: CDT,
        post: CDT,
        v0: usize,
        v1: usize,
        v2: usize,
        e0: usize,
        e1: usize,
        e2: usize,
    )
        requires
            pre.wf(),
            v0 < pre.n_verts(),
            v1 < pre.n_verts(),
            v2 < pre.n_verts(),
            v0 != v1,
            v1 != v2,
            v0 != v2,
            pre.half_edge_free(v0, v1),
            pre.half_edge_free(v1, v2),
            pre.half_edge_free(v2, v0),
            pre.live_edge(e0 as int),
            Self::same_pair(pre.edge_at(e0 as int).a, pre.edge_at(e0 as int).b, v0, v1),
            pre.live_edge(e1 as int),
            Self::same_pair(pre.edge_at(e1 as int).a, pre.edge_at(e1 as int).b, v1, v2),
            pre.live_edge(e2 as int),
            Self::same_pair(pre.edge_at(e2 as int).a, pre.edge_at(e2 as int).b, v2, v0),
            pre.sym_edges@.len() + 3 <= usize::MAX,
            pre.faces@.len() + 1 <= usize::MAX,
            pre.half_edge_map@.len() + 3 <= usize::MAX,
            post.vertices@ == pre.vertices@,
            post.edges@ == pre.edges@,
            post.sym_edges@.len() == pre.sym_edges@.len() + 3,
            forall|s: int|
                0 <= s < pre.sym_edges@.len() ==> post.sym_edges@[s] == pre.sym_edges@[s],
            ({
                let ls = pre.sym_edges@.len() as int;
                let fi = pre.faces@.len() as int;
                &&& post.sym_edges@[ls] == Some(
                    SymEdge {
                        vertex: v0,
                        edge: e0,
                        face: fi as usize,
                        slot: 0,
                        nxt: (ls + 1) as usize,
                        rot: None,
                    },
                )
                &&& post.sym_edges@[ls + 1] == Some(
                    SymEdge {
                        vertex: v1,
                        edge: e1,
                        face: fi as usize,
                        slot: 1,
                        nxt: (ls + 2) as usize,
                        rot: None,
                    },
                )
                &&& post.sym_edges@[ls + 2] == Some(
                    SymEdge {
                        vertex: v2,
                        edge: e2,
                        face: fi as usize,
                        slot: 2,
                        nxt: ls as usize,
                        rot: None,
                    },
                )
            }),
            post.faces@.len() == pre.faces@.len() + 1,
            forall|f: int| 0 <= f < pre.faces@.len() ==> post.faces@[f] == pre.faces@[f],
            post.faces@[pre.faces@.len() as int] == Some(
                Face {
                    v0,
                    v1,
                    v2,
                    s0: pre.sym_edges@.len() as usize,
                    s1: (pre.sym_edges@.len() + 1) as usize,
                    s2: (pre.sym_edges@.len() + 2) as usize,
                },
            ),
            post.half_edge_map@.len() == pre.half_edge_map@.len() + 3,
            forall|k: int|
                0 <= k < pre.half_edge_map@.len() ==> post.half_edge_map@[k]
                    == pre.half_edge_map@[k],
            post.half_edge_map@[pre.half_edge_map@.len() as int] == (HalfEdgeEntry {
                from: v0,
                to: v1,
                sym: pre.sym_edges@.len() as usize,
            }),
            post.half_edge_map@[pre.half_edge_map@.len() as int + 1] == (HalfEdgeEntry {
                from: v1,
                to: v2,
                sym: (pre.sym_edges@.len() + 1) as usize,
            }),
            post.half_edge_map@[pre.half_edge_map@.len() as int + 2] == (HalfEdgeEntry {
                from: v2,
                to: v0,
                sym: (pre.sym_edges@.len() + 2) as usize,
            }),
        ensures
            post.wf(),
    {
        let ls = pre.sym_edges@.len() as int;
        let fi = pre.faces@.len() as int;
        let lm = pre.half_edge_map@.len() as int;
        assert forall|e: int| #[trigger] post.live_edge(e) implies post.edge_at(e).a
            < post.n_verts() && post.edge_at(e).b < post.n_verts() && post.edge_at(e).a
            != post.edge_at(e).b by {
            assert(pre.live_edge(e));
        }
        assert forall|ea: int, eb: int|
            #[trigger] post.live_edge(ea) && #[trigger] post.live_edge(eb) && ea != eb implies
            !Self::same_pair(
            post.edge_at(ea).a,
            post.edge_at(ea).b,
            post.edge_at(eb).a,
            post.edge_at(eb).b,
        ) by {
            assert(pre.live_edge(ea) && pre.live_edge(eb));
        }
        assert forall|f: int| #[trigger] post.live_face(f) implies {
            let fc = post.face_at(f);
            &&& fc.v0 < post.n_verts()
            &&& fc.v1 < post.n_verts()
            &&& fc.v2 < post.n_verts()
            &&& fc.v0 != fc.v1
            &&& fc.v1 != fc.v2
            &&& fc.v0 != fc.v2
        } by {
            if f != fi {
                assert(post.faces@[f] == pre.faces@[f]);
                assert(pre.live_face(f));
            }
        }
        assert forall|f: int, i: int| #[trigger] post.live_face(f) && 0 <= i < 3 implies
            #[trigger] post.face_corner_ok(f, i) by {
            if f != fi {
                assert(post.faces@[f] == pre.faces@[f]);
                assert(pre.live_face(f));
                assert(pre.face_corner_ok(f, i));
                let s = pre.face_at(f).sym(i) as int;
                assert(post.sym_edges@[s] == pre.sym_edges@[s]);
                assert(post.edges@[pre.sym_at(s).edge as int] == pre.edges@[pre.sym_at(
                    s,
                ).edge as int]);
            } else {
                if i == 0 {
                    assert(post.face_corner_ok(f, 0));
                } else if i == 1 {
                    assert(post.face_corner_ok(f, 1));
                } else {
                    assert(post.face_corner_ok(f, 2));
                }
            }
        }
        assert forall|s: int| #[trigger] post.live_sym(s) implies {
            let se = post.sym_at(s);
            &&& se.slot < 3
            &&& post.live_face(se.face as int)
            &&& post.face_at(se.face as int).sym(se.slot as int) == s
        } by {
            if s < ls {
                assert(post.sym_edges@[s] == pre.sym_edges@[s]);
                assert(pre.live_sym(s));
                assert(post.faces@[pre.sym_at(s).face as int] == pre.faces@[pre.sym_at(
                    s,
                ).face as int]);
            }
        }
        assert forall|k: int| 0 <= k < post.half_edge_map@.len() implies {
            let en = #[trigger] post.half_edge_map@[k];
            &&& post.live_sym(en.sym as int)
            &&& post.sym_at(en.sym as int).vertex == en.from
            &&& post.sym_to(en.sym as int) == en.to
        } by {
            if k < lm {
                assert(post.half_edge_map@[k] == pre.half_edge_map@[k]);
                assert(pre.live_sym(pre.half_edge_map@[k].sym as int));
                let s = pre.half_edge_map@[k].sym as int;
                assert(post.sym_edges@[s] == pre.sym_edges@[s]);
                assert(post.faces@[pre.sym_at(s).face as int] == pre.faces@[pre.sym_at(
                    s,
                ).face as int]);
                assert(post.sym_to(s) == pre.sym_to(s));
            }
        }
        assert forall|k1: int, k2: int|
            0 <= k1 < post.half_edge_map@.len() && 0 <= k2 < post.half_edge_map@.len() && k1
                != k2 implies !((#[trigger] post.half_edge_map@[k1]).from == (
        #[trigger] post.half_edge_map@[k2]).from && post.half_edge_map@[k1].to
            == post.half_edge_map@[k2].to) by {
            if k1 < lm && k2 < lm {
                assert(post.half_edge_map@[k1] == pre.half_edge_map@[k1]);
                assert(post.half_edge_map@[k2] == pre.half_edge_map@[k2]);
            } else if k1 < lm {
                assert(post.half_edge_map@[k1] == pre.half_edge_map@[k1]);
            } else if k2 < lm {
                assert(post.half_edge_map@[k2] == pre.half_edge_map@[k2]);
            }
        }
        assert forall|s: int| #[trigger] post.live_sym(s) implies post.map_has(
            post.sym_at(s).vertex,
            post.sym_to(s),
            s,
        ) by {
            if s < ls {
                assert(post.sym_edges@[s] == pre.sym_edges@[s]);
                assert(pre.live_sym(s));
                assert(pre.map_has(pre.sym_at(s).vertex, pre.sym_to(s), s));
                let k = choose|k: int|
                    0 <= k < pre.half_edge_map@.len() && (#[trigger] pre.half_edge_map@[k]).from
                        == pre.sym_at(s).vertex && pre.half_edge_map@[k].to == pre.sym_to(s)
                        && pre.half_edge_map@[k].sym == s;
                assert(post.faces@[pre.sym_at(s).face as int] == pre.faces@[pre.sym_at(
                    s,
                ).face as int]);
                assert(post.half_edge_map@[k].from == post.sym_at(s).vertex
                    && post.half_edge_map@[k].to == post.sym_to(s) && post.half_edge_map@[k].sym
                    == s);
            } else if s == ls {
                assert(post.half_edge_map@[lm].from == post.sym_at(s).vertex
                    && post.half_edge_map@[lm].to == post.sym_to(s) && post.half_edge_map@[lm].sym
                    == s);
            } else if s == ls + 1 {
                assert(post.half_edge_map@[lm + 1].from == post.sym_at(s).vertex
                    && post.half_edge_map@[lm + 1].to == post.sym_to(s) && post.half_edge_map@[lm
                    + 1].sym == s);
            } else {
                assert(post.half_edge_map@[lm + 2].from == post.sym_at(s).vertex
                    && post.half_edge_map@[lm + 2].to == post.sym_to(s) && post.half_edge_map@[lm
                    + 2].sym == s);
            }
        }
        assert forall|u: usize| #[trigger] post.rot_ok_at(u) by {
            assert(pre.rot_ok_at(u));
            assert forall|s: int|
                #[trigger] post.live_sym(s) && post.sym_at(s).vertex == u && post.sym_at(s).rot
                    is Some implies post.live_sym(post.sym_at(s).rot->Some_0 as int)
                && post.sym_at(post.sym_at(s).rot->Some_0 as int).vertex == u by {
                assert(s < ls);
                assert(post.sym_edges@[s] == pre.sym_edges@[s]);
                assert(pre.live_sym(s));
                let r = pre.sym_at(s).rot->Some_0 as int;
                assert(pre.live_sym(r) && pre.sym_at(r).vertex == u);
                assert(post.sym_edges@[r] == pre.sym_edges@[r]);
            }
        }
    }

    /// Creates the face `(v0, v1, v2)`: creates any of its three side edges
    /// not already present, builds its three sym-edges and their `nxt`
    /// cycle, enters them into the half-edge index, and rebuilds the rotate
    /// chains of the three corners. Returns `None`, changing nothing, when a
    /// corner index is out of range, two corners coincide, or one of the
    /// three directed sides is already present in the mesh.
    #[verifier::rlimit(100)]
    #[verifier::spinoff_prover]
    pub fn add_face(&mut self, v0: usize, v1: usize, v2: usize) -> (r: Option<usize>)
        requires
            old(self).wf(),
        ensures
            final(self).wf(),
            r is Some <==> old(self).can_add_face(v0, v1, v2),
            r is None ==> *final(self) == *old(self),
            final(self).vertices@ == old(self).vertices@,
            old(self).edges@.len() <= final(self).edges@.len(),
            forall|e: int|
                0 <= e < old(self).edges@.len() ==> final(self).edges@[e] == old(self).edges@[e],
            old(self).faces@.len() <= final(self).faces@.len(),
            forall|f: int|
                0 <= f < old(self).faces@.len() ==> final(self).faces@[f] == old(self).faces@[f],
            forall|s: int|
                0 <= s < old(self).sym_edges@.len() ==> (final(self).live_sym(s) <==> old(self).live_sym(s)),
            forall|s: int|
                #[trigger] old(self).live_sym(s) ==> CDT::same_but_rot(
                    old(self).sym_at(s),
                    final(self).sym_at(s),
                ),
            r is Some ==> {
                let fi = r->Some_0 as int;
                &&& fi == old(self).faces@.len()
                &&& final(self).faces@.len() == old(self).faces@.len() + 1
                &&& final(self).live_face(fi)
                &&& final(self).face_at(fi).v0 == v0
                &&& final(self).face_at(fi).v1 == v1
                &&& final(self).face_at(fi).v2 == v2
            },
            r is Some ==> final(self).face_count_upto(final(self).faces@.len() as int) == old(self).face_count_upto(old(self).faces@.len() as int) + 1,
            r is Some ==> forall|e2: int|
                old(self).edges@.len() <= e2 < final(self).edges@.len() && #[trigger] final(self).live_edge(e2) ==> CDT::same_pair(
                    final(self).edge_at(e2).a,
                    final(self).edge_at(e2).b,
                    v0,
                    v1,
                ) || CDT::same_pair(final(self).edge_at(e2).a, final(self).edge_at(e2).b, v1, v2)
                    || CDT::same_pair(final(self).edge_at(e2).a, final(self).edge_at(e2).b, v2, v0),
            r is Some ==> {
                let lm = old(self).half_edge_map@.len() as int;
                &&& final(self).sym_edges@.len() == old(self).sym_edges@.len() + 3
                &&& final(self).edges@.len() <= old(self).edges@.len() + 3
                &&& final(self).half_edge_map@.len() == lm + 3
                &&& (forall|k: int|
                    0 <= k < lm ==> final(self).half_edge_map@[k] == old(self).half_edge_map@[k])
                &&& final(self).half_edge_map@[lm].from == v0
                &&& final(self).half_edge_map@[lm].to == v1
                &&& final(self).half_edge_map@[lm + 1].from == v1
                &&& final(self).half_edge_map@[lm + 1].to == v2
                &&& final(self).half_edge_map@[lm + 2].from == v2
                &&& final(self).half_edge_map@[lm + 2].to == v0
            },
    {
        let nv = self.vertices.len();
        if v0 >= nv || v1 >= nv || v2 >= nv {
            return None;
        }
        if v0 == v1 || v1 == v2 || v0 == v2 {
            return None;
        }
        if self.sym_edges.len() > usize::MAX - 3 || self.faces.len() > usize::MAX - 1
            || self.half_edge_map.len() > usize::MAX - 3 || self.edges.len() > usize::MAX - 3 {
            return None;
        }
        match self.get_sym_edge_for_half_edge((v0, v1)) {
            Some(s) => {
                proof {
                    assert(self.map_has(v0, v1, s as int));
                    assert(!self.half_edge_free(v0, v1));
                }
                return None;
            },
            None => {},
        }
        match self.get_sym_edge_for_half_edge((v1, v2)) {
            Some(s) => {
                proof {
                    assert(self.map_has(v1, v2, s as int));
                    assert(!self.half_edge_free(v1, v2));
                }
                return None;
            },
            None => {},
        }
        match self.get_sym_edge_for_half_edge((v2, v0)) {
            Some(s) => {
                proof {
                    assert(self.map_has(v2, v0, s as int));
                    assert(!self.half_edge_free(v2, v0));
                }
                return None;
            },
            None => {},
        }
        let ghost g0 = *self;
        let e0 = self.find_or_create_edge(v0, v1);
        let ghost ga = *self;
        let e1 = self.find_or_create_edge(v1, v2);
        let ghost gb = *self;
        let e2 = self.find_or_create_edge(v2, v0);
        let ghost g1 = *self;
        proof {
            assert forall|ee: int|
                g0.edges@.len() <= ee < g1.edges@.len() && #[trigger] g1.live_edge(ee) implies
                CDT::same_pair(g1.edge_at(ee).a, g1.edge_at(ee).b, v0, v1) || CDT::same_pair(
                g1.edge_at(ee).a,
                g1.edge_at(ee).b,
                v1,
                v2,
            ) || CDT::same_pair(g1.edge_at(ee).a, g1.edge_at(ee).b, v2, v0) by {
                if ee < ga.edges@.len() {
                    assert(ee == g0.edges@.len());
                    assert(ga.edges@[ee] == gb.edges@[ee] && gb.edges@[ee] == g1.edges@[ee]);
                    assert(CDT::same_pair(ga.edge_at(ee).a, ga.edge_at(ee).b, v0, v1));
                } else if ee < gb.edges@.len() {
                    assert(ee == ga.edges@.len());
                    assert(gb.edges@[ee] == g1.edges@[ee]);
                    assert(CDT::same_pair(gb.edge_at(ee).a, gb.edge_at(ee).b, v1, v2));
                } else {
                    assert(ee == gb.edges@.len());
                    assert(CDT::same_pair(g1.edge_at(ee).a, g1.edge_at(ee).b, v2, v0));
                }
            }
        }
        proof {
            assert(g1.half_edge_map@ == g0.half_edge_map@);
            assert(g1.half_edge_free(v0, v1) && g1.half_edge_free(v1, v2) && g1.half_edge_free(
                v2,
                v0,
            ));
        }
        let fi = self.faces.len();
        let s0 = self.sym_edges.len();
        let s1 = s0 + 1;
        let s2 = s0 + 2;
        self.sym_edges.push(
            Some(SymEdge { vertex: v0, edge: e0, face: fi, slot: 0, nxt: s1, rot: None }),
        );
        self.sym_edges.push(
            Some(SymEdge { vertex: v1, edge: e1, face: fi, slot: 1, nxt: s2, rot: None }),
        );
        self.sym_edges.push(
            Some(SymEdge { vertex: v2, edge: e2, face: fi, slot: 2, nxt: s0, rot: None }),
        );
        self.faces.push(Some(Face { v0, v1, v2, s0, s1, s2 }));
        self.half_edge_map.push(HalfEdgeEntry { from: v0, to: v1, sym: s0 });
        self.half_edge_map.push(HalfEdgeEntry { from: v1, to: v2, sym: s1 });
        self.half_edge_map.push(HalfEdgeEntry { from: v2, to: v0, sym: s2 });
        proof {
            Self::lemma_wf_after_face_push(g1, *self, v0, v1, v2, e0, e1, e2);
        }
        let ghost ga = *self;
        self.build_rot_pointers_for_vertex_sym_edges(v0);
        proof {
            assert forall|u: usize| #[trigger] self.rot_ok_at(u) by {
                if u != v0 {
                    assert(ga.rot_ok_at(u));
                }
            }
        }
        let ghost gb = *self;
        self.build_rot_pointers_for_vertex_sym_edges(v1);
        proof {
            assert forall|u: usize| #[trigger] self.rot_ok_at(u) by {
                if u != v1 {
                    assert(gb.rot_ok_at(u));
                }
            }
        }
        let ghost gc = *self;
        self.build_rot_pointers_for_vertex_sym_edges(v2);
        proof {
            assert forall|u: usize| #[trigger] self.rot_ok_at(u) by {
                if u != v2 {
                    assert(gc.rot_ok_at(u));
                }
            }
            assert(self.wf());
            assert(self.live_face(fi as int));
            CDT::lemma_face_count_agree(*old(self), *self, old(self).faces@.len() as int);
            assert(self.face_count_upto(self.faces@.len() as int) == self.face_count_upto(
                old(self).faces@.len() as int,
            ) + 1);
            assert forall|s: int| #[trigger] old(self).live_sym(s) implies CDT::same_but_rot(
                old(self).sym_at(s),
                self.sym_at(s),
            ) by {
                assert(g1.sym_edges@[s] == old(self).sym_edges@[s]);
                assert(ga.sym_edges@[s] == g1.sym_edges@[s]);
                assert(ga.live_sym(s));
                assert(CDT::same_but_rot(ga.sym_at(s), gb.sym_at(s)));
                assert(gb.live_sym(s));
                assert(CDT::same_but_rot(gb.sym_at(s), gc.sym_at(s)));
                assert(gc.live_sym(s));
                assert(CDT::same_but_rot(gc.sym_at(s), self.sym_at(s)));
            }
        }
        Some(fi)
    }

    /// Scans the raw half-edge index for the key `(from, to)`. Unlike
    /// `get_sym_edge_for_half_edge` this asks nothing of the mesh, so the
    /// teardown inside `remove_face` can use it mid-update.
    fn map_lookup(&self, from: usize, to: usize) -> (r: Option<usize>)
        ensures
            r is None ==> self.half_edge_free(from, to),
            r is Some ==> exists|k: int|
                0 <= k < self.half_edge_map@.len() && (#[trigger] self.half_edge_map@[k]).from
                    == from && self.half_edge_map@[k].to == to && self.half_edge_map@[k].sym == r->Some_0,
    {
        let mut k: usize = 0;
        while k < self.half_edge_map.len()
            invariant
                0 <= k <= self.half_edge_map@.len(),
                forall|kk: int|
                    0 <= kk < k ==> !((#[trigger] self.half_edge_map@[kk]).from == from
                        && self.half_edge_map@[kk].to == to),
            decreases self.half_edge_map@.len() - k,
        {
            let en = self.half_edge_map[k];
            if en.from == from && en.to == to {
                return Some(en.sym);
            }
            k = k + 1;
        }
        None
    }

    /// Removes the index entry of sym-edge `s`, when there is one.
    fn remove_map_entry_for_sym(&mut self, s: usize)
        requires
            forall|k1: int, k2: int|
                0 <= k1 < old(self).half_edge_map@.len() && 0 <= k2 < old(self).half_edge_map@.len() && k1 != k2 ==> !((#[trigger] old(self).half_edge_map@[k1]).from == (#[trigger] old(self).half_edge_map@[k2]).from && old(self).half_edge_map@[k1].to == old(self).half_edge_map@[k2].to),
            forall|k1: int, k2: int|
                0 <= k1 < old(self).half_edge_map@.len() && 0 <= k2 < old(self).half_edge_map@.len() && (#[trigger] old(self).half_edge_map@[k1]).sym == s && (
                #[trigger] old(self).half_edge_map@[k2]).sym == s ==> k1 == k2,
        ensures
            final(self).vertices@ == old(self).vertices@,
            final(self).edges@ == old(self).edges@,
            final(self).faces@ == old(self).faces@,
            final(self).sym_edges@ == old(self).sym_edges@,
            final(self).half_edge_map@.len() <= old(self).half_edge_map@.len(),
            forall|k: int|
                0 <= k < final(self).half_edge_map@.len() ==> old(self).half_edge_map@.contains(
                    #[trigger] final(self).half_edge_map@[k],
                ),
            forall|en: HalfEdgeEntry|
                old(self).half_edge_map@.contains(en) && en.sym != s ==> final(self).half_edge_map@.contains(en),
            forall|k: int|
                0 <= k < final(self).half_edge_map@.len() ==> (#[trigger] final(self).half_edge_map@[k]).sym != s,
            forall|k1: int, k2: int|
                0 <= k1 < final(self).half_edge_map@.len() && 0 <= k2 < final(self).half_edge_map@.len() && k1 != k2 ==> !((#[trigger] final(self).half_edge_map@[k1]).from == (#[trigger] final(self).half_edge_map@[k2]).from
                    && final(self).half_edge_map@[k1].to == final(self).half_edge_map@[k2].to),
    {
        let ghost orig = self.half_edge_map@;
        let mut k: usize = 0;
        let mut found: Option<usize> = None;
        while k < self.half_edge_map.len()
            invariant
                *self == *old(self),
                0 <= k <= self.half_edge_map@.len(),
                found is None ==> forall|kk: int|
                    0 <= kk < k ==> (#[trigger] self.half_edge_map@[kk]).sym != s,
                found is Some ==> 0 <= found->Some_0 < self.half_edge_map@.len()
                    && self.half_edge_map@[found->Some_0 as int].sym == s,
            decreases self.half_edge_map@.len() - k,
        {
            if found.is_none() {
                let en = self.half_edge_map[k];
                if en.sym == s {
                    found = Some(k);
                }
            }
            k = k + 1;
        }
        match found {
            None => {
                proof {
                    assert forall|kk: int|
                        0 <= kk < self.half_edge_map@.len() implies (
                    #[trigger] self.half_edge_map@[kk]).sym != s by {}
                    assert forall|kk: int|
                        0 <= kk < self.half_edge_map@.len() implies orig.contains(
                        #[trigger] self.half_edge_map@[kk],
                    ) by {
                        assert(orig[kk] == self.half_edge_map@[kk]);
                    }
                    assert forall|en: HalfEdgeEntry|
                        orig.contains(en) && en.sym != s implies self.half_edge_map@.contains(
                        en,
                    ) by {}
                }
            },
            Some(idx) => {
                self.half_edge_map.swap_remove(idx);
                proof {
                    let cur = self.half_edge_map@;
                    assert forall|kk: int| 0 <= kk < cur.len() implies orig.contains(
                        #[trigger] cur[kk],
                    ) by {
                        if kk == idx {
                            assert(cur[kk] == orig[orig.len() - 1]);
                        } else {
                            assert(cur[kk] == orig[kk]);
                        }
                    }
                    assert forall|en: HalfEdgeEntry| orig.contains(en) && en.sym != s implies
                        cur.contains(en) by {
                        let w = choose|w: int| 0 <= w < orig.len() && orig[w] == en;
                        if w == idx {
                            assert(false);
                        } else if w == orig.len() - 1 {
                            if idx < orig.len() - 1 {
                                assert(cur[idx as int] == en);
                            }
                        } else {
                            assert(cur[w] == en);
                        }
                    }
                    assert forall|kk: int| 0 <= kk < cur.len() implies (#[trigger] cur[kk]).sym
                        != s by {
                        if kk == idx {
                            assert(cur[kk] == orig[orig.len() - 1]);
                            if orig.len() - 1 != idx {
                                assert(orig[orig.len() - 1].sym != s);
                            }
                        } else {
                            assert(cur[kk] == orig[kk]);
                        }
                    }
                    assert forall|k1: int, k2: int|
                        0 <= k1 < cur.len() && 0 <= k2 < cur.len() && k1 != k2 implies !((
                    #[trigger] cur[k1]).from == (#[trigger] cur[k2]).from && cur[k1].to
                        == cur[k2].to) by {
                        let w1: int = if k1 == idx {
                            orig.len() - 1
                        } else {
                            k1
                        };
                        let w2: int = if k2 == idx {
                            orig.len() - 1
                        } else {
                            k2
                        };
                        assert(cur[k1] == orig[w1] && cur[k2] == orig[w2]);
                    }
                }
            },
        }
    }

    /// A half-edge index entry whose key joins the endpoints of live edge
    /// `ee` names a live sym-edge running along `ee`.
    proof fn lemma_key_names_edge_sym(m: CDT, f: usize, t: usize, ee: int)
        requires
            m.wf(),
            m.live_edge(ee),
            CDT::same_pair(m.edge_at(ee).a, m.edge_at(ee).b, f, t),
            exists|k: int|
                0 <= k < m.half_edge_map@.len() && (#[trigger] m.half_edge_map@[k]).from == f
                    && m.half_edge_map@[k].to == t,
        ensures
            exists|s: int| #[trigger] m.live_sym(s) && m.sym_at(s).edge == ee,
    {
        let k = choose|k: int|
            0 <= k < m.half_edge_map@.len() && (#[trigger] m.half_edge_map@[k]).from == f
                && m.half_edge_map@[k].to == t;
        let sy = m.half_edge_map@[k].sym as int;
        assert(m.live_sym(sy) && m.sym_at(sy).vertex == f && m.sym_to(sy) == t);
        assert(m.face_corner_ok(m.sym_at(sy).face as int, m.sym_at(sy).slot as int));
        let fe = m.sym_at(sy).edge as int;
        assert(CDT::same_pair(m.edge_at(fe).a, m.edge_at(fe).b, f, t));
        if fe != ee {
            assert(m.live_edge(fe) && m.live_edge(ee));
            assert(false);
        }
    }

    /// No live sym-edge runs along a tombstoned edge slot.
    proof fn lemma_dead_edge_unreferenced(m: CDT, ee: int)
        requires
            m.wf(),
            !(0 <= ee < m.edges@.len() && m.edges@[ee] is Some),
        ensures
            forall|s: int| #[trigger] m.live_sym(s) ==> m.sym_at(s).edge != ee,
    {
        assert forall|s: int| #[trigger] m.live_sym(s) implies m.sym_at(s).edge != ee by {
            assert(m.face_corner_ok(m.sym_at(s).face as int, m.sym_at(s).slot as int));
            assert(m.live_edge(m.sym_at(s).edge as int));
        }
    }

    /// Tombstones edge slot `eslot` when the half-edge index holds neither
    /// direction of `(a2, b2)` any more; otherwise leaves it alone.
    fn prune_side_edge(&mut self, eslot: usize, a2: usize, b2: usize)
        requires
            eslot < old(self).edges@.len(),
        ensures
            final(self).vertices@ == old(self).vertices@,
            final(self).faces@ == old(self).faces@,
            final(self).sym_edges@ == old(self).sym_edges@,
            final(self).half_edge_map@ == old(self).half_edge_map@,
            final(self).edges@.len() == old(self).edges@.len(),
            forall|e: int|
                0 <= e < old(self).edges@.len() && e != eslot ==> final(self).edges@[e] == old(self).edges@[e],
            final(self).edges@[eslot as int] == old(self).edges@[eslot as int] || !(final(self).edges@[eslot as int] is Some),
            (final(self).edges@[eslot as int] is Some) <==> ((old(self).edges@[eslot as int]
                is Some) && !(final(self).half_edge_free(a2, b2) && final(self).half_edge_free(
                b2,
                a2,
            ))),
    {
        let la = self.map_lookup(a2, b2);
        let lb = self.map_lookup(b2, a2);
        if la.is_none() && lb.is_none() {
            self.edges[eslot] = None;
        } else {
            proof {
                if la is Some {
                    let sk = la->Some_0;
                    let k = choose|k: int|
                        0 <= k < self.half_edge_map@.len() && (
                        #[trigger] self.half_edge_map@[k]).from == a2 && self.half_edge_map@[k].to
                            == b2 && self.half_edge_map@[k].sym == sk;
                    assert(!self.half_edge_free(a2, b2));
                } else {
                    let sk = lb->Some_0;
                    let k = choose|k: int|
                        0 <= k < self.half_edge_map@.len() && (
                        #[trigger] self.half_edge_map@[k]).from == b2 && self.half_edge_map@[k].to
                            == a2 && self.half_edge_map@[k].sym == sk;
                    assert(!self.half_edge_free(b2, a2));
                }
            }
        }
    }

    /// Tearing one face out — tombstoning it, its three sym-edges, their
    /// index entries, and every side edge that no sym-edge references any
    /// more — preserves everything but the rotate chains of its corners.
    proof fn lemma_wf0_after_face_removal(pre: CDT, post: CDT, fi: int)
        requires
            pre.wf(),
            pre.live_face(fi),
            post.vertices@ == pre.vertices@,
            post.faces@.len() == pre.faces@.len(),
            post.faces@[fi] is None,
            forall|f: int| 0 <= f < pre.faces@.len() && f != fi ==> post.faces@[f] == pre.faces@[f],
            post.sym_edges@.len() == pre.sym_edges@.len(),
            !(post.sym_edges@[pre.face_at(fi).s0 as int] is Some),
            !(post.sym_edges@[pre.face_at(fi).s1 as int] is Some),
            !(post.sym_edges@[pre.face_at(fi).s2 as int] is Some),
            forall|s: int|
                0 <= s < pre.sym_edges@.len() && s != pre.face_at(fi).s0 && s != pre.face_at(fi).s1
                    && s != pre.face_at(fi).s2 ==> post.sym_edges@[s] == pre.sym_edges@[s],
            post.edges@.len() == pre.edges@.len(),
            forall|e: int|
                0 <= e < pre.edges@.len() ==> post.edges@[e] == pre.edges@[e] || !(post.edges@[e]
                    is Some),
            forall|e: int|
                0 <= e < pre.edges@.len() && #[trigger] pre.live_edge(e) && !(post.edges@[e]
                    is Some) ==> post.half_edge_free(pre.edge_at(e).a, pre.edge_at(e).b)
                    && post.half_edge_free(pre.edge_at(e).b, pre.edge_at(e).a),
            forall|k: int|
                0 <= k < post.half_edge_map@.len() ==> pre.half_edge_map@.contains(
                    #[trigger] post.half_edge_map@[k],
                ),
            forall|en: HalfEdgeEntry|
                pre.half_edge_map@.contains(en) && en.sym != pre.face_at(fi).s0 && en.sym
                    != pre.face_at(fi).s1 && en.sym != pre.face_at(fi).s2
                    ==> post.half_edge_map@.contains(en),
            forall|k: int|
                0 <= k < post.half_edge_map@.len() ==> (#[trigger] post.half_edge_map@[k]).sym
                    != pre.face_at(fi).s0 && post.half_edge_map@[k].sym != pre.face_at(fi).s1
                    && post.half_edge_map@[k].sym != pre.face_at(fi).s2,
            post.wf_map_unique(),
        ensures
            post.wf0(),
            post.face_count_upto(post.faces@.len() as int) == pre.face_count_upto(
                pre.faces@.len() as int,
            ) - 1,
            forall|u: usize|
                u != pre.face_at(fi).v0 && u != pre.face_at(fi).v1 && u != pre.face_at(fi).v2
                    ==> #[trigger] post.rot_ok_at(u),
    {
        CDT::lemma_face_count_tombstone(pre, post, pre.faces@.len() as int, fi);
        let fc = pre.face_at(fi);
        assert(pre.face_corner_ok(fi, 0) && pre.face_corner_ok(fi, 1) && pre.face_corner_ok(
            fi,
            2,
        ));
        // A sym-edge slot of the removed face belongs to no other live face.
        assert forall|s: int| #[trigger] post.live_sym(s) implies pre.live_sym(s) && s != fc.s0
            && s != fc.s1 && s != fc.s2 && post.sym_edges@[s] == pre.sym_edges@[s]
            && pre.sym_at(s).face != fi by {
            assert(post.sym_edges@[s] == pre.sym_edges@[s]);
            assert(pre.live_sym(s));
            if pre.sym_at(s).face == fi {
                assert(pre.face_at(fi).sym(pre.sym_at(s).slot as int) == s);
                assert(s == fc.s0 || s == fc.s1 || s == fc.s2);
            }
        }
        assert forall|e: int| #[trigger] post.live_edge(e) implies post.edge_at(e).a
            < post.n_verts() && post.edge_at(e).b < post.n_verts() && post.edge_at(e).a
            != post.edge_at(e).b by {
            assert(pre.live_edge(e));
            assert(post.edges@[e] == pre.edges@[e]);
        }
        assert forall|e1: int, e2: int|
            #[trigger] post.live_edge(e1) && #[trigger] post.live_edge(e2) && e1 != e2 implies
            !Self::same_pair(
            post.edge_at(e1).a,
            post.edge_at(e1).b,
            post.edge_at(e2).a,
            post.edge_at(e2).b,
        ) by {
            assert(pre.live_edge(e1) && pre.live_edge(e2));
            assert(post.edges@[e1] == pre.edges@[e1] && post.edges@[e2] == pre.edges@[e2]);
        }
        assert forall|f: int| #[trigger] post.live_face(f) implies {
            let fc2 = post.face_at(f);
            &&& fc2.v0 < post.n_verts()
            &&& fc2.v1 < post.n_verts()
            &&& fc2.v2 < post.n_verts()
            &&& fc2.v0 != fc2.v1
            &&& fc2.v1 != fc2.v2
            &&& fc2.v0 != fc2.v2
        } by {
            assert(f != fi);
            assert(post.faces@[f] == pre.faces@[f]);
            assert(pre.live_face(f));
        }
        assert forall|f: int, i: int| #[trigger] post.live_face(f) && 0 <= i < 3 implies
            #[trigger] post.face_corner_ok(f, i) by {
            assert(f != fi);
            assert(post.faces@[f] == pre.faces@[f]);
            assert(pre.live_face(f));
            assert(pre.face_corner_ok(f, i));
            let s = pre.face_at(f).sym(i) as int;
            // s is not a sym-edge of the removed face
            if s == fc.s0 || s == fc.s1 || s == fc.s2 {
                assert(pre.sym_at(s).face == fi && pre.sym_at(s).face == f);
                assert(false);
            }
            assert(post.sym_edges@[s] == pre.sym_edges@[s]);
            let e = pre.sym_at(s).edge as int;
            // the side edge is still present: its own index entry survives
            if !(post.edges@[e] is Some) {
                assert(pre.map_has(pre.sym_at(s).vertex, pre.sym_to(s), s));
                let k = choose|k: int|
                    0 <= k < pre.half_edge_map@.len() && (#[trigger] pre.half_edge_map@[k]).from
                        == pre.sym_at(s).vertex && pre.half_edge_map@[k].to == pre.sym_to(s)
                        && pre.half_edge_map@[k].sym == s;
                assert(pre.half_edge_map@.contains(pre.half_edge_map@[k]));
                assert(post.half_edge_map@.contains(pre.half_edge_map@[k]));
                let k2 = choose|k2: int|
                    0 <= k2 < post.half_edge_map@.len() && post.half_edge_map@[k2]
                        == pre.half_edge_map@[k];
                let ea = pre.edge_at(e).a;
                let eb = pre.edge_at(e).b;
                assert(pre.face_at(f).side_is(i, ea, eb));
                assert(pre.sym_at(s).vertex == pre.face_at(f).vtx(i));
                assert(pre.sym_to(s) == pre.face_at(f).vtx((i + 1) % 3));
                assert((pre.sym_at(s).vertex == ea && pre.sym_to(s) == eb) || (pre.sym_at(
                    s,
                ).vertex == eb && pre.sym_to(s) == ea));
                assert(post.half_edge_free(ea, eb) && post.half_edge_free(eb, ea));
                assert(false);
            }
            assert(post.edges@[e] == pre.edges@[e]);
        }
        assert forall|s: int| #[trigger] post.live_sym(s) implies {
            let se = post.sym_at(s);
            &&& se.slot < 3
            &&& post.live_face(se.face as int)
            &&& post.face_at(se.face as int).sym(se.slot as int) == s
        } by {
            assert(pre.live_sym(s));
            assert(pre.sym_at(s).face != fi);
            assert(post.faces@[pre.sym_at(s).face as int] == pre.faces@[pre.sym_at(
                s,
            ).face as int]);
        }
        assert forall|k: int| 0 <= k < post.half_edge_map@.len() implies {
            let en = #[trigger] post.half_edge_map@[k];
            &&& post.live_sym(en.sym as int)
            &&& post.sym_at(en.sym as int).vertex == en.from
            &&& post.sym_to(en.sym as int) == en.to
        } by {
            let en = post.half_edge_map@[k];
            assert(pre.half_edge_map@.contains(en));
            let w = choose|w: int|
                0 <= w < pre.half_edge_map@.len() && pre.half_edge_map@[w] == en;
            assert(pre.live_sym(en.sym as int));
            assert(en.sym != fc.s0 && en.sym != fc.s1 && en.sym != fc.s2);
            assert(post.sym_edges@[en.sym as int] == pre.sym_edges@[en.sym as int]);
            assert(pre.sym_at(en.sym as int).face != fi || (pre.face_at(fi).sym(pre.sym_at(
                en.sym as int,
            ).slot as int) == en.sym as int));
            if pre.sym_at(en.sym as int).face == fi {
                assert(en.sym as int == fc.s0 || en.sym as int == fc.s1 || en.sym as int
                    == fc.s2);
                assert(false);
            }
            assert(post.faces@[pre.sym_at(en.sym as int).face as int] == pre.faces@[pre.sym_at(
                en.sym as int,
            ).face as int]);
            assert(post.sym_to(en.sym as int) == pre.sym_to(en.sym as int));
        }
        assert forall|s: int| #[trigger] post.live_sym(s) implies post.map_has(
            post.sym_at(s).vertex,
            post.sym_to(s),
            s,
        ) by {
            assert(pre.live_sym(s) && s != fc.s0 && s != fc.s1 && s != fc.s2);
            assert(pre.map_has(pre.sym_at(s).vertex, pre.sym_to(s), s));
            let k = choose|k: int|
                0 <= k < pre.half_edge_map@.len() && (#[trigger] pre.half_edge_map@[k]).from
                    == pre.sym_at(s).vertex && pre.half_edge_map@[k].to == pre.sym_to(s)
                    && pre.half_edge_map@[k].sym == s;
            assert(pre.half_edge_map@.contains(pre.half_edge_map@[k]));
            assert(post.half_edge_map@.contains(pre.half_edge_map@[k]));
            let k2 = choose|k2: int|
                0 <= k2 < post.half_edge_map@.len() && post.half_edge_map@[k2]
                    == pre.half_edge_map@[k];
            assert(pre.sym_at(s).face != fi);
            assert(post.faces@[pre.sym_at(s).face as int] == pre.faces@[pre.sym_at(
                s,
            ).face as int]);
            assert(post.sym_to(s) == pre.sym_to(s));
            assert(post.half_edge_map@[k2].from == post.sym_at(s).vertex && post.half_edge_map@[k2].to == post.sym_to(s) && post.half_edge_map@[k2].sym == s);
        }
        assert forall|u: usize|
            u != fc.v0 && u != fc.v1 && u != fc.v2 implies #[trigger] post.rot_ok_at(u) by {
            assert(pre.rot_ok_at(u));
            assert forall|s: int|
                #[trigger] post.live_sym(s) && post.sym_at(s).vertex == u && post.sym_at(s).rot
                    is Some implies post.live_sym(post.sym_at(s).rot->Some_0 as int)
                && post.sym_at(post.sym_at(s).rot->Some_0 as int).vertex == u by {
                assert(pre.live_sym(s) && post.sym_edges@[s] == pre.sym_edges@[s]);
                let r = pre.sym_at(s).rot->Some_0 as int;
                assert(pre.live_sym(r) && pre.sym_at(r).vertex == u);
                // the rot target leaves u too, so it is not a corner sym-edge
                if r == fc.s0 || r == fc.s1 || r == fc.s2 {
                    assert(pre.sym_at(r).vertex == fc.v0 || pre.sym_at(r).vertex == fc.v1
                        || pre.sym_at(r).vertex == fc.v2);
                    assert(false);
                }
                assert(post.sym_edges@[r] == pre.sym_edges@[r]);
            }
        }
    }

    /// Removes face `fi`: tombstones the face, removes its three sym-edges
    /// from the arena and the half-edge index, deletes each side edge whose
    /// last sym-edge that was, and rebuilds the rotate chains of the three
    /// corners. Returns `false`, changing nothing, when `fi` is not a live
    /// face.
    #[verifier::rlimit(100)]
    #[verifier::spinoff_prover]
    pub fn remove_face(&mut self, fi: usize) -> (r: bool)
        requires
            old(self).wf(),
        ensures
            final(self).wf(),
            r == old(self).live_face(fi as int),
            !r ==> *final(self) == *old(self),
            final(self).vertices@ == old(self).vertices@,
            final(self).faces@.len() == old(self).faces@.len(),
            forall|f: int|
                0 <= f < old(self).faces@.len() && f != fi ==> final(self).faces@[f] == old(self).faces@[f],
            r ==> !final(self).live_face(fi as int),
            final(self).edges@.len() == old(self).edges@.len(),
            forall|e: int|
                0 <= e < old(self).edges@.len() ==> final(self).edges@[e] == old(self).edges@[e]
                    || !(final(self).edges@[e] is Some),
            final(self).sym_edges@.len() == old(self).sym_edges@.len(),
            final(self).half_edge_map@.len() <= old(self).half_edge_map@.len(),
            forall|s: int| #[trigger] final(self).live_sym(s) ==> old(self).live_sym(s),
            r ==> forall|s: int|
                #[trigger] old(self).live_sym(s) && old(self).sym_at(s).face != fi ==> final(self).live_sym(s) && CDT::same_but_rot(old(self).sym_at(s), final(self).sym_at(s)),
            r ==> !final(self).live_sym(old(self).face_at(fi as int).s0 as int) && !final(self).live_sym(old(self).face_at(fi as int).s1 as int) && !final(self).live_sym(old(self).face_at(fi as int).s2 as int),
            r ==> final(self).face_count_upto(final(self).faces@.len() as int) == old(self).face_count_upto(old(self).faces@.len() as int) - 1,
            r ==> {
                let fcg = old(self).face_at(fi as int);
                let de0 = old(self).sym_at(fcg.s0 as int).edge as int;
                let de1 = old(self).sym_at(fcg.s1 as int).edge as int;
                let de2 = old(self).sym_at(fcg.s2 as int).edge as int;
                &&& (forall|ee: int|
                    0 <= ee < old(self).edges@.len() && ee != de0 && ee != de1 && ee != de2
                        ==> final(self).edges@[ee] == old(self).edges@[ee])
                &&& (forall|ee: int|
                    (ee == de0 || ee == de1 || ee == de2) ==> ((final(self).edges@[ee] is Some)
                        <==> exists|s: int|
                        #[trigger] final(self).live_sym(s) && final(self).sym_at(s).edge == ee))
            },
    {
        if fi >= self.faces.len() {
            return false;
        }
        let fc = match self.faces[fi] {
            Some(fc) => fc,
            None => {
                return false;
            },
        };
        proof {
            assert(self.live_face(fi as int));
            assert(self.face_corner_ok(fi as int, 0));
            assert(self.face_corner_ok(fi as int, 1));
            assert(self.face_corner_ok(fi as int, 2));
        }
        let se0 = self.sym_edges[fc.s0].unwrap();
        let se1 = self.sym_edges[fc.s1].unwrap();
        let se2 = self.sym_edges[fc.s2].unwrap();
        let ghost g0 = *self;
        // Tear the face and its sym-edges out of the arenas and the index.
        self.faces[fi] = None;
        self.sym_edges[fc.s0] = None;
        self.sym_edges[fc.s1] = None;
        self.sym_edges[fc.s2] = None;
        proof {
            assert forall|k1: int, k2: int|
                0 <= k1 < self.half_edge_map@.len() && 0 <= k2 < self.half_edge_map@.len() && (
                #[trigger] self.half_edge_map@[k1]).sym == (
                #[trigger] self.half_edge_map@[k2]).sym && k1 != k2 implies false by {
                assert(g0.wf_map_entries());
            }
        }
        self.remove_map_entry_for_sym(fc.s0);
        self.remove_map_entry_for_sym(fc.s1);
        self.remove_map_entry_for_sym(fc.s2);
        let ghost g1 = *self;
        proof {
            // the three side edges are live and pairwise distinct slots
            assert(self.live_edge(se0.edge as int));
            assert(self.live_edge(se1.edge as int));
            assert(self.live_edge(se2.edge as int));
            if se0.edge == se1.edge || se1.edge == se2.edge || se0.edge == se2.edge {
                assert(g0.wf_edges_unique() && g0.wf_face_verts());
                assert(false);
            }
        }
        // Delete each side edge that lost its last sym-edge.
        let ea0 = match &self.edges[se0.edge] {
            Some(ed) => (ed.a, ed.b),
            None => (0, 0),
        };
        self.prune_side_edge(se0.edge, ea0.0, ea0.1);
        let ea1 = match &self.edges[se1.edge] {
            Some(ed) => (ed.a, ed.b),
            None => (0, 0),
        };
        self.prune_side_edge(se1.edge, ea1.0, ea1.1);
        let ea2 = match &self.edges[se2.edge] {
            Some(ed) => (ed.a, ed.b),
            None => (0, 0),
        };
        self.prune_side_edge(se2.edge, ea2.0, ea2.1);
        proof {
            CDT::lemma_wf0_after_face_removal(g0, *self, fi as int);
        }
        let ghost g2 = *self;
        self.build_rot_pointers_for_vertex_sym_edges(fc.v0);
        let ghost g3 = *self;
        self.build_rot_pointers_for_vertex_sym_edges(fc.v1);
        let ghost g4 = *self;
        self.build_rot_pointers_for_vertex_sym_edges(fc.v2);
        proof {
            assert forall|u: usize| #[trigger] self.rot_ok_at(u) by {
                if u == fc.v2 {
                } else if u == fc.v1 {
                    assert(g4.rot_ok_at(u));
                } else if u == fc.v0 {
                    assert(g3.rot_ok_at(u));
                    assert(g4.rot_ok_at(u));
                } else {
                    assert(g2.rot_ok_at(u));
                    assert(g3.rot_ok_at(u));
                    assert(g4.rot_ok_at(u));
                }
            }
            assert(self.wf());
            assert forall|s: int|
                #[trigger] old(self).live_sym(s) && old(self).sym_at(s).face != fi implies
                self.live_sym(s) && CDT::same_but_rot(old(self).sym_at(s), self.sym_at(s)) by {
                assert(s != fc.s0 && s != fc.s1 && s != fc.s2);
                assert(g2.sym_edges@[s] == old(self).sym_edges@[s]);
                assert(g2.live_sym(s));
                assert(CDT::same_but_rot(g2.sym_at(s), g3.sym_at(s)));
                assert(g3.live_sym(s));
                assert(CDT::same_but_rot(g3.sym_at(s), g4.sym_at(s)));
                assert(g4.live_sym(s));
                assert(CDT::same_but_rot(g4.sym_at(s), self.sym_at(s)));
            }
            assert forall|s: int| #[trigger] self.live_sym(s) implies old(self).live_sym(s) by {
                assert(g2.live_sym(s));
            }
            // which edges were tombstoned: exactly the sides that lost their
            // last sym-edge
            let de0 = se0.edge as int;
            let de1 = se1.edge as int;
            let de2 = se2.edge as int;
            assert forall|ee: int|
                0 <= ee < old(self).edges@.len() && ee != de0 && ee != de1 && ee != de2 implies
                self.edges@[ee] == old(self).edges@[ee] by {}
            assert(self.half_edge_map@ == g1.half_edge_map@);
            if self.edges@[de0] is Some {
                assert(self.edge_at(de0).a == ea0.0 && self.edge_at(de0).b == ea0.1);
                if !g1.half_edge_free(ea0.0, ea0.1) {
                    Self::lemma_key_names_edge_sym(*self, ea0.0, ea0.1, de0);
                } else {
                    Self::lemma_key_names_edge_sym(*self, ea0.1, ea0.0, de0);
                }
            } else {
                Self::lemma_dead_edge_unreferenced(*self, de0);
            }
            if self.edges@[de1] is Some {
                assert(self.edge_at(de1).a == ea1.0 && self.edge_at(de1).b == ea1.1);
                if !g1.half_edge_free(ea1.0, ea1.1) {
                    Self::lemma_key_names_edge_sym(*self, ea1.0, ea1.1, de1);
                } else {
                    Self::lemma_key_names_edge_sym(*self, ea1.1, ea1.0, de1);
                }
            } else {
                Self::lemma_dead_edge_unreferenced(*self, de1);
            }
            if self.edges@[de2] is Some {
                assert(self.edge_at(de2).a == ea2.0 && self.edge_at(de2).b == ea2.1);
                if !g1.half_edge_free(ea2.0, ea2.1) {
                    Self::lemma_key_names_edge_sym(*self, ea2.0, ea2.1, de2);
                } else {
                    Self::lemma_key_names_edge_sym(*self, ea2.1, ea2.0, de2);
                }
            } else {
                Self::lemma_dead_edge_unreferenced(*self, de2);
            }
            CDT::lemma_face_count_agree(g2, *self, self.faces@.len() as int);
        }
        true
    }

    /// Changing only the constraint set of one live edge preserves
    /// well-formedness: no structural predicate reads `crep`.
    proof fn lemma_wf_crep_only(pre: CDT, post: CDT, slot: int)
        requires
            pre.wf(),
            pre.live_edge(slot),
            post.vertices@ == pre.vertices@,
            post.faces@ == pre.faces@,
            post.sym_edges@ == pre.sym_edges@,
            post.half_edge_map@ == pre.half_edge_map@,
            post.edges@.len() == pre.edges@.len(),
            forall|e: int| 0 <= e < pre.edges@.len() && e != slot ==> post.edges@[e] == pre.edges@[e],
            post.edges@[slot] is Some,
            post.edge_at(slot).a == pre.edge_at(slot).a,
            post.edge_at(slot).b == pre.edge_at(slot).b,
        ensures
            post.wf(),
    {
        assert forall|e: int| #[trigger] post.live_edge(e) implies post.edge_at(e).a
            < post.n_verts() && post.edge_at(e).b < post.n_verts() && post.edge_at(e).a
            != post.edge_at(e).b by {
            assert(pre.live_edge(e));
            if e != slot {
                assert(post.edges@[e] == pre.edges@[e]);
            }
        }
        assert forall|e1: int, e2: int|
            #[trigger] post.live_edge(e1) && #[trigger] post.live_edge(e2) && e1 != e2 implies
            !Self::same_pair(
            post.edge_at(e1).a,
            post.edge_at(e1).b,
            post.edge_at(e2).a,
            post.edge_at(e2).b,
        ) by {
            assert(pre.live_edge(e1) && pre.live_edge(e2));
            if e1 != slot {
                assert(post.edges@[e1] == pre.edges@[e1]);
            }
            if e2 != slot {
                assert(post.edges@[e2] == pre.edges@[e2]);
            }
        }
        assert forall|f: int| #[trigger] post.live_face(f) implies {
            let fc = post.face_at(f);
            &&& fc.v0 < post.n_verts()
            &&& fc.v1 < post.n_verts()
            &&& fc.v2 < post.n_verts()
            &&& fc.v0 != fc.v1
            &&& fc.v1 != fc.v2
            &&& fc.v0 != fc.v2
        } by {
            assert(pre.live_face(f));
        }
        assert forall|f: int, i: int| #[trigger] post.live_face(f) && 0 <= i < 3 implies
            #[trigger] post.face_corner_ok(f, i) by {
            assert(pre.live_face(f));
            assert(pre.face_corner_ok(f, i));
            let s = pre.face_at(f).sym(i) as int;
            let e = pre.sym_at(s).edge as int;
            if e != slot {
                assert(post.edges@[e] == pre.edges@[e]);
            }
        }
        assert forall|s: int| #[trigger] post.live_sym(s) implies {
            let se = post.sym_at(s);
            &&& se.slot < 3
            &&& post.live_face(se.face as int)
            &&& post.face_at(se.face as int).sym(se.slot as int) == s
        } by {
            assert(pre.live_sym(s));
        }
        assert forall|k: int| 0 <= k < post.half_edge_map@.len() implies {
            let en = #[trigger] post.half_edge_map@[k];
            &&& post.live_sym(en.sym as int)
            &&& post.sym_at(en.sym as int).vertex == en.from
            &&& post.sym_to(en.sym as int) == en.to
        } by {
            assert(pre.half_edge_map@[k] == post.half_edge_map@[k]);
        }
        assert forall|s: int| #[trigger] post.live_sym(s) implies post.map_has(
            post.sym_at(s).vertex,
            post.sym_to(s),
            s,
        ) by {
            assert(pre.live_sym(s));
            assert(pre.map_has(pre.sym_at(s).vertex, pre.sym_to(s), s));
            let k = choose|k: int|
                0 <= k < pre.half_edge_map@.len() && (#[trigger] pre.half_edge_map@[k]).from
                    == pre.sym_at(s).vertex && pre.half_edge_map@[k].to == pre.sym_to(s)
                    && pre.half_edge_map@[k].sym == s;
            assert(post.half_edge_map@[k].from == post.sym_at(s).vertex && post.half_edge_map@[k].to
                == post.sym_to(s) && post.half_edge_map@[k].sym == s);
        }
        Self::lemma_rot_preserved(pre, post);
    }

    /// Records every identifier in `ids` on the live edge in `slot`.
    pub fn edge_add_constraints(&mut self, slot: usize, ids: &Vec<usize>)
        requires
            old(self).wf(),
            old(self).live_edge(slot as int),
        ensures
            final(self).wf(),
            final(self).vertices@ == old(self).vertices@,
            final(self).faces@ == old(self).faces@,
            final(self).sym_edges@ == old(self).sym_edges@,
            final(self).half_edge_map@ == old(self).half_edge_map@,
            final(self).edges@.len() == old(self).edges@.len(),
            forall|e: int|
                0 <= e < old(self).edges@.len() && e != slot ==> final(self).edges@[e] == old(
                    self,
                ).edges@[e],
            final(self).live_edge(slot as int),
            final(self).edge_at(slot as int).a == old(self).edge_at(slot as int).a,
            final(self).edge_at(slot as int).b == old(self).edge_at(slot as int).b,
            forall|c: usize|
                old(self).edge_at(slot as int).crep@.contains(c) ==> final(self).edge_at(
                    slot as int,
                ).crep@.contains(c),
            forall|j: int|
                0 <= j < ids@.len() ==> final(self).edge_at(slot as int).crep@.contains(
                    #[trigger] ids@[j],
                ),
    {
        let mut ed = match &self.edges[slot] {
            Some(ed) => Edge { a: ed.a, b: ed.b, crep: Vec::new() },
            None => Edge { a: 0, b: 0, crep: Vec::new() },
        };
        // carry the existing constraint ids over
        let mut i: usize = 0;
        let ghost orig_crep = old(self).edge_at(slot as int).crep@;
        let cur = match &self.edges[slot] {
            Some(e2) => e2.crep.len(),
            None => 0,
        };
        while i < cur
            invariant
                *self == *old(self),
                old(self).live_edge(slot as int),
                cur == orig_crep.len(),
                orig_crep == old(self).edge_at(slot as int).crep@,
                0 <= i <= cur,
                ed.a == old(self).edge_at(slot as int).a,
                ed.b == old(self).edge_at(slot as int).b,
                forall|j: int| 0 <= j < i ==> ed.crep@.contains(#[trigger] orig_crep[j]),
            decreases cur - i,
        {
            let c = match &self.edges[slot] {
                Some(e2) => e2.crep[i],
                None => 0,
            };
            ed.insert_constraint(c);
            proof {
                assert forall|j: int| 0 <= j < i + 1 implies ed.crep@.contains(
                    #[trigger] orig_crep[j],
                ) by {}
            }
            i = i + 1;
        }
        let mut j: usize = 0;
        while j < ids.len()
            invariant
                *self == *old(self),
                old(self).live_edge(slot as int),
                orig_crep == old(self).edge_at(slot as int).crep@,
                0 <= j <= ids@.len(),
                ed.a == old(self).edge_at(slot as int).a,
                ed.b == old(self).edge_at(slot as int).b,
                forall|jj: int| 0 <= jj < orig_crep.len() ==> ed.crep@.contains(
                    #[trigger] orig_crep[jj],
                ),
                forall|jj: int| 0 <= jj < j ==> ed.crep@.contains(#[trigger] ids@[jj]),
            decreases ids@.len() - j,
        {
            ed.insert_constraint(ids[j]);
            j = j + 1;
        }
        self.edges[slot] = Some(ed);
        proof {
            Self::lemma_wf_crep_only(*old(self), *self, slot as int);
            assert forall|c: usize|
                old(self).edge_at(slot as int).crep@.contains(c) implies self.edge_at(
                slot as int,
            ).crep@.contains(c) by {
                let w = choose|w: int| 0 <= w < orig_crep.len() && orig_crep[w] == c;
                assert(self.edge_at(slot as int).crep@.contains(orig_crep[w]));
            }
        }
    }

    /// Every live face names three distinct vertices that exist. This is
    /// the structural precondition a malformed initial mesh would break.
    pub fn validate_faces(&self) -> (r: bool)
        ensures
            r == self.wf_face_verts(),
    {
        let nv = self.vertices.len();
        let mut f: usize = 0;
        while f < self.faces.len()
            invariant
                nv == self.n_verts(),
                0 <= f <= self.faces@.len(),
                forall|ff: int|
                    0 <= ff < f && #[trigger] self.live_face(ff) ==> {
                        let fc = self.face_at(ff);
                        &&& fc.v0 < self.n_verts()
                        &&& fc.v1 < self.n_verts()
                        &&& fc.v2 < self.n_verts()
                        &&& fc.v0 != fc.v1
                        &&& fc.v1 != fc.v2
                        &&& fc.v0 != fc.v2
                    },
            decreases self.faces@.len() - f,
        {
            match self.faces[f] {
                Some(fc) => {
                    let ok = fc.v0 < nv && fc.v1 < nv && fc.v2 < nv && fc.v0 != fc.v1 && fc.v1
                        != fc.v2 && fc.v0 != fc.v2;
                    if !ok {
                        proof {
                            assert(self.live_face(f as int));
                            assert(!self.wf_face_verts());
                        }
                        return false;
                    }
                },
                None => {},
            }
            f = f + 1;
        }
        true
    }

    /// Rebuilds the rotate chains of every vertex. The face-local `nxt`
    /// cycles and the half-edge index are maintained by every mutation, so
    /// this restores full well-formedness from a mesh whose rotate pointers
    /// alone are suspect. A structurally malformed mesh is unrepresentable
    /// here: every face carries exactly three corners by construction, and
    /// `build` rejects bad input before any face exists, so the fatal
    /// build-time error of a face with fewer than three vertices has no
    /// arising case and this rebuild cannot fail.
    pub fn build_sym_edges(&mut self)
        requires
            old(self).wf0(),
        ensures
            final(self).wf(),
            final(self).vertices@ == old(self).vertices@,
            final(self).edges@ == old(self).edges@,
            final(self).faces@ == old(self).faces@,
            final(self).half_edge_map@ == old(self).half_edge_map@,
            final(self).sym_edges@.len() == old(self).sym_edges@.len(),
            forall|s: int|
                0 <= s < old(self).sym_edges@.len() ==> (final(self).live_sym(s) <==> old(
                    self,
                ).live_sym(s)),
            forall|u: usize| #[trigger] final(self).rot_cycle_at(u),
    {
        let n = self.vertices.len();
        let mut v: usize = 0;
        while v < n
            invariant
                self.wf0(),
                n == self.vertices@.len(),
                0 <= v <= n,
                self.vertices@ == old(self).vertices@,
                self.edges@ == old(self).edges@,
                self.faces@ == old(self).faces@,
                self.half_edge_map@ == old(self).half_edge_map@,
                self.sym_edges@.len() == old(self).sym_edges@.len(),
                forall|s: int|
                    0 <= s < old(self).sym_edges@.len() ==> (self.live_sym(s) <==> old(
                        self,
                    ).live_sym(s)),
                forall|u: usize| u < v ==> #[trigger] self.rot_ok_at(u),
                forall|u: usize| u < v ==> #[trigger] self.rot_cycle_at(u),
            decreases n - v,
        {
            let ghost pre = *self;
            self.build_rot_pointers_for_vertex_sym_edges(v);
            proof {
                assert forall|u: usize| u < v + 1 implies #[trigger] self.rot_ok_at(u) by {
                    if u != v {
                        assert(pre.rot_ok_at(u));
                    }
                }
                assert forall|u: usize| u < v + 1 implies #[trigger] self.rot_cycle_at(u) by {
                    if u != v {
                        assert(pre.rot_cycle_at(u));
                        CDT::lemma_rot_cycle_preserved(pre, *self, u);
                    }
                }
            }
            v = v + 1;
        }
        proof {
            assert forall|s: int|
                #[trigger] self.live_sym(s) implies self.sym_at(s).vertex < n by {
                let se = self.sym_at(s);
                assert(self.live_face(se.face as int));
                assert(self.face_corner_ok(se.face as int, se.slot as int));
            }
            assert forall|u: usize| #[trigger] self.rot_ok_at(u) by {
                if u >= n {
                    assert forall|s: int|
                        #[trigger] self.live_sym(s) && self.sym_at(s).vertex == u && self.sym_at(
                            s,
                        ).rot is Some implies self.live_sym(self.sym_at(s).rot->Some_0 as int)
                        && self.sym_at(self.sym_at(s).rot->Some_0 as int).vertex == u by {
                        assert(false);
                    }
                }
            }
            assert forall|u: usize| #[trigger] self.rot_cycle_at(u) by {
                if u >= n {
                    assert forall|s1: int, s2: int|
                        #[trigger] self.live_sym(s1) && #[trigger] self.live_sym(s2)
                            && self.sym_at(s1).vertex == u && self.sym_at(s2).vertex == u && s1
                            != s2 implies self.sym_at(s1).rot is Some by {
                        assert(false);
                    }
                    assert forall|s1: int, s2: int|
                        #[trigger] self.live_sym(s1) && #[trigger] self.live_sym(s2)
                            && self.sym_at(s1).vertex == u && self.sym_at(s2).vertex == u && s1
                            != s2 && self.sym_at(s1).rot is Some && self.sym_at(s2).rot
                            is Some implies self.sym_at(s1).rot->Some_0 != self.sym_at(
                            s2,
                        ).rot->Some_0 by {
                        assert(false);
                    }
                    assert forall|s1: int|
                        #[trigger] self.live_sym(s1) && self.sym_at(s1).vertex == u
                            && self.sym_at(s1).rot is Some implies self.sym_at(s1).rot->Some_0
                        != s1 && exists|s2: int|
                        #[trigger] self.live_sym(s2) && self.sym_at(s2).vertex == u && s2
                            != s1 by {
                        assert(false);
                    }
                }
            }
        }
    }

    /// The sym-edge on the far side of `s`'s underlying edge: resolved as
    /// `s.nxt.rot` and accepted when it runs along the same edge, with the
    /// half-edge index as arbiter otherwise. `None` exactly when `s` is the
    /// edge's only sym-edge - a boundary edge.
    pub fn neighbor(&self, s: usize) -> (r: Option<usize>)
        requires
            self.wf(),
            self.live_sym(s as int),
        ensures
            r is Some ==> {
                let ns = r->Some_0 as int;
                &&& self.live_sym(ns)
                &&& self.sym_at(ns).edge == self.sym_at(s as int).edge
                &&& ns != s
                &&& self.live_face(self.sym_at(ns).face as int)
                &&& self.sym_at(ns).face != self.sym_at(s as int).face
            },
            r is None ==> forall|s2: int|
                #[trigger] self.live_sym(s2) && self.sym_at(s2).edge == self.sym_at(s as int).edge
                    ==> s2 == s,
    {
        let se = self.sym_edges[s].unwrap();
        proof {
            assert(self.live_face(se.face as int));
            assert(self.face_corner_ok(se.face as int, se.slot as int));
            assert(self.face_corner_ok(se.face as int, ((se.slot + 1) % 3) as int));
        }
        let fc = self.faces[se.face].unwrap();
        let to = fc.vertex_at((se.slot + 1) % 3);
        proof {
            assert(to == self.sym_to(s as int));
        }
        let nx = se.nxt;
        let nxe = self.sym_edges[nx].unwrap();
        match nxe.rot {
            Some(rs) => {
                proof {
                    assert(self.rot_ok_at(nxe.vertex));
                    assert(self.live_sym(rs as int));
                }
                let re = self.sym_edges[rs].unwrap();
                if re.edge == se.edge && rs != s {
                    proof {
                        assert(self.live_face(self.sym_at(rs as int).face as int));
                        self.lemma_edge_sym_pair(rs as int, s as int);
                    }
                    return Some(rs);
                }
            },
            None => {},
        }
        // The rotate chain gave no answer; the half-edge index decides: the
        // opposite sym-edge, if any, carries the reversed half-edge.
        match self.get_sym_edge_for_half_edge((to, se.vertex)) {
            Some(s3) => {
                proof {
                    let e = self.sym_at(s as int).edge as int;
                    let e3 = self.sym_at(s3 as int).edge as int;
                    assert(self.face_corner_ok(
                        self.sym_at(s3 as int).face as int,
                        self.sym_at(s3 as int).slot as int,
                    ));
                    // s3's edge joins the same vertex pair, so it is the
                    // same edge slot
                    assert(CDT::same_pair(
                        self.edge_at(e3).a,
                        self.edge_at(e3).b,
                        se.vertex,
                        to,
                    ));
                    assert(CDT::same_pair(self.edge_at(e).a, self.edge_at(e).b, se.vertex, to));
                    if e3 != e {
                        assert(false);
                    }
                    assert(se.vertex != to);
                    assert(s3 != s);
                    self.lemma_edge_sym_pair(s3 as int, s as int);
                }
                Some(s3)
            },
            None => {
                proof {
                    assert forall|s2: int|
                        #[trigger] self.live_sym(s2) && self.sym_at(s2).edge == self.sym_at(
                            s as int,
                        ).edge implies s2 == s by {
                        if s2 != s {
                            self.lemma_edge_sym_pair(s2, s as int);
                            assert(self.sym_at(s2).vertex == to && self.sym_to(s2) == se.vertex);
                        }
                    }
                }
                None
            },
        }
    }

    /// The face across the edge of sym-edge `s`, when the mesh has one.
    pub fn neighbor_face(&self, s: usize) -> (r: Option<usize>)
        requires
            self.wf(),
            self.live_sym(s as int),
        ensures
            r is Some ==> self.live_face(r->Some_0 as int) && r->Some_0 != self.sym_at(
                s as int,
            ).face && exists|ns: int|
                #[trigger] self.live_sym(ns) && self.sym_at(ns).edge == self.sym_at(s as int).edge
                    && ns != s && self.sym_at(ns).face == r->Some_0,
            r is None ==> forall|s2: int|
                #[trigger] self.live_sym(s2) && self.sym_at(s2).edge == self.sym_at(s as int).edge
                    ==> s2 == s,
    {
        match self.neighbor(s) {
            None => None,
            Some(ns) => {
                let nse = self.sym_edges[ns].unwrap();
                Some(nse.face)
            },
        }
    }

    /// The face across side `edge_index` of face `f`: a different live face
    /// owning a sym-edge along the same underlying edge, or `None` when that
    /// side is a boundary.
    pub fn find_neighboring_face(&self, f: usize, edge_index: usize) -> (r: Option<usize>)
        requires
            self.wf(),
            self.live_face(f as int),
            edge_index < 3,
        ensures
            r is Some ==> {
                let side = self.face_at(f as int).sym(edge_index as int) as int;
                &&& self.live_face(r->Some_0 as int)
                &&& r->Some_0 != f
                &&& exists|ns: int|
                    #[trigger] self.live_sym(ns) && self.sym_at(ns).edge == self.sym_at(side).edge
                        && self.sym_at(ns).face == r->Some_0
            },
            r is None ==> forall|s2: int|
                #[trigger] self.live_sym(s2) && self.sym_at(s2).edge == self.sym_at(
                    self.face_at(f as int).sym(edge_index as int) as int,
                ).edge ==> s2 == self.face_at(f as int).sym(edge_index as int),
    {
        let fc = self.faces[f].unwrap();
        proof {
            assert(self.face_corner_ok(f as int, edge_index as int));
        }
        let s = fc.sym_at(edge_index);
        let r = self.neighbor_face(s);
        proof {
            match r {
                Some(nf) => {
                    assert(self.sym_at(s as int).face == f);
                },
                None => {},
            }
        }
        r
    }

    /// Rebuilds the rotate chain of vertex `v`: collects every live sym-edge
    /// leaving `v`, orders them by descending polar angle of the direction
    /// towards their far corner, and links each to the next, cyclically. A
    /// vertex with a single sym-edge gets no chain.
    #[verifier::rlimit(100)]
    #[verifier::spinoff_prover]
    pub fn build_rot_pointers_for_vertex_sym_edges(&mut self, v: usize)
        requires
            old(self).wf0(),
        ensures
            final(self).wf0(),
            final(self).vertices@ == old(self).vertices@,
            final(self).edges@ == old(self).edges@,
            final(self).faces@ == old(self).faces@,
            final(self).half_edge_map@ == old(self).half_edge_map@,
            final(self).sym_edges@.len() == old(self).sym_edges@.len(),
            forall|s: int|
                0 <= s < old(self).sym_edges@.len() ==> (final(self).live_sym(s) <==> old(self).live_sym(s)),
            forall|s: int|
                #[trigger] old(self).live_sym(s) ==> CDT::same_but_rot(
                    old(self).sym_at(s),
                    final(self).sym_at(s),
                ),
            forall|s: int|
                #[trigger] old(self).live_sym(s) && old(self).sym_at(s).vertex != v ==> final(self).sym_edges@[s] == old(self).sym_edges@[s],
            final(self).rot_ok_at(v),
            final(self).rot_cycle_at(v),
            forall|u: usize|
                u != v && old(self).rot_ok_at(u) ==> #[trigger] final(self).rot_ok_at(u),
    {
        let ghost pre = *self;
        // Collect the sym-edges leaving v, keyed by the direction to the far
        // corner of their half-edge.
        let mut keyed: Vec<(i64, i64, usize)> = Vec::new();
        let mut i: usize = 0;
        while i < self.sym_edges.len()
            invariant
                *self == pre,
                pre.wf0(),
                0 <= i <= self.sym_edges@.len(),
                forall|j: int|
                    0 <= j < keyed@.len() ==> {
                        let t = #[trigger] keyed@[j];
                        &&& self.live_sym(t.2 as int)
                        &&& self.sym_at(t.2 as int).vertex == v
                        &&& -400_000_000 <= t.0 <= 400_000_000
                        &&& -400_000_000 <= t.1 <= 400_000_000
                        &&& t.2 < i
                    },
                forall|j1: int, j2: int|
                    0 <= j1 < j2 < keyed@.len() ==> (#[trigger] keyed@[j1]).2 < (
                    #[trigger] keyed@[j2]).2,
                forall|s: int|
                    0 <= s < i && #[trigger] self.live_sym(s) && self.sym_at(s).vertex == v
                        ==> exists|j: int|
                        0 <= j < keyed@.len() && (#[trigger] keyed@[j]).2 == s,
            decreases self.sym_edges@.len() - i,
        {
            match self.sym_edges[i] {
                Some(se) => {
                    if se.vertex == v {
                        proof {
                            assert(self.live_sym(i as int));
                            assert(self.live_face(se.face as int));
                            assert(self.face_corner_ok(se.face as int, se.slot as int));
                        }
                        let fc = self.faces[se.face].unwrap();
                        let to = fc.vertex_at((se.slot + 1) % 3);
                        proof {
                            assert(to == self.sym_to(i as int));
                            assert(self.face_corner_ok(se.face as int, ((se.slot + 1) % 3) as int));
                            assert(v == fc.vtx(se.slot as int));
                        }
                        let vp = self.vertices[v].position;
                        let tp = self.vertices[to].position;
                        let dx = tp.x - vp.x;
                        let dy = tp.y - vp.y;
                        let ghost kb = keyed@;
                        keyed.push((dx, dy, i));
                        proof {
                            assert forall|s: int|
                                0 <= s < i + 1 && #[trigger] self.live_sym(s) && self.sym_at(
                                    s,
                                ).vertex == v implies exists|j: int|
                                0 <= j < keyed@.len() && (#[trigger] keyed@[j]).2 == s by {
                                if s == i {
                                    assert(keyed@[kb.len() as int].2 == s);
                                } else {
                                    let j = choose|j: int|
                                        0 <= j < kb.len() && (#[trigger] kb[j]).2 == s;
                                    assert(keyed@[j] == kb[j]);
                                    assert(keyed@[j].2 == s);
                                }
                            }
                        }
                    }
                },
                None => {},
            }
            i = i + 1;
        }
        if keyed.len() == 0 {
            proof {
                assert forall|s1: int|
                    #[trigger] self.live_sym(s1) && self.sym_at(s1).vertex == v implies false by {
                    let j = choose|j: int| 0 <= j < keyed@.len() && (#[trigger] keyed@[j]).2 == s1;
                }
            }
            return ;
        }
        if keyed.len() == 1 {
            let t = keyed[0];
            let se = self.sym_edges[t.2].unwrap();
            self.sym_edges[t.2] = Some(se.with_rot(None));
            proof {
                assert forall|s: int|
                    0 <= s < pre.sym_edges@.len() implies ((#[trigger] self.sym_edges@[s]) is Some
                    <==> pre.sym_edges@[s] is Some) by {
                    if s != t.2 {
                        assert(self.sym_edges@[s] == pre.sym_edges@[s]);
                    }
                }
                assert forall|s: int| #[trigger] pre.live_sym(s) implies CDT::same_but_rot(
                    pre.sym_at(s),
                    self.sym_at(s),
                ) by {
                    if s != t.2 {
                        assert(self.sym_edges@[s] == pre.sym_edges@[s]);
                    }
                }
                CDT::lemma_wf0_rot_only(pre, *self);
                assert forall|s: int|
                    #[trigger] self.live_sym(s) && self.sym_at(s).vertex == v && self.sym_at(
                        s,
                    ).rot is Some implies self.live_sym(self.sym_at(s).rot->Some_0 as int)
                    && self.sym_at(self.sym_at(s).rot->Some_0 as int).vertex == v by {
                    assert(pre.live_sym(s));
                    let j = choose|j: int|
                        0 <= j < keyed@.len() && (#[trigger] keyed@[j]).2 == s;
                    assert(s == t.2);
                }
                assert forall|u: usize|
                    u != v && pre.rot_ok_at(u) implies #[trigger] self.rot_ok_at(u) by {
                    assert forall|s: int|
                        #[trigger] self.live_sym(s) && self.sym_at(s).vertex == u && self.sym_at(
                            s,
                        ).rot is Some implies self.live_sym(self.sym_at(s).rot->Some_0 as int)
                        && self.sym_at(self.sym_at(s).rot->Some_0 as int).vertex == u by {
                        assert(pre.live_sym(s));
                        assert(s != t.2);
                        assert(self.sym_edges@[s] == pre.sym_edges@[s]);
                        let r = pre.sym_at(s).rot->Some_0;
                        assert(pre.live_sym(r as int) && pre.sym_at(r as int).vertex == u);
                        assert(r != t.2);
                        assert(self.sym_edges@[r as int] == pre.sym_edges@[r as int]);
                    }
                }
                // a lone sym-edge: its chain is empty
                assert forall|s1: int|
                    #[trigger] self.live_sym(s1) && self.sym_at(s1).vertex == v implies s1
                    == t.2 by {
                    assert(pre.live_sym(s1) && pre.sym_at(s1).vertex == v);
                    let j = choose|j: int| 0 <= j < keyed@.len() && (#[trigger] keyed@[j]).2 == s1;
                    assert(keyed@[0].2 == s1);
                }
                assert(self.rot_cycle_at(v));
            }
            return ;
        }
        let ghost unsorted = keyed@;
        proof {
            assert forall|j1: int, j2: int| 0 <= j1 < j2 < unsorted.len() implies
                #[trigger] unsorted[j1] != #[trigger] unsorted[j2] by {
                assert(unsorted[j1].2 < unsorted[j2].2);
            }
        }
        sort_by_angle_desc(&mut keyed);
        proof {
            assert forall|j: int|
                0 <= j < keyed@.len() implies {
                let t = #[trigger] keyed@[j];
                &&& self.live_sym(t.2 as int)
                &&& self.sym_at(t.2 as int).vertex == v
            } by {
                assert(unsorted.contains(keyed@[j]));
                let w = choose|w: int| 0 <= w < unsorted.len() && unsorted[w] == keyed@[j];
                assert(unsorted[w].2 == keyed@[j].2);
            }
            assert forall|j1: int, j2: int| 0 <= j1 < j2 < keyed@.len() implies (
            #[trigger] keyed@[j1]).2 != (#[trigger] keyed@[j2]).2 by {
                assert(unsorted.contains(keyed@[j1]));
                assert(unsorted.contains(keyed@[j2]));
                let w1 = choose|w: int| 0 <= w < unsorted.len() && unsorted[w] == keyed@[j1];
                let w2 = choose|w: int| 0 <= w < unsorted.len() && unsorted[w] == keyed@[j2];
                if w1 < w2 {
                    assert(unsorted[w1].2 < unsorted[w2].2);
                } else if w2 < w1 {
                    assert(unsorted[w2].2 < unsorted[w1].2);
                } else {
                    assert(keyed@[j1] == keyed@[j2]);
                }
            }
            assert forall|s: int|
                #[trigger] self.live_sym(s) && self.sym_at(s).vertex == v implies exists|j: int|
                0 <= j < keyed@.len() && (#[trigger] keyed@[j]).2 == s by {
                let w = choose|w: int| 0 <= w < unsorted.len() && (#[trigger] unsorted[w]).2 == s;
                assert(keyed@.contains(unsorted[w]));
                let j = choose|j: int| 0 <= j < keyed@.len() && keyed@[j] == unsorted[w];
                assert(keyed@[j].2 == s);
            }
        }
        let n = keyed.len();
        let mut idx: usize = 0;
        while idx < n
            invariant
                2 <= n == keyed@.len(),
                pre.wf0(),
                0 <= idx <= n,
                self.vertices@ == pre.vertices@,
                self.edges@ == pre.edges@,
                self.faces@ == pre.faces@,
                self.half_edge_map@ == pre.half_edge_map@,
                self.sym_edges@.len() == pre.sym_edges@.len(),
                forall|s: int|
                    0 <= s < pre.sym_edges@.len() ==> ((#[trigger] self.sym_edges@[s]) is Some
                        <==> pre.sym_edges@[s] is Some),
                forall|s: int|
                    #[trigger] pre.live_sym(s) ==> CDT::same_but_rot(
                        pre.sym_at(s),
                        self.sym_at(s),
                    ),
                forall|s: int|
                    #[trigger] pre.live_sym(s) && pre.sym_at(s).vertex != v ==> self.sym_edges@[s]
                        == pre.sym_edges@[s],
                forall|j: int|
                    0 <= j < n ==> {
                        let t = #[trigger] keyed@[j];
                        &&& pre.live_sym(t.2 as int)
                        &&& pre.sym_at(t.2 as int).vertex == v
                    },
                forall|j1: int, j2: int|
                    0 <= j1 < j2 < n ==> #[trigger] keyed@[j1] != #[trigger] keyed@[j2],
                forall|j1: int, j2: int|
                    0 <= j1 < j2 < n ==> (#[trigger] keyed@[j1]).2 != (#[trigger] keyed@[j2]).2,
                forall|s: int|
                    #[trigger] pre.live_sym(s) && pre.sym_at(s).vertex == v ==> exists|j: int|
                        0 <= j < n && (#[trigger] keyed@[j]).2 == s,
                forall|j: int|
                    0 <= j < idx ==> self.sym_at((#[trigger] keyed@[j]).2 as int).rot == Some(
                        keyed@[((j + 1) % (n as int))].2,
                    ),
            decreases n - idx,
        {
            let t = keyed[idx];
            let nxt_slot = keyed[(idx + 1) % n].2;
            proof {
                assert(self.live_sym(t.2 as int));
            }
            let se = self.sym_edges[t.2].unwrap();
            self.sym_edges[t.2] = Some(se.with_rot(Some(nxt_slot)));
            proof {
                let cur = *self;
                assert forall|s: int|
                    0 <= s < pre.sym_edges@.len() implies ((#[trigger] cur.sym_edges@[s]) is Some
                    <==> pre.sym_edges@[s] is Some) by {}
                assert forall|j: int|
                    0 <= j < idx + 1 implies cur.sym_at((#[trigger] keyed@[j]).2 as int).rot
                    == Some(keyed@[((j + 1) % (n as int))].2) by {
                    if j < idx {
                        assert(keyed@[j].2 != keyed@[idx as int].2);
                    }
                }
            }
            idx = idx + 1;
        }
        proof {
            CDT::lemma_wf0_rot_only(pre, *self);
            assert forall|s: int|
                #[trigger] self.live_sym(s) && self.sym_at(s).vertex == v && self.sym_at(s).rot
                    is Some implies self.live_sym(self.sym_at(s).rot->Some_0 as int)
                && self.sym_at(self.sym_at(s).rot->Some_0 as int).vertex == v by {
                assert(pre.live_sym(s));
                let j = choose|j: int| 0 <= j < n && (#[trigger] keyed@[j]).2 == s;
                assert(self.sym_at(s).rot == Some(keyed@[((j + 1) % (n as int))].2));
                let r = keyed@[((j + 1) % (n as int))].2;
                assert(pre.live_sym(r as int) && pre.sym_at(r as int).vertex == v);
            }
            assert forall|u: usize|
                u != v && pre.rot_ok_at(u) implies #[trigger] self.rot_ok_at(u) by {
                assert forall|s: int|
                    #[trigger] self.live_sym(s) && self.sym_at(s).vertex == u && self.sym_at(
                        s,
                    ).rot is Some implies self.live_sym(self.sym_at(s).rot->Some_0 as int)
                    && self.sym_at(self.sym_at(s).rot->Some_0 as int).vertex == u by {
                    assert(pre.live_sym(s));
                    assert(self.sym_edges@[s] == pre.sym_edges@[s]);
                    let r = pre.sym_at(s).rot->Some_0;
                    assert(pre.live_sym(r as int) && pre.sym_at(r as int).vertex == u);
                    assert(self.sym_edges@[r as int] == pre.sym_edges@[r as int]);
                }
            }
            // the linked chain is a fixed-point-free permutation of the
            // sym-edges leaving v
            assert forall|s1: int|
                #[trigger] self.live_sym(s1) && self.sym_at(s1).vertex == v implies exists|j: int|
                0 <= j < n && (#[trigger] keyed@[j]).2 == s1 by {
                assert(pre.live_sym(s1) && pre.sym_at(s1).vertex == v);
            }
            assert forall|s1: int, s2: int|
                #[trigger] self.live_sym(s1) && #[trigger] self.live_sym(s2) && self.sym_at(
                    s1,
                ).vertex == v && self.sym_at(s2).vertex == v && s1 != s2 implies self.sym_at(
                s1,
            ).rot is Some by {
                let j = choose|j: int| 0 <= j < n && (#[trigger] keyed@[j]).2 == s1;
                assert(self.sym_at(keyed@[j].2 as int).rot == Some(
                    keyed@[((j + 1) % (n as int))].2,
                ));
            }
            assert forall|s1: int, s2: int|
                #[trigger] self.live_sym(s1) && #[trigger] self.live_sym(s2) && self.sym_at(
                    s1,
                ).vertex == v && self.sym_at(s2).vertex == v && s1 != s2 && self.sym_at(s1).rot
                is Some && self.sym_at(s2).rot is Some implies self.sym_at(s1).rot->Some_0
                != self.sym_at(s2).rot->Some_0 by {
                let j1 = choose|j: int| 0 <= j < n && (#[trigger] keyed@[j]).2 == s1;
                let j2 = choose|j: int| 0 <= j < n && (#[trigger] keyed@[j]).2 == s2;
                assert(j1 != j2);
                assert(self.sym_at(s1).rot == Some(keyed@[((j1 + 1) % (n as int))].2));
                assert(self.sym_at(s2).rot == Some(keyed@[((j2 + 1) % (n as int))].2));
                lemma_cyclic_succ(j1, j2, n as int);
            }
            assert forall|s1: int|
                #[trigger] self.live_sym(s1) && self.sym_at(s1).vertex == v && self.sym_at(
                    s1,
                ).rot is Some implies self.sym_at(s1).rot->Some_0 != s1 && exists|s2: int|
                #[trigger] self.live_sym(s2) && self.sym_at(s2).vertex == v && s2 != s1 by {
                let j1 = choose|j: int| 0 <= j < n && (#[trigger] keyed@[j]).2 == s1;
                let jn = ((j1 + 1) % (n as int));
                assert(self.sym_at(s1).rot == Some(keyed@[jn].2));
                lemma_cyclic_succ(
                    j1,
                    if j1 == 0 {
                        1int
                    } else {
                        0int
                    },
                    n as int,
                );
                assert(keyed@[jn].2 != keyed@[j1].2);
                assert(self.live_sym(keyed@[jn].2 as int) && self.sym_at(
                    keyed@[jn].2 as int,
                ).vertex == v);
            }
            assert(self.rot_cycle_at(v));
        }
    }
}

} // verus!
