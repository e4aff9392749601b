use vstd::prelude::*;

use crate::edge::Edge;
use crate::face::Face;
use crate::point::Point;
use crate::sym_edge::SymEdge;
use crate::vertex::Vertex;

verus! {

/// One entry of the derived half-edge index: the directed half-edge
/// `(from, to)` is represented by the sym-edge in arena slot `sym`.
#[derive(Clone, Copy, PartialEq, Eq, Structural, Debug)]
pub struct HalfEdgeEntry {
    pub from: usize,
    pub to: usize,
    pub sym: usize,
}

/// A constrained Delaunay triangulation.
///
/// Vertices, edges, faces and sym-edges live in arenas and refer to each
/// other by index. Edges, faces and sym-edges are tombstoned on removal, so
/// an index, once handed out, never moves; vertices are never removed. The
/// half-edge index is derived from the canonical arenas and is kept
/// consistent by every mutating operation.
pub struct CDT {
    pub vertices: Vec<Vertex>,
    pub edges: Vec<Option<Edge>>,
    pub faces: Vec<Option<Face>>,
    pub sym_edges: Vec<Option<SymEdge>>,
    pub half_edge_map: Vec<HalfEdgeEntry>,
}

impl CDT {
    /// The empty mesh.
    pub fn new() -> (r: CDT)
        ensures
            r.wf(),
            r.vertices@.len() == 0,
            r.edges@.len() == 0,
            r.faces@.len() == 0,
            r.sym_edges@.len() == 0,
            r.half_edge_map@.len() == 0,
    {
        CDT {
            vertices: Vec::new(),
            edges: Vec::new(),
            faces: Vec::new(),
            sym_edges: Vec::new(),
            half_edge_map: Vec::new(),
        }
    }

    pub open spec fn n_verts(self) -> int {
        self.vertices@.len() as int
    }

    /// Edge slot `e` holds a live (non-tombstoned) edge.
    pub open spec fn live_edge(self, e: int) -> bool {
        0 <= e < self.edges@.len() && self.edges@[e] is Some
    }

    pub open spec fn edge_at(self, e: int) -> Edge {
        self.edges@[e]->Some_0
    }

    /// Face slot `f` holds a live face.
    pub open spec fn live_face(self, f: int) -> bool {
        0 <= f < self.faces@.len() && self.faces@[f] is Some
    }

    pub open spec fn face_at(self, f: int) -> Face {
        self.faces@[f]->Some_0
    }

    /// Sym-edge slot `s` holds a live sym-edge.
    pub open spec fn live_sym(self, s: int) -> bool {
        0 <= s < self.sym_edges@.len() && self.sym_edges@[s] is Some
    }

    pub open spec fn sym_at(self, s: int) -> SymEdge {
        self.sym_edges@[s]->Some_0
    }

    /// The destination vertex of sym-edge `s`: the next corner of its face.
    pub open spec fn sym_to(self, s: int) -> usize {
        self.face_at(self.sym_at(s).face as int).vtx((self.sym_at(s).slot + 1) % 3)
    }

    /// The position of vertex `v`.
    pub open spec fn pos(self, v: int) -> Point {
        self.vertices@[v].position
    }

    /// The undirected edges `{a1, b1}` and `{a2, b2}` coincide.
    pub open spec fn same_pair(a1: usize, b1: usize, a2: usize, b2: usize) -> bool {
        (a1 == a2 && b1 == b2) || (a1 == b2 && b1 == a2)
    }

    /// Every vertex records its own arena index and an in-range position.
    pub open spec fn wf_vertices(self) -> bool {
        forall|i: int|
            0 <= i < self.vertices@.len() ==> (#[trigger] self.vertices@[i]).index == i
                && self.vertices@[i].position.wf()
    }

    /// Every live edge joins two distinct existing vertices.
    pub open spec fn wf_edges(self) -> bool {
        forall|e: int|
            #[trigger] self.live_edge(e) ==> self.edge_at(e).a < self.n_verts() && self.edge_at(
                e,
            ).b < self.n_verts() && self.edge_at(e).a != self.edge_at(e).b
    }

    /// No two live edge slots join the same pair of vertices.
    pub open spec fn wf_edges_unique(self) -> bool {
        forall|e1: int, e2: int|
            #[trigger] self.live_edge(e1) && #[trigger] self.live_edge(e2) && e1 != e2
                ==> !Self::same_pair(
                self.edge_at(e1).a,
                self.edge_at(e1).b,
                self.edge_at(e2).a,
                self.edge_at(e2).b,
            )
    }

    /// The three corners of a live face are distinct existing vertices.
    pub open spec fn wf_face_verts(self) -> bool {
        forall|f: int|
            #[trigger] self.live_face(f) ==> {
                let fc = self.face_at(f);
                &&& fc.v0 < self.n_verts()
                &&& fc.v1 < self.n_verts()
                &&& fc.v2 < self.n_verts()
                &&& fc.v0 != fc.v1
                &&& fc.v1 != fc.v2
                &&& fc.v0 != fc.v2
            }
    }

    /// Corner `i` of live face `f` owns a live sym-edge that points back at
    /// the face, leaves the corner vertex, chains to the next corner, and
    /// runs along a live edge joining the two corners of that side.
    pub open spec fn face_corner_ok(self, f: int, i: int) -> bool {
        let fc = self.face_at(f);
        let s = fc.sym(i) as int;
        &&& self.live_sym(s)
        &&& self.sym_at(s).face == f
        &&& self.sym_at(s).slot == i
        &&& self.sym_at(s).vertex == fc.vtx(i)
        &&& self.sym_at(s).nxt == fc.sym((i + 1) % 3)
        &&& self.live_edge(self.sym_at(s).edge as int)
        &&& fc.side_is(i, self.edge_at(self.sym_at(s).edge as int).a, self.edge_at(self.sym_at(s).edge as int).b)
    }

    pub open spec fn wf_faces(self) -> bool {
        forall|f: int, i: int|
            #[trigger] self.live_face(f) && 0 <= i < 3 ==> #[trigger] self.face_corner_ok(f, i)
    }

    /// Every live sym-edge is owned by the face corner it names.
    pub open spec fn wf_syms(self) -> bool {
        forall|s: int|
            #[trigger] self.live_sym(s) ==> {
                let se = self.sym_at(s);
                &&& se.slot < 3
                &&& self.live_face(se.face as int)
                &&& self.face_at(se.face as int).sym(se.slot as int) == s
            }
    }

    /// `rot` pointers of sym-edges leaving `v` land on live sym-edges that
    /// also leave `v`.
    pub open spec fn rot_ok_at(self, v: usize) -> bool {
        forall|s: int|
            #[trigger] self.live_sym(s) && self.sym_at(s).vertex == v && self.sym_at(s).rot
                is Some ==> self.live_sym(self.sym_at(s).rot->Some_0 as int) && self.sym_at(
                self.sym_at(s).rot->Some_0 as int,
            ).vertex == v
    }

    pub open spec fn wf_rot(self) -> bool {
        forall|v: usize| #[trigger] self.rot_ok_at(v)
    }

    /// The rotate pointers of the sym-edges leaving `v` form a permutation
    /// with no fixed point over exactly those sym-edges: with two or more of
    /// them each points at another one and no two point at the same one; a
    /// lone sym-edge points nowhere.
    pub open spec fn rot_cycle_at(self, v: usize) -> bool {
        &&& (forall|s1: int, s2: int|
            #[trigger] self.live_sym(s1) && #[trigger] self.live_sym(s2) && self.sym_at(
                s1,
            ).vertex == v && self.sym_at(s2).vertex == v && s1 != s2 ==> self.sym_at(s1).rot
                is Some)
        &&& (forall|s1: int, s2: int|
            #[trigger] self.live_sym(s1) && #[trigger] self.live_sym(s2) && self.sym_at(
                s1,
            ).vertex == v && self.sym_at(s2).vertex == v && s1 != s2 && self.sym_at(s1).rot
                is Some && self.sym_at(s2).rot is Some ==> self.sym_at(s1).rot->Some_0
                != self.sym_at(s2).rot->Some_0)
        &&& (forall|s1: int|
            #[trigger] self.live_sym(s1) && self.sym_at(s1).vertex == v && self.sym_at(s1).rot
                is Some ==> self.sym_at(s1).rot->Some_0 != s1 && exists|s2: int|
                #[trigger] self.live_sym(s2) && self.sym_at(s2).vertex == v && s2 != s1)
    }

    /// Every half-edge index entry describes a live sym-edge faithfully.
    pub open spec fn wf_map_entries(self) -> bool {
        forall|k: int|
            0 <= k < self.half_edge_map@.len() ==> {
                let en = #[trigger] self.half_edge_map@[k];
                &&& self.live_sym(en.sym as int)
                &&& self.sym_at(en.sym as int).vertex == en.from
                &&& self.sym_to(en.sym as int) == en.to
            }
    }

    /// No two index entries share a directed half-edge key.
    pub open spec fn wf_map_unique(self) -> bool {
        forall|k1: int, k2: int|
            0 <= k1 < self.half_edge_map@.len() && 0 <= k2 < self.half_edge_map@.len() && k1 != k2
                ==> !((#[trigger] self.half_edge_map@[k1]).from == (
            #[trigger] self.half_edge_map@[k2]).from && self.half_edge_map@[k1].to
                == self.half_edge_map@[k2].to)
    }

    /// The index has an entry for the directed half-edge of sym-edge `s`.
    pub open spec fn map_has(self, from: usize, to: usize, s: int) -> bool {
        exists|k: int|
            0 <= k < self.half_edge_map@.len() && (#[trigger] self.half_edge_map@[k]).from == from
                && self.half_edge_map@[k].to == to && self.half_edge_map@[k].sym == s
    }

    /// Every live sym-edge is present in the half-edge index.
    pub open spec fn wf_map_complete(self) -> bool {
        forall|s: int|
            #[trigger] self.live_sym(s) ==> self.map_has(
                self.sym_at(s).vertex,
                self.sym_to(s),
                s,
            )
    }

    /// Well-formedness of everything except the `rot` pointers.
    pub open spec fn wf0(self) -> bool {
        &&& self.wf_vertices()
        &&& self.wf_edges()
        &&& self.wf_edges_unique()
        &&& self.wf_face_verts()
        &&& self.wf_faces()
        &&& self.wf_syms()
        &&& self.wf_map_entries()
        &&& self.wf_map_unique()
        &&& self.wf_map_complete()
    }

    /// Full well-formedness: the state every public operation preserves.
    pub open spec fn wf(self) -> bool {
        self.wf0() && self.wf_rot()
    }

    /// Live edge slot `e` joins the vertices `a` and `b`.
    pub open spec fn joins(self, e: int, a: usize, b: usize) -> bool {
        self.live_edge(e) && Self::same_pair(self.edge_at(e).a, self.edge_at(e).b, a, b)
    }

    /// There is a live edge joining `a` and `b` that carries constraint
    /// `id`.
    pub open spec fn has_constrained_edge(self, a: usize, b: usize, id: usize) -> bool {
        exists|e: int|
            #[trigger] self.live_edge(e) && Self::same_pair(
                self.edge_at(e).a,
                self.edge_at(e).b,
                a,
                b,
            ) && self.edge_at(e).crep@.contains(id)
    }

    /// `b` is `a` with at most the `rot` pointer changed.
    pub open spec fn same_but_rot(a: SymEdge, b: SymEdge) -> bool {
        &&& b.vertex == a.vertex
        &&& b.edge == a.edge
        &&& b.face == a.face
        &&& b.slot == a.slot
        &&& b.nxt == a.nxt
    }

    /// No half-edge index entry claims the directed half-edge `(a, b)`.
    pub open spec fn half_edge_free(self, a: usize, b: usize) -> bool {
        forall|k: int|
            0 <= k < self.half_edge_map@.len() ==> !((#[trigger] self.half_edge_map@[k]).from == a
                && self.half_edge_map@[k].to == b)
    }

    /// The checks under which `add_face` creates a face: three distinct
    /// existing vertices whose three directed sides are not yet present.
    pub open spec fn can_add_face(self, v0: usize, v1: usize, v2: usize) -> bool {
        &&& v0 < self.n_verts()
        &&& v1 < self.n_verts()
        &&& v2 < self.n_verts()
        &&& v0 != v1
        &&& v1 != v2
        &&& v0 != v2
        &&& self.half_edge_free(v0, v1)
        &&& self.half_edge_free(v1, v2)
        &&& self.half_edge_free(v2, v0)
        &&& self.sym_edges@.len() + 3 <= usize::MAX
        &&& self.faces@.len() + 1 <= usize::MAX
        &&& self.half_edge_map@.len() + 3 <= usize::MAX
        &&& self.edges@.len() + 3 <= usize::MAX
    }

    /// `wf_rot` carries over to any state with the same sym-edge arena.
    pub proof fn lemma_rot_preserved(pre: CDT, post: CDT)
        requires
            post.sym_edges@ == pre.sym_edges@,
            pre.wf_rot(),
        ensures
            post.wf_rot(),
    {
        assert forall|v: usize| #[trigger] post.rot_ok_at(v) by {
            assert(pre.rot_ok_at(v));
            assert forall|s: int|
                #[trigger] post.live_sym(s) && post.sym_at(s).vertex == v && post.sym_at(s).rot
                    is Some implies post.live_sym(post.sym_at(s).rot->Some_0 as int)
                && post.sym_at(post.sym_at(s).rot->Some_0 as int).vertex == v by {
                assert(pre.live_sym(s) && pre.sym_at(s) == post.sym_at(s));
            }
        }
    }

    /// Everything except `wf_vertices` and `wf_rot` carries over between
    /// states whose edge, face, sym-edge and index arenas agree, provided the
    /// vertex count has not shrunk.
    pub proof fn lemma_wf_same_arenas(pre: CDT, post: CDT)
        requires
            pre.wf0(),
            post.n_verts() >= pre.n_verts(),
            post.edges@ == pre.edges@,
            post.faces@ == pre.faces@,
            post.sym_edges@ == pre.sym_edges@,
            post.half_edge_map@ == pre.half_edge_map@,
        ensures
            post.wf_edges(),
            post.wf_edges_unique(),
            post.wf_face_verts(),
            post.wf_faces(),
            post.wf_syms(),
            post.wf_map_entries(),
            post.wf_map_unique(),
            post.wf_map_complete(),
    {
        assert forall|e: int| #[trigger] post.live_edge(e) implies post.edge_at(e).a
            < post.n_verts() && post.edge_at(e).b < post.n_verts() && post.edge_at(e).a
            != post.edge_at(e).b by {
            assert(pre.live_edge(e));
        }
        assert forall|e1: int, e2: int|
            #[trigger] post.live_edge(e1) && #[trigger] post.live_edge(e2) && e1 != e2 implies
            !Self::same_pair(
            post.edge_at(e1).a,
            post.edge_at(e1).b,
            post.edge_at(e2).a,
            post.edge_at(e2).b,
        ) by {
            assert(pre.live_edge(e1) && pre.live_edge(e2));
        }
        assert forall|f: int| #[trigger] post.live_face(f) implies {
            let fc = post.face_at(f);
            &&& fc.v0 < post.n_verts()
            &&& fc.v1 < post.n_verts()
            &&& fc.v2 < post.n_verts()
            &&& fc.v0 != fc.v1
            &&& fc.v1 != fc.v2
            &&& fc.v0 != fc.v2
        } by {
            assert(pre.live_face(f));
        }
        assert forall|f: int, i: int| #[trigger] post.live_face(f) && 0 <= i < 3 implies
            #[trigger] post.face_corner_ok(f, i) by {
            assert(pre.live_face(f));
            assert(pre.face_corner_ok(f, i));
        }
        assert forall|s: int| #[trigger] post.live_sym(s) implies {
            let se = post.sym_at(s);
            &&& se.slot < 3
            &&& post.live_face(se.face as int)
            &&& post.face_at(se.face as int).sym(se.slot as int) == s
        } by {
            assert(pre.live_sym(s));
        }
        assert forall|k: int| 0 <= k < post.half_edge_map@.len() implies {
            let en = #[trigger] post.half_edge_map@[k];
            &&& post.live_sym(en.sym as int)
            &&& post.sym_at(en.sym as int).vertex == en.from
            &&& post.sym_to(en.sym as int) == en.to
        } by {
            assert(pre.half_edge_map@[k] == post.half_edge_map@[k]);
        }
        assert forall|s: int| #[trigger] post.live_sym(s) implies post.map_has(
            post.sym_at(s).vertex,
            post.sym_to(s),
            s,
        ) by {
            assert(pre.live_sym(s));
            assert(pre.map_has(pre.sym_at(s).vertex, pre.sym_to(s), s));
            let k = choose|k: int|
                0 <= k < pre.half_edge_map@.len() && (#[trigger] pre.half_edge_map@[k]).from
                    == pre.sym_at(s).vertex && pre.half_edge_map@[k].to == pre.sym_to(s)
                    && pre.half_edge_map@[k].sym == s;
            assert(post.half_edge_map@[k].from == post.sym_at(s).vertex && post.half_edge_map@[k].to == post.sym_to(s) && post.half_edge_map@[k].sym == s);
        }
    }

    /// Appending one vertex with its own index preserves well-formedness.
    pub proof fn lemma_wf_after_vertex_push(pre: CDT, post: CDT)
        requires
            pre.wf(),
            post.vertices@.len() == pre.vertices@.len() + 1,
            forall|i: int| 0 <= i < pre.vertices@.len() ==> post.vertices@[i] == pre.vertices@[i],
            post.vertices@[pre.vertices@.len() as int].index == pre.vertices@.len(),
            post.vertices@[pre.vertices@.len() as int].position.wf(),
            post.edges@ == pre.edges@,
            post.faces@ == pre.faces@,
            post.sym_edges@ == pre.sym_edges@,
            post.half_edge_map@ == pre.half_edge_map@,
        ensures
            post.wf(),
    {
        assert forall|i: int|
            0 <= i < post.vertices@.len() implies (#[trigger] post.vertices@[i]).index == i
            && post.vertices@[i].position.wf() by {
            if i < pre.vertices@.len() {
                assert(post.vertices@[i] == pre.vertices@[i]);
            }
        }
        Self::lemma_wf_same_arenas(pre, post);
        Self::lemma_rot_preserved(pre, post);
    }

    /// Appending one fresh edge between distinct existing vertices, joined
    /// by no live edge so far, preserves well-formedness.
    pub proof fn lemma_wf_after_edge_push(pre: CDT, post: CDT, a: usize, b: usize)
        requires
            pre.wf(),
            a < pre.n_verts(),
            b < pre.n_verts(),
            a != b,
            forall|e: int|
                #[trigger] pre.live_edge(e) ==> !Self::same_pair(
                    pre.edge_at(e).a,
                    pre.edge_at(e).b,
                    a,
                    b,
                ),
            post.vertices@ == pre.vertices@,
            post.edges@.len() == pre.edges@.len() + 1,
            forall|e: int| 0 <= e < pre.edges@.len() ==> post.edges@[e] == pre.edges@[e],
            post.edges@[pre.edges@.len() as int] is Some,
            post.edges@[pre.edges@.len() as int]->Some_0.a == a,
            post.edges@[pre.edges@.len() as int]->Some_0.b == b,
            post.faces@ == pre.faces@,
            post.sym_edges@ == pre.sym_edges@,
            post.half_edge_map@ == pre.half_edge_map@,
        ensures
            post.wf(),
    {
        let en = pre.edges@.len() as int;
        assert forall|e: int| #[trigger] post.live_edge(e) implies post.edge_at(e).a
            < post.n_verts() && post.edge_at(e).b < post.n_verts() && post.edge_at(e).a
            != post.edge_at(e).b by {
            if e != en {
                assert(post.edges@[e] == pre.edges@[e]);
                assert(pre.live_edge(e));
            }
        }
        assert forall|e1: int, e2: int|
            #[trigger] post.live_edge(e1) && #[trigger] post.live_edge(e2) && e1 != e2 implies
            !Self::same_pair(
            post.edge_at(e1).a,
            post.edge_at(e1).b,
            post.edge_at(e2).a,
            post.edge_at(e2).b,
        ) by {
            if e1 == en {
                assert(post.edges@[e2] == pre.edges@[e2]);
                assert(pre.live_edge(e2));
            } else if e2 == en {
                assert(post.edges@[e1] == pre.edges@[e1]);
                assert(pre.live_edge(e1));
            } else {
                assert(post.edges@[e1] == pre.edges@[e1]);
                assert(post.edges@[e2] == pre.edges@[e2]);
                assert(pre.live_edge(e1) && pre.live_edge(e2));
            }
        }
        assert forall|f: int| #[trigger] post.live_face(f) implies {
            let fc = post.face_at(f);
            &&& fc.v0 < post.n_verts()
            &&& fc.v1 < post.n_verts()
            &&& fc.v2 < post.n_verts()
            &&& fc.v0 != fc.v1
            &&& fc.v1 != fc.v2
            &&& fc.v0 != fc.v2
        } by {
            assert(pre.live_face(f));
        }
        assert forall|f: int, i: int| #[trigger] post.live_face(f) && 0 <= i < 3 implies
            #[trigger] post.face_corner_ok(f, i) by {
            assert(pre.live_face(f));
            assert(pre.face_corner_ok(f, i));
            let s = pre.face_at(f).sym(i) as int;
            let pe = pre.sym_at(s).edge as int;
            assert(post.edges@[pe] == pre.edges@[pe]);
        }
        assert forall|s: int| #[trigger] post.live_sym(s) implies {
            let se = post.sym_at(s);
            &&& se.slot < 3
            &&& post.live_face(se.face as int)
            &&& post.face_at(se.face as int).sym(se.slot as int) == s
        } by {
            assert(pre.live_sym(s));
        }
        assert forall|k: int| 0 <= k < post.half_edge_map@.len() implies {
            let en2 = #[trigger] post.half_edge_map@[k];
            &&& post.live_sym(en2.sym as int)
            &&& post.sym_at(en2.sym as int).vertex == en2.from
            &&& post.sym_to(en2.sym as int) == en2.to
        } by {
            assert(pre.half_edge_map@[k] == post.half_edge_map@[k]);
        }
        assert forall|s: int| #[trigger] post.live_sym(s) implies post.map_has(
            post.sym_at(s).vertex,
            post.sym_to(s),
            s,
        ) by {
            assert(pre.live_sym(s));
            assert(pre.map_has(pre.sym_at(s).vertex, pre.sym_to(s), s));
            let k = choose|k: int|
                0 <= k < pre.half_edge_map@.len() && (#[trigger] pre.half_edge_map@[k]).from
                    == pre.sym_at(s).vertex && pre.half_edge_map@[k].to == pre.sym_to(s)
                    && pre.half_edge_map@[k].sym == s;
            assert(post.half_edge_map@[k].from == post.sym_at(s).vertex && post.half_edge_map@[k].to == post.sym_to(s) && post.half_edge_map@[k].sym == s);
        }
        Self::lemma_rot_preserved(pre, post);
    }

    /// `wf0` carries over to any state that differs only in `rot` pointers.
    pub proof fn lemma_wf0_rot_only(pre: CDT, post: CDT)
        requires
            pre.wf0(),
            post.vertices@ == pre.vertices@,
            post.edges@ == pre.edges@,
            post.faces@ == pre.faces@,
            post.half_edge_map@ == pre.half_edge_map@,
            post.sym_edges@.len() == pre.sym_edges@.len(),
            forall|s: int|
                0 <= s < pre.sym_edges@.len() ==> ((#[trigger] post.sym_edges@[s]) is Some
                    <==> pre.sym_edges@[s] is Some),
            forall|s: int|
                #[trigger] pre.live_sym(s) ==> Self::same_but_rot(pre.sym_at(s), post.sym_at(s)),
        ensures
            post.wf0(),
    {
        assert forall|e: int| #[trigger] post.live_edge(e) implies post.edge_at(e).a
            < post.n_verts() && post.edge_at(e).b < post.n_verts() && post.edge_at(e).a
            != post.edge_at(e).b by {
            assert(pre.live_edge(e));
        }
        assert forall|e1: int, e2: int|
            #[trigger] post.live_edge(e1) && #[trigger] post.live_edge(e2) && e1 != e2 implies
            !Self::same_pair(
            post.edge_at(e1).a,
            post.edge_at(e1).b,
            post.edge_at(e2).a,
            post.edge_at(e2).b,
        ) by {
            assert(pre.live_edge(e1) && pre.live_edge(e2));
        }
        assert forall|f: int| #[trigger] post.live_face(f) implies {
            let fc = post.face_at(f);
            &&& fc.v0 < post.n_verts()
            &&& fc.v1 < post.n_verts()
            &&& fc.v2 < post.n_verts()
            &&& fc.v0 != fc.v1
            &&& fc.v1 != fc.v2
            &&& fc.v0 != fc.v2
        } by {
            assert(pre.live_face(f));
        }
        assert forall|f: int, i: int| #[trigger] post.live_face(f) && 0 <= i < 3 implies
            #[trigger] post.face_corner_ok(f, i) by {
            assert(pre.live_face(f));
            assert(pre.face_corner_ok(f, i));
            let s = pre.face_at(f).sym(i) as int;
            assert(pre.live_sym(s));
            assert(Self::same_but_rot(pre.sym_at(s), post.sym_at(s)));
        }
        assert forall|s: int| #[trigger] post.live_sym(s) implies {
            let se = post.sym_at(s);
            &&& se.slot < 3
            &&& post.live_face(se.face as int)
            &&& post.face_at(se.face as int).sym(se.slot as int) == s
        } by {
            assert(pre.live_sym(s));
            assert(Self::same_but_rot(pre.sym_at(s), post.sym_at(s)));
        }
        assert forall|k: int| 0 <= k < post.half_edge_map@.len() implies {
            let en = #[trigger] post.half_edge_map@[k];
            &&& post.live_sym(en.sym as int)
            &&& post.sym_at(en.sym as int).vertex == en.from
            &&& post.sym_to(en.sym as int) == en.to
        } by {
            assert(pre.half_edge_map@[k] == post.half_edge_map@[k]);
            assert(pre.live_sym(pre.half_edge_map@[k].sym as int));
            assert(Self::same_but_rot(
                pre.sym_at(pre.half_edge_map@[k].sym as int),
                post.sym_at(pre.half_edge_map@[k].sym as int),
            ));
        }
        assert forall|s: int| #[trigger] post.live_sym(s) implies post.map_has(
            post.sym_at(s).vertex,
            post.sym_to(s),
            s,
        ) by {
            assert(pre.live_sym(s));
            assert(Self::same_but_rot(pre.sym_at(s), post.sym_at(s)));
            assert(pre.map_has(pre.sym_at(s).vertex, pre.sym_to(s), s));
            let k = choose|k: int|
                0 <= k < pre.half_edge_map@.len() && (#[trigger] pre.half_edge_map@[k]).from
                    == pre.sym_at(s).vertex && pre.half_edge_map@[k].to == pre.sym_to(s)
                    && pre.half_edge_map@[k].sym == s;
            assert(post.half_edge_map@[k].from == post.sym_at(s).vertex && post.half_edge_map@[k].to
                == post.sym_to(s) && post.half_edge_map@[k].sym == s);
        }
    }


    /// `rot_cycle_at(u)` carries over to any state whose sym-edges leaving
    /// `u` are exactly unchanged and whose arena liveness is unchanged.
    pub proof fn lemma_rot_cycle_preserved(pre: CDT, post: CDT, u: usize)
        requires
            post.sym_edges@.len() == pre.sym_edges@.len(),
            forall|s: int|
                0 <= s < pre.sym_edges@.len() ==> (post.live_sym(s) <==> pre.live_sym(s)),
            forall|s: int|
                #[trigger] pre.live_sym(s) ==> Self::same_but_rot(pre.sym_at(s), post.sym_at(s)),
            forall|s: int|
                #[trigger] pre.live_sym(s) && pre.sym_at(s).vertex == u ==> post.sym_edges@[s]
                    == pre.sym_edges@[s],
            pre.rot_cycle_at(u),
        ensures
            post.rot_cycle_at(u),
    {
        assert forall|s1: int, s2: int|
            #[trigger] post.live_sym(s1) && #[trigger] post.live_sym(s2) && post.sym_at(
                s1,
            ).vertex == u && post.sym_at(s2).vertex == u && s1 != s2 implies post.sym_at(s1).rot
            is Some by {
            assert(pre.live_sym(s1) && pre.live_sym(s2));
            assert(Self::same_but_rot(pre.sym_at(s1), post.sym_at(s1)));
            assert(Self::same_but_rot(pre.sym_at(s2), post.sym_at(s2)));
            assert(post.sym_edges@[s1] == pre.sym_edges@[s1]);
        }
        assert forall|s1: int, s2: int|
            #[trigger] post.live_sym(s1) && #[trigger] post.live_sym(s2) && post.sym_at(
                s1,
            ).vertex == u && post.sym_at(s2).vertex == u && s1 != s2 && post.sym_at(s1).rot
            is Some && post.sym_at(s2).rot is Some implies post.sym_at(s1).rot->Some_0
            != post.sym_at(s2).rot->Some_0 by {
            assert(pre.live_sym(s1) && pre.live_sym(s2));
            assert(Self::same_but_rot(pre.sym_at(s1), post.sym_at(s1)));
            assert(Self::same_but_rot(pre.sym_at(s2), post.sym_at(s2)));
            assert(post.sym_edges@[s1] == pre.sym_edges@[s1]);
            assert(post.sym_edges@[s2] == pre.sym_edges@[s2]);
        }
        assert forall|s1: int|
            #[trigger] post.live_sym(s1) && post.sym_at(s1).vertex == u && post.sym_at(s1).rot
            is Some implies post.sym_at(s1).rot->Some_0 != s1 && exists|s2: int|
            #[trigger] post.live_sym(s2) && post.sym_at(s2).vertex == u && s2 != s1 by {
            assert(pre.live_sym(s1));
            assert(Self::same_but_rot(pre.sym_at(s1), post.sym_at(s1)));
            assert(post.sym_edges@[s1] == pre.sym_edges@[s1]);
            let s2 = choose|s2: int|
                #[trigger] pre.live_sym(s2) && pre.sym_at(s2).vertex == u && s2 != s1;
            assert(post.live_sym(s2));
            assert(Self::same_but_rot(pre.sym_at(s2), post.sym_at(s2)));
        }
    }

    /// Two live sym-edge slots of one directed half-edge coincide: the
    /// half-edge index is key-unique and complete, so at most one sym-edge
    /// exists per (directed edge, face) pairing.
    pub proof fn lemma_halfedge_unique(self, s1: int, s2: int)
        requires
            self.wf(),
            self.live_sym(s1),
            self.live_sym(s2),
            self.sym_at(s1).vertex == self.sym_at(s2).vertex,
            self.sym_to(s1) == self.sym_to(s2),
        ensures
            s1 == s2,
    {
        let from = self.sym_at(s1).vertex;
        let to = self.sym_to(s1);
        assert(self.map_has(from, to, s1));
        assert(self.map_has(from, to, s2));
        let k1 = choose|k: int|
            0 <= k < self.half_edge_map@.len() && (#[trigger] self.half_edge_map@[k]).from == from
                && self.half_edge_map@[k].to == to && self.half_edge_map@[k].sym == s1;
        let k2 = choose|k: int|
            0 <= k < self.half_edge_map@.len() && (#[trigger] self.half_edge_map@[k]).from == from
                && self.half_edge_map@[k].to == to && self.half_edge_map@[k].sym == s2;
        if k1 != k2 {
            assert(false);
        }
    }

    /// Two distinct live sym-edges of one edge are its two directions: they
    /// run head-to-tail and border different faces.
    pub proof fn lemma_edge_sym_pair(self, s1: int, s2: int)
        requires
            self.wf(),
            self.live_sym(s1),
            self.live_sym(s2),
            self.sym_at(s1).edge == self.sym_at(s2).edge,
            s1 != s2,
        ensures
            self.sym_at(s1).vertex == self.sym_to(s2),
            self.sym_to(s1) == self.sym_at(s2).vertex,
            self.sym_at(s1).face != self.sym_at(s2).face,
    {
        let f1 = self.sym_at(s1).face as int;
        let f2 = self.sym_at(s2).face as int;
        let i1 = self.sym_at(s1).slot as int;
        let i2 = self.sym_at(s2).slot as int;
        assert(self.face_corner_ok(f1, i1));
        assert(self.face_corner_ok(f2, i2));
        let e = self.sym_at(s1).edge as int;
        let ea = self.edge_at(e).a;
        let eb = self.edge_at(e).b;
        // each sym-edge's directed half-edge is one orientation of {ea, eb}
        assert(self.sym_to(s1) == self.face_at(f1).vtx((i1 + 1) % 3));
        assert(self.sym_to(s2) == self.face_at(f2).vtx((i2 + 1) % 3));
        assert((self.sym_at(s1).vertex == ea && self.sym_to(s1) == eb) || (self.sym_at(s1).vertex
            == eb && self.sym_to(s1) == ea));
        assert((self.sym_at(s2).vertex == ea && self.sym_to(s2) == eb) || (self.sym_at(s2).vertex
            == eb && self.sym_to(s2) == ea));
        if self.sym_at(s1).vertex == self.sym_at(s2).vertex && self.sym_to(s1) == self.sym_to(
            s2,
        ) {
            self.lemma_halfedge_unique(s1, s2);
            assert(false);
        }
        if f1 == f2 {
            // two sides of one face with the same unordered vertex set would
            // make two of its corners coincide
            assert(i1 != i2 || s1 == s2);
            assert(false);
        }
    }

}

} // verus!
