use vstd::prelude::*;

use crate::orientation::Orientation;
use crate::point::Point;

verus! {

/// How a query point sits relative to one triangle, by the exact sign tests.
#[derive(Clone, Copy, PartialEq, Eq, Structural, Debug)]
pub enum FaceLocateResult {
    Face,
    Edge,
    Vertex,
    Outside,
}

/// `|x * y| <= b1 * b2` whenever `|x| <= b1` and `|y| <= b2`.
pub proof fn lemma_mul_bound(x: int, y: int, b1: int, b2: int)
    requires
        -b1 <= x <= b1,
        -b2 <= y <= b2,
    ensures
        -(b1 * b2) <= x * y <= b1 * b2,
{
    assert(-(b1 * b2) <= x * y <= b1 * b2) by (nonlinear_arith)
        requires
            -b1 <= x <= b1,
            -b2 <= y <= b2,
    ;
}

/// Twice the signed area of the triangle `(a, b, c)`: the cross product
/// `(a - b) x (a - c)`. Positive exactly when the triple turns
/// counter-clockwise.
pub open spec fn ccw_val(a: Point, b: Point, c: Point) -> int {
    (a.x - b.x) * (a.y - c.y) - (a.y - b.y) * (a.x - c.x)
}

/// The exact cross product `(a - b) x (a - c)`, free of overflow.
pub fn ccw(a: Point, b: Point, c: Point) -> (r: i128)
    requires
        a.wf(),
        b.wf(),
        c.wf(),
    ensures
        r == ccw_val(a, b, c),
        -800_000_000_000_000_000 <= r <= 800_000_000_000_000_000,
{
    let abx: i128 = a.x as i128 - b.x as i128;
    let aby: i128 = a.y as i128 - b.y as i128;
    let acx: i128 = a.x as i128 - c.x as i128;
    let acy: i128 = a.y as i128 - c.y as i128;
    proof {
        lemma_mul_bound(abx as int, acy as int, 200_000_000, 200_000_000);
        lemma_mul_bound(aby as int, acx as int, 200_000_000, 200_000_000);
    }
    abx * acy - aby * acx
}

/// Classification of `ccw_val`'s sign as an `Orientation`.
pub open spec fn orientation_of(a: Point, b: Point, c: Point) -> Orientation {
    if ccw_val(a, b, c) == 0 {
        Orientation::Collinear
    } else if ccw_val(a, b, c) > 0 {
        Orientation::CounterClockwise
    } else {
        Orientation::Clockwise
    }
}

/// Exact orientation test. Collinear triples are recognised exactly, with no
/// tolerance: the grid coordinates leave nothing to absorb.
pub fn is_ccw(a: Point, b: Point, c: Point) -> (r: Orientation)
    requires
        a.wf(),
        b.wf(),
        c.wf(),
    ensures
        r == orientation_of(a, b, c),
{
    let v = ccw(a, b, c);
    if v == 0 {
        Orientation::Collinear
    } else if v > 0 {
        Orientation::CounterClockwise
    } else {
        Orientation::Clockwise
    }
}

/// The lifted in-circle determinant of the triple `(a, b, c)` and the query
/// point `d`, expanded along the row of `a`.
pub open spec fn incircle_det(a: Point, b: Point, c: Point, d: Point) -> int {
    let adx = a.x - d.x;
    let ady = a.y - d.y;
    let bdx = b.x - d.x;
    let bdy = b.y - d.y;
    let cdx = c.x - d.x;
    let cdy = c.y - d.y;
    let ad2 = adx * adx + ady * ady;
    let bd2 = bdx * bdx + bdy * bdy;
    let cd2 = cdx * cdx + cdy * cdy;
    adx * (bdy * cd2 - bd2 * cdy) - ady * (bdx * cd2 - bd2 * cdx) + ad2 * (bdx * cdy - bdy
        * cdx)
}

/// The edge opposite `d` in the triangle `(a, b, c)` is locally Delaunay:
/// the in-circle determinant is non-negative. The sign convention depends on
/// the winding of `(a, b, c)`; the mesh keeps one winding throughout, under
/// which a non-negative determinant puts `d` outside the circumcircle.
pub open spec fn is_delaunay_spec(a: Point, b: Point, c: Point, d: Point) -> bool {
    incircle_det(a, b, c, d) >= 0
}

/// Exact in-circle determinant, free of overflow.
pub fn incircle(a: Point, b: Point, c: Point, d: Point) -> (r: i128)
    requires
        a.wf(),
        b.wf(),
        c.wf(),
        d.wf(),
    ensures
        r == incircle_det(a, b, c, d),
{
    let adx: i128 = a.x as i128 - d.x as i128;
    let ady: i128 = a.y as i128 - d.y as i128;
    let bdx: i128 = b.x as i128 - d.x as i128;
    let bdy: i128 = b.y as i128 - d.y as i128;
    let cdx: i128 = c.x as i128 - d.x as i128;
    let cdy: i128 = c.y as i128 - d.y as i128;
    proof {
        lemma_mul_bound(adx as int, adx as int, 200_000_000, 200_000_000);
        lemma_mul_bound(ady as int, ady as int, 200_000_000, 200_000_000);
        lemma_mul_bound(bdx as int, bdx as int, 200_000_000, 200_000_000);
        lemma_mul_bound(bdy as int, bdy as int, 200_000_000, 200_000_000);
        lemma_mul_bound(cdx as int, cdx as int, 200_000_000, 200_000_000);
        lemma_mul_bound(cdy as int, cdy as int, 200_000_000, 200_000_000);
    }
    let ad2: i128 = adx * adx + ady * ady;
    let bd2: i128 = bdx * bdx + bdy * bdy;
    let cd2: i128 = cdx * cdx + cdy * cdy;
    proof {
        lemma_mul_bound(bdy as int, cd2 as int, 200_000_000, 80_000_000_000_000_000);
        lemma_mul_bound(bd2 as int, cdy as int, 80_000_000_000_000_000, 200_000_000);
        lemma_mul_bound(bdx as int, cd2 as int, 200_000_000, 80_000_000_000_000_000);
        lemma_mul_bound(bd2 as int, cdx as int, 80_000_000_000_000_000, 200_000_000);
        lemma_mul_bound(bdx as int, cdy as int, 200_000_000, 200_000_000);
        lemma_mul_bound(bdy as int, cdx as int, 200_000_000, 200_000_000);
    }
    let m1: i128 = bdy * cd2 - bd2 * cdy;
    let m2: i128 = bdx * cd2 - bd2 * cdx;
    let m3: i128 = bdx * cdy - bdy * cdx;
    proof {
        lemma_mul_bound(adx as int, m1 as int, 200_000_000, 32_000_000_000_000_000_000_000_000);
        lemma_mul_bound(ady as int, m2 as int, 200_000_000, 32_000_000_000_000_000_000_000_000);
        lemma_mul_bound(ad2 as int, m3 as int, 80_000_000_000_000_000, 80_000_000_000_000_000);
    }
    adx * m1 - ady * m2 + ad2 * m3
}

/// In-circle test with the winding-dependent sign convention above.
pub fn is_delaunay_points(a: Point, b: Point, c: Point, d: Point) -> (r: bool)
    requires
        a.wf(),
        b.wf(),
        c.wf(),
        d.wf(),
    ensures
        r == is_delaunay_spec(a, b, c, d),
{
    incircle(a, b, c, d) >= 0
}

/// Closed point-in-triangle containment, valid for either winding: the three
/// edge sign tests all agree (allowing zeros).
pub open spec fn in_face_closed(a: Point, b: Point, c: Point, q: Point) -> bool {
    ||| (ccw_val(a, b, q) >= 0 && ccw_val(b, c, q) >= 0 && ccw_val(c, a, q) >= 0)
    ||| (ccw_val(a, b, q) <= 0 && ccw_val(b, c, q) <= 0 && ccw_val(c, a, q) <= 0)
}

/// Exact closed containment test for one triangle.
pub fn point_in_triangle_closed(a: Point, b: Point, c: Point, q: Point) -> (r: bool)
    requires
        a.wf(),
        b.wf(),
        c.wf(),
        q.wf(),
    ensures
        r == in_face_closed(a, b, c, q),
{
    let s1 = ccw(a, b, q);
    let s2 = ccw(b, c, q);
    let s3 = ccw(c, a, q);
    (s1 >= 0 && s2 >= 0 && s3 >= 0) || (s1 <= 0 && s2 <= 0 && s3 <= 0)
}

/// `q` lies on the open segment `(a, b)`: exactly collinear, inside the
/// bounding box, and distinct from both endpoints.
pub open spec fn on_open_segment(a: Point, b: Point, q: Point) -> bool {
    &&& ccw_val(a, b, q) == 0
    &&& q != a
    &&& q != b
    &&& (a.x <= q.x <= b.x || b.x <= q.x <= a.x)
    &&& (a.y <= q.y <= b.y || b.y <= q.y <= a.y)
}

/// Exact open-segment membership test.
pub fn on_open_segment_test(a: Point, b: Point, q: Point) -> (r: bool)
    requires
        a.wf(),
        b.wf(),
        q.wf(),
    ensures
        r == on_open_segment(a, b, q),
{
    let collinear = ccw(a, b, q) == 0;
    let in_x = (a.x <= q.x && q.x <= b.x) || (b.x <= q.x && q.x <= a.x);
    let in_y = (a.y <= q.y && q.y <= b.y) || (b.y <= q.y && q.y <= a.y);
    let not_a = !(q.x == a.x && q.y == a.y);
    let not_b = !(q.x == b.x && q.y == b.y);
    collinear && not_a && not_b && in_x && in_y
}

/// The open segments `(a, b)` and `(c, d)` properly cross: each pair of
/// endpoints lies strictly on opposite sides of the other segment's line.
/// Contact at an endpoint, collinear overlap and mere touching do not count.
pub open spec fn proper_crossing(a: Point, b: Point, c: Point, d: Point) -> bool {
    let s1 = ccw_val(a, b, c);
    let s2 = ccw_val(a, b, d);
    let s3 = ccw_val(c, d, a);
    let s4 = ccw_val(c, d, b);
    &&& ((s1 > 0 && s2 < 0) || (s1 < 0 && s2 > 0))
    &&& ((s3 > 0 && s4 < 0) || (s3 < 0 && s4 > 0))
}

/// The cross product of the plain vectors `(ux, uy)` and `(vx, vy)`.
pub open spec fn cross2(ux: int, uy: int, vx: int, vy: int) -> int {
    ux * vy - uy * vx
}

/// Numerator of the parameter at which the line of `(c, d)` meets the
/// segment `(s, t)`, measured along `(s, t)`.
pub open spec fn param_num(s: Point, t: Point, c: Point, d: Point) -> int {
    cross2(c.x - s.x, c.y - s.y, d.x - c.x, d.y - c.y)
}

/// Denominator of that parameter; non-zero whenever the segments properly
/// cross.
pub open spec fn param_den(s: Point, t: Point, c: Point, d: Point) -> int {
    cross2(t.x - s.x, t.y - s.y, d.x - c.x, d.y - c.y)
}

/// The crossing of `(s, t)` with edge `e1` comes no later along `(s, t)`
/// than its crossing with edge `e2`: the exact fraction comparison
/// `n1 / d1 <= n2 / d2`, by sign-normalised cross-multiplication.
pub open spec fn crossing_param_le(s: Point, t: Point, e1: (Point, Point), e2: (
    Point,
    Point,
)) -> bool {
    let n1 = param_num(s, t, e1.0, e1.1);
    let d1 = param_den(s, t, e1.0, e1.1);
    let n2 = param_num(s, t, e2.0, e2.1);
    let d2 = param_den(s, t, e2.0, e2.1);
    let nn1 = if d1 < 0 {
        -n1
    } else {
        n1
    };
    let dd1 = if d1 < 0 {
        -d1
    } else {
        d1
    };
    let nn2 = if d2 < 0 {
        -n2
    } else {
        n2
    };
    let dd2 = if d2 < 0 {
        -d2
    } else {
        d2
    };
    nn1 * dd2 <= nn2 * dd1
}

/// A proper crossing has a non-zero parameter denominator: it is the
/// difference of the two strict side tests.
pub proof fn lemma_param_den_nonzero(s: Point, t: Point, c: Point, d: Point)
    requires
        proper_crossing(s, t, c, d),
    ensures
        param_den(s, t, c, d) != 0,
{
    assert(param_den(s, t, c, d) == ccw_val(s, t, d) - ccw_val(s, t, c)) by (nonlinear_arith);
}

/// The crossing order is total.
pub proof fn lemma_crossing_le_total(s: Point, t: Point, e1: (Point, Point), e2: (Point, Point))
    ensures
        crossing_param_le(s, t, e1, e2) || crossing_param_le(s, t, e2, e1),
{
}

/// The crossing order is transitive over edges that properly cross.
pub proof fn lemma_crossing_le_trans(
    s: Point,
    t: Point,
    e1: (Point, Point),
    e2: (Point, Point),
    e3: (Point, Point),
)
    requires
        param_den(s, t, e1.0, e1.1) != 0,
        param_den(s, t, e2.0, e2.1) != 0,
        param_den(s, t, e3.0, e3.1) != 0,
        crossing_param_le(s, t, e1, e2),
        crossing_param_le(s, t, e2, e3),
    ensures
        crossing_param_le(s, t, e1, e3),
{
    let n1 = param_num(s, t, e1.0, e1.1);
    let d1 = param_den(s, t, e1.0, e1.1);
    let n2 = param_num(s, t, e2.0, e2.1);
    let d2 = param_den(s, t, e2.0, e2.1);
    let n3 = param_num(s, t, e3.0, e3.1);
    let d3 = param_den(s, t, e3.0, e3.1);
    let nn1 = if d1 < 0 {
        -n1
    } else {
        n1
    };
    let dd1 = if d1 < 0 {
        -d1
    } else {
        d1
    };
    let nn2 = if d2 < 0 {
        -n2
    } else {
        n2
    };
    let dd2 = if d2 < 0 {
        -d2
    } else {
        d2
    };
    let nn3 = if d3 < 0 {
        -n3
    } else {
        n3
    };
    let dd3 = if d3 < 0 {
        -d3
    } else {
        d3
    };
    assert(nn1 * dd3 <= nn3 * dd1) by (nonlinear_arith)
        requires
            dd1 > 0,
            dd2 > 0,
            dd3 > 0,
            nn1 * dd2 <= nn2 * dd1,
            nn2 * dd3 <= nn3 * dd2,
    ;
}

/// Exact executable form of `crossing_param_le`.
pub fn crossing_le(s: Point, t: Point, e1: (Point, Point), e2: (Point, Point)) -> (r: bool)
    requires
        s.wf(),
        t.wf(),
        e1.0.wf(),
        e1.1.wf(),
        e2.0.wf(),
        e2.1.wf(),
    ensures
        r == crossing_param_le(s, t, e1, e2),
{
    let n1: i128 = cross2_exec(
        e1.0.x as i128 - s.x as i128,
        e1.0.y as i128 - s.y as i128,
        e1.1.x as i128 - e1.0.x as i128,
        e1.1.y as i128 - e1.0.y as i128,
    );
    let d1: i128 = cross2_exec(
        t.x as i128 - s.x as i128,
        t.y as i128 - s.y as i128,
        e1.1.x as i128 - e1.0.x as i128,
        e1.1.y as i128 - e1.0.y as i128,
    );
    let n2: i128 = cross2_exec(
        e2.0.x as i128 - s.x as i128,
        e2.0.y as i128 - s.y as i128,
        e2.1.x as i128 - e2.0.x as i128,
        e2.1.y as i128 - e2.0.y as i128,
    );
    let d2: i128 = cross2_exec(
        t.x as i128 - s.x as i128,
        t.y as i128 - s.y as i128,
        e2.1.x as i128 - e2.0.x as i128,
        e2.1.y as i128 - e2.0.y as i128,
    );
    let nn1 = if d1 < 0 {
        -n1
    } else {
        n1
    };
    let dd1 = if d1 < 0 {
        -d1
    } else {
        d1
    };
    let nn2 = if d2 < 0 {
        -n2
    } else {
        n2
    };
    let dd2 = if d2 < 0 {
        -d2
    } else {
        d2
    };
    proof {
        lemma_mul_bound(nn1 as int, dd2 as int, 800_000_000_000_000_000, 800_000_000_000_000_000);
        lemma_mul_bound(nn2 as int, dd1 as int, 800_000_000_000_000_000, 800_000_000_000_000_000);
    }
    nn1 * dd2 <= nn2 * dd1
}

/// Bounded exact cross product of two i128 vectors.
fn cross2_exec(ux: i128, uy: i128, vx: i128, vy: i128) -> (r: i128)
    requires
        -400_000_000 <= ux <= 400_000_000,
        -400_000_000 <= uy <= 400_000_000,
        -400_000_000 <= vx <= 400_000_000,
        -400_000_000 <= vy <= 400_000_000,
    ensures
        r == cross2(ux as int, uy as int, vx as int, vy as int),
        -800_000_000_000_000_000 <= r <= 800_000_000_000_000_000,
{
    proof {
        lemma_mul_bound(ux as int, vy as int, 400_000_000, 400_000_000);
        lemma_mul_bound(uy as int, vx as int, 400_000_000, 400_000_000);
    }
    ux * vy - uy * vx
}

/// The point of the line through `a` and `b` nearest to `q`, with the
/// projection parameter clamped to the segment and the result rounded to
/// the grid (truncating towards `a`). Coincident endpoints yield `a`.
pub open spec fn split_point(a: Point, b: Point, q: Point) -> Point {
    let dx = b.x - a.x;
    let dy = b.y - a.y;
    let den = dx * dx + dy * dy;
    if den == 0 {
        a
    } else {
        let num0 = (q.x - a.x) * dx + (q.y - a.y) * dy;
        let num = if num0 < 0 {
            0
        } else if num0 > den {
            den
        } else {
            num0
        };
        let ox = if dx >= 0 {
            (num * dx) / den
        } else {
            -((num * (0 - dx)) / den)
        };
        let oy = if dy >= 0 {
            (num * dy) / den
        } else {
            -((num * (0 - dy)) / den)
        };
        Point { x: (a.x + ox) as i64, y: (a.y + oy) as i64 }
    }
}

/// `0 <= (num * w) / den <= w` for `0 <= num <= den`, `0 < den`, `0 <= w`.
pub proof fn lemma_scaled_div_bounds(num: int, w: int, den: int)
    requires
        0 <= num <= den,
        0 < den,
        0 <= w,
    ensures
        0 <= (num * w) / den <= w,
{
    lemma_mul_bound(num, w, den, w);
    vstd::arithmetic::div_mod::lemma_div_pos_is_pos(num * w, den);
    vstd::arithmetic::div_mod::lemma_div_is_ordered(num * w, den * w, den);
    vstd::arithmetic::div_mod::lemma_div_multiples_vanish(w, den);
    assert(den * w == w * den) by (nonlinear_arith);
    assert((den * w) / den == w);
}

/// Computes `split_point` exactly, free of overflow, with the result on the
/// bounding box of `a` and `b`.
pub fn project_to_line(q: Point, a: Point, b: Point) -> (r: Point)
    requires
        q.wf(),
        a.wf(),
        b.wf(),
    ensures
        r == split_point(a, b, q),
        r.wf(),
        a.x <= r.x <= b.x || b.x <= r.x <= a.x,
        a.y <= r.y <= b.y || b.y <= r.y <= a.y,
{
    let dx: i128 = b.x as i128 - a.x as i128;
    let dy: i128 = b.y as i128 - a.y as i128;
    proof {
        lemma_mul_bound(dx as int, dx as int, 200_000_000, 200_000_000);
        lemma_mul_bound(dy as int, dy as int, 200_000_000, 200_000_000);
    }
    let den: i128 = dx * dx + dy * dy;
    if den == 0 {
        proof {
            assert(dx * dx >= 0 && dy * dy >= 0) by (nonlinear_arith);
            assert(dx == 0 && dy == 0) by (nonlinear_arith)
                requires
                    dx * dx + dy * dy == 0,
            ;
        }
        return Point { x: a.x, y: a.y };
    }
    proof {
        assert(dx * dx >= 0 && dy * dy >= 0) by (nonlinear_arith);
    }
    let qax: i128 = q.x as i128 - a.x as i128;
    let qay: i128 = q.y as i128 - a.y as i128;
    proof {
        lemma_mul_bound(qax as int, dx as int, 200_000_000, 200_000_000);
        lemma_mul_bound(qay as int, dy as int, 200_000_000, 200_000_000);
    }
    let num0: i128 = qax * dx + qay * dy;
    let num: i128 = if num0 < 0 {
        0
    } else if num0 > den {
        den
    } else {
        num0
    };
    let adx: i128 = if dx >= 0 {
        dx
    } else {
        -dx
    };
    let ady: i128 = if dy >= 0 {
        dy
    } else {
        -dy
    };
    proof {
        lemma_mul_bound(num as int, adx as int, 80_000_000_000_000_000, 200_000_000);
        lemma_mul_bound(num as int, ady as int, 80_000_000_000_000_000, 200_000_000);
        lemma_scaled_div_bounds(num as int, adx as int, den as int);
        lemma_scaled_div_bounds(num as int, ady as int, den as int);
    }
    let oxm: u128 = ((num * adx) as u128) / (den as u128);
    let oym: u128 = ((num * ady) as u128) / (den as u128);
    let ox: i128 = if dx >= 0 {
        oxm as i128
    } else {
        -(oxm as i128)
    };
    let oy: i128 = if dy >= 0 {
        oym as i128
    } else {
        -(oym as i128)
    };
    let rx: i64 = (a.x as i128 + ox) as i64;
    let ry: i64 = (a.y as i128 + oy) as i64;
    Point { x: rx, y: ry }
}

/// The crossing point of two properly crossing segments, rounded to the
/// grid: `e1.0 + u * (e1.1 - e1.0)` with the exact rational parameter `u`
/// truncated towards `e1.0` in each coordinate. The parameter is clamped to
/// the segment, which never takes effect on a proper crossing.
pub open spec fn crossing_point(a: Point, b: Point, c: Point, d: Point) -> Point {
    let n = param_num(a, b, c, d);
    let den = param_den(a, b, c, d);
    let nn = if den < 0 {
        -n
    } else {
        n
    };
    let dd = if den < 0 {
        -den
    } else {
        den
    };
    let num = if nn < 0 {
        0
    } else if nn > dd {
        dd
    } else {
        nn
    };
    let dx = b.x - a.x;
    let dy = b.y - a.y;
    let ox = if dx >= 0 {
        (num * dx) / dd
    } else {
        -((num * (0 - dx)) / dd)
    };
    let oy = if dy >= 0 {
        (num * dy) / dd
    } else {
        -((num * (0 - dy)) / dd)
    };
    Point { x: (a.x + ox) as i64, y: (a.y + oy) as i64 }
}

/// The grid point where the open segments `e1` and `e2` properly cross, or
/// `None` when they do not.
pub fn intersection_point(e1: (Point, Point), e2: (Point, Point)) -> (r: Option<Point>)
    requires
        e1.0.wf(),
        e1.1.wf(),
        e2.0.wf(),
        e2.1.wf(),
    ensures
        r is Some <==> proper_crossing(e1.0, e1.1, e2.0, e2.1),
        r is Some ==> r->Some_0 == crossing_point(e1.0, e1.1, e2.0, e2.1) && r->Some_0.wf(),
{
    if !is_crossing(e1, e2) {
        return None;
    }
    let (a, b) = e1;
    let (c, d) = e2;
    let n: i128 = cross2_exec(
        c.x as i128 - a.x as i128,
        c.y as i128 - a.y as i128,
        d.x as i128 - c.x as i128,
        d.y as i128 - c.y as i128,
    );
    let den: i128 = cross2_exec(
        b.x as i128 - a.x as i128,
        b.y as i128 - a.y as i128,
        d.x as i128 - c.x as i128,
        d.y as i128 - c.y as i128,
    );
    let nn: i128 = if den < 0 {
        -n
    } else {
        n
    };
    let dd: i128 = if den < 0 {
        -den
    } else {
        den
    };
    if dd == 0 {
        proof {
            // the denominator is the difference of the two strict side
            // tests, so a proper crossing cannot make it vanish
            assert(param_den(a, b, c, d) == ccw_val(a, b, d) - ccw_val(a, b, c))
                by (nonlinear_arith);
        }
        return Some(Point { x: a.x, y: a.y });
    }
    let num: i128 = if nn < 0 {
        0
    } else if nn > dd {
        dd
    } else {
        nn
    };
    let dx: i128 = b.x as i128 - a.x as i128;
    let dy: i128 = b.y as i128 - a.y as i128;
    let adx: i128 = if dx >= 0 {
        dx
    } else {
        -dx
    };
    let ady: i128 = if dy >= 0 {
        dy
    } else {
        -dy
    };
    proof {
        lemma_mul_bound(num as int, adx as int, 800_000_000_000_000_000, 200_000_000);
        lemma_mul_bound(num as int, ady as int, 800_000_000_000_000_000, 200_000_000);
        lemma_scaled_div_bounds(num as int, adx as int, dd as int);
        lemma_scaled_div_bounds(num as int, ady as int, dd as int);
    }
    let oxm: u128 = ((num * adx) as u128) / (dd as u128);
    let oym: u128 = ((num * ady) as u128) / (dd as u128);
    let ox: i128 = if dx >= 0 {
        oxm as i128
    } else {
        -(oxm as i128)
    };
    let oy: i128 = if dy >= 0 {
        oym as i128
    } else {
        -(oym as i128)
    };
    Some(Point { x: (a.x as i128 + ox) as i64, y: (a.y as i128 + oy) as i64 })
}

/// Point-in-triangle containment for a bare triangle of grid points.
pub trait FastLocate {
    /// The closed-containment specification.
    spec fn locate_point_spec(&self, p: Point) -> bool;

    /// Executable containment test, pinned to the specification.
    fn locate_point(&self, p: &Point) -> (r: bool)
        ensures
            r == self.locate_point_spec(*p),
    ;
}

impl FastLocate for (Point, Point, Point) {
    open spec fn locate_point_spec(&self, p: Point) -> bool {
        &&& self.0.wf()
        &&& self.1.wf()
        &&& self.2.wf()
        &&& p.wf()
        &&& in_face_closed(self.0, self.1, self.2, p)
    }

    fn locate_point(&self, p: &Point) -> (r: bool) {
        self.0.in_range() && self.1.in_range() && self.2.in_range() && p.in_range()
            && point_in_triangle_closed(self.0, self.1, self.2, *p)
    }
}

/// Orthogonal projection of a point onto the line of a segment.
pub trait ProjectToLine {
    /// The projected grid point, clamped to the segment.
    spec fn project_to_line_spec(&self, line: (Point, Point)) -> Point;

    /// Executable projection, pinned to the specification.
    fn project_onto(&self, line: &(Point, Point)) -> (r: Point)
        ensures
            r == self.project_to_line_spec(*line),
    ;
}

impl ProjectToLine for Point {
    open spec fn project_to_line_spec(&self, line: (Point, Point)) -> Point {
        if self.wf() && line.0.wf() && line.1.wf() {
            split_point(line.0, line.1, *self)
        } else {
            *self
        }
    }

    fn project_onto(&self, line: &(Point, Point)) -> (r: Point) {
        if self.in_range() && line.0.in_range() && line.1.in_range() {
            project_to_line(*self, line.0, line.1)
        } else {
            *self
        }
    }
}

/// Classification of `p` against the triangle `(a, b, c)` by the exact
/// signs of the three side cross products: strictly inside, on a side, on
/// every side's line at once, or outside.
pub open spec fn face_locate_spec(a: Point, b: Point, c: Point, p: Point) -> FaceLocateResult {
    let c1 = cross2(b.x - a.x, b.y - a.y, p.x - a.x, p.y - a.y);
    let c2 = cross2(c.x - b.x, c.y - b.y, p.x - b.x, p.y - b.y);
    let c3 = cross2(a.x - c.x, a.y - c.y, p.x - c.x, p.y - c.y);
    if c1 > 0 && c2 > 0 && c3 > 0 {
        FaceLocateResult::Face
    } else if c1 == 0 && c2 == 0 && c3 == 0 {
        FaceLocateResult::Vertex
    } else if c1 == 0 || c2 == 0 || c3 == 0 {
        FaceLocateResult::Edge
    } else {
        FaceLocateResult::Outside
    }
}

/// Exact executable form of `face_locate_spec`.
pub fn is_point_in_triangle(a: &Point, b: &Point, c: &Point, p: &Point) -> (r: FaceLocateResult)
    requires
        a.wf(),
        b.wf(),
        c.wf(),
        p.wf(),
    ensures
        r == face_locate_spec(*a, *b, *c, *p),
{
    let c1 = cross2_exec(
        b.x as i128 - a.x as i128,
        b.y as i128 - a.y as i128,
        p.x as i128 - a.x as i128,
        p.y as i128 - a.y as i128,
    );
    let c2 = cross2_exec(
        c.x as i128 - b.x as i128,
        c.y as i128 - b.y as i128,
        p.x as i128 - b.x as i128,
        p.y as i128 - b.y as i128,
    );
    let c3 = cross2_exec(
        a.x as i128 - c.x as i128,
        a.y as i128 - c.y as i128,
        p.x as i128 - c.x as i128,
        p.y as i128 - c.y as i128,
    );
    if c1 > 0 && c2 > 0 && c3 > 0 {
        FaceLocateResult::Face
    } else if c1 == 0 && c2 == 0 && c3 == 0 {
        FaceLocateResult::Vertex
    } else if c1 == 0 || c2 == 0 || c3 == 0 {
        FaceLocateResult::Edge
    } else {
        FaceLocateResult::Outside
    }
}

/// Exact proper-crossing test for two segments given as endpoint pairs.
pub fn is_crossing(e1: (Point, Point), e2: (Point, Point)) -> (r: bool)
    requires
        e1.0.wf(),
        e1.1.wf(),
        e2.0.wf(),
        e2.1.wf(),
    ensures
        r == proper_crossing(e1.0, e1.1, e2.0, e2.1),
{
    let s1 = ccw(e1.0, e1.1, e2.0);
    let s2 = ccw(e1.0, e1.1, e2.1);
    let s3 = ccw(e2.0, e2.1, e1.0);
    let s4 = ccw(e2.0, e2.1, e1.1);
    ((s1 > 0 && s2 < 0) || (s1 < 0 && s2 > 0)) && ((s3 > 0 && s4 < 0) || (s3 < 0 && s4 > 0))
}

} // verus!
