use vstd::prelude::*;

verus! {

/// A point in map-local coordinates.
#[derive(Clone, Copy, Debug, PartialEq, Eq, Structural)]
pub struct Pt2D {
    pub x: i32,
    pub y: i32,
}

/// A closed ring of points; the last point connects back to the first.
#[derive(Clone, Debug)]
pub struct Polygon {
    pub points: Vec<Pt2D>,
}

/// Does the horizontal ray from `p` towards +x cross the edge from `a` to `b`?
/// An edge counts when exactly one of its ends lies strictly above `p`, and its
/// crossing with the ray lies strictly to the right of `p`.
pub open spec fn edge_crosses(a: Pt2D, b: Pt2D, p: Pt2D) -> bool {
    let (ax, ay, bx, by, px, py) = (a.x as int, a.y as int, b.x as int, b.y as int, p.x as int, p.y as int);
    ((ay > py) != (by > py)) && if by > ay {
        (px - ax) * (by - ay) < (py - ay) * (bx - ax)
    } else {
        (px - ax) * (by - ay) > (py - ay) * (bx - ax)
    }
}

/// The end of edge `i` of a ring: the next point, wrapping back to the first.
pub open spec fn ring_next(pts: Seq<Pt2D>, i: int) -> Pt2D {
    if i + 1 == pts.len() {
        pts[0]
    } else {
        pts[i + 1]
    }
}

/// How many of the first `n` edges of the ring the ray from `p` crosses.
pub open spec fn crossings(pts: Seq<Pt2D>, p: Pt2D, n: int) -> nat
    decreases n,
{
    if n <= 0 {
        0
    } else {
        crossings(pts, p, n - 1) + if edge_crosses(pts[n - 1], ring_next(pts, n - 1), p) {
            1nat
        } else {
            0nat
        }
    }
}

/// `p` lies on the segment from `a` to `b`: on its line, within its box.
pub open spec fn on_segment(a: Pt2D, b: Pt2D, p: Pt2D) -> bool {
    let (ax, ay, bx, by, px, py) = (a.x as int, a.y as int, b.x as int, b.y as int, p.x as int, p.y as int);
    &&& (bx - ax) * (py - ay) == (by - ay) * (px - ax)
    &&& (ax <= px <= bx || bx <= px <= ax)
    &&& (ay <= py <= by || by <= py <= ay)
}

/// `p` lies on one of the first `n` edges of the ring.
pub open spec fn touches(pts: Seq<Pt2D>, p: Pt2D, n: int) -> bool
    decreases n,
{
    if n <= 0 {
        false
    } else {
        touches(pts, p, n - 1) || on_segment(pts[n - 1], ring_next(pts, n - 1), p)
    }
}

/// Point-in-polygon: on the ring, or inside it by ray casting, where the ray
/// crosses the ring an odd number of times.
pub open spec fn polygon_contains(pts: Seq<Pt2D>, p: Pt2D) -> bool {
    touches(pts, p, pts.len() as int) || crossings(pts, p, pts.len() as int) % 2 == 1
}

proof fn lemma_product_fits(a: int, b: int)
    requires
        -0x1_0000_0000 <= a <= 0x1_0000_0000,
        -0x1_0000_0000 <= b <= 0x1_0000_0000,
    ensures
        -0x1_0000_0000_0000_0000 <= a * b <= 0x1_0000_0000_0000_0000,
{
    assert(-0x1_0000_0000_0000_0000 <= a * b <= 0x1_0000_0000_0000_0000) by (nonlinear_arith)
        requires
            -0x1_0000_0000 <= a <= 0x1_0000_0000,
            -0x1_0000_0000 <= b <= 0x1_0000_0000,
    ;
}

fn edge_crosses_exec(a: Pt2D, b: Pt2D, p: Pt2D) -> (r: bool)
    ensures
        r == edge_crosses(a, b, p),
{
    if (a.y > p.y) == (b.y > p.y) {
        return false;
    }
    let dx_p = p.x as i128 - a.x as i128;
    let dy_e = b.y as i128 - a.y as i128;
    let dy_p = p.y as i128 - a.y as i128;
    let dx_e = b.x as i128 - a.x as i128;
    proof {
        lemma_product_fits(dx_p as int, dy_e as int);
        lemma_product_fits(dy_p as int, dx_e as int);
    }
    let lhs = dx_p * dy_e;
    let rhs = dy_p * dx_e;
    if b.y > a.y {
        lhs < rhs
    } else {
        lhs > rhs
    }
}

fn on_segment_exec(a: Pt2D, b: Pt2D, p: Pt2D) -> (r: bool)
    ensures
        r == on_segment(a, b, p),
{
    let dx_e = b.x as i128 - a.x as i128;
    let dy_p = p.y as i128 - a.y as i128;
    let dy_e = b.y as i128 - a.y as i128;
    let dx_p = p.x as i128 - a.x as i128;
    proof {
        lemma_product_fits(dx_e as int, dy_p as int);
        lemma_product_fits(dy_e as int, dx_p as int);
    }
    dx_e * dy_p == dy_e * dx_p && ((a.x <= p.x && p.x <= b.x) || (b.x <= p.x && p.x <= a.x)) && ((
    a.y <= p.y && p.y <= b.y) || (b.y <= p.y && p.y <= a.y))
}

impl Polygon {
    pub fn new(points: Vec<Pt2D>) -> (r: Polygon)
        ensures
            r.points@ == points@,
    {
        Polygon { points }
    }

    /// Containment test: points on the ring count as inside.
    pub fn contains_pt(&self, p: Pt2D) -> (r: bool)
        ensures
            r == polygon_contains(self.points@, p),
    {
        let n = self.points.len();
        let mut inside = false;
        let mut on_ring = false;
        let mut i: usize = 0;
        while i < n
            invariant
                n == self.points@.len(),
                i <= n,
                inside == (crossings(self.points@, p, i as int) % 2 == 1),
                on_ring == touches(self.points@, p, i as int),
            decreases n - i,
        {
            let a = self.points[i];
            let b = if i + 1 == n {
                self.points[0]
            } else {
                self.points[i + 1]
            };
            if edge_crosses_exec(a, b, p) {
                inside = !inside;
            }
            if on_segment_exec(a, b, p) {
                on_ring = true;
            }
            i = i + 1;
        }
        on_ring || inside
    }
}

/// The axis-aligned rectangle from the origin to `(w, h)`, closed by repeating
/// its first corner.
pub open spec fn rectangle_ring(w: i32, h: i32) -> Seq<Pt2D> {
    seq![
        Pt2D { x: 0, y: 0 },
        Pt2D { x: w, y: 0 },
        Pt2D { x: w, y: h },
        Pt2D { x: 0, y: h },
        Pt2D { x: 0, y: 0 },
    ]
}

/// Every point of the closed box `[0, w] x [0, h]` lies inside the rectangle
/// ring from the origin to `(w, h)`.
pub proof fn lemma_rectangle_contains(w: i32, h: i32, p: Pt2D)
    requires
        0 <= p.x <= w,
        0 <= p.y <= h,
    ensures
        polygon_contains(rectangle_ring(w, h), p),
{
    let pts = rectangle_ring(w, h);
    reveal_with_fuel(crossings, 6);
    reveal_with_fuel(touches, 6);
    if p.x == w {
        assert(on_segment(pts[1], ring_next(pts, 1), p)) by (nonlinear_arith)
            requires
                pts[1] == (Pt2D { x: w, y: 0 }),
                ring_next(pts, 1) == (Pt2D { x: w, y: h }),
                p.x == w,
                0 <= p.y <= h,
        ;
    } else if p.y == h {
        assert(on_segment(pts[2], ring_next(pts, 2), p)) by (nonlinear_arith)
            requires
                pts[2] == (Pt2D { x: w, y: h }),
                ring_next(pts, 2) == (Pt2D { x: 0, y: h }),
                p.y == h,
                0 <= p.x <= w,
        ;
    } else {
        assert(!edge_crosses(pts[0], ring_next(pts, 0), p));
        assert(edge_crosses(pts[1], ring_next(pts, 1), p)) by (nonlinear_arith)
            requires
                pts[1] == (Pt2D { x: w, y: 0 }),
                ring_next(pts, 1) == (Pt2D { x: w, y: h }),
                0 <= p.x < w,
                0 <= p.y < h,
        ;
        assert(!edge_crosses(pts[2], ring_next(pts, 2), p));
        assert(!edge_crosses(pts[3], ring_next(pts, 3), p)) by (nonlinear_arith)
            requires
                pts[3] == (Pt2D { x: 0, y: h }),
                ring_next(pts, 3) == (Pt2D { x: 0, y: 0 }),
                0 <= p.x < w,
                0 <= p.y < h,
        ;
        assert(!edge_crosses(pts[4], ring_next(pts, 4), p));
    }
}

} // verus!
