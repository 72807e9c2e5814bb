use vstd::prelude::*;

verus! {

/// Largest magnitude of a stored position coordinate.
pub const POS_LIMIT: i64 = 1_099_511_627_776;

/// Largest stored width or height.
pub const SIZE_LIMIT: i64 = 1_073_741_824;

/// A point on the canvas, in pixels.
#[derive(Debug, Clone, Copy, PartialEq, Eq, Structural)]
pub struct Pos2 {
    pub x: i64,
    pub y: i64,
}

/// A width and height (or a displacement), in pixels.
#[derive(Debug, Clone, Copy, PartialEq, Eq, Structural)]
pub struct Vec2 {
    pub x: i64,
    pub y: i64,
}

/// An axis-aligned rectangle given by its two corners.
#[derive(Debug, Clone, Copy, PartialEq, Eq, Structural)]
pub struct Rect {
    pub min: Pos2,
    pub max: Pos2,
}

pub open spec fn coord_in_range(v: int) -> bool {
    -POS_LIMIT <= v <= POS_LIMIT
}

/// `v` moved into the stored coordinate range.
pub open spec fn clamp_pos(v: int) -> int {
    if v < -POS_LIMIT {
        -POS_LIMIT as int
    } else if v > POS_LIMIT {
        POS_LIMIT as int
    } else {
        v
    }
}

/// `v` rounded to the nearest multiple of `g`, halves rounded away from zero.
pub open spec fn round_to_multiple(v: int, g: int) -> int {
    if v >= 0 {
        ((2 * v + g) / (2 * g)) * g
    } else {
        -(((-2 * v + g) / (2 * g)) * g)
    }
}

impl Pos2 {
    pub open spec fn valid(&self) -> bool {
        coord_in_range(self.x as int) && coord_in_range(self.y as int)
    }

    pub fn new(x: i64, y: i64) -> (r: Pos2)
        ensures
            r.x == x,
            r.y == y,
    {
        Pos2 { x, y }
    }
}

impl Vec2 {
    /// Both extents are positive and at most `SIZE_LIMIT`.
    pub open spec fn valid_size(&self) -> bool {
        0 < self.x <= SIZE_LIMIT && 0 < self.y <= SIZE_LIMIT
    }

    pub fn new(x: i64, y: i64) -> (r: Vec2)
        ensures
            r.x == x,
            r.y == y,
    {
        Vec2 { x, y }
    }
}

/// Moves `v` into the stored coordinate range.
pub fn clamp_coord(v: i128) -> (r: i64)
    ensures
        r == clamp_pos(v as int),
        coord_in_range(r as int),
{
    if v < -(POS_LIMIT as i128) {
        -POS_LIMIT
    } else if v > POS_LIMIT as i128 {
        POS_LIMIT
    } else {
        v as i64
    }
}

/// Rounds `v` to the nearest multiple of `g`, halves away from zero.
pub fn round_coord(v: i64, g: i64) -> (r: i64)
    requires
        coord_in_range(v as int),
        0 < g <= SIZE_LIMIT,
    ensures
        r == clamp_pos(round_to_multiple(v as int, g as int)),
{
    let gg: u128 = 2 * (g as u128);
    if v >= 0 {
        let q: u128 = (2 * (v as u128) + g as u128) / gg;
        proof {
            assert(q as int == (2 * v + g) / (2 * g));
            assert(q <= 2 * v + g) by (nonlinear_arith)
                requires q as int == (2 * v + g) / (2 * g), g > 0, v >= 0;
            assert(q * g <= (2 * v + g) * g) by (nonlinear_arith)
                requires q <= 2 * v + g, g > 0;
            assert((2 * v + g) * g <= (2 * POS_LIMIT + SIZE_LIMIT) * SIZE_LIMIT) by (nonlinear_arith)
                requires 0 <= v <= POS_LIMIT, 0 < g <= SIZE_LIMIT;
        }
        clamp_coord((q * (g as u128)) as i128)
    } else {
        let q: u128 = (2 * ((-(v as i128)) as u128) + g as u128) / gg;
        proof {
            assert(q as int == (-2 * v + g) / (2 * g));
            assert(q <= -2 * v + g) by (nonlinear_arith)
                requires q as int == (-2 * v + g) / (2 * g), g > 0, v < 0;
            assert(q * g <= (-2 * v + g) * g) by (nonlinear_arith)
                requires q <= -2 * v + g, g > 0;
            assert((-2 * v + g) * g <= (2 * POS_LIMIT + SIZE_LIMIT) * SIZE_LIMIT) by (nonlinear_arith)
                requires -POS_LIMIT <= v < 0, 0 < g <= SIZE_LIMIT;
        }
        clamp_coord(-((q * (g as u128)) as i128))
    }
}

/// `a / d` rounded down, for a positive `d`.
pub fn floor_div(a: i128, d: i128) -> (r: i128)
    requires
        d > 0,
        -0x1000_0000_0000_0000_0000_0000_0000 < a < 0x1000_0000_0000_0000_0000_0000_0000,
        d < 0x1000_0000_0000_0000_0000_0000_0000,
    ensures
        r == a as int / d as int,
{
    if a >= 0 {
        let q = (a as u128) / (d as u128);
        q as i128
    } else {
        let na: u128 = (-a) as u128;
        let t: u128 = na + (d as u128) - 1;
        let q: u128 = t / (d as u128);
        proof {
            vstd::arithmetic::div_mod::lemma_fundamental_div_mod(t as int, d as int);
            let rr = (t as int) % (d as int);
            assert(0 <= rr < d);
            assert(t as int == d * q + rr);
            assert(q <= t) by (nonlinear_arith)
                requires t as int == d * q + rr, rr >= 0, d > 0, q >= 0;
            assert(a as int == (-(q as int)) * d + (d - 1 - rr)) by (nonlinear_arith)
                requires t as int == d * q + rr, t as int == -(a as int) + d - 1;
            vstd::arithmetic::div_mod::lemma_fundamental_div_mod_converse(
                a as int, d as int, -(q as int), d - 1 - rr);
        }
        -(q as i128)
    }
}

impl Rect {
    pub fn from_min_size(min: Pos2, size: Vec2) -> (r: Rect)
        requires
            min.valid(),
            size.valid_size(),
        ensures
            r.min == min,
            r.max.x == min.x + size.x,
            r.max.y == min.y + size.y,
    {
        Rect { min, max: Pos2 { x: min.x + size.x, y: min.y + size.y } }
    }

    /// The two rectangles share positive area; touching edges do not count.
    pub open spec fn spec_intersects(self, other: Rect) -> bool {
        &&& self.min.x < other.max.x
        &&& other.min.x < self.max.x
        &&& self.min.y < other.max.y
        &&& other.min.y < self.max.y
    }

    pub fn intersects(&self, other: &Rect) -> (r: bool)
        ensures
            r == self.spec_intersects(*other),
    {
        self.min.x < other.max.x && other.min.x < self.max.x && self.min.y < other.max.y
            && other.min.y < self.max.y
    }
}

/// Overlap does not depend on the order of the two rectangles.
pub proof fn lemma_intersects_symmetric(a: Rect, b: Rect)
    ensures
        a.spec_intersects(b) == b.spec_intersects(a),
{
}

/// Rectangles that meet only along an edge (one's right or bottom edge is the
/// other's left or top edge) do not intersect.
pub proof fn lemma_shared_edge_not_intersecting(a: Rect, b: Rect)
    requires
        a.max.x == b.min.x || a.max.y == b.min.y,
    ensures
        !a.spec_intersects(b),
        !b.spec_intersects(a),
{
}

} // verus!
