//! Fixed-point plane geometry: points, squared distances, circles, integer
//! square roots and direction vectors.
use vstd::prelude::*;

verus! {

/// Sub-units per length unit.
pub const UNIT: i64 = 1000;

/// Largest coordinate of any arena, in sub-units.
pub const MAX_COORD: i64 = 0x4000_0000;

/// `r` is the integer square root of `n`: the largest `r` with `r * r <= n`.
pub open spec fn is_sqrt(n: nat, r: nat) -> bool {
    r * r <= n && n < (r + 1) * (r + 1)
}

/// The integer square root, counted up from zero.
pub open spec fn sqrt_floor(n: nat) -> nat
    decreases n,
{
    if n == 0 {
        0
    } else {
        let r = sqrt_floor((n - 1) as nat);
        if (r + 1) * (r + 1) <= n {
            r + 1
        } else {
            r
        }
    }
}

pub proof fn lemma_sqrt_floor(n: nat)
    ensures
        is_sqrt(n, sqrt_floor(n)),
    decreases n,
{
    if n > 0 {
        lemma_sqrt_floor((n - 1) as nat);
        let r = sqrt_floor((n - 1) as nat);
        if (r + 1) * (r + 1) <= n {
            assert(sqrt_floor(n) == r + 1);
            assert((r + 1) * (r + 1) <= n && n < (r + 2) * (r + 2)) by (nonlinear_arith)
                requires
                    (r + 1) * (r + 1) <= n,
                    n - 1 < (r + 1) * (r + 1),
            ;
        } else {
            assert(sqrt_floor(n) == r);
            assert(is_sqrt(n, r));
        }
    } else {
        assert(is_sqrt(0, 0)) by (nonlinear_arith);
    }
}

pub proof fn lemma_sqrt_unique(n: nat, a: nat, b: nat)
    requires
        is_sqrt(n, a),
        is_sqrt(n, b),
    ensures
        a == b,
{
    if a < b {
        assert((a + 1) * (a + 1) <= b * b) by (nonlinear_arith)
            requires
                a + 1 <= b,
        ;
    }
    if b < a {
        assert((b + 1) * (b + 1) <= a * a) by (nonlinear_arith)
            requires
                b + 1 <= a,
        ;
    }
}

/// The integer square root never decreases as its argument grows.
pub proof fn lemma_sqrt_monotonic(m: nat, n: nat)
    requires
        m <= n,
    ensures
        sqrt_floor(m) <= sqrt_floor(n),
{
    lemma_sqrt_floor(m);
    lemma_sqrt_floor(n);
    let a = sqrt_floor(m);
    let b = sqrt_floor(n);
    if b < a {
        assert((b + 1) * (b + 1) <= a * a) by (nonlinear_arith)
            requires
                b + 1 <= a,
        ;
    }
}

/// Integer square root by bisection.
pub fn isqrt(n: u128) -> (r: u128)
    requires
        n < 0x100_0000_0000_0000_0000_0000_0000_0000u128,
    ensures
        r == sqrt_floor(n as nat),
        r <= 0x1000_0000_0000_0000u128,
{
    let mut lo: u128 = 0;
    let mut hi: u128 = 0x1000_0000_0000_0000u128;
    assert(hi * hi == 0x100_0000_0000_0000_0000_0000_0000_0000u128);
    while lo + 1 < hi
        invariant
            lo < hi,
            hi <= 0x1000_0000_0000_0000u128,
            lo * lo <= n,
            n < hi * hi,
        decreases hi - lo,
    {
        let mid: u128 = lo + (hi - lo) / 2;
        assert(mid * mid <= 0x100_0000_0000_0000_0000_0000_0000_0000u128) by (nonlinear_arith)
            requires
                mid <= 0x1000_0000_0000_0000u128,
        ;
        if mid * mid <= n {
            lo = mid;
        } else {
            hi = mid;
        }
    }
    proof {
        assert(is_sqrt(n as nat, lo as nat));
        lemma_sqrt_floor(n as nat);
        lemma_sqrt_unique(n as nat, lo as nat, sqrt_floor(n as nat));
    }
    lo
}


/// A point of the arena, in sub-units.
#[derive(Clone, Copy, Debug, PartialEq, Eq, Structural)]
pub struct Pos {
    pub x: i64,
    pub y: i64,
}

/// A direction, scaled so that a unit vector has length `UNIT`.
#[derive(Clone, Copy, Debug, PartialEq, Eq, Structural)]
pub struct Vec2 {
    pub x: i64,
    pub y: i64,
}

impl Pos {
    /// Both coordinates lie in `[0, MAX_COORD]`.
    pub open spec fn wf(self) -> bool {
        0 <= self.x <= MAX_COORD && 0 <= self.y <= MAX_COORD
    }

    pub fn new(x: i64, y: i64) -> (r: Pos)
        ensures
            r == (Pos { x, y }),
    {
        Pos { x, y }
    }
}

impl Vec2 {
    /// Each component lies in `[-UNIT, UNIT]`.
    pub open spec fn wf(self) -> bool {
        -UNIT <= self.x <= UNIT && -UNIT <= self.y <= UNIT
    }
}

pub open spec fn dist2(a: Pos, b: Pos) -> int {
    (a.x - b.x) * (a.x - b.x) + (a.y - b.y) * (a.y - b.y)
}

proof fn lemma_square_bound(d: int)
    requires
        -MAX_COORD <= d <= MAX_COORD,
    ensures
        0 <= d * d <= MAX_COORD * MAX_COORD,
{
    assert(0 <= d * d <= MAX_COORD * MAX_COORD) by (nonlinear_arith)
        requires
            -MAX_COORD <= d <= MAX_COORD,
    ;
}

/// Squared Euclidean distance between two arena points.
pub fn distance_sq(a: Pos, b: Pos) -> (r: i64)
    requires
        a.wf(),
        b.wf(),
    ensures
        r == dist2(a, b),
        0 <= r <= 2 * MAX_COORD * MAX_COORD,
{
    let dx = a.x - b.x;
    let dy = a.y - b.y;
    proof {
        lemma_square_bound(dx as int);
        lemma_square_bound(dy as int);
    }
    dx * dx + dy * dy
}

/// A query region: a closed disc given by its squared radius, or a closed
/// axis-aligned rectangle.
#[derive(Clone, Copy, Debug, PartialEq, Eq, Structural)]
pub enum Shape {
    Circle { center: Pos, radius_sq: i64 },
    Rect { min: Pos, max: Pos },
}

impl Shape {
    pub open spec fn wf(self) -> bool {
        match self {
            Shape::Circle { center, radius_sq } => center.wf(),
            Shape::Rect { min, max } => true,
        }
    }

    pub open spec fn holds(self, p: Pos) -> bool {
        match self {
            Shape::Circle { center, radius_sq } => dist2(center, p) <= radius_sq,
            Shape::Rect { min, max } => min.x <= p.x <= max.x && min.y <= p.y <= max.y,
        }
    }

    /// The disc of the given radius around `center`.
    pub fn circle(center: Pos, radius: i64) -> (r: Shape)
        requires
            0 <= radius <= MAX_COORD,
        ensures
            r == (Shape::Circle { center, radius_sq: (radius * radius) as i64 }),
    {
        proof {
            lemma_square_bound(radius as int);
        }
        Shape::Circle { center, radius_sq: radius * radius }
    }

    pub fn contains(&self, p: Pos) -> (r: bool)
        requires
            self.wf(),
            p.wf(),
        ensures
            r == self.holds(p),
    {
        match self {
            Shape::Circle { center, radius_sq } => distance_sq(*center, p) <= *radius_sq,
            Shape::Rect { min, max } => min.x <= p.x && p.x <= max.x && min.y <= p.y && p.y
                <= max.y,
        }
    }
}

/// `a * m / d` rounded toward zero.
pub open spec fn scale_div(a: int, m: int, d: int) -> int {
    if a >= 0 {
        (a * m) / d
    } else {
        -(((-a) * m) / d)
    }
}

/// Largest component of a sum of offsets that `normalize` accepts.
pub const MAX_OFFSET_SUM: i64 = 0x2_0000_0000_0000;

/// Length of `(x, y)` in sub-units of its own unit: the integer square root
/// of the squared length of `(x * UNIT, y * UNIT)`.
pub open spec fn norm(x: int, y: int) -> nat {
    sqrt_floor(((x * UNIT) * (x * UNIT) + (y * UNIT) * (y * UNIT)) as nat)
}

/// `(x, y)` scaled to length `UNIT`; the zero vector has no direction.
pub open spec fn unit_vector(x: int, y: int) -> Option<Vec2> {
    if x == 0 && y == 0 {
        None
    } else {
        Some(
            Vec2 {
                x: scale_div(x * UNIT, UNIT as int, norm(x, y) as int) as i64,
                y: scale_div(y * UNIT, UNIT as int, norm(x, y) as int) as i64,
            },
        )
    }
}

/// `v` is the direction of some non-zero vector, scaled to length `UNIT`.
pub open spec fn is_direction(v: Vec2) -> bool {
    exists|x: int, y: int| !(x == 0 && y == 0) && unit_vector(x, y) == Some(v)
}

/// The direction along the positive x axis.
pub proof fn lemma_x_axis_direction()
    ensures
        is_direction(Vec2 { x: UNIT, y: 0 }),
{
    lemma_sqrt_floor(1000000);
    assert(is_sqrt(1000000, 1000)) by (nonlinear_arith);
    lemma_sqrt_unique(1000000, 1000, sqrt_floor(1000000));
    assert((1 * UNIT as int) * (1 * UNIT as int) + (0 * UNIT as int) * (0 * UNIT as int)
        == 1000000) by (nonlinear_arith)
        requires
            UNIT == 1000,
    ;
    assert(norm(1, 0) == 1000);
    assert(scale_div(1000, 1000, 1000) == 1000);
    assert(scale_div(0, 1000, 1000) == 0);
    assert(unit_vector(1, 0) == Some(Vec2 { x: UNIT, y: 0 }));
}

proof fn lemma_unit_vector_in_range(x: int, y: int)
    requires
        !(x == 0 && y == 0),
    ensures
        norm(x, y) >= 1,
        -UNIT <= scale_div(x * UNIT, UNIT as int, norm(x, y) as int) <= UNIT,
        -UNIT <= scale_div(y * UNIT, UNIT as int, norm(x, y) as int) <= UNIT,
{
    let a = x * UNIT;
    let b = y * UNIT;
    let n = norm(x, y);
    lemma_sqrt_floor((a * a + b * b) as nat);
    assert(a * a >= 0 && b * b >= 0) by (nonlinear_arith);
    lemma_component_within_norm(a, b, n);
    assert(a * a + b * b == b * b + a * a);
    lemma_component_within_norm(b, a, n);
    if n == 0 {
        assert(a == 0 && b == 0);
        assert(x == 0 && y == 0) by (nonlinear_arith)
            requires
                x * UNIT == 0,
                y * UNIT == 0,
                UNIT == 1000,
        ;
    }
    lemma_scale_div_bound(a, UNIT as int, n as int);
    lemma_scale_div_bound(b, UNIT as int, n as int);
}

proof fn lemma_scale_div_neg(a: int, m: int, d: int)
    requires
        d > 0,
    ensures
        scale_div(-a, m, d) == -scale_div(a, m, d),
{
    if a == 0 {
        assert(0 * m == 0);
        assert(0int / d == 0);
    }
}

/// Reversing one component of a unit direction gives a unit direction.
pub proof fn lemma_direction_flip(v: Vec2)
    requires
        is_direction(v),
    ensures
        is_direction(Vec2 { x: (-v.x) as i64, y: v.y }),
        is_direction(Vec2 { x: v.x, y: (-v.y) as i64 }),
{
    let (x, y) = choose|x: int, y: int| !(x == 0 && y == 0) && unit_vector(x, y) == Some(v);
    lemma_unit_vector_in_range(x, y);
    assert(norm(-x, y) == norm(x, y)) by {
        assert((-x * UNIT) * (-x * UNIT) == (x * UNIT) * (x * UNIT)) by (nonlinear_arith);
    }
    assert(norm(x, -y) == norm(x, y)) by {
        assert((-y * UNIT) * (-y * UNIT) == (y * UNIT) * (y * UNIT)) by (nonlinear_arith);
    }
    assert(-x * UNIT == -(x * UNIT)) by (nonlinear_arith);
    assert(-y * UNIT == -(y * UNIT)) by (nonlinear_arith);
    lemma_scale_div_neg(x * UNIT, UNIT as int, norm(x, y) as int);
    lemma_scale_div_neg(y * UNIT, UNIT as int, norm(x, y) as int);
    assert(unit_vector(-x, y) == Some(Vec2 { x: (-v.x) as i64, y: v.y }));
    assert(unit_vector(x, -y) == Some(Vec2 { x: v.x, y: (-v.y) as i64 }));
}

proof fn lemma_component_within_norm(a: int, b: int, n: nat)
    requires
        is_sqrt((a * a + b * b) as nat, n),
    ensures
        -n <= a <= n,
{
    assert(a * a <= a * a + b * b) by (nonlinear_arith);
    if a > n {
        assert((n + 1) * (n + 1) <= a * a) by (nonlinear_arith)
            requires
                a >= n + 1,
                n >= 0,
        ;
    }
    if a < -n {
        assert((n + 1) * (n + 1) <= a * a) by (nonlinear_arith)
            requires
                -a >= n + 1,
                n >= 0,
        ;
    }
}

proof fn lemma_scale_div_bound(a: int, m: int, d: int)
    requires
        -d <= a <= d,
        d > 0,
        m >= 0,
    ensures
        -m <= scale_div(a, m, d) <= m,
{
    let b = if a >= 0 { a } else { -a };
    assert(0 <= b * m <= d * m) by (nonlinear_arith)
        requires
            0 <= b <= d,
            m >= 0,
    ;
    assert((b * m) / d <= (d * m) / d) by (nonlinear_arith)
        requires
            0 <= b * m <= d * m,
            d > 0,
    ;
    assert((d * m) / d == m) by (nonlinear_arith)
        requires
            d > 0,
    ;
    assert(0 <= (b * m) / d) by (nonlinear_arith)
        requires
            0 <= b * m,
            d > 0,
    ;
}

/// `a * m / d` rounded toward zero, for `|a| <= d`.
pub fn scale_div_exec(a: i128, m: i128, d: i128) -> (r: i128)
    requires
        -d <= a <= d,
        0 < d <= 0x1000_0000_0000_0000,
        0 <= m <= 0x1000_0000_0000_0000,
    ensures
        r == scale_div(a as int, m as int, d as int),
        -m <= r <= m,
{
    proof {
        lemma_scale_div_bound(a as int, m as int, d as int);
    }
    let b: i128 = if a >= 0 { a } else { -a };
    assert(b * m <= 0x100_0000_0000_0000_0000_0000_0000_0000) by (nonlinear_arith)
        requires
            0 <= b <= 0x1000_0000_0000_0000,
            0 <= m <= 0x1000_0000_0000_0000,
    ;
    let q = (b * m) / d;
    if a >= 0 {
        q
    } else {
        -q
    }
}

/// The direction of `(x, y)` with length `UNIT`, or `None` for the zero
/// vector.
pub fn normalize(x: i64, y: i64) -> (r: Option<Vec2>)
    requires
        -MAX_OFFSET_SUM <= x <= MAX_OFFSET_SUM,
        -MAX_OFFSET_SUM <= y <= MAX_OFFSET_SUM,
    ensures
        r == unit_vector(x as int, y as int),
        r matches Some(v) ==> v.wf(),
{
    if x == 0 && y == 0 {
        return None;
    }
    let xx = x as i128 * UNIT as i128;
    let yy = y as i128 * UNIT as i128;
    assert(-0x7d0_0000_0000_0000 <= xx <= 0x7d0_0000_0000_0000 && -0x7d0_0000_0000_0000 <= yy
        <= 0x7d0_0000_0000_0000) by (nonlinear_arith)
        requires
            xx == x * 1000,
            yy == y * 1000,
            -MAX_OFFSET_SUM <= x <= MAX_OFFSET_SUM,
            -MAX_OFFSET_SUM <= y <= MAX_OFFSET_SUM,
    ;
    assert(xx * xx <= 0x40_0000_0000_0000_0000_0000_0000_0000) by (nonlinear_arith)
        requires
            -0x7d0_0000_0000_0000 <= xx <= 0x7d0_0000_0000_0000,
    ;
    assert(yy * yy <= 0x40_0000_0000_0000_0000_0000_0000_0000) by (nonlinear_arith)
        requires
            -0x7d0_0000_0000_0000 <= yy <= 0x7d0_0000_0000_0000,
    ;
    assert(xx * xx >= 0 && yy * yy >= 0) by (nonlinear_arith);
    let sq = (xx * xx + yy * yy) as u128;
    let n = isqrt(sq);
    proof {
        lemma_sqrt_floor(sq as nat);
        lemma_component_within_norm(xx as int, yy as int, n as nat);
        lemma_component_within_norm(yy as int, xx as int, n as nat);
        assert(xx * xx + yy * yy == yy * yy + xx * xx);
        if n == 0 {
            assert(xx * xx + yy * yy < 1);
            assert(xx == 0 && yy == 0) by (nonlinear_arith)
                requires
                    xx * xx + yy * yy < 1,
                    xx * xx >= 0,
                    yy * yy >= 0,
            ;
        }
    }
    let n = n as i128;
    let ux = scale_div_exec(xx, UNIT as i128, n);
    let uy = scale_div_exec(yy, UNIT as i128, n);
    Some(Vec2 { x: ux as i64, y: uy as i64 })
}

/// `v` clamped to `[lo, hi]`.
pub open spec fn clamp(v: int, lo: int, hi: int) -> int {
    if v < lo {
        lo
    } else if v > hi {
        hi
    } else {
        v
    }
}

/// The margin kept from each wall by a body of the given radius: the radius,
/// or half the arena when the body is wider than the arena (which then holds
/// the body at its centre).
pub open spec fn margin(radius: int, size: int) -> int {
    if radius <= size / 2 {
        radius
    } else {
        size / 2
    }
}

/// The point clamped so that a body of `radius` around it stays inside
/// `[0, size]²`.
pub open spec fn restricted(x: int, y: int, radius: int, size: int) -> Pos {
    let m = margin(radius, size);
    Pos { x: clamp(x, m, size - m) as i64, y: clamp(y, m, size - m) as i64 }
}

/// Clamps `(x, y)` to `[m, size - m]` on each axis, where `m` is the radius,
/// or half the arena if the body is wider than that.
///
/// A body wider than the arena is admitted on purpose: it is held at the
/// arena's centre rather than refused, so that an organism that outgrows
/// the arena keeps a defined position.
pub fn restrict_cell_to_bounds(x: i64, y: i64, radius: i64, size: i64) -> (r: Pos)
    requires
        0 <= radius,
        0 < size <= MAX_COORD,
    ensures
        r == restricted(x as int, y as int, radius as int, size as int),
        r.wf(),
        0 <= r.x <= size,
        0 <= r.y <= size,
        2 * radius <= size ==> radius <= r.x <= size - radius && radius <= r.y <= size - radius,
{
    let m = if radius <= size / 2 {
        radius
    } else {
        size / 2
    };
    let hi = size - m;
    let cx = if x < m {
        m
    } else if x > hi {
        hi
    } else {
        x
    };
    let cy = if y < m {
        m
    } else if y > hi {
        hi
    } else {
        y
    };
    Pos { x: cx, y: cy }
}


pub proof fn lemma_restricted_bounds(x: int, y: int, radius: int, size: int)
    requires
        0 <= radius,
        0 < size <= MAX_COORD,
    ensures
        0 <= restricted(x, y, radius, size).x <= size,
        0 <= restricted(x, y, radius, size).y <= size,
        2 * radius <= size ==> {
            let p = restricted(x, y, radius, size);
            radius <= p.x <= size - radius && radius <= p.y <= size - radius
        },
{
}

} // verus!
