//! Fixed-point geometry: vectors, headings, angles and per-axis flags.
//!
//! Every quantity is an integer. Lengths and velocities are counted in world
//! units, time in quanta of a tick, angles in fractions of a full turn, and the
//! components of a heading in fractions of `UNIT`. Results that leave the range
//! of `i64` stick to the nearest bound.

use vstd::prelude::*;

verus! {

/// The fixed-point representation of one: the length of a heading.
pub const UNIT: i64 = 0x10000;

/// How far the square of the length of a heading may lie from the square of
/// `UNIT`: what rounding each component to the nearest fraction can cost.
pub const UNIT_TOLERANCE: i64 = 0x20000;

/// The number of time quanta in one tick.
pub const TICK: u64 = 0x10000;

/// The number of angle units in a full turn.
pub const FULL_TURN: u32 = 0x10000;

/// One eighth of a full turn: the angle between an edge midpoint and the next corner.
pub const EIGHTH_TURN: u32 = 0x2000;

/// The value of `i64` nearest to `v`.
pub open spec fn clamp(v: int) -> int {
    if v < i64::MIN as int {
        i64::MIN as int
    } else if v > i64::MAX as int {
        i64::MAX as int
    } else {
        v
    }
}

/// `a / b`, rounded toward zero.
pub open spec fn quotient(a: int, b: int) -> int
    recommends
        b > 0,
{
    if a >= 0 {
        a / b
    } else {
        -((-a) / b)
    }
}

/// `angle` reduced to `[0, FULL_TURN)`.
pub open spec fn normalized(angle: int) -> int {
    angle % (FULL_TURN as int)
}

/// The angle covered in `ticks` quanta at `angular` units per tick, rounded toward zero.
pub open spec fn swept_angle(angular: int, ticks: int) -> int {
    clamp(quotient(angular * ticks, TICK as int))
}

proof fn lemma_product_fits(a: i64, b: i64)
    ensures
        -0x4000_0000_0000_0000_0000_0000_0000_0000 <= a * b
            <= 0x4000_0000_0000_0000_0000_0000_0000_0000,
{
    assert(-0x4000_0000_0000_0000_0000_0000_0000_0000 <= a * b
        <= 0x4000_0000_0000_0000_0000_0000_0000_0000) by (nonlinear_arith)
        requires
            -0x8000_0000_0000_0000 <= a <= 0x8000_0000_0000_0000,
            -0x8000_0000_0000_0000 <= b <= 0x8000_0000_0000_0000,
    ;
}

proof fn lemma_unit_product_fits(a: i64, c: i64)
    requires
        -UNIT <= c <= UNIT,
    ensures
        -0x8000_0000_0000_0000_0000 <= a * c <= 0x8000_0000_0000_0000_0000,
{
    assert(-0x8000_0000_0000_0000_0000 <= a * c <= 0x8000_0000_0000_0000_0000)
        by (nonlinear_arith)
        requires
            -0x8000_0000_0000_0000 <= a <= 0x8000_0000_0000_0000,
            -0x10000 <= c <= 0x10000,
    ;
}

proof fn lemma_duration_product_fits(a: i64, t: u64)
    ensures
        -0x8000_0000_0000_0000_0000_0000_0000_0000 < a * t
            < 0x8000_0000_0000_0000_0000_0000_0000_0000,
{
    assert(-0x8000_0000_0000_0000_0000_0000_0000_0000 < a * t
        < 0x8000_0000_0000_0000_0000_0000_0000_0000) by (nonlinear_arith)
        requires
            -0x8000_0000_0000_0000 <= a <= 0x8000_0000_0000_0000,
            0 <= t < 0x1_0000_0000_0000_0000,
    ;
}

/// The value of `i64` nearest to `v`.
pub fn saturate(v: i128) -> (r: i64)
    ensures
        r as int == clamp(v as int),
{
    if v < i64::MIN as i128 {
        i64::MIN
    } else if v > i64::MAX as i128 {
        i64::MAX
    } else {
        v as i64
    }
}

/// `a + b`, saturating.
pub fn sum(a: i64, b: i64) -> (r: i64)
    ensures
        r as int == clamp(a + b),
{
    saturate(a as i128 + b as i128)
}

/// `a - b`, saturating.
pub fn difference(a: i64, b: i64) -> (r: i64)
    ensures
        r as int == clamp(a - b),
{
    saturate(a as i128 - b as i128)
}

/// `a * num / den`, rounded toward zero and saturating.
pub fn scaled(a: i64, num: i64, den: i64) -> (r: i64)
    requires
        den > 0,
    ensures
        r as int == clamp(quotient(a * num, den as int)),
{
    proof {
        lemma_product_fits(a, num);
    }
    let product: i128 = (a as i128) * (num as i128);
    saturate(product / (den as i128))
}

/// `angle` reduced to `[0, FULL_TURN)`.
pub fn normalize_angle(angle: i64) -> (r: u32)
    ensures
        r as int == normalized(angle as int),
        r < FULL_TURN,
{
    let m: i64 = angle % (FULL_TURN as i64);
    if m < 0 {
        (m + FULL_TURN as i64) as u32
    } else {
        m as u32
    }
}

/// The angle covered in `ticks` quanta at `angular` units per tick.
pub fn angle_swept(angular: i64, ticks: u64) -> (r: i64)
    ensures
        r as int == swept_angle(angular as int, ticks as int),
{
    proof {
        lemma_duration_product_fits(angular, ticks);
    }
    let product: i128 = (angular as i128) * (ticks as i128);
    saturate(product / (TICK as i128))
}

/// A pair of per-axis flags: `x` for the horizontal axis, `y` for the vertical one.
#[derive(Clone, Copy, Debug, PartialEq, Eq, Structural)]
pub struct Axes {
    pub x: bool,
    pub y: bool,
}

impl Axes {
    pub open spec fn spec_new(x: bool, y: bool) -> Axes {
        Axes { x, y }
    }

    pub fn new(x: bool, y: bool) -> (r: Self)
        ensures
            r == Self::spec_new(x, y),
    {
        Axes { x, y }
    }

    /// Both flags set.
    pub fn both() -> (r: Self)
        ensures
            r == Self::spec_new(true, true),
    {
        Axes { x: true, y: true }
    }

    /// No flag set.
    pub fn neither() -> (r: Self)
        ensures
            r == Self::spec_new(false, false),
    {
        Axes { x: false, y: false }
    }

    pub open spec fn spec_all(self) -> bool {
        self.x && self.y
    }

    /// Whether both flags are set.
    pub fn all(&self) -> (r: bool)
        ensures
            r == self.spec_all(),
    {
        self.x && self.y
    }

    pub open spec fn spec_any(self) -> bool {
        self.x || self.y
    }

    /// Whether at least one flag is set.
    pub fn any(&self) -> (r: bool)
        ensures
            r == self.spec_any(),
    {
        self.x || self.y
    }

    pub open spec fn spec_and(self, other: Axes) -> Axes {
        Axes { x: self.x && other.x, y: self.y && other.y }
    }

    /// The flags set in both `self` and `other`.
    pub fn and(&self, other: Axes) -> (r: Axes)
        ensures
            r == self.spec_and(other),
    {
        Axes { x: self.x && other.x, y: self.y && other.y }
    }
}

/// A point, an offset or a velocity in the plane.
#[derive(Clone, Copy, Debug, PartialEq, Eq, Structural)]
pub struct Vector {
    pub x: i64,
    pub y: i64,
}

impl Vector {
    pub open spec fn spec_new(x: int, y: int) -> Vector {
        Vector { x: clamp(x) as i64, y: clamp(y) as i64 }
    }

    pub fn new(x: i64, y: i64) -> (r: Self)
        ensures
            r.x == x,
            r.y == y,
    {
        Vector { x, y }
    }

    /// The vector with both components `v`.
    pub fn splat(v: i64) -> (r: Self)
        ensures
            r.x == v,
            r.y == v,
    {
        Vector { x: v, y: v }
    }

    pub fn zero() -> (r: Self)
        ensures
            r.x == 0,
            r.y == 0,
    {
        Vector { x: 0, y: 0 }
    }

    pub open spec fn spec_is_zero(self) -> bool {
        self.x == 0 && self.y == 0
    }

    /// Whether both components are zero.
    pub fn is_zero(&self) -> (r: bool)
        ensures
            r == self.spec_is_zero(),
    {
        self.x == 0 && self.y == 0
    }

    pub open spec fn spec_plus(self, other: Vector) -> Vector {
        Self::spec_new(self.x + other.x, self.y + other.y)
    }

    /// The component-wise sum, saturating.
    pub fn plus(&self, other: Vector) -> (r: Vector)
        ensures
            r == self.spec_plus(other),
    {
        Vector { x: sum(self.x, other.x), y: sum(self.y, other.y) }
    }

    pub open spec fn spec_minus(self, other: Vector) -> Vector {
        Self::spec_new(self.x - other.x, self.y - other.y)
    }

    /// The component-wise difference, saturating.
    pub fn minus(&self, other: Vector) -> (r: Vector)
        ensures
            r == self.spec_minus(other),
    {
        Vector { x: difference(self.x, other.x), y: difference(self.y, other.y) }
    }

    pub open spec fn spec_negated(self) -> Vector {
        Self::spec_new(-self.x, -self.y)
    }

    /// The opposite vector, saturating.
    pub fn negated(&self) -> (r: Vector)
        ensures
            r == self.spec_negated(),
    {
        Vector { x: difference(0, self.x), y: difference(0, self.y) }
    }

    pub open spec fn spec_scaled(self, num: int, den: int) -> Vector {
        Self::spec_new(quotient(self.x * num, den), quotient(self.y * num, den))
    }

    /// Each component times `num / den`, rounded toward zero and saturating.
    pub fn scaled(&self, num: i64, den: i64) -> (r: Vector)
        requires
            den > 0,
        ensures
            r == self.spec_scaled(num as int, den as int),
    {
        Vector { x: scaled(self.x, num, den), y: scaled(self.y, num, den) }
    }

    pub open spec fn spec_travelled(self, ticks: int) -> Vector {
        Self::spec_new(quotient(self.x * ticks, TICK as int), quotient(self.y * ticks, TICK as int))
    }

    /// The displacement after `ticks` quanta at this velocity per tick,
    /// rounded toward zero and saturating.
    pub fn travelled(&self, ticks: u64) -> (r: Vector)
        ensures
            r == self.spec_travelled(ticks as int),
    {
        proof {
            lemma_duration_product_fits(self.x, ticks);
            lemma_duration_product_fits(self.y, ticks);
        }
        let px: i128 = (self.x as i128) * (ticks as i128);
        let py: i128 = (self.y as i128) * (ticks as i128);
        Vector { x: saturate(px / (TICK as i128)), y: saturate(py / (TICK as i128)) }
    }

    pub open spec fn spec_masked(self, axes: Axes) -> Vector {
        Vector { x: if axes.x { self.x } else { 0 }, y: if axes.y { self.y } else { 0 } }
    }

    /// The components on the flagged axes; zero on the others.
    pub fn masked(&self, axes: Axes) -> (r: Vector)
        ensures
            r == self.spec_masked(axes),
    {
        Vector { x: if axes.x { self.x } else { 0 }, y: if axes.y { self.y } else { 0 } }
    }

    pub open spec fn spec_rotate(self, heading: Heading) -> Vector {
        Self::spec_new(
            quotient(self.x * heading.cos() - self.y * heading.sin(), UNIT as int),
            quotient(self.x * heading.sin() + self.y * heading.cos(), UNIT as int),
        )
    }

    /// The vector turned by `heading`, each component rounded toward zero.
    pub fn rotate(&self, heading: Heading) -> (r: Vector)
        ensures
            r == self.spec_rotate(heading),
    {
        let c: i64 = heading.cos;
        let s: i64 = heading.sin;
        proof {
            use_type_invariant(&heading);
            lemma_unit_product_fits(self.x, c);
            lemma_unit_product_fits(self.y, s);
            lemma_unit_product_fits(self.x, s);
            lemma_unit_product_fits(self.y, c);
        }
        let xc: i128 = (self.x as i128) * (c as i128);
        let ys: i128 = (self.y as i128) * (s as i128);
        let xs: i128 = (self.x as i128) * (s as i128);
        let yc: i128 = (self.y as i128) * (c as i128);
        Vector {
            x: saturate((xc - ys) / (UNIT as i128)),
            y: saturate((xs + yc) / (UNIT as i128)),
        }
    }
}

/// Whether `cos` and `sin` are the components of a vector of length `UNIT`,
/// within `UNIT_TOLERANCE` on the square of the length.
pub open spec fn unit_length(cos: int, sin: int) -> bool {
    &&& -UNIT <= cos <= UNIT
    &&& -UNIT <= sin <= UNIT
    &&& UNIT * UNIT - UNIT_TOLERANCE <= cos * cos + sin * sin <= UNIT * UNIT + UNIT_TOLERANCE
}

/// A direction in the plane: the cosine and sine of an angle, in fractions
/// of `UNIT`. Turning by a heading keeps lengths, within the tolerance.
#[derive(Clone, Copy, Debug, PartialEq, Eq, Structural)]
pub struct Heading {
    cos: i64,
    sin: i64,
}

proof fn lemma_square_fits(c: int)
    requires
        -UNIT <= c <= UNIT,
    ensures
        0 <= c * c <= 0x1_0000_0000,
        (-c) * (-c) == c * c,
{
    assert(0 <= c * c <= 0x1_0000_0000 && (-c) * (-c) == c * c) by (nonlinear_arith)
        requires
            -0x10000 <= c <= 0x10000,
    ;
}

impl Heading {
    #[verifier::type_invariant]
    spec fn is_unit(self) -> bool {
        unit_length(self.cos as int, self.sin as int)
    }

    /// Whether the components make a vector of length `UNIT`, within the
    /// tolerance: what [`Heading::new`] asks of them.
    pub fn check(cos: i64, sin: i64) -> (r: bool)
        ensures
            r == unit_length(cos as int, sin as int),
    {
        if -UNIT <= cos && cos <= UNIT && -UNIT <= sin && sin <= UNIT {
            proof {
                lemma_square_fits(cos as int);
                lemma_square_fits(sin as int);
            }
            let square: i64 = cos * cos + sin * sin;
            UNIT * UNIT - UNIT_TOLERANCE <= square && square <= UNIT * UNIT + UNIT_TOLERANCE
        } else {
            false
        }
    }

    pub closed spec fn cos(self) -> int {
        self.cos as int
    }

    pub closed spec fn sin(self) -> int {
        self.sin as int
    }

    /// The heading with the given components, if they make a vector of
    /// length `UNIT` within the tolerance.
    pub fn new(cos: i64, sin: i64) -> (r: Option<Self>)
        ensures
            r is Some <==> unit_length(cos as int, sin as int),
            r matches Some(h) ==> h.cos() == cos && h.sin() == sin,
    {
        if Self::check(cos, sin) {
            Some(Heading { cos, sin })
        } else {
            None
        }
    }

    /// The heading of angle zero: along the positive x axis.
    pub fn east() -> (r: Self)
        ensures
            r.cos() == UNIT,
            r.sin() == 0,
    {
        Heading { cos: UNIT, sin: 0 }
    }

    /// The cosine, in fractions of `UNIT`.
    pub fn cosine(&self) -> (r: i64)
        ensures
            r == self.cos(),
            -UNIT <= r <= UNIT,
            unit_length(self.cos(), self.sin()),
    {
        proof {
            use_type_invariant(self);
        }
        self.cos
    }

    /// The sine, in fractions of `UNIT`.
    pub fn sine(&self) -> (r: i64)
        ensures
            r == self.sin(),
            -UNIT <= r <= UNIT,
            unit_length(self.cos(), self.sin()),
    {
        proof {
            use_type_invariant(self);
        }
        self.sin
    }

    pub closed spec fn spec_reversed(self) -> Heading {
        Heading { cos: self.cos, sin: (-self.sin) as i64 }
    }

    /// The heading of the opposite angle.
    pub fn reversed(&self) -> (r: Self)
        ensures
            r == self.spec_reversed(),
            r.cos() == self.cos(),
            r.sin() == -self.sin(),
            unit_length(self.cos(), self.sin()),
            unit_length(r.cos(), r.sin()),
    {
        proof {
            use_type_invariant(self);
            lemma_square_fits(self.sin as int);
        }
        Heading { cos: self.cos, sin: -self.sin }
    }
}

/// The components of the heading of the opposite angle.
pub proof fn lemma_reversed(heading: Heading)
    requires
        -UNIT <= heading.sin() <= UNIT,
    ensures
        heading.spec_reversed().cos() == heading.cos(),
        heading.spec_reversed().sin() == -heading.sin(),
{
}

/// Turning a vector whose components lie within `limit` does not saturate,
/// and at most doubles the limit.
pub proof fn lemma_rotate_within(v: Vector, heading: Heading, limit: int)
    requires
        -UNIT <= heading.cos() <= UNIT,
        -UNIT <= heading.sin() <= UNIT,
        0 <= limit <= 0x1000_0000_0000_0000,
        -limit <= v.x <= limit,
        -limit <= v.y <= limit,
    ensures
        v.spec_rotate(heading).x == quotient(
            v.x * heading.cos() - v.y * heading.sin(),
            UNIT as int,
        ),
        v.spec_rotate(heading).y == quotient(
            v.x * heading.sin() + v.y * heading.cos(),
            UNIT as int,
        ),
        -2 * limit <= v.spec_rotate(heading).x <= 2 * limit,
        -2 * limit <= v.spec_rotate(heading).y <= 2 * limit,
{
    let c = heading.cos();
    let s = heading.sin();
    let x = v.x as int;
    let y = v.y as int;
    let xc = x * c;
    let ys = y * s;
    let xs = x * s;
    let yc = y * c;
    assert(-limit * 0x10000 <= xc <= limit * 0x10000 && -limit * 0x10000 <= ys <= limit * 0x10000
        && -limit * 0x10000 <= xs <= limit * 0x10000 && -limit * 0x10000 <= yc <= limit * 0x10000)
        by (nonlinear_arith)
        requires
            -0x10000 <= c <= 0x10000,
            -0x10000 <= s <= 0x10000,
            -limit <= x <= limit,
            -limit <= y <= limit,
            xc == x * c,
            ys == y * s,
            xs == x * s,
            yc == y * c,
    ;
    assert(-2 * limit <= quotient(xc - ys, 0x10000) <= 2 * limit);
    assert(-2 * limit <= quotient(xs + yc, 0x10000) <= 2 * limit);
}

/// Turning the zero vector gives the zero vector.
pub proof fn lemma_rotate_zero(heading: Heading)
    ensures
        (Vector { x: 0, y: 0 }).spec_rotate(heading) == (Vector { x: 0, y: 0 }),
{
}

/// Turning by the heading of angle zero changes nothing.
pub proof fn lemma_rotate_east(v: Vector, heading: Heading)
    requires
        heading.cos() == UNIT,
        heading.sin() == 0,
    ensures
        v.spec_rotate(heading) == v,
{
    assert(v.x * UNIT - v.y * 0 == v.x * 0x10000);
    assert(v.x * 0 + v.y * UNIT == v.y * 0x10000);
}

} // verus!
