//! Plane vectors with integer coordinates, and the mathematics the rest of the
//! crate states its contracts in.

use crate::fixed::{
    div_round, is_sqrt_floor, isqrt, lemma_div_round_error, lemma_div_round_le, lemma_sqrt_floor,
    magnitude, round_div, sqrt_floor, UNIT,
};
use vstd::prelude::*;

verus! {

/// Largest coordinate magnitude of a position in the world.
pub const WORLD_LIMIT: i64 = 100_000_000_000;

/// Largest coordinate magnitude of a vector that the arithmetic here accepts.
pub const SPAN: i64 = 0x1_0000_0000_0000;

/// Largest coordinate magnitude of a vector that can be normalised.
pub const REACH: i64 = 0x200_0000_0000;

/// How far the squared length of a direction may be from `UNIT * UNIT`.
pub const UNIT_SLACK: i64 = 4_000_000;

/// A vector of the mathematical plane: what a [`Vec2`] stands for.
pub struct SpecVec2 {
    pub x: int,
    pub y: int,
}

impl SpecVec2 {
    /// The sum.
    pub open spec fn plus(self, other: SpecVec2) -> SpecVec2 {
        SpecVec2 { x: self.x + other.x, y: self.y + other.y }
    }

    /// The difference: the vector from `other` to `self`.
    pub open spec fn minus(self, other: SpecVec2) -> SpecVec2 {
        SpecVec2 { x: self.x - other.x, y: self.y - other.y }
    }

    /// The dot product.
    pub open spec fn dot(self, other: SpecVec2) -> int {
        self.x * other.x + self.y * other.y
    }

    /// The third component of the cross product: positive when `other` lies
    /// counter-clockwise of `self`.
    pub open spec fn perp_dot(self, other: SpecVec2) -> int {
        self.x * other.y - self.y * other.x
    }

    /// The squared length.
    pub open spec fn norm_sq(self) -> int {
        self.x * self.x + self.y * self.y
    }

    /// The squared distance.
    pub open spec fn dist_sq(self, other: SpecVec2) -> int {
        self.minus(other).norm_sq()
    }

    /// Both coordinates are zero.
    pub open spec fn is_zero(self) -> bool {
        self.x == 0 && self.y == 0
    }

    /// Both coordinates lie in `-m ..= m`.
    pub open spec fn within(self, m: int) -> bool {
        -m <= self.x <= m && -m <= self.y <= m
    }

    /// The length is `UNIT`, as nearly as rounded coordinates allow.
    pub open spec fn is_unit(self) -> bool {
        UNIT * UNIT - UNIT_SLACK <= self.norm_sq() <= UNIT * UNIT + UNIT_SLACK
    }

    /// The length times `UNIT`, rounded down.
    pub open spec fn scaled_len(self) -> nat {
        sqrt_floor((self.norm_sq() * (UNIT * UNIT)) as nat)
    }

    /// The vector of length `UNIT` in the same direction, each coordinate rounded.
    pub open spec fn unit(self) -> SpecVec2 {
        SpecVec2 {
            x: div_round(self.x * (UNIT * UNIT), self.scaled_len() as int),
            y: div_round(self.y * (UNIT * UNIT), self.scaled_len() as int),
        }
    }

    /// The vector turned counter-clockwise by the angle whose cosine and sine
    /// are `turn.x / UNIT` and `turn.y / UNIT`, each coordinate rounded.
    pub open spec fn rotated(self, turn: SpecVec2) -> SpecVec2 {
        SpecVec2 {
            x: div_round(turn.x * self.x - turn.y * self.y, UNIT as int),
            y: div_round(turn.y * self.x + turn.x * self.y, UNIT as int),
        }
    }

    /// The mirror image across the x axis; of a turn, the opposite turn.
    pub open spec fn conjugate(self) -> SpecVec2 {
        SpecVec2 { x: self.x, y: -self.y }
    }

    /// The vector turned a quarter counter-clockwise.
    pub open spec fn perp(self) -> SpecVec2 {
        SpecVec2 { x: -self.y, y: self.x }
    }

    /// The opposite vector.
    pub open spec fn negated(self) -> SpecVec2 {
        SpecVec2 { x: -self.x, y: -self.y }
    }

    /// The vector with machine coordinates; the same vector where they fit.
    pub open spec fn to_vec2(self) -> Vec2 {
        Vec2 { x: self.x as i64, y: self.y as i64 }
    }
}

/// A vector with integer coordinates: a position or an offset in millionths of
/// a world unit, or a direction of length `UNIT`.
#[derive(Clone, Copy, Debug, PartialEq, Eq, Structural)]
pub struct Vec2 {
    pub x: i64,
    pub y: i64,
}

impl View for Vec2 {
    type V = SpecVec2;

    open spec fn view(&self) -> SpecVec2 {
        SpecVec2 { x: self.x as int, y: self.y as int }
    }
}

/// A product is bounded by the product of the bounds.
pub proof fn lemma_mul_within(a: int, b: int, ma: int, mb: int)
    by (nonlinear_arith)
    requires
        -ma <= a <= ma,
        -mb <= b <= mb,
    ensures
        -(ma * mb) <= a * b <= ma * mb,
{
}

impl Vec2 {
    /// A position of the world.
    pub open spec fn in_world(self) -> bool {
        self@.within(WORLD_LIMIT as int)
    }

    /// A direction: see [`SpecVec2::is_unit`].
    pub open spec fn is_unit(self) -> bool {
        self@.is_unit()
    }

    /// The vector with the given coordinates.
    pub fn new(x: i64, y: i64) -> (v: Vec2)
        ensures
            v.x == x,
            v.y == y,
    {
        Vec2 { x, y }
    }

    /// The sum.
    pub fn plus(self, other: Vec2) -> (v: Vec2)
        requires
            self@.within(SPAN as int),
            other@.within(SPAN as int),
        ensures
            v@ == self@.plus(other@),
    {
        Vec2 { x: self.x + other.x, y: self.y + other.y }
    }

    /// The difference: the vector from `other` to `self`.
    pub fn minus(self, other: Vec2) -> (v: Vec2)
        requires
            self@.within(SPAN as int),
            other@.within(SPAN as int),
        ensures
            v@ == self@.minus(other@),
    {
        Vec2 { x: self.x - other.x, y: self.y - other.y }
    }

    /// The dot product.
    pub fn dot(self, other: Vec2) -> (d: i128)
        requires
            self@.within(SPAN as int),
            other@.within(SPAN as int),
        ensures
            d == self@.dot(other@),
    {
        proof {
            lemma_mul_within(self.x as int, other.x as int, SPAN as int, SPAN as int);
            lemma_mul_within(self.y as int, other.y as int, SPAN as int, SPAN as int);
        }
        (self.x as i128) * (other.x as i128) + (self.y as i128) * (other.y as i128)
    }

    /// The third component of the cross product: see [`SpecVec2::perp_dot`].
    pub fn perp_dot(self, other: Vec2) -> (d: i128)
        requires
            self@.within(SPAN as int),
            other@.within(SPAN as int),
        ensures
            d == self@.perp_dot(other@),
    {
        proof {
            lemma_mul_within(self.x as int, other.y as int, SPAN as int, SPAN as int);
            lemma_mul_within(self.y as int, other.x as int, SPAN as int, SPAN as int);
        }
        (self.x as i128) * (other.y as i128) - (self.y as i128) * (other.x as i128)
    }

    /// The squared length.
    pub fn norm_sq(self) -> (d: i128)
        requires
            self@.within(SPAN as int),
        ensures
            d == self@.norm_sq(),
            d >= 0,
    {
        proof {
            lemma_mul_within(self.x as int, self.x as int, SPAN as int, SPAN as int);
            lemma_mul_within(self.y as int, self.y as int, SPAN as int, SPAN as int);
            assert(self.x * self.x >= 0 && self.y * self.y >= 0) by (nonlinear_arith);
        }
        (self.x as i128) * (self.x as i128) + (self.y as i128) * (self.y as i128)
    }

    /// The squared distance.
    pub fn dist_sq(self, other: Vec2) -> (d: i128)
        requires
            self@.within(SPAN as int),
            other@.within(SPAN as int),
        ensures
            d == self@.dist_sq(other@),
            d >= 0,
    {
        let delta = Vec2 { x: self.x - other.x, y: self.y - other.y };
        proof {
            lemma_mul_within(delta.x as int, delta.x as int, 2 * SPAN, 2 * SPAN);
            lemma_mul_within(delta.y as int, delta.y as int, 2 * SPAN, 2 * SPAN);
            assert(delta.x * delta.x >= 0 && delta.y * delta.y >= 0) by (nonlinear_arith);
        }
        (delta.x as i128) * (delta.x as i128) + (delta.y as i128) * (delta.y as i128)
    }

    /// The mirror image across the x axis: see [`SpecVec2::conjugate`].
    pub fn conjugate(self) -> (v: Vec2)
        requires
            self@.within(SPAN as int),
        ensures
            v@ == self@.conjugate(),
            self.is_unit() ==> v.is_unit(),
    {
        proof {
            assert((-self.y) * (-self.y) == self.y * self.y) by (nonlinear_arith);
        }
        Vec2 { x: self.x, y: -self.y }
    }

    /// Whether the vector is a direction.
    pub fn check_unit(self) -> (b: bool)
        ensures
            b == self.is_unit(),
    {
        if self.x < -2_000_000 || self.x > 2_000_000 || self.y < -2_000_000 || self.y > 2_000_000 {
            proof {
                lemma_far_not_unit(self@);
            }
            return false;
        }
        proof {
            lemma_mul_within(self.x as int, self.x as int, 2_000_000, 2_000_000);
            lemma_mul_within(self.y as int, self.y as int, 2_000_000, 2_000_000);
        }
        let n: i64 = self.x * self.x + self.y * self.y;
        1_000_000_000_000 - UNIT_SLACK <= n && n <= 1_000_000_000_000 + UNIT_SLACK
    }

    /// The vector turned by `turn`, or the other way round for `turn`'s mirror
    /// image: see [`SpecVec2::rotated`].
    pub fn rotated(self, turn: Vec2) -> (v: Vec2)
        requires
            self@.within(SPAN as int),
            turn.is_unit(),
        ensures
            v@ == self@.rotated(turn@),
    {
        proof {
            lemma_unit_within(turn@);
            lemma_mul_within(turn.x as int, self.x as int, UNIT + 1, SPAN as int);
            lemma_mul_within(turn.y as int, self.y as int, UNIT + 1, SPAN as int);
            lemma_mul_within(turn.y as int, self.x as int, UNIT + 1, SPAN as int);
            lemma_mul_within(turn.x as int, self.y as int, UNIT + 1, SPAN as int);
            lemma_rotated_within(self@, turn@, SPAN as int);
        }
        let ax: i128 = (turn.x as i128) * (self.x as i128) - (turn.y as i128) * (self.y as i128);
        let ay: i128 = (turn.y as i128) * (self.x as i128) + (turn.x as i128) * (self.y as i128);
        let x: i128 = round_div(ax, UNIT as i128);
        let y: i128 = round_div(ay, UNIT as i128);
        Vec2 { x: x as i64, y: y as i64 }
    }

    /// The direction of a vector that is not zero: see [`SpecVec2::unit`].
    pub fn normalized(self) -> (v: Vec2)
        requires
            self@.within(REACH as int),
            !self@.is_zero(),
        ensures
            v@ == self@.unit(),
            v.is_unit(),
    {
        let len: u64 = self.scaled_length();
        let ax: i128 = (self.x as i128) * 1_000_000_000_000;
        let ay: i128 = (self.y as i128) * 1_000_000_000_000;
        let x: i128 = round_div(ax, len as i128);
        let y: i128 = round_div(ay, len as i128);
        proof {
            assert(UNIT * UNIT == 1_000_000_000_000);
            lemma_unit_of_nonzero(self@);
            lemma_unit_within(self@.unit());
        }
        Vec2 { x: x as i64, y: y as i64 }
    }

    /// The length times `UNIT`, rounded down: see [`SpecVec2::scaled_len`].
    pub fn scaled_length(self) -> (len: u64)
        requires
            self@.within(REACH as int),
        ensures
            len == self@.scaled_len(),
            !self@.is_zero() ==> len >= UNIT,
    {
        proof {
            let m: int = 0x200_0000_0000;
            lemma_mul_within(self.x as int, self.x as int, m, m);
            lemma_mul_within(self.y as int, self.y as int, m, m);
            assert(m * m == 0x4_0000_0000_0000_0000_0000) by (nonlinear_arith)
                requires
                    m == 0x200_0000_0000,
            ;
            assert(self.x * self.x >= 0 && self.y * self.y >= 0) by (nonlinear_arith);
            assert(UNIT * UNIT == 1_000_000_000_000);
            if !self@.is_zero() {
                lemma_scaled_len(self@);
            }
        }
        let q: u128 = ((self.x as i128) * (self.x as i128) + (self.y as i128) * (self.y
            as i128)) as u128;
        isqrt(q * 1_000_000_000_000)
    }
}

/// A direction has no coordinate beyond `UNIT + 1`.
pub proof fn lemma_unit_within(d: SpecVec2)
    requires
        d.is_unit(),
    ensures
        d.within(UNIT + 1),
        !d.is_zero(),
{
    let u = UNIT as int;
    assert(-(u + 1) <= d.x <= u + 1) by (nonlinear_arith)
        requires
            d.x * d.x + d.y * d.y <= u * u + 4 * u,
            u == 1_000_000,
    ;
    assert(-(u + 1) <= d.y <= u + 1) by (nonlinear_arith)
        requires
            d.x * d.x + d.y * d.y <= u * u + 4 * u,
            u == 1_000_000,
    ;
}

/// A vector with a coordinate beyond two `UNIT`s is no direction.
proof fn lemma_far_not_unit(d: SpecVec2)
    requires
        !d.within(2 * UNIT),
    ensures
        !d.is_unit(),
{
    let u = UNIT as int;
    assert(d.x * d.x + d.y * d.y > u * u + 4 * u) by (nonlinear_arith)
        requires
            d.x < -2 * u || d.x > 2 * u || d.y < -2 * u || d.y > 2 * u,
            u == 1_000_000,
    ;
}

/// The scaled length of a vector that is not zero is at least `UNIT`, and no
/// coordinate times `UNIT` exceeds it.
pub proof fn lemma_scaled_len(v: SpecVec2)
    requires
        !v.is_zero(),
    ensures
        v.scaled_len() >= UNIT,
        -v.scaled_len() <= v.x * UNIT <= v.scaled_len(),
        -v.scaled_len() <= v.y * UNIT <= v.scaled_len(),
        v.norm_sq() >= 1,
        v.norm_sq() * (UNIT * UNIT) >= 1,
        is_sqrt_floor((v.norm_sq() * (UNIT * UNIT)) as nat, v.scaled_len()),
{
    let u = UNIT as int;
    let q = v.norm_sq();
    assert(q >= 1 && q >= v.x * v.x && q >= v.y * v.y) by (nonlinear_arith)
        requires
            q == v.x * v.x + v.y * v.y,
            v.x != 0 || v.y != 0,
    ;
    assert(q * (u * u) >= u * u) by (nonlinear_arith)
        requires
            q >= 1,
    ;
    let n = (q * (u * u)) as nat;
    lemma_sqrt_floor(n);
    let r = v.scaled_len() as int;
    assert(r >= u) by (nonlinear_arith)
        requires
            n < (r + 1) * (r + 1),
            n >= u * u,
            r >= 0,
            u >= 0,
    ;
    assert(-r <= v.x * u <= r) by (nonlinear_arith)
        requires
            n < (r + 1) * (r + 1),
            n == q * (u * u),
            q >= v.x * v.x,
            r >= 0,
            u >= 0,
    ;
    assert(-r <= v.y * u <= r) by (nonlinear_arith)
        requires
            n < (r + 1) * (r + 1),
            n == q * (u * u),
            q >= v.y * v.y,
            r >= 0,
            u >= 0,
    ;
}

/// The square of a product is the product of the squares.
proof fn lemma_square_of_product(a: int, b: int)
    by (nonlinear_arith)
    ensures
        (a * b) * (a * b) == (a * a) * (b * b),
{
}

/// The square of a difference, written out.
proof fn lemma_square_of_difference(a: int, e: int)
    by (nonlinear_arith)
    ensures
        (a - e) * (a - e) == a * a - 2 * (a * e) + e * e,
{
}

/// Multiplication distributes over sums and differences.
proof fn lemma_distribute(a: int, b: int, c: int)
    by (nonlinear_arith)
    ensures
        (a + b) * c == a * c + b * c,
        c * (a + b) == c * a + c * b,
        (a - b) * c == a * c - b * c,
{
}

/// One coordinate's share of the squared length after rounding: with
/// `f * r == x * w - e`, the square of `f * r` written out.
proof fn lemma_rounded_square(x: int, w: int, r: int, f: int, e: int)
    requires
        e == x * w - f * r,
    ensures
        (f * f) * (r * r) == (x * x) * (w * w) - 2 * (w * (x * e)) + e * e,
{
    let a = x * w;
    lemma_square_of_product(f, r);
    lemma_square_of_product(x, w);
    lemma_square_of_difference(a, e);
    assert(a * e == w * (x * e)) by (nonlinear_arith)
        requires
            a == x * w,
    ;
    assert(f * r == a - e);
}

/// Normalising a vector that is not zero gives a direction.
pub proof fn lemma_unit_of_nonzero(v: SpecVec2)
    requires
        !v.is_zero(),
    ensures
        v.unit().is_unit(),
{
    let u: int = 1_000_000;
    let w: int = 1_000_000_000_000;
    assert(UNIT * UNIT == w);
    let q = v.norm_sq();
    let r = v.scaled_len() as int;
    let rr = r * r;
    lemma_scaled_len(v);
    let f = v.unit();
    lemma_div_round_error(v.x * w, r);
    lemma_div_round_error(v.y * w, r);
    let ex = v.x * w - f.x * r;
    let ey = v.y * w - f.y * r;
    let t = f.x * f.x + f.y * f.y;
    lemma_rounded_square(v.x, w, r, f.x, ex);
    lemma_rounded_square(v.y, w, r, f.y, ey);
    lemma_distribute(f.x * f.x, f.y * f.y, rr);
    lemma_distribute(v.x * v.x, v.y * v.y, w * w);
    let mixed = v.x * ex + v.y * ey;
    lemma_distribute(v.x * ex, v.y * ey, w);
    let tail = ex * ex + ey * ey;
    assert(t * rr == q * (w * w) - 2 * (w * mixed) + tail);
    // the three parts of the difference, each bounded by a multiple of r * r
    assert((r + 1) * (r + 1) == rr + 2 * r + 1) by (nonlinear_arith)
        requires
            rr == r * r,
    ;
    let gap = q * w - rr;
    assert(q * w == (q * (UNIT * UNIT)) as nat);
    assert(0 <= gap <= 2 * r);
    assert(q * (w * w) - w * rr == w * gap) by (nonlinear_arith)
        requires
            gap == q * w - rr,
    ;
    assert(0 <= w * gap <= 2 * u * rr) by (nonlinear_arith)
        requires
            0 <= gap <= 2 * r,
            w == u * u,
            rr == r * r,
            r >= u,
            u > 0,
    ;
    lemma_mul_within(v.x * u, 2 * ex, r, r);
    lemma_mul_within(v.y * u, 2 * ey, r, r);
    assert((v.x * u) * (2 * ex) == 2 * (u * (v.x * ex))) by (nonlinear_arith);
    assert((v.y * u) * (2 * ey) == 2 * (u * (v.y * ey))) by (nonlinear_arith);
    lemma_distribute(v.x * ex, v.y * ey, u);
    assert(-2 * rr <= 2 * (u * mixed) <= 2 * rr);
    assert(w * mixed == u * (u * mixed)) by (nonlinear_arith)
        requires
            w == u * u,
    ;
    assert(-(u * rr) <= w * mixed <= u * rr) by (nonlinear_arith)
        requires
            w * mixed == u * (u * mixed),
            -rr <= u * mixed <= rr,
            u > 0,
    ;
    lemma_mul_within(2 * ex, 2 * ex, r, r);
    lemma_mul_within(2 * ey, 2 * ey, r, r);
    assert((2 * ex) * (2 * ex) == 4 * (ex * ex) && ex * ex >= 0) by (nonlinear_arith);
    assert((2 * ey) * (2 * ey) == 4 * (ey * ey) && ey * ey >= 0) by (nonlinear_arith);
    assert(0 <= 2 * tail <= rr);
    let k = t - w;
    lemma_distribute(t, -w, rr);
    assert((-w) * rr == -(w * rr)) by (nonlinear_arith);
    assert(k * rr == w * gap - 2 * (w * mixed) + tail);
    assert(rr >= 1) by (nonlinear_arith)
        requires
            rr == r * r,
            r >= 1,
    ;
    assert(-4 * u <= k <= 4 * u) by (nonlinear_arith)
        requires
            -(2 * u * rr) <= k * rr <= 4 * u * rr + tail,
            0 <= 2 * tail <= rr,
            rr >= 1,
    ;
}

/// The squared length of a product of two complex numbers is the product of
/// their squared lengths.
pub proof fn lemma_product_norm(c: int, s: int, x: int, y: int)
    ensures
        (c * x - s * y) * (c * x - s * y) + (s * x + c * y) * (s * x + c * y) == (c * c + s * s) * (
        x * x + y * y),
{
    let cx = c * x;
    let sy = s * y;
    let sx = s * x;
    let cy = c * y;
    lemma_square_of_difference(cx, sy);
    lemma_square_of_difference(sx, -cy);
    assert(sx * (-cy) == -(sx * cy)) by (nonlinear_arith);
    assert((-cy) * (-cy) == cy * cy) by (nonlinear_arith);
    assert(cx * sy == sx * cy) by (nonlinear_arith)
        requires
            cx == c * x,
            sy == s * y,
            sx == s * x,
            cy == c * y,
    ;
    lemma_square_of_product(c, x);
    lemma_square_of_product(s, y);
    lemma_square_of_product(s, x);
    lemma_square_of_product(c, y);
    lemma_distribute(c * c, s * s, x * x + y * y);
    lemma_distribute(x * x, y * y, c * c);
    lemma_distribute(x * x, y * y, s * s);
}

/// Turning a vector stretches no coordinate beyond three times the largest.
pub proof fn lemma_rotated_within(v: SpecVec2, turn: SpecVec2, m: int)
    requires
        turn.is_unit(),
        v.within(m),
    ensures
        v.rotated(turn).within(3 * m),
{
    let u: int = 1_000_000;
    lemma_unit_within(turn);
    lemma_mul_within(turn.x, v.x, u + 1, m);
    lemma_mul_within(turn.y, v.y, u + 1, m);
    lemma_mul_within(turn.y, v.x, u + 1, m);
    lemma_mul_within(turn.x, v.y, u + 1, m);
    assert(2 * ((u + 1) * m) <= (3 * m) * u) by (nonlinear_arith)
        requires
            u == 1_000_000,
            m >= 0,
    ;
    lemma_div_round_le(turn.x * v.x - turn.y * v.y, u, 3 * m);
    lemma_div_round_le(turn.y * v.x + turn.x * v.y, u, 3 * m);
}

/// Turning a vector that is not zero never gives the zero vector.
pub proof fn lemma_rotated_nonzero(v: SpecVec2, turn: SpecVec2)
    requires
        turn.is_unit(),
        !v.is_zero(),
    ensures
        !v.rotated(turn).is_zero(),
{
    let u: int = 1_000_000;
    let ax = turn.x * v.x - turn.y * v.y;
    let ay = turn.y * v.x + turn.x * v.y;
    lemma_product_norm(turn.x, turn.y, v.x, v.y);
    lemma_div_round_error(ax, u);
    lemma_div_round_error(ay, u);
    if v.rotated(turn).is_zero() {
        let n = turn.norm_sq();
        let q = v.norm_sq();
        assert(q >= 1) by (nonlinear_arith)
            requires
                q == v.x * v.x + v.y * v.y,
                v.x != 0 || v.y != 0,
        ;
        assert(0nat * 0 == 0);
        assert(0 * u == 0);
        assert(4 * (ax * ax) <= u * u) by (nonlinear_arith)
            requires
                -u <= 2 * ax <= u,
        ;
        assert(4 * (ay * ay) <= u * u) by (nonlinear_arith)
            requires
                -u <= 2 * ay <= u,
        ;
        assert(n * q >= n) by (nonlinear_arith)
            requires
                q >= 1,
                n >= 0,
        ;
        assert(false);
    }
}

/// How far a turn may change the squared length of the vector `v`, times
/// `UNIT`: four times the squared length for a turn that is not quite of unit
/// length, and the rest for the rounding of the coordinates.
pub open spec fn norm_drift(v: SpecVec2) -> int {
    4 * v.norm_sq() + 2 * (UNIT + 1) * (magnitude(v.x) + magnitude(v.y)) + UNIT / 2
}

/// A turn keeps the length of a vector, up to rounding: the squared length
/// changes by no more than `norm_drift(v) / UNIT`.
pub proof fn lemma_rotated_norm(v: SpecVec2, turn: SpecVec2)
    requires
        turn.is_unit(),
    ensures
        UNIT * magnitude(v.rotated(turn).norm_sq() - v.norm_sq()) <= norm_drift(v),
{
    let u: int = 1_000_000;
    let w: int = 1_000_000_000_000;
    let ax = turn.x * v.x - turn.y * v.y;
    let ay = turn.y * v.x + turn.x * v.y;
    let r = v.rotated(turn);
    let n = turn.norm_sq();
    let q = v.norm_sq();
    let m = magnitude(v.x) + magnitude(v.y);
    lemma_unit_within(turn);
    lemma_product_norm(turn.x, turn.y, v.x, v.y);
    lemma_div_round_error(ax, u);
    lemma_div_round_error(ay, u);
    let ex = ax - r.x * u;
    let ey = ay - r.y * u;
    // the squared length after the turn, times w
    lemma_square_of_product(r.x, u);
    lemma_square_of_product(r.y, u);
    lemma_square_of_difference(ax, ex);
    lemma_square_of_difference(ay, ey);
    lemma_distribute(r.x * r.x, r.y * r.y, w);
    let t = r.norm_sq();
    let mixed = ax * ex + ay * ey;
    let tail = ex * ex + ey * ey;
    assert(u * u == w);
    assert(t * w == n * q - 2 * mixed + tail);
    // the three parts of the difference
    assert(q >= 0) by (nonlinear_arith)
        requires
            q == v.x * v.x + v.y * v.y,
    ;
    lemma_distribute(n, -w, q);
    assert((-w) * q == -(w * q)) by (nonlinear_arith);
    lemma_mul_within(n - w, q, 4 * u, q);
    lemma_mul_within(turn.x, v.x, u + 1, magnitude(v.x));
    lemma_mul_within(turn.y, v.y, u + 1, magnitude(v.y));
    lemma_mul_within(turn.y, v.x, u + 1, magnitude(v.x));
    lemma_mul_within(turn.x, v.y, u + 1, magnitude(v.y));
    lemma_distribute(magnitude(v.x), magnitude(v.y), u + 1);
    let reach = (u + 1) * m;
    assert(-reach <= ax <= reach);
    assert(-reach <= ay <= reach);
    lemma_mul_within(ax, 2 * ex, reach, u);
    lemma_mul_within(ay, 2 * ey, reach, u);
    assert(ax * (2 * ex) == 2 * (ax * ex)) by (nonlinear_arith);
    assert(ay * (2 * ey) == 2 * (ay * ey)) by (nonlinear_arith);
    assert(-(2 * (reach * u)) <= 2 * mixed <= 2 * (reach * u));
    lemma_mul_within(2 * ex, 2 * ex, u, u);
    lemma_mul_within(2 * ey, 2 * ey, u, u);
    assert((2 * ex) * (2 * ex) == 4 * (ex * ex) && ex * ex >= 0) by (nonlinear_arith);
    assert((2 * ey) * (2 * ey) == 4 * (ey * ey) && ey * ey >= 0) by (nonlinear_arith);
    assert(0 <= 2 * tail <= w);
    let d = t - q;
    lemma_distribute(t, -q, w);
    assert((-q) * w == -(w * q)) by (nonlinear_arith);
    assert(d * w == (n - w) * q - 2 * mixed + tail);
    let bound = 4 * q + 2 * reach;
    assert((4 * u) * q == u * (4 * q)) by (nonlinear_arith);
    assert(2 * (reach * u) == u * (2 * reach)) by (nonlinear_arith);
    lemma_distribute(4 * q, 2 * reach, u);
    assert(-(u * bound) <= d * w <= u * bound + w / 2);
    assert(-(2 * bound + u) <= 2 * (u * d) <= 2 * bound + u) by (nonlinear_arith)
        requires
            -(u * bound) <= d * w <= u * bound + w / 2,
            w == u * u,
            u == 1_000_000,
    ;
    assert(u * magnitude(d) == magnitude(u * d)) by (nonlinear_arith)
        requires
            u > 0,
    ;
    assert(2 * (u + 1) * m == 2 * reach) by (nonlinear_arith)
        requires
            reach == (u + 1) * m,
    ;
}

/// A turn moves a vector to the side on which the turn's sine lies: `UNIT`
/// times the cross product of the vector with its image is the sine times the
/// squared length, up to the rounding of the coordinates.
pub proof fn lemma_rotated_side(v: SpecVec2, turn: SpecVec2)
    ensures
        2 * magnitude(UNIT * v.perp_dot(v.rotated(turn)) - turn.y * v.norm_sq()) <= UNIT * (
        magnitude(v.x) + magnitude(v.y)),
{
    let u: int = 1_000_000;
    let ax = turn.x * v.x - turn.y * v.y;
    let ay = turn.y * v.x + turn.x * v.y;
    let r = v.rotated(turn);
    lemma_div_round_error(ax, u);
    lemma_div_round_error(ay, u);
    let ex = ax - r.x * u;
    let ey = ay - r.y * u;
    assert(v.x * ay - v.y * ax == turn.y * (v.x * v.x + v.y * v.y)) by (nonlinear_arith)
        requires
            ax == turn.x * v.x - turn.y * v.y,
            ay == turn.y * v.x + turn.x * v.y,
    ;
    assert(u * (v.x * r.y - v.y * r.x) == v.x * (r.y * u) - v.y * (r.x * u)) by (nonlinear_arith);
    lemma_distribute(ay, -ey, v.x);
    lemma_distribute(ax, -ex, v.y);
    assert(v.x * (-ey) == -(v.x * ey)) by (nonlinear_arith);
    assert(v.y * (-ex) == -(v.y * ex)) by (nonlinear_arith);
    let rest = v.x * ey - v.y * ex;
    assert(u * v.perp_dot(r) - turn.y * v.norm_sq() == -rest);
    lemma_mul_within(v.x, 2 * ey, magnitude(v.x), u);
    lemma_mul_within(v.y, 2 * ex, magnitude(v.y), u);
    assert(v.x * (2 * ey) == 2 * (v.x * ey)) by (nonlinear_arith);
    assert(v.y * (2 * ex) == 2 * (v.y * ex)) by (nonlinear_arith);
    lemma_distribute(magnitude(v.x), magnitude(v.y), u);
    assert(magnitude(v.x) * u == u * magnitude(v.x)) by (nonlinear_arith);
    assert(magnitude(v.y) * u == u * magnitude(v.y)) by (nonlinear_arith);
}

/// The direction of a vector points the way the vector does: their dot
/// product is positive.
pub proof fn lemma_unit_same_way(v: SpecVec2)
    requires
        !v.is_zero(),
    ensures
        v.dot(v.unit()) > 0,
{
    let w: int = 1_000_000_000_000;
    assert(UNIT * UNIT == w);
    lemma_scaled_len(v);
    lemma_unit_of_nonzero(v);
    lemma_unit_within(v.unit());
    let r = v.scaled_len() as int;
    let f = v.unit();
    lemma_div_round_error(v.x * w, r);
    lemma_div_round_error(v.y * w, r);
    assert(v.x >= 0 ==> v.x * w >= 0) by (nonlinear_arith)
        requires
            w > 0,
    ;
    assert(v.x <= 0 ==> v.x * w <= 0) by (nonlinear_arith)
        requires
            w > 0,
    ;
    assert(v.y >= 0 ==> v.y * w >= 0) by (nonlinear_arith)
        requires
            w > 0,
    ;
    assert(v.y <= 0 ==> v.y * w <= 0) by (nonlinear_arith)
        requires
            w > 0,
    ;
    assert(v.x == 0 ==> v.x * w == 0);
    assert(v.y == 0 ==> v.y * w == 0);
    assert(0 * r == 0);
    assert(v.x * f.x >= 0 && (f.x != 0 ==> v.x * f.x > 0)) by (nonlinear_arith)
        requires
            v.x >= 0 ==> f.x >= 0,
            v.x <= 0 ==> f.x <= 0,
    ;
    assert(v.y * f.y >= 0 && (f.y != 0 ==> v.y * f.y > 0)) by (nonlinear_arith)
        requires
            v.y >= 0 ==> f.y >= 0,
            v.y <= 0 ==> f.y <= 0,
    ;
}

} // verus!
