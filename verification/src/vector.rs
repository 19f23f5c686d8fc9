//! Two-dimensional vectors on the integer grid.

use vstd::prelude::*;
use vstd::arithmetic::div_mod::{
    lemma_div_is_ordered, lemma_div_multiples_vanish, lemma_div_pos_is_pos,
    lemma_fundamental_div_mod, lemma_mod_bound,
};
use crate::numeric::{
    abs, isqrt, is_floor_sqrt, lemma_isqrt, lemma_isqrt_is, lemma_isqrt_monotone,
    lemma_isqrt_square, product_le,
};

verus! {

/// Grid steps per world unit: a length of one world unit is stored as
/// `1_000_000_000`. Whatever is rounded to the grid is off by less than a
/// billionth of a world unit.
pub const UNIT: i64 = 1_000_000_000;

/// The shortest cap that the grid meets to one part in a hundred thousand.
/// A capped vector is less than two grid steps shorter than its cap.
pub const MIN_LIMIT: i64 = 200_000;

/// A vector, or a point, with both components in grid steps.
#[derive(Clone, Copy, Debug, PartialEq, Eq, Structural)]
pub struct Vector2 {
    pub x: i64,
    pub y: i64,
}

/// The mathematical vector that a [`Vector2`] stands for. Its components
/// are unbounded, so sums and differences of vectors never overflow.
pub struct Offset {
    pub x: int,
    pub y: int,
}

impl View for Vector2 {
    type V = Offset;

    open spec fn view(&self) -> Offset {
        Offset { x: self.x as int, y: self.y as int }
    }
}

/// The square of the length of `(x, y)`.
pub open spec fn norm_sq(x: int, y: int) -> int {
    x * x + y * y
}

/// The first component of `(c, d)` after the vector is stretched or shrunk
/// to length `m`: the real number `c * m / sqrt(c * c + d * d)` rounded
/// toward zero. The zero vector has no direction and stays zero.
pub open spec fn scaled(c: int, d: int, m: int) -> int {
    let s = norm_sq(c, d);
    if s == 0 {
        0
    } else if c >= 0 {
        isqrt((c * c * m * m) / s)
    } else {
        -isqrt((c * c * m * m) / s)
    }
}

/// The first component of `(c, d)` after its length is capped at `limit`:
/// unchanged where the vector is no longer than `limit`, rescaled to
/// `limit` where it is.
pub open spec fn limited(c: int, d: int, limit: int) -> int {
    if norm_sq(c, d) <= limit * limit {
        c
    } else {
        scaled(c, d, limit)
    }
}

impl Offset {
    /// The zero vector.
    pub open spec fn zero() -> Offset {
        Offset { x: 0, y: 0 }
    }

    /// The sum of two vectors.
    pub open spec fn plus(self, other: Offset) -> Offset {
        Offset { x: self.x + other.x, y: self.y + other.y }
    }

    /// The vector from `other` to `self`.
    pub open spec fn minus(self, other: Offset) -> Offset {
        Offset { x: self.x - other.x, y: self.y - other.y }
    }

    /// The square of the vector's length.
    pub open spec fn magnitude_sq(self) -> int {
        norm_sq(self.x, self.y)
    }

    /// The vector stretched or shrunk to length `m`, each component rounded
    /// toward zero.
    pub open spec fn rescaled(self, m: int) -> Offset {
        Offset { x: scaled(self.x, self.y, m), y: scaled(self.y, self.x, m) }
    }

    /// The vector with its length capped at `limit`.
    pub open spec fn capped(self, limit: int) -> Offset {
        Offset { x: limited(self.x, self.y, limit), y: limited(self.y, self.x, limit) }
    }
}

/// The distance between `a` and `b` is strictly less than `radius`.
pub open spec fn closer_than(a: Vector2, b: Vector2, radius: int) -> bool {
    radius > 0 && a@.minus(b@).magnitude_sq() < radius * radius
}

/// Builds the vector `(x, y)`.
pub fn vec2(x: i64, y: i64) -> (v: Vector2)
    ensures
        v.x == x,
        v.y == y,
{
    Vector2 { x, y }
}

/// The absolute value of `x`.
fn magnitude_of(x: i128) -> (r: u128)
    requires
        x > i128::MIN,
    ensures
        r == abs(x as int),
{
    if x >= 0 {
        x as u128
    } else {
        (-x) as u128
    }
}

/// The length that a component of absolute value `a` has after its vector,
/// whose other component has absolute value `b`, is rescaled to length
/// `m`: the largest `r` with `r * r * (a * a + b * b) <= a * a * m * m`,
/// found by bisection.
fn scaled_length(a: u128, b: u128, m: u128) -> (r: u128)
    requires
        a != 0 || b != 0,
        m <= i64::MAX,
        a * (2 * m) <= u128::MAX,
        b * m <= u128::MAX,
    ensures
        r == abs(scaled(a as int, b as int, m as int)),
        r <= m,
{
    let ghost s = norm_sq(a as int, b as int);
    let ghost p = a * a * m * m;
    let mut low: u128 = 0;
    let mut high: u128 = m + 1;
    proof {
        assert(s > 0 && s >= a * a) by (nonlinear_arith)
            requires
                s == a * a + b * b,
                a != 0 || b != 0,
        ;
        assert(0 <= p < ((m + 1) * (m + 1)) * s) by (nonlinear_arith)
            requires
                p == a * a * m * m,
                s >= a * a,
                s > 0,
                m >= 0,
        ;
        assert((0 * 0) * s <= p);
    }
    while high - low > 1
        invariant
            0 <= low < high <= m + 1,
            m <= i64::MAX,
            a * (2 * m) <= u128::MAX,
            b * m <= u128::MAX,
            s == norm_sq(a as int, b as int),
            s > 0,
            p == a * a * m * m,
            (low * low) * s <= p,
            p < (high * high) * s,
        decreases high - low,
    {
        let mid: u128 = low + (high - low) / 2;
        proof {
            assert(mid * b <= b * m && a * (m - mid) <= a * (2 * m) && a * (m + mid) <= a * (2
                * m)) by (nonlinear_arith)
                requires
                    0 <= mid <= m,
                    0 <= a,
                    0 <= b,
            ;
        }
        let u: u128 = mid * b;
        let v: u128 = a * (m - mid);
        let w: u128 = a * (m + mid);
        proof {
            assert((u * u <= v * w) <==> ((mid * mid) * s <= p)) by (nonlinear_arith)
                requires
                    u == mid * b,
                    v == a * (m - mid),
                    w == a * (m + mid),
                    s == a * a + b * b,
                    p == a * a * m * m,
            ;
        }
        if product_le(u, u, v, w) {
            low = mid;
        } else {
            high = mid;
        }
    }
    proof {
        lemma_scaled_is(a as int, b as int, m as int, low as int);
    }
    low
}

/// Rescales the vector `(x, y)` to length `magnitude`, each component
/// rounded toward zero. The zero vector stays zero.
pub(crate) fn rescale(x: i128, y: i128, magnitude: i64) -> (r: Vector2)
    requires
        0 <= magnitude,
        abs(x as int) * (2 * magnitude) <= u128::MAX,
        abs(y as int) * (2 * magnitude) <= u128::MAX,
        abs(x as int) <= i128::MAX,
        abs(y as int) <= i128::MAX,
    ensures
        r@ == (Offset { x: x as int, y: y as int }).rescaled(magnitude as int),
{
    if x == 0 && y == 0 {
        proof {
            law_zero_rescaled(magnitude as int);
        }
        return Vector2 { x: 0, y: 0 };
    }
    let ax: u128 = magnitude_of(x);
    let ay: u128 = magnitude_of(y);
    let m: u128 = magnitude as u128;
    proof {
        assert(ax * m <= ax * (2 * m) && ay * m <= ay * (2 * m)) by (nonlinear_arith)
            requires
                0 <= ax,
                0 <= ay,
                0 <= m,
        ;
        lemma_scaled_even(x as int, y as int, magnitude as int);
        lemma_scaled_even(y as int, x as int, magnitude as int);
    }
    let rx: u128 = scaled_length(ax, ay, m);
    let ry: u128 = scaled_length(ay, ax, m);
    Vector2 {
        x: if x >= 0 {
            rx as i64
        } else {
            -(rx as i64)
        },
        y: if y >= 0 {
            ry as i64
        } else {
            -(ry as i64)
        },
    }
}

/// Caps the length of the vector `(x, y)` at `limit`: a vector no longer
/// than `limit` is returned as it is, a longer one is rescaled to `limit`.
pub(crate) fn cap(x: i128, y: i128, limit: i64) -> (r: Vector2)
    requires
        0 <= limit,
        abs(x as int) <= 0x1_0000_0000_0000_0000,
        abs(y as int) <= 0x1_0000_0000_0000_0000,
    ensures
        r@ == (Offset { x: x as int, y: y as int }).capped(limit as int),
{
    let ax: u128 = magnitude_of(x);
    let ay: u128 = magnitude_of(y);
    let l: u128 = limit as u128;
    proof {
        assert(ax * ax == (x as int) * (x as int) && ay * ay == (y as int) * (y as int))
            by (nonlinear_arith)
            requires
                ax == x || ax == -x,
                ay == y || ay == -y,
        ;
        assert(norm_sq(y as int, x as int) == norm_sq(x as int, y as int));
        assert(ax > l ==> ax * ax > l * l) by (nonlinear_arith)
            requires
                0 <= l,
                0 <= ax,
        ;
        assert(ay > l ==> ay * ay > l * l) by (nonlinear_arith)
            requires
                0 <= l,
                0 <= ay,
        ;
        assert(0 <= ax * ax && 0 <= ay * ay) by (nonlinear_arith);
        assert(ax <= l && ay <= l ==> ax * ax + ay * ay <= 2 * (l * l) && l * l
            <= 0x3fff_ffff_ffff_ffff_0000_0000_0000_0001) by (nonlinear_arith)
            requires
                0 <= ax,
                0 <= ay,
                0 <= l <= 0x7fff_ffff_ffff_ffff,
        ;
    }
    if ax <= l && ay <= l && ax * ax + ay * ay <= l * l {
        Vector2 { x: x as i64, y: y as i64 }
    } else {
        proof {
            assert(ax * (2 * l) <= u128::MAX && ay * (2 * l) <= u128::MAX) by (nonlinear_arith)
                requires
                    0 <= ax <= 0x1_0000_0000_0000_0000,
                    0 <= ay <= 0x1_0000_0000_0000_0000,
                    0 <= l <= 0x7fff_ffff_ffff_ffff,
            ;
        }
        rescale(x, y, limit)
    }
}

impl Vector2 {
    /// The zero vector.
    pub fn zero() -> (v: Vector2)
        ensures
            v@ == Offset::zero(),
    {
        Vector2 { x: 0, y: 0 }
    }

    /// Whether the distance from `self` to `other` is strictly less than
    /// `radius`. Nothing is closer than a radius of zero or less.
    pub fn within(self, other: Vector2, radius: i64) -> (r: bool)
        ensures
            r == closer_than(self, other, radius as int),
    {
        if radius <= 0 {
            return false;
        }
        let dx: u128 = magnitude_of(self.x as i128 - other.x as i128);
        let dy: u128 = magnitude_of(self.y as i128 - other.y as i128);
        let rr: u128 = radius as u128;
        proof {
            let ix = self.x - other.x;
            let iy = self.y - other.y;
            assert(dx * dx == ix * ix && dy * dy == iy * iy) by (nonlinear_arith)
                requires
                    dx == ix || dx == -ix,
                    dy == iy || dy == -iy,
            ;
            assert(self@.minus(other@).magnitude_sq() == dx * dx + dy * dy);
            assert(dx >= rr ==> dx * dx >= rr * rr) by (nonlinear_arith)
                requires
                    0 <= rr,
                    0 <= dx,
            ;
            assert(dy >= rr ==> dy * dy >= rr * rr) by (nonlinear_arith)
                requires
                    0 <= rr,
                    0 <= dy,
            ;
            assert(0 <= dx * dx && 0 <= dy * dy) by (nonlinear_arith);
            assert(dx < rr && dy < rr ==> dx * dx + dy * dy <= 2 * (rr * rr) && rr * rr
                <= 0x3fff_ffff_ffff_ffff_0000_0000_0000_0001) by (nonlinear_arith)
                requires
                    0 <= dx,
                    0 <= dy,
                    0 <= rr <= 0x7fff_ffff_ffff_ffff,
            ;
        }
        dx < rr && dy < rr && dx * dx + dy * dy < rr * rr
    }

    /// The vector with the same direction and length `magnitude`, each
    /// component rounded toward zero. The zero vector has no direction and
    /// is returned unchanged. Any other vector comes out no longer than
    /// `magnitude` and less than two grid steps shorter.
    pub fn with_magnitude(self, magnitude: i64) -> (r: Vector2)
        requires
            0 <= magnitude,
        ensures
            r@ == self@.rescaled(magnitude as int),
            r@.magnitude_sq() <= magnitude * magnitude,
            self@ == Offset::zero() ==> r@ == Offset::zero(),
            self.x >= 0 ==> r.x >= 0,
            self.x <= 0 ==> r.x <= 0,
            self.y >= 0 ==> r.y >= 0,
            self.y <= 0 ==> r.y <= 0,
            self@ != Offset::zero() && magnitude >= 2 ==> (magnitude - 2) * (magnitude - 2)
                < r@.magnitude_sq(),
    {
        proof {
            assert(abs(self.x as int) * (2 * magnitude) <= u128::MAX && abs(self.y as int) * (2
                * magnitude) <= u128::MAX) by (nonlinear_arith)
                requires
                    0 <= abs(self.x as int) <= 0x8000_0000_0000_0000,
                    0 <= abs(self.y as int) <= 0x8000_0000_0000_0000,
                    0 <= magnitude <= 0x7fff_ffff_ffff_ffff,
            ;
            lemma_rescaled_norm(self@, magnitude as int);
            law_zero_rescaled(magnitude as int);
            law_scaled_sign(self.x as int, self.y as int, magnitude as int);
            law_scaled_sign(self.y as int, self.x as int, magnitude as int);
            if self@ != Offset::zero() && magnitude >= 2 {
                law_rescaled_length(self@, magnitude as int);
            }
        }
        rescale(self.x as i128, self.y as i128, magnitude)
    }

    /// The vector with its length capped at `limit`, for every limit from
    /// zero: unchanged where it is no longer than `limit`, otherwise
    /// rescaled to length `limit`, each component rounded toward zero. The
    /// rescaled vector is never longer than `limit` and less than two grid
    /// steps shorter. Where the limit is at least [`MIN_LIMIT`], two grid
    /// steps are within one part in a hundred thousand of it; of a limit
    /// of a few steps no grid can promise that.
    pub fn limit_magnitude(self, limit: i64) -> (r: Vector2)
        requires
            0 <= limit,
        ensures
            r@ == self@.capped(limit as int),
            r@.magnitude_sq() <= limit * limit,
            self@.magnitude_sq() <= limit * limit ==> r == self,
            self@.magnitude_sq() > limit * limit && limit >= 2 ==> (limit - 2) * (limit - 2)
                < r@.magnitude_sq(),
            self@.magnitude_sq() > limit * limit && limit >= MIN_LIMIT ==> (99_999 * limit)
                * (99_999 * limit) < 10_000_000_000 * r@.magnitude_sq(),
            self.x >= 0 ==> r.x >= 0,
            self.x <= 0 ==> r.x <= 0,
            self.y >= 0 ==> r.y >= 0,
            self.y <= 0 ==> r.y <= 0,
    {
        proof {
            lemma_capped_norm(self@, limit as int);
            law_scaled_sign(self.x as int, self.y as int, limit as int);
            law_scaled_sign(self.y as int, self.x as int, limit as int);
            if self@.magnitude_sq() > limit * limit && limit >= 2 {
                law_capped_length(self@, limit as int);
            }
            if self@.magnitude_sq() > limit * limit && limit >= MIN_LIMIT {
                law_capped_relative(self@, limit as int);
            }
        }
        cap(self.x as i128, self.y as i128, limit)
    }
}

/// Rescaling turns no component round: a rescaled component is no longer
/// than the target length and has the sign of the component it came from,
/// or is zero.
pub proof fn law_scaled_sign(c: int, d: int, m: int)
    requires
        0 <= m,
    ensures
        abs(scaled(c, d, m)) <= m,
        c >= 0 ==> scaled(c, d, m) >= 0,
        c <= 0 ==> scaled(c, d, m) <= 0,
{
    let s = norm_sq(c, d);
    assert(c * c >= 0 && d * d >= 0) by (nonlinear_arith);
    if s != 0 {
        let p = c * c * m * m;
        let top = s * (m * m);
        assert(0 <= p <= top) by (nonlinear_arith)
            requires
                p == c * c * m * m,
                top == s * (m * m),
                0 <= c * c <= s,
        ;
        assert(c == 0 ==> p == 0) by (nonlinear_arith)
            requires
                p == c * c * m * m,
        ;
        lemma_div_is_ordered(p, top, s);
        lemma_div_multiples_vanish(m * m, s);
        lemma_div_pos_is_pos(p, s);
        lemma_isqrt_monotone(p / s, m * m);
        lemma_isqrt_square(m);
        lemma_isqrt(p / s);
        if c == 0 {
            assert(p / s == 0);
            lemma_isqrt_square(0);
        }
    }
}

/// A rescaled component is the quotient of `c * m` by the vector's length,
/// rounded toward zero: its absolute value `a` is the largest whole number
/// with `a * a * s <= c * c * m * m`, where `s` is the square of that
/// length.
pub proof fn lemma_scaled_floor(c: int, d: int, m: int)
    requires
        norm_sq(c, d) != 0,
    ensures
        ({
            let a = abs(scaled(c, d, m));
            let s = norm_sq(c, d);
            (a * a) * s <= c * c * m * m < ((a + 1) * (a + 1)) * s
        }),
{
    let s = norm_sq(c, d);
    let p = c * c * m * m;
    assert(c * c >= 0 && d * d >= 0) by (nonlinear_arith);
    assert(0 <= p) by (nonlinear_arith)
        requires
            p == c * c * m * m,
    ;
    lemma_div_pos_is_pos(p, s);
    lemma_isqrt(p / s);
    let a = isqrt(p / s);
    assert(abs(scaled(c, d, m)) == a);
    lemma_fundamental_div_mod(p, s);
    lemma_mod_bound(p, s);
    assert((a * a) * s <= p) by (nonlinear_arith)
        requires
            a * a <= p / s,
            p == s * (p / s) + p % s,
            0 <= p % s,
            s > 0,
    ;
    assert(p < ((a + 1) * (a + 1)) * s) by (nonlinear_arith)
        requires
            (a + 1) * (a + 1) >= p / s + 1,
            p == s * (p / s) + p % s,
            p % s < s,
            s > 0,
    ;
}

/// A rescaled vector is never longer than the target length.
pub proof fn lemma_rescaled_norm(v: Offset, m: int)
    requires
        0 <= m,
    ensures
        v.rescaled(m).magnitude_sq() <= m * m,
{
    let s = norm_sq(v.x, v.y);
    assert(norm_sq(v.y, v.x) == s);
    assert(v.x * v.x >= 0 && v.y * v.y >= 0) by (nonlinear_arith);
    if s == 0 {
        assert(0 <= m * m) by (nonlinear_arith);
    } else {
        lemma_scaled_floor(v.x, v.y, m);
        lemma_scaled_floor(v.y, v.x, m);
        let rx = v.rescaled(m).x;
        let ry = v.rescaled(m).y;
        let a = abs(rx);
        let b = abs(ry);
        assert(rx * rx == a * a && ry * ry == b * b) by (nonlinear_arith)
            requires
                rx == a || rx == -a,
                ry == b || ry == -b,
        ;
        assert((a * a + b * b) * s <= (m * m) * s) by (nonlinear_arith)
            requires
                (a * a) * s <= v.x * v.x * m * m,
                (b * b) * s <= v.y * v.y * m * m,
                s == v.x * v.x + v.y * v.y,
        ;
        assert(a * a + b * b <= m * m) by (nonlinear_arith)
            requires
                (a * a + b * b) * s <= (m * m) * s,
                s > 0,
        ;
    }
}

/// A rescaled vector reaches the target length as nearly as the grid lets
/// it: it is no longer than `m`, one more step along both axes would carry
/// it beyond `m`, and so it is less than two grid steps shorter than `m`.
pub proof fn law_rescaled_length(v: Offset, m: int)
    requires
        0 <= m,
        v != Offset::zero(),
    ensures
        v.rescaled(m).magnitude_sq() <= m * m,
        m * m < norm_sq(abs(v.rescaled(m).x) + 1, abs(v.rescaled(m).y) + 1),
        m >= 2 ==> (m - 2) * (m - 2) < v.rescaled(m).magnitude_sq(),
{
    lemma_rescaled_norm(v, m);
    let s = norm_sq(v.x, v.y);
    assert(norm_sq(v.y, v.x) == s);
    assert(s > 0) by (nonlinear_arith)
        requires
            s == v.x * v.x + v.y * v.y,
            v.x != 0 || v.y != 0,
    ;
    lemma_scaled_floor(v.x, v.y, m);
    lemma_scaled_floor(v.y, v.x, m);
    let a = abs(v.rescaled(m).x);
    let b = abs(v.rescaled(m).y);
    let reach = (a + 1) * (a + 1) + (b + 1) * (b + 1);
    assert(reach * s > (m * m) * s) by (nonlinear_arith)
        requires
            reach == (a + 1) * (a + 1) + (b + 1) * (b + 1),
            v.x * v.x * m * m < ((a + 1) * (a + 1)) * s,
            v.y * v.y * m * m < ((b + 1) * (b + 1)) * s,
            s == v.x * v.x + v.y * v.y,
    ;
    assert(m * m < reach) by (nonlinear_arith)
        requires
            reach * s > (m * m) * s,
            s > 0,
    ;
    if m >= 2 {
        lemma_near_reach(a, b, m);
        let rx = v.rescaled(m).x;
        let ry = v.rescaled(m).y;
        assert(rx * rx == a * a && ry * ry == b * b) by (nonlinear_arith)
            requires
                rx == a || rx == -a,
                ry == b || ry == -b,
        ;
    }
}

/// A grid point one step short, on both axes, of leaving the circle of
/// radius `m` lies less than two steps inside it.
proof fn lemma_near_reach(a: int, b: int, m: int)
    requires
        0 <= a,
        0 <= b,
        2 <= m,
        m * m < (a + 1) * (a + 1) + (b + 1) * (b + 1),
    ensures
        (m - 2) * (m - 2) < a * a + b * b,
{
    let n = a * a + b * b;
    let k = a + b;
    if n <= (m - 2) * (m - 2) {
        assert(k * k <= 2 * n) by (nonlinear_arith)
            requires
                k == a + b,
                n == a * a + b * b,
        ;
        assert(k < 2 * m - 3) by (nonlinear_arith)
            requires
                k * k <= 2 * n,
                n <= (m - 2) * (m - 2),
                0 <= k,
                2 <= m,
        ;
        assert((a + 1) * (a + 1) + (b + 1) * (b + 1) == n + 2 * k + 2) by (nonlinear_arith)
            requires
                k == a + b,
                n == a * a + b * b,
        ;
        assert(n + 2 * k + 2 <= m * m) by (nonlinear_arith)
            requires
                n <= (m - 2) * (m - 2),
                k < 2 * m - 3,
        ;
    }
}

/// The zero vector has no direction to keep: rescaled to any length, it is
/// the zero vector still.
pub proof fn law_zero_rescaled(m: int)
    ensures
        Offset::zero().rescaled(m) == Offset::zero(),
{
    assert(norm_sq(0, 0) == 0);
}

/// A capped vector is never longer than the cap.
pub proof fn lemma_capped_norm(v: Offset, limit: int)
    requires
        0 <= limit,
    ensures
        v.capped(limit).magnitude_sq() <= limit * limit,
{
    assert(norm_sq(v.y, v.x) == norm_sq(v.x, v.y));
    if norm_sq(v.x, v.y) > limit * limit {
        lemma_rescaled_norm(v, limit);
    }
}

/// A whole number `a` with `a * a * s <= c * c * m * m < (a + 1) * (a + 1) * s`,
/// where `s` is the square of the vector's length, is the absolute value of
/// the rescaled component.
pub proof fn lemma_scaled_is(c: int, d: int, m: int, a: int)
    requires
        norm_sq(c, d) > 0,
        0 <= c,
        0 <= a,
        (a * a) * norm_sq(c, d) <= c * c * m * m < ((a + 1) * (a + 1)) * norm_sq(c, d),
    ensures
        scaled(c, d, m) == a,
{
    let s = norm_sq(c, d);
    let p = c * c * m * m;
    lemma_fundamental_div_mod(p, s);
    lemma_mod_bound(p, s);
    let q = p / s;
    assert(a * a <= q) by (nonlinear_arith)
        requires
            (a * a) * s <= p,
            p == s * q + p % s,
            p % s < s,
            s > 0,
    ;
    assert(q < (a + 1) * (a + 1)) by (nonlinear_arith)
        requires
            p < ((a + 1) * (a + 1)) * s,
            p == s * q + p % s,
            0 <= p % s,
            s > 0,
    ;
    assert(is_floor_sqrt(a, q));
    lemma_isqrt_is(q, a);
}

/// Rescaling looks at the signs of the components last: the rescaled
/// component of `(c, d)` is that of `(|c|, |d|)` with the sign of `c`.
pub proof fn lemma_scaled_even(c: int, d: int, m: int)
    ensures
        abs(scaled(c, d, m)) == abs(scaled(abs(c), abs(d), m)),
        c >= 0 ==> scaled(c, d, m) == abs(scaled(abs(c), abs(d), m)),
        c < 0 ==> scaled(c, d, m) == -abs(scaled(abs(c), abs(d), m)),
{
    let ac = abs(c);
    let ad = abs(d);
    assert(ac * ac == c * c && ad * ad == d * d) by (nonlinear_arith)
        requires
            ac == c || ac == -c,
            ad == d || ad == -d,
    ;
    assert(norm_sq(ac, ad) == norm_sq(c, d));
    assert(ac * ac * m * m == c * c * m * m) by (nonlinear_arith)
        requires
            ac * ac == c * c,
    ;
    assert(c * c >= 0 && d * d >= 0) by (nonlinear_arith);
    if norm_sq(c, d) != 0 {
        let p = c * c * m * m;
        assert(0 <= p) by (nonlinear_arith)
            requires
                p == c * c * m * m,
        ;
        lemma_div_pos_is_pos(p, norm_sq(c, d));
        lemma_isqrt(p / norm_sq(c, d));
    }
}

/// A vector longer than its cap comes out less than two grid steps shorter
/// than the cap.
pub proof fn law_capped_length(v: Offset, limit: int)
    requires
        2 <= limit,
        v.magnitude_sq() > limit * limit,
    ensures
        (limit - 2) * (limit - 2) < v.capped(limit).magnitude_sq() <= limit * limit,
{
    assert(norm_sq(v.y, v.x) == norm_sq(v.x, v.y));
    assert(limit * limit >= 0) by (nonlinear_arith);
    assert(v != Offset::zero()) by {
        if v == Offset::zero() {
            assert(norm_sq(0, 0) == 0);
        }
    }
    law_rescaled_length(v, limit);
}

/// Where the cap is at least [`MIN_LIMIT`], a vector longer than its cap
/// comes out within one part in a hundred thousand of the cap.
pub proof fn law_capped_relative(v: Offset, limit: int)
    requires
        MIN_LIMIT <= limit,
        v.magnitude_sq() > limit * limit,
    ensures
        (99_999 * limit) * (99_999 * limit) < 10_000_000_000 * v.capped(limit).magnitude_sq(),
{
    law_capped_length(v, limit);
    let n = v.capped(limit).magnitude_sq();
    assert((99_999 * limit) * (99_999 * limit) <= 10_000_000_000 * ((limit - 2) * (limit - 2)))
        by (nonlinear_arith)
        requires
            200_000 <= limit,
    ;
}

} // verus!
