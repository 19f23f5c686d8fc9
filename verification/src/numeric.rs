//! Integer helpers: floor square roots, division that rounds toward zero,
//! and products too wide for 128 bits.

use vstd::prelude::*;

verus! {

/// `r` is the floor of the square root of `n`.
pub open spec fn is_floor_sqrt(r: int, n: int) -> bool {
    0 <= r && r * r <= n < (r + 1) * (r + 1)
}

/// The floor of the square root of `n`: the one `r >= 0` with
/// `r * r <= n < (r + 1) * (r + 1)`.
pub open spec fn isqrt(n: int) -> int {
    choose|r: int| is_floor_sqrt(r, n)
}

/// `a / n` rounded toward zero, for a positive `n`.
pub open spec fn quot(a: int, n: int) -> int {
    if a >= 0 {
        a / n
    } else {
        -((-a) / n)
    }
}

/// The absolute value of `a`.
pub open spec fn abs(a: int) -> int {
    if a >= 0 {
        a
    } else {
        -a
    }
}

/// Two to the power 64: the base in which a wide product is written.
pub open spec fn limb() -> int {
    0x1_0000_0000_0000_0000
}

/// The number that the two halves of a wide product stand for.
pub open spec fn wide(hi: u128, lo: u128) -> int {
    hi * 0x1_0000_0000_0000_0000_0000_0000_0000_0000int + lo
}

/// The product of `a` and `b` in full, as an upper and a lower half of 128
/// bits each.
pub fn mul_wide(a: u128, b: u128) -> (r: (u128, u128))
    ensures
        wide(r.0, r.1) == a * b,
{
    let a0: u128 = a % 0x1_0000_0000_0000_0000;
    let a1: u128 = a / 0x1_0000_0000_0000_0000;
    let b0: u128 = b % 0x1_0000_0000_0000_0000;
    let b1: u128 = b / 0x1_0000_0000_0000_0000;
    proof {
        lemma_limb_product(a0 as int, b0 as int);
        lemma_limb_product(a0 as int, b1 as int);
        lemma_limb_product(a1 as int, b0 as int);
        lemma_limb_product(a1 as int, b1 as int);
    }
    let p00: u128 = a0 * b0;
    let p01: u128 = a0 * b1;
    let p10: u128 = a1 * b0;
    let p11: u128 = a1 * b1;
    let t: u128 = p00 / 0x1_0000_0000_0000_0000 + p01 % 0x1_0000_0000_0000_0000 + p10
        % 0x1_0000_0000_0000_0000;
    let lo: u128 = p00 % 0x1_0000_0000_0000_0000 + (t % 0x1_0000_0000_0000_0000)
        * 0x1_0000_0000_0000_0000;
    let hi: u128 = p11 + p01 / 0x1_0000_0000_0000_0000 + p10 / 0x1_0000_0000_0000_0000 + t
        / 0x1_0000_0000_0000_0000;
    proof {
        let base = limb();
        let square = 0x1_0000_0000_0000_0000_0000_0000_0000_0000int;
        assert(base * base == square);
        assert(a * b == p11 * (base * base) + (p01 + p10) * base + p00) by (nonlinear_arith)
            requires
                a == a1 * base + a0,
                b == b1 * base + b0,
                p00 == a0 * b0,
                p01 == a0 * b1,
                p10 == a1 * b0,
                p11 == a1 * b1,
        ;
        let t1 = t as int / base;
        let t0 = t as int % base;
        assert(t == t1 * base + t0);
        assert(p00 == (p00 as int / base) * base + p00 as int % base);
        assert(p01 == (p01 as int / base) * base + p01 as int % base);
        assert(p10 == (p10 as int / base) * base + p10 as int % base);
        assert(hi * square == p11 * square + (p01 as int / base) * square + (p10 as int / base)
            * square + t1 * square);
        assert((p01 as int / base) * square == ((p01 as int / base) * base) * base)
            by (nonlinear_arith)
            requires
                square == base * base,
        ;
        assert((p10 as int / base) * square == ((p10 as int / base) * base) * base)
            by (nonlinear_arith)
            requires
                square == base * base,
        ;
        assert(t1 * square == (t1 * base) * base) by (nonlinear_arith)
            requires
                square == base * base,
        ;
        assert(lo == p00 as int % base + t0 * base);
        assert((p01 + p10) * base == p01 * base + p10 * base) by (nonlinear_arith);
    }
    (hi, lo)
}

/// Whether `a * b <= c * d`, with both products taken in full.
pub fn product_le(a: u128, b: u128, c: u128, d: u128) -> (r: bool)
    ensures
        r == (a * b <= c * d),
{
    let (h1, l1) = mul_wide(a, b);
    let (h2, l2) = mul_wide(c, d);
    h1 < h2 || (h1 == h2 && l1 <= l2)
}

/// The product of two numbers below two to the 64 is at most the square of
/// the largest of them.
proof fn lemma_limb_product(x: int, y: int)
    requires
        0 <= x < limb(),
        0 <= y < limb(),
    ensures
        0 <= x * y <= (limb() - 1) * (limb() - 1),
        (limb() - 1) * (limb() - 1) == 0xffff_ffff_ffff_fffe_0000_0000_0000_0001,
{
    assert(0 <= x * y <= (limb() - 1) * (limb() - 1)) by (nonlinear_arith)
        requires
            0 <= x <= limb() - 1,
            0 <= y <= limb() - 1,
    ;
}

/// No number has two floor square roots.
pub proof fn lemma_floor_sqrt_unique(n: int, r1: int, r2: int)
    requires
        is_floor_sqrt(r1, n),
        is_floor_sqrt(r2, n),
    ensures
        r1 == r2,
{
    if r1 < r2 {
        assert((r1 + 1) * (r1 + 1) <= r2 * r2) by (nonlinear_arith)
            requires
                0 <= r1,
                r1 + 1 <= r2,
        ;
    } else if r2 < r1 {
        assert((r2 + 1) * (r2 + 1) <= r1 * r1) by (nonlinear_arith)
            requires
                0 <= r2,
                r2 + 1 <= r1,
        ;
    }
}

/// Every natural number has a floor square root.
pub proof fn lemma_floor_sqrt_exists(n: int) -> (r: int)
    requires
        0 <= n,
    ensures
        is_floor_sqrt(r, n),
    decreases n,
{
    if n == 0 {
        assert(is_floor_sqrt(0, 0));
        0
    } else {
        let p = lemma_floor_sqrt_exists(n - 1);
        let q = p + 1;
        if q * q <= n {
            assert(n < (q + 1) * (q + 1)) by (nonlinear_arith)
                requires
                    n - 1 < q * q,
                    q == p + 1,
                    0 <= p,
            ;
            assert(is_floor_sqrt(q, n));
            q
        } else {
            assert(p * p <= n);
            assert(n < (p + 1) * (p + 1));
            assert(is_floor_sqrt(p, n));
            p
        }
    }
}

/// `isqrt` is the floor square root of every natural number.
pub proof fn lemma_isqrt(n: int)
    requires
        0 <= n,
    ensures
        is_floor_sqrt(isqrt(n), n),
{
    let r = lemma_floor_sqrt_exists(n);
    assert(is_floor_sqrt(r, n));
}

/// A floor square root of `n` is `isqrt(n)`.
pub proof fn lemma_isqrt_is(n: int, r: int)
    requires
        is_floor_sqrt(r, n),
    ensures
        isqrt(n) == r,
{
    lemma_floor_sqrt_unique(n, r, isqrt(n));
}

/// `isqrt` never decreases as its argument grows.
pub proof fn lemma_isqrt_monotone(a: int, b: int)
    requires
        0 <= a <= b,
    ensures
        isqrt(a) <= isqrt(b),
{
    lemma_isqrt(a);
    lemma_isqrt(b);
    let ra = isqrt(a);
    let rb = isqrt(b);
    if rb < ra {
        assert((rb + 1) * (rb + 1) <= ra * ra) by (nonlinear_arith)
            requires
                0 <= rb,
                rb + 1 <= ra,
        ;
    }
}

/// The square root of a perfect square.
pub proof fn lemma_isqrt_square(m: int)
    requires
        0 <= m,
    ensures
        isqrt(m * m) == m,
{
    assert(m * m < (m + 1) * (m + 1)) by (nonlinear_arith)
        requires
            0 <= m,
    ;
    lemma_isqrt_is(m * m, m);
}

} // verus!
