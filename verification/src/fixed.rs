//! Fixed-point scalars: truncating division, integer square roots and
//! comparisons of products that do not fit a machine word.
use vstd::prelude::*;

verus! {

/// The fixed-point representation of 1.0: quantities are counted in thousandths.
pub const ONE: i32 = 1000;

/// Two to the power 64, the base in which a wide product is split.
pub open spec fn base() -> int {
    0x1_0000_0000_0000_0000
}

/// Quotient of `a` by `b` rounded toward zero, as machine division rounds.
pub open spec fn div_trunc(a: int, b: int) -> int
    recommends
        b > 0,
{
    if a >= 0 {
        a / b
    } else {
        -((-a) / b)
    }
}

/// `r` is the least natural number whose square reaches `n`.
pub open spec fn is_ceil_sqrt(n: int, r: int) -> bool {
    &&& r >= 0
    &&& r * r >= n
    &&& r > 0 ==> (r - 1) * (r - 1) < n
}

/// The square root of `n` rounded up to a whole number (0 for `n <= 0`).
pub open spec fn ceil_sqrt(n: int) -> int {
    choose|r: int| is_ceil_sqrt(n, r)
}

/// A truncated quotient lies between zero and the exact one: multiplied back
/// it never passes the dividend, and it misses it by less than the divisor.
pub proof fn lemma_div_trunc_bounds(a: int, b: int)
    requires
        b > 0,
    ensures
        a >= 0 ==> 0 <= div_trunc(a, b) * b <= a < div_trunc(a, b) * b + b,
        a <= 0 ==> 0 >= div_trunc(a, b) * b >= a > div_trunc(a, b) * b - b,
        a >= 0 ==> div_trunc(a, b) >= 0,
        a <= 0 ==> div_trunc(a, b) <= 0,
{
    if a >= 0 {
        vstd::arithmetic::div_mod::lemma_fundamental_div_mod(a, b);
        vstd::arithmetic::div_mod::lemma_mod_bound(a, b);
        assert(a / b >= 0 && (a / b) * b == b * (a / b)) by (nonlinear_arith)
            requires
                a >= 0,
                b > 0,
        ;
    } else {
        vstd::arithmetic::div_mod::lemma_fundamental_div_mod(-a, b);
        vstd::arithmetic::div_mod::lemma_mod_bound(-a, b);
        assert((-a) / b >= 0 && (-((-a) / b)) * b == -(b * ((-a) / b))) by (nonlinear_arith)
            requires
                -a >= 0,
                b > 0,
        ;
    }
}

/// A dividend within `c` divisors of zero has a quotient within `c` of zero.
pub proof fn lemma_div_trunc_within(a: int, b: int, c: int)
    requires
        b > 0,
        c >= 0,
        -(c * b) <= a <= c * b,
    ensures
        -c <= div_trunc(a, b) <= c,
{
    lemma_div_trunc_bounds(a, b);
    let q = div_trunc(a, b);
    assert(-c <= q <= c) by (nonlinear_arith)
        requires
            b > 0,
            c >= 0,
            -(c * b) <= a <= c * b,
            a >= 0 ==> 0 <= q * b <= a,
            a <= 0 ==> 0 >= q * b >= a,
            a >= 0 ==> q >= 0,
            a <= 0 ==> q <= 0,
    ;
}

/// At most one number is the rounded-up square root of `n`.
pub proof fn lemma_ceil_sqrt_unique(n: int, r1: int, r2: int)
    requires
        is_ceil_sqrt(n, r1),
        is_ceil_sqrt(n, r2),
    ensures
        r1 == r2,
{
    if r1 < r2 {
        assert(r1 * r1 <= (r2 - 1) * (r2 - 1)) by (nonlinear_arith)
            requires
                0 <= r1 <= r2 - 1,
        ;
    } else if r2 < r1 {
        assert(r2 * r2 <= (r1 - 1) * (r1 - 1)) by (nonlinear_arith)
            requires
                0 <= r2 <= r1 - 1,
        ;
    }
}

/// Every number has a rounded-up square root.
pub proof fn lemma_ceil_sqrt_exists(n: int)
    ensures
        is_ceil_sqrt(n, ceil_sqrt(n)),
    decreases n,
{
    if n <= 0 {
        assert(is_ceil_sqrt(n, 0));
    } else {
        lemma_ceil_sqrt_exists(n - 1);
        let r = ceil_sqrt(n - 1);
        if r * r >= n {
            assert(is_ceil_sqrt(n, r));
        } else {
            assert((r + 1) * (r + 1) >= n && r * r < n) by (nonlinear_arith)
                requires
                    r >= 0,
                    r * r >= n - 1,
                    r * r < n,
            ;
            assert(is_ceil_sqrt(n, r + 1));
        }
    }
}

/// A number that meets the definition is the rounded-up square root.
pub proof fn lemma_ceil_sqrt_is(n: int, r: int)
    requires
        is_ceil_sqrt(n, r),
    ensures
        ceil_sqrt(n) == r,
{
    lemma_ceil_sqrt_unique(n, r, ceil_sqrt(n));
}

/// Divides rounding toward zero.
pub fn div_toward_zero(a: i128, b: i128) -> (q: i128)
    requires
        b > 0,
    ensures
        q == div_trunc(a as int, b as int),
{
    a / b
}

/// Computes the square root of `n` rounded up, by bisection.
pub fn ceil_sqrt_u128(n: u128) -> (r: u128)
    ensures
        r == ceil_sqrt(n as int),
        is_ceil_sqrt(n as int, r as int),
        r <= base(),
{
    if n == 0 {
        proof {
            lemma_ceil_sqrt_is(0, 0);
        }
        return 0;
    }
    let top: u128 = 0xFFFF_FFFF_FFFF_FFFF;
    assert(top * top == 0xFFFF_FFFF_FFFF_FFFE_0000_0000_0000_0001) by (nonlinear_arith)
        requires
            top == 0xFFFF_FFFF_FFFF_FFFF,
    ;
    if n > top * top {
        proof {
            assert((top + 1) * (top + 1) >= n) by (nonlinear_arith)
                requires
                    top == 0xFFFF_FFFF_FFFF_FFFF,
                    n <= 0xFFFF_FFFF_FFFF_FFFF_FFFF_FFFF_FFFF_FFFF,
            ;
            lemma_ceil_sqrt_is(n as int, top + 1);
        }
        return top + 1;
    }
    let mut lo: u128 = 0;
    let mut hi: u128 = top;
    while hi - lo > 1
        invariant
            lo < hi <= top,
            top == 0xFFFF_FFFF_FFFF_FFFF,
            lo * lo < n <= hi * hi,
        decreases hi - lo,
    {
        let mid: u128 = lo + (hi - lo) / 2;
        assert(mid * mid <= 0xFFFF_FFFF_FFFF_FFFE_0000_0000_0000_0001) by (nonlinear_arith)
            requires
                0 <= mid <= 0xFFFF_FFFF_FFFF_FFFF,
        ;
        if mid * mid >= n {
            hi = mid;
        } else {
            lo = mid;
        }
    }
    proof {
        assert(hi - 1 == lo);
        lemma_ceil_sqrt_is(n as int, hi as int);
    }
    hi
}

/// Splits the product of `a` and `b` into a high part and a low 64-bit word.
fn mul_wide(a: u128, b: u64) -> (p: (u128, u64))
    ensures
        p.0 * base() + p.1 == a * b,
{
    let split: u128 = 0x1_0000_0000_0000_0000;
    let ah: u128 = a / split;
    let al: u128 = a % split;
    assert(al * b <= 0xFFFF_FFFF_FFFF_FFFE_0000_0000_0000_0001 && ah * b
        <= 0xFFFF_FFFF_FFFF_FFFE_0000_0000_0000_0001) by (nonlinear_arith)
        requires
            0 <= al <= 0xFFFF_FFFF_FFFF_FFFF,
            0 <= ah <= 0xFFFF_FFFF_FFFF_FFFF,
            0 <= b <= 0xFFFF_FFFF_FFFF_FFFF,
    ;
    let low: u128 = al * (b as u128);
    let high: u128 = ah * (b as u128);
    let carry: u128 = low / split;
    let lo: u64 = (low % split) as u64;
    let hi: u128 = high + carry;
    assert(hi * base() + lo == a * b) by (nonlinear_arith)
        requires
            a == ah * base() + al,
            low == al * b,
            high == ah * b,
            low == carry * base() + lo,
            hi == high + carry,
    ;
    (hi, lo)
}

/// Decides whether `a * b` exceeds `c * d`, though neither product need fit
/// in 128 bits.
pub fn product_exceeds(a: u128, b: u64, c: u128, d: u64) -> (r: bool)
    ensures
        r == (a * b > c * d),
{
    let p: (u128, u64) = mul_wide(a, b);
    let q: (u128, u64) = mul_wide(c, d);
    p.0 > q.0 || (p.0 == q.0 && p.1 > q.1)
}

} // verus!
