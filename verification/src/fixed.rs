//! Fixed-point scalar arithmetic: micro-unit values, saturating addition,
//! fixed-point multiplication, integer square root and an approximate
//! base-2 logarithm.

use vstd::prelude::*;
use vstd::arithmetic::div_mod::{
    lemma_div_is_ordered, lemma_div_multiples_vanish, lemma_div_pos_is_pos,
};
use vstd::arithmetic::power2::{
    pow2, lemma2_to64, lemma2_to64_rest, lemma_pow2_adds, lemma_pow2_strictly_increases,
};

verus! {

/// Number of raw micro-units in 1.0.
pub const ONE: i64 = 1_000_000;

/// Division truncating toward zero (the rounding of Rust's `/`), for a
/// positive divisor.
pub open spec fn div_trunc(a: int, b: int) -> int {
    if a >= 0 {
        a / b
    } else {
        -((-a) / b)
    }
}

/// `i64` addition that saturates at the ends of the representable range.
pub open spec fn sat_add_spec(a: int, b: int) -> int {
    if a + b > i64::MAX as int {
        i64::MAX as int
    } else if a + b < i64::MIN as int {
        i64::MIN as int
    } else {
        a + b
    }
}

pub fn sat_add(a: i64, b: i64) -> (r: i64)
    ensures
        r == sat_add_spec(a as int, b as int),
{
    if b >= 0 {
        if a > i64::MAX - b {
            i64::MAX
        } else {
            a + b
        }
    } else {
        if a < i64::MIN - b {
            i64::MIN
        } else {
            a + b
        }
    }
}

/// Division truncating toward zero, computed on magnitudes.
pub(crate) fn div_toward_zero(a: i64, b: i64) -> (r: i64)
    requires
        b > 0,
        a as int > i64::MIN as int,
    ensures
        r == div_trunc(a as int, b as int),
{
    if a >= 0 {
        let q: u64 = (a as u64) / (b as u64);
        q as i64
    } else {
        let m: i64 = -a;
        let q: u64 = (m as u64) / (b as u64);
        -(q as i64)
    }
}

/// Integer square root, rounded down: the unique `r` with
/// `r * r <= n < (r + 1) * (r + 1)`.
pub open spec fn isqrt_spec(n: nat) -> nat
    decreases n,
{
    if n == 0 {
        0
    } else {
        let r = 2 * isqrt_spec(n / 4);
        if (r + 1) * (r + 1) <= n {
            r + 1
        } else {
            r
        }
    }
}

pub proof fn lemma_isqrt_spec_bracket(n: nat)
    ensures
        isqrt_spec(n) * isqrt_spec(n) <= n,
        n < (isqrt_spec(n) + 1) * (isqrt_spec(n) + 1),
    decreases n,
{
    if n == 0 {
        assert(isqrt_spec(n) == 0);
        assert(isqrt_spec(n) * isqrt_spec(n) <= n) by (nonlinear_arith)
            requires
                isqrt_spec(n) == 0,
                n == 0,
        ;
        assert(n < (isqrt_spec(n) + 1) * (isqrt_spec(n) + 1)) by (nonlinear_arith)
            requires
                isqrt_spec(n) == 0,
                n == 0,
        ;
    } else {
        let q = n / 4;
        lemma_isqrt_spec_bracket(q);
        let r0 = isqrt_spec(q);
        assert(4 * q <= n < 4 * q + 4) by (nonlinear_arith)
            requires
                q == n / 4,
        ;
        assert((2 * r0) * (2 * r0) <= n) by (nonlinear_arith)
            requires
                r0 * r0 <= q,
                4 * q <= n,
        ;
        assert(n < (2 * r0 + 2) * (2 * r0 + 2)) by (nonlinear_arith)
            requires
                q < (r0 + 1) * (r0 + 1),
                n < 4 * q + 4,
        ;
        if (2 * r0 + 1) * (2 * r0 + 1) <= n {
            assert(isqrt_spec(n) == 2 * r0 + 1);
            assert(isqrt_spec(n) * isqrt_spec(n) <= n) by (nonlinear_arith)
                requires
                    isqrt_spec(n) == 2 * r0 + 1,
                    (2 * r0 + 1) * (2 * r0 + 1) <= n,
            ;
            assert(n < (isqrt_spec(n) + 1) * (isqrt_spec(n) + 1)) by (nonlinear_arith)
                requires
                    isqrt_spec(n) == 2 * r0 + 1,
                    n < (2 * r0 + 2) * (2 * r0 + 2),
            ;
        } else {
            assert(isqrt_spec(n) == 2 * r0);
            assert(isqrt_spec(n) * isqrt_spec(n) <= n) by (nonlinear_arith)
                requires
                    isqrt_spec(n) == 2 * r0,
                    (2 * r0) * (2 * r0) <= n,
            ;
            assert(n < (isqrt_spec(n) + 1) * (isqrt_spec(n) + 1)) by (nonlinear_arith)
                requires
                    isqrt_spec(n) == 2 * r0,
                    !((2 * r0 + 1) * (2 * r0 + 1) <= n),
            ;
        }
    }
}

pub proof fn lemma_isqrt_unique(n: nat, r: nat)
    requires
        r * r <= n,
        n < (r + 1) * (r + 1),
    ensures
        isqrt_spec(n) == r,
{
    lemma_isqrt_spec_bracket(n);
    let s = isqrt_spec(n);
    assert(s == r) by (nonlinear_arith)
        requires
            r * r <= n,
            n < (r + 1) * (r + 1),
            s * s <= n,
            n < (s + 1) * (s + 1),
    ;
}

/// Largest `u64` whose square still fits in a `u64`.
const SQRT_LIMIT: u64 = 4_294_967_295;

/// `SQRT_LIMIT * SQRT_LIMIT`.
const SQRT_LIMIT_SQ: u64 = 18_446_744_065_119_617_025;

pub fn isqrt(n: u64) -> (r: u64)
    ensures
        r == isqrt_spec(n as nat),
        r * r <= n,
{
    if n == 0 {
        proof {
            lemma_isqrt_unique(n as nat, 0);
        }
        return 0;
    }
    if n >= SQRT_LIMIT_SQ {
        proof {
            assert(SQRT_LIMIT as int * SQRT_LIMIT as int == SQRT_LIMIT_SQ as int)
                by (nonlinear_arith);
            assert((SQRT_LIMIT + 1) as int * (SQRT_LIMIT + 1) as int > u64::MAX as int)
                by (nonlinear_arith);
            lemma_isqrt_unique(n as nat, SQRT_LIMIT as nat);
        }
        return SQRT_LIMIT;
    }
    let mut lo: u64 = 0;
    let mut hi: u64 = SQRT_LIMIT;
    proof {
        assert(SQRT_LIMIT as int * SQRT_LIMIT as int == SQRT_LIMIT_SQ as int)
            by (nonlinear_arith);
    }
    if n < SQRT_LIMIT {
        hi = n + 1;
        proof {
            assert((n as int) < (n + 1) * (n + 1)) by (nonlinear_arith);
        }
    }
    while lo + 1 < hi
        invariant
            lo < hi <= SQRT_LIMIT,
            lo as int * lo as int <= n,
            (n as int) < hi as int * hi as int,
        decreases hi - lo,
    {
        let mid: u64 = lo + (hi - lo) / 2;
        proof {
            assert(mid as int * mid as int <= u64::MAX as int) by (nonlinear_arith)
                requires
                    mid <= 4_294_967_295u64,
            ;
        }
        if mid * mid <= n {
            lo = mid;
        } else {
            hi = mid;
        }
    }
    proof {
        assert((n as int) < (lo + 1) as int * (lo + 1) as int) by (nonlinear_arith)
            requires
                lo + 1 >= hi,
                (n as int) < hi as int * hi as int,
                hi > 0,
        ;
        lemma_isqrt_unique(n as nat, lo as nat);
    }
    lo
}

/// Piecewise-linear approximation of `ONE * log2(v / ONE)` for `v >= 1`:
/// exact at powers of two and linearly interpolated between them.
pub open spec fn log2_approx_spec(v: int) -> int
    recommends
        v >= 1,
    decreases (if v < ONE { 1int } else { 0int }), (if v < ONE { ONE - v } else { v }),
{
    if v <= 0 {
        0
    } else if v >= 2 * ONE {
        ONE + log2_approx_spec(v / 2)
    } else if v < ONE {
        log2_approx_spec(2 * v) - ONE
    } else {
        v - ONE
    }
}

/// The approximate logarithm is non-negative at and above `ONE` and
/// negative below it.
pub proof fn lemma_log2_approx_range(v: int)
    requires
        v >= 1,
    ensures
        v >= ONE ==> 0 <= log2_approx_spec(v),
        v < ONE ==> log2_approx_spec(v) < 0,
    decreases (if v < ONE { 1int } else { 0int }), (if v < ONE { ONE - v } else { v }),
{
    if v >= 2 * ONE {
        lemma_log2_approx_range(v / 2);
    } else if v < ONE {
        lemma_log2_approx_range(2 * v);
    }
}

/// The approximate logarithm never decreases as its argument grows.
pub proof fn lemma_log2_approx_monotone(v1: int, v2: int)
    requires
        1 <= v1 <= v2,
    ensures
        log2_approx_spec(v1) <= log2_approx_spec(v2),
    decreases (if v1 < ONE { 1int } else { 0int }), (if v1 < ONE { ONE - v1 } else { v2 }),
{
    if v1 >= 2 * ONE {
        lemma_log2_approx_monotone(v1 / 2, v2 / 2);
    } else if v2 < ONE {
        lemma_log2_approx_monotone(2 * v1, 2 * v2);
    } else if v1 < ONE {
        lemma_log2_approx_range(v1);
        lemma_log2_approx_range(v2);
    } else if v2 >= 2 * ONE {
        lemma_log2_approx_range(v2 / 2);
    }
}

pub fn log2_approx(v: i64) -> (r: i64)
    requires
        1 <= v,
    ensures
        r == log2_approx_spec(v as int),
        -20 * (ONE as int) <= r < 64 * (ONE as int),
{
    let mut m: i64 = v;
    let mut e: i64 = 0;
    if m >= 2 * ONE {
        proof {
            lemma2_to64();
            assert(m as int * pow2(0) <= v as int) by (nonlinear_arith)
                requires
                    pow2(0) == 1,
                    m == v,
            ;
        }
        while m >= 2 * ONE
            invariant
                ONE <= m,
                0 <= e <= 63,
                log2_approx_spec(v as int) == e * 1_000_000 + log2_approx_spec(m as int),
                m as int * pow2(e as nat) <= v as int,
            decreases m,
        {
            proof {
                lemma2_to64_rest();
                if e >= 63 {
                    if e > 63 {
                        lemma_pow2_strictly_increases(63, e as nat);
                    }
                    assert(m as int * pow2(e as nat) >= pow2(63)) by (nonlinear_arith)
                        requires
                            m >= 1,
                            pow2(e as nat) >= pow2(63),
                    ;
                    assert(false);
                }
                lemma_pow2_adds(e as nat, 1);
                lemma2_to64();
                assert(pow2((e + 1) as nat) == 2 * pow2(e as nat)) by (nonlinear_arith)
                    requires
                        pow2((e + 1) as nat) == pow2(e as nat) * pow2(1),
                        pow2(1) == 2,
                ;
                assert((m as int / 2) * pow2((e + 1) as nat) <= v as int) by (nonlinear_arith)
                    requires
                        pow2((e + 1) as nat) == 2 * pow2(e as nat),
                        m as int * pow2(e as nat) <= v as int,
                        pow2(e as nat) > 0,
                        m >= 2,
                ;
            }
            let half: u64 = (m as u64) / 2;
            proof {
                assert(half as int == m as int / 2);
                assert(half as int >= 1);
                assert((half as int) < m as int);
            }
            m = half as i64;
            e = e + 1;
        }
    } else {
        proof {
            lemma2_to64();
        }
        while m < ONE
            invariant
                1 <= m < 2 * ONE,
                -20 <= e <= 0,
                log2_approx_spec(v as int) == e * 1_000_000 + log2_approx_spec(m as int),
                pow2((-e) as nat) <= m as int,
            decreases 2 * ONE - m,
        {
            proof {
                lemma2_to64();
                if e <= -20 {
                    if -e > 20 {
                        lemma_pow2_strictly_increases(20, (-e) as nat);
                    }
                    assert(false);
                }
                lemma_pow2_adds((-e) as nat, 1);
                assert(pow2((-(e - 1)) as nat) == 2 * pow2((-e) as nat)) by (nonlinear_arith)
                    requires
                        pow2((-(e - 1)) as nat) == pow2((-e) as nat) * pow2(1),
                        pow2(1) == 2,
                ;
            }
            m = m * 2;
            e = e - 1;
        }
    }
    e * 1_000_000 + (m - ONE)
}

/// Products of bounded factors are bounded.
pub proof fn lemma_mul_bound(a: int, b: int, ma: int, mb: int)
    by (nonlinear_arith)
    requires
        -ma <= a <= ma,
        -mb <= b <= mb,
    ensures
        -(ma * mb) <= a * b <= ma * mb,
{
}

/// Magnitude bound for the truncating division: a numerator within
/// `m * b` of zero divides down to a quotient within `m` of zero.
pub proof fn lemma_div_trunc_bound(a: int, b: int, m: int)
    requires
        b >= 1,
        0 <= m,
        -(m * b) <= a <= m * b,
    ensures
        -m <= div_trunc(a, b) <= m,
{
    assert(m * b == b * m) by (nonlinear_arith);
    lemma_div_multiples_vanish(m, b);
    if a >= 0 {
        lemma_div_pos_is_pos(a, b);
        lemma_div_is_ordered(a, m * b, b);
    } else {
        lemma_div_pos_is_pos(-a, b);
        lemma_div_is_ordered(-a, m * b, b);
    }
}

/// Fixed-point product: `a * b / ONE`, truncated toward zero.
pub open spec fn fmul_spec(a: int, b: int) -> int {
    div_trunc(a * b, ONE as int)
}

/// Magnitude bound for the fixed-point product.
pub proof fn lemma_fmul_spec_bound(a: int, b: int, m: int)
    requires
        0 <= m,
        -(m * (ONE as int)) <= a * b <= m * (ONE as int),
    ensures
        -m <= fmul_spec(a, b) <= m,
{
    lemma_div_trunc_bound(a * b, ONE as int, m);
}

pub fn fmul(a: i64, b: i64) -> (r: i64)
    requires
        -(i64::MAX as int) <= a as int * b as int <= i64::MAX as int,
    ensures
        r == fmul_spec(a as int, b as int),
{
    let p: i64 = a * b;
    div_toward_zero(p, ONE)
}

} // verus!
