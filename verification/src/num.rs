//! Integer arithmetic for the fixed-point world model: saturating
//! addition, truncating division, damping, and an integer square root.

use vstd::prelude::*;

verus! {

/// Addition on `i64` values that saturates at the representable range.
pub open spec fn sat_add_spec(a: int, b: int) -> int {
    if a + b > i64::MAX as int {
        i64::MAX as int
    } else if a + b < i64::MIN as int {
        i64::MIN as int
    } else {
        a + b
    }
}

/// Saturating addition: the exec counterpart of `sat_add_spec`.
pub fn sat_add(a: i64, b: i64) -> (r: i64)
    ensures
        r == sat_add_spec(a as int, b as int),
{
    if b >= 0 {
        if a <= i64::MAX - b {
            a + b
        } else {
            i64::MAX
        }
    } else {
        if a >= i64::MIN - b {
            a + b
        } else {
            i64::MIN
        }
    }
}

/// Division that truncates toward zero, for a positive divisor.
/// On nonnegative dividends this agrees with Euclidean division.
pub open spec fn tdiv_spec(a: int, b: int) -> int
    recommends
        b > 0,
{
    if a >= 0 {
        a / b
    } else {
        -((-a) / b)
    }
}

/// Truncating division of bounded `i64` values by a positive divisor.
pub fn tdiv(a: i64, b: i64) -> (r: i64)
    requires
        b > 0,
        -0x4000_0000_0000_0000 <= a <= 0x4000_0000_0000_0000,
    ensures
        r == tdiv_spec(a as int, b as int),
{
    if a >= 0 {
        let q: u64 = (a as u64) / (b as u64);
        proof {
            assert(q == a as int / b as int) by (nonlinear_arith)
                requires
                    a >= 0,
                    b > 0,
                    q == (a as u64) / (b as u64),
                    a as u64 == a as int,
                    b as u64 == b as int,
            ;
            assert(q <= a) by (nonlinear_arith)
                requires
                    a >= 0,
                    b >= 1,
                    q == a as int / b as int,
            ;
        }
        q as i64
    } else {
        let n: i64 = -a;
        let q: u64 = (n as u64) / (b as u64);
        proof {
            assert(q == n as int / b as int) by (nonlinear_arith)
                requires
                    n >= 0,
                    b > 0,
                    q == (n as u64) / (b as u64),
                    n as u64 == n as int,
                    b as u64 == b as int,
            ;
            assert(q <= n) by (nonlinear_arith)
                requires
                    n >= 0,
                    b >= 1,
                    q == n as int / b as int,
            ;
        }
        -(q as i64)
    }
}

/// One frame of momentum dissipation on a single component: nine tenths
/// of the value, truncated toward zero.
pub open spec fn damp_spec(m: int) -> int {
    tdiv_spec(m * 9, 10)
}

/// The magnitude of a value.
pub open spec fn abs_val(v: int) -> int {
    if v >= 0 {
        v
    } else {
        -v
    }
}

/// Damping takes the magnitude to nine tenths, up to truncation loss.
pub proof fn lemma_damp_rate(m: int)
    ensures
        9 * abs_val(m) - 9 <= 10 * abs_val(damp_spec(m)),
        10 * abs_val(damp_spec(m)) <= 9 * abs_val(m),
{
}

/// Damping never grows a component and strictly shrinks a nonzero one.
pub proof fn lemma_damp_shrinks(m: int)
    ensures
        m == 0 ==> damp_spec(m) == 0,
        m > 0 ==> 0 <= damp_spec(m) < m,
        m < 0 ==> m < damp_spec(m) <= 0,
{
    if m > 0 {
        assert(m * 9 / 10 < m && m * 9 / 10 >= 0) by (nonlinear_arith)
            requires
                m > 0,
        ;
    } else if m < 0 {
        assert((-m) * 9 / 10 < -m && (-m) * 9 / 10 >= 0) by (nonlinear_arith)
            requires
                m < 0,
        ;
    }
}

/// Exec damping of one momentum component.
pub fn damp(m: i64) -> (r: i64)
    requires
        -0x0700_0000_0000_0000 <= m <= 0x0700_0000_0000_0000,
    ensures
        r == damp_spec(m as int),
{
    tdiv(m * 9, 10)
}

/// Integer square root, defined by counting up.
pub open spec fn isqrt_spec(n: nat) -> nat
    decreases n,
{
    if n == 0 {
        0
    } else {
        let r = isqrt_spec((n - 1) as nat);
        if (r + 1) * (r + 1) <= n {
            r + 1
        } else {
            r
        }
    }
}

/// `isqrt_spec(n)` is the floor of the square root of `n`.
pub proof fn lemma_isqrt_bounds(n: nat)
    ensures
        isqrt_spec(n) * isqrt_spec(n) <= n,
        n < (isqrt_spec(n) + 1) * (isqrt_spec(n) + 1),
    decreases n,
{
    if n > 0 {
        lemma_isqrt_bounds((n - 1) as nat);
        let r = isqrt_spec((n - 1) as nat);
        if (r + 1) * (r + 1) <= n {
            assert(isqrt_spec(n) == r + 1);
            assert(n < (isqrt_spec(n) + 1) * (isqrt_spec(n) + 1)) by (nonlinear_arith)
                requires
                    isqrt_spec(n) == r + 1,
                    n <= (r + 1) * (r + 1),
                    r >= 0,
            ;
        } else {
            assert(isqrt_spec(n) == r);
        }
    } else {
        assert(isqrt_spec(n) == 0);
        assert(n < (isqrt_spec(n) + 1) * (isqrt_spec(n) + 1)) by (nonlinear_arith)
            requires
                n == 0,
                isqrt_spec(n) == 0,
        ;
    }
}

/// The floor of the square root is unique.
pub proof fn lemma_isqrt_unique(n: nat, r: nat)
    requires
        r * r <= n,
        n < (r + 1) * (r + 1),
    ensures
        r == isqrt_spec(n),
{
    lemma_isqrt_bounds(n);
    let s = isqrt_spec(n);
    if r < s {
        assert((r + 1) * (r + 1) <= s * s) by (nonlinear_arith)
            requires
                r + 1 <= s,
        ;
    }
    if s < r {
        assert((s + 1) * (s + 1) <= r * r) by (nonlinear_arith)
            requires
                s + 1 <= r,
        ;
    }
}

/// A value whose square stays under `(b + 1)^2` is at most `b` in magnitude.
pub proof fn lemma_sq_le(a: int, b: int)
    by (nonlinear_arith)
    requires
        a * a < (b + 1) * (b + 1),
        b >= 0,
    ensures
        -b <= a <= b,
{
}

/// Dividing a value of magnitude at most `l * c` by `l` gives at most `c`.
pub proof fn lemma_tdiv_bound(a: int, l: int, c: int)
    requires
        l >= 1,
        c >= 0,
        -(l * c) <= a <= l * c,
    ensures
        -c <= tdiv_spec(a, l) <= c,
{
    if a >= 0 {
        assert(a / l <= c && a / l >= 0) by (nonlinear_arith)
            requires
                l >= 1,
                c >= 0,
                0 <= a <= l * c,
        ;
    } else {
        assert((-a) / l <= c && (-a) / l >= 0) by (nonlinear_arith)
            requires
                l >= 1,
                c >= 0,
                0 <= -a <= l * c,
        ;
    }
}

/// Integer square root of a `u64`, by binary search.
pub fn isqrt(n: u64) -> (r: u64)
    ensures
        r == isqrt_spec(n as nat),
{
    let mut lo: u64 = 0;
    let mut hi: u64 = 0xFFFF_FFFF;
    if n >= 0xFFFF_FFFE_0000_0001 {
        proof {
            lemma_isqrt_unique(n as nat, 0xFFFF_FFFFu64 as nat);
        }
        return 0xFFFF_FFFF;
    }
    while lo < hi
        invariant
            lo <= hi <= 0xFFFF_FFFF,
            lo * lo <= n,
            n < (hi + 1) * (hi + 1),
        decreases hi - lo,
    {
        let mid: u64 = lo + (hi - lo + 1) / 2;
        proof {
            assert(mid * mid <= 0xFFFF_FFFF * 0xFFFF_FFFF) by (nonlinear_arith)
                requires
                    mid <= 0xFFFF_FFFF,
            ;
        }
        if mid * mid <= n {
            lo = mid;
        } else {
            hi = mid - 1;
        }
    }
    proof {
        lemma_isqrt_unique(n as nat, lo as nat);
    }
    lo
}

} // verus!
