//! Saturating 64-bit fixed-point arithmetic, integer square roots, and
//! decimal digit strings.
//!
//! A score is an `i64` holding the real number `v / 10000`: four decimal
//! digits of fraction. All ranking arithmetic saturates at the `i64`
//! range instead of wrapping, and the spec functions below say exactly
//! what each operation returns.

use vstd::prelude::*;

verus! {

/// One unit of score: the fixed-point representation of 1.0.
pub const SCALE: i64 = 10000;

/// Clamp a mathematical integer into the `i64` range.
pub open spec fn sat64(x: int) -> int {
    if x > i64::MAX as int {
        i64::MAX as int
    } else if x < i64::MIN as int {
        i64::MIN as int
    } else {
        x
    }
}

/// Saturating addition of two scores.
pub fn sat_add(a: i64, b: i64) -> (r: i64)
    ensures
        r as int == sat64(a + b),
{
    let wide: i128 = a as i128 + b as i128;
    if wide > i64::MAX as i128 {
        i64::MAX
    } else if wide < i64::MIN as i128 {
        i64::MIN
    } else {
        wide as i64
    }
}

/// Saturating multiplication of two scores.
pub fn sat_mul(a: i64, b: i64) -> (r: i64)
    ensures
        r as int == sat64(a * b),
{
    proof {
        assert(i128::MIN <= (a as i128) * (b as i128) <= i128::MAX)
            by (nonlinear_arith)
            requires
                i64::MIN <= a <= i64::MAX,
                i64::MIN <= b <= i64::MAX,
        ;
    }
    let wide: i128 = (a as i128) * (b as i128);
    if wide > i64::MAX as i128 {
        i64::MAX
    } else if wide < i64::MIN as i128 {
        i64::MIN
    } else {
        wide as i64
    }
}

/// Clamp an unsigned count into the nonnegative `i64` range.
pub fn sat_of_u64(n: u64) -> (r: i64)
    ensures
        r as int == sat64(n as int),
{
    if n > i64::MAX as u64 {
        i64::MAX
    } else {
        n as i64
    }
}

/// The integer square root: the greatest `r` with `r * r <= n`.
pub open spec fn sqrt_floor(n: nat) -> nat
    decreases n,
{
    if n == 0 {
        0
    } else {
        let p = sqrt_floor((n - 1) as nat);
        if (p + 1) * (p + 1) <= n {
            p + 1
        } else {
            p
        }
    }
}

pub proof fn lemma_sqrt_floor_bounds(n: nat)
    ensures
        sqrt_floor(n) * sqrt_floor(n) <= n,
        n < (sqrt_floor(n) + 1) * (sqrt_floor(n) + 1),
    decreases n,
{
    if n == 0 {
        assert(sqrt_floor(0) == 0);
        let s = sqrt_floor(n);
        assert((s + 1) * (s + 1) == 1) by (nonlinear_arith)
            requires
                s == 0nat,
        ;
    } else {
        lemma_sqrt_floor_bounds((n - 1) as nat);
        let p = sqrt_floor((n - 1) as nat);
        assert(sqrt_floor(n) == if (p + 1) * (p + 1) <= n {
            p + 1
        } else {
            p
        });
        if (p + 1) * (p + 1) <= n {
            assert(sqrt_floor(n) == p + 1);
            assert(n <= (p + 1) * (p + 1));
            assert((p + 1) * (p + 1) < (p + 1 + 1) * (p + 1 + 1)) by (nonlinear_arith);
            assert(n < (sqrt_floor(n) + 1) * (sqrt_floor(n) + 1));
        } else {
            assert(p * p <= n);
            assert(n < (sqrt_floor(n) + 1) * (sqrt_floor(n) + 1));
        }
    }
}

/// The square root is pinned down by its two bounds.
pub proof fn lemma_sqrt_floor_unique(n: nat, r: nat)
    requires
        r * r <= n,
        n < (r + 1) * (r + 1),
    ensures
        sqrt_floor(n) == r,
{
    lemma_sqrt_floor_bounds(n);
    let s = sqrt_floor(n);
    if s < r {
        assert((s + 1) * (s + 1) <= r * r) by (nonlinear_arith)
            requires
                s + 1 <= r,
        ;
    }
    if r < s {
        assert((r + 1) * (r + 1) <= s * s) by (nonlinear_arith)
            requires
                r + 1 <= s,
        ;
    }
}

/// Integer square root by bisection.
pub fn isqrt64(n: u64) -> (r: u64)
    ensures
        r as nat == sqrt_floor(n as nat),
{
    let mut lo: u64 = 0;
    let mut hi: u64 = if n < 0xFFFF_FFFF {
        n
    } else {
        0xFFFF_FFFF
    };
    proof {
        assert(n < (n + 1) * (n + 1)) by (nonlinear_arith);
        assert((0x1_0000_0000int) * (0x1_0000_0000int) > n as int) by (nonlinear_arith)
            requires
                n <= u64::MAX,
        ;
    }
    while lo < hi
        invariant
            lo <= hi,
            hi <= 0xFFFF_FFFF,
            (lo as nat) * (lo as nat) <= n as nat,
            (n as nat) < ((hi + 1) as nat) * ((hi + 1) as nat),
        decreases hi - lo,
    {
        let mid: u64 = lo + (hi - lo + 1) / 2;
        proof {
            vstd::arithmetic::div_mod::lemma_fundamental_div_mod(n as int, mid as int);
        }
        if mid <= n / mid {
            proof {
                assert(mid * mid <= n) by (nonlinear_arith)
                    requires
                        mid > 0,
                        mid <= n / mid,
                        n == mid * (n / mid) + n % mid,
                        0 <= n % mid < mid,
                ;
            }
            lo = mid;
        } else {
            proof {
                assert(n < mid * mid) by (nonlinear_arith)
                    requires
                        mid > 0,
                        mid > n / mid,
                        n == mid * (n / mid) + n % mid,
                        0 <= n % mid < mid,
                ;
            }
            hi = mid - 1;
        }
    }
    proof {
        lemma_sqrt_floor_unique(n as nat, lo as nat);
    }
    lo
}

/// The character of one decimal digit.
pub open spec fn digit_char(d: nat) -> char
    recommends
        d < 10,
{
    if d == 0 {
        '0'
    } else if d == 1 {
        '1'
    } else if d == 2 {
        '2'
    } else if d == 3 {
        '3'
    } else if d == 4 {
        '4'
    } else if d == 5 {
        '5'
    } else if d == 6 {
        '6'
    } else if d == 7 {
        '7'
    } else if d == 8 {
        '8'
    } else {
        '9'
    }
}

/// The decimal digit string of a natural number, most significant first.
pub open spec fn dec_str_of(n: nat) -> Seq<char>
    decreases n,
{
    if n < 10 {
        seq![digit_char(n)]
    } else {
        dec_str_of(n / 10) + seq![digit_char(n % 10)]
    }
}

fn digit_of(d: u64) -> (c: char)
    requires
        d < 10,
    ensures
        c == digit_char(d as nat),
{
    if d == 0 {
        '0'
    } else if d == 1 {
        '1'
    } else if d == 2 {
        '2'
    } else if d == 3 {
        '3'
    } else if d == 4 {
        '4'
    } else if d == 5 {
        '5'
    } else if d == 6 {
        '6'
    } else if d == 7 {
        '7'
    } else if d == 8 {
        '8'
    } else {
        '9'
    }
}

/// Append the decimal digits of `n` to `out`.
pub fn push_dec(n: u64, out: &mut Vec<char>)
    ensures
        final(out)@ == old(out)@ + dec_str_of(n as nat),
    decreases n,
{
    if n < 10 {
        out.push(digit_of(n));
    } else {
        push_dec(n / 10, out);
        out.push(digit_of(n % 10));
    }
}

} // verus!
