//! Vector-similarity utilities over fixed-point vectors: cosine
//! similarity and chunked mean down-projection.
//!
//! Vector entries are 64-bit fixed-point numbers (scale 10000), supplied
//! by an external embedding producer; this module only consumes them.
//! The bounds on length and magnitude keep every sum inside the machine
//! range.

use vstd::prelude::*;

use crate::fixed::{sat64, sqrt_floor, isqrt64, lemma_sqrt_floor_bounds};
use vstd::arithmetic::div_mod::{lemma_div_is_ordered, lemma_div_multiples_vanish};

verus! {

/// Longest vector the similarity utilities accept.
pub const EMBED_LEN_MAX: usize = 1048576;

/// Largest entry magnitude the similarity utilities accept (104.8576 in
/// real units, far above any unit-scale embedding entry).
pub const EMBED_ABS_MAX: i64 = 1048576;

/// Entries within the accepted magnitude.
pub open spec fn entries_bounded(v: Seq<i64>) -> bool {
    forall|i: int| 0 <= i < v.len() ==> -(EMBED_ABS_MAX as int) <= #[trigger] v[i] <= EMBED_ABS_MAX as int
}

/// The dot product of the first `n` entries.
pub open spec fn dot_spec(a: Seq<i64>, b: Seq<i64>, n: int) -> int
    decreases n,
{
    if n <= 0 {
        0
    } else {
        dot_spec(a, b, n - 1) + a[n - 1] * b[n - 1]
    }
}

/// Truncating division, the machine's signed division.
pub open spec fn tdiv(a: int, b: int) -> int {
    if a >= 0 {
        a / b
    } else {
        -((-a) / b)
    }
}

/// Cosine similarity in fixed point: zero for empty vectors or a
/// zero-magnitude side, else the dot product over the product of the
/// rounded magnitudes, clamped into the result range.
pub open spec fn cos_sim_spec(a: Seq<i64>, b: Seq<i64>) -> int {
    let n = a.len() as int;
    if n == 0 {
        0
    } else {
        let dd = dot_spec(a, b, n);
        let aa = dot_spec(a, a, n);
        let bb = dot_spec(b, b, n);
        if aa <= 0 || bb <= 0 {
            0
        } else {
            let ra = sqrt_floor(aa as nat) as int;
            let rb = sqrt_floor(bb as nat) as int;
            sat64(tdiv(dd * 10000, ra * rb))
        }
    }
}

/// The dot product grows by at most one bounded product per entry.
pub proof fn lemma_dot_bound(a: Seq<i64>, b: Seq<i64>, n: int)
    requires
        0 <= n <= a.len(),
        n <= b.len(),
        entries_bounded(a),
        entries_bounded(b),
    ensures
        -(n * 0x10000000000) <= dot_spec(a, b, n) <= n * 0x10000000000,
    decreases n,
{
    if n > 0 {
        lemma_dot_bound(a, b, n - 1);
        assert(-0x10000000000 <= a[n - 1] * b[n - 1] <= 0x10000000000) by (nonlinear_arith)
            requires
                -1048576 <= a[n - 1] <= 1048576,
                -1048576 <= b[n - 1] <= 1048576,
        ;
    }
}

/// A dot product of a vector with itself is never negative.
pub proof fn lemma_dot_self_nonneg(a: Seq<i64>, n: int)
    requires
        0 <= n <= a.len(),
    ensures
        dot_spec(a, a, n) >= 0,
    decreases n,
{
    if n > 0 {
        lemma_dot_self_nonneg(a, n - 1);
        assert(a[n - 1] * a[n - 1] >= 0) by (nonlinear_arith);
    }
}

/// Cosine similarity of two vectors of equal length within the accepted
/// bounds; zero-length input is refused by the caller's bounds here
/// only through the specification's own case.
pub fn comparare_cos(embed_1: &[i64], embed_2: &[i64]) -> (r: i64)
    requires
        embed_1@.len() == embed_2@.len(),
        embed_1@.len() <= EMBED_LEN_MAX,
        entries_bounded(embed_1@),
        entries_bounded(embed_2@),
    ensures
        r as int == cos_sim_spec(embed_1@, embed_2@),
{
    let n = embed_1.len();
    if n == 0 {
        return 0;
    }
    let ghost av = embed_1@;
    let ghost bv = embed_2@;
    let mut dd: i128 = 0;
    let mut aa: i128 = 0;
    let mut bb: i128 = 0;
    let mut i: usize = 0;
    proof {
        lemma_dot_bound(av, bv, 0);
    }
    while i < n
        invariant
            av == embed_1@,
            bv == embed_2@,
            n == av.len() == bv.len(),
            n <= EMBED_LEN_MAX,
            entries_bounded(av),
            entries_bounded(bv),
            i <= n,
            dd as int == dot_spec(av, bv, i as int),
            aa as int == dot_spec(av, av, i as int),
            bb as int == dot_spec(bv, bv, i as int),
        decreases n - i,
    {
        proof {
            lemma_dot_bound(av, bv, i as int);
            lemma_dot_bound(av, av, i as int);
            lemma_dot_bound(bv, bv, i as int);
            assert(-0x10000000000 <= av[i as int] * bv[i as int] <= 0x10000000000)
                by (nonlinear_arith)
                requires
                    -1048576 <= av[i as int] <= 1048576,
                    -1048576 <= bv[i as int] <= 1048576,
            ;
            assert(-0x10000000000 <= av[i as int] * av[i as int] <= 0x10000000000)
                by (nonlinear_arith)
                requires
                    -1048576 <= av[i as int] <= 1048576,
            ;
            assert(-0x10000000000 <= bv[i as int] * bv[i as int] <= 0x10000000000)
                by (nonlinear_arith)
                requires
                    -1048576 <= bv[i as int] <= 1048576,
            ;
        }
        let x = embed_1[i];
        let y = embed_2[i];
        dd = dd + (x as i128) * (y as i128);
        aa = aa + (x as i128) * (x as i128);
        bb = bb + (y as i128) * (y as i128);
        i = i + 1;
    }
    proof {
        lemma_dot_self_nonneg(av, n as int);
        lemma_dot_self_nonneg(bv, n as int);
        lemma_dot_bound(av, av, n as int);
        lemma_dot_bound(bv, bv, n as int);
        lemma_dot_bound(av, bv, n as int);
    }
    if aa <= 0 || bb <= 0 {
        return 0;
    }
    proof {
        assert((n as int) * 0x10000000000 <= 0x1000000000000000) by (nonlinear_arith)
            requires
                0 <= n as int <= 1048576,
        ;
    }
    let ra: u64 = isqrt64(aa as u64);
    let rb: u64 = isqrt64(bb as u64);
    proof {
        lemma_sqrt_floor_bounds(aa as nat);
        lemma_sqrt_floor_bounds(bb as nat);
        if sqrt_floor(aa as nat) == 0 {
            assert((sqrt_floor(aa as nat) + 1) * (sqrt_floor(aa as nat) + 1) == 1)
                by (nonlinear_arith)
                requires
                    sqrt_floor(aa as nat) == 0,
            ;
        }
        if sqrt_floor(bb as nat) == 0 {
            assert((sqrt_floor(bb as nat) + 1) * (sqrt_floor(bb as nat) + 1) == 1)
                by (nonlinear_arith)
                requires
                    sqrt_floor(bb as nat) == 0,
            ;
        }
        assert(sqrt_floor(aa as nat) >= 1);
        assert(sqrt_floor(bb as nat) >= 1);
        assert(sqrt_floor(aa as nat) * sqrt_floor(aa as nat) <= aa as nat);
        assert(sqrt_floor(aa as nat) <= aa as nat) by (nonlinear_arith)
            requires
                sqrt_floor(aa as nat) * sqrt_floor(aa as nat) <= aa as nat,
                sqrt_floor(aa as nat) >= 1,
        ;
        assert(sqrt_floor(bb as nat) <= bb as nat) by (nonlinear_arith)
            requires
                sqrt_floor(bb as nat) * sqrt_floor(bb as nat) <= bb as nat,
                sqrt_floor(bb as nat) >= 1,
        ;
    }
    proof {
        assert((ra as int) * (ra as int) <= 0x1000000000000000 && (rb as int) * (rb as int)
            <= 0x1000000000000000);
        assert(ra as int <= 0x40000000 && rb as int <= 0x40000000) by (nonlinear_arith)
            requires
                (ra as int) * (ra as int) <= 0x1000000000000000,
                (rb as int) * (rb as int) <= 0x1000000000000000,
                ra >= 0,
                rb >= 0,
        ;
    }
    let neg = dd < 0;
    let mag: u128 = if neg {
        (-dd) as u128
    } else {
        dd as u128
    };
    let num: u128 = mag * 10000;
    proof {
        assert(1 <= (ra as int) * (rb as int) <= 0x1000000000000000) by (nonlinear_arith)
            requires
                1 <= ra as int <= 0x40000000,
                1 <= rb as int <= 0x40000000,
        ;
    }
    let den: u128 = (ra as u128) * (rb as u128);
    proof {
        assert(num as int == mag as int * 10000);
        assert(den as int == ra as int * rb as int);
    }
    let q: u128 = num / den;
    if neg {
        let r: i64 = if q >= 0x8000000000000000u128 {
            i64::MIN
        } else {
            -(q as i64)
        };
        proof {
            assert(q as int == (mag as int * 10000) / (ra as int * rb as int));
            assert(r as int == sat64(tdiv(
                dot_spec(av, bv, n as int) * 10000,
                (ra as int) * (rb as int),
            )));
        }
        r
    } else {
        let r: i64 = if q > i64::MAX as u128 {
            i64::MAX
        } else {
            q as i64
        };
        proof {
            assert(q as int == (mag as int * 10000) / (ra as int * rb as int));
            assert(r as int == sat64(tdiv(
                dot_spec(av, bv, n as int) * 10000,
                (ra as int) * (rb as int),
            )));
        }
        r
    }
}

proof fn lemma_dot_zero(b: Seq<i64>, n: int)
    requires
        0 <= n <= b.len(),
        forall|i: int| 0 <= i < b.len() ==> #[trigger] b[i] == 0,
    ensures
        dot_spec(b, b, n) == 0,
    decreases n,
{
    if n > 0 {
        lemma_dot_zero(b, n - 1);
        assert(b[n - 1] * b[n - 1] == 0) by (nonlinear_arith)
            requires
                b[n - 1] == 0,
        ;
    }
}

/// Law: similarity with an all-zero vector is zero.
pub proof fn lemma_cos_zero(a: Seq<i64>, b: Seq<i64>)
    requires
        a.len() == b.len(),
        forall|i: int| 0 <= i < b.len() ==> #[trigger] b[i] == 0,
    ensures
        cos_sim_spec(a, b) == 0,
{
    if a.len() > 0 {
        lemma_dot_zero(b, a.len() as int);
    }
}

/// Law: a nonzero vector's similarity with itself is 1.0 from below,
/// with a truncation excess of at most 2 / sqrt(dot(v, v)), which
/// vanishes as the vector's magnitude grows.
pub proof fn lemma_cos_self_near_one(a: Seq<i64>)
    requires
        a.len() > 0,
        dot_spec(a, a, a.len() as int) > 0,
    ensures
        10000 <= cos_sim_spec(a, a),
        cos_sim_spec(a, a) * (sqrt_floor(dot_spec(a, a, a.len() as int) as nat) as int) <= 10000
            * (sqrt_floor(dot_spec(a, a, a.len() as int) as nat) as int) + 20000,
{
    let n = a.len() as int;
    let aa = dot_spec(a, a, n);
    let r = sqrt_floor(aa as nat) as int;
    lemma_sqrt_floor_bounds(aa as nat);
    if sqrt_floor(aa as nat) == 0 {
        assert((sqrt_floor(aa as nat) + 1) * (sqrt_floor(aa as nat) + 1) == 1)
            by (nonlinear_arith)
            requires
                sqrt_floor(aa as nat) == 0,
        ;
    }
    assert(r >= 1);
    assert(1 <= r * r) by (nonlinear_arith)
        requires
            r >= 1,
    ;
    let v = (aa * 10000) / (r * r);
    assert(r * r * 10000 <= aa * 10000) by (nonlinear_arith)
        requires
            r * r <= aa,
    ;
    lemma_div_is_ordered(r * r * 10000, aa * 10000, r * r);
    lemma_div_multiples_vanish(10000, r * r);
    assert((r * r) * 10000 == r * r * 10000) by (nonlinear_arith);
    assert(v >= 10000);
    assert(aa <= r * r + 2 * r) by (nonlinear_arith)
        requires
            aa < (r + 1) * (r + 1),
    ;
    vstd::arithmetic::div_mod::lemma_fundamental_div_mod(aa * 10000, r * r);
    assert(v * (r * r) <= aa * 10000) by (nonlinear_arith)
        requires
            aa * 10000 == (r * r) * ((aa * 10000) / (r * r)) + (aa * 10000) % (r * r),
            0 <= (aa * 10000) % (r * r),
            v == (aa * 10000) / (r * r),
    ;
    assert(aa * 10000 <= (r * r + 2 * r) * 10000) by (nonlinear_arith)
        requires
            aa <= r * r + 2 * r,
    ;
    assert(v * r <= 10000 * r + 20000) by (nonlinear_arith)
        requires
            v * (r * r) <= (r * r + 2 * r) * 10000,
            r >= 1,
            v >= 0,
    ;
    assert(v <= 30000) by (nonlinear_arith)
        requires
            v * (r * r) <= (r * r + 2 * r) * 10000,
            r >= 1,
            v >= 0,
    ;
    assert(cos_sim_spec(a, a) == sat64(tdiv(aa * 10000, r * r)));
    assert(tdiv(aa * 10000, r * r) == v);
    assert(sat64(v) == v);
}

/// Start of the `i`th of `new_len` windows over `old_len` entries.
pub open spec fn window_start(i: int, old_len: int, new_len: int) -> int {
    i * old_len / new_len
}

/// End of the `i`th window: the ceiling boundary, capped at the length.
pub open spec fn window_end(i: int, old_len: int, new_len: int) -> int {
    let e = ((i + 1) * old_len + new_len - 1) / new_len;
    if e > old_len {
        old_len
    } else {
        e
    }
}

/// The sum of the entries in `[s, e)`.
pub open spec fn range_sum(v: Seq<i64>, s: int, e: int) -> int
    decreases e - s,
{
    if e <= s {
        0
    } else {
        range_sum(v, s, e - 1) + v[e - 1]
    }
}

/// One down-projected entry: the truncated mean of its window, or zero
/// for a degenerate window.
pub open spec fn window_mean(v: Seq<i64>, i: int, new_len: int) -> int {
    let s = window_start(i, v.len() as int, new_len);
    let e = window_end(i, v.len() as int, new_len);
    if s < e {
        tdiv(range_sum(v, s, e), e - s)
    } else {
        0
    }
}

/// The down-projection: each of `new_len` contiguous windows replaced by
/// its mean.
pub open spec fn down_project_spec(v: Seq<i64>, new_len: int) -> Seq<int> {
    Seq::new(new_len as nat, |i: int| window_mean(v, i, new_len))
}

/// Range sums of bounded entries stay bounded by the range's width.
pub proof fn lemma_range_sum_bound(v: Seq<i64>, s: int, e: int)
    requires
        0 <= s <= e <= v.len(),
        entries_bounded(v),
    ensures
        -((e - s) * (EMBED_ABS_MAX as int)) <= range_sum(v, s, e) <= (e - s) * (
        EMBED_ABS_MAX as int),
    decreases e - s,
{
    if e > s {
        lemma_range_sum_bound(v, s, e - 1);
    }
}

/// Down-project a vector to exactly `new_len` entries by windowed means.
pub fn down_project(vector: &[i64], new_len: usize) -> (result: Vec<i64>)
    requires
        0 < new_len <= vector@.len(),
        vector@.len() <= EMBED_LEN_MAX,
        entries_bounded(vector@),
    ensures
        result@.len() == new_len,
        forall|i: int| 0 <= i < new_len ==> #[trigger] result@[i] as int == down_project_spec(
            vector@,
            new_len as int,
        )[i],
{
    let old_len = vector.len();
    let ghost v = vector@;
    let mut result: Vec<i64> = Vec::new();
    let mut i: usize = 0;
    while i < new_len
        invariant
            v == vector@,
            old_len == v.len(),
            0 < new_len <= old_len <= EMBED_LEN_MAX,
            entries_bounded(v),
            i <= new_len,
            result@.len() == i,
            forall|m: int| 0 <= m < i ==> #[trigger] result@[m] as int == window_mean(
                v,
                m,
                new_len as int,
            ),
        decreases new_len - i,
    {
        proof {
            assert((i as int) * (old_len as int) <= 1048576 * 1048576 && 0 <= (i as int) * (
            old_len as int) && 1 <= (i as int + 1) * (old_len as int) <= 2 * 1048576 * 1048576)
                by (nonlinear_arith)
                requires
                    0 <= i as int,
                    (i as int) < (new_len as int),
                    (new_len as int) <= (old_len as int),
                    1 <= (old_len as int) <= 1048576,
            ;
        }
        let su: u64 = (i as u64) * (old_len as u64);
        let s0: u64 = su / (new_len as u64);
        proof {
            assert((i as int) * (old_len as int) <= (old_len as int) * (new_len as int))
                by (nonlinear_arith)
                requires
                    0 <= i as int,
                    (i as int) < (new_len as int),
                    0 <= old_len as int,
            ;
            lemma_div_is_ordered(
                (i as int) * (old_len as int),
                (old_len as int) * (new_len as int),
                new_len as int,
            );
            lemma_div_multiples_vanish(old_len as int, new_len as int);
            assert((new_len as int) * (old_len as int) == (old_len as int) * (new_len as int));
            assert(s0 <= old_len);
        }
        let start: usize = s0 as usize;
        let eu: u64 = ((i as u64) + 1) * (old_len as u64) + (new_len as u64) - 1;
        let e0: u64 = eu / (new_len as u64);
        let end: usize = if e0 > old_len as u64 {
            old_len
        } else {
            e0 as usize
        };
        proof {
            assert(start as int == window_start(i as int, old_len as int, new_len as int));
            assert(end as int == window_end(i as int, old_len as int, new_len as int));
        }
        if start < end {
            let mut sum: i128 = 0;
            let mut j: usize = start;
            while j < end
                invariant
                    v == vector@,
                    entries_bounded(v),
                    start <= j <= end,
                    end <= v.len() <= EMBED_LEN_MAX,
                    sum as int == range_sum(v, start as int, j as int),
                    -((j - start) * (EMBED_ABS_MAX as int)) <= sum as int <= (j - start) * (
                    EMBED_ABS_MAX as int),
                decreases end - j,
            {
                proof {
                    assert((j - start) * (EMBED_ABS_MAX as int) + EMBED_ABS_MAX as int == (j + 1
                        - start) * (EMBED_ABS_MAX as int)) by (nonlinear_arith);
                }
                sum = sum + (vector[j] as i128);
                j = j + 1;
            }
            let cnt: i128 = (end - start) as i128;
            let neg = sum < 0;
            let magsum: u128 = if neg {
                (-sum) as u128
            } else {
                sum as u128
            };
            let m0: u128 = magsum / (cnt as u128);
            proof {
                lemma_range_sum_bound(v, start as int, end as int);
                assert(m0 as int <= EMBED_ABS_MAX as int) by {
                    lemma_div_is_ordered(
                        magsum as int,
                        (end - start) as int * (EMBED_ABS_MAX as int),
                        (end - start) as int,
                    );
                    lemma_div_multiples_vanish(EMBED_ABS_MAX as int, (end - start) as int);
                    assert((end - start) as int * (EMBED_ABS_MAX as int) == (EMBED_ABS_MAX as int)
                        * ((end - start) as int)) by (nonlinear_arith);
                }
            }
            let avg: i64 = if neg {
                -(m0 as i64)
            } else {
                m0 as i64
            };
            result.push(avg);
            proof {
                assert(avg as int == window_mean(v, i as int, new_len as int));
            }
        } else {
            result.push(0);
            proof {
                assert(0int == window_mean(v, i as int, new_len as int));
            }
        }
        i = i + 1;
    }
    result
}

} // verus!
