use crate::ratio::{frac_lt, less_than, Ratio};
use vstd::prelude::*;

verus! {

/// The largest square of a difference of two `i32` values, `(2^32 - 1)^2`.
pub open spec fn max_term() -> int {
    0xFFFF_FFFE_0000_0001
}

/// `(x[j] - x[j + tau])^2`.
pub open spec fn lag_term(x: Seq<i32>, j: int, tau: int) -> int {
    (x[j] - x[j + tau]) * (x[j] - x[j + tau])
}

/// `sum_{j < n} (x[j] - x[j + tau])^2`.
pub open spec fn lag_sum(x: Seq<i32>, tau: int, n: int) -> int
    decreases n,
{
    if n <= 0 {
        0
    } else {
        lag_sum(x, tau, n - 1) + lag_term(x, n - 1, tau)
    }
}

/// How many leading samples the difference function looks at.
pub open spec fn effective_max(len: int, tau_max: int) -> int {
    if len < tau_max {
        len
    } else {
        tau_max
    }
}

/// The difference function at lag `tau`: zero at lag 0 and from the
/// effective maximum on, else the sum of squared differences over the
/// overlap inside the first `effective_max` samples.
pub open spec fn difference(x: Seq<i32>, tau_max: int, tau: int) -> int {
    let e = effective_max(x.len() as int, tau_max);
    if 1 <= tau < e {
        lag_sum(x, tau, e - tau)
    } else {
        0
    }
}

pub open spec fn difference_seq(x: Seq<i32>, tau_max: int) -> Seq<int> {
    Seq::new(tau_max as nat, |tau: int| difference(x, tau_max, tau))
}

/// The values of a vector of `u128` as integers.
pub open spec fn ints(d: Seq<u128>) -> Seq<int> {
    d.map_values(|v: u128| v as int)
}

pub(crate) proof fn lemma_term_bounds(x: Seq<i32>, j: int, tau: int)
    ensures
        0 <= lag_term(x, j, tau) <= max_term(),
{
    let v: int = x[j] - x[j + tau];
    assert(-0xFFFF_FFFF <= v <= 0xFFFF_FFFF);
    assert(0 <= v * v <= 0xFFFF_FFFF * 0xFFFF_FFFF) by (nonlinear_arith)
        requires
            -0xFFFF_FFFF <= v <= 0xFFFF_FFFF,
    ;
}

pub(crate) proof fn lemma_lag_sum_bounds(x: Seq<i32>, tau: int, n: int)
    requires
        n >= 0,
    ensures
        0 <= lag_sum(x, tau, n) <= n * max_term(),
    decreases n,
{
    if n > 0 {
        lemma_lag_sum_bounds(x, tau, n - 1);
        lemma_term_bounds(x, n - 1, tau);
    }
}

/// Computes the difference function for every lag below `tau_max`.
pub fn diff_function(audio_sample: &[i32], tau_max: usize) -> (r: Vec<u128>)
    requires
        tau_max <= u32::MAX,
    ensures
        r@.len() == tau_max,
        forall|tau: int| 0 <= tau < tau_max ==> r@[tau] == difference(audio_sample@, tau_max as int, tau),
{
    let n = audio_sample.len();
    let e: usize = if n < tau_max {
        n
    } else {
        tau_max
    };
    let mut r: Vec<u128> = Vec::new();
    let mut tau: usize = 0;
    while tau < tau_max
        invariant
            e == effective_max(audio_sample@.len() as int, tau_max as int),
            e <= tau_max <= u32::MAX,
            e <= audio_sample@.len(),
            tau <= tau_max,
            r@.len() == tau,
            forall|t: int| 0 <= t < tau ==> r@[t] == difference(audio_sample@, tau_max as int, t),
        decreases tau_max - tau,
    {
        let mut acc: u128 = 0;
        if 1 <= tau && tau < e {
            let mut j: usize = 0;
            while j < e - tau
                invariant
                    1 <= tau < e,
                    e <= u32::MAX,
                    e <= audio_sample@.len(),
                    j <= e - tau,
                    acc == lag_sum(audio_sample@, tau as int, j as int),
                decreases e - tau - j,
            {
                proof {
                    lemma_lag_sum_bounds(audio_sample@, tau as int, j + 1);
                    assert((j + 1) * max_term() <= 0xFFFF_FFFF * max_term()) by (nonlinear_arith)
                        requires
                            j + 1 <= 0xFFFF_FFFF,
                    ;
                }
                let v: i64 = audio_sample[j] as i64 - audio_sample[j + tau] as i64;
                let w: i128 = v as i128;
                proof {
                    lemma_term_bounds(audio_sample@, j as int, tau as int);
                    assert(w * w == lag_term(audio_sample@, j as int, tau as int));
                }
                let sq: i128 = w * w;
                acc = acc + sq as u128;
                j = j + 1;
            }
        }
        r.push(acc);
        tau = tau + 1;
    }
    r
}

/// `d[1] + ... + d[i]`: lag 0 never counts.
pub open spec fn running_sum(d: Seq<int>, i: int) -> int
    decreases i,
{
    if i <= 0 {
        0
    } else {
        running_sum(d, i - 1) + d[i]
    }
}

/// The cumulative mean normalized difference at lag `i`, as a fraction:
/// `d[i] * i / running_sum(d, i)`, or `0 / 1` while the running sum is zero.
pub open spec fn normalized(d: Seq<int>, i: int) -> (int, int) {
    if running_sum(d, i) == 0 {
        (0, 1)
    } else {
        (d[i] * i, running_sum(d, i))
    }
}

pub open spec fn normalized_seq(d: Seq<int>) -> Seq<(int, int)> {
    Seq::new(d.len(), |i: int| normalized(d, i))
}

/// The fractions of a vector of `Ratio` values.
pub open spec fn views(c: Seq<Ratio>) -> Seq<(int, int)> {
    c.map_values(|r: Ratio| r@)
}

/// Whether every normalized value of `d` can be held in `u128` parts.
pub open spec fn fits_normalized(d: Seq<u128>) -> bool {
    forall|i: int|
        0 <= i < d.len() ==> d[i] * i <= u128::MAX && running_sum(ints(d), i) <= u128::MAX
}

/// Cumulative mean normalization of a difference vector.
pub fn cmndf(raw_diff: &Vec<u128>) -> (r: Vec<Ratio>)
    requires
        fits_normalized(raw_diff@),
    ensures
        r@.len() == raw_diff@.len(),
        forall|i: int| 0 <= i < r@.len() ==> r@[i].den > 0,
        forall|i: int| 0 <= i < r@.len() ==> r@[i]@ == normalized(ints(raw_diff@), i),
{
    let mut running: u128 = 0;
    let mut r: Vec<Ratio> = Vec::new();
    let mut i: usize = 0;
    while i < raw_diff.len()
        invariant
            fits_normalized(raw_diff@),
            i <= raw_diff@.len(),
            r@.len() == i,
            running == running_sum(ints(raw_diff@), i - 1),
            forall|k: int| 0 <= k < i ==> r@[k].den > 0,
            forall|k: int| 0 <= k < i ==> r@[k]@ == normalized(ints(raw_diff@), k),
        decreases raw_diff@.len() - i,
    {
        if i > 0 {
            assert(ints(raw_diff@)[i as int] == raw_diff@[i as int] as int);
            running = running + raw_diff[i];
        }
        assert(running == running_sum(ints(raw_diff@), i as int));
        let value = if running == 0 {
            Ratio { num: 0, den: 1 }
        } else {
            Ratio { num: raw_diff[i] * (i as u128), den: running }
        };
        assert(ints(raw_diff@)[i as int] == raw_diff@[i as int] as int);
        assert(value@ == normalized(ints(raw_diff@), i as int));
        assert(value.den > 0);
        let ghost prev = r@;
        r.push(value);
        assert(r@[i as int] == value);
        assert(forall|k: int| 0 <= k < i ==> r@[k] == prev[k]);
        i = i + 1;
    }
    r
}

/// From lag `t`, walk right while the curve strictly decreases and stop
/// at the first lag whose successor is not smaller, or at `hi - 1`.
pub open spec fn descend(c: Seq<(int, int)>, t: int, hi: int) -> int
    decreases hi - t,
{
    if t + 1 < hi && frac_lt(c[t + 1], c[t]) {
        descend(c, t + 1, hi)
    } else {
        t
    }
}

/// The first lag in `[t, hi)` whose value is below `th`, refined to the
/// bottom of its descent; `0` when no value in the window is below `th`.
pub open spec fn first_dip(c: Seq<(int, int)>, t: int, hi: int, th: (int, int)) -> int
    decreases hi - t,
{
    if t >= hi {
        0
    } else if frac_lt(c[t], th) {
        descend(c, t, hi)
    } else {
        first_dip(c, t + 1, hi, th)
    }
}

/// Searches `[min_tau, max_tau)` for the first value below the threshold
/// and follows the curve down to its local minimum; `0` if none is found.
pub fn compute_diff_min(diff_fn: &Vec<Ratio>, min_tau: usize, max_tau: usize, harm_threshold: &Ratio) -> (r: usize)
    requires
        max_tau <= diff_fn@.len(),
        harm_threshold.den > 0,
        forall|k: int| 0 <= k < diff_fn@.len() ==> diff_fn@[k].den > 0,
    ensures
        r == first_dip(views(diff_fn@), min_tau as int, max_tau as int, harm_threshold@),
{
    let ghost v = views(diff_fn@);
    let ghost hi = max_tau as int;
    let ghost th = harm_threshold@;
    let mut tau: usize = min_tau;
    while tau < max_tau
        invariant
            max_tau <= diff_fn@.len(),
            harm_threshold.den > 0,
            forall|k: int| 0 <= k < diff_fn@.len() ==> diff_fn@[k].den > 0,
            v == views(diff_fn@),
            hi == max_tau,
            th == harm_threshold@,
            first_dip(v, min_tau as int, hi, th) == first_dip(v, tau as int, hi, th),
        decreases max_tau - tau,
    {
        assert(v[tau as int] == diff_fn@[tau as int]@);
        if less_than(&diff_fn[tau], harm_threshold) {
            let ghost start = tau as int;
            let mut more: bool = tau + 1 < max_tau && less_than(&diff_fn[tau + 1], &diff_fn[tau]);
            proof {
                if tau + 1 < max_tau {
                    assert(v[tau + 1] == diff_fn@[tau + 1]@);
                }
            }
            while more
                invariant
                    tau < max_tau,
                    max_tau <= diff_fn@.len(),
                    forall|k: int| 0 <= k < diff_fn@.len() ==> diff_fn@[k].den > 0,
                    v == views(diff_fn@),
                    hi == max_tau,
                    descend(v, start, hi) == descend(v, tau as int, hi),
                    more == (tau + 1 < max_tau && frac_lt(v[tau + 1], v[tau as int])),
                decreases max_tau - tau,
            {
                tau = tau + 1;
                more = tau + 1 < max_tau && less_than(&diff_fn[tau + 1], &diff_fn[tau]);
                proof {
                    assert(v[tau as int] == diff_fn@[tau as int]@);
                    if tau + 1 < max_tau {
                        assert(v[tau + 1] == diff_fn@[tau + 1]@);
                    }
                }
            }
            return tau;
        }
        tau = tau + 1;
    }
    0
}

} // verus!
