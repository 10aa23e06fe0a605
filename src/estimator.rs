use crate::ratio::{frac_lt, Ratio};
use crate::stages::{
    cmndf, compute_diff_min, descend, diff_function, difference, difference_seq, effective_max,
    first_dip, fits_normalized, ints, lag_sum, lag_term, max_term, normalized_seq, running_sum,
    views,
};
use vstd::arithmetic::div_mod::{lemma_div_by_self, lemma_div_is_ordered, lemma_div_is_ordered_by_denominator};
use vstd::prelude::*;

verus! {

proof fn lemma_lag_sum_le(x: Seq<i32>, tau: int, n: int, e: int)
    requires
        0 <= n <= e,
    ensures
        0 <= lag_sum(x, tau, n) <= e * max_term(),
{
    crate::stages::lemma_lag_sum_bounds(x, tau, n);
    assert(n * max_term() <= e * max_term()) by (nonlinear_arith)
        requires
            n <= e,
    ;
}

proof fn lemma_running_sum_le(s: Seq<int>, e: int, b: int, i: int)
    requires
        b >= 0,
        e >= 0,
        0 <= i < s.len(),
        forall|k: int| 0 <= k < s.len() ==> 0 <= #[trigger] s[k] <= b,
        forall|k: int| e <= k < s.len() ==> s[k] == 0,
    ensures
        0 <= running_sum(s, i),
        running_sum(s, i) <= (if i < e { i } else { e }) * b,
    decreases i,
{
    if i > 0 {
        lemma_running_sum_le(s, e, b, i - 1);
        let m: int = if i - 1 < e { i - 1 } else { e };
        assert(m * b + b == (m + 1) * b) by (nonlinear_arith);
        if i >= e {
            assert(m * b <= e * b) by (nonlinear_arith)
                requires
                    m <= e,
                    b >= 0,
            ;
        }
    }
}

/// A difference vector of a buffer, for lags below `2^32`, can be
/// normalized without overflow.
proof fn lemma_difference_fits(x: Seq<i32>, tau_max: int, d: Seq<u128>)
    requires
        0 <= tau_max <= u32::MAX,
        d.len() == tau_max,
        forall|t: int| 0 <= t < tau_max ==> d[t] == difference(x, tau_max, t),
    ensures
        fits_normalized(d),
{
    let e = effective_max(x.len() as int, tau_max);
    let b = e * max_term();
    let s = ints(d);
    assert(0 <= e <= 0xFFFF_FFFF);
    assert(0 <= b) by (nonlinear_arith)
        requires
            e >= 0,
            b == e * max_term(),
    ;
    assert forall|k: int| 0 <= k < s.len() implies 0 <= #[trigger] s[k] <= b && (k >= e ==> s[k] == 0) by {
        if 1 <= k < e {
            lemma_lag_sum_le(x, k, e - k, e);
        }
    }
    assert(e * e * max_term() <= u128::MAX) by (nonlinear_arith)
        requires
            0 <= e <= 0xFFFF_FFFF,
    ;
    assert forall|i: int| 0 <= i < d.len() implies d[i] * i <= u128::MAX && running_sum(ints(d), i)
        <= u128::MAX by {
        lemma_running_sum_le(s, e, b, i);
        let m: int = if i < e { i } else { e };
        assert(m * b <= e * b) by (nonlinear_arith)
            requires
                0 <= m <= e,
                b >= 0,
        ;
        assert(e * b == e * e * max_term()) by (nonlinear_arith)
            requires
                b == e * max_term(),
        ;
        assert(s[i] == d[i] as int);
        if i < e {
            assert(d[i] * i <= b * e) by (nonlinear_arith)
                requires
                    0 <= d[i] <= b,
                    0 <= i < e,
                    b >= 0,
            ;
            assert(b * e == e * e * max_term()) by (nonlinear_arith)
                requires
                    b == e * max_term(),
            ;
        }
    }
}

/// A frequency of `sample_rate / period` hertz. A zero period is the
/// sentinel for "no period found": it has no finite frequency.
#[derive(Clone, Copy, Debug, PartialEq, Eq, Structural)]
pub struct Frequency {
    pub sample_rate: usize,
    pub period: usize,
}

impl Frequency {
    pub open spec fn finite(self) -> bool {
        self.period != 0
    }

    pub fn is_finite(&self) -> (r: bool)
        ensures
            r == self.finite(),
    {
        self.period != 0
    }
}

/// No periodicity was found in the search window.
#[derive(Clone, Copy, Debug, PartialEq, Eq, Structural)]
pub struct UnknownPitch;

/// Turns a lag in samples into the frequency it stands for.
pub fn convert_to_frequency(sample_period: usize, sample_rate: usize) -> (r: Frequency)
    ensures
        r == (Frequency { sample_rate, period: sample_period }),
{
    Frequency { sample_rate, period: sample_period }
}

/// The lag that the whole pipeline selects: difference function,
/// cumulative mean normalization, then the threshold search.
pub open spec fn estimated_period(x: Seq<i32>, tau_min: int, tau_max: int, th: (int, int)) -> int {
    first_dip(normalized_seq(difference_seq(x, tau_max)), tau_min, tau_max, th)
}

/// Runs the four stages on a buffer and returns the resulting frequency,
/// whose period is `0` when nothing in `[tau_min, tau_max)` fell below
/// the threshold.
pub fn compute_sample_frequency(
    audio_sample: &[i32],
    tau_min: usize,
    tau_max: usize,
    sample_rate: usize,
    threshold: Ratio,
) -> (r: Frequency)
    requires
        tau_max <= u32::MAX,
        threshold.den > 0,
    ensures
        r.sample_rate == sample_rate,
        r.period == estimated_period(audio_sample@, tau_min as int, tau_max as int, threshold@),
{
    let diff_fn = diff_function(audio_sample, tau_max);
    proof {
        lemma_difference_fits(audio_sample@, tau_max as int, diff_fn@);
        assert(ints(diff_fn@) =~= difference_seq(audio_sample@, tau_max as int));
    }
    let normalized = cmndf(&diff_fn);
    proof {
        assert(views(normalized@) =~= normalized_seq(ints(diff_fn@)));
    }
    let sample_period = compute_diff_min(&normalized, tau_min, tau_max, &threshold);
    convert_to_frequency(sample_period, sample_rate)
}

/// A YIN pitch estimator: a threshold on the normalized difference and a
/// window of lags derived from a frequency range and a sample rate.
#[derive(Clone, Copy, Debug)]
pub struct Yin {
    pub threshold: Ratio,
    pub tau_max: usize,
    pub tau_min: usize,
    pub sample_rate: usize,
}

impl Yin {
    /// A usable configuration: a proper threshold fraction, a lag window
    /// that starts at lag 1 or later and is not reversed, and lags that
    /// keep every sum of the pipeline inside `u128`.
    pub open spec fn wf(self) -> bool {
        &&& self.threshold.den > 0
        &&& 1 <= self.tau_min <= self.tau_max
        &&& self.tau_max <= u32::MAX
    }

    /// What an estimate on buffer `x` gives.
    pub open spec fn outcome(self, x: Seq<i32>) -> Result<Frequency, UnknownPitch> {
        let p = estimated_period(x, self.tau_min as int, self.tau_max as int, self.threshold@);
        if p == 0 {
            Err(UnknownPitch)
        } else {
            Ok(Frequency { sample_rate: self.sample_rate, period: p as usize })
        }
    }

    /// Builds an estimator for pitches between `freq_min` and `freq_max`
    /// hertz: the lag window is `sample_rate / freq_max` up to
    /// `sample_rate / freq_min`, by truncating division. A range above the
    /// sample rate, which would give lag 0, or a reversed range is not
    /// accepted.
    pub fn init(threshold: Ratio, freq_min: usize, freq_max: usize, sample_rate: usize) -> (r: Self)
        requires
            0 < freq_min <= freq_max <= sample_rate,
            threshold.den > 0,
            sample_rate / freq_min <= u32::MAX,
        ensures
            r.wf(),
            r.threshold == threshold,
            r.tau_max == sample_rate / freq_min,
            r.tau_min == sample_rate / freq_max,
            r.sample_rate == sample_rate,
    {
        let tau_max = sample_rate / freq_min;
        let tau_min = sample_rate / freq_max;
        proof {
            lemma_div_is_ordered_by_denominator(sample_rate as int, freq_min as int, freq_max as int);
            lemma_div_is_ordered(freq_max as int, sample_rate as int, freq_max as int);
            lemma_div_by_self(freq_max as int);
        }
        Yin { threshold, tau_max, tau_min, sample_rate }
    }

    /// Estimates the pitch of a buffer, or reports that none was found.
    pub fn estimate_freq(&self, audio_sample: &[i32]) -> (r: Result<Frequency, UnknownPitch>)
        requires
            self.wf(),
        ensures
            r == self.outcome(audio_sample@),
    {
        let sample_frequency = compute_sample_frequency(
            audio_sample,
            self.tau_min,
            self.tau_max,
            self.sample_rate,
            self.threshold,
        );
        if !sample_frequency.is_finite() {
            Err(UnknownPitch)
        } else {
            Ok(sample_frequency)
        }
    }
}

proof fn lemma_silent_lag_sum(x: Seq<i32>, tau: int, n: int)
    requires
        0 <= tau,
        0 <= n,
        n + tau <= x.len(),
        forall|i: int| 0 <= i < x.len() ==> x[i] == 0,
    ensures
        lag_sum(x, tau, n) == 0,
    decreases n,
{
    if n > 0 {
        lemma_silent_lag_sum(x, tau, n - 1);
        assert(x[n - 1] == 0 && x[n - 1 + tau] == 0);
        assert(lag_term(x, n - 1, tau) == 0);
    }
}

proof fn lemma_zero_running_sum(d: Seq<int>, i: int)
    requires
        i < d.len(),
        forall|k: int| 0 <= k < d.len() ==> d[k] == 0,
    ensures
        running_sum(d, i) == 0,
    decreases i,
{
    if i > 0 {
        lemma_zero_running_sum(d, i - 1);
    }
}

proof fn lemma_no_dip(c: Seq<(int, int)>, t: int, hi: int, th: (int, int))
    requires
        forall|k: int| t <= k < hi ==> !frac_lt(c[k], th),
    ensures
        first_dip(c, t, hi, th) == 0,
    decreases hi - t,
{
    if t < hi {
        lemma_no_dip(c, t + 1, hi, th);
    }
}

/// A silent buffer (empty, or all zero) has a difference vector of zeros.
pub proof fn lemma_silent_difference(x: Seq<i32>, tau_max: int)
    requires
        forall|i: int| 0 <= i < x.len() ==> x[i] == 0,
    ensures
        forall|t: int| 0 <= t < tau_max ==> #[trigger] difference_seq(x, tau_max)[t] == 0,
{
    assert forall|t: int| 0 <= t < tau_max implies #[trigger] difference_seq(x, tau_max)[t] == 0 by {
        let e = effective_max(x.len() as int, tau_max);
        if 1 <= t < e {
            lemma_silent_lag_sum(x, t, e - t);
        }
    }
}

/// A silent buffer (empty, or all zero) normalizes to `0 / 1` at every
/// lag, so the estimate reports an unknown pitch whenever a zero value
/// cannot open a dip: when the threshold is zero or the window is empty.
pub proof fn lemma_silent_buffer_unknown(y: Yin, x: Seq<i32>)
    requires
        y.wf(),
        forall|i: int| 0 <= i < x.len() ==> x[i] == 0,
        !(y.threshold.num > 0 && y.tau_min < y.tau_max),
    ensures
        y.outcome(x) is Err,
{
    let hi = y.tau_max as int;
    let d = difference_seq(x, hi);
    let c = normalized_seq(d);
    let th = y.threshold@;
    lemma_silent_difference(x, hi);
    assert forall|k: int| 0 <= k < c.len() implies c[k] == (0int, 1int) by {
        lemma_zero_running_sum(d, k);
    }
    if y.threshold.num == 0 {
        assert forall|k: int| y.tau_min <= k < hi implies !frac_lt(c[k], th) by {
            assert(c[k] == (0int, 1int));
            assert(0 * th.1 == 0);
        }
        lemma_no_dip(c, y.tau_min as int, hi, th);
    }
}

proof fn lemma_descend_range(c: Seq<(int, int)>, t: int, hi: int)
    requires
        t < hi,
    ensures
        t <= descend(c, t, hi) < hi,
    decreases hi - t,
{
    if t + 1 < hi && frac_lt(c[t + 1], c[t]) {
        lemma_descend_range(c, t + 1, hi);
    }
}

/// The search selects `0` or a lag inside its window.
pub proof fn lemma_first_dip_range(c: Seq<(int, int)>, t: int, hi: int, th: (int, int))
    ensures
        first_dip(c, t, hi, th) == 0 || t <= first_dip(c, t, hi, th) < hi,
    decreases hi - t,
{
    if t < hi {
        if frac_lt(c[t], th) {
            lemma_descend_range(c, t, hi);
        } else {
            lemma_first_dip_range(c, t + 1, hi, th);
        }
    }
}

/// For a window that starts at lag 1 or later, the search selects `0`
/// exactly when no value in the window lies below the threshold.
pub proof fn lemma_sentinel_means_no_dip(c: Seq<(int, int)>, t: int, hi: int, th: (int, int))
    requires
        t >= 1,
    ensures
        (first_dip(c, t, hi, th) == 0) == (forall|k: int| t <= k < hi ==> !frac_lt(c[k], th)),
    decreases hi - t,
{
    if t < hi {
        if frac_lt(c[t], th) {
            lemma_descend_range(c, t, hi);
        } else {
            lemma_sentinel_means_no_dip(c, t + 1, hi, th);
            if forall|k: int| t + 1 <= k < hi ==> !frac_lt(c[k], th) {
                assert forall|k: int| t <= k < hi implies !frac_lt(c[k], th) by {
                    if k > t {
                        assert(t + 1 <= k < hi);
                    }
                }
            }
        }
    }
}

/// A search that selects lag `0` gives a frequency with no finite value,
/// and the estimate reports an unknown pitch; a reported frequency is
/// always finite.
pub proof fn lemma_sentinel_unknown(y: Yin, x: Seq<i32>)
    ensures
        !(Frequency { sample_rate: y.sample_rate, period: 0 }).finite(),
        estimated_period(x, y.tau_min as int, y.tau_max as int, y.threshold@) == 0 ==> y.outcome(x)
            is Err,
        y.outcome(x) is Ok ==> y.outcome(x)->Ok_0.finite(),
{
    let hi = y.tau_max as int;
    let t = y.tau_min as int;
    lemma_first_dip_range(normalized_seq(difference_seq(x, hi)), t, hi, y.threshold@);
}

/// An estimate depends on the configuration and the buffer alone: the
/// same estimator on equal buffers gives the same result.
pub proof fn lemma_estimate_repeatable(y: Yin, x1: Seq<i32>, x2: Seq<i32>)
    requires
        x1 == x2,
    ensures
        y.outcome(x1) == y.outcome(x2),
{
}

} // verus!
