use dasp::{signal, Signal};
use yin::estimator::{compute_sample_frequency, convert_to_frequency, Frequency, UnknownPitch, Yin};
use yin::ratio::{less_than, Ratio};
use yin::stages::{cmndf, compute_diff_min, diff_function};

const FIXED_ONE: f64 = 1073741824.0;

fn produce_sample(sample_rate: usize, frequency: f64) -> Vec<f64> {
    let mut signal = signal::rate(sample_rate as f64).const_hz(frequency).sine();
    (0..sample_rate).map(|_| signal.next()).collect()
}

fn to_fixed(samples: &[f64]) -> Vec<i32> {
    samples.iter().map(|s| (s * FIXED_ONE).round() as i32).collect()
}

fn hz(f: Frequency) -> f64 {
    f.sample_rate as f64 / f.period as f64
}

fn tenth() -> Ratio {
    Ratio { num: 1, den: 10 }
}

#[test]
fn sanity_basic_sine() {
    let sample = to_fixed(&produce_sample(12, 4.0));
    let yin = Yin::init(tenth(), 2, 5, 12);
    let computed_frequency = yin.estimate_freq(&sample).unwrap();
    assert_eq!(hz(computed_frequency), 4.0);
}

#[test]
fn sanity_low_hz_full_sample() {
    let sample = to_fixed(&produce_sample(44100, 20.0));
    let yin = Yin::init(tenth(), 10, 100, 44100);
    let computed_frequency = yin.estimate_freq(&sample).unwrap();
    assert_eq!(hz(computed_frequency), 20.0);
}

#[test]
fn sanity_non_multiple() {
    let sample = to_fixed(&produce_sample(44100, 4000.0));
    let yin = Yin::init(tenth(), 3000, 5000, 44100);
    let computed_frequency = yin.estimate_freq(&sample).unwrap();
    let difference = hz(computed_frequency) - 4000.0;
    assert!(difference.abs() < 50.0);
}

#[test]
fn sanity_full_sine() {
    let sample = to_fixed(&produce_sample(44100, 441.0));
    let yin = Yin::init(tenth(), 300, 500, 44100);
    let computed_frequency = yin.estimate_freq(&sample).unwrap();
    assert_eq!(hz(computed_frequency), 441.0);
}

#[test]
fn readme_doctest() {
    let estimator = Yin::init(tenth(), 10, 30, 80);
    let mut example = vec![];
    let mut prev_value = -1;
    for i in 0..80 {
        if i % 2 != 0 {
            example.push(0);
        } else {
            prev_value *= -1;
            example.push(prev_value);
        }
    }
    let freq = estimator.estimate_freq(&example).unwrap();
    assert_eq!(hz(freq), 20.0);
}

#[test]
fn init_derives_lag_window() {
    let yin = Yin::init(tenth(), 10, 30, 80);
    assert_eq!(yin.tau_max, 8);
    assert_eq!(yin.tau_min, 2);
    assert_eq!(yin.sample_rate, 80);
    assert_eq!(yin.threshold, tenth());
}

#[test]
fn difference_function_on_short_window() {
    // effective maximum is min(5, 4) = 4; lags 1..3 sum over j < 4 - tau
    let d = diff_function(&[1, 3, 0, 2, 7], 4);
    assert_eq!(d, vec![0, 4 + 9 + 4, 1 + 1, 1]);
}

#[test]
fn difference_function_on_short_buffer() {
    // a buffer shorter than tau_max fills only a prefix
    let d = diff_function(&[2, -1, 2], 6);
    assert_eq!(d, vec![0, 9 + 9, 0, 0, 0, 0]);
}

#[test]
fn difference_function_on_empty_buffer() {
    assert_eq!(diff_function(&[], 3), vec![0, 0, 0]);
    assert_eq!(diff_function(&[5, 6], 0), Vec::<u128>::new());
}

#[test]
fn cmndf_exact_fractions() {
    let c = cmndf(&vec![0, 4, 2, 0, 6]);
    assert_eq!(
        c,
        vec![
            Ratio { num: 0, den: 1 },
            Ratio { num: 4, den: 4 },
            Ratio { num: 4, den: 6 },
            Ratio { num: 0, den: 6 },
            Ratio { num: 24, den: 12 },
        ]
    );
}

#[test]
fn cmndf_zero_running_sum() {
    let c = cmndf(&vec![0, 0, 0, 5]);
    assert_eq!(c[1], Ratio { num: 0, den: 1 });
    assert_eq!(c[2], Ratio { num: 0, den: 1 });
    assert_eq!(c[3], Ratio { num: 15, den: 5 });
}

#[test]
fn less_than_is_exact() {
    let a = Ratio { num: 1, den: 3 };
    let b = Ratio { num: 2, den: 6 };
    let c = Ratio { num: 333, den: 1000 };
    assert!(!less_than(&a, &b));
    assert!(!less_than(&b, &a));
    assert!(less_than(&c, &a));
    assert!(!less_than(&a, &c));
    let big = Ratio { num: u128::MAX, den: u128::MAX - 1 };
    let one = Ratio { num: 7, den: 7 };
    assert!(less_than(&one, &big));
    assert!(!less_than(&big, &one));
}

fn r(num: u128, den: u128) -> Ratio {
    Ratio { num, den }
}

#[test]
fn search_walks_down_to_local_minimum() {
    let c = vec![r(0, 1), r(9, 10), r(1, 20), r(1, 30), r(1, 40), r(1, 10), r(1, 100)];
    assert_eq!(compute_diff_min(&c, 1, 7, &tenth()), 4);
}

#[test]
fn search_stops_on_plateau() {
    let c = vec![r(0, 1), r(1, 20), r(2, 40), r(1, 80)];
    assert_eq!(compute_diff_min(&c, 1, 4, &tenth()), 1);
}

#[test]
fn search_stops_at_window_edge() {
    let c = vec![r(0, 1), r(1, 20), r(1, 30), r(1, 40)];
    assert_eq!(compute_diff_min(&c, 1, 3, &tenth()), 2);
}

#[test]
fn search_returns_sentinel_without_dip() {
    let c = vec![r(0, 1), r(1, 2), r(1, 10), r(3, 4)];
    assert_eq!(compute_diff_min(&c, 1, 4, &tenth()), 0);
    assert_eq!(compute_diff_min(&c, 3, 3, &tenth()), 0);
}

#[test]
fn conversion_of_zero_lag_is_not_finite() {
    let f = convert_to_frequency(0, 44100);
    assert_eq!(f, Frequency { sample_rate: 44100, period: 0 });
    assert!(!f.is_finite());
    let g = convert_to_frequency(4, 80);
    assert!(g.is_finite());
    assert_eq!(hz(g), 20.0);
}

#[test]
fn empty_buffer_with_zero_threshold_is_unknown() {
    let yin = Yin::init(Ratio { num: 0, den: 1 }, 10, 30, 80);
    assert_eq!(yin.estimate_freq(&[]), Err(UnknownPitch));
}

#[test]
fn silent_buffer_with_zero_threshold_is_unknown() {
    let yin = Yin::init(Ratio { num: 0, den: 1 }, 10, 30, 80);
    assert_eq!(yin.estimate_freq(&[0; 80]), Err(UnknownPitch));
}

#[test]
fn silent_buffer_with_empty_window_is_unknown() {
    // equal frequency bounds give tau_min == tau_max: nothing to search
    let yin = Yin::init(tenth(), 10, 10, 80);
    assert_eq!(yin.tau_min, 8);
    assert_eq!(yin.tau_max, 8);
    assert_eq!(yin.estimate_freq(&[0; 80]), Err(UnknownPitch));
}

#[test]
fn silent_buffer_has_zero_difference_vector() {
    assert_eq!(diff_function(&[0; 80], 8), vec![0; 8]);
    let c = cmndf(&diff_function(&[0; 80], 8));
    assert!(c.iter().all(|v| *v == Ratio { num: 0, den: 1 }));
}

#[test]
fn silent_buffer_with_positive_threshold_gives_window_start() {
    // every normalized value is 0, which lies below a positive threshold
    let yin = Yin::init(tenth(), 10, 30, 80);
    let f = yin.estimate_freq(&[0; 80]).unwrap();
    assert_eq!(f, Frequency { sample_rate: 80, period: 2 });
}

#[test]
fn no_periodicity_is_unknown() {
    let sample: Vec<i32> = vec![0, 1000, 4000, 9000, 16000, 25000, 36000, 49000];
    let yin = Yin::init(tenth(), 10, 30, 80);
    assert_eq!(yin.estimate_freq(&sample), Err(UnknownPitch));
    let f = compute_sample_frequency(&sample, 2, 8, 80, tenth());
    assert_eq!(f.period, 0);
}

#[test]
fn estimate_is_repeatable() {
    let sample = to_fixed(&produce_sample(44100, 441.0));
    let yin = Yin::init(tenth(), 300, 500, 44100);
    let first = yin.estimate_freq(&sample);
    let second = yin.estimate_freq(&sample);
    assert_eq!(first, second);
    assert_eq!(first.unwrap().period, 100);
}

#[test]
fn pure_tone_in_range_is_recovered() {
    let sample = to_fixed(&produce_sample(8000, 400.0));
    let yin = Yin::init(tenth(), 100, 1000, 8000);
    assert_eq!(hz(yin.estimate_freq(&sample).unwrap()), 400.0);
}

#[test]
fn non_multiple_tone_is_close() {
    let sample = to_fixed(&produce_sample(44100, 2000.0));
    let yin = Yin::init(tenth(), 1500, 2500, 44100);
    let f = yin.estimate_freq(&sample).unwrap();
    assert_eq!(f.period, 22);
    assert!((hz(f) - 2000.0).abs() < 50.0);
}
