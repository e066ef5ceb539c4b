// Scenario tests for the independent-sampling generators: homogeneous
// Poisson and thinning, on concrete draw traces with exact expected values.

use point_process::event::{Event, SimError, SCALE};
use point_process::poisson::{poisson_process, poisson_process_from_draws};
use point_process::thinning::{variable_poisson, variable_poisson_from_draws, Candidate, ConstantRate};

#[test]
fn poisson_zero_rate_is_empty() {
    // tmax = 10.0, lambda = 0.0: always empty, whatever the count draw
    let r = poisson_process(10 * SCALE, 0, 7);
    assert_eq!(r, Ok(vec![]));
}

#[test]
fn poisson_zero_width_window_is_empty() {
    // tmax = 0.0, lambda = 5.0: zero-width interval, always empty
    let r = poisson_process(0, 5 * SCALE, 9);
    assert_eq!(r, Ok(vec![]));
}

#[test]
fn poisson_exact_timestamps_from_draws() {
    // tmax = 10.0, lambda = 2.0, three unit draws
    let us = vec![0i64, 500_000, 999_999];
    let r = poisson_process_from_draws(10 * SCALE, 2 * SCALE, &us).unwrap();
    assert_eq!(r.len(), 3);
    assert_eq!(
        r[0],
        Event { timestamp: 0, intensity: 2 * SCALE, mark: None }
    );
    assert_eq!(
        r[1],
        Event { timestamp: 5 * SCALE, intensity: 2 * SCALE, mark: None }
    );
    assert_eq!(
        r[2],
        Event { timestamp: 9_999_990, intensity: 2 * SCALE, mark: None }
    );
}

#[test]
fn poisson_negative_rate_is_invalid() {
    let us: Vec<i64> = vec![];
    assert_eq!(
        poisson_process_from_draws(SCALE, -1, &us),
        Err(SimError::InvalidParameter)
    );
    assert_eq!(poisson_process(-1, SCALE, 3), Err(SimError::InvalidParameter));
}

#[test]
fn poisson_random_draws_stay_in_window() {
    // runs the real random source behind the library's sampling
    let tmax = 10 * SCALE;
    let v = poisson_process(tmax, SCALE, 25).unwrap();
    assert_eq!(v.len(), 25);
    for ev in &v {
        assert!(0 <= ev.timestamp && ev.timestamp < tmax);
        assert_eq!(ev.intensity, SCALE);
        assert_eq!(ev.mark, None);
    }
}

#[test]
fn poisson_sorted_output_strictly_increases() {
    let us = vec![300_000i64, 100_000, 900_000];
    let mut v = poisson_process_from_draws(10 * SCALE, SCALE, &us).unwrap();
    v.sort_by_key(|ev| ev.timestamp);
    for w in v.windows(2) {
        assert!(w[0].timestamp < w[1].timestamp);
        assert!(0 <= w[0].timestamp && w[1].timestamp <= 10 * SCALE);
    }
}

#[test]
fn thinning_accepts_under_the_curve() {
    // tmax = 2.0, constant rate 3.0 with the bound at 3.0: every candidate
    // value u * 3.0 with u < 1.0 falls under the curve
    let rate = ConstantRate { c: 3 * SCALE };
    let cs = vec![
        Candidate { ut: 0, uv: 0 },
        Candidate { ut: 500_000, uv: 999_999 },
        Candidate { ut: 999_999, uv: 1 },
    ];
    let r = variable_poisson_from_draws(2 * SCALE, &rate, 3 * SCALE, &cs).unwrap();
    assert_eq!(r.len(), 3);
    assert_eq!(r[0], Event { timestamp: 0, intensity: 0, mark: None });
    assert_eq!(
        r[1],
        Event { timestamp: SCALE, intensity: 2_999_997, mark: None }
    );
    assert_eq!(
        r[2],
        Event { timestamp: 1_999_998, intensity: 3, mark: None }
    );
}

#[test]
fn thinning_rejects_over_the_curve() {
    // rate 1.0 with bound 2.0: a value of 1.8 is rejected, 0.2 accepted
    let rate = ConstantRate { c: SCALE };
    let cs = vec![
        Candidate { ut: 100_000, uv: 900_000 },
        Candidate { ut: 200_000, uv: 100_000 },
    ];
    let r = variable_poisson_from_draws(10 * SCALE, &rate, 2 * SCALE, &cs).unwrap();
    assert_eq!(r.len(), 1);
    assert_eq!(
        r[0],
        Event { timestamp: 2 * SCALE, intensity: 200_000, mark: None }
    );
}

#[test]
fn thinning_zero_rate_yields_nothing() {
    // rate 0 everywhere: no candidate survives, whatever the bound
    let rate = ConstantRate { c: 0 };
    let cs = vec![
        Candidate { ut: 1, uv: 0 },
        Candidate { ut: 500_000, uv: 2 },
        Candidate { ut: 999_999, uv: 999_999 },
    ];
    let r = variable_poisson_from_draws(10 * SCALE, &rate, 5 * SCALE, &cs).unwrap();
    assert_eq!(r, vec![]);
}

#[test]
fn thinning_negative_bound_is_invalid() {
    let rate = ConstantRate { c: SCALE };
    let cs: Vec<Candidate> = vec![];
    assert_eq!(
        variable_poisson_from_draws(SCALE, &rate, -2, &cs),
        Err(SimError::InvalidParameter)
    );
}

#[test]
fn thinning_saturated_rate_keeps_every_candidate() {
    // constant rate equal to the bound: acceptance probability one, the run
    // matches the homogeneous sampler drawn with the same count
    let rate = ConstantRate { c: SCALE };
    let r = variable_poisson(10 * SCALE, &rate, SCALE, 50).unwrap();
    assert_eq!(r.len(), 50);
    for ev in &r {
        assert!(0 <= ev.timestamp && ev.timestamp < 10 * SCALE);
        assert!(ev.intensity < SCALE);
        assert_eq!(ev.mark, None);
    }
}
