// Scenario tests for the two Hawkes simulators on concrete draw traces,
// with exact expected values computed by hand from the fixed-point rules.

use point_process::event::{Event, SimError, SCALE};
use point_process::hawkes_exact::{self, ExactStep};
use point_process::hawkes_thinning::{self, HawkesStep};

#[test]
fn thinned_hawkes_accepts_and_stops_at_horizon() {
    let steps = vec![
        HawkesStep { ds: SCALE, decay_factor: 500_000, accept_u: 100_000 },
        HawkesStep { ds: 20 * SCALE, decay_factor: 1, accept_u: 0 },
    ];
    let r = hawkes_thinning::hawkes_exponential(10 * SCALE, SCALE, SCALE, SCALE, 2 * SCALE, &steps)
        .unwrap();
    assert_eq!(r.len(), 2);
    // initial event: baseline plus jump
    assert_eq!(
        r[0],
        Event { timestamp: 2 * SCALE, intensity: 2 * SCALE, mark: Some(SCALE) }
    );
    // decayed to 1.5, accepted (0.1 < 1.5/2.0), jumped back up to 2.5
    assert_eq!(
        r[1],
        Event { timestamp: 3 * SCALE, intensity: 2_500_000, mark: Some(SCALE) }
    );
}

#[test]
fn thinned_hawkes_rejection_emits_no_event() {
    let steps = vec![
        HawkesStep { ds: SCALE, decay_factor: 500_000, accept_u: 900_000 },
        HawkesStep { ds: 20 * SCALE, decay_factor: 1, accept_u: 0 },
    ];
    let r = hawkes_thinning::hawkes_exponential(10 * SCALE, SCALE, SCALE, SCALE, 2 * SCALE, &steps)
        .unwrap();
    // 0.9 >= 1.5/2.0: the candidate is discarded, only the initial event stays
    assert_eq!(r.len(), 1);
    assert_eq!(
        r[0],
        Event { timestamp: 2 * SCALE, intensity: 2 * SCALE, mark: Some(SCALE) }
    );
}

#[test]
fn thinned_hawkes_without_excitation_is_homogeneous() {
    // alpha = 0: every candidate is accepted and the intensity never leaves
    // the baseline
    let steps = vec![
        HawkesStep { ds: SCALE, decay_factor: 700_000, accept_u: 0 },
        HawkesStep { ds: SCALE, decay_factor: 123, accept_u: 999_999 },
    ];
    let r = hawkes_thinning::hawkes_exponential(10 * SCALE, SCALE, SCALE, 0, SCALE, &steps)
        .unwrap();
    assert_eq!(r.len(), 3);
    for (k, ev) in r.iter().enumerate() {
        assert_eq!(ev.timestamp, (k as i64 + 1) * SCALE);
        assert_eq!(ev.intensity, SCALE);
        assert_eq!(ev.mark, Some(0));
    }
}

#[test]
fn thinned_hawkes_first_arrival_past_horizon_is_empty() {
    let steps: Vec<HawkesStep> = vec![];
    let r = hawkes_thinning::hawkes_exponential(500_000, SCALE, SCALE, SCALE, SCALE, &steps)
        .unwrap();
    assert_eq!(r, vec![]);
}

#[test]
fn thinned_hawkes_negative_decay_is_invalid() {
    let steps: Vec<HawkesStep> = vec![];
    assert_eq!(
        hawkes_thinning::hawkes_exponential(SCALE, -1, SCALE, SCALE, 1, &steps),
        Err(SimError::InvalidParameter)
    );
}

#[test]
fn exact_hawkes_exact_trace() {
    let jumps = vec![SCALE, 2 * SCALE];
    let steps = vec![
        ExactStep { e1: 3 * SCALE, e2: SCALE, decay_factor: 500_000 },
        ExactStep { e1: SCALE, e2: 4 * SCALE, decay_factor: 500_000 },
    ];
    let r = hawkes_exact::hawkes_exponential(10 * SCALE, SCALE, SCALE, &jumps, &steps).unwrap();
    assert_eq!(r.len(), 2);
    // at the baseline only the baseline clock runs: wait e2 / lambda0 = 1.0
    assert_eq!(
        r[0],
        Event { timestamp: SCALE, intensity: SCALE, mark: Some(SCALE) }
    );
    // excess 1.0, discriminant non-negative, min(e1/beta, e2/lambda0) = 1.0;
    // the intensity decays from 2.0 halfway toward the baseline
    assert_eq!(
        r[1],
        Event { timestamp: 2 * SCALE, intensity: 1_500_000, mark: Some(2 * SCALE) }
    );
}

#[test]
fn exact_hawkes_exhausted_jumps_fails() {
    // an event is due at 0.5 but the jump sequence is empty
    let jumps: Vec<i64> = vec![];
    let steps = vec![ExactStep { e1: 500_000, e2: 500_000, decay_factor: 500_000 }];
    assert_eq!(
        hawkes_exact::hawkes_exponential(10 * SCALE, SCALE, SCALE, &jumps, &steps),
        Err(SimError::JumpsExhausted)
    );
}

#[test]
fn exact_hawkes_fails_at_the_step_that_needs_the_jump() {
    // one jump feeds the first event; the second event finds none left
    let jumps = vec![SCALE];
    let steps = vec![
        ExactStep { e1: 3 * SCALE, e2: SCALE, decay_factor: 500_000 },
        ExactStep { e1: SCALE, e2: 4 * SCALE, decay_factor: 500_000 },
    ];
    assert_eq!(
        hawkes_exact::hawkes_exponential(10 * SCALE, SCALE, SCALE, &jumps, &steps),
        Err(SimError::JumpsExhausted)
    );
}

#[test]
fn exact_hawkes_zero_baseline_dies_out() {
    // with a zero baseline and no excess the process is extinct: no clock
    // can ring again
    let jumps = vec![5];
    let steps = vec![ExactStep { e1: 1, e2: 1, decay_factor: 1 }];
    let r = hawkes_exact::hawkes_exponential(10 * SCALE, SCALE, 0, &jumps, &steps).unwrap();
    assert_eq!(r, vec![]);
}

#[test]
fn exact_hawkes_zero_jumps_keep_baseline_intensity() {
    let jumps = vec![0, 0];
    let steps = vec![
        ExactStep { e1: 2 * SCALE, e2: SCALE, decay_factor: 400_000 },
        ExactStep { e1: 2 * SCALE, e2: SCALE, decay_factor: 400_000 },
    ];
    let r = hawkes_exact::hawkes_exponential(10 * SCALE, SCALE, SCALE, &jumps, &steps).unwrap();
    assert_eq!(r.len(), 2);
    for (k, ev) in r.iter().enumerate() {
        assert_eq!(ev.timestamp, (k as i64 + 1) * SCALE);
        assert_eq!(ev.intensity, SCALE);
        assert_eq!(ev.mark, Some(0));
    }
}

#[test]
fn exact_hawkes_wait_past_horizon_is_empty() {
    let jumps = vec![SCALE];
    let steps = vec![ExactStep { e1: SCALE, e2: 2 * SCALE, decay_factor: SCALE }];
    let r = hawkes_exact::hawkes_exponential(SCALE, SCALE, SCALE, &jumps, &steps).unwrap();
    assert_eq!(r, vec![]);
}

#[test]
fn exact_hawkes_negative_baseline_is_invalid() {
    let jumps: Vec<i64> = vec![];
    let steps: Vec<ExactStep> = vec![];
    assert_eq!(
        hawkes_exact::hawkes_exponential(SCALE, SCALE, -5, &jumps, &steps),
        Err(SimError::InvalidParameter)
    );
}
