//! Exact exponential-kernel Hawkes simulation by the Dassios-Zhao
//! decomposition: linear time, no rejection step.
//!
//! State between events is the pair (current time, intensity just after the
//! previous event). Each step turns two unit-rate exponential draws into
//! candidate waiting times - the baseline clock `e2 / lambda0` and, when the
//! discriminant `1 - beta * e1 / (last - lambda0)` is non-negative, the
//! self-excitation clock `e1 / beta` competing with it - and the smaller one
//! elapses. The intensity then decays analytically over the elapsed interval
//! (the decay factor `exp(-beta * w)` arrives with the step's draws, since it
//! needs floating-point inversion); if the horizon is not passed, one value
//! is consumed from the caller's jump sequence as the event's mark and added
//! to the intensity. Running out of jumps when an event is due is fatal.

use vstd::prelude::*;
use crate::event::{Event, SimError, SCALE, scaled, scale_mul, lemma_scaled_bounds};
use crate::hawkes_thinning::{decayed_intensity, homogeneous_chain};
use crate::order::{events_within, strictly_increasing_timestamps};

verus! {

/// The draws one step of the exact loop consumes: two unit-rate exponential
/// draws (in ticks) and the decay factor for the interval they select.
#[derive(Clone, Copy, Debug, PartialEq, Eq)]
pub struct ExactStep {
    pub e1: i64,
    pub e2: i64,
    pub decay_factor: i64,
}

/// Every step of a trace is in range: non-negative exponential draws and a
/// decay factor in `[0, SCALE]`.
pub open spec fn exact_step_draws(steps: Seq<ExactStep>) -> bool {
    forall|i: int|
        0 <= i < steps.len() ==> {
            &&& 0 <= (#[trigger] steps[i]).e1
            &&& 0 <= steps[i].e2
            &&& 0 <= steps[i].decay_factor <= SCALE
        }
}

/// The waiting time of an exponential clock of the given rate rung by the
/// unit-rate draw `e`: `e / rate`, in ticks. A zero-rate clock never rings.
pub open spec fn wait_ticks(e: int, rate: int) -> Option<int> {
    if rate == 0 {
        Option::<int>::None
    } else {
        Option::<int>::Some(e * (SCALE as int) / rate)
    }
}

/// The earlier of two clocks, where `None` is a clock that never rings.
pub open spec fn min_wait(a: Option<int>, b: Option<int>) -> Option<int> {
    match (a, b) {
        (Option::Some(x), Option::Some(y)) => Option::Some(if x <= y { x } else { y }),
        (Option::Some(x), Option::None) => Option::Some(x),
        (Option::None, y) => y,
    }
}

/// The inter-arrival the decomposition chooses from intensity `last`: when
/// the excess `last - lambda0` is positive and the discriminant
/// `1 - beta * e1 / (last - lambda0)` is non-negative, the self-excitation
/// clock competes with the baseline clock; otherwise only the baseline clock
/// runs.
pub open spec fn exact_wait(beta: int, lambda0: int, last: int, e1: int, e2: int) -> Option<int> {
    let s2 = wait_ticks(e2, lambda0);
    if last > lambda0 && beta * e1 <= (last - lambda0) * (SCALE as int) {
        min_wait(wait_ticks(e1, beta), s2)
    } else {
        s2
    }
}

/// A wait below one tick still advances the clock by a full tick (the real
/// draw is almost surely positive), keeping event times strictly increasing.
pub open spec fn clamp_wait(w: int) -> int {
    if w < 1 {
        1
    } else {
        w
    }
}

/// Sum of the first `n` jump values.
pub open spec fn jumps_total(js: Seq<i64>, n: int) -> int
    decreases n,
{
    if n <= 0 {
        0
    } else {
        jumps_total(js, n - 1) + js[n - 1]
    }
}

/// With non-negative jumps the partial sums grow with their length.
pub proof fn lemma_jumps_total_mono(js: Seq<i64>, a: int, b: int)
    requires
        0 <= a <= b <= js.len(),
        forall|i: int| 0 <= i < js.len() ==> 0 <= #[trigger] js[i],
    ensures
        jumps_total(js, a) <= jumps_total(js, b),
    decreases b - a,
{
    if a < b {
        lemma_jumps_total_mono(js, a, b - 1);
    }
}

/// A prefix of events in front of a loop outcome; exhaustion swallows it.
pub open spec fn concat_run(prefix: Seq<Event>, rest: Option<Seq<Event>>) -> Option<Seq<Event>> {
    match rest {
        Option::Some(s) => Option::Some(prefix + s),
        Option::None => Option::None,
    }
}

/// The outcome of the exact loop from state (`t`, `last`), consuming the
/// trace in order and the jump sequence from position `j`: the emitted
/// events, or `None` when an event was due and no jump value was left. The
/// run ends at the first wait past the horizon, when a clock never rings
/// again, or when the trace is used up.
pub open spec fn exact_run(
    tmax: i64,
    beta: i64,
    lambda0: i64,
    t: int,
    last: int,
    jumps: Seq<i64>,
    j: int,
    steps: Seq<ExactStep>,
) -> Option<Seq<Event>>
    decreases steps.len(),
{
    if steps.len() == 0 || t >= tmax {
        Option::Some(Seq::<Event>::empty())
    } else {
        let st = steps[0];
        match exact_wait(beta as int, lambda0 as int, last, st.e1 as int, st.e2 as int) {
            Option::None => Option::Some(Seq::<Event>::empty()),
            Option::Some(w0) => {
                let t2 = t + clamp_wait(w0);
                if t2 > tmax {
                    Option::Some(Seq::<Event>::empty())
                } else if j < jumps.len() {
                    let decayed = decayed_intensity(lambda0 as int, last, st.decay_factor as int);
                    let a = jumps[j];
                    let ev = Event {
                        timestamp: t2 as i64,
                        intensity: decayed as i64,
                        mark: Option::Some(a),
                    };
                    concat_run(
                        seq![ev],
                        exact_run(tmax, beta, lambda0, t2, decayed + a, jumps, j + 1, steps.drop_first()),
                    )
                } else {
                    Option::None
                }
            },
        }
    }
}

/// Exact Hawkes simulation over an explicit draw trace.
///
/// Consumes one value of `jumps` per emitted event, in order: event `k`
/// carries `jumps[k]` as its mark. If an event is accepted before the horizon
/// and no jump value is left the run fails with `JumpsExhausted` and returns
/// nothing; events are otherwise emitted in strictly increasing time order,
/// all within `[0, tmax]`.
pub fn hawkes_exponential(
    tmax: i64,
    beta: i64,
    lambda0: i64,
    jumps: &Vec<i64>,
    steps: &Vec<ExactStep>,
) -> (r: Result<Vec<Event>, SimError>)
    requires
        exact_step_draws(steps@),
        forall|i: int| 0 <= i < jumps@.len() ==> 0 <= #[trigger] jumps@[i],
        lambda0 + jumps_total(jumps@, jumps@.len() as int) <= i64::MAX,
    ensures
        (tmax < 0 || beta < 0 || lambda0 < 0) <==> r == Result::<Vec<Event>, SimError>::Err(
            SimError::InvalidParameter,
        ),
        !(tmax < 0 || beta < 0 || lambda0 < 0) ==> (match exact_run(
            tmax,
            beta,
            lambda0,
            0,
            lambda0 as int,
            jumps@,
            0,
            steps@,
        ) {
            Option::Some(evs) => r matches Ok(v) && v@ == evs,
            Option::None => r == Result::<Vec<Event>, SimError>::Err(SimError::JumpsExhausted),
        }),
        r matches Ok(v) ==> {
            &&& v@.len() <= jumps@.len()
            &&& events_within(v@, tmax as int)
            &&& strictly_increasing_timestamps(v@)
            &&& forall|k: int| 0 <= k < v@.len() ==> (#[trigger] v@[k]).intensity >= lambda0
                && v@[k].mark == Some(jumps@[k])
        },
{
    if tmax < 0 || beta < 0 || lambda0 < 0 {
        return Err(SimError::InvalidParameter);
    }
    let mut out: Vec<Event> = Vec::new();
    let mut t: i64 = 0;
    let mut last: i64 = lambda0;
    let mut jj: usize = 0;
    let n: usize = steps.len();
    let mut i: usize = 0;
    let mut done: bool = false;
    let ghost total = exact_run(tmax, beta, lambda0, 0, lambda0 as int, jumps@, 0, steps@);
    proof {
        assert(steps@.skip(0) =~= steps@);
    }
    while i < n && !done && t < tmax
        invariant
            n == steps@.len(),
            0 <= i <= n,
            0 <= tmax && 0 <= beta && 0 <= lambda0,
            exact_step_draws(steps@),
            forall|k: int| 0 <= k < jumps@.len() ==> 0 <= #[trigger] jumps@[k],
            lambda0 + jumps_total(jumps@, jumps@.len() as int) <= i64::MAX,
            0 <= t <= tmax,
            lambda0 <= last,
            jj <= jumps@.len(),
            last <= lambda0 + jumps_total(jumps@, jj as int),
            out@.len() == jj,
            events_within(out@, tmax as int),
            strictly_increasing_timestamps(out@),
            forall|k: int| 0 <= k < out@.len() ==> (#[trigger] out@[k]).timestamp <= t,
            forall|k: int| 0 <= k < out@.len() ==> (#[trigger] out@[k]).intensity >= lambda0
                && out@[k].mark == Some(jumps@[k]),
            total == exact_run(tmax, beta, lambda0, 0, lambda0 as int, jumps@, 0, steps@),
            !done ==> total == concat_run(
                out@,
                exact_run(
                    tmax,
                    beta,
                    lambda0,
                    t as int,
                    last as int,
                    jumps@,
                    jj as int,
                    steps@.skip(i as int),
                ),
            ),
            done ==> total == Option::Some(out@),
        decreases n - i,
    {
        let ghost suffix = steps@.skip(i as int);
        proof {
            assert(suffix[0] == steps@[i as int]);
            assert(suffix.drop_first() =~= steps@.skip(i as int + 1));
        }
        let st = steps[i];
        proof {
            assert((st.e1 as int) * (SCALE as int) <= u64::MAX as int * (SCALE as int))
                by (nonlinear_arith)
                requires
                    0 <= st.e1 <= u64::MAX,
            ;
            assert((st.e2 as int) * (SCALE as int) <= u64::MAX as int * (SCALE as int))
                by (nonlinear_arith)
                requires
                    0 <= st.e2 <= u64::MAX,
            ;
            assert((beta as int) * (st.e1 as int) <= u64::MAX as int * (u64::MAX as int))
                by (nonlinear_arith)
                requires
                    0 <= beta <= u64::MAX,
                    0 <= st.e1 <= u64::MAX,
            ;
            assert(((last - lambda0) as int) * (SCALE as int) <= u64::MAX as int * (SCALE as int))
                by (nonlinear_arith)
                requires
                    0 <= last - lambda0 <= u64::MAX,
            ;
        }
        let ghost w_spec = exact_wait(
            beta as int,
            lambda0 as int,
            last as int,
            st.e1 as int,
            st.e2 as int,
        );
        let s2_opt: Option<u128> = if lambda0 == 0 {
            None
        } else {
            Some((st.e2 as u128) * (SCALE as u128) / (lambda0 as u128))
        };
        let excess: i64 = last - lambda0;
        let use_both: bool = excess > 0 && (beta as u128) * (st.e1 as u128) <= (excess as u128)
            * (SCALE as u128);
        let w_opt: Option<u128> = if use_both {
            let s1_opt: Option<u128> = if beta == 0 {
                None
            } else {
                Some((st.e1 as u128) * (SCALE as u128) / (beta as u128))
            };
            match (s1_opt, s2_opt) {
                (Some(x), Some(y)) => Some(if x <= y { x } else { y }),
                (Some(x), None) => Some(x),
                (None, y) => y,
            }
        } else {
            s2_opt
        };
        proof {
            match w_opt {
                Option::Some(w) => {
                    assert(w_spec == Option::<int>::Some(w as int));
                },
                Option::None => {
                    assert(w_spec is None);
                },
            }
        }
        match w_opt {
            None => {
                // no clock can ring again: the process is extinct
                done = true;
            },
            Some(w_raw) => {
                let w: u128 = if w_raw < 1 {
                    1
                } else {
                    w_raw
                };
                let t2w: u128 = (t as u128) + w;
                if t2w > (tmax as u128) {
                    // the next event lands past the horizon: the window is over
                    done = true;
                } else {
                    let t2: i64 = t2w as i64;
                    let decayed: i64 = lambda0 + scale_mul(st.decay_factor, last - lambda0);
                    if jj < jumps.len() {
                        let a: i64 = jumps[jj];
                        proof {
                            lemma_jumps_total_mono(jumps@, jj as int + 1, jumps@.len() as int);
                        }
                        let ev = Event { timestamp: t2, intensity: decayed, mark: Some(a) };
                        let ghost prev = out@;
                        let ghost t0 = t as int;
                        let ghost last0 = last as int;
                        let ghost jj0 = jj as int;
                        let ghost rest = exact_run(
                            tmax,
                            beta,
                            lambda0,
                            t2 as int,
                            decayed + a,
                            jumps@,
                            jj as int + 1,
                            steps@.skip(i as int + 1),
                        );
                        out.push(ev);
                        last = decayed + a;
                        t = t2;
                        jj = jj + 1;
                        proof {
                            assert(exact_run(tmax, beta, lambda0, t0, last0, jumps@, jj0, suffix)
                                == concat_run(seq![ev], rest));
                            match rest {
                                Option::Some(s) => {
                                    assert(prev + (seq![ev] + s) =~= prev.push(ev) + s);
                                },
                                Option::None => {},
                            }
                        }
                    } else {
                        proof {
                            assert(exact_run(
                                tmax,
                                beta,
                                lambda0,
                                t as int,
                                last as int,
                                jumps@,
                                jj as int,
                                suffix,
                            ) is None);
                        }
                        return Err(SimError::JumpsExhausted);
                    }
                }
            },
        }
        i += 1;
    }
    proof {
        if !done {
            if t >= tmax {
            } else {
                assert(i == n);
                assert(steps@.skip(n as int).len() == 0);
            }
            assert(exact_run(
                tmax,
                beta,
                lambda0,
                t as int,
                last as int,
                jumps@,
                jj as int,
                steps@.skip(i as int),
            ) == Option::Some(Seq::<Event>::empty()));
            assert(out@ + Seq::<Event>::empty() =~= out@);
        }
    }
    Ok(out)
}

/// The baseline clock's waiting time for one step: `e2 / lambda0`, clamped
/// to a full tick.
pub open spec fn baseline_wait(lambda0: int, e2: int) -> int {
    clamp_wait(e2 * (SCALE as int) / lambda0)
}

/// No-excitation law for the exact simulator: with every jump value zero the
/// intensity never leaves the baseline, so the self-excitation clock never
/// competes, and the run is exactly the homogeneous chain of its baseline
/// waiting times `e2 / lambda0` - a homogeneous Poisson process of rate
/// `lambda0`, every event carrying the baseline intensity and a zero mark.
/// With a zero baseline no clock can ring at all and the run is empty.
pub proof fn lemma_exact_no_excitation(
    tmax: i64,
    beta: i64,
    lambda0: i64,
    t: int,
    jumps: Seq<i64>,
    j: int,
    steps: Seq<ExactStep>,
)
    requires
        0 <= lambda0,
        0 <= j,
        exact_step_draws(steps),
        forall|i: int| 0 <= i < jumps.len() ==> #[trigger] jumps[i] == 0,
    ensures
        0 < lambda0 ==> (match exact_run(tmax, beta, lambda0, t, lambda0 as int, jumps, j, steps) {
            Option::Some(evs) => evs == homogeneous_chain(
                tmax,
                lambda0,
                t,
                steps.map_values(|st: ExactStep| baseline_wait(lambda0 as int, st.e2 as int)),
            ),
            Option::None => true,
        }),
        lambda0 == 0 ==> exact_run(tmax, beta, lambda0, t, lambda0 as int, jumps, j, steps)
            == Option::Some(Seq::<Event>::empty()),
    decreases steps.len(),
{
    let waits = steps.map_values(|st: ExactStep| baseline_wait(lambda0 as int, st.e2 as int));
    if steps.len() == 0 || t >= tmax {
        if 0 < lambda0 {
            assert(homogeneous_chain(tmax, lambda0, t, waits) =~= Seq::<Event>::empty());
        }
    } else {
        let st = steps[0];
        if lambda0 == 0 {
            assert(exact_wait(beta as int, 0, 0, st.e1 as int, st.e2 as int) is None);
        } else {
            assert(waits[0] == baseline_wait(lambda0 as int, st.e2 as int));
            let w0 = st.e2 as int * (SCALE as int) / (lambda0 as int);
            assert(exact_wait(beta as int, lambda0 as int, lambda0 as int, st.e1 as int, st.e2 as int)
                == Option::<int>::Some(w0));
            let t2 = t + clamp_wait(w0);
            if t2 > tmax {
                assert(homogeneous_chain(tmax, lambda0, t, waits) =~= Seq::<Event>::empty());
            } else if j < jumps.len() {
                assert(st.decay_factor * 0int == 0);
                assert(scaled(st.decay_factor as int, 0) == 0) by {
                    lemma_scaled_bounds(st.decay_factor as int, 0);
                }
                assert(decayed_intensity(lambda0 as int, lambda0 as int, st.decay_factor as int)
                    == lambda0 as int);
                assert(exact_step_draws(steps.drop_first()));
                lemma_exact_no_excitation(tmax, beta, lambda0, t2, jumps, j + 1, steps.drop_first());
                let a = jumps[j];
                let ev = Event { timestamp: t2 as i64, intensity: lambda0, mark: Option::Some(a) };
                let rest = exact_run(
                    tmax,
                    beta,
                    lambda0,
                    t2,
                    lambda0 as int,
                    jumps,
                    j + 1,
                    steps.drop_first(),
                );
                match rest {
                    Option::Some(s) => {
                        assert(exact_run(tmax, beta, lambda0, t, lambda0 as int, jumps, j, steps)
                            == Option::Some(seq![ev] + s));
                        assert(steps.drop_first().map_values(
                            |st2: ExactStep| baseline_wait(lambda0 as int, st2.e2 as int),
                        ) =~= waits.drop_first());
                        assert(seq![ev] + s =~= homogeneous_chain(tmax, lambda0, t, waits));
                    },
                    Option::None => {},
                }
            }
        }
    }
}

} // verus!
