//! Exponential-kernel Hawkes process simulated by thinning (Ogata-style
//! rejection), one sequential pass.
//!
//! State between candidates is the pair (current time, current intensity);
//! the intensity doubles as the upper bound for the next candidate, since
//! between jumps it only decays. Per candidate the loop consumes one
//! exponential inter-arrival drawn at that bound, the decay factor
//! exp(-decay * ds) for the elapsed interval, and one uniform acceptance
//! draw; those three arrive as one `HawkesStep` of the run's trace, since
//! computing them needs floating-point inversion. Everything else - the
//! analytic decay bookkeeping, the acceptance test, the per-branch bound
//! update and the emitted events - is verified integer arithmetic.

use vstd::prelude::*;
use crate::event::{Event, SimError, SCALE, scaled, scale_mul, lemma_scaled_bounds};
use crate::order::{events_within, strictly_increasing_timestamps};

verus! {

/// The draws one candidate step consumes: `ds`, the inter-arrival drawn at
/// the current upper bound (at least one tick, as the real draw is almost
/// surely positive); `decay_factor`, exp(-decay * ds) in ticks; `accept_u`,
/// the uniform acceptance draw on the unit interval.
#[derive(Clone, Copy, Debug, PartialEq, Eq)]
pub struct HawkesStep {
    pub ds: i64,
    pub decay_factor: i64,
    pub accept_u: i64,
}

/// Every step of a trace is in range: a positive inter-arrival, a decay
/// factor in `[0, SCALE]`, and a unit-interval acceptance draw.
pub open spec fn hawkes_step_draws(steps: Seq<HawkesStep>) -> bool {
    forall|i: int|
        0 <= i < steps.len() ==> {
            &&& 1 <= (#[trigger] steps[i]).ds
            &&& 0 <= steps[i].decay_factor <= SCALE
            &&& 0 <= steps[i].accept_u < SCALE
        }
}

/// The intensity after decaying from `cur` toward the baseline over an
/// interval whose decay factor is `f / SCALE`:
/// `lambda0 + (cur - lambda0) * f / SCALE`.
pub open spec fn decayed_intensity(lambda0: int, cur: int, f: int) -> int {
    lambda0 + scaled(f, cur - lambda0)
}

/// The events the candidate loop emits from state (`s`, `cur`), consuming the
/// trace in order. Per candidate: decay across the inter-arrival, stop without
/// an event if the new time overshoots the horizon, otherwise accept with the
/// uniform draw against `decayed / bound` (the bound is the stored intensity,
/// pre-decay); an accepted event jumps the intensity by `alpha` and carries
/// the post-jump intensity, and either way the new intensity becomes the next
/// bound.
pub open spec fn hawkes_thinned_events(
    tmax: i64,
    lambda0: i64,
    alpha: i64,
    s: int,
    cur: int,
    steps: Seq<HawkesStep>,
) -> Seq<Event>
    decreases steps.len(),
{
    if steps.len() == 0 || s >= tmax {
        Seq::<Event>::empty()
    } else {
        let st = steps[0];
        let decayed = decayed_intensity(lambda0 as int, cur, st.decay_factor as int);
        let s2 = s + st.ds;
        if s2 > tmax {
            Seq::<Event>::empty()
        } else if st.accept_u * cur < decayed * (SCALE as int) {
            seq![
                Event {
                    timestamp: s2 as i64,
                    intensity: (decayed + alpha) as i64,
                    mark: Some(alpha),
                },
            ] + hawkes_thinned_events(tmax, lambda0, alpha, s2, decayed + alpha, steps.drop_first())
        } else {
            hawkes_thinned_events(tmax, lambda0, alpha, s2, decayed, steps.drop_first())
        }
    }
}

/// A whole run: the initial event occurs at the first inter-arrival (drawn at
/// the baseline rate) with intensity `lambda0 + alpha`, provided it falls
/// inside the window; the candidate loop continues from it.
pub open spec fn hawkes_thinned_run(
    tmax: i64,
    lambda0: i64,
    alpha: i64,
    first_ds: i64,
    steps: Seq<HawkesStep>,
) -> Seq<Event> {
    if first_ds > tmax {
        Seq::<Event>::empty()
    } else {
        seq![
            Event { timestamp: first_ds, intensity: (lambda0 + alpha) as i64, mark: Some(alpha) },
        ] + hawkes_thinned_events(
            tmax,
            lambda0,
            alpha,
            first_ds as int,
            lambda0 + alpha,
            steps,
        )
    }
}

/// Thinned Hawkes simulation over an explicit draw trace.
///
/// `decay` enters the loop only through the per-step decay factors the driver
/// computed from it, so here it is validated with the other parameters and
/// recorded nowhere. The run ends at the first candidate past the horizon or
/// when the trace is used up, whichever comes first; events are emitted in
/// strictly increasing time order, all within `[0, tmax]`.
pub fn hawkes_exponential(
    tmax: i64,
    decay: i64,
    lambda0: i64,
    alpha: i64,
    first_ds: i64,
    steps: &Vec<HawkesStep>,
) -> (r: Result<Vec<Event>, SimError>)
    requires
        1 <= first_ds,
        hawkes_step_draws(steps@),
        lambda0 + alpha * (steps@.len() + 1) <= i64::MAX,
    ensures
        (tmax < 0 || decay < 0 || lambda0 < 0 || alpha < 0) <==> r == Result::<
            Vec<Event>,
            SimError,
        >::Err(SimError::InvalidParameter),
        !(tmax < 0 || decay < 0 || lambda0 < 0 || alpha < 0) ==> (r matches Ok(v) && v@
            == hawkes_thinned_run(tmax, lambda0, alpha, first_ds, steps@)),
        r matches Ok(v) ==> {
            &&& events_within(v@, tmax as int)
            &&& strictly_increasing_timestamps(v@)
            &&& forall|i: int| 0 <= i < v@.len() ==> (#[trigger] v@[i]).intensity >= lambda0
                && v@[i].mark == Some(alpha)
        },
{
    if tmax < 0 || decay < 0 || lambda0 < 0 || alpha < 0 {
        return Err(SimError::InvalidParameter);
    }
    let mut out: Vec<Event> = Vec::new();
    if first_ds > tmax {
        return Ok(out);
    }
    proof {
        assert(alpha + alpha * (steps@.len() as int) == alpha * (steps@.len() + 1))
            by (nonlinear_arith);
        assert(alpha * (steps@.len() as int) >= 0) by (nonlinear_arith)
            requires
                alpha >= 0,
                steps@.len() >= 0,
        ;
    }
    let mut s: i64 = first_ds;
    let mut cur: i64 = lambda0 + alpha;
    let first_ev = Event { timestamp: s, intensity: cur, mark: Some(alpha) };
    out.push(first_ev);
    let n: usize = steps.len();
    let mut i: usize = 0;
    let mut done: bool = false;
    let ghost total = seq![first_ev] + hawkes_thinned_events(
        tmax,
        lambda0,
        alpha,
        first_ds as int,
        lambda0 + alpha,
        steps@,
    );
    proof {
        assert(steps@.skip(0) =~= steps@);
    }
    while i < n && !done && s < tmax
        invariant
            n == steps@.len(),
            0 <= i <= n,
            0 <= tmax && 0 <= lambda0 && 0 <= alpha,
            hawkes_step_draws(steps@),
            1 <= first_ds <= tmax,
            first_ds <= s <= tmax,
            lambda0 <= cur,
            cur + alpha * (n - i) <= i64::MAX,
            out@.len() >= 1,
            events_within(out@, tmax as int),
            strictly_increasing_timestamps(out@),
            forall|k: int| 0 <= k < out@.len() ==> (#[trigger] out@[k]).timestamp <= s,
            forall|k: int| 0 <= k < out@.len() ==> (#[trigger] out@[k]).intensity >= lambda0
                && out@[k].mark == Some(alpha),
            total == seq![first_ev] + hawkes_thinned_events(
                tmax,
                lambda0,
                alpha,
                first_ds as int,
                lambda0 + alpha,
                steps@,
            ),
            !done ==> total == out@ + hawkes_thinned_events(
                tmax,
                lambda0,
                alpha,
                s as int,
                cur as int,
                steps@.skip(i as int),
            ),
            done ==> total == out@,
        decreases n - i,
    {
        let ghost suffix = steps@.skip(i as int);
        proof {
            assert(suffix[0] == steps@[i as int]);
            assert(suffix.drop_first() =~= steps@.skip(i as int + 1));
        }
        let st = steps[i];
        proof {
            assert(alpha * ((n - i) as int) == alpha + alpha * ((n - i - 1) as int))
                by (nonlinear_arith)
                requires
                    0 <= i < n,
            ;
            assert(alpha * ((n - i - 1) as int) >= 0) by (nonlinear_arith)
                requires
                    alpha >= 0,
                    0 <= i < n,
            ;
        }
        let decayed: i64 = lambda0 + scale_mul(st.decay_factor, cur - lambda0);
        if st.ds > tmax - s {
            // the candidate lands past the horizon: the window is over
            done = true;
        } else {
            let s2: i64 = s + st.ds;
            proof {
                assert((st.accept_u as int) * (cur as int) <= (SCALE as int) * (i64::MAX as int))
                    by (nonlinear_arith)
                    requires
                        0 <= st.accept_u <= SCALE,
                        0 <= cur <= i64::MAX,
                ;
                assert((decayed as int) * (SCALE as int) <= (i64::MAX as int) * (SCALE as int))
                    by (nonlinear_arith)
                    requires
                        0 <= decayed <= i64::MAX,
                ;
            }
            let lhs: u128 = (st.accept_u as u128) * (cur as u128);
            let rhs: u128 = (decayed as u128) * (SCALE as u128);
            let ghost prev = out@;
            if lhs < rhs {
                // accepted: the intensity jumps and the event records it
                cur = decayed + alpha;
                let ev = Event { timestamp: s2, intensity: cur, mark: Some(alpha) };
                out.push(ev);
                proof {
                    assert(prev.push(ev) + hawkes_thinned_events(
                        tmax,
                        lambda0,
                        alpha,
                        s2 as int,
                        cur as int,
                        steps@.skip(i as int + 1),
                    ) =~= prev + (seq![ev] + hawkes_thinned_events(
                        tmax,
                        lambda0,
                        alpha,
                        s2 as int,
                        cur as int,
                        steps@.skip(i as int + 1),
                    )));
                }
            } else {
                // rejected: only the decay survives; the bound follows it
                cur = decayed;
            }
            s = s2;
        }
        i += 1;
    }
    proof {
        if !done {
            if s >= tmax {
                assert(hawkes_thinned_events(
                    tmax,
                    lambda0,
                    alpha,
                    s as int,
                    cur as int,
                    steps@.skip(i as int),
                ) =~= Seq::<Event>::empty());
            } else {
                assert(i == n);
                assert(steps@.skip(n as int).len() == 0);
            }
            assert(total =~= out@ + Seq::<Event>::empty());
            assert(total =~= out@);
        }
    }
    Ok(out)
}

/// The homogeneous chain: events at the running sums of the given
/// inter-arrivals, as long as they stay within the window, all carrying the
/// constant intensity and a zero mark.
pub open spec fn homogeneous_chain(tmax: i64, lambda0: i64, s: int, dss: Seq<int>) -> Seq<Event>
    decreases dss.len(),
{
    if dss.len() == 0 || s >= tmax {
        Seq::<Event>::empty()
    } else {
        let s2 = s + dss[0];
        if s2 > tmax {
            Seq::<Event>::empty()
        } else {
            seq![Event { timestamp: s2 as i64, intensity: lambda0, mark: Some(0) }]
                + homogeneous_chain(tmax, lambda0, s2, dss.drop_first())
        }
    }
}

/// No-excitation law: with `alpha == 0` and a positive baseline, the decay
/// step is the identity and every in-window candidate is accepted, so the
/// whole thinned Hawkes run collapses to the homogeneous chain of its
/// inter-arrival draws at the baseline rate: a homogeneous Poisson run.
pub proof fn lemma_thinned_hawkes_no_excitation(
    tmax: i64,
    lambda0: i64,
    first_ds: i64,
    steps: Seq<HawkesStep>,
)
    requires
        0 < lambda0,
        1 <= first_ds,
        hawkes_step_draws(steps),
    ensures
        hawkes_thinned_run(tmax, lambda0, 0, first_ds, steps) == homogeneous_chain(
            tmax,
            lambda0,
            0,
            seq![first_ds as int] + steps.map_values(|st: HawkesStep| st.ds as int),
        ),
{
    let dss = seq![first_ds as int] + steps.map_values(|st: HawkesStep| st.ds as int);
    if first_ds > tmax {
        assert(homogeneous_chain(tmax, lambda0, 0, dss) =~= Seq::<Event>::empty());
    } else {
        lemma_no_excitation_events(tmax, lambda0, first_ds as int, steps);
        assert(dss.drop_first() =~= steps.map_values(|st: HawkesStep| st.ds as int));
        assert(hawkes_thinned_run(tmax, lambda0, 0, first_ds, steps) =~= homogeneous_chain(
            tmax,
            lambda0,
            0,
            dss,
        ));
    }
}

/// Induction for the no-excitation law: from any state with the intensity at
/// the baseline, the candidate loop with `alpha == 0` emits exactly the
/// homogeneous chain of its inter-arrival draws.
proof fn lemma_no_excitation_events(tmax: i64, lambda0: i64, s: int, steps: Seq<HawkesStep>)
    requires
        0 < lambda0,
        hawkes_step_draws(steps),
    ensures
        hawkes_thinned_events(tmax, lambda0, 0, s, lambda0 as int, steps) == homogeneous_chain(
            tmax,
            lambda0,
            s,
            steps.map_values(|st: HawkesStep| st.ds as int),
        ),
    decreases steps.len(),
{
    let dss = steps.map_values(|st: HawkesStep| st.ds as int);
    if steps.len() == 0 || s >= tmax {
        assert(hawkes_thinned_events(tmax, lambda0, 0, s, lambda0 as int, steps)
            =~= homogeneous_chain(tmax, lambda0, s, dss));
    } else {
        let st = steps[0];
        assert(st.decay_factor * 0int == 0);
        assert(0int / (SCALE as int) == 0) by {
            lemma_scaled_bounds(0, 0);
        }
        assert(decayed_intensity(lambda0 as int, lambda0 as int, st.decay_factor as int)
            == lambda0 as int);
        let s2 = s + st.ds;
        if s2 > tmax {
            assert(hawkes_thinned_events(tmax, lambda0, 0, s, lambda0 as int, steps)
                =~= homogeneous_chain(tmax, lambda0, s, dss));
        } else {
            assert((st.accept_u as int) * (lambda0 as int) < (lambda0 as int) * (SCALE as int))
                by (nonlinear_arith)
                requires
                    0 <= st.accept_u < SCALE,
                    0 < lambda0,
            ;
            assert(hawkes_step_draws(steps.drop_first()));
            lemma_no_excitation_events(tmax, lambda0, s2, steps.drop_first());
            assert(steps.drop_first().map_values(|st2: HawkesStep| st2.ds as int) =~= dss.drop_first());
            assert(hawkes_thinned_events(tmax, lambda0, 0, s, lambda0 as int, steps)
                =~= homogeneous_chain(tmax, lambda0, s, dss));
        }
    }
}

} // verus!
