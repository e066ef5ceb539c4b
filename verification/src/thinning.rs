//! Poisson sampling with a time-varying intensity bounded above by a known
//! constant, via acceptance-rejection (thinning).
//!
//! Candidates are drawn as a homogeneous process at the bounding rate; a
//! candidate at time `t` with comparison value `v` uniform on
//! `[0, max_lambda)` survives exactly when `v` falls under the intensity
//! curve, `v < rate(t)`. By the thinning theorem the survivors are the target
//! inhomogeneous process, provided `max_lambda` really dominates the rate on
//! the whole window; that domination is the caller's obligation and is not
//! checked here, since checking it would mean evaluating the rate everywhere.

use vstd::prelude::*;
use crate::event::{Event, SimError, SCALE, scaled, scale_mul, lemma_scaled_bounds};
use crate::order::events_within;
use crate::poisson::poisson_seq;
use crate::rng::sample_unit_ticks;

verus! {

/// A caller-supplied intensity function: one pure operation, the rate at time
/// `t` (ticks in, ticks out). `rate_spec` is its mathematical value;
/// `evaluate` computes exactly that, so the function has no side effects and
/// is safe to call from concurrent runs.
pub trait RateFunction {
    /// The mathematical rate at time `t`.
    spec fn rate_spec(&self, t: int) -> int;

    /// Computes the rate at time `t`.
    fn evaluate(&self, t: i64) -> (r: i64)
        requires
            0 <= t,
        ensures
            r == self.rate_spec(t as int),
    ;
}

/// The constant intensity function.
#[derive(Clone, Copy, Debug, PartialEq, Eq)]
pub struct ConstantRate {
    pub c: i64,
}

impl RateFunction for ConstantRate {
    open spec fn rate_spec(&self, t: int) -> int {
        self.c as int
    }

    fn evaluate(&self, t: i64) -> (r: i64) {
        self.c
    }
}

/// One thinning candidate: a unit-interval draw for its time and one for its
/// comparison value.
#[derive(Clone, Copy, Debug, PartialEq, Eq)]
pub struct Candidate {
    pub ut: i64,
    pub uv: i64,
}

/// Both draws of every candidate are fixed-point variates on `[0, SCALE)`.
pub open spec fn candidate_draws(cs: Seq<Candidate>) -> bool {
    forall|i: int|
        0 <= i < cs.len() ==> 0 <= (#[trigger] cs[i]).ut < SCALE && 0 <= cs[i].uv < SCALE
}

/// The accepted events of a thinning run, in draw order: candidate `i` sits at
/// time `ut * tmax / SCALE` with comparison value `uv * max_lambda / SCALE`,
/// and survives exactly when that value lies strictly under the rate at its
/// time; the value is recorded as the event's intensity.
pub open spec fn thinned_seq<F: RateFunction>(
    tmax: i64,
    max_lambda: i64,
    rate: F,
    cs: Seq<Candidate>,
) -> Seq<Event>
    decreases cs.len(),
{
    if cs.len() == 0 {
        Seq::<Event>::empty()
    } else {
        let ts = scaled(cs[0].ut as int, tmax as int) as i64;
        let lv = scaled(cs[0].uv as int, max_lambda as int) as i64;
        let rest = thinned_seq(tmax, max_lambda, rate, cs.drop_first());
        if (lv as int) < rate.rate_spec(ts as int) {
            seq![Event { timestamp: ts, intensity: lv, mark: None }] + rest
        } else {
            rest
        }
    }
}

/// Shape of a thinning run's output: every accepted event sits strictly
/// inside a positive window, its recorded intensity is a value in
/// `[0, max_lambda)` that passed the rejection test, and it carries no mark.
pub proof fn lemma_thinned_seq_shape<F: RateFunction>(
    tmax: i64,
    max_lambda: i64,
    rate: F,
    cs: Seq<Candidate>,
)
    requires
        0 < tmax,
        0 < max_lambda,
        candidate_draws(cs),
    ensures
        thinned_seq(tmax, max_lambda, rate, cs).len() <= cs.len(),
        events_within(thinned_seq(tmax, max_lambda, rate, cs), tmax as int),
        forall|i: int| 0 <= i < thinned_seq(tmax, max_lambda, rate, cs).len() ==> {
            let ev = #[trigger] thinned_seq(tmax, max_lambda, rate, cs)[i];
            &&& ev.timestamp < tmax
            &&& 0 <= ev.intensity < max_lambda
            &&& (ev.intensity as int) < rate.rate_spec(ev.timestamp as int)
            &&& ev.mark is None
        },
    decreases cs.len(),
{
    if cs.len() > 0 {
        lemma_scaled_bounds(cs[0].ut as int, tmax as int);
        lemma_scaled_bounds(cs[0].uv as int, max_lambda as int);
        assert(candidate_draws(cs.drop_first()));
        lemma_thinned_seq_shape(tmax, max_lambda, rate, cs.drop_first());
    }
}

/// Thinning from explicit candidate draws. A negative window or bound is
/// rejected at entry; a zero-width window or a zero bound yields no events at
/// all (no candidate is ever drawn for them).
pub fn variable_poisson_from_draws<F: RateFunction>(
    tmax: i64,
    rate_fn: &F,
    max_lambda: i64,
    candidates: &Vec<Candidate>,
) -> (r: Result<Vec<Event>, SimError>)
    requires
        candidate_draws(candidates@),
    ensures
        (tmax < 0 || max_lambda < 0) <==> r == Result::<Vec<Event>, SimError>::Err(
            SimError::InvalidParameter,
        ),
        !(tmax < 0 || max_lambda < 0) ==> (r matches Ok(v) && v@ == (if tmax == 0 || max_lambda
            == 0 {
            Seq::<Event>::empty()
        } else {
            thinned_seq(tmax, max_lambda, *rate_fn, candidates@)
        })),
        r matches Ok(v) ==> events_within(v@, tmax as int),
{
    if tmax < 0 || max_lambda < 0 {
        return Err(SimError::InvalidParameter);
    }
    let mut out: Vec<Event> = Vec::new();
    if tmax == 0 || max_lambda == 0 {
        return Ok(out);
    }
    let n: usize = candidates.len();
    let mut i: usize = 0;
    proof {
        assert(candidates@.skip(0) =~= candidates@);
        assert(out@ + thinned_seq(tmax, max_lambda, *rate_fn, candidates@) =~= thinned_seq(
            tmax,
            max_lambda,
            *rate_fn,
            candidates@,
        ));
    }
    while i < n
        invariant
            n == candidates@.len(),
            0 <= i <= n,
            0 < tmax,
            0 < max_lambda,
            candidate_draws(candidates@),
            thinned_seq(tmax, max_lambda, *rate_fn, candidates@) == out@ + thinned_seq(
                tmax,
                max_lambda,
                *rate_fn,
                candidates@.skip(i as int),
            ),
            events_within(out@, tmax as int),
        decreases n - i,
    {
        let ghost suffix = candidates@.skip(i as int);
        let c = candidates[i];
        let ts = scale_mul(c.ut, tmax);
        let lv = scale_mul(c.uv, max_lambda);
        let rate_at = rate_fn.evaluate(ts);
        proof {
            assert(suffix[0] == candidates@[i as int]);
            assert(suffix.drop_first() =~= candidates@.skip(i as int + 1));
        }
        if lv < rate_at {
            let ev = Event { timestamp: ts, intensity: lv, mark: None };
            let ghost prev = out@;
            out.push(ev);
            proof {
                assert(thinned_seq(tmax, max_lambda, *rate_fn, suffix) == seq![ev] + thinned_seq(
                    tmax,
                    max_lambda,
                    *rate_fn,
                    suffix.drop_first(),
                ));
                assert(prev.push(ev) + thinned_seq(
                    tmax,
                    max_lambda,
                    *rate_fn,
                    candidates@.skip(i as int + 1),
                ) =~= prev + thinned_seq(tmax, max_lambda, *rate_fn, suffix));
            }
        }
        i += 1;
    }
    proof {
        assert(candidates@.skip(n as int).len() == 0);
        assert(out@ + thinned_seq(tmax, max_lambda, *rate_fn, candidates@.skip(n as int)) =~= out@);
    }
    Ok(out)
}

/// Thinning that draws its own candidates: `num_candidates` is the
/// Poisson(tmax * max_lambda) count the driver drew for the bounding
/// homogeneous process. Every returned event lies strictly under the
/// intensity curve at its own time.
pub fn variable_poisson<F: RateFunction>(
    tmax: i64,
    rate_fn: &F,
    max_lambda: i64,
    num_candidates: usize,
) -> (r: Result<Vec<Event>, SimError>)
    ensures
        (tmax < 0 || max_lambda < 0) <==> r == Result::<Vec<Event>, SimError>::Err(
            SimError::InvalidParameter,
        ),
        !(tmax < 0 || max_lambda < 0) ==> r is Ok,
        r matches Ok(v) ==> {
            &&& v@.len() <= num_candidates
            &&& events_within(v@, tmax as int)
            &&& forall|i: int| 0 <= i < v@.len() ==> {
                let ev = #[trigger] v@[i];
                &&& 0 <= ev.intensity <= max_lambda
                &&& (ev.intensity as int) < rate_fn.rate_spec(ev.timestamp as int)
                &&& ev.mark is None
            }
            &&& exists|cs: Seq<Candidate>|
                candidate_draws(cs) && v@ == (if tmax == 0 || max_lambda == 0 {
                    Seq::<Event>::empty()
                } else {
                    thinned_seq(tmax, max_lambda, *rate_fn, cs)
                })
        },
        tmax >= 0 && max_lambda == 0 ==> (r matches Ok(v) && v@.len() == 0),
{
    if tmax < 0 || max_lambda < 0 {
        return Err(SimError::InvalidParameter);
    }
    if tmax == 0 || max_lambda == 0 {
        let empty: Vec<Event> = Vec::new();
        proof {
            let ghost none: Seq<Candidate> = Seq::empty();
            assert(candidate_draws(none));
        }
        return Ok(empty);
    }
    let mut cs: Vec<Candidate> = Vec::new();
    let mut i: usize = 0;
    while i < num_candidates
        invariant
            0 <= i <= num_candidates,
            cs@.len() == i,
            candidate_draws(cs@),
        decreases num_candidates - i,
    {
        let ut = sample_unit_ticks();
        let uv = sample_unit_ticks();
        cs.push(Candidate { ut, uv });
        i += 1;
    }
    let r = variable_poisson_from_draws(tmax, rate_fn, max_lambda, &cs);
    match r {
        Ok(v) => {
            proof {
                lemma_thinned_seq_shape(tmax, max_lambda, *rate_fn, cs@);
                assert(candidate_draws(cs@) && v@ == thinned_seq(tmax, max_lambda, *rate_fn, cs@));
            }
            Ok(v)
        },
        Err(e) => Err(e),
    }
}

/// Law of degenerate thinning: an intensity function that is zero everywhere
/// on the window produces no events at all, whatever the bound and however
/// many candidates are drawn, since no comparison value can fall under it.
pub proof fn lemma_zero_rate_yields_no_events<F: RateFunction>(
    tmax: i64,
    max_lambda: i64,
    rate: F,
    cs: Seq<Candidate>,
)
    requires
        0 <= tmax,
        0 <= max_lambda,
        candidate_draws(cs),
        forall|t: int| 0 <= t ==> #[trigger] rate.rate_spec(t) == 0,
    ensures
        thinned_seq(tmax, max_lambda, rate, cs).len() == 0,
    decreases cs.len(),
{
    if cs.len() > 0 {
        lemma_scaled_bounds(cs[0].ut as int, tmax as int);
        lemma_scaled_bounds(cs[0].uv as int, max_lambda as int);
        assert(candidate_draws(cs.drop_first()));
        lemma_zero_rate_yields_no_events(tmax, max_lambda, rate, cs.drop_first());
    }
}

/// Law of saturated thinning: with a constant rate equal to the bound, every
/// candidate is accepted, and the run is the homogeneous Poisson run built
/// from the same time draws: the two outputs have the same length and the
/// same timestamps, event by event.
pub proof fn lemma_constant_rate_matches_homogeneous(tmax: i64, c: i64, cs: Seq<Candidate>)
    requires
        0 < tmax,
        0 < c,
        candidate_draws(cs),
    ensures
        thinned_seq(tmax, c, ConstantRate { c }, cs).len() == cs.len(),
        poisson_seq(tmax, c, cs.map_values(|cd: Candidate| cd.ut)).len() == cs.len(),
        forall|i: int| 0 <= i < cs.len()
            ==> (#[trigger] thinned_seq(tmax, c, ConstantRate { c }, cs)[i]).timestamp
                == poisson_seq(tmax, c, cs.map_values(|cd: Candidate| cd.ut))[i].timestamp,
    decreases cs.len(),
{
    let rate = ConstantRate { c };
    if cs.len() > 0 {
        lemma_scaled_bounds(cs[0].ut as int, tmax as int);
        lemma_scaled_bounds(cs[0].uv as int, c as int);
        assert(candidate_draws(cs.drop_first()));
        lemma_constant_rate_matches_homogeneous(tmax, c, cs.drop_first());
        let ts0 = scaled(cs[0].ut as int, tmax as int) as i64;
        let lv0 = scaled(cs[0].uv as int, c as int) as i64;
        assert((lv0 as int) < rate.rate_spec(ts0 as int));
        assert(cs.drop_first().map_values(|cd: Candidate| cd.ut) =~= cs.map_values(
            |cd: Candidate| cd.ut,
        ).drop_first());
        assert forall|i: int| 0 <= i < cs.len() implies (#[trigger] thinned_seq(
            tmax,
            c,
            rate,
            cs,
        )[i]).timestamp == poisson_seq(tmax, c, cs.map_values(|cd: Candidate| cd.ut))[i].timestamp by {
            if i > 0 {
                assert(thinned_seq(tmax, c, rate, cs)[i] == thinned_seq(
                    tmax,
                    c,
                    rate,
                    cs.drop_first(),
                )[i - 1]);
            }
        }
    }
}

} // verus!
