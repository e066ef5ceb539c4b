//! Homogeneous, constant-intensity Poisson sampling on `[0, tmax]`.
//!
//! Classical construction: the total event count over the window is
//! Poisson(tmax * lambda)-distributed and, given the count, the event times
//! are independent uniforms on `[0, tmax]`. The count draw needs the
//! floating-point Poisson sampler, so it enters as an argument; the uniform
//! times are drawn here. The output is in draw order, not time order.

use vstd::prelude::*;
use crate::event::{Event, SimError, SCALE, scaled, scale_mul, lemma_scaled_bounds};
use crate::order::events_within;
use crate::rng::sample_unit_ticks;

verus! {

/// All draws are fixed-point variates on the unit interval `[0, SCALE)`.
pub open spec fn unit_draws(us: Seq<i64>) -> bool {
    forall|i: int| 0 <= i < us.len() ==> 0 <= #[trigger] us[i] < SCALE
}

/// The sequence a homogeneous Poisson run produces from its unit-interval
/// draws: one event per draw `u`, at time `u * tmax / SCALE`, carrying the
/// constant intensity and no mark.
pub open spec fn poisson_seq(tmax: i64, lambda: i64, us: Seq<i64>) -> Seq<Event> {
    Seq::new(
        us.len(),
        |i: int| Event {
            timestamp: scaled(us[i] as int, tmax as int) as i64,
            intensity: lambda,
            mark: None,
        },
    )
}

/// Shape of a homogeneous run's output: every event is at a time in
/// `[0, tmax)` (strictly below a positive horizon, since the unit draws are
/// strictly below one) and carries the constant intensity.
pub proof fn lemma_poisson_seq_shape(tmax: i64, lambda: i64, us: Seq<i64>)
    requires
        0 < tmax,
        0 <= lambda,
        unit_draws(us),
    ensures
        poisson_seq(tmax, lambda, us).len() == us.len(),
        events_within(poisson_seq(tmax, lambda, us), tmax as int),
        forall|i: int| 0 <= i < us.len()
            ==> #[trigger] poisson_seq(tmax, lambda, us)[i].timestamp < tmax,
        forall|i: int| 0 <= i < us.len()
            ==> (#[trigger] poisson_seq(tmax, lambda, us)[i]).intensity == lambda
                && poisson_seq(tmax, lambda, us)[i].mark is None,
{
    assert forall|i: int| 0 <= i < us.len() implies {
        &&& 0 <= (#[trigger] poisson_seq(tmax, lambda, us)[i]).timestamp < tmax
        &&& poisson_seq(tmax, lambda, us)[i].intensity == lambda
        &&& poisson_seq(tmax, lambda, us)[i].mark is None
    } by {
        lemma_scaled_bounds(us[i] as int, tmax as int);
    }
}

/// Homogeneous Poisson sampling from explicit draws: one event per
/// unit-interval draw, at `u * tmax / SCALE`, with the constant intensity
/// `lambda`. A negative horizon or rate is rejected at entry; a zero horizon
/// or rate yields no events at all.
pub fn poisson_process_from_draws(tmax: i64, lambda: i64, uniforms: &Vec<i64>) -> (r: Result<
    Vec<Event>,
    SimError,
>)
    requires
        unit_draws(uniforms@),
    ensures
        (tmax < 0 || lambda < 0) <==> r == Result::<Vec<Event>, SimError>::Err(
            SimError::InvalidParameter,
        ),
        !(tmax < 0 || lambda < 0) ==> (r matches Ok(v) && v@ == (if tmax == 0 || lambda == 0 {
            Seq::<Event>::empty()
        } else {
            poisson_seq(tmax, lambda, uniforms@)
        })),
        r matches Ok(v) ==> events_within(v@, tmax as int),
        tmax >= 0 && lambda == 0 ==> (r matches Ok(v) && v@.len() == 0),
{
    if tmax < 0 || lambda < 0 {
        return Err(SimError::InvalidParameter);
    }
    let mut out: Vec<Event> = Vec::new();
    if tmax == 0 || lambda == 0 {
        return Ok(out);
    }
    let n: usize = uniforms.len();
    let mut i: usize = 0;
    while i < n
        invariant
            n == uniforms@.len(),
            0 <= i <= n,
            0 < tmax,
            0 < lambda,
            unit_draws(uniforms@),
            out@.len() == i,
            forall|k: int| 0 <= k < i ==> out@[k] == poisson_seq(tmax, lambda, uniforms@)[k],
        decreases n - i,
    {
        let ts = scale_mul(uniforms[i], tmax);
        out.push(Event { timestamp: ts, intensity: lambda, mark: None });
        i += 1;
    }
    proof {
        assert(out@ =~= poisson_seq(tmax, lambda, uniforms@));
        lemma_poisson_seq_shape(tmax, lambda, uniforms@);
    }
    Ok(out)
}

/// Homogeneous Poisson sampling that draws its own event times. `num_events`
/// is the Poisson(tmax * lambda)-distributed total count the driver drew for
/// the whole window; each of the times is an independent uniform on
/// `[0, tmax)`. With a zero rate or a zero-width window the run produces no
/// events, whatever the count argument.
pub fn poisson_process(tmax: i64, lambda: i64, num_events: usize) -> (r: Result<
    Vec<Event>,
    SimError,
>)
    ensures
        (tmax < 0 || lambda < 0) <==> r == Result::<Vec<Event>, SimError>::Err(
            SimError::InvalidParameter,
        ),
        !(tmax < 0 || lambda < 0) ==> r is Ok,
        r matches Ok(v) ==> {
            &&& v@.len() == if tmax == 0 || lambda == 0 { 0int } else { num_events as int }
            &&& events_within(v@, tmax as int)
            &&& forall|i: int| 0 <= i < v@.len()
                ==> (#[trigger] v@[i]).intensity == lambda && v@[i].mark is None
            &&& exists|us: Seq<i64>|
                unit_draws(us) && v@ == (if tmax == 0 || lambda == 0 {
                    Seq::<Event>::empty()
                } else {
                    poisson_seq(tmax, lambda, us)
                })
        },
        tmax >= 0 && lambda == 0 ==> (r matches Ok(v) && v@.len() == 0),
{
    if tmax < 0 || lambda < 0 {
        return Err(SimError::InvalidParameter);
    }
    if tmax == 0 || lambda == 0 {
        let empty: Vec<Event> = Vec::new();
        proof {
            let ghost none: Seq<i64> = Seq::empty();
            assert(unit_draws(none));
        }
        return Ok(empty);
    }
    let mut us: Vec<i64> = Vec::new();
    let mut i: usize = 0;
    while i < num_events
        invariant
            0 <= i <= num_events,
            us@.len() == i,
            unit_draws(us@),
        decreases num_events - i,
    {
        let u = sample_unit_ticks();
        us.push(u);
        i += 1;
    }
    let r = poisson_process_from_draws(tmax, lambda, &us);
    match r {
        Ok(v) => {
            proof {
                lemma_poisson_seq_shape(tmax, lambda, us@);
                assert(unit_draws(us@) && v@ == poisson_seq(tmax, lambda, us@));
            }
            Ok(v)
        },
        Err(e) => Err(e),
    }
}

} // verus!
