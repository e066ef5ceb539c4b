//! Ordering facts about generated event sequences: range of the timestamps,
//! monotonicity, and what sorting a run's output yields.

use vstd::prelude::*;
use crate::event::Event;

verus! {

/// Every event's timestamp lies within `[0, tmax]`.
pub open spec fn events_within(evs: Seq<Event>, tmax: int) -> bool {
    forall|i: int| 0 <= i < evs.len() ==> 0 <= #[trigger] evs[i].timestamp <= tmax
}

/// Timestamps never decrease along the sequence.
pub open spec fn sorted_by_timestamp(evs: Seq<Event>) -> bool {
    forall|i: int, j: int|
        0 <= i < j < evs.len() ==> #[trigger] evs[i].timestamp <= #[trigger] evs[j].timestamp
}

/// Timestamps strictly increase along the sequence.
pub open spec fn strictly_increasing_timestamps(evs: Seq<Event>) -> bool {
    forall|i: int, j: int|
        0 <= i < j < evs.len() ==> #[trigger] evs[i].timestamp < #[trigger] evs[j].timestamp
}

/// No two events of the sequence share a timestamp.
pub open spec fn distinct_timestamps(evs: Seq<Event>) -> bool {
    forall|i: int, j: int|
        0 <= i < j < evs.len() ==> #[trigger] evs[i].timestamp != #[trigger] evs[j].timestamp
}

/// Ordering law. The independent-sampling generators return their events in
/// draw order, not time order; callers needing order sort. Any reordering of
/// such an output that is non-decreasing in timestamp is strictly increasing
/// as soon as no two events share a timestamp, and it stays within the run's
/// horizon. (With tied timestamps a sorted reordering is only non-decreasing.)
pub proof fn lemma_sorted_output_strictly_increasing(
    evs: Seq<Event>,
    sorted: Seq<Event>,
    tmax: int,
)
    requires
        evs.to_multiset() == sorted.to_multiset(),
        sorted_by_timestamp(sorted),
        distinct_timestamps(sorted),
        events_within(evs, tmax),
    ensures
        strictly_increasing_timestamps(sorted),
        events_within(sorted, tmax),
{
    broadcast use vstd::seq_lib::group_to_multiset_ensures;

    assert forall|i: int| 0 <= i < sorted.len() implies 0 <= #[trigger] sorted[i].timestamp
        <= tmax by {
        assert(sorted.contains(sorted[i]));
        assert(sorted.to_multiset().count(sorted[i]) > 0);
        assert(evs.contains(sorted[i]));
        let k = choose|k: int| 0 <= k < evs.len() && evs[k] == sorted[i];
        assert(0 <= evs[k].timestamp <= tmax);
    }
}

} // verus!
