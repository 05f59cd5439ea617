//! Rules applied to the arrivals that come from the feeds.

use vstd::prelude::*;
use vstd::string::*;
use crate::colors::{is_express_capable, is_express_capable_spec};
use crate::models::{trains_view, Train, TrainView};
use crate::text::str_eq;

verus! {

/// Whether the id of a trip marks it as express: it ends in `X`.
pub open spec fn has_express_mark(trip_id: Seq<char>) -> bool {
    trip_id.len() > 0 && trip_id.last() == 'X'
}

/// Whether a trip runs express: its route may run express and its id is
/// marked so. A trip without an id does not.
pub open spec fn detect_express_spec(trip_id: Option<Seq<char>>, route_id: Seq<char>) -> bool {
    is_express_capable_spec(route_id) && trip_id is Some && has_express_mark(trip_id->0)
}

/// Whether a trip runs express.
pub fn detect_express(trip_id: Option<&str>, route_id: &str) -> (r: bool)
    ensures
        r == detect_express_spec(
            match trip_id {
                Some(id) => Some(id@),
                None => None,
            },
            route_id@,
        ),
{
    if !is_express_capable(route_id) {
        return false;
    }
    match trip_id {
        Some(id) => {
            let count = id.unicode_len();
            count > 0 && id.get_char(count - 1) == 'X'
        },
        None => false,
    }
}

/// Whether two arrivals look the same on the sign: same route, same
/// destination, same minute.
pub open spec fn same_arrival(a: TrainView, b: TrainView) -> bool {
    a.route == b.route && a.destination == b.destination && a.minutes == b.minutes
}

/// Whether a list holds an arrival that looks like the given one.
pub open spec fn has_arrival(trains: Seq<TrainView>, train: TrainView) -> bool {
    exists|i: int| 0 <= i < trains.len() && same_arrival(#[trigger] trains[i], train)
}

/// The arrivals without those that look like an earlier one.
pub open spec fn deduplicated(trains: Seq<TrainView>) -> Seq<TrainView>
    decreases trains.len(),
{
    if trains.len() == 0 {
        Seq::empty()
    } else {
        let before = deduplicated(trains.drop_last());
        if has_arrival(before, trains.last()) {
            before
        } else {
            before.push(trains.last())
        }
    }
}

/// What is left when the arrivals that look like an earlier one are taken
/// away: no two of the arrivals left look the same, each of them is one of
/// the arrivals, and every arrival looks like one that is left.
pub proof fn lemma_deduplicated(trains: Seq<TrainView>)
    ensures
        deduplicated(trains).len() <= trains.len(),
        forall|i: int, j: int|
            0 <= i < j < deduplicated(trains).len() ==> !same_arrival(
                #[trigger] deduplicated(trains)[i],
                #[trigger] deduplicated(trains)[j],
            ),
        forall|i: int|
            0 <= i < deduplicated(trains).len() ==> trains.contains(
                #[trigger] deduplicated(trains)[i],
            ),
        forall|k: int| 0 <= k < trains.len() ==> has_arrival(deduplicated(trains), #[trigger] trains[k]),
    decreases trains.len(),
{
    if trains.len() > 0 {
        let front = trains.drop_last();
        let last = trains.last();
        lemma_deduplicated(front);
        let before = deduplicated(front);
        let out = deduplicated(trains);
        assert forall|i: int| 0 <= i < out.len() implies trains.contains(#[trigger] out[i]) by {
            if i < before.len() {
                assert(out[i] == before[i]);
                assert(front.contains(before[i]));
                let k = choose|k: int| 0 <= k < front.len() && front[k] == before[i];
                assert(trains[k] == out[i]);
            } else {
                assert(out[i] == last);
                assert(trains[trains.len() - 1] == last);
            }
        }
        assert forall|i: int, j: int| 0 <= i < j < out.len() implies !same_arrival(
            #[trigger] out[i],
            #[trigger] out[j],
        ) by {
            if j < before.len() {
                assert(out[i] == before[i]);
                assert(out[j] == before[j]);
            } else {
                assert(out[i] == before[i]);
                assert(out[j] == last);
            }
        }
        assert forall|k: int| 0 <= k < trains.len() implies has_arrival(out, #[trigger] trains[k]) by {
            if k < front.len() {
                assert(trains[k] == front[k]);
                let w = choose|w: int| 0 <= w < before.len() && same_arrival(before[w], front[k]);
                assert(out[w] == before[w]);
            } else if has_arrival(before, last) {
                let w = choose|w: int| 0 <= w < before.len() && same_arrival(before[w], last);
                assert(out[w] == before[w]);
            } else {
                assert(same_arrival(out[out.len() - 1], last));
            }
        }
    }
}

/// Removes the arrivals that look like an earlier one.
pub fn deduplicate_trains(trains: Vec<Train>) -> (unique: Vec<Train>)
    ensures
        trains_view(unique@) == deduplicated(trains_view(trains@)),
{
    let ghost all = trains_view(trains@);
    let mut unique: Vec<Train> = Vec::new();
    let mut i: usize = 0;
    assert(all.take(0) =~= Seq::<TrainView>::empty());
    assert(trains_view(unique@) =~= Seq::<TrainView>::empty());
    while i < trains.len()
        invariant
            i <= trains@.len(),
            all == trains_view(trains@),
            trains_view(unique@) == deduplicated(all.take(i as int)),
        decreases trains@.len() - i,
    {
        proof {
            assert(all.take(i + 1).drop_last() =~= all.take(i as int));
            assert(all.take(i + 1).last() == trains@[i as int]@);
        }
        let train = &trains[i];
        let ghost before = trains_view(unique@);
        let mut seen = false;
        let mut j: usize = 0;
        while j < unique.len()
            invariant
                j <= unique@.len(),
                before == trains_view(unique@),
                seen <==> exists|k: int| 0 <= k < j && same_arrival(#[trigger] before[k], train@),
            decreases unique@.len() - j,
        {
            let other = &unique[j];
            assert(before[j as int] == other@);
            if str_eq(other.route.as_str(), train.route.as_str()) && str_eq(
                other.destination.as_str(),
                train.destination.as_str(),
            ) && other.minutes == train.minutes {
                seen = true;
            }
            j += 1;
        }
        assert(seen == has_arrival(before, train@));
        if !seen {
            unique.push(train.clone());
            assert(trains_view(unique@) =~= before.push(train@));
        }
        i += 1;
    }
    assert(all.take(i as int) =~= all);
    unique
}

/// Seconds to wait before a feed that has failed is asked again: 15 after
/// the first failure, twice as long after each further one, and never more
/// than 300.
pub open spec fn backoff_seconds_spec(failures: nat) -> nat {
    if failures <= 1 {
        15
    } else if failures == 2 {
        30
    } else if failures == 3 {
        60
    } else if failures == 4 {
        120
    } else if failures == 5 {
        240
    } else {
        300
    }
}

/// Seconds to wait before a feed that has failed `failures` times in a row
/// is asked again.
pub fn backoff_seconds(failures: u32) -> (secs: u64)
    ensures
        secs == backoff_seconds_spec(failures as nat),
{
    if failures <= 1 {
        15
    } else if failures == 2 {
        30
    } else if failures == 3 {
        60
    } else if failures == 4 {
        120
    } else if failures == 5 {
        240
    } else {
        300
    }
}

} // verus!
