//! What a feed says of trips, turned into the trains of the sign.

use vstd::prelude::*;
use vstd::string::*;
use crate::arrivals::{deduplicate_trains, deduplicated, detect_express, detect_express_spec};
use crate::models::{contains_string, strings_view, trains_view, Direction, Train, TrainView};
use crate::stations::{station_name_for_stop_id, DbView, StationDb};

verus! {

/// One stop of a trip as the feed gives it. Each part may be missing.
#[derive(Debug)]
pub struct StopTime {
    pub stop_id: Option<String>,
    /// Arrival in seconds since the Unix epoch.
    pub arrival: Option<i64>,
    /// The place of the stop in the trip.
    pub stop_sequence: Option<u32>,
}

/// The mathematical value of a [`StopTime`], with what stands for a part
/// that is missing: no text, the time zero, the place zero.
pub struct StopTimeView {
    pub stop_id: Option<Seq<char>>,
    pub arrival: int,
    pub stop_sequence: nat,
}

impl StopTimeView {
    /// The id of the stop, empty where it is missing.
    pub open spec fn id(self) -> Seq<char> {
        match self.stop_id {
            Some(id) => id,
            None => Seq::empty(),
        }
    }
}

impl View for StopTime {
    type V = StopTimeView;

    open spec fn view(&self) -> StopTimeView {
        StopTimeView {
            stop_id: match self.stop_id {
                Some(id) => Some(id@),
                None => None,
            },
            arrival: match self.arrival {
                Some(t) => t as int,
                None => 0,
            },
            stop_sequence: match self.stop_sequence {
                Some(n) => n as nat,
                None => 0,
            },
        }
    }
}

/// The stops of a list, as values.
pub open spec fn stop_times_view(stops: Seq<StopTime>) -> Seq<StopTimeView> {
    Seq::new(stops.len(), |i: int| stops[i]@)
}

/// One trip as the feed gives it.
#[derive(Debug)]
pub struct TripUpdate {
    pub route_id: Option<String>,
    pub trip_id: Option<String>,
    pub stop_times: Vec<StopTime>,
}

/// The mathematical value of a [`TripUpdate`]; a missing route is the
/// empty one.
pub struct TripView {
    pub route_id: Seq<char>,
    pub trip_id: Option<Seq<char>>,
    pub stop_times: Seq<StopTimeView>,
}

impl View for TripUpdate {
    type V = TripView;

    open spec fn view(&self) -> TripView {
        TripView {
            route_id: match self.route_id {
                Some(id) => id@,
                None => Seq::empty(),
            },
            trip_id: match self.trip_id {
                Some(id) => Some(id@),
                None => None,
            },
            stop_times: stop_times_view(self.stop_times@),
        }
    }
}

/// The trips of a list, as values.
pub open spec fn trips_view(trips: Seq<TripUpdate>) -> Seq<TripView> {
    Seq::new(trips.len(), |i: int| trips[i]@)
}

/// The destination of a trip whose last stop is at no known station.
pub const UNKNOWN_DESTINATION: &'static str = "Unknown";

/// Milliseconds in a second.
pub const MILLIS_PER_SECOND: i128 = 1000;

/// Milliseconds in a minute.
pub const MILLIS_PER_MINUTE: i128 = 60_000;

/// The whole minutes from a moment, in milliseconds since the Unix epoch,
/// until an arrival, in seconds since the Unix epoch: never negative and
/// never more than fits.
pub open spec fn minutes_until(arrival: int, now_ms: int) -> int {
    let minutes = (arrival * 1000 - now_ms) / 60_000;
    if minutes < 0 {
        0
    } else if minutes > i32::MAX {
        i32::MAX as int
    } else {
        minutes
    }
}

/// Whether an arrival is still to come at a moment.
pub open spec fn is_ahead(arrival: int, now_ms: int) -> bool {
    arrival * 1000 > now_ms
}

/// The whole minutes from a moment until an arrival.
pub fn minutes_to_arrival(arrival: i64, now_ms: u64) -> (minutes: i32)
    ensures
        minutes == minutes_until(arrival as int, now_ms as int),
{
    let left: i128 = (arrival as i128) * MILLIS_PER_SECOND - (now_ms as i128);
    let minutes: i128 = left / MILLIS_PER_MINUTE;
    if left < 0 {
        assert(left / 60_000 <= 0) by (nonlinear_arith)
            requires
                left < 0,
        ;
        0
    } else if minutes > 0x7fff_ffff {
        0x7fff_ffff
    } else {
        assert(left / 60_000 >= 0) by (nonlinear_arith)
            requires
                left >= 0,
        ;
        minutes as i32
    }
}

/// The last of the stops of highest place among the first `n`.
pub open spec fn terminal(stops: Seq<StopTimeView>, n: nat) -> Option<int>
    decreases n,
{
    if n == 0 || n > stops.len() {
        None
    } else {
        match terminal(stops, (n - 1) as nat) {
            Some(k) => if stops[n - 1].stop_sequence >= stops[k].stop_sequence {
                Some(n - 1)
            } else {
                Some(k)
            },
            None => Some(n - 1),
        }
    }
}

/// The terminal is a stop of the list, none has a higher place, and every
/// later stop has a lower one.
pub proof fn lemma_terminal(stops: Seq<StopTimeView>, n: nat)
    requires
        n <= stops.len(),
    ensures
        n == 0 <==> terminal(stops, n) is None,
        terminal(stops, n) matches Some(k) ==> {
            &&& 0 <= k < n
            &&& forall|j: int|
                0 <= j < n ==> (#[trigger] stops[j]).stop_sequence <= stops[k].stop_sequence
            &&& forall|j: int| k < j < n ==> (#[trigger] stops[j]).stop_sequence < stops[k].stop_sequence
        },
    decreases n,
{
    if n > 0 {
        lemma_terminal(stops, (n - 1) as nat);
    }
}

/// The index of the last stop of a trip: the last of those of highest
/// place.
pub fn terminal_stop(stops: &Vec<StopTime>) -> (r: Option<usize>)
    ensures
        match r {
            Some(k) => terminal(stop_times_view(stops@), stops@.len()) == Some(k as int) && k
                < stops@.len(),
            None => terminal(stop_times_view(stops@), stops@.len()) is None,
        },
{
    let ghost all = stop_times_view(stops@);
    let mut best: Option<usize> = None;
    let mut highest: u32 = 0;
    let mut i: usize = 0;
    while i < stops.len()
        invariant
            i <= stops@.len(),
            all == stop_times_view(stops@),
            match best {
                Some(k) => terminal(all, i as nat) == Some(k as int) && k < i && highest
                    == all[k as int].stop_sequence,
                None => terminal(all, i as nat) is None,
            },
        decreases stops@.len() - i,
    {
        assert(all[i as int] == stops@[i as int]@);
        let place: u32 = match stops[i].stop_sequence {
            Some(n) => n,
            None => 0,
        };
        if best.is_none() || place >= highest {
            best = Some(i);
            highest = place;
        }
        i += 1;
    }
    best
}

/// Where a trip ends: the name of the station of its terminal, or
/// `Unknown` where the trip has no stop, the terminal no id, or the id no
/// station.
pub open spec fn destination(stops: Seq<StopTimeView>, db: DbView) -> Seq<char> {
    match terminal(stops, stops.len()) {
        Some(k) => match stops[k].stop_id {
            Some(id) => match db.name_for_stop(id) {
                Some(name) => name,
                None => UNKNOWN_DESTINATION@,
            },
            None => UNKNOWN_DESTINATION@,
        },
        None => UNKNOWN_DESTINATION@,
    }
}

/// The name of the station where a trip ends.
pub fn destination_of(stops: &Vec<StopTime>, db: &StationDb) -> (name: String)
    ensures
        name@ == destination(stop_times_view(stops@), db@),
{
    let ghost all = stop_times_view(stops@);
    match terminal_stop(stops) {
        Some(k) => {
            assert(all[k as int] == stops@[k as int]@);
            match &stops[k].stop_id {
                Some(id) => match station_name_for_stop_id(db, id.as_str()) {
                    Some(name) => String::from_str(name),
                    None => String::from_str(UNKNOWN_DESTINATION),
                },
                None => String::from_str(UNKNOWN_DESTINATION),
            }
        },
        None => String::from_str(UNKNOWN_DESTINATION),
    }
}

/// The way a train at a stop is heading: downtown where the id of the
/// stop ends in `S`, uptown else.
pub open spec fn direction_at(stop_id: Seq<char>) -> Direction {
    if stop_id.len() > 0 && stop_id.last() == 'S' {
        Direction::Downtown
    } else {
        Direction::Uptown
    }
}

/// The way a train at a stop is heading.
pub fn direction_of(stop_id: &str) -> (d: Direction)
    ensures
        d == direction_at(stop_id@),
{
    let count = stop_id.unicode_len();
    if count > 0 && stop_id.get_char(count - 1) == 'S' {
        Direction::Downtown
    } else {
        Direction::Uptown
    }
}

/// Whether a stop of a trip gives a train: it is one of the watched stops
/// and the arrival there is still to come.
pub open spec fn is_due(stop: StopTimeView, stop_ids: Seq<Seq<char>>, now_ms: int) -> bool {
    stop_ids.contains(stop.id()) && is_ahead(stop.arrival, now_ms)
}

/// The first of the first `n` stops that gives a train.
pub open spec fn first_due(
    stops: Seq<StopTimeView>,
    stop_ids: Seq<Seq<char>>,
    now_ms: int,
    n: nat,
) -> Option<int>
    decreases n,
{
    if n == 0 || n > stops.len() {
        None
    } else {
        match first_due(stops, stop_ids, now_ms, (n - 1) as nat) {
            Some(k) => Some(k),
            None => if is_due(stops[n - 1], stop_ids, now_ms) {
                Some(n - 1)
            } else {
                None
            },
        }
    }
}

/// The first due stop is due, and no stop before it is.
pub proof fn lemma_first_due(
    stops: Seq<StopTimeView>,
    stop_ids: Seq<Seq<char>>,
    now_ms: int,
    n: nat,
)
    requires
        n <= stops.len(),
    ensures
        match first_due(stops, stop_ids, now_ms, n) {
            Some(k) => 0 <= k < n && is_due(stops[k], stop_ids, now_ms) && forall|j: int|
                0 <= j < k ==> !is_due(#[trigger] stops[j], stop_ids, now_ms),
            None => forall|j: int| 0 <= j < n ==> !is_due(#[trigger] stops[j], stop_ids, now_ms),
        },
    decreases n,
{
    if n > 0 {
        lemma_first_due(stops, stop_ids, now_ms, (n - 1) as nat);
    }
}

/// The train that a trip gives at the watched stops: none where the route
/// of the trip is not one of the watched routes, or where no stop of the
/// trip is due; else the train at the first stop that is due.
pub open spec fn train_of(
    trip: TripView,
    stop_ids: Seq<Seq<char>>,
    routes: Seq<Seq<char>>,
    now_ms: int,
    db: DbView,
) -> Option<TrainView> {
    if !routes.contains(trip.route_id) {
        None
    } else {
        match first_due(trip.stop_times, stop_ids, now_ms, trip.stop_times.len()) {
            Some(k) => Some(
                TrainView {
                    route: trip.route_id,
                    destination: destination(trip.stop_times, db),
                    minutes: minutes_until(trip.stop_times[k].arrival, now_ms),
                    is_express: detect_express_spec(trip.trip_id, trip.route_id),
                    arrival_timestamp: trip.stop_times[k].arrival,
                    direction: direction_at(trip.stop_times[k].id()),
                    stop_id: trip.stop_times[k].id(),
                },
            ),
            None => None,
        }
    }
}

/// The train that a trip gives at the watched stops, at a moment in
/// milliseconds since the Unix epoch.
pub fn train_of_trip(
    trip: &TripUpdate,
    stop_ids: &Vec<String>,
    routes: &Vec<String>,
    now_ms: u64,
    db: &StationDb,
) -> (r: Option<Train>)
    ensures
        match r {
            Some(t) => train_of(
                trip@,
                strings_view(stop_ids@),
                strings_view(routes@),
                now_ms as int,
                db@,
            ) == Some(t@),
            None => train_of(
                trip@,
                strings_view(stop_ids@),
                strings_view(routes@),
                now_ms as int,
                db@,
            ) is None,
        },
{
    let route_id: &str = match &trip.route_id {
        Some(id) => id.as_str(),
        None => "",
    };
    proof {
        reveal_strlit("");
        assert(route_id@ =~= trip@.route_id);
    }
    if !contains_string(routes, route_id) {
        return None;
    }
    let is_express = detect_express(
        match &trip.trip_id {
            Some(id) => Some(id.as_str()),
            None => None,
        },
        route_id,
    );
    let ghost stops = trip@.stop_times;
    let ghost ids = strings_view(stop_ids@);
    let mut i: usize = 0;
    while i < trip.stop_times.len()
        invariant
            i <= trip.stop_times@.len(),
            stops == stop_times_view(trip.stop_times@),
            stops == trip@.stop_times,
            ids == strings_view(stop_ids@),
            route_id@ == trip@.route_id,
            strings_view(routes@).contains(trip@.route_id),
            is_express == detect_express_spec(trip@.trip_id, trip@.route_id),
            first_due(stops, ids, now_ms as int, i as nat) is None,
        decreases trip.stop_times@.len() - i,
    {
        let stop = &trip.stop_times[i];
        assert(stops[i as int] == stop@);
        let stop_id: &str = match &stop.stop_id {
            Some(id) => id.as_str(),
            None => "",
        };
        proof {
            reveal_strlit("");
            assert(stop_id@ =~= stop@.id());
        }
        let arrival: i64 = match stop.arrival {
            Some(t) => t,
            None => 0,
        };
        if contains_string(stop_ids, stop_id) && (arrival as i128) * MILLIS_PER_SECOND > (
        now_ms as i128) {
            assert(first_due(stops, ids, now_ms as int, (i + 1) as nat) == Some(i as int));
            proof {
                lemma_first_due_extends(stops, ids, now_ms as int, (i + 1) as nat, stops.len());
            }
            return Some(
                Train {
                    route: String::from_str(route_id),
                    destination: destination_of(&trip.stop_times, db),
                    minutes: minutes_to_arrival(arrival, now_ms),
                    is_express,
                    arrival_timestamp: arrival,
                    direction: direction_of(stop_id),
                    stop_id: String::from_str(stop_id),
                },
            );
        }
        i += 1;
    }
    None
}

/// A due stop that was found stays the first when more stops are looked
/// at.
pub proof fn lemma_first_due_extends(
    stops: Seq<StopTimeView>,
    stop_ids: Seq<Seq<char>>,
    now_ms: int,
    n: nat,
    m: nat,
)
    requires
        n <= m <= stops.len(),
        first_due(stops, stop_ids, now_ms, n) is Some,
    ensures
        first_due(stops, stop_ids, now_ms, m) == first_due(stops, stop_ids, now_ms, n),
    decreases m,
{
    if m > n {
        lemma_first_due_extends(stops, stop_ids, now_ms, n, (m - 1) as nat);
    }
}

/// The trains that the first `n` trips of a feed give, in the order of the
/// trips.
pub open spec fn trains_of(
    trips: Seq<TripView>,
    stop_ids: Seq<Seq<char>>,
    routes: Seq<Seq<char>>,
    now_ms: int,
    db: DbView,
    n: nat,
) -> Seq<TrainView>
    decreases n,
{
    if n == 0 || n > trips.len() {
        Seq::empty()
    } else {
        let before = trains_of(trips, stop_ids, routes, now_ms, db, (n - 1) as nat);
        match train_of(trips[n - 1], stop_ids, routes, now_ms, db) {
            Some(train) => before.push(train),
            None => before,
        }
    }
}

/// The trains that the trips of a feed give at the watched stops, at a
/// moment in milliseconds since the Unix epoch.
pub fn trains_of_feed(
    trips: &Vec<TripUpdate>,
    stop_ids: &Vec<String>,
    routes: &Vec<String>,
    now_ms: u64,
    db: &StationDb,
) -> (trains: Vec<Train>)
    ensures
        trains_view(trains@) == trains_of(
            trips_view(trips@),
            strings_view(stop_ids@),
            strings_view(routes@),
            now_ms as int,
            db@,
            trips@.len(),
        ),
{
    let ghost all = trips_view(trips@);
    let ghost ids = strings_view(stop_ids@);
    let ghost lines = strings_view(routes@);
    let mut trains: Vec<Train> = Vec::new();
    let mut i: usize = 0;
    assert(trains_view(trains@) =~= Seq::<TrainView>::empty());
    while i < trips.len()
        invariant
            i <= trips@.len(),
            all == trips_view(trips@),
            ids == strings_view(stop_ids@),
            lines == strings_view(routes@),
            trains_view(trains@) == trains_of(all, ids, lines, now_ms as int, db@, i as nat),
        decreases trips@.len() - i,
    {
        assert(all[i as int] == trips@[i as int]@);
        let ghost before = trains_view(trains@);
        match train_of_trip(&trips[i], stop_ids, routes, now_ms, db) {
            Some(train) => {
                let ghost value = train@;
                trains.push(train);
                assert(trains_view(trains@) =~= before.push(value));
            },
            None => {},
        }
        i += 1;
    }
    trains
}

/// Where a train goes in a list sorted by arrival: behind the last train
/// that arrives no later.
pub open spec fn arrival_position(sorted: Seq<TrainView>, arrival: int) -> int
    decreases sorted.len(),
{
    if sorted.len() == 0 {
        0
    } else if sorted.last().arrival_timestamp <= arrival {
        sorted.len() as int
    } else {
        arrival_position(sorted.drop_last(), arrival)
    }
}

/// The trains in the order of their arrival; trains of one arrival keep
/// the order they came in.
pub open spec fn sorted_by_arrival(trains: Seq<TrainView>) -> Seq<TrainView>
    decreases trains.len(),
{
    if trains.len() == 0 {
        Seq::empty()
    } else {
        let sorted = sorted_by_arrival(trains.drop_last());
        sorted.insert(arrival_position(sorted, trains.last().arrival_timestamp), trains.last())
    }
}

/// Arrivals never fall along the list.
pub open spec fn in_arrival_order(trains: Seq<TrainView>) -> bool {
    forall|i: int, j: int|
        0 <= i <= j < trains.len() ==> (#[trigger] trains[i]).arrival_timestamp <= (
        #[trigger] trains[j]).arrival_timestamp
}

/// A train goes behind every train that arrives no later and in front
/// of every train that arrives later.
pub proof fn lemma_arrival_position(sorted: Seq<TrainView>, arrival: int)
    requires
        in_arrival_order(sorted),
    ensures
        0 <= arrival_position(sorted, arrival) <= sorted.len(),
        forall|i: int|
            0 <= i < arrival_position(sorted, arrival) ==> (#[trigger] sorted[i]).arrival_timestamp
                <= arrival,
        forall|i: int|
            arrival_position(sorted, arrival) <= i < sorted.len() ==> (
            #[trigger] sorted[i]).arrival_timestamp > arrival,
    decreases sorted.len(),
{
    if sorted.len() > 0 && sorted.last().arrival_timestamp > arrival {
        let front = sorted.drop_last();
        assert forall|i: int, j: int| 0 <= i <= j < front.len() implies (
        #[trigger] front[i]).arrival_timestamp <= (#[trigger] front[j]).arrival_timestamp by {
            assert(front[i] == sorted[i]);
            assert(front[j] == sorted[j]);
        }
        lemma_arrival_position(front, arrival);
        let p = arrival_position(front, arrival);
        assert forall|i: int| 0 <= i < p implies (#[trigger] sorted[i]).arrival_timestamp
            <= arrival by {
            assert(front[i] == sorted[i]);
        }
        assert forall|i: int| p <= i < sorted.len() implies (#[trigger] sorted[i]).arrival_timestamp
            > arrival by {
            if i < front.len() {
                assert(front[i] == sorted[i]);
            }
        }
    } else if sorted.len() > 0 {
        assert forall|i: int| 0 <= i < sorted.len() implies (#[trigger] sorted[i]).arrival_timestamp
            <= arrival by {
            assert(sorted[i].arrival_timestamp <= sorted.last().arrival_timestamp);
        }
    }
}

/// Sorting keeps every train and puts the arrivals in order.
pub proof fn lemma_sorted_by_arrival(trains: Seq<TrainView>)
    ensures
        sorted_by_arrival(trains).len() == trains.len(),
        in_arrival_order(sorted_by_arrival(trains)),
        sorted_by_arrival(trains).to_multiset() == trains.to_multiset(),
    decreases trains.len(),
{
    broadcast use vstd::seq_lib::group_to_multiset_ensures;

    if trains.len() > 0 {
        let front = trains.drop_last();
        lemma_sorted_by_arrival(front);
        let sorted = sorted_by_arrival(front);
        let t = trains.last();
        lemma_arrival_position(sorted, t.arrival_timestamp);
        let p = arrival_position(sorted, t.arrival_timestamp);
        let out = sorted.insert(p, t);
        assert forall|i: int, j: int| 0 <= i <= j < out.len() implies (
        #[trigger] out[i]).arrival_timestamp <= (#[trigger] out[j]).arrival_timestamp by {
            if i < p {
                assert(out[i] == sorted[i]);
            } else if i > p {
                assert(out[i] == sorted[i - 1]);
            }
            if j < p {
                assert(out[j] == sorted[j]);
            } else if j > p {
                assert(out[j] == sorted[j - 1]);
            }
        }
        assert(trains =~= front.push(t));
        vstd::seq_lib::to_multiset_insert(sorted, p, t);
        vstd::seq_lib::to_multiset_build(front, t);
    }
}

/// Puts trains in the order of their arrival; trains of one arrival keep
/// the order they came in.
pub fn sort_by_arrival(trains: Vec<Train>) -> (sorted: Vec<Train>)
    ensures
        trains_view(sorted@) == sorted_by_arrival(trains_view(trains@)),
{
    let ghost all = trains_view(trains@);
    let mut sorted: Vec<Train> = Vec::new();
    let mut i: usize = 0;
    assert(all.take(0) =~= Seq::<TrainView>::empty());
    assert(trains_view(sorted@) =~= Seq::<TrainView>::empty());
    while i < trains.len()
        invariant
            i <= trains@.len(),
            all == trains_view(trains@),
            trains_view(sorted@) == sorted_by_arrival(all.take(i as int)),
        decreases trains@.len() - i,
    {
        proof {
            assert(all.take(i + 1).drop_last() =~= all.take(i as int));
            assert(all.take(i + 1).last() == trains@[i as int]@);
        }
        let train = &trains[i];
        let ghost before = trains_view(sorted@);
        let mut pos: usize = sorted.len();
        assert(before.take(pos as int) =~= before);
        while pos > 0 && sorted[pos - 1].arrival_timestamp > train.arrival_timestamp
            invariant
                pos <= sorted@.len(),
                before == trains_view(sorted@),
                arrival_position(before, train@.arrival_timestamp) == arrival_position(
                    before.take(pos as int),
                    train@.arrival_timestamp,
                ),
            decreases pos,
        {
            assert(before.take(pos as int).drop_last() =~= before.take(pos - 1));
            assert(before.take(pos as int).last() == sorted@[pos - 1]@);
            pos -= 1;
        }
        proof {
            if pos > 0 {
                assert(before.take(pos as int).last() == sorted@[pos - 1]@);
            }
            assert(arrival_position(before, train@.arrival_timestamp) == pos);
        }
        sorted.insert(pos, train.clone());
        assert(trains_view(sorted@) =~= before.insert(pos as int, train@));
        i += 1;
    }
    assert(all.take(i as int) =~= all);
    sorted
}

/// The trains to show: in the order of their arrival, without those that
/// look like an earlier one, and at most `max_count` of them.
pub open spec fn nearest(trains: Seq<TrainView>, max_count: nat) -> Seq<TrainView> {
    let unique = deduplicated(sorted_by_arrival(trains));
    if max_count < unique.len() {
        unique.take(max_count as int)
    } else {
        unique
    }
}

/// Picks the trains to show from all that the feeds gave.
pub fn nearest_trains(trains: Vec<Train>, max_count: usize) -> (shown: Vec<Train>)
    ensures
        trains_view(shown@) == nearest(trains_view(trains@), max_count as nat),
{
    let mut unique = deduplicate_trains(sort_by_arrival(trains));
    let ghost all = trains_view(unique@);
    if max_count < unique.len() {
        unique.truncate(max_count);
        assert(trains_view(unique@) =~= all.take(max_count as int));
    }
    unique
}

} // verus!
