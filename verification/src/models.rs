//! The data that a frame is rendered from.

use vstd::prelude::*;
use vstd::string::*;
use vstd::utf8::encode_utf8;
use crate::text::str_eq;

verus! {

/// The minutes of a train whose arrival is not known.
pub const UNKNOWN_MINUTES: i32 = 999;

/// The way a train is heading.
#[derive(Debug, Clone, Copy, PartialEq, Eq, Hash, Structural)]
pub enum Direction {
    Uptown,
    Downtown,
}

/// One arriving train.
#[derive(Debug)]
pub struct Train {
    pub route: String,
    pub destination: String,
    /// Whole minutes until arrival; `999` where unknown.
    pub minutes: i32,
    pub is_express: bool,
    /// Arrival in seconds since the Unix epoch.
    pub arrival_timestamp: i64,
    pub direction: Direction,
    pub stop_id: String,
}

/// The mathematical value of a [`Train`].
pub struct TrainView {
    pub route: Seq<char>,
    pub destination: Seq<char>,
    pub minutes: int,
    pub is_express: bool,
    pub arrival_timestamp: int,
    pub direction: Direction,
    pub stop_id: Seq<char>,
}

impl View for Train {
    type V = TrainView;

    open spec fn view(&self) -> TrainView {
        TrainView {
            route: self.route@,
            destination: self.destination@,
            minutes: self.minutes as int,
            is_express: self.is_express,
            arrival_timestamp: self.arrival_timestamp as int,
            direction: self.direction,
            stop_id: self.stop_id@,
        }
    }
}

/// The train shown where there is none: no route, `---` as destination and
/// unknown minutes.
pub open spec fn placeholder_train() -> TrainView {
    TrainView {
        route: Seq::empty(),
        destination: "---"@,
        minutes: 999,
        is_express: false,
        arrival_timestamp: 0,
        direction: Direction::Uptown,
        stop_id: Seq::empty(),
    }
}

impl Train {
    /// The placeholder train.
    pub fn empty() -> (t: Train)
        ensures
            t@ == placeholder_train(),
    {
        Train {
            route: String::new(),
            destination: String::from_str("---"),
            minutes: UNKNOWN_MINUTES,
            is_express: false,
            arrival_timestamp: 0,
            direction: Direction::Uptown,
            stop_id: String::new(),
        }
    }
}

impl Clone for Train {
    fn clone(&self) -> (t: Train)
        ensures
            t@ == self@,
    {
        Train {
            route: self.route.clone(),
            destination: self.destination.clone(),
            minutes: self.minutes,
            is_express: self.is_express,
            arrival_timestamp: self.arrival_timestamp,
            direction: self.direction,
            stop_id: self.stop_id.clone(),
        }
    }
}

/// A service alert.
#[derive(Debug)]
pub struct Alert {
    /// The message. It may name routes as `[A]` or, for express service,
    /// `[AX]`.
    pub text: String,
    /// The ids of the routes that the alert is about, each once.
    pub affected_routes: Vec<String>,
    /// Urgency; a lower number is more urgent.
    pub priority: i32,
    /// A stable id, empty where the feed gave none.
    pub alert_id: String,
}

/// The mathematical value of an [`Alert`].
pub struct AlertView {
    pub text: Seq<char>,
    pub affected_routes: Seq<Seq<char>>,
    pub priority: int,
    pub alert_id: Seq<char>,
}

/// The strings of a list, as values.
pub open spec fn strings_view(strings: Seq<String>) -> Seq<Seq<char>> {
    Seq::new(strings.len(), |i: int| strings[i]@)
}

impl View for Alert {
    type V = AlertView;

    open spec fn view(&self) -> AlertView {
        AlertView {
            text: self.text@,
            affected_routes: strings_view(self.affected_routes@),
            priority: self.priority as int,
            alert_id: self.alert_id@,
        }
    }
}

/// A copy of a list of strings.
pub fn clone_strings(strings: &Vec<String>) -> (copy: Vec<String>)
    ensures
        strings_view(copy@) == strings_view(strings@),
{
    let mut copy: Vec<String> = Vec::with_capacity(strings.len());
    let mut i: usize = 0;
    while i < strings.len()
        invariant
            i <= strings@.len(),
            copy@.len() == i,
            forall|j: int| 0 <= j < i ==> (#[trigger] copy@[j])@ == strings@[j]@,
        decreases strings@.len() - i,
    {
        copy.push(strings[i].clone());
        i += 1;
    }
    assert(strings_view(copy@) =~= strings_view(strings@));
    copy
}

impl Clone for Alert {
    fn clone(&self) -> (a: Alert)
        ensures
            a@ == self@,
    {
        Alert {
            text: self.text.clone(),
            affected_routes: clone_strings(&self.affected_routes),
            priority: self.priority,
            alert_id: self.alert_id.clone(),
        }
    }
}

/// The trains of a list, as values.
pub open spec fn trains_view(trains: Seq<Train>) -> Seq<TrainView> {
    Seq::new(trains.len(), |i: int| trains[i]@)
}

/// The alerts of a list, as values.
pub open spec fn alerts_view(alerts: Seq<Alert>) -> Seq<AlertView> {
    Seq::new(alerts.len(), |i: int| alerts[i]@)
}

/// Everything that one frame is rendered from. A snapshot is made whole and
/// replaced whole; nothing changes it in place.
#[derive(Debug)]
pub struct DisplaySnapshot {
    /// The trains, nearest first.
    pub trains: Vec<Train>,
    pub alerts: Vec<Alert>,
    /// When the data was fetched, in seconds since the Unix epoch.
    pub fetched_at: u64,
}

/// The mathematical value of a [`DisplaySnapshot`].
pub struct SnapshotView {
    pub trains: Seq<TrainView>,
    pub alerts: Seq<AlertView>,
    pub fetched_at: nat,
}

impl SnapshotView {
    /// The nearest train, the placeholder where there is no train.
    pub open spec fn first_train(self) -> TrainView {
        if self.trains.len() > 0 {
            self.trains[0]
        } else {
            placeholder_train()
        }
    }

    /// The trains that take turns on the bottom row: the `count` trains
    /// after the nearest one, with the placeholder where the list ends.
    pub open spec fn cycling_trains(self, count: nat) -> Seq<TrainView> {
        Seq::new(
            count,
            |i: int|
                if i + 1 < self.trains.len() {
                    self.trains[i + 1]
                } else {
                    placeholder_train()
                },
        )
    }

    /// Whether a train of the given route and destination is arriving now.
    pub open spec fn has_arriving(self, route: Seq<char>, destination: Seq<char>) -> bool {
        exists|i: int|
            0 <= i < self.trains.len() && (#[trigger] self.trains[i]).route == route
                && self.trains[i].destination == destination && self.trains[i].minutes == 0
    }
}

impl View for DisplaySnapshot {
    type V = SnapshotView;

    open spec fn view(&self) -> SnapshotView {
        SnapshotView {
            trains: trains_view(self.trains@),
            alerts: alerts_view(self.alerts@),
            fetched_at: self.fetched_at as nat,
        }
    }
}

/// A copy of a list of trains.
pub fn clone_trains(trains: &Vec<Train>) -> (copy: Vec<Train>)
    ensures
        trains_view(copy@) == trains_view(trains@),
{
    let mut copy: Vec<Train> = Vec::with_capacity(trains.len());
    let mut i: usize = 0;
    while i < trains.len()
        invariant
            i <= trains@.len(),
            copy@.len() == i,
            forall|j: int| 0 <= j < i ==> (#[trigger] copy@[j])@ == trains@[j]@,
        decreases trains@.len() - i,
    {
        copy.push(trains[i].clone());
        i += 1;
    }
    assert(trains_view(copy@) =~= trains_view(trains@));
    copy
}

/// A copy of a list of alerts.
pub fn clone_alerts(alerts: &Vec<Alert>) -> (copy: Vec<Alert>)
    ensures
        alerts_view(copy@) == alerts_view(alerts@),
{
    let mut copy: Vec<Alert> = Vec::with_capacity(alerts.len());
    let mut i: usize = 0;
    while i < alerts.len()
        invariant
            i <= alerts@.len(),
            copy@.len() == i,
            forall|j: int| 0 <= j < i ==> (#[trigger] copy@[j])@ == alerts@[j]@,
        decreases alerts@.len() - i,
    {
        copy.push(alerts[i].clone());
        i += 1;
    }
    assert(alerts_view(copy@) =~= alerts_view(alerts@));
    copy
}

impl Clone for DisplaySnapshot {
    fn clone(&self) -> (s: DisplaySnapshot)
        ensures
            s@ == self@,
    {
        DisplaySnapshot {
            trains: clone_trains(&self.trains),
            alerts: clone_alerts(&self.alerts),
            fetched_at: self.fetched_at,
        }
    }
}

impl DisplaySnapshot {
    /// A snapshot without trains and alerts.
    pub fn empty() -> (s: DisplaySnapshot)
        ensures
            s@.trains.len() == 0,
            s@.alerts.len() == 0,
            s@.fetched_at == 0,
    {
        DisplaySnapshot { trains: Vec::new(), alerts: Vec::new(), fetched_at: 0 }
    }

    /// The nearest train, the placeholder where there is no train.
    pub fn get_first_train(&self) -> (t: Train)
        ensures
            t@ == self@.first_train(),
    {
        if self.trains.len() > 0 {
            self.trains[0].clone()
        } else {
            Train::empty()
        }
    }

    /// The `count` trains after the nearest one, padded with placeholders.
    pub fn get_cycling_trains(&self, count: usize) -> (trains: Vec<Train>)
        ensures
            trains_view(trains@) == self@.cycling_trains(count as nat),
    {
        let mut result: Vec<Train> = Vec::with_capacity(count);
        let mut i: usize = 0;
        while i < count
            invariant
                i <= count,
                result@.len() == i,
                forall|j: int|
                    0 <= j < i ==> (#[trigger] result@[j])@ == self@.cycling_trains(count as nat)[j],
            decreases count - i,
        {
            if i + 1 < self.trains.len() {
                result.push(self.trains[i + 1].clone());
            } else {
                result.push(Train::empty());
            }
            i += 1;
        }
        assert(trains_view(result@) =~= self@.cycling_trains(count as nat));
        result
    }
}

/// The stop ids of the two platforms of a station, uptown first.
pub type StationStop = (String, String);

/// The last byte of the id of an uptown platform.
pub const UPTOWN_SUFFIX: u8 = 0x4E;

/// The last byte of the id of a downtown platform.
pub const DOWNTOWN_SUFFIX: u8 = 0x53;

/// Whether a stop id names a platform of a direction: it has at least two
/// bytes and ends in the direction's letter.
pub open spec fn is_platform(id: Seq<u8>, suffix: u8) -> bool {
    id.len() >= 2 && id.last() == suffix
}

/// Whether two stop ids belong to one station: they agree but for their
/// last byte.
pub open spec fn same_station(a: Seq<u8>, b: Seq<u8>) -> bool {
    a.len() >= 1 && b.len() >= 1 && a.drop_last() == b.drop_last()
}

/// The stop ids of a list, as byte strings.
pub open spec fn ids_bytes(ids: Seq<Seq<char>>) -> Seq<Seq<u8>> {
    Seq::new(ids.len(), |i: int| encode_utf8(ids[i]))
}

/// The place of the last id of a list that names the platform of a
/// direction at the station of `id`.
pub open spec fn last_platform(ids: Seq<Seq<u8>>, id: Seq<u8>, suffix: u8) -> Option<int>
    decreases ids.len(),
{
    if ids.len() == 0 {
        None
    } else if is_platform(ids.last(), suffix) && same_station(ids.last(), id) {
        Some(ids.len() - 1)
    } else {
        last_platform(ids.drop_last(), id, suffix)
    }
}

/// The platform pairs among the first `n` of a list of stop ids: for each
/// station that has an uptown and a downtown platform in the list, the last
/// id of each, in the order of the uptown ids. A station with one platform
/// only gives nothing.
pub open spec fn station_stops_upto(ids: Seq<Seq<char>>, n: nat) -> Seq<(Seq<char>, Seq<char>)>
    decreases n,
{
    if n == 0 || n > ids.len() {
        Seq::empty()
    } else {
        let before = station_stops_upto(ids, (n - 1) as nat);
        let bytes = ids_bytes(ids);
        let id = bytes[n - 1];
        if is_platform(id, 0x4E) && last_platform(bytes, id, 0x4E) == Some(n - 1) {
            match last_platform(bytes, id, 0x53) {
                Some(j) => before.push((ids[n - 1], ids[j])),
                None => before,
            }
        } else {
            before
        }
    }
}

/// The platform pairs of a list of stop ids.
pub open spec fn station_stops(ids: Seq<Seq<char>>) -> Seq<(Seq<char>, Seq<char>)> {
    station_stops_upto(ids, ids.len())
}

/// The platform pairs of a list, as values.
pub open spec fn stops_view(stops: Seq<StationStop>) -> Seq<(Seq<char>, Seq<char>)> {
    Seq::new(stops.len(), |i: int| (stops[i].0@, stops[i].1@))
}

/// Whether a stop id is that of a platform of the given direction.
fn is_platform_id(id: &str, suffix: u8) -> (r: bool)
    ensures
        r == is_platform(id.spec_bytes(), suffix),
{
    let bytes = id.as_bytes();
    bytes.len() >= 2 && bytes[bytes.len() - 1] == suffix
}

/// Whether two platform ids differ in their direction letter only.
fn same_station_id(a: &str, b: &str) -> (r: bool)
    ensures
        r == same_station(a.spec_bytes(), b.spec_bytes()),
{
    let ab = a.as_bytes();
    let bb = b.as_bytes();
    if ab.len() < 1 || bb.len() < 1 {
        return false;
    }
    if ab.len() != bb.len() {
        assert(ab@.drop_last().len() != bb@.drop_last().len());
        return false;
    }
    let n = ab.len() - 1;
    let mut i: usize = 0;
    while i < n
        invariant
            i <= n,
            n == ab@.len() - 1,
            ab@ == a.spec_bytes(),
            bb@ == b.spec_bytes(),
            ab@.len() == bb@.len(),
            forall|j: int| 0 <= j < i ==> ab@[j] == bb@[j],
        decreases n - i,
    {
        if ab[i] != bb[i] {
            assert(ab@.drop_last()[i as int] != bb@.drop_last()[i as int]);
            return false;
        }
        i += 1;
    }
    assert(ab@.drop_last() =~= bb@.drop_last());
    true
}

/// The last platform of the given direction at the station of a stop id.
fn find_last_platform(ids: &[String], id: &str, suffix: u8) -> (r: Option<usize>)
    ensures
        match r {
            Some(j) => last_platform(ids_bytes(strings_view(ids@)), id.spec_bytes(), suffix)
                == Some(j as int) && j < ids@.len(),
            None => last_platform(ids_bytes(strings_view(ids@)), id.spec_bytes(), suffix) is None,
        },
{
    let ghost all = ids_bytes(strings_view(ids@));
    let mut k: usize = ids.len();
    assert(all.take(k as int) =~= all);
    while k > 0
        invariant
            k <= ids@.len(),
            all == ids_bytes(strings_view(ids@)),
            last_platform(all, id.spec_bytes(), suffix) == last_platform(
                all.take(k as int),
                id.spec_bytes(),
                suffix,
            ),
        decreases k,
    {
        proof {
            assert(all.take(k as int).drop_last() =~= all.take(k - 1));
            assert(all.take(k as int).last() == encode_utf8(ids@[k - 1]@));
        }
        let other = ids[k - 1].as_str();
        if is_platform_id(other, suffix) && same_station_id(other, id) {
            return Some(k - 1);
        }
        k -= 1;
    }
    None
}

/// Pairs the stop ids of a list into stations: for each station with an
/// uptown platform (an id ending in `N`) and a downtown platform (the same
/// id ending in `S`), the two ids.
pub fn stop_ids_to_station_stops(stop_ids: &[String]) -> (stops: Vec<StationStop>)
    ensures
        stops_view(stops@) == station_stops(strings_view(stop_ids@)),
{
    let mut stops: Vec<StationStop> = Vec::new();
    let mut i: usize = 0;
    assert(stops_view(stops@) =~= Seq::<(Seq<char>, Seq<char>)>::empty());
    while i < stop_ids.len()
        invariant
            i <= stop_ids@.len(),
            stops_view(stops@) == station_stops_upto(strings_view(stop_ids@), i as nat),
        decreases stop_ids@.len() - i,
    {
        let ghost before = stops_view(stops@);
        let id = stop_ids[i].as_str();
        assert(ids_bytes(strings_view(stop_ids@))[i as int] == id.spec_bytes());
        if is_platform_id(id, UPTOWN_SUFFIX) {
            match find_last_platform(stop_ids, id, UPTOWN_SUFFIX) {
                Some(last) => {
                    if last == i {
                        match find_last_platform(stop_ids, id, DOWNTOWN_SUFFIX) {
                            Some(j) => {
                                stops.push((stop_ids[i].clone(), stop_ids[j].clone()));
                                assert(stops_view(stops@) =~= before.push(
                                    (stop_ids@[i as int]@, stop_ids@[j as int]@),
                                ));
                            },
                            None => {},
                        }
                    }
                },
                None => {},
            }
        }
        i += 1;
    }
    stops
}

/// The texts of a list without repeats, first occurrences kept.
pub open spec fn distinct(words: Seq<Seq<char>>) -> Seq<Seq<char>>
    decreases words.len(),
{
    if words.len() == 0 {
        Seq::empty()
    } else {
        let before = distinct(words.drop_last());
        if before.contains(words.last()) {
            before
        } else {
            before.push(words.last())
        }
    }
}

/// Whether a list of texts holds a text.
pub fn contains_string(list: &Vec<String>, word: &str) -> (r: bool)
    ensures
        r == strings_view(list@).contains(word@),
{
    let mut i: usize = 0;
    while i < list.len()
        invariant
            i <= list@.len(),
            forall|j: int| 0 <= j < i ==> strings_view(list@)[j] != word@,
        decreases list@.len() - i,
    {
        if str_eq(list[i].as_str(), word) {
            assert(strings_view(list@)[i as int] == word@);
            return true;
        }
        i += 1;
    }
    false
}

/// The texts of a list without repeats, first occurrences kept.
pub fn distinct_of(words: &Vec<String>) -> (r: Vec<String>)
    ensures
        strings_view(r@) == distinct(strings_view(words@)),
{
    let ghost all = strings_view(words@);
    let mut out: Vec<String> = Vec::new();
    let mut i: usize = 0;
    assert(all.take(0) =~= Seq::<Seq<char>>::empty());
    assert(strings_view(out@) =~= Seq::<Seq<char>>::empty());
    while i < words.len()
        invariant
            i <= words@.len(),
            all == strings_view(words@),
            strings_view(out@) == distinct(all.take(i as int)),
        decreases words@.len() - i,
    {
        assert(all.take(i + 1).drop_last() =~= all.take(i as int));
        assert(all.take(i + 1).last() == words@[i as int]@);
        let ghost before = strings_view(out@);
        if !contains_string(&out, words[i].as_str()) {
            out.push(words[i].clone());
            assert(strings_view(out@) =~= before.push(words@[i as int]@));
        }
        i += 1;
    }
    assert(all.take(i as int) =~= all);
    out
}

/// The stop ids of the first `n` platform pairs, one after the other:
/// of each pair the uptown stop, then the downtown stop.
pub open spec fn stop_ids_of(stops: Seq<(Seq<char>, Seq<char>)>, n: nat) -> Seq<Seq<char>>
    decreases n,
{
    if n == 0 || n > stops.len() {
        Seq::empty()
    } else {
        stop_ids_of(stops, (n - 1) as nat).push(stops[n - 1].0).push(stops[n - 1].1)
    }
}

/// The stop ids of a list of platform pairs, one after the other.
pub fn all_stop_ids(stops: &Vec<StationStop>) -> (ids: Vec<String>)
    ensures
        strings_view(ids@) == stop_ids_of(stops_view(stops@), stops@.len()),
{
    let ghost all = stops_view(stops@);
    let mut ids: Vec<String> = Vec::new();
    let mut i: usize = 0;
    assert(strings_view(ids@) =~= Seq::<Seq<char>>::empty());
    while i < stops.len()
        invariant
            i <= stops@.len(),
            all == stops_view(stops@),
            strings_view(ids@) == stop_ids_of(all, i as nat),
        decreases stops@.len() - i,
    {
        let ghost before = strings_view(ids@);
        assert(all[i as int] == (stops@[i as int].0@, stops@[i as int].1@));
        ids.push(stops[i].0.clone());
        ids.push(stops[i].1.clone());
        assert(strings_view(ids@) =~= before.push(stops@[i as int].0@).push(stops@[i as int].1@));
        i += 1;
    }
    ids
}

} // verus!
