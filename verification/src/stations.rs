//! The station database: stations found by name, however the name is
//! written, and stops traced back to their station.

use vstd::prelude::*;
use vstd::string::*;
use crate::models::{clone_strings, contains_string, distinct, distinct_of, strings_view};
use crate::strings::{
    contains, contains_text, lowercase_spec, pattern_replaced, replace, replace_pattern, replaced,
    split_whitespace, to_lowercase, trim, trim_end_matches, trim_spec, without_trailing,
    words_spec,
};
use crate::text::str_eq;

verus! {

/// An ordinal number with its ending: the digits are the first group.
pub const ORDINAL_PATTERN: &'static str = r"(\d+)(st|nd|rd|th)\b";

/// A dash with the white space around it.
pub const DASH_PATTERN: &'static str = r"\s*-\s*";

/// A run of white space.
pub const SPACES_PATTERN: &'static str = r"\s+";

/// One station.
#[derive(Debug)]
pub struct Station {
    pub name: String,
    pub stop_ids: Vec<String>,
    pub routes: Vec<String>,
    pub borough: String,
    pub platform_count: u32,
}

/// The mathematical value of a [`Station`].
pub struct StationView {
    pub name: Seq<char>,
    pub stop_ids: Seq<Seq<char>>,
    pub routes: Seq<Seq<char>>,
    pub borough: Seq<char>,
    pub platform_count: nat,
}

impl View for Station {
    type V = StationView;

    open spec fn view(&self) -> StationView {
        StationView {
            name: self.name@,
            stop_ids: strings_view(self.stop_ids@),
            routes: strings_view(self.routes@),
            borough: self.borough@,
            platform_count: self.platform_count as nat,
        }
    }
}

/// The stations of a list, as values.
pub open spec fn stations_view(stations: Seq<Station>) -> Seq<StationView> {
    Seq::new(stations.len(), |i: int| stations[i]@)
}

/// A station name in the form in which names are compared: in lower case,
/// ordinals without their endings, no white space around dashes, single
/// blanks, `st`, `av` and `sq` for street, avenue and square, and no white
/// space at the ends.
pub open spec fn normalized_name(name: Seq<char>) -> Seq<char> {
    let lower = lowercase_spec(name);
    let plain = pattern_replaced(ORDINAL_PATTERN@, lower, "$1"@);
    let dashed = pattern_replaced(DASH_PATTERN@, plain, "-"@);
    let spaced = pattern_replaced(SPACES_PATTERN@, dashed, " "@);
    let street = replaced(spaced, "street"@, "st"@);
    let avenue = replaced(street, "avenue"@, "av"@);
    let square = replaced(avenue, "square"@, "sq"@);
    trim_spec(square)
}

/// Brings a station name into the form in which names are compared.
pub fn normalize_station_name(name: &str) -> (r: String)
    ensures
        r@ == normalized_name(name@),
{
    let lower = to_lowercase(name);
    let plain = replace_pattern(ORDINAL_PATTERN, lower.as_str(), "$1");
    let dashed = replace_pattern(DASH_PATTERN, plain.as_str(), "-");
    let spaced = replace_pattern(SPACES_PATTERN, dashed.as_str(), " ");
    let street = replace(spaced.as_str(), "street", "st");
    let avenue = replace(street.as_str(), "avenue", "av");
    let square = replace(avenue.as_str(), "square", "sq");
    trim(square.as_str())
}

// ---------------------------------------------------------------------
// An index from names to stations
// ---------------------------------------------------------------------

/// An index: names with the number of the station they stand for, each
/// name once, in the order in which the names came in.
pub type IndexView = Seq<(Seq<char>, nat)>;

/// The place of a name in an index.
pub open spec fn key_position(index: IndexView, key: Seq<char>) -> Option<int>
    decreases index.len(),
{
    if index.len() == 0 {
        None
    } else {
        match key_position(index.drop_last(), key) {
            Some(k) => Some(k),
            None => if index.last().0 == key {
                Some(index.len() - 1)
            } else {
                None
            },
        }
    }
}

/// The station that a name stands for.
pub open spec fn lookup(index: IndexView, key: Seq<char>) -> Option<nat> {
    match key_position(index, key) {
        Some(k) => Some(index[k].1),
        None => None,
    }
}

/// An index in which a name stands for a station, whatever it stood for
/// before.
pub open spec fn put(index: IndexView, key: Seq<char>, station: nat) -> IndexView {
    match key_position(index, key) {
        Some(k) => index.update(k, (key, station)),
        None => index.push((key, station)),
    }
}

/// An index in which a name stands for a station unless it stood for one
/// before.
pub open spec fn put_new(index: IndexView, key: Seq<char>, station: nat) -> IndexView {
    match key_position(index, key) {
        Some(_) => index,
        None => index.push((key, station)),
    }
}

/// Every entry of an index stands for one of the first `n` stations.
pub open spec fn bounded(index: IndexView, n: nat) -> bool {
    forall|k: int| 0 <= k < index.len() ==> (#[trigger] index[k]).1 < n
}

/// The position of a key is that of an entry of the key; a key that has
/// no position has no entry.
pub proof fn lemma_key_position(index: IndexView, key: Seq<char>)
    ensures
        match key_position(index, key) {
            Some(k) => 0 <= k < index.len() && index[k].0 == key,
            None => forall|j: int| 0 <= j < index.len() ==> (#[trigger] index[j]).0 != key,
        },
    decreases index.len(),
{
    if index.len() > 0 {
        let front = index.drop_last();
        lemma_key_position(front, key);
        match key_position(front, key) {
            Some(k) => {
                assert(front[k] == index[k]);
            },
            None => {
                assert forall|j: int| 0 <= j < front.len() implies (#[trigger] index[j]).0
                    != key by {
                    assert(front[j] == index[j]);
                }
            },
        }
    }
}

/// A name found in a part of an index is found at the same place in the
/// whole.
pub proof fn lemma_key_position_extends(index: IndexView, key: Seq<char>, k: int)
    requires
        0 <= k <= index.len(),
        key_position(index.take(k), key) is Some,
    ensures
        key_position(index, key) == key_position(index.take(k), key),
    decreases index.len() - k,
{
    if k < index.len() {
        assert(index.take(k + 1).drop_last() =~= index.take(k));
        lemma_key_position_extends(index, key, k + 1);
    } else {
        assert(index.take(k) =~= index);
    }
}

/// One name with the station it stands for.
pub struct NameEntry {
    pub key: String,
    pub station: usize,
}

/// The entries of a list, as values.
pub open spec fn entries_view(entries: Seq<NameEntry>) -> IndexView {
    Seq::new(entries.len(), |i: int| (entries[i].key@, entries[i].station as nat))
}

/// Where the first entry of a key stands.
fn position_of(entries: &Vec<NameEntry>, key: &str) -> (r: Option<usize>)
    ensures
        match r {
            Some(k) => key_position(entries_view(entries@), key@) == Some(k as int) && k
                < entries@.len(),
            None => key_position(entries_view(entries@), key@) is None,
        },
{
    let ghost all = entries_view(entries@);
    let mut i: usize = 0;
    while i < entries.len()
        invariant
            i <= entries@.len(),
            all == entries_view(entries@),
            key_position(all.take(i as int), key@) is None,
        decreases entries@.len() - i,
    {
        assert(all.take(i + 1).drop_last() =~= all.take(i as int));
        if str_eq(entries[i].key.as_str(), key) {
            proof {
                lemma_key_position_extends(all, key@, i + 1);
            }
            return Some(i);
        }
        i += 1;
    }
    assert(all.take(i as int) =~= all);
    None
}

/// The station that an index holds for a key.
fn lookup_in(entries: &Vec<NameEntry>, key: &str) -> (r: Option<usize>)
    ensures
        match r {
            Some(station) => lookup(entries_view(entries@), key@) == Some(station as nat),
            None => lookup(entries_view(entries@), key@) is None,
        },
{
    match position_of(entries, key) {
        Some(k) => Some(entries[k].station),
        None => None,
    }
}

/// Sets the station of a key.
fn put_in(entries: &mut Vec<NameEntry>, key: String, station: usize)
    ensures
        entries_view(final(entries)@) == put(entries_view(old(entries)@), key@, station as nat),
{
    let ghost before = entries_view(entries@);
    match position_of(entries, key.as_str()) {
        Some(k) => {
            entries.set(k, NameEntry { key, station });
            assert(entries_view(entries@) =~= before.update(k as int, (key@, station as nat)));
        },
        None => {
            entries.push(NameEntry { key, station });
            assert(entries_view(entries@) =~= before.push((key@, station as nat)));
        },
    }
}

/// Sets the station of a key that has none yet.
fn put_new_in(entries: &mut Vec<NameEntry>, key: String, station: usize)
    ensures
        entries_view(final(entries)@) == put_new(
            entries_view(old(entries)@),
            key@,
            station as nat,
        ),
{
    let ghost before = entries_view(entries@);
    match position_of(entries, key.as_str()) {
        Some(_) => {},
        None => {
            entries.push(NameEntry { key, station });
            assert(entries_view(entries@) =~= before.push((key@, station as nat)));
        },
    }
}

/// An index of the first `n` stations stays one when one of them is put
/// in.
pub proof fn lemma_put_bounded(index: IndexView, key: Seq<char>, station: nat, n: nat)
    requires
        bounded(index, n),
        station < n,
    ensures
        bounded(put(index, key, station), n),
        bounded(put_new(index, key, station), n),
{
    lemma_key_position(index, key);
    let a = put(index, key, station);
    assert forall|k: int| 0 <= k < a.len() implies (#[trigger] a[k]).1 < n by {
        if k < index.len() && a[k] != (key, station) {
            assert(a[k] == index[k]);
        }
    }
    let b = put_new(index, key, station);
    assert forall|k: int| 0 <= k < b.len() implies (#[trigger] b[k]).1 < n by {
        if k < index.len() {
            assert(b[k] == index[k]);
        }
    }
}

/// An index of the first `n` stations is one of the first `m`, for `m`
/// not less than `n`.
pub proof fn lemma_bounded_grows(index: IndexView, n: nat, m: nat)
    requires
        bounded(index, n),
        n <= m,
    ensures
        bounded(index, m),
{
    assert forall|k: int| 0 <= k < index.len() implies (#[trigger] index[k]).1 < m by {
        assert(index[k].1 < n);
    }
}

// ---------------------------------------------------------------------
// The database
// ---------------------------------------------------------------------

/// The index of the names of the first `n` stations: each station under
/// its name in lower case, whatever stood there before, and under its
/// normalized name where nothing stood there.
pub open spec fn name_index(stations: Seq<StationView>, n: nat) -> IndexView
    decreases n,
{
    if n == 0 || n > stations.len() {
        Seq::empty()
    } else {
        let before = name_index(stations, (n - 1) as nat);
        let name = stations[n - 1].name;
        put_new(
            put(before, lowercase_spec(name), (n - 1) as nat),
            normalized_name(name),
            (n - 1) as nat,
        )
    }
}

/// An index with the first `m` stop ids of a station added, each without
/// the direction letters at its end, where nothing stood under it.
pub open spec fn with_stops(
    index: IndexView,
    stop_ids: Seq<Seq<char>>,
    station: nat,
    m: nat,
) -> IndexView
    decreases m,
{
    if m == 0 || m > stop_ids.len() {
        index
    } else {
        put_new(
            with_stops(index, stop_ids, station, (m - 1) as nat),
            without_trailing(stop_ids[m - 1], 'N', 'S'),
            station,
        )
    }
}

/// The index of the stops of the first `n` stations.
pub open spec fn stop_index(stations: Seq<StationView>, n: nat) -> IndexView
    decreases n,
{
    if n == 0 || n > stations.len() {
        Seq::empty()
    } else {
        with_stops(
            stop_index(stations, (n - 1) as nat),
            stations[n - 1].stop_ids,
            (n - 1) as nat,
            stations[n - 1].stop_ids.len(),
        )
    }
}

/// The mathematical value of a [`StationDb`].
pub struct DbView {
    pub stations: Seq<StationView>,
    /// Names to stations.
    pub names: IndexView,
    /// Stop ids without direction letters to stations.
    pub stops: IndexView,
}

impl DbView {
    /// The indexes are those of the stations.
    pub open spec fn wf(self) -> bool {
        &&& self.names == name_index(self.stations, self.stations.len())
        &&& self.stops == stop_index(self.stations, self.stations.len())
        &&& bounded(self.names, self.stations.len())
        &&& bounded(self.stops, self.stations.len())
    }

    /// A name as it is compared with the names of the index when nothing
    /// else has matched: normalized, with blanks for dashes.
    pub open spec fn loose(name: Seq<char>) -> Seq<char> {
        replaced(name, "-"@, " "@)
    }

    /// The station of the first name of the index that holds the loose
    /// query or is held by it.
    pub open spec fn first_related(index: IndexView, query: Seq<char>) -> Option<nat>
        decreases index.len(),
    {
        if index.len() == 0 {
            None
        } else {
            match Self::first_related(index.drop_last(), query) {
                Some(s) => Some(s),
                None => {
                    let name = Self::loose(index.last().0);
                    if contains_text(query, name) || contains_text(name, query) {
                        Some(index.last().1)
                    } else {
                        None
                    }
                },
            }
        }
    }

    /// The station that a name is taken for. The name is tried in lower
    /// case without white space at its ends, then with its dashes closed
    /// up and double blanks made single, then normalized, and at last
    /// loosely. The empty name is taken for nothing.
    pub open spec fn station_for(self, name: Seq<char>) -> Option<nat> {
        if name.len() == 0 {
            None
        } else {
            let lower = trim_spec(lowercase_spec(name));
            match lookup(self.names, lower) {
                Some(s) => Some(s),
                None => {
                    let closed = replaced(replaced(lower, " - "@, "-"@), "  "@, " "@);
                    match lookup(self.names, closed) {
                        Some(s) => Some(s),
                        None => {
                            let normalized = normalized_name(name);
                            match lookup(self.names, normalized) {
                                Some(s) => Some(s),
                                None => Self::first_related(self.names, Self::loose(normalized)),
                            }
                        },
                    }
                },
            }
        }
    }

    /// The stop ids of the station that a name is taken for.
    pub open spec fn stop_ids_for(self, name: Seq<char>) -> Seq<Seq<char>> {
        match self.station_for(name) {
            Some(s) => self.stations[s as int].stop_ids,
            None => Seq::empty(),
        }
    }

    /// The name of the station of a stop.
    pub open spec fn name_for_stop(self, stop_id: Seq<char>) -> Option<Seq<char>> {
        match lookup(self.stops, without_trailing(stop_id, 'N', 'S')) {
            Some(s) => Some(self.stations[s as int].name),
            None => None,
        }
    }

    /// The first station whose name is the given one but for case.
    pub open spec fn named(stations: Seq<StationView>, name: Seq<char>) -> Option<int>
        decreases stations.len(),
    {
        if stations.len() == 0 {
            None
        } else {
            match Self::named(stations.drop_last(), name) {
                Some(i) => Some(i),
                None => if lowercase_spec(stations.last().name) == lowercase_spec(name) {
                    Some(stations.len() - 1)
                } else {
                    None
                },
            }
        }
    }

    /// The routes of the station of a name.
    pub open spec fn routes_for(self, name: Seq<char>) -> Seq<Seq<char>> {
        match Self::named(self.stations, name) {
            Some(i) => self.stations[i].routes,
            None => Seq::empty(),
        }
    }
}

/// The station found by a name is one of the stations.
pub proof fn lemma_named(stations: Seq<StationView>, name: Seq<char>)
    ensures
        match DbView::named(stations, name) {
            Some(i) => 0 <= i < stations.len(),
            None => true,
        },
    decreases stations.len(),
{
    if stations.len() > 0 {
        lemma_named(stations.drop_last(), name);
    }
}

/// A station found among the first stations is found among all.
pub proof fn lemma_named_extends(stations: Seq<StationView>, name: Seq<char>, k: int)
    requires
        0 <= k <= stations.len(),
        DbView::named(stations.take(k), name) is Some,
    ensures
        DbView::named(stations, name) == DbView::named(stations.take(k), name),
    decreases stations.len() - k,
{
    if k < stations.len() {
        assert(stations.take(k + 1).drop_last() =~= stations.take(k));
        lemma_named_extends(stations, name, k + 1);
    } else {
        assert(stations.take(k) =~= stations);
    }
}

/// A related name found among the first entries is found among all.
pub proof fn lemma_first_related_extends(index: IndexView, query: Seq<char>, k: int)
    requires
        0 <= k <= index.len(),
        DbView::first_related(index.take(k), query) is Some,
    ensures
        DbView::first_related(index, query) == DbView::first_related(index.take(k), query),
    decreases index.len() - k,
{
    if k < index.len() {
        assert(index.take(k + 1).drop_last() =~= index.take(k));
        lemma_first_related_extends(index, query, k + 1);
    } else {
        assert(index.take(k) =~= index);
    }
}

/// A related name of an index of the first `n` stations leads to one of
/// them.
pub proof fn lemma_first_related_bounded(index: IndexView, query: Seq<char>, n: nat)
    requires
        bounded(index, n),
    ensures
        DbView::first_related(index, query) is Some ==> DbView::first_related(index, query)->0 < n,
    decreases index.len(),
{
    if index.len() > 0 {
        let front = index.drop_last();
        assert forall|k: int| 0 <= k < front.len() implies (#[trigger] front[k]).1 < n by {
            assert(front[k] == index[k]);
        }
        lemma_first_related_bounded(front, query, n);
        assert(index.last() == index[index.len() - 1]);
    }
}

/// An index of the first `n` stations stays one when the stops of one of
/// them are put in.
pub proof fn lemma_with_stops_bounded(
    index: IndexView,
    stop_ids: Seq<Seq<char>>,
    station: nat,
    m: nat,
    n: nat,
)
    requires
        bounded(index, n),
        station < n,
    ensures
        bounded(with_stops(index, stop_ids, station, m), n),
    decreases m,
{
    if !(m == 0 || m > stop_ids.len()) {
        lemma_with_stops_bounded(index, stop_ids, station, (m - 1) as nat, n);
        lemma_put_bounded(
            with_stops(index, stop_ids, station, (m - 1) as nat),
            without_trailing(stop_ids[m - 1], 'N', 'S'),
            station,
            n,
        );
    }
}

// ---------------------------------------------------------------------
// Stations that resemble a query
// ---------------------------------------------------------------------

/// The words of a name by which it is compared: in lower case, with dashes
/// read as blanks, each word once.
pub open spec fn name_words(name: Seq<char>) -> Seq<Seq<char>> {
    distinct(words_spec(replaced(lowercase_spec(name), "-"@, " "@)))
}

/// How many of the words of `a` are among the words of `b`.
pub open spec fn common_count(a: Seq<Seq<char>>, b: Seq<Seq<char>>) -> nat
    decreases a.len(),
{
    if a.len() == 0 {
        0
    } else {
        common_count(a.drop_last(), b) + if b.contains(a.last()) {
            1nat
        } else {
            0nat
        }
    }
}

/// A station that resembles a query: how many words they share, and the
/// number of words of the one that has more. The quotient of the two is
/// the station's score.
pub struct Candidate {
    pub station: usize,
    pub common: usize,
    pub size: usize,
}

/// The mathematical value of a [`Candidate`].
pub struct CandidateView {
    pub station: nat,
    pub common: nat,
    pub size: nat,
}

impl View for Candidate {
    type V = CandidateView;

    open spec fn view(&self) -> CandidateView {
        CandidateView {
            station: self.station as nat,
            common: self.common as nat,
            size: self.size as nat,
        }
    }
}

/// The candidates of a list, as values.
pub open spec fn candidates_view(candidates: Seq<Candidate>) -> Seq<CandidateView> {
    Seq::new(candidates.len(), |i: int| candidates[i]@)
}

/// Whether a station resembles a query enough: they share a word, and the
/// score is more than a fifth.
pub open spec fn resembles(common: nat, query_size: nat, name_size: nat) -> bool {
    common > 0 && 5 * common > if query_size > name_size {
        query_size
    } else {
        name_size
    }
}

/// Whether the score of `a` is higher than that of `b`.
pub open spec fn outranks(a: CandidateView, b: CandidateView) -> bool {
    a.common * b.size > b.common * a.size
}

/// Whether an earlier station has the name of station `i`.
pub open spec fn name_seen_before(stations: Seq<StationView>, i: int) -> bool {
    exists|j: int| 0 <= j < i && (#[trigger] stations[j]).name == stations[i].name
}

/// The candidates among the first `n` stations, in the order of the
/// stations. Of stations of one name only the first is looked at.
pub open spec fn candidates(stations: Seq<StationView>, query: Seq<Seq<char>>, n: nat) -> Seq<
    CandidateView,
>
    decreases n,
{
    if n == 0 || n > stations.len() {
        Seq::empty()
    } else {
        let before = candidates(stations, query, (n - 1) as nat);
        let words = name_words(stations[n - 1].name);
        let common = common_count(query, words);
        if !name_seen_before(stations, n - 1) && resembles(common, query.len(), words.len()) {
            before.push(
                CandidateView {
                    station: (n - 1) as nat,
                    common,
                    size: if query.len() > words.len() {
                        query.len()
                    } else {
                        words.len()
                    },
                },
            )
        } else {
            before
        }
    }
}

/// Where a candidate goes in a ranking: in front of those it outranks and
/// behind all others.
pub open spec fn rank_position(ranking: Seq<CandidateView>, c: CandidateView) -> int
    decreases ranking.len(),
{
    if ranking.len() == 0 {
        0
    } else if outranks(c, ranking.last()) {
        rank_position(ranking.drop_last(), c)
    } else {
        ranking.len() as int
    }
}

/// The candidates by falling score; candidates of one score keep their
/// order.
pub open spec fn ranked(cands: Seq<CandidateView>) -> Seq<CandidateView>
    decreases cands.len(),
{
    if cands.len() == 0 {
        Seq::empty()
    } else {
        let before = ranked(cands.drop_last());
        before.insert(rank_position(before, cands.last()), cands.last())
    }
}

/// The names of the first `n` candidates of a ranking.
pub open spec fn candidate_names(
    stations: Seq<StationView>,
    ranking: Seq<CandidateView>,
    n: nat,
) -> Seq<Seq<char>> {
    Seq::new(n, |i: int| stations[ranking[i].station as int].name)
}

impl DbView {
    /// The names of the stations that resemble a query, best first, at most
    /// `max_results` of them.
    pub open spec fn similar_to(self, query: Seq<char>, max_results: nat) -> Seq<Seq<char>> {
        let ranking = ranked(candidates(self.stations, name_words(query), self.stations.len()));
        candidate_names(
            self.stations,
            ranking,
            if max_results < ranking.len() {
                max_results
            } else {
                ranking.len()
            },
        )
    }
}

/// No candidate of a ranking is outranked by a later one.
pub open spec fn falling(ranking: Seq<CandidateView>) -> bool {
    forall|i: int, j: int|
        0 <= i < j < ranking.len() ==> !outranks(#[trigger] ranking[j], #[trigger] ranking[i])
}

/// Every candidate has a size.
pub open spec fn sized(cands: Seq<CandidateView>) -> bool {
    forall|k: int| 0 <= k < cands.len() ==> (#[trigger] cands[k]).size > 0
}

/// A candidate that does not outrank a second, which does not outrank a
/// third, does not outrank the third.
pub proof fn lemma_score_order(a: CandidateView, b: CandidateView, c: CandidateView)
    requires
        a.size > 0,
        b.size > 0,
        c.size > 0,
        !outranks(a, b),
        !outranks(b, c),
    ensures
        !outranks(a, c),
{
    let (ac, az) = (a.common as int, a.size as int);
    let (bc, bz) = (b.common as int, b.size as int);
    let (cc, cz) = (c.common as int, c.size as int);
    assert(ac * bz <= bc * az);
    assert(bc * cz <= cc * bz);
    assert(ac * cz <= cc * az) by (nonlinear_arith)
        requires
            ac * bz <= bc * az,
            bc * cz <= cc * bz,
            az > 0,
            bz > 0,
            cz > 0,
            ac >= 0,
            bc >= 0,
            cc >= 0,
    ;
}

/// Ranking keeps every candidate and puts the scores in falling order.
pub proof fn lemma_ranked(cands: Seq<CandidateView>)
    requires
        sized(cands),
    ensures
        ranked(cands).len() == cands.len(),
        ranked(cands).to_multiset() == cands.to_multiset(),
        sized(ranked(cands)),
        falling(ranked(cands)),
    decreases cands.len(),
{
    broadcast use vstd::seq_lib::group_to_multiset_ensures;

    if cands.len() > 0 {
        let front = cands.drop_last();
        let c = cands.last();
        assert forall|k: int| 0 <= k < front.len() implies (#[trigger] front[k]).size > 0 by {
            assert(front[k] == cands[k]);
        }
        lemma_ranked(front);
        let before = ranked(front);
        lemma_rank_place(before, c);
        let p = rank_position(before, c);
        let out = before.insert(p, c);
        assert(out == ranked(cands));
        assert forall|k: int| 0 <= k < out.len() implies (#[trigger] out[k]).size > 0 by {
            if k < p {
                assert(out[k] == before[k]);
            } else if k > p {
                assert(out[k] == before[k - 1]);
            }
        }
        assert forall|i: int, j: int| 0 <= i < j < out.len() implies !outranks(
            #[trigger] out[j],
            #[trigger] out[i],
        ) by {
            if j < p {
                assert(out[i] == before[i]);
                assert(out[j] == before[j]);
            } else if j == p {
                assert(out[i] == before[i]);
                assert(out[j] == c);
                if i < p - 1 {
                    lemma_score_order(c, before[p - 1], before[i]);
                }
            } else if i < p {
                assert(out[i] == before[i]);
                assert(out[j] == before[j - 1]);
            } else if i == p {
                assert(out[i] == c);
                assert(out[j] == before[j - 1]);
                assert(outranks(c, before[j - 1]));
                assert(!outranks(before[j - 1], c)) by (nonlinear_arith)
                    requires
                        outranks(c, before[j - 1]),
                ;
            } else {
                assert(out[i] == before[i - 1]);
                assert(out[j] == before[j - 1]);
            }
        }
        assert(cands =~= front.push(c));
        vstd::seq_lib::to_multiset_insert(before, p, c);
        vstd::seq_lib::to_multiset_build(front, c);
    }
}

/// A candidate goes behind the last candidate that it does not outrank,
/// and so in front of candidates that it outranks only.
pub proof fn lemma_rank_place(ranking: Seq<CandidateView>, c: CandidateView)
    ensures
        0 <= rank_position(ranking, c) <= ranking.len(),
        forall|i: int|
            rank_position(ranking, c) <= i < ranking.len() ==> outranks(c, #[trigger] ranking[i]),
        rank_position(ranking, c) > 0 ==> !outranks(c, ranking[rank_position(ranking, c) - 1]),
    decreases ranking.len(),
{
    if ranking.len() > 0 && outranks(c, ranking.last()) {
        let front = ranking.drop_last();
        lemma_rank_place(front, c);
        let p = rank_position(front, c);
        assert forall|i: int| p <= i < ranking.len() implies outranks(c, #[trigger] ranking[i]) by {
            if i < front.len() {
                assert(front[i] == ranking[i]);
            }
        }
        if p > 0 {
            assert(front[p - 1] == ranking[p - 1]);
        }
    }
}

/// No more words are shared than there are.
pub proof fn lemma_common_count(a: Seq<Seq<char>>, b: Seq<Seq<char>>)
    ensures
        common_count(a, b) <= a.len(),
    decreases a.len(),
{
    if a.len() > 0 {
        lemma_common_count(a.drop_last(), b);
    }
}

/// The stations that resemble a query are ranked in falling order of
/// their scores.
pub proof fn lemma_candidates_ranked(stations: Seq<StationView>, query: Seq<Seq<char>>, n: nat)
    ensures
        sized(candidates(stations, query, n)),
        falling(ranked(candidates(stations, query, n))),
    decreases n,
{
    if !(n == 0 || n > stations.len()) {
        lemma_candidates_ranked(stations, query, (n - 1) as nat);
        lemma_common_count(query, name_words(stations[n - 1].name));
        let before = candidates(stations, query, (n - 1) as nat);
        let now = candidates(stations, query, n);
        assert forall|k: int| 0 <= k < now.len() implies (#[trigger] now[k]).size > 0 by {
            if k < before.len() {
                assert(now[k] == before[k]);
            }
        }
    }
    lemma_ranked(candidates(stations, query, n));
}

/// Every candidate is one of the first `n` stations.
pub open spec fn candidates_bounded(cands: Seq<CandidateView>, n: nat) -> bool {
    forall|k: int| 0 <= k < cands.len() ==> (#[trigger] cands[k]).station < n
}

/// The words of a name by which it is compared.
fn words_of_name(name: &str) -> (r: Vec<String>)
    ensures
        strings_view(r@) == name_words(name@),
{
    let lower = to_lowercase(name);
    let plain = replace(lower.as_str(), "-", " ");
    let words = split_whitespace(plain.as_str());
    distinct_of(&words)
}

/// How many of the words of `a` are among the words of `b`.
fn count_common(a: &Vec<String>, b: &Vec<String>) -> (n: usize)
    ensures
        n == common_count(strings_view(a@), strings_view(b@)),
        n <= a@.len(),
{
    let ghost all = strings_view(a@);
    let mut n: usize = 0;
    let mut i: usize = 0;
    assert(all.take(0) =~= Seq::<Seq<char>>::empty());
    while i < a.len()
        invariant
            i <= a@.len(),
            all == strings_view(a@),
            n == common_count(all.take(i as int), strings_view(b@)),
            n <= i,
        decreases a@.len() - i,
    {
        assert(all.take(i + 1).drop_last() =~= all.take(i as int));
        assert(all.take(i + 1).last() == a@[i as int]@);
        if contains_string(b, a[i].as_str()) {
            n += 1;
        }
        i += 1;
    }
    assert(all.take(i as int) =~= all);
    n
}

/// Whether the score of `a` is higher than that of `b`.
fn outranks_candidate(a: &Candidate, b: &Candidate) -> (r: bool)
    ensures
        r == outranks(a@, b@),
{
    assert(a.common * b.size <= usize::MAX * usize::MAX) by (nonlinear_arith)
        requires
            a.common <= usize::MAX,
            b.size <= usize::MAX,
    ;
    assert(b.common * a.size <= usize::MAX * usize::MAX) by (nonlinear_arith)
        requires
            b.common <= usize::MAX,
            a.size <= usize::MAX,
    ;
    (a.common as u128) * (b.size as u128) > (b.common as u128) * (a.size as u128)
}

/// The station database.
pub struct StationDb {
    stations: Vec<Station>,
    names: Vec<NameEntry>,
    stops: Vec<NameEntry>,
}

impl View for StationDb {
    type V = DbView;

    closed spec fn view(&self) -> DbView {
        DbView {
            stations: stations_view(self.stations@),
            names: entries_view(self.names@),
            stops: entries_view(self.stops@),
        }
    }
}

impl StationDb {
    /// The indexes are those of the stations.
    #[verifier::type_invariant]
    pub closed spec fn inv(self) -> bool {
        self@.wf()
    }

    /// Builds the database with its indexes from the stations.
    pub fn new(stations: Vec<Station>) -> (db: StationDb)
        ensures
            db@.stations == stations_view(stations@),
            db@.wf(),
    {
        let ghost all = stations_view(stations@);
        let mut names: Vec<NameEntry> = Vec::new();
        let mut stops: Vec<NameEntry> = Vec::new();
        let mut i: usize = 0;
        assert(entries_view(names@) =~= name_index(all, 0));
        assert(entries_view(stops@) =~= stop_index(all, 0));
        while i < stations.len()
            invariant
                i <= stations@.len(),
                all == stations_view(stations@),
                entries_view(names@) == name_index(all, i as nat),
                entries_view(stops@) == stop_index(all, i as nat),
                bounded(entries_view(names@), i as nat),
                bounded(entries_view(stops@), i as nat),
            decreases stations@.len() - i,
        {
            let station = &stations[i];
            assert(all[i as int] == station@);
            proof {
                lemma_bounded_grows(entries_view(names@), i as nat, (i + 1) as nat);
                lemma_bounded_grows(entries_view(stops@), i as nat, (i + 1) as nat);
                lemma_put_bounded(
                    entries_view(names@),
                    lowercase_spec(station@.name),
                    i as nat,
                    (i + 1) as nat,
                );
                lemma_put_bounded(
                    put(entries_view(names@), lowercase_spec(station@.name), i as nat),
                    normalized_name(station@.name),
                    i as nat,
                    (i + 1) as nat,
                );
            }
            put_in(&mut names, to_lowercase(station.name.as_str()), i);
            put_new_in(&mut names, normalize_station_name(station.name.as_str()), i);

            let ghost before = entries_view(stops@);
            let ghost ids = station@.stop_ids;
            let mut j: usize = 0;
            while j < station.stop_ids.len()
                invariant
                    j <= station.stop_ids@.len(),
                    i < stations@.len(),
                    ids == strings_view(station.stop_ids@),
                    bounded(before, (i + 1) as nat),
                    entries_view(stops@) == with_stops(before, ids, i as nat, j as nat),
                decreases station.stop_ids@.len() - j,
            {
                assert(ids[j as int] == station.stop_ids@[j as int]@);
                let base = trim_end_matches(station.stop_ids[j].as_str(), 'N', 'S');
                put_new_in(&mut stops, base, i);
                j += 1;
            }
            proof {
                lemma_with_stops_bounded(before, ids, i as nat, ids.len(), (i + 1) as nat);
            }
            i += 1;
        }
        StationDb { stations, names, stops }
    }

    /// All stations.
    pub fn stations(&self) -> (all: &Vec<Station>)
        ensures
            stations_view(all@) == self@.stations,
    {
        &self.stations
    }

    /// The station found for a name, however the name is written.
    fn station_of(&self, station_name: &str) -> (r: Option<usize>)
        ensures
            match r {
                Some(s) => self@.station_for(station_name@) == Some(s as nat) && s
                    < self.stations@.len(),
                None => self@.station_for(station_name@) is None,
            },
    {
        if station_name.unicode_len() == 0 {
            return None;
        }
        proof {
            use_type_invariant(self);
            lemma_key_position(self@.names, trim_spec(lowercase_spec(station_name@)));
        }
        let lowered = to_lowercase(station_name);
        let lower = trim(lowered.as_str());
        match lookup_in(&self.names, lower.as_str()) {
            Some(s) => {
                return Some(s);
            },
            None => {},
        }
        let half = replace(lower.as_str(), " - ", "-");
        let closed = replace(half.as_str(), "  ", " ");
        proof {
            lemma_key_position(self@.names, closed@);
        }
        match lookup_in(&self.names, closed.as_str()) {
            Some(s) => {
                return Some(s);
            },
            None => {},
        }
        let normalized = normalize_station_name(station_name);
        proof {
            lemma_key_position(self@.names, normalized@);
        }
        match lookup_in(&self.names, normalized.as_str()) {
            Some(s) => {
                return Some(s);
            },
            None => {},
        }
        let query = replace(normalized.as_str(), "-", " ");
        let ghost index = self@.names;
        proof {
            lemma_first_related_bounded(index, query@, self.stations@.len() as nat);
        }
        assert(self@.station_for(station_name@) == DbView::first_related(index, query@));
        let mut k: usize = 0;
        while k < self.names.len()
            invariant
                k <= self.names@.len(),
                index == entries_view(self.names@),
                self@.station_for(station_name@) == DbView::first_related(index, query@),
                DbView::first_related(index, query@) is Some ==> DbView::first_related(
                    index,
                    query@,
                )->0 < self.stations@.len(),
                DbView::first_related(index.take(k as int), query@) is None,
            decreases self.names@.len() - k,
        {
            assert(index.take(k + 1).drop_last() =~= index.take(k as int));
            assert(index.take(k + 1).last() == (
                self.names@[k as int].key@,
                self.names@[k as int].station as nat,
            ));
            let name = replace(self.names[k].key.as_str(), "-", " ");
            if contains(query.as_str(), name.as_str()) || contains(name.as_str(), query.as_str()) {
                proof {
                    lemma_first_related_extends(index, query@, k + 1);
                }
                return Some(self.names[k].station);
            }
            k += 1;
        }
        assert(index.take(k as int) =~= index);
        None
    }

    /// Whether an earlier station has the name of station `i`.
    fn seen_before(&self, i: usize) -> (r: bool)
        requires
            i < self.stations@.len(),
        ensures
            r == name_seen_before(self@.stations, i as int),
    {
        let mut j: usize = 0;
        while j < i
            invariant
                j <= i,
                i < self.stations@.len(),
                forall|k: int|
                    0 <= k < j ==> (#[trigger] self@.stations[k]).name != self@.stations[i as int].name,
            decreases i - j,
        {
            assert(self@.stations[j as int] == self.stations@[j as int]@);
            assert(self@.stations[i as int] == self.stations@[i as int]@);
            if str_eq(self.stations[j].name.as_str(), self.stations[i].name.as_str()) {
                return true;
            }
            j += 1;
        }
        false
    }
}

/// The stations that resemble a query, best first. A station resembles
/// the query where they share a word and the shared words are more than
/// a fifth of the words of the one that has more.
pub fn find_similar_stations(db: &StationDb, query: &str, max_results: usize) -> (names: Vec<
    String,
>)
    ensures
        strings_view(names@) == db@.similar_to(query@, max_results as nat),
{
    let query_words = words_of_name(query);
    let ghost all = db@.stations;
    let ghost words = name_words(query@);
    let mut ranking: Vec<Candidate> = Vec::new();
    let mut i: usize = 0;
    assert(candidates_view(ranking@) =~= ranked(candidates(all, words, 0)));
    while i < db.stations.len()
        invariant
            i <= db.stations@.len(),
            all == stations_view(db.stations@),
            all == db@.stations,
            words == strings_view(query_words@),
            candidates_view(ranking@) == ranked(candidates(all, words, i as nat)),
            candidates_bounded(candidates_view(ranking@), i as nat),
        decreases db.stations@.len() - i,
    {
        let ghost before = candidates_view(ranking@);
        assert(all[i as int] == db.stations@[i as int]@);
        assert forall|k: int| 0 <= k < before.len() implies (#[trigger] before[k]).station < i
            + 1 by {}
        if !db.seen_before(i) {
            let station_words = words_of_name(db.stations[i].name.as_str());
            let common = count_common(&query_words, &station_words);
            let size = if query_words.len() > station_words.len() {
                query_words.len()
            } else {
                station_words.len()
            };
            if common > 0 && 5 * (common as u128) > size as u128 {
                let candidate = Candidate { station: i, common, size };
                proof {
                    let earlier = candidates(all, words, i as nat);
                    let now = earlier.push(candidate@);
                    assert(candidates(all, words, (i + 1) as nat) == now);
                    assert(now.drop_last() =~= earlier);
                }
                let mut pos: usize = ranking.len();
                assert(before.take(pos as int) =~= before);
                while pos > 0 && outranks_candidate(&candidate, &ranking[pos - 1])
                    invariant
                        pos <= ranking@.len(),
                        before == candidates_view(ranking@),
                        rank_position(before, candidate@) == rank_position(
                            before.take(pos as int),
                            candidate@,
                        ),
                    decreases pos,
                {
                    assert(before.take(pos as int).drop_last() =~= before.take(pos - 1));
                    assert(before.take(pos as int).last() == ranking@[pos - 1]@);
                    pos -= 1;
                }
                proof {
                    if pos > 0 {
                        assert(before.take(pos as int).last() == ranking@[pos - 1]@);
                    }
                    assert(rank_position(before, candidate@) == pos);
                }
                ranking.insert(pos, candidate);
                proof {
                    let after = candidates_view(ranking@);
                    assert(after =~= before.insert(pos as int, candidate@));
                    assert forall|k: int| 0 <= k < after.len() implies (
                    #[trigger] after[k]).station < i + 1 by {
                        if k < pos {
                            assert(after[k] == before[k]);
                        } else if k > pos {
                            assert(after[k] == before[k - 1]);
                        }
                    }
                }
            }
        }
        i += 1;
    }
    let count: usize = if max_results < ranking.len() {
        max_results
    } else {
        ranking.len()
    };
    let ghost final_ranking = candidates_view(ranking@);
    let mut names: Vec<String> = Vec::with_capacity(count);
    let mut k: usize = 0;
    while k < count
        invariant
            k <= count <= ranking@.len(),
            final_ranking == candidates_view(ranking@),
            all == stations_view(db.stations@),
            candidates_bounded(final_ranking, db.stations@.len() as nat),
            names@.len() == k,
            forall|j: int|
                0 <= j < k ==> (#[trigger] names@[j])@ == all[final_ranking[j].station as int].name,
        decreases count - k,
    {
        assert(final_ranking[k as int] == ranking@[k as int]@);
        assert(final_ranking[k as int].station < db.stations@.len());
        let station = ranking[k].station;
        assert(all[station as int] == db.stations@[station as int]@);
        names.push(db.stations[station].name.clone());
        k += 1;
    }
    assert(strings_view(names@) =~= candidate_names(all, final_ranking, count as nat));
    names
}

/// The stop ids of a station found by its name. Nothing for a name
/// that no station is found for.
pub fn get_stop_ids_for_station(db: &StationDb, station_name: &str) -> (ids: Vec<String>)
    ensures
        strings_view(ids@) == db@.stop_ids_for(station_name@),
{
    match db.station_of(station_name) {
        Some(s) => {
            assert(db@.stations[s as int] == db.stations@[s as int]@);
            clone_strings(&db.stations[s].stop_ids)
        },
        None => {
            let ids: Vec<String> = Vec::new();
            assert(strings_view(ids@) =~= Seq::<Seq<char>>::empty());
            ids
        },
    }
}

/// The name of the station that a stop belongs to. The direction
/// letters at the end of the stop id do not count.
pub fn station_name_for_stop_id<'a>(db: &'a StationDb, stop_id: &str) -> (name: Option<&'a str>)
    ensures
        match name {
            Some(n) => db@.name_for_stop(stop_id@) == Some(n@),
            None => db@.name_for_stop(stop_id@) is None,
        },
{
    let base = trim_end_matches(stop_id, 'N', 'S');
    proof {
        use_type_invariant(db);
        lemma_key_position(db@.stops, base@);
    }
    match lookup_in(&db.stops, base.as_str()) {
        Some(s) => {
            assert(db@.stations[s as int] == db.stations@[s as int]@);
            Some(db.stations[s].name.as_str())
        },
        None => None,
    }
}

/// The routes that serve the station of the given name, whatever its
/// case. Nothing for a name that no station has.
pub fn get_routes_for_station(db: &StationDb, station_name: &str) -> (routes: Vec<String>)
    ensures
        strings_view(routes@) == db@.routes_for(station_name@),
{
    let wanted = to_lowercase(station_name);
    let ghost all = db@.stations;
    let mut i: usize = 0;
    while i < db.stations.len()
        invariant
            i <= db.stations@.len(),
            all == stations_view(db.stations@),
            wanted@ == lowercase_spec(station_name@),
            DbView::named(all.take(i as int), station_name@) is None,
        decreases db.stations@.len() - i,
    {
        assert(all.take(i + 1).drop_last() =~= all.take(i as int));
        assert(all.take(i + 1).last() == db.stations@[i as int]@);
        let lower = to_lowercase(db.stations[i].name.as_str());
        if str_eq(lower.as_str(), wanted.as_str()) {
            proof {
                lemma_named_extends(all, station_name@, i + 1);
            }
            return clone_strings(&db.stations[i].routes);
        }
        i += 1;
    }
    assert(all.take(i as int) =~= all);
    let routes: Vec<String> = Vec::new();
    assert(strings_view(routes@) =~= Seq::<Seq<char>>::empty());
    routes
}

} // verus!
