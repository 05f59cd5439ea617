//! What the control pages say of the sign: the type of a file by its
//! name, whether the sign is alive, and which stations a search finds.

use vstd::prelude::*;
use vstd::string::*;
use crate::models::{contains_string, stops_view, strings_view, StationStop};
use crate::stations::{station_name_for_stop_id, stations_view, DbView, Station, StationDb, StationView};
use crate::strings::{contains, contains_text, lowercase_spec, to_lowercase};
use crate::text::{decimal_chars, push_decimal, str_eq};

verus! {

/// Where the part of a file name behind its last dot begins; the start of
/// the name where it has no dot.
pub open spec fn extension_start(path: Seq<char>) -> int
    decreases path.len(),
{
    if path.len() == 0 {
        0
    } else if path.last() == '.' {
        path.len() as int
    } else {
        extension_start(path.drop_last())
    }
}

/// The part of a file name behind its last dot; the whole name where it
/// has no dot.
pub open spec fn extension(path: Seq<char>) -> Seq<char> {
    path.subrange(extension_start(path), path.len() as int)
}

/// The extension holds no dot, and a dot stands in front of it unless
/// it is the whole name.
pub proof fn lemma_extension_start(path: Seq<char>)
    ensures
        0 <= extension_start(path) <= path.len(),
        forall|i: int| extension_start(path) <= i < path.len() ==> #[trigger] path[i] != '.',
        extension_start(path) > 0 ==> path[extension_start(path) - 1] == '.',
    decreases path.len(),
{
    if path.len() > 0 && path.last() != '.' {
        let front = path.drop_last();
        lemma_extension_start(front);
        assert forall|i: int| extension_start(path) <= i < path.len() implies path[i] != '.' by {
            if i < front.len() {
                assert(front[i] == path[i]);
            }
        }
        if extension_start(path) > 0 {
            assert(front[extension_start(path) - 1] == path[extension_start(path) - 1]);
        }
    }
}

/// The type of content that goes with an extension.
pub open spec fn mime_of(ext: Seq<char>) -> Seq<char> {
    if ext == "html"@ {
        "text/html; charset=utf-8"@
    } else if ext == "css"@ {
        "text/css; charset=utf-8"@
    } else if ext == "js"@ {
        "application/javascript; charset=utf-8"@
    } else if ext == "json"@ {
        "application/json"@
    } else if ext == "png"@ {
        "image/png"@
    } else if ext == "ico"@ {
        "image/x-icon"@
    } else if ext == "svg"@ {
        "image/svg+xml"@
    } else if ext == "webmanifest"@ || ext == "manifest"@ {
        "application/manifest+json"@
    } else {
        "application/octet-stream"@
    }
}

/// The type of content of a file, by the extension of its name.
pub fn mime_for_path(path: &str) -> (mime: &'static str)
    ensures
        mime@ == mime_of(extension(path@)),
{
    let count = path.unicode_len();
    let mut start: usize = 0;
    let mut i: usize = 0;
    assert(path@.take(0) =~= Seq::<char>::empty());
    while i < count
        invariant
            i <= count,
            count == path@.len(),
            start <= i,
            start == extension_start(path@.take(i as int)),
        decreases count - i,
    {
        assert(path@.take(i + 1).drop_last() =~= path@.take(i as int));
        assert(path@.take(i + 1).last() == path@[i as int]);
        if path.get_char(i) == '.' {
            start = i + 1;
        }
        i += 1;
    }
    assert(path@.take(count as int) =~= path@);
    let ext = path.substring_char(start, count);
    assert(ext@ == extension(path@));
    if str_eq(ext, "html") {
        "text/html; charset=utf-8"
    } else if str_eq(ext, "css") {
        "text/css; charset=utf-8"
    } else if str_eq(ext, "js") {
        "application/javascript; charset=utf-8"
    } else if str_eq(ext, "json") {
        "application/json"
    } else if str_eq(ext, "png") {
        "image/png"
    } else if str_eq(ext, "ico") {
        "image/x-icon"
    } else if str_eq(ext, "svg") {
        "image/svg+xml"
    } else if str_eq(ext, "webmanifest") || str_eq(ext, "manifest") {
        "application/manifest+json"
    } else {
        "application/octet-stream"
    }
}

/// Whether the part of a path that begins at `i` is the step `..` to the
/// directory above: two dots between slashes or the ends of the path.
pub open spec fn steps_up_at(path: Seq<char>, i: int) -> bool {
    &&& 0 <= i
    &&& i + 2 <= path.len()
    &&& path[i] == '.'
    &&& path[i + 1] == '.'
    &&& (i == 0 || path[i - 1] == '/')
    &&& (i + 2 == path.len() || path[i + 2] == '/')
}

/// Whether a path holds a step to the directory above, and so may lead
/// out of the directory that it starts in.
pub open spec fn steps_up(path: Seq<char>) -> bool {
    exists|i: int| steps_up_at(path, i)
}

/// Whether a path holds a step to the directory above.
pub fn leads_out(path: &str) -> (r: bool)
    ensures
        r == steps_up(path@),
{
    let count = path.unicode_len();
    let mut i: usize = 0;
    while i < count
        invariant
            i <= count,
            count == path@.len(),
            forall|j: int| 0 <= j < i ==> !steps_up_at(path@, j),
        decreases count - i,
    {
        if count - i >= 2 && path.get_char(i) == '.' && path.get_char(i + 1) == '.' && (i == 0
            || path.get_char(i - 1) == '/') && (i + 2 == count || path.get_char(i + 2) == '/') {
            assert(steps_up_at(path@, i as int));
            return true;
        }
        i += 1;
    }
    false
}

/// Seconds without a frame after which the renderer counts as stale.
pub const RENDER_STALE_SECONDS: u64 = 10;

/// How many refresh intervals may pass without a fetch before the data
/// counts as stale.
pub const FETCH_STALE_INTERVALS: u64 = 3;

/// Whether the sign is alive.
#[derive(Debug)]
pub struct Health {
    /// Neither the data nor the renderer is stale.
    pub ok: bool,
    /// Seconds since the last fetch that succeeded.
    pub age_seconds: u64,
    /// Seconds since the last frame.
    pub render_age_seconds: u64,
    /// The data is stale while the renderer is not.
    pub degraded: bool,
    /// What is stale, where anything is.
    pub reason: Option<String>,
}

/// The mathematical value of a [`Health`].
pub struct HealthView {
    pub ok: bool,
    pub age_seconds: nat,
    pub render_age_seconds: nat,
    pub degraded: bool,
    pub reason: Option<Seq<char>>,
}

impl View for Health {
    type V = HealthView;

    open spec fn view(&self) -> HealthView {
        HealthView {
            ok: self.ok,
            age_seconds: self.age_seconds as nat,
            render_age_seconds: self.render_age_seconds as nat,
            degraded: self.degraded,
            reason: match self.reason {
                Some(r) => Some(r@),
                None => None,
            },
        }
    }
}

/// The words that say that the data is stale.
pub open spec fn fetch_stale_words(age: nat) -> Seq<char> {
    "fetch stale "@ + decimal_chars(age) + "s"@
}

/// The words that say that the renderer is stale.
pub open spec fn render_stale_words(age: nat) -> Seq<char> {
    "render stale "@ + decimal_chars(age) + "s"@
}

/// The health of the sign at a moment, from the moments of the last fetch
/// and the last frame, all in seconds: the data is stale when it is older
/// than three refresh intervals, the renderer when the last frame is more
/// than ten seconds ago.
pub open spec fn health_at(
    now: nat,
    last_fetch: nat,
    last_render: nat,
    trains_interval: nat,
) -> HealthView {
    let fetch_age = (now - last_fetch) as nat;
    let render_age = (now - last_render) as nat;
    let fetch_stale = fetch_age > trains_interval * 3;
    let render_stale = render_age > 10;
    HealthView {
        ok: !fetch_stale && !render_stale,
        age_seconds: fetch_age,
        render_age_seconds: render_age,
        degraded: fetch_stale && !render_stale,
        reason: if fetch_stale && render_stale {
            Some(fetch_stale_words(fetch_age) + ", "@ + render_stale_words(render_age))
        } else if fetch_stale {
            Some(fetch_stale_words(fetch_age))
        } else if render_stale {
            Some(render_stale_words(render_age))
        } else {
            None
        },
    }
}

/// Writes the words that say that the data is stale.
fn push_fetch_stale(out: &mut String, age: u64)
    ensures
        final(out)@ == old(out)@ + fetch_stale_words(age as nat),
{
    out.append("fetch stale ");
    push_decimal(out, age);
    out.append("s");
    assert(out@ =~= old(out)@ + fetch_stale_words(age as nat));
}

/// Writes the words that say that the renderer is stale.
fn push_render_stale(out: &mut String, age: u64)
    ensures
        final(out)@ == old(out)@ + render_stale_words(age as nat),
{
    out.append("render stale ");
    push_decimal(out, age);
    out.append("s");
    assert(out@ =~= old(out)@ + render_stale_words(age as nat));
}

/// The health of the sign at a moment.
pub fn health(now: u64, last_fetch: u64, last_render: u64, trains_interval: u64) -> (h: Health)
    requires
        last_fetch <= now,
        last_render <= now,
        trains_interval * 3 <= u64::MAX,
    ensures
        h@ == health_at(now as nat, last_fetch as nat, last_render as nat, trains_interval as nat),
{
    let fetch_age = now - last_fetch;
    let render_age = now - last_render;
    let fetch_stale = fetch_age > trains_interval * FETCH_STALE_INTERVALS;
    let render_stale = render_age > RENDER_STALE_SECONDS;
    let reason = if fetch_stale && render_stale {
        let mut words = String::new();
        push_fetch_stale(&mut words, fetch_age);
        words.append(", ");
        push_render_stale(&mut words, render_age);
        assert(words@ =~= fetch_stale_words(fetch_age as nat) + ", "@ + render_stale_words(
            render_age as nat,
        ));
        Some(words)
    } else if fetch_stale {
        let mut words = String::new();
        push_fetch_stale(&mut words, fetch_age);
        assert(words@ =~= fetch_stale_words(fetch_age as nat));
        Some(words)
    } else if render_stale {
        let mut words = String::new();
        push_render_stale(&mut words, render_age);
        assert(words@ =~= render_stale_words(render_age as nat));
        Some(words)
    } else {
        None
    };
    Health {
        ok: !fetch_stale && !render_stale,
        age_seconds: fetch_age,
        render_age_seconds: render_age,
        degraded: fetch_stale && !render_stale,
        reason,
    }
}

/// The words for a sign without platforms.
pub const NOT_CONFIGURED: &'static str = "Not configured";

/// What the status page calls the station of the sign: the name of the
/// station of the first platform pair; where that is not known, the number
/// of pairs; where there is none, that the sign is not configured.
pub open spec fn station_label(stops: Seq<(Seq<char>, Seq<char>)>, db: DbView) -> Seq<char> {
    if stops.len() == 0 {
        NOT_CONFIGURED@
    } else {
        match db.name_for_stop(stops[0].0) {
            Some(name) => name,
            None => decimal_chars(stops.len()) + " platforms configured"@,
        }
    }
}

/// What the status page calls the station of the sign.
pub fn determine_station_name(stops: &Vec<StationStop>, db: &StationDb) -> (label: String)
    ensures
        label@ == station_label(stops_view(stops@), db@),
{
    if stops.len() == 0 {
        return String::from_str(NOT_CONFIGURED);
    }
    assert(stops_view(stops@)[0] == (stops@[0].0@, stops@[0].1@));
    match station_name_for_stop_id(db, stops[0].0.as_str()) {
        Some(name) => String::from_str(name),
        None => {
            let mut label = String::new();
            push_decimal(&mut label, stops.len() as u64);
            label.append(" platforms configured");
            assert(label@ =~= decimal_chars(stops@.len()) + " platforms configured"@);
            label
        },
    }
}

/// Whether a search finds a station: its name holds the searched text,
/// whatever the case of the name; it is served by the searched route; and
/// it has more than one platform where only such stations are wanted. An
/// empty text and an empty route find all. The searched text is taken as
/// it is.
pub open spec fn found_by(
    station: StationView,
    search: Seq<char>,
    route: Seq<char>,
    multi_only: bool,
) -> bool {
    &&& search.len() == 0 || contains_text(lowercase_spec(station.name), search)
    &&& route.len() == 0 || station.routes.contains(route)
    &&& !multi_only || station.platform_count > 1
}

/// Whether a search finds a station.
pub fn station_matches(station: &Station, search: &str, route: &str, multi_only: bool) -> (r: bool)
    ensures
        r == found_by(station@, search@, route@, multi_only),
{
    if search.unicode_len() > 0 {
        let lower = to_lowercase(station.name.as_str());
        if !contains(lower.as_str(), search) {
            return false;
        }
    }
    if route.unicode_len() > 0 && !contains_string(&station.routes, route) {
        return false;
    }
    !multi_only || station.platform_count > 1
}

/// The places of the stations among the first `n` that a search finds.
pub open spec fn found_stations(
    stations: Seq<StationView>,
    search: Seq<char>,
    route: Seq<char>,
    multi_only: bool,
    n: nat,
) -> Seq<nat>
    decreases n,
{
    if n == 0 || n > stations.len() {
        Seq::empty()
    } else {
        let before = found_stations(stations, search, route, multi_only, (n - 1) as nat);
        if found_by(stations[n - 1], search, route, multi_only) {
            before.push((n - 1) as nat)
        } else {
            before
        }
    }
}

/// The places of the found stations, as values.
pub open spec fn places_view(places: Seq<usize>) -> Seq<nat> {
    Seq::new(places.len(), |i: int| places[i] as nat)
}

/// Whether a word of a request means yes: it is `true`, in whatever
/// case.
pub open spec fn means_yes(word: Seq<char>) -> bool {
    lowercase_spec(word) == "true"@
}

/// The places, in the list of stations, of the stations that a request
/// finds. The searched text is compared in lower case; only stations of
/// more than one platform are found where the request says `true` to
/// that.
pub open spec fn requested_stations(
    stations: Seq<StationView>,
    search: Seq<char>,
    route: Seq<char>,
    multi_platform_only: Seq<char>,
) -> Seq<nat> {
    found_stations(
        stations,
        lowercase_spec(search),
        route,
        means_yes(multi_platform_only),
        stations.len(),
    )
}

/// The places, in the list of stations, of the stations that a request
/// finds.
pub fn search_stations(
    stations: &Vec<Station>,
    search: &str,
    route: &str,
    multi_platform_only: &str,
) -> (places: Vec<usize>)
    ensures
        places_view(places@) == requested_stations(
            stations_view(stations@),
            search@,
            route@,
            multi_platform_only@,
        ),
        forall|k: int| 0 <= k < places@.len() ==> (#[trigger] places@[k]) < stations@.len(),
{
    let lowered = to_lowercase(search);
    let word = to_lowercase(multi_platform_only);
    let multi_only = str_eq(word.as_str(), "true");
    let ghost all = stations_view(stations@);
    let mut places: Vec<usize> = Vec::new();
    let mut i: usize = 0;
    assert(places_view(places@) =~= Seq::<nat>::empty());
    while i < stations.len()
        invariant
            i <= stations@.len(),
            all == stations_view(stations@),
            places_view(places@) == found_stations(all, lowered@, route@, multi_only, i as nat),
            forall|k: int| 0 <= k < places@.len() ==> (#[trigger] places@[k]) < i,
        decreases stations@.len() - i,
    {
        assert(all[i as int] == stations@[i as int]@);
        let ghost before = places_view(places@);
        if station_matches(&stations[i], lowered.as_str(), route, multi_only) {
            places.push(i);
            assert(places_view(places@) =~= before.push(i as nat));
        }
        i += 1;
    }
    places
}

} // verus!
