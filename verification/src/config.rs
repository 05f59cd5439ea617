//! The rules of the configuration: where the station comes from, and what
//! values are allowed.

use vstd::prelude::*;
use vstd::string::*;
use crate::models::{
    clone_strings, station_stops, stop_ids_to_station_stops, stops_view, strings_view, StationStop,
};
use crate::stations::{get_routes_for_station, get_stop_ids_for_station, DbView, StationDb};
use crate::text::{decimal_chars, push_decimal};

verus! {

/// Seconds between two fetches of the arrivals where the configuration
/// names none.
pub const DEFAULT_TRAINS_INTERVAL: u64 = 20;

/// Seconds between two fetches of the alerts where the configuration names
/// none.
pub const DEFAULT_ALERTS_INTERVAL: u64 = 60;

/// How often the data is fetched, in seconds.
#[derive(Debug, Clone, Copy, PartialEq, Eq, Structural)]
pub struct RefreshConfig {
    pub trains_interval: u64,
    pub alerts_interval: u64,
}

/// Seconds between two fetches of the trains where none are configured.
pub fn default_trains_interval() -> (secs: u64)
    ensures
        secs == 20,
{
    DEFAULT_TRAINS_INTERVAL
}

/// Seconds between two fetches of the alerts where none are configured.
pub fn default_alerts_interval() -> (secs: u64)
    ensures
        secs == 60,
{
    DEFAULT_ALERTS_INTERVAL
}

impl Default for RefreshConfig {
    fn default() -> (config: RefreshConfig)
        ensures
            config == (RefreshConfig { trains_interval: 20, alerts_interval: 60 }),
    {
        RefreshConfig {
            trains_interval: default_trains_interval(),
            alerts_interval: default_alerts_interval(),
        }
    }
}

/// Why a configuration could not be had.
#[derive(Debug)]
pub enum ConfigError {
    /// The file could not be read or written.
    Io(String),
    /// The file is no valid configuration text.
    Parse(String),
    /// A value is out of range or missing.
    Validation(String),
    /// The named station is not known.
    StationNotFound(String),
}

impl ConfigError {
    /// The error as a line of text.
    pub fn message(&self) -> (text: String)
        ensures
            text@ == (match *self {
                ConfigError::Io(msg) => "Config I/O error: "@ + msg@,
                ConfigError::Parse(msg) => "Config parse error: "@ + msg@,
                ConfigError::Validation(msg) => "Config validation error: "@ + msg@,
                ConfigError::StationNotFound(name) => "Station '"@ + name@
                    + "' not found in database"@,
            }),
    {
        match self {
            ConfigError::Io(msg) => {
                let mut text = String::from_str("Config I/O error: ");
                text.append(msg.as_str());
                text
            },
            ConfigError::Parse(msg) => {
                let mut text = String::from_str("Config parse error: ");
                text.append(msg.as_str());
                text
            },
            ConfigError::Validation(msg) => {
                let mut text = String::from_str("Config validation error: ");
                text.append(msg.as_str());
                text
            },
            ConfigError::StationNotFound(name) => {
                let mut text = String::from_str("Station '");
                text.append(name.as_str());
                text.append("' not found in database");
                text
            },
        }
    }
}

/// The mathematical value of a [`ConfigError`].
pub enum ConfigErrorView {
    Io(Seq<char>),
    Parse(Seq<char>),
    Validation(Seq<char>),
    StationNotFound(Seq<char>),
}

impl View for ConfigError {
    type V = ConfigErrorView;

    open spec fn view(&self) -> ConfigErrorView {
        match self {
            ConfigError::Io(m) => ConfigErrorView::Io(m@),
            ConfigError::Parse(m) => ConfigErrorView::Parse(m@),
            ConfigError::Validation(m) => ConfigErrorView::Validation(m@),
            ConfigError::StationNotFound(m) => ConfigErrorView::StationNotFound(m@),
        }
    }
}

/// The most trains that may be configured.
pub const MAX_TRAINS_LIMIT: u32 = 20;

/// The station section of the configuration file. A station is named in
/// one of three ways: by its name, by a list of platform pairs, or by the
/// stop ids of one platform pair.
#[derive(Debug)]
pub struct StationSection {
    pub station_name: Option<String>,
    pub routes: Option<Vec<String>>,
    pub stations: Option<Vec<StationStop>>,
    pub uptown_stop_id: Option<String>,
    pub downtown_stop_id: Option<String>,
}

/// The mathematical value of a [`StationSection`].
pub struct SectionView {
    pub station_name: Option<Seq<char>>,
    pub routes: Option<Seq<Seq<char>>>,
    pub stations: Option<Seq<(Seq<char>, Seq<char>)>>,
    pub uptown_stop_id: Option<Seq<char>>,
    pub downtown_stop_id: Option<Seq<char>>,
}

impl View for StationSection {
    type V = SectionView;

    open spec fn view(&self) -> SectionView {
        SectionView {
            station_name: match self.station_name {
                Some(n) => Some(n@),
                None => None,
            },
            routes: match self.routes {
                Some(r) => Some(strings_view(r@)),
                None => None,
            },
            stations: match self.stations {
                Some(p) => Some(stops_view(p@)),
                None => None,
            },
            uptown_stop_id: match self.uptown_stop_id {
                Some(u) => Some(u@),
                None => None,
            },
            downtown_stop_id: match self.downtown_stop_id {
                Some(d) => Some(d@),
                None => None,
            },
        }
    }
}

/// The routes of a section, none where it names none.
pub open spec fn section_routes(section: SectionView) -> Seq<Seq<char>> {
    match section.routes {
        Some(r) => r,
        None => Seq::empty(),
    }
}

/// The platform pairs and the routes that a station section stands for.
///
/// A station name comes first: it must not be empty and must be found in
/// the database; the platforms are those of the station, and the routes
/// those of the section, or, where it names none, those of the station.
/// Else a list of platform pairs is taken as it stands, and else one pair
/// of stop ids. A section with none of these is refused.
pub open spec fn resolved_station(section: SectionView, db: DbView) -> Result<
    (Seq<(Seq<char>, Seq<char>)>, Seq<Seq<char>>),
    ConfigErrorView,
> {
    if section.station_name is Some {
        let name = section.station_name->0;
        if name.len() == 0 {
            Err(ConfigErrorView::Validation("station_name is empty"@))
        } else if db.stop_ids_for(name).len() == 0 {
            Err(ConfigErrorView::StationNotFound(name))
        } else {
            Ok(
                (
                    station_stops(db.stop_ids_for(name)),
                    if section.routes is Some && section.routes->0.len() > 0 {
                        section.routes->0
                    } else {
                        db.routes_for(name)
                    },
                ),
            )
        }
    } else if section.stations is Some {
        Ok((section.stations->0, section_routes(section)))
    } else if section.uptown_stop_id is Some && section.downtown_stop_id is Some {
        Ok(
            (
                seq![(section.uptown_stop_id->0, section.downtown_stop_id->0)],
                section_routes(section),
            ),
        )
    } else {
        Err(
            ConfigErrorView::Validation(
                "Config missing station configuration (station_name, stations, or uptown_stop_id/downtown_stop_id)"@,
            ),
        )
    }
}

/// What the check of the limits says: the trains must be from 1 to 20,
/// and there must be a route and a platform pair. The first rule that is
/// broken is named.
pub open spec fn limits_checked(max_trains: nat, routes: nat, stops: nat) -> Result<
    (),
    ConfigErrorView,
> {
    if max_trains < 1 || max_trains > 20 {
        Err(
            ConfigErrorView::Validation(
                "max_trains must be 1-20, got "@ + decimal_chars(max_trains),
            ),
        )
    } else if routes == 0 {
        Err(ConfigErrorView::Validation("routes cannot be empty"@))
    } else if stops == 0 {
        Err(ConfigErrorView::Validation("station_stops cannot be empty"@))
    } else {
        Ok(())
    }
}

/// A copy of a list of platform pairs.
pub fn clone_stops(stops: &Vec<StationStop>) -> (copy: Vec<StationStop>)
    ensures
        stops_view(copy@) == stops_view(stops@),
{
    let mut copy: Vec<StationStop> = Vec::with_capacity(stops.len());
    let mut i: usize = 0;
    while i < stops.len()
        invariant
            i <= stops@.len(),
            copy@.len() == i,
            forall|j: int|
                0 <= j < i ==> (#[trigger] copy@[j]).0@ == stops@[j].0@ && copy@[j].1@
                    == stops@[j].1@,
        decreases stops@.len() - i,
    {
        copy.push((stops[i].0.clone(), stops[i].1.clone()));
        i += 1;
    }
    assert(stops_view(copy@) =~= stops_view(stops@));
    copy
}

/// The routes that a section names, none where it names none.
fn routes_of(section: &StationSection) -> (routes: Vec<String>)
    ensures
        strings_view(routes@) == section_routes(section@),
{
    match &section.routes {
        Some(r) => clone_strings(r),
        None => {
            let routes: Vec<String> = Vec::new();
            assert(strings_view(routes@) =~= Seq::<Seq<char>>::empty());
            routes
        },
    }
}

/// Finds the platform pairs and the routes that a station section stands
/// for.
pub fn resolve_station(section: &StationSection, db: &StationDb) -> (r: Result<
    (Vec<StationStop>, Vec<String>),
    ConfigError,
>)
    ensures
        match r {
            Ok(found) => resolved_station(section@, db@) == Ok::<
                (Seq<(Seq<char>, Seq<char>)>, Seq<Seq<char>>),
                ConfigErrorView,
            >((stops_view(found.0@), strings_view(found.1@))),
            Err(e) => resolved_station(section@, db@) == Err::<
                (Seq<(Seq<char>, Seq<char>)>, Seq<Seq<char>>),
                ConfigErrorView,
            >(e@),
        },
{
    match &section.station_name {
        Some(name) => {
            if name.as_str().unicode_len() == 0 {
                return Err(ConfigError::Validation(String::from_str("station_name is empty")));
            }
            let stop_ids = get_stop_ids_for_station(db, name.as_str());
            if stop_ids.len() == 0 {
                return Err(ConfigError::StationNotFound(name.clone()));
            }
            let stops = stop_ids_to_station_stops(stop_ids.as_slice());
            let explicit = match &section.routes {
                Some(r) => r.len() > 0,
                None => false,
            };
            let routes = if explicit {
                routes_of(section)
            } else {
                get_routes_for_station(db, name.as_str())
            };
            Ok((stops, routes))
        },
        None => {
            match &section.stations {
                Some(pairs) => Ok((clone_stops(pairs), routes_of(section))),
                None => {
                    match (&section.uptown_stop_id, &section.downtown_stop_id) {
                        (Some(up), Some(down)) => {
                            let mut stops: Vec<StationStop> = Vec::new();
                            stops.push((up.clone(), down.clone()));
                            assert(stops_view(stops@) =~= seq![(up@, down@)]);
                            Ok((stops, routes_of(section)))
                        },
                        _ => Err(
                            ConfigError::Validation(
                                String::from_str(
                                    "Config missing station configuration (station_name, stations, or uptown_stop_id/downtown_stop_id)",
                                ),
                            ),
                        ),
                    }
                },
            }
        },
    }
}

/// Checks the limits of a configuration.
pub fn check_limits(max_trains: u32, routes: usize, station_stops: usize) -> (r: Result<
    (),
    ConfigError,
>)
    ensures
        match r {
            Ok(_) => limits_checked(max_trains as nat, routes as nat, station_stops as nat)
                == Ok::<(), ConfigErrorView>(()),
            Err(e) => limits_checked(max_trains as nat, routes as nat, station_stops as nat)
                == Err::<(), ConfigErrorView>(e@),
        },
{
    if max_trains < 1 || max_trains > MAX_TRAINS_LIMIT {
        let mut message = String::from_str("max_trains must be 1-20, got ");
        push_decimal(&mut message, max_trains as u64);
        return Err(ConfigError::Validation(message));
    }
    if routes == 0 {
        return Err(ConfigError::Validation(String::from_str("routes cannot be empty")));
    }
    if station_stops == 0 {
        return Err(ConfigError::Validation(String::from_str("station_stops cannot be empty")));
    }
    Ok(())
}

/// The station section in which a configuration is written down: one
/// platform pair as a pair of stop ids, any other number of pairs as a
/// list.
pub open spec fn section_for(stops: Seq<(Seq<char>, Seq<char>)>, routes: Seq<Seq<char>>) -> SectionView {
    if stops.len() == 1 {
        SectionView {
            station_name: None,
            routes: Some(routes),
            stations: None,
            uptown_stop_id: Some(stops[0].0),
            downtown_stop_id: Some(stops[0].1),
        }
    } else {
        SectionView {
            station_name: None,
            routes: Some(routes),
            stations: Some(stops),
            uptown_stop_id: None,
            downtown_stop_id: None,
        }
    }
}

/// The station section in which a configuration is written down.
pub fn station_section(stops: &Vec<StationStop>, routes: &Vec<String>) -> (section: StationSection)
    ensures
        section@ == section_for(stops_view(stops@), strings_view(routes@)),
{
    if stops.len() == 1 {
        assert(stops_view(stops@)[0] == (stops@[0].0@, stops@[0].1@));
        StationSection {
            station_name: None,
            routes: Some(clone_strings(routes)),
            stations: None,
            uptown_stop_id: Some(stops[0].0.clone()),
            downtown_stop_id: Some(stops[0].1.clone()),
        }
    } else {
        StationSection {
            station_name: None,
            routes: Some(clone_strings(routes)),
            stations: Some(clone_stops(stops)),
            uptown_stop_id: None,
            downtown_stop_id: None,
        }
    }
}

/// A configuration that is written down and read again has the platforms
/// and routes that it had, whatever the station database holds.
pub proof fn lemma_section_reads_back(
    stops: Seq<(Seq<char>, Seq<char>)>,
    routes: Seq<Seq<char>>,
    db: DbView,
)
    ensures
        resolved_station(section_for(stops, routes), db) == Ok::<
            (Seq<(Seq<char>, Seq<char>)>, Seq<Seq<char>>),
            ConfigErrorView,
        >((stops, routes)),
{
    if stops.len() == 1 {
        assert(seq![(stops[0].0, stops[0].1)] =~= stops);
    }
}

} // verus!
