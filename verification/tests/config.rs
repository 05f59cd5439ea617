use subway_sign::config::{
    check_limits, default_alerts_interval, default_trains_interval, resolve_station,
    station_section, ConfigError, RefreshConfig, StationSection,
};
use subway_sign::stations::{Station, StationDb};
use subway_sign::framebuffer::FrameBuffer;
use subway_sign::matrix::{create_display, DisplayTarget, MockDisplay};

#[test]
fn refresh_defaults_are_twenty_and_sixty_seconds() {
    assert_eq!(default_trains_interval(), 20);
    assert_eq!(default_alerts_interval(), 60);
    assert_eq!(
        RefreshConfig::default(),
        RefreshConfig { trains_interval: 20, alerts_interval: 60 }
    );
}

#[test]
fn each_config_error_has_its_message() {
    assert_eq!(ConfigError::Io("disk".to_string()).message(), "Config I/O error: disk");
    assert_eq!(ConfigError::Parse("eof".to_string()).message(), "Config parse error: eof");
    assert_eq!(
        ConfigError::Validation("routes cannot be empty".to_string()).message(),
        "Config validation error: routes cannot be empty"
    );
    assert_eq!(
        ConfigError::StationNotFound("Nowhere".to_string()).message(),
        "Station 'Nowhere' not found in database"
    );
}

#[test]
fn mock_display_takes_frames_and_brightness() {
    let mut display = create_display(50);
    let frame = FrameBuffer::new();
    display.swap(&frame);
    display.set_brightness(100);
    let mut mock = MockDisplay::new(1);
    mock.swap(&frame);
    mock.set_brightness(0);
    assert!(frame.raw_pixels().iter().all(|&b| b == 0));
}

fn texts(items: &[&str]) -> Vec<String> {
    items.iter().map(|s| s.to_string()).collect()
}

fn sample_db() -> StationDb {
    StationDb::new(vec![
        Station {
            name: "Times Sq-42 St".to_string(),
            stop_ids: texts(&["127N", "127S", "725N", "725S", "902"]),
            routes: texts(&["1", "2", "3", "7", "N", "Q", "R", "W", "S"]),
            borough: "Manhattan".to_string(),
            platform_count: 5,
        },
        Station {
            name: "Court Sq".to_string(),
            stop_ids: texts(&["G22"]),
            routes: texts(&["G"]),
            borough: "Queens".to_string(),
            platform_count: 1,
        },
    ])
}

fn empty_section() -> StationSection {
    StationSection {
        station_name: None,
        routes: None,
        stations: None,
        uptown_stop_id: None,
        downtown_stop_id: None,
    }
}

fn pair(up: &str, down: &str) -> (String, String) {
    (up.to_string(), down.to_string())
}

#[test]
fn test_load_station_name_format() {
    let section = StationSection {
        station_name: Some("Times Sq-42 St".to_string()),
        routes: Some(texts(&["1", "2", "3", "7", "N", "Q", "R", "W", "S"])),
        ..empty_section()
    };
    let (stops, routes) =
        resolve_station(&section, &sample_db()).expect("should parse station_name format");
    assert!(!stops.is_empty());
    assert!(routes.contains(&"1".to_string()));
    assert!(check_limits(7, routes.len(), stops.len()).is_ok());
}

#[test]
fn test_load_stations_array_format() {
    let section = StationSection {
        stations: Some(vec![pair("127N", "127S"), pair("725N", "725S")]),
        routes: Some(texts(&["1", "2", "3"])),
        ..empty_section()
    };
    let (stops, _routes) =
        resolve_station(&section, &sample_db()).expect("should parse stations array format");
    assert_eq!(stops.len(), 2);
    assert_eq!(stops[0].0, "127N");
}

#[test]
fn test_load_legacy_format() {
    let section = StationSection {
        uptown_stop_id: Some("127N".to_string()),
        downtown_stop_id: Some("127S".to_string()),
        routes: Some(texts(&["1", "2", "3"])),
        ..empty_section()
    };
    let (stops, _routes) =
        resolve_station(&section, &sample_db()).expect("should parse legacy format");
    assert_eq!(stops.len(), 1);
    assert_eq!(stops[0], ("127N".to_string(), "127S".to_string()));
}

#[test]
fn test_validation_max_trains_zero() {
    let err = check_limits(0, 1, 1).unwrap_err();
    assert!(err.message().contains("max_trains"));
}

#[test]
fn test_validation_empty_routes() {
    let section = StationSection {
        stations: Some(vec![pair("127N", "127S")]),
        routes: Some(Vec::new()),
        ..empty_section()
    };
    let (stops, routes) = resolve_station(&section, &sample_db()).unwrap();
    let err = check_limits(7, routes.len(), stops.len()).unwrap_err();
    assert!(err.message().contains("routes"));
}

#[test]
fn test_missing_station_config() {
    let err = resolve_station(&empty_section(), &sample_db()).unwrap_err();
    assert!(err.message().contains("missing station"));
}

#[test]
fn test_unknown_station_name() {
    let section = StationSection {
        station_name: Some("Totally Fake Station XYZ 999".to_string()),
        routes: Some(texts(&["1"])),
        ..empty_section()
    };
    let err = resolve_station(&section, &sample_db()).unwrap_err();
    assert!(err.message().contains("not found"));
}

#[test]
fn test_auto_detect_routes() {
    let section =
        StationSection { station_name: Some("Times Sq-42 St".to_string()), ..empty_section() };
    let (_stops, routes) = resolve_station(&section, &sample_db()).unwrap();
    assert!(!routes.is_empty(), "should auto-detect routes");
}

#[test]
fn a_named_station_gives_its_platform_pairs_and_routes() {
    let section =
        StationSection { station_name: Some("times sq-42 st".to_string()), ..empty_section() };
    let (stops, routes) = resolve_station(&section, &sample_db()).unwrap();
    assert_eq!(stops, vec![pair("127N", "127S"), pair("725N", "725S")]);
    assert_eq!(routes, texts(&["1", "2", "3", "7", "N", "Q", "R", "W", "S"]));
}

#[test]
fn an_empty_list_of_routes_gives_way_to_the_routes_of_the_station() {
    let section = StationSection {
        station_name: Some("Court Sq".to_string()),
        routes: Some(Vec::new()),
        ..empty_section()
    };
    let (stops, routes) = resolve_station(&section, &sample_db()).unwrap();
    assert!(stops.is_empty());
    assert_eq!(routes, texts(&["G"]));
    assert_eq!(broken(7, routes.len(), stops.len()), "station_stops cannot be empty");
    let chosen = StationSection {
        station_name: Some("Court Sq".to_string()),
        routes: Some(texts(&["7"])),
        ..empty_section()
    };
    assert_eq!(resolve_station(&chosen, &sample_db()).unwrap().1, texts(&["7"]));
}

#[test]
fn the_station_name_goes_before_the_other_forms() {
    let section = StationSection {
        station_name: Some(String::new()),
        routes: Some(texts(&["1"])),
        stations: Some(vec![pair("127N", "127S")]),
        uptown_stop_id: Some("127N".to_string()),
        downtown_stop_id: Some("127S".to_string()),
    };
    match resolve_station(&section, &sample_db()) {
        Err(ConfigError::Validation(m)) => assert_eq!(m, "station_name is empty"),
        other => panic!("{:?}", other),
    }
    let unknown = StationSection { station_name: Some("Nowhere".to_string()), ..section };
    match resolve_station(&unknown, &sample_db()) {
        Err(ConfigError::StationNotFound(m)) => assert_eq!(m, "Nowhere"),
        other => panic!("{:?}", other),
    }
}

#[test]
fn the_list_of_pairs_goes_before_the_single_pair() {
    let section = StationSection {
        stations: Some(Vec::new()),
        uptown_stop_id: Some("127N".to_string()),
        downtown_stop_id: Some("127S".to_string()),
        ..empty_section()
    };
    let (stops, routes) = resolve_station(&section, &sample_db()).unwrap();
    assert!(stops.is_empty());
    assert!(routes.is_empty());
}

#[test]
fn half_a_pair_is_no_station() {
    let section = StationSection { uptown_stop_id: Some("127N".to_string()), ..empty_section() };
    match resolve_station(&section, &sample_db()) {
        Err(ConfigError::Validation(m)) => assert_eq!(
            m,
            "Config missing station configuration (station_name, stations, or uptown_stop_id/downtown_stop_id)"
        ),
        other => panic!("{:?}", other),
    }
}

#[test]
fn limits_name_the_first_rule_that_is_broken() {
    assert!(check_limits(1, 1, 1).is_ok());
    assert!(check_limits(20, 3, 2).is_ok());
    assert_eq!(broken(21, 0, 0), "max_trains must be 1-20, got 21");
    assert_eq!(broken(0, 1, 1), "max_trains must be 1-20, got 0");
    assert_eq!(broken(4294967295, 1, 1), "max_trains must be 1-20, got 4294967295");
    assert_eq!(broken(7, 0, 0), "routes cannot be empty");
    assert_eq!(broken(7, 2, 0), "station_stops cannot be empty");
}

fn broken(max_trains: u32, routes: usize, stops: usize) -> String {
    match check_limits(max_trains, routes, stops) {
        Err(ConfigError::Validation(m)) => m,
        other => panic!("{:?}", other),
    }
}

#[test]
fn one_pair_is_written_down_as_two_stop_ids() {
    let section = station_section(&vec![pair("127N", "127S")], &texts(&["1", "2"]));
    assert_eq!(section.station_name, None);
    assert_eq!(section.stations, None);
    assert_eq!(section.uptown_stop_id, Some("127N".to_string()));
    assert_eq!(section.downtown_stop_id, Some("127S".to_string()));
    assert_eq!(section.routes, Some(texts(&["1", "2"])));
}

#[test]
fn other_numbers_of_pairs_are_written_down_as_a_list() {
    let pairs = vec![pair("127N", "127S"), pair("725N", "725S")];
    let section = station_section(&pairs, &texts(&["7"]));
    assert_eq!(section.station_name, None);
    assert_eq!(section.stations, Some(pairs));
    assert_eq!(section.uptown_stop_id, None);
    assert_eq!(section.downtown_stop_id, None);
    let none = station_section(&Vec::new(), &Vec::new());
    assert_eq!(none.stations, Some(Vec::new()));
    assert_eq!(none.routes, Some(Vec::new()));
}

#[test]
fn what_is_written_down_reads_back() {
    for pairs in [
        Vec::new(),
        vec![pair("127N", "127S")],
        vec![pair("127N", "127S"), pair("725N", "725S"), pair("R16N", "R16S")],
    ] {
        let routes = texts(&["N", "Q"]);
        let section = station_section(&pairs, &routes);
        let (stops, read_routes) = resolve_station(&section, &sample_db()).unwrap();
        assert_eq!(stops, pairs);
        assert_eq!(read_routes, routes);
    }
}

#[test]
fn test_refresh_defaults() {
    let refresh = RefreshConfig::default();
    assert_eq!(refresh.trains_interval, 20);
    assert_eq!(refresh.alerts_interval, 60);
}
