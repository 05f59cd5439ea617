use subway_sign::stations::{
    find_similar_stations, get_routes_for_station, get_stop_ids_for_station,
    normalize_station_name, station_name_for_stop_id, Station, StationDb,
};
use subway_sign::strings::{replace, replace_pattern};

fn texts(items: &[&str]) -> Vec<String> {
    items.iter().map(|s| s.to_string()).collect()
}

fn station(name: &str, stop_ids: &[&str], routes: &[&str], borough: &str) -> Station {
    Station {
        name: name.to_string(),
        stop_ids: texts(stop_ids),
        routes: texts(routes),
        borough: borough.to_string(),
        platform_count: stop_ids.len() as u32,
    }
}

fn sample_stations() -> Vec<Station> {
    vec![
        station(
            "Times Sq-42 St",
            &["127N", "127S", "725N", "725S", "R16N", "R16S", "902N", "902S"],
            &["1", "2", "3", "7", "N", "Q", "R", "W", "S"],
            "Manhattan",
        ),
        station(
            "14 St-Union Sq",
            &["635N", "635S", "L03N", "L03S", "R20N", "R20S"],
            &["4", "5", "6", "L", "N", "Q", "R", "W"],
            "Manhattan",
        ),
        station("103 St", &["119N", "119S"], &["1"], "Manhattan"),
        station("103 St", &["624N", "624S"], &["6"], "Manhattan"),
        station(
            "Grand Central-42 St",
            &["631N", "631S", "723N", "723S", "901N", "901S"],
            &["4", "5", "6", "7", "S"],
            "Manhattan",
        ),
        station("42 St-Port Authority Bus Terminal", &["A27N", "A27S"], &["A", "C", "E"], "Manhattan"),
        station("1 Av", &["L06N", "L06S"], &["L"], "Manhattan"),
        station("Court Sq", &["719N", "719S", "G22"], &["7", "G"], "Queens"),
    ]
}

fn sample_db() -> StationDb {
    StationDb::new(sample_stations())
}

#[test]
fn test_normalize_station_name() {
    assert_eq!(normalize_station_name("42nd Street"), "42 st");
    assert_eq!(normalize_station_name("Times Sq - 42 St"), "times sq-42 st");
    assert_eq!(normalize_station_name("1st Avenue"), "1 av");
    assert_eq!(normalize_station_name("  103 St  "), "103 st");
}

#[test]
fn test_station_db_loads() {
    let db = sample_db();
    let all = db.stations();
    assert!(!all.is_empty(), "station database should have entries");
    let has_times_sq = all.iter().any(|s| s.name.contains("Times Sq"));
    assert!(has_times_sq, "should contain Times Sq");
}

#[test]
fn test_exact_lookup() {
    let db = sample_db();
    let ids = get_stop_ids_for_station(&db, "Times Sq-42 St");
    assert!(!ids.is_empty(), "Times Sq-42 St should have stop IDs");
}

#[test]
fn test_fuzzy_lookup() {
    let db = sample_db();
    let ids = get_stop_ids_for_station(&db, "times square 42 street");
    assert!(!ids.is_empty(), "fuzzy match should find Times Sq-42 St");
}

#[test]
fn test_unknown_station() {
    let db = sample_db();
    let ids = get_stop_ids_for_station(&db, "Nonexistent Station XYZ");
    assert!(ids.is_empty());
}

#[test]
fn test_find_similar_stations() {
    let db = sample_db();
    let results = find_similar_stations(&db, "42", 5);
    assert!(!results.is_empty(), "should find stations containing '42'");
    assert!(results.len() <= 5);
}

#[test]
fn test_get_routes_for_station() {
    let db = sample_db();
    let routes = get_routes_for_station(&db, "Times Sq-42 St");
    assert!(!routes.is_empty(), "Times Sq should have routes");
}

#[test]
fn test_empty_query() {
    let db = sample_db();
    assert!(get_stop_ids_for_station(&db, "").is_empty());
}

#[test]
fn exact_lookup_gives_the_stops_of_the_station() {
    let db = sample_db();
    assert_eq!(
        get_stop_ids_for_station(&db, "Times Sq-42 St"),
        texts(&["127N", "127S", "725N", "725S", "R16N", "R16S", "902N", "902S"])
    );
    assert_eq!(get_stop_ids_for_station(&db, "1 Av"), texts(&["L06N", "L06S"]));
}

#[test]
fn lookup_ignores_case_and_outer_blanks() {
    let db = sample_db();
    assert_eq!(get_stop_ids_for_station(&db, "  TIMES SQ-42 ST "), get_stop_ids_for_station(&db, "Times Sq-42 St"));
    assert_eq!(get_stop_ids_for_station(&db, "court sq"), texts(&["719N", "719S", "G22"]));
}

#[test]
fn lookup_closes_blanks_around_dashes() {
    let db = sample_db();
    assert_eq!(
        get_stop_ids_for_station(&db, "14 St - Union Sq"),
        texts(&["635N", "635S", "L03N", "L03S", "R20N", "R20S"])
    );
}

#[test]
fn lookup_takes_long_forms_and_ordinals() {
    let db = sample_db();
    assert_eq!(get_stop_ids_for_station(&db, "1st Avenue"), texts(&["L06N", "L06S"]));
    assert_eq!(get_stop_ids_for_station(&db, "Court Square"), texts(&["719N", "719S", "G22"]));
}

#[test]
fn lookup_by_containment_finds_the_first_related_name() {
    let db = sample_db();
    assert_eq!(
        get_stop_ids_for_station(&db, "times square 42 street"),
        get_stop_ids_for_station(&db, "Times Sq-42 St")
    );
    assert_eq!(
        get_stop_ids_for_station(&db, "Port Authority"),
        texts(&["A27N", "A27S"])
    );
}

#[test]
fn of_two_stations_of_one_name_the_later_is_found_by_name() {
    let db = sample_db();
    assert_eq!(get_stop_ids_for_station(&db, "103 St"), texts(&["624N", "624S"]));
    assert_eq!(get_routes_for_station(&db, "103 St"), texts(&["1"]));
}

#[test]
fn routes_are_found_by_name_whatever_its_case() {
    let db = sample_db();
    assert_eq!(get_routes_for_station(&db, "GRAND CENTRAL-42 ST"), texts(&["4", "5", "6", "7", "S"]));
    assert!(get_routes_for_station(&db, "Grand Central").is_empty());
    assert!(get_routes_for_station(&db, "").is_empty());
}

#[test]
fn a_stop_leads_back_to_its_station() {
    let db = sample_db();
    assert_eq!(station_name_for_stop_id(&db, "127N"), Some("Times Sq-42 St"));
    assert_eq!(station_name_for_stop_id(&db, "127S"), Some("Times Sq-42 St"));
    assert_eq!(station_name_for_stop_id(&db, "127"), Some("Times Sq-42 St"));
    assert_eq!(station_name_for_stop_id(&db, "L06SNS"), Some("1 Av"));
    assert_eq!(station_name_for_stop_id(&db, "G22"), Some("Court Sq"));
    assert_eq!(station_name_for_stop_id(&db, "624S"), Some("103 St"));
    assert_eq!(station_name_for_stop_id(&db, "999N"), None);
    assert_eq!(station_name_for_stop_id(&db, "N127"), None);
}

#[test]
fn similar_stations_come_best_first() {
    let db = sample_db();
    assert_eq!(
        find_similar_stations(&db, "42 st", 10),
        texts(&[
            "Times Sq-42 St",
            "103 St",
            "Grand Central-42 St",
            "42 St-Port Authority Bus Terminal",
            "14 St-Union Sq",
        ])
    );
    assert_eq!(
        find_similar_stations(&db, "42 st", 3),
        texts(&["Times Sq-42 St", "103 St", "Grand Central-42 St"])
    );
    assert!(find_similar_stations(&db, "42 st", 0).is_empty());
}

#[test]
fn a_fifth_of_the_words_is_not_enough() {
    let db = sample_db();
    assert_eq!(
        find_similar_stations(&db, "42", 5),
        texts(&["Times Sq-42 St", "Grand Central-42 St"])
    );
    assert_eq!(
        find_similar_stations(&db, "bus a b c d", 5),
        Vec::<String>::new()
    );
    assert_eq!(
        find_similar_stations(&db, "bus terminal", 5),
        texts(&["42 St-Port Authority Bus Terminal"])
    );
}

#[test]
fn similar_stations_of_nothing_are_none() {
    let db = sample_db();
    assert!(find_similar_stations(&db, "", 5).is_empty());
    assert!(find_similar_stations(&db, "   ", 5).is_empty());
    assert!(find_similar_stations(&db, "Bronx Zoo", 5).is_empty());
    let empty = StationDb::new(Vec::new());
    assert!(find_similar_stations(&empty, "42", 5).is_empty());
    assert!(get_stop_ids_for_station(&empty, "42").is_empty());
    assert_eq!(station_name_for_stop_id(&empty, "127N"), None);
}

#[test]
fn repeated_words_count_once() {
    let db = sample_db();
    assert_eq!(find_similar_stations(&db, "av av av av av av 1", 5), texts(&["1 Av"]));
}

#[test]
fn replace_goes_from_left_to_right_without_overlap() {
    assert_eq!(replace("aaa", "aa", "b"), "ba");
    assert_eq!(replace("street street", "street", "st"), "st st");
    assert_eq!(replace("a-b-c", "-", " "), "a b c");
    assert_eq!(replace("abc", "", "x"), "abc");
    assert_eq!(replace("", "a", "x"), "");
    assert_eq!(replace("abc", "abcd", "x"), "abc");
}

#[test]
fn replace_pattern_puts_groups_in_and_keeps_text_for_a_bad_pattern() {
    assert_eq!(replace_pattern(r"(\d+)(st|nd|rd|th)\b", "42nd and 3rd", "$1"), "42 and 3");
    assert_eq!(replace_pattern(r"\s+", "a   b \t c", " "), "a b c");
    assert_eq!(replace_pattern(r"(", "a(b", "x"), "a(b");
}
