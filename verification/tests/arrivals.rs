use subway_sign::arrivals::{backoff_seconds, deduplicate_trains, detect_express};
use subway_sign::models::{Direction, Train};

fn train(route: &str, dest: &str, minutes: i32, stop_id: &str) -> Train {
    Train {
        route: route.into(),
        destination: dest.into(),
        minutes,
        is_express: false,
        arrival_timestamp: 1000,
        direction: Direction::Uptown,
        stop_id: stop_id.into(),
    }
}

#[test]
fn test_deduplicate_trains() {
    let trains = vec![
        train("1", "Uptown", 3, "127N"),
        train("1", "Uptown", 3, "127N"),
        Train {
            route: "2".into(),
            destination: "Downtown".into(),
            minutes: 5,
            is_express: false,
            arrival_timestamp: 1120,
            direction: Direction::Downtown,
            stop_id: "127S".into(),
        },
    ];
    let unique = deduplicate_trains(trains);
    assert_eq!(unique.len(), 2);
}

#[test]
fn test_detect_express() {
    assert!(detect_express(Some("123_X"), "2"));
    assert!(!detect_express(Some("123"), "2"));
    // Non-express-capable route
    assert!(!detect_express(Some("123_X"), "1"));
}

#[test]
fn express_needs_a_trip_id_that_ends_in_x() {
    assert!(!detect_express(None, "2"));
    assert!(!detect_express(Some(""), "2"));
    assert!(!detect_express(Some("123_x"), "2"));
    assert!(!detect_express(Some("X123"), "2"));
    assert!(detect_express(Some("X"), "A"));
    assert!(detect_express(Some("\u{00E9}X"), "7"));
    assert!(!detect_express(Some("X\u{00E9}"), "7"));
}

#[test]
fn deduplication_keeps_the_first_of_each_kind() {
    let trains = vec![
        train("1", "Uptown", 3, "first"),
        train("1", "Uptown", 4, "second"),
        train("1", "Uptown", 3, "third"),
        train("2", "Uptown", 3, "fourth"),
        train("1", "Downtown", 3, "fifth"),
        train("1", "Uptown", 4, "sixth"),
    ];
    let unique = deduplicate_trains(trains);
    let kept: Vec<&str> = unique.iter().map(|t| t.stop_id.as_str()).collect();
    assert_eq!(kept, vec!["first", "second", "fourth", "fifth"]);
    assert!(deduplicate_trains(Vec::new()).is_empty());
}

#[test]
fn backoff_doubles_up_to_five_minutes() {
    let expected = [(1, 15), (2, 30), (3, 60), (4, 120), (5, 240), (6, 300), (7, 300)];
    for (failures, secs) in expected {
        assert_eq!(backoff_seconds(failures), secs);
    }
    assert_eq!(backoff_seconds(0), 15);
    assert_eq!(backoff_seconds(u32::MAX), 300);
}
