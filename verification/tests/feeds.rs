use subway_sign::feeds::{
    feed_id_for_route, feed_url_for_route, feed_urls_for_routes, MTA_FEED_BASE_URL,
};

#[test]
fn test_feed_id_for_known_routes() {
    assert_eq!(feed_id_for_route("1"), Some(""));
    assert_eq!(feed_id_for_route("A"), Some("-ace"));
    assert_eq!(feed_id_for_route("N"), Some("-nqrw"));
    assert_eq!(feed_id_for_route("L"), Some("-l"));
    assert_eq!(feed_id_for_route("7"), Some("-7"));
}

#[test]
fn test_feed_id_for_unknown_route() {
    assert_eq!(feed_id_for_route("X"), None);
}

#[test]
fn test_feed_urls_deduplication() {
    let routes: Vec<String> = vec!["1".into(), "2".into(), "3".into(), "A".into()];
    let urls = feed_urls_for_routes(&routes);
    // 1, 2, 3 share the same feed; A is separate
    assert_eq!(urls.len(), 2);
}

#[test]
fn every_route_has_its_feed() {
    let table = [
        ("", vec!["1", "2", "3", "4", "5", "6", "GS"]),
        ("-ace", vec!["A", "C", "E"]),
        ("-bdfm", vec!["B", "D", "F", "M"]),
        ("-g", vec!["G"]),
        ("-jz", vec!["J", "Z"]),
        ("-nqrw", vec!["N", "Q", "R", "W"]),
        ("-l", vec!["L"]),
        ("-7", vec!["7"]),
        ("-si", vec!["SI", "SIR"]),
    ];
    for (suffix, routes) in table {
        for route in routes {
            assert_eq!(feed_id_for_route(route), Some(suffix), "route {}", route);
            assert_eq!(
                feed_url_for_route(route),
                Some(format!("{}{}", MTA_FEED_BASE_URL, suffix)),
                "route {}",
                route
            );
        }
    }
    for route in ["", "a", "8", "S", "GS ", "X"] {
        assert_eq!(feed_id_for_route(route), None);
        assert_eq!(feed_url_for_route(route), None);
    }
}

#[test]
fn feed_urls_come_in_the_order_of_the_routes() {
    let routes: Vec<String> =
        ["N", "X", "1", "Q", "A", "6", "C", "7"].iter().map(|s| s.to_string()).collect();
    let urls = feed_urls_for_routes(&routes);
    let base = MTA_FEED_BASE_URL;
    assert_eq!(
        urls,
        vec![
            format!("{}-nqrw", base),
            base.to_string(),
            format!("{}-ace", base),
            format!("{}-7", base),
        ]
    );
    assert!(feed_urls_for_routes(&[]).is_empty());
    assert!(feed_urls_for_routes(&["?".to_string()]).is_empty());
}
