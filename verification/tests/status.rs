use subway_sign::stations::{Station, StationDb};
use subway_sign::status::{
    determine_station_name, health, leads_out, mime_for_path, search_stations, station_matches,
};

fn texts(items: &[&str]) -> Vec<String> {
    items.iter().map(|s| s.to_string()).collect()
}

fn station(name: &str, stop_ids: &[&str], routes: &[&str], platforms: u32) -> Station {
    Station {
        name: name.to_string(),
        stop_ids: texts(stop_ids),
        routes: texts(routes),
        borough: "Manhattan".to_string(),
        platform_count: platforms,
    }
}

fn sample_stations() -> Vec<Station> {
    vec![
        station("Times Sq-42 St", &["127N", "127S", "725N", "725S"], &["1", "2", "3", "7"], 4),
        station("103 St", &["119N", "119S"], &["1"], 1),
        station("Grand Central-42 St", &["631N", "631S"], &["4", "5", "6", "7"], 3),
        station("1 Av", &["L06N", "L06S"], &["L"], 1),
    ]
}

fn pair(up: &str, down: &str) -> (String, String) {
    (up.to_string(), down.to_string())
}

#[test]
fn the_content_type_follows_the_extension() {
    assert_eq!(mime_for_path("templates/index.html"), "text/html; charset=utf-8");
    assert_eq!(mime_for_path("static/css/style.css"), "text/css; charset=utf-8");
    assert_eq!(mime_for_path("app.min.js"), "application/javascript; charset=utf-8");
    assert_eq!(mime_for_path("data.json"), "application/json");
    assert_eq!(mime_for_path("icon.png"), "image/png");
    assert_eq!(mime_for_path("favicon.ico"), "image/x-icon");
    assert_eq!(mime_for_path("logo.svg"), "image/svg+xml");
    assert_eq!(mime_for_path("site.webmanifest"), "application/manifest+json");
    assert_eq!(mime_for_path("app.manifest"), "application/manifest+json");
    assert_eq!(mime_for_path("archive.tar.gz"), "application/octet-stream");
}

#[test]
fn the_extension_is_what_follows_the_last_dot() {
    assert_eq!(mime_for_path("html"), "text/html; charset=utf-8");
    assert_eq!(mime_for_path(".css"), "text/css; charset=utf-8");
    assert_eq!(mime_for_path("page.html."), "application/octet-stream");
    assert_eq!(mime_for_path("page.HTML"), "application/octet-stream");
    assert_eq!(mime_for_path("a.png.js"), "application/javascript; charset=utf-8");
    assert_eq!(mime_for_path("dir.d/readme"), "application/octet-stream");
    assert_eq!(mime_for_path(""), "application/octet-stream");
    assert_eq!(mime_for_path("é.svg"), "image/svg+xml");
}

#[test]
fn a_fresh_sign_is_healthy() {
    let h = health(1_000, 990, 999, 20);
    assert!(h.ok);
    assert_eq!(h.age_seconds, 10);
    assert_eq!(h.render_age_seconds, 1);
    assert!(!h.degraded);
    assert_eq!(h.reason, None);
    let edge = health(1_000, 940, 990, 20);
    assert!(edge.ok);
    assert_eq!(edge.age_seconds, 60);
    assert_eq!(edge.render_age_seconds, 10);
    assert_eq!(edge.reason, None);
}

#[test]
fn stale_data_degrades_the_sign() {
    let h = health(1_000, 939, 1_000, 20);
    assert!(!h.ok);
    assert!(h.degraded);
    assert_eq!(h.age_seconds, 61);
    assert_eq!(h.reason, Some("fetch stale 61s".to_string()));
}

#[test]
fn a_stale_renderer_is_not_a_degraded_but_a_dead_sign() {
    let h = health(1_000, 1_000, 989, 20);
    assert!(!h.ok);
    assert!(!h.degraded);
    assert_eq!(h.render_age_seconds, 11);
    assert_eq!(h.reason, Some("render stale 11s".to_string()));
    let both = health(5_000, 0, 1_000, 0);
    assert!(!both.ok);
    assert!(!both.degraded);
    assert_eq!(both.reason, Some("fetch stale 5000s, render stale 4000s".to_string()));
}

#[test]
fn the_station_of_the_sign_is_named_by_its_first_platform() {
    let db = StationDb::new(sample_stations());
    assert_eq!(determine_station_name(&Vec::new(), &db), "Not configured");
    assert_eq!(
        determine_station_name(&vec![pair("725N", "725S"), pair("119N", "119S")], &db),
        "Times Sq-42 St"
    );
    assert_eq!(determine_station_name(&vec![pair("119", "x")], &db), "103 St");
    assert_eq!(
        determine_station_name(&vec![pair("Z99N", "Z99S"), pair("119N", "119S")], &db),
        "2 platforms configured"
    );
    assert_eq!(determine_station_name(&vec![pair("Z99N", "Z99S")], &db), "1 platforms configured");
}

#[test]
fn a_search_finds_by_name_route_and_platforms() {
    let all = sample_stations();
    assert!(station_matches(&all[0], "", "", false));
    assert!(station_matches(&all[0], "times", "", false));
    assert!(!station_matches(&all[0], "Times", "", false));
    assert!(station_matches(&all[0], "42", "7", true));
    assert!(!station_matches(&all[0], "42", "L", false));
    assert!(!station_matches(&all[1], "", "", true));
    assert!(station_matches(&all[1], "", "1", false));
    assert!(!station_matches(&all[1], "", "", true));
}

#[test]
fn a_request_is_searched_in_lower_case() {
    let all = sample_stations();
    assert_eq!(search_stations(&all, "", "", ""), vec![0, 1, 2, 3]);
    assert_eq!(search_stations(&all, "42 ST", "", ""), vec![0, 2]);
    assert_eq!(search_stations(&all, "St", "1", ""), vec![0, 1]);
    assert_eq!(search_stations(&all, "", "7", "TRUE"), vec![0, 2]);
    assert_eq!(search_stations(&all, "", "", "true"), vec![0, 2]);
    assert_eq!(search_stations(&all, "", "", "yes"), vec![0, 1, 2, 3]);
    assert_eq!(search_stations(&all, "bronx", "", ""), Vec::<usize>::new());
    assert_eq!(search_stations(&Vec::new(), "", "", ""), Vec::<usize>::new());
}

#[test]
fn a_path_with_a_step_up_leads_out() {
    assert!(leads_out(".."));
    assert!(leads_out("../secret"));
    assert!(leads_out("static/../../etc/passwd"));
    assert!(leads_out("static/.."));
    assert!(leads_out("/.."));
    assert!(leads_out("a//../b"));
}

#[test]
fn dots_in_names_lead_nowhere() {
    assert!(!leads_out(""));
    assert!(!leads_out("."));
    assert!(!leads_out("static/css/style.css"));
    assert!(!leads_out("a..b"));
    assert!(!leads_out("..."));
    assert!(!leads_out("..a/b"));
    assert!(!leads_out("a../b"));
    assert!(!leads_out("a/...b"));
    assert!(!leads_out("./a/./b"));
    assert!(!leads_out("é/..é"));
}
