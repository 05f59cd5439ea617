use subway_sign::alert_text::{
    byte_len, find_route_tokens, parse_alert_parts, slice, AlertPart, MatchGroups, Span,
};

fn span(start: usize, end: usize) -> Option<Span> {
    Some(Span { start, end })
}

fn token(start: usize, end: usize, route: (usize, usize), marker: Option<(usize, usize)>) -> MatchGroups {
    vec![span(start, end), span(route.0, route.1), marker.map(|(s, e)| Span { start: s, end: e })]
}

fn describe(parts: &[AlertPart]) -> Vec<String> {
    parts
        .iter()
        .map(|p| match p {
            AlertPart::Text(t) => format!("text:{}", t),
            AlertPart::Icon { route, is_express } => format!("icon:{}:{}", route, is_express),
        })
        .collect()
}

#[test]
fn engine_reports_each_token_with_its_groups() {
    let found = find_route_tokens("Delays on [1] [2X] trains");
    assert_eq!(
        found,
        vec![token(10, 13, (11, 12), None), token(14, 18, (15, 16), Some((16, 17)))]
    );
}

#[test]
fn engine_finds_digits_and_upper_case_letters_only() {
    assert!(find_route_tokens("").is_empty());
    assert!(find_route_tokens("no tokens here").is_empty());
    assert!(find_route_tokens("[a] [] [1 ] [A1] [1A] [Xx1]").is_empty());
    assert_eq!(find_route_tokens("[42]"), vec![token(0, 4, (1, 3), None)]);
    assert_eq!(find_route_tokens("[GS]"), vec![token(0, 4, (1, 3), None)]);
    assert_eq!(find_route_tokens("[Ax]"), vec![token(0, 4, (1, 2), Some((2, 3)))]);
    assert_eq!(find_route_tokens("[7x][7X]").len(), 2);
    // Upper-case letters are read as one route id, a trailing X with them.
    assert_eq!(find_route_tokens("[AX]"), vec![token(0, 4, (1, 3), None)]);
    // Offsets count bytes.
    assert_eq!(find_route_tokens("\u{00E9}[1]"), vec![token(2, 5, (3, 4), None)]);
}

#[test]
fn alert_is_cut_into_text_and_icons() {
    let text = "Delays on [1] [2X] trains";
    let parts = parse_alert_parts(text, &find_route_tokens(text));
    assert_eq!(
        describe(&parts),
        vec!["text:Delays on ", "icon:1:false", "text: ", "icon:2:true", "text: trains"]
    );
}

#[test]
fn express_icon_comes_from_the_route_or_the_marker() {
    let text = "[1][1x][4][4X][A][N][Nx]";
    let parts = parse_alert_parts(text, &find_route_tokens(text));
    assert_eq!(
        describe(&parts),
        vec![
            "icon:1:false",
            "icon:1:true",
            "icon:4:true",
            "icon:4:true",
            "icon:A:true",
            "icon:N:false",
            "icon:N:true",
        ]
    );
}

#[test]
fn text_without_tokens_is_one_part() {
    let parts = parse_alert_parts("Service change", &Vec::new());
    assert_eq!(describe(&parts), vec!["text:Service change"]);
    assert!(parse_alert_parts("", &Vec::new()).is_empty());
    let accents = "caf\u{00E9} [1] th\u{00E9}";
    let parts = parse_alert_parts(accents, &find_route_tokens(accents));
    assert_eq!(describe(&parts), vec!["text:caf\u{00E9} ", "icon:1:false", "text: th\u{00E9}"]);
}

#[test]
fn parts_follow_the_reported_places() {
    let text = "ab[7]cd";
    // A token need not be where the brackets are: the places decide.
    let parts = parse_alert_parts(text, &vec![token(1, 3, (0, 1), None)]);
    assert_eq!(describe(&parts), vec!["text:a", "icon:a:false", "text:7]cd"]);
    let parts = parse_alert_parts(text, &vec![token(0, 7, (3, 4), Some((0, 0)))]);
    assert_eq!(describe(&parts), vec!["icon:7:true"]);
}

#[test]
fn places_that_do_not_fit_are_passed_over() {
    let text = "a\u{00E9}[1]b";
    let good = token(3, 6, (4, 5), None);
    let cases: Vec<MatchGroups> = vec![
        vec![],
        vec![span(3, 6)],
        vec![None, span(4, 5)],
        vec![span(3, 6), None],
        token(3, 3, (4, 5), None),
        token(6, 3, (4, 5), None),
        token(3, 9, (4, 5), None),
        token(2, 6, (4, 5), None),
        token(3, 6, (5, 4), None),
        token(3, 6, (4, 50), None),
        token(3, 6, (2, 5), None),
        token(3, 6, (1, 2), None),
    ];
    for bad in cases {
        let parts = parse_alert_parts(text, &vec![bad.clone(), good.clone()]);
        assert_eq!(
            describe(&parts),
            vec!["text:a\u{00E9}", "icon:1:false", "text:b"],
            "with {:?}",
            bad
        );
    }
    // A match that starts before the end of the one before is passed over too.
    let parts = parse_alert_parts(text, &vec![good.clone(), token(5, 7, (4, 5), None), good]);
    assert_eq!(describe(&parts), vec!["text:a\u{00E9}", "icon:1:false", "text:b"]);
}

#[test]
fn slices_are_cut_between_characters() {
    let text = "a\u{00E9}b";
    assert_eq!(byte_len(text), 4);
    assert_eq!(slice(text, 0, 4), Some(text.to_string()));
    assert_eq!(slice(text, 1, 3), Some("\u{00E9}".to_string()));
    assert_eq!(slice(text, 3, 3), Some(String::new()));
    assert_eq!(slice(text, 4, 4), Some(String::new()));
    assert_eq!(slice(text, 1, 2), None);
    assert_eq!(slice(text, 2, 3), None);
    assert_eq!(slice(text, 3, 1), None);
    assert_eq!(slice(text, 0, 5), None);
    assert_eq!(slice(text, usize::MAX, usize::MAX), None);
}
