use subway_sign::colors::{
    hex_to_rgb, is_express_capable, route_color, COLOR_123, COLOR_456, COLOR_7, COLOR_ACE,
    COLOR_BDFM, COLOR_G, COLOR_GREEN, COLOR_GS, COLOR_JZ, COLOR_L, COLOR_NQRW,
};

#[test]
fn test_route_colors() {
    assert_eq!(route_color("1"), COLOR_123);
    assert_eq!(route_color("A"), COLOR_ACE);
    assert_eq!(route_color("N"), COLOR_NQRW);
    assert_eq!(route_color("L"), COLOR_L);
    assert_eq!(route_color("X"), COLOR_GREEN); // fallback
}

#[test]
fn test_express_capable() {
    assert!(is_express_capable("2"));
    assert!(is_express_capable("A"));
    assert!(!is_express_capable("1"));
    assert!(!is_express_capable("N"));
}

#[test]
fn test_hex_to_rgb() {
    assert_eq!(hex_to_rgb("#FF6644"), (0xFF, 0x66, 0x44));
    assert_eq!(hex_to_rgb("00FF00"), (0, 255, 0));
    assert_eq!(hex_to_rgb("#000000"), (0, 0, 0));
}

#[test]
fn every_route_has_its_line_colour() {
    for route in ["1", "2", "3"] {
        assert_eq!(route_color(route), COLOR_123);
    }
    for route in ["4", "5", "6"] {
        assert_eq!(route_color(route), COLOR_456);
    }
    assert_eq!(route_color("7"), COLOR_7);
    assert_eq!(route_color("GS"), COLOR_GS);
    for route in ["A", "C", "E"] {
        assert_eq!(route_color(route), COLOR_ACE);
    }
    for route in ["B", "D", "F", "M"] {
        assert_eq!(route_color(route), COLOR_BDFM);
    }
    assert_eq!(route_color("G"), COLOR_G);
    assert_eq!(route_color("L"), COLOR_L);
    for route in ["J", "Z"] {
        assert_eq!(route_color(route), COLOR_JZ);
    }
    for route in ["N", "Q", "R", "W"] {
        assert_eq!(route_color(route), COLOR_NQRW);
    }
    for route in ["", "a", "11", "S", "SIR", " 1"] {
        assert_eq!(route_color(route), COLOR_GREEN);
    }
}

#[test]
fn express_capable_routes_are_exactly_nine() {
    let capable = ["2", "3", "4", "5", "6", "7", "A", "D", "E"];
    let all = [
        "1", "2", "3", "4", "5", "6", "7", "A", "B", "C", "D", "E", "F", "G", "GS", "J", "L", "M",
        "N", "Q", "R", "W", "Z", "", "a",
    ];
    for route in all {
        assert_eq!(is_express_capable(route), capable.contains(&route), "route {:?}", route);
    }
}

#[test]
fn hex_colours_take_both_cases_and_leading_hashes() {
    assert_eq!(hex_to_rgb("#ff6644"), (0xFF, 0x66, 0x44));
    assert_eq!(hex_to_rgb("##a1B2c3"), (0xA1, 0xB2, 0xC3));
    assert_eq!(hex_to_rgb("0a0B0c"), (10, 11, 12));
}

#[test]
fn hex_colour_of_wrong_length_is_green() {
    assert_eq!(hex_to_rgb(""), COLOR_GREEN);
    assert_eq!(hex_to_rgb("#"), COLOR_GREEN);
    assert_eq!(hex_to_rgb("#FFF"), COLOR_GREEN);
    assert_eq!(hex_to_rgb("#FF66441"), COLOR_GREEN);
    assert_eq!(hex_to_rgb("FF6644#"), COLOR_GREEN);
}

#[test]
fn hex_field_that_is_no_number_counts_as_zero() {
    assert_eq!(hex_to_rgb("#GG6644"), (0, 0x66, 0x44));
    assert_eq!(hex_to_rgb("#FF66 4"), (0xFF, 0x66, 0));
    assert_eq!(hex_to_rgb("#+F-1F+"), (15, 0, 0));
    assert_eq!(hex_to_rgb("\u{00E9}1234"), (0, 0x12, 0x34));
}
