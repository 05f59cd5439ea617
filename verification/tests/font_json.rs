use subway_sign::font_json::{asset_rows, icon_meta_from, icon_metadata_from, FontError};
use subway_sign::fonts::MtaFont;
use subway_sign::json::{Json, JsonMember, JsonNumber};

const FONT_JSON: &str = r##"{
    "65": [0, 224, 496, 952, 1820, 1548, 1548, 1548, 2044, 2044, 1548, 1548, 1548, 1548, 0, 0],
    "66": [1, -2, 3.5, "x", 7, null, [9]],
    "32": [],
    "name": "sign font",
    "height": 16,
    "ROUTE_1_CIRCLE": [480, 2040],
    "ROUTE_4_DIAMOND": [192, 480, 1008]
}"##;

const META_JSON: &str = r##"{
    "ROUTE_1_CIRCLE": {"width": 14, "height": 2, "baseline_offset": -1, "color": "#FF6644", "extra": true},
    "ROUTE_4_DIAMOND": {"width": 14, "height": 13, "baseline_offset": 1, "color": "#00FF00"},
    "ROUTE_9_CIRCLE": {"width": 14, "height": 13, "baseline_offset": 0, "color": "#FFFFFF"}
}"##;

fn show(value: &Json) -> String {
    match value {
        Json::Null => "null".to_string(),
        Json::Bool(b) => format!("{}", b),
        Json::Number(n) => format!("<{:?},{:?}>", n.unsigned, n.signed),
        Json::Text(t) => format!("{:?}", t),
        Json::Array(items) => {
            let inner: Vec<String> = items.iter().map(show).collect();
            format!("[{}]", inner.join(","))
        }
        Json::Object(members) => {
            let inner: Vec<String> =
                members.iter().map(|m| format!("{}:{}", m.name, show(&m.value))).collect();
            format!("{{{}}}", inner.join(","))
        }
    }
}

fn parsed(text: &str) -> String {
    match Json::parse(text) {
        Some(value) => show(&value),
        None => "no json".to_string(),
    }
}

fn number(n: u64) -> Json {
    Json::Number(JsonNumber { unsigned: Some(n), signed: Some(n as i64) })
}

fn member(name: &str, value: Json) -> JsonMember {
    JsonMember { name: name.to_string(), value }
}

fn load_error(font_json: &str, meta_json: &str) -> Option<FontError> {
    MtaFont::from_json(font_json, meta_json).err()
}

#[test]
fn json_text_is_read_value_by_value() {
    assert_eq!(parsed("null"), "null");
    assert_eq!(parsed(" true "), "true");
    assert_eq!(parsed("\"a\\nb\""), "\"a\\nb\"");
    assert_eq!(parsed("[1, \"a\", null, [], {}]"), "[<Some(1),Some(1)>,\"a\",null,[],{}]");
    assert_eq!(parsed("{\"k\": [false]}"), "{k:[false]}");
}

#[test]
fn json_numbers_are_kept_as_far_as_they_are_whole() {
    assert_eq!(parsed("12"), "<Some(12),Some(12)>");
    assert_eq!(parsed("0"), "<Some(0),Some(0)>");
    assert_eq!(parsed("-3"), "<None,Some(-3)>");
    assert_eq!(parsed("1.5"), "<None,None>");
    assert_eq!(parsed("14.0"), "<None,None>");
    assert_eq!(parsed("1e2"), "<None,None>");
    assert_eq!(parsed("18446744073709551615"), "<Some(18446744073709551615),None>");
    assert_eq!(parsed("9223372036854775807"), "<Some(9223372036854775807),Some(9223372036854775807)>");
    assert_eq!(parsed("-9223372036854775808"), "<None,Some(-9223372036854775808)>");
    assert_eq!(parsed("18446744073709551616"), "<None,None>");
}

#[test]
fn json_object_keeps_each_name_once() {
    assert_eq!(
        parsed("{\"b\": 1, \"a\": 2, \"b\": 3}"),
        "{a:<Some(2),Some(2)>,b:<Some(3),Some(3)>}"
    );
}

#[test]
fn text_that_is_no_json_is_refused() {
    for text in ["", "{", "[1,]", "{\"a\" 1}", "nul", "1 2", "'a'", "{\"a\":1}}"] {
        assert_eq!(parsed(text), "no json", "text {:?}", text);
    }
}

#[test]
fn font_is_read_from_its_two_files() {
    let font = MtaFont::from_json(FONT_JSON, META_JSON).ok().expect("both files are fine");
    assert!(font.has_char('A'));
    assert!(font.has_char('B'));
    assert!(font.has_char(' '));
    assert!(!font.has_char('C'));
    assert_eq!(font.get_char_width('A', false), 11);
    assert_eq!(font.get_char_left_padding('A', false), 2);
    // Of the rows of B only the unsigned whole numbers count: 1 and 7.
    let b = font.get_char_bitmap('B', false).unwrap();
    assert_eq!(b, vec![vec![true], vec![true, true, true]]);
    // A glyph without rows has the default width.
    assert_eq!(font.get_char_bitmap(' ', false), Some(Vec::new()));
    assert_eq!(font.get_char_width('C', false), 4);
}

#[test]
fn icons_need_rows_and_fitting_metadata() {
    let font = MtaFont::from_json(FONT_JSON, META_JSON).ok().unwrap();
    let icon = font.get_route_icon("1", false).expect("two rows, height two");
    assert_eq!((icon.width, icon.height, icon.baseline_offset), (14, 2, -1));
    assert_eq!(icon.color, (0xFF, 0x66, 0x44));
    assert_eq!(icon.pixels[0][5], (0xFF, 0x66, 0x44, 255));
    assert_eq!(icon.pixels[0][4], (0, 0, 0, 0));
    // Three rows against a height of thirteen: dropped.
    assert!(font.get_route_icon("4", true).is_none());
    // Metadata without rows: nothing.
    assert!(font.get_route_icon("9", false).is_none());
    let names: Vec<String> = font.icon_names().into_iter().cloned().collect();
    assert_eq!(names, vec!["ROUTE_1_CIRCLE".to_string()]);
}

#[test]
fn font_file_must_be_an_object() {
    for text in ["", "{", "[1, 2]", "\"font\"", "3", "null"] {
        assert_eq!(load_error(text, META_JSON), Some(FontError::FontData), "font {:?}", text);
        assert_eq!(load_error(text, "not json"), Some(FontError::FontData));
    }
    assert!(MtaFont::from_json("{}", "{}").is_ok());
}

#[test]
fn metadata_file_must_describe_every_icon() {
    let bad = [
        "",
        "[]",
        "7",
        "{\"X\": 1}",
        "{\"X\": {}}",
        "{\"X\": {\"width\": 1, \"height\": 1, \"baseline_offset\": 0}}",
        "{\"X\": {\"height\": 1, \"baseline_offset\": 0, \"color\": \"#FFFFFF\"}}",
        "{\"X\": {\"width\": -1, \"height\": 1, \"baseline_offset\": 0, \"color\": \"#FFFFFF\"}}",
        "{\"X\": {\"width\": 1.0, \"height\": 1, \"baseline_offset\": 0, \"color\": \"#FFFFFF\"}}",
        "{\"X\": {\"width\": \"1\", \"height\": 1, \"baseline_offset\": 0, \"color\": \"#FFFFFF\"}}",
        "{\"X\": {\"width\": 1, \"height\": null, \"baseline_offset\": 0, \"color\": \"#FFFFFF\"}}",
        "{\"X\": {\"width\": 1, \"height\": 1, \"baseline_offset\": 2147483648, \"color\": \"#FFFFFF\"}}",
        "{\"X\": {\"width\": 1, \"height\": 1, \"baseline_offset\": -2147483649, \"color\": \"#FFFFFF\"}}",
        "{\"X\": {\"width\": 1, \"height\": 1, \"baseline_offset\": 0.5, \"color\": \"#FFFFFF\"}}",
        "{\"X\": {\"width\": 1, \"height\": 1, \"baseline_offset\": 0, \"color\": 255}}",
        "{\"A\": {\"width\": 1, \"height\": 1, \"baseline_offset\": 0, \"color\": \"#FFFFFF\"}, \"B\": []}",
    ];
    for text in bad {
        assert_eq!(load_error("{}", text), Some(FontError::IconMetadata), "metadata {:?}", text);
    }
    let good = [
        "{}",
        "{\"X\": {\"width\": 0, \"height\": 0, \"baseline_offset\": -2147483648, \"color\": \"\"}}",
        "{\"X\": {\"width\": 99, \"height\": 1, \"baseline_offset\": 2147483647, \"color\": \"red\"}}",
    ];
    for text in good {
        assert_eq!(load_error("{}", text), None, "metadata {:?}", text);
    }
}

#[test]
fn asset_rows_come_from_the_arrays_of_an_object() {
    let font = Json::Object(vec![
        member("65", Json::Array(vec![number(1), Json::Null, number(2)])),
        member("note", Json::Text("x".to_string())),
        member("I", Json::Array(Vec::new())),
        member("65", Json::Array(vec![number(3)])),
    ]);
    let table = asset_rows(&font).unwrap();
    let rows: Vec<(String, Vec<u64>)> = table.into_iter().map(|r| (r.key, r.rows)).collect();
    assert_eq!(
        rows,
        vec![
            ("65".to_string(), vec![1, 2]),
            ("I".to_string(), vec![]),
            ("65".to_string(), vec![3]),
        ]
    );
    assert!(asset_rows(&Json::Array(Vec::new())).is_none());
    assert!(asset_rows(&Json::Null).is_none());
    // A number that is negative has no unsigned value and does not count.
    let negative = Json::Number(JsonNumber { unsigned: None, signed: Some(-1) });
    let table = asset_rows(&Json::Object(vec![member("k", Json::Array(vec![negative]))])).unwrap();
    assert!(table[0].rows.is_empty());
}

#[test]
fn icon_metadata_takes_the_last_member_of_a_name() {
    let value = Json::Object(vec![
        member("width", number(3)),
        member("height", number(4)),
        member("color", Json::Text("#010203".to_string())),
        member("baseline_offset", Json::Number(JsonNumber { unsigned: None, signed: Some(-2) })),
        member("width", number(5)),
    ]);
    let meta = icon_meta_from("ICON", &value).unwrap();
    assert_eq!(meta.name, "ICON");
    assert_eq!((meta.width, meta.height, meta.baseline_offset), (5, 4, -2));
    assert_eq!(meta.color, "#010203");
    assert!(icon_meta_from("ICON", &Json::Array(Vec::new())).is_none());
    let all = Json::Object(vec![member("A", value), member("B", Json::Object(Vec::new()))]);
    assert!(icon_metadata_from(&all).is_none());
    assert!(icon_metadata_from(&Json::Object(Vec::new())).unwrap().is_empty());
}
