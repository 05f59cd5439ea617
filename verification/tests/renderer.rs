use subway_sign::alert_render::{lookup_icon, render_alert_text, MAX_TEXT_BYTES};
use subway_sign::alert_state::{saturating_scroll, AlertState};
use subway_sign::alert_text::find_route_tokens;
use subway_sign::alerts::AlertManager;
use subway_sign::colors::{COLOR_GREEN, COLOR_ORANGE, COLOR_RED};
use subway_sign::fonts::{AssetRows, IconMeta, MtaFont};
use subway_sign::framebuffer::FrameBuffer;
use subway_sign::models::{Alert, Direction, DisplaySnapshot, Train};
use subway_sign::renderer::{
    clip_text, compose_frame, is_drawable, is_snapshot_drawable, make_number_label,
    make_time_label, render_train_row, routes_key, str_le, truncate_text, Renderer,
};

/// Rows of the letter A.
fn glyph_a() -> Vec<u64> {
    vec![0, 224, 496, 952, 1820, 1548, 1548, 1548, 2044, 2044, 1548, 1548, 1548, 1548, 0, 0]
}

/// Rows of a plain box glyph whose width depends on the character code.
fn glyph_box(code: u32) -> Vec<u64> {
    let width = 5 + (code % 3) as u64;
    let full: u64 = ((1u64 << width) - 1) << 1;
    let edges: u64 = (1u64 << 1) | (1u64 << width);
    let mut rows = vec![0u64; 16];
    rows[3] = full;
    for row in rows.iter_mut().take(12).skip(4) {
        *row = edges;
    }
    rows[12] = full;
    rows
}

fn circle_rows() -> Vec<u64> {
    vec![480, 2040, 4092, 8190, 8190, 16383, 16383, 16383, 8190, 8190, 4092, 2040, 480]
}

fn diamond_rows() -> Vec<u64> {
    vec![192, 480, 1008, 2040, 4092, 8190, 16383, 16383, 8190, 4092, 2040, 1008, 480, 192]
}

fn icon_meta(name: &str, height: usize, baseline_offset: i32, color: &str) -> IconMeta {
    IconMeta {
        name: name.to_string(),
        width: 14,
        height,
        baseline_offset,
        color: color.to_string(),
    }
}

/// A small font: every printable ASCII character, and the icons of a few
/// routes. Route 1 has a circle only, route 4 a circle and a diamond.
fn test_font() -> MtaFont {
    let mut table: Vec<AssetRows> = Vec::new();
    for code in 32u32..127 {
        let rows = if code == 32 {
            vec![0u64; 16]
        } else if code == 65 {
            glyph_a()
        } else {
            glyph_box(code)
        };
        table.push(AssetRows { key: code.to_string(), rows });
    }
    let mut metadata: Vec<IconMeta> = Vec::new();
    for (route, color) in [("1", "#FF6644"), ("2", "#FF6644"), ("4", "#00FF00"), ("A", "#2850AD")] {
        let name = format!("ROUTE_{}_CIRCLE", route);
        table.push(AssetRows { key: name.clone(), rows: circle_rows() });
        metadata.push(icon_meta(&name, 13, 0, color));
    }
    for (route, color) in [("2", "#FF6644"), ("4", "#00FF00"), ("A", "#2850AD")] {
        let name = format!("ROUTE_{}_DIAMOND", route);
        table.push(AssetRows { key: name.clone(), rows: diamond_rows() });
        metadata.push(icon_meta(&name, 14, 1, color));
    }
    MtaFont::load(&table, &metadata)
}

const CHAR_SPACING: i32 = -1;

fn make_train(route: &str, dest: &str, minutes: i32, is_express: bool) -> Train {
    Train {
        route: route.into(),
        destination: dest.into(),
        minutes,
        is_express,
        arrival_timestamp: 0,
        direction: Direction::Uptown,
        stop_id: "127N".into(),
    }
}

fn make_alert(id: &str) -> Alert {
    Alert {
        text: format!("Alert {}", id),
        affected_routes: vec!["1".to_string()],
        priority: 1,
        alert_id: id.to_string(),
    }
}

fn make_manager(alerts: Vec<Alert>) -> AlertManager {
    let mut am = AlertManager::new();
    am.filter_and_sort(&alerts);
    am
}

fn snapshot_of(trains: Vec<Train>, alerts: Vec<Alert>) -> DisplaySnapshot {
    DisplaySnapshot { trains, alerts, fetched_at: 0 }
}

fn render_alert_with_icons(font: &MtaFont, text: &str) -> FrameBuffer {
    render_alert_text(font, text, &find_route_tokens(text))
}

fn frames_differ(a: &FrameBuffer, b: &FrameBuffer, rows: std::ops::Range<usize>) -> bool {
    for y in rows {
        for x in 0..192 {
            if a.get_pixel(x, y) != b.get_pixel(x, y) {
                return true;
            }
        }
    }
    false
}

fn lit_columns(fb: &FrameBuffer, y: usize) -> Vec<usize> {
    (0..fb.width()).filter(|&x| fb.get_pixel(x, y) != (0, 0, 0)).collect()
}

#[test]
fn test_render_frame_basic() {
    let font = test_font();
    let mut renderer = Renderer::new(&font);
    let snapshot = DisplaySnapshot {
        trains: vec![
            make_train("1", "Van Cortlandt Park", 2, false),
            make_train("2", "Wakefield", 5, true),
            make_train("3", "Harlem", 8, false),
        ],
        alerts: Vec::new(),
        fetched_at: 1000,
    };

    let fb = renderer.render_frame(&snapshot, 0, false, 0, false, None);
    assert_eq!(fb.width(), 192);
    assert_eq!(fb.height(), 32);

    // Should have drawn something (not all black)
    let mut has_pixels = false;
    for y in 0..32 {
        for x in 0..192 {
            if fb.get_pixel(x, y) != (0, 0, 0) {
                has_pixels = true;
                break;
            }
        }
        if has_pixels {
            break;
        }
    }
    assert!(has_pixels, "frame should have some non-black pixels");
}

#[test]
fn test_render_frame_empty_snapshot() {
    let font = test_font();
    let mut renderer = Renderer::new(&font);
    let snapshot = DisplaySnapshot::empty();
    let fb = renderer.render_frame(&snapshot, 0, false, 0, false, None);
    assert_eq!(fb.width(), 192);
    assert_eq!(fb.height(), 32);
}

#[test]
fn test_render_frame_flash_state() {
    let font = test_font();
    let mut renderer = Renderer::new(&font);
    let snapshot = DisplaySnapshot {
        trains: vec![make_train("1", "Van Cortlandt", 0, false)], // arriving!
        alerts: Vec::new(),
        fetched_at: 1000,
    };

    // Flash on: time should be black (invisible)
    let fb_on = renderer.render_frame(&snapshot, 0, true, 0, false, None);
    // Flash off: time should be red
    let fb_off = renderer.render_frame(&snapshot, 0, false, 0, false, None);

    // The two frames should differ (flash state changes pixel colors)
    assert!(
        frames_differ(&fb_on, &fb_off, 0..32),
        "flash on/off frames should differ for arriving train"
    );
}

#[test]
fn test_render_alert_with_icons() {
    let font = test_font();
    let buf = render_alert_with_icons(&font, "Delays on [1] [2] trains due to signal problems");
    assert!(buf.width() > 0);
    assert_eq!(buf.height(), 17);
}

#[test]
fn test_render_alert_no_icons() {
    let font = test_font();
    let buf = render_alert_with_icons(&font, "Service change in effect");
    assert!(buf.width() > 0);
    assert_eq!(buf.height(), 17);
}

#[test]
fn test_truncate_text() {
    let font = test_font();

    let text = "Van Cortlandt Park-242 St";
    let truncated = truncate_text(&font, text, 80);
    assert!(
        font.measure_text(&truncated, CHAR_SPACING, false) <= 80,
        "truncated text should fit within 80px"
    );

    // Short text should not be truncated
    let short = "42 St";
    assert_eq!(truncate_text(&font, short, 200), short);
}

#[test]
fn test_scroll_complete_distance() {
    let font = test_font();
    let mut renderer = Renderer::new(&font);

    let alert = Alert {
        text: "Service suspended on [A] train".into(),
        affected_routes: vec!["A".into()],
        priority: 1,
        alert_id: "test".into(),
    };

    let snapshot = DisplaySnapshot {
        trains: vec![make_train("1", "Test", 5, false)],
        alerts: vec![alert.clone()],
        fetched_at: 0,
    };

    // Render a frame with alert to populate last_alert_width
    renderer.render_frame(&snapshot, 0, false, 0, true, Some(&alert));

    let dist = renderer.get_scroll_complete_distance();
    assert!(dist > 192, "scroll distance should exceed screen width");
}

#[test]
fn test_render_frame_with_alert_scroll() {
    let font = test_font();
    let mut renderer = Renderer::new(&font);

    let alert = Alert {
        text: "Delays on [1] trains".into(),
        affected_routes: vec!["1".into()],
        priority: 1,
        alert_id: "test".into(),
    };

    let snapshot = DisplaySnapshot {
        trains: vec![make_train("1", "Test", 5, false)],
        alerts: vec![alert.clone()],
        fetched_at: 0,
    };

    // Render at different scroll positions
    let fb1 = renderer.render_frame(&snapshot, 0, false, 0, true, Some(&alert));
    let fb2 = renderer.render_frame(&snapshot, 0, false, 50, true, Some(&alert));

    // The bottom halves should differ (alert scrolled)
    assert!(
        frames_differ(&fb1, &fb2, 16..32),
        "different scroll offsets should produce different frames"
    );
}

#[test]
fn test_alert_triggers_on_arrival() {
    let font = test_font();
    let mut am = make_manager(vec![make_alert("a1")]);
    let snapshot = snapshot_of(vec![make_train("1", "Uptown", 0, false)], vec![make_alert("a1")]);
    let renderer = Renderer::new(&font);
    let mut alert = AlertState::new();

    assert!(!alert.show_alert);

    alert.update(&mut am, &snapshot, renderer.get_scroll_complete_distance(), 1, 90_000);

    assert!(alert.show_alert, "alert should trigger when train at 0 min");
    assert!(alert.current_alert.is_some());
    assert_eq!(alert.triggered_by.as_ref().unwrap().0, "1");
}

#[test]
fn test_alert_does_not_trigger_without_arrival() {
    let font = test_font();
    let mut am = make_manager(vec![make_alert("a1")]);
    let snapshot = snapshot_of(vec![make_train("1", "Uptown", 3, false)], vec![make_alert("a1")]);
    let renderer = Renderer::new(&font);
    let mut alert = AlertState::new();

    alert.update(&mut am, &snapshot, renderer.get_scroll_complete_distance(), 1, 90_000);

    assert!(!alert.show_alert, "alert should not trigger when no train at 0 min");
}

#[test]
fn test_alert_clears_when_all_shown() {
    let font = test_font();
    let mut am = make_manager(vec![make_alert("a1")]);
    let snapshot = snapshot_of(vec![make_train("1", "Uptown", 0, false)], vec![make_alert("a1")]);
    let renderer = Renderer::new(&font);
    let mut alert = AlertState::new();

    // Trigger alert
    alert.update(&mut am, &snapshot, renderer.get_scroll_complete_distance(), 1, 90_000);
    assert!(alert.show_alert);

    // Simulate scroll completing by setting offset past the threshold
    let complete_dist = renderer.get_scroll_complete_distance();
    alert.scroll_offset = complete_dist + 1;

    // Update should mark as displayed and clear (only one alert)
    alert.update(&mut am, &snapshot, complete_dist, 0, 90_000);

    assert!(!alert.show_alert, "alert should clear after all shown this cycle");
}

#[test]
fn test_alert_max_duration_timeout() {
    let font = test_font();
    let mut am = make_manager(vec![make_alert("a1")]);
    let snapshot = snapshot_of(vec![make_train("1", "Uptown", 0, false)], vec![make_alert("a1")]);
    let renderer = Renderer::new(&font);
    let mut alert = AlertState::new();
    let distance = renderer.get_scroll_complete_distance();
    let now = 200_000;

    // Trigger alert
    alert.update_at(&mut am, &snapshot, distance, 1, 90_000, now);
    assert!(alert.show_alert);

    // Simulate timeout by setting cycle_start_time far in the past
    alert.cycle_start_time = now - 100_000;

    alert.update_at(&mut am, &snapshot, distance, 1, 90_000, now);

    assert!(!alert.show_alert, "alert should clear after max duration timeout");
}

#[test]
fn test_alert_departure_resets_cycle() {
    let font = test_font();
    let alerts = vec![make_alert("a1"), make_alert("a2")];
    let mut am = make_manager(alerts.clone());
    let renderer = Renderer::new(&font);
    let mut alert = AlertState::new();

    // Train arrives, triggers alerts
    let snapshot_arrive = snapshot_of(vec![make_train("1", "Uptown", 0, false)], alerts.clone());
    alert.update(&mut am, &snapshot_arrive, renderer.get_scroll_complete_distance(), 1, 90_000);
    assert!(alert.show_alert);
    assert_eq!(alert.triggered_by.as_ref().unwrap(), &("1".to_string(), "Uptown".to_string()));
}

// ---------------------------------------------------------------------
// The picture of an alert
// ---------------------------------------------------------------------

#[test]
fn alert_picture_is_as_wide_as_its_parts_and_gaps() {
    let font = test_font();
    // In italics A is 13 wide and B 8; the circle is 14 wide.
    assert_eq!(render_alert_with_icons(&font, "A").width(), 13);
    assert_eq!(render_alert_with_icons(&font, "AB").width(), 13 + 8 - 1);
    assert_eq!(render_alert_with_icons(&font, "[1]").width(), 14);
    assert_eq!(render_alert_with_icons(&font, "A[1]").width(), 13 + 5 + 14);
    assert_eq!(render_alert_with_icons(&font, "[1]A").width(), 14 + 2 + 13);
    assert_eq!(render_alert_with_icons(&font, "[1][2]").width(), 14 + 1 + 14);
    assert_eq!(render_alert_with_icons(&font, "A[1][2]B").width(), 13 + 5 + 14 + 1 + 14 + 2 + 8);
    for text in ["A", "[1]", "A[1][2]B", ""] {
        assert_eq!(render_alert_with_icons(&font, text).height(), 17);
    }
}

#[test]
fn empty_alert_picture_is_one_black_column() {
    let font = test_font();
    let buf = render_alert_with_icons(&font, "");
    assert_eq!(buf.width(), 1);
    assert!(buf.raw_pixels().iter().all(|&b| b == 0));
}

#[test]
fn icon_that_the_font_lacks_is_left_out() {
    let font = test_font();
    assert_eq!(render_alert_with_icons(&font, "[9]").width(), 1);
    // With the icon gone the two runs of text stand side by side, no gap.
    assert_eq!(render_alert_with_icons(&font, "A[9]B").width(), 13 + 8);
    // Upper-case letters are one route id, so there is no route AX.
    assert_eq!(render_alert_with_icons(&font, "[AX]").width(), 1);
    assert_eq!(render_alert_with_icons(&font, "[Ax]").width(), 14);
}

#[test]
fn alert_text_is_orange_italic_one_row_down() {
    let font = test_font();
    let buf = render_alert_with_icons(&font, "A");
    // Row 0 of the glyph is blank; row 1 is 224 << 2, columns 7, 8, 9.
    assert!(lit_columns(&buf, 0).is_empty());
    assert!(lit_columns(&buf, 1).is_empty());
    assert_eq!(lit_columns(&buf, 2), vec![7, 8, 9]);
    assert_eq!(buf.get_pixel(7, 2), COLOR_ORANGE);
    // Row 8 of the glyph is 2044 << 1, columns 3 to 11.
    assert_eq!(lit_columns(&buf, 9), (3..=11).collect::<Vec<usize>>());
}

#[test]
fn alert_icon_follows_the_text_after_five_pixels() {
    let font = test_font();
    let buf = render_alert_with_icons(&font, "A[1]");
    // The text moves the cursor by 13 - 1; the icon starts 5 further on.
    // Its first row is 480: columns 5 to 8 of the icon.
    let icon_x = 12 + 5;
    let row: Vec<usize> = lit_columns(&buf, 1);
    assert_eq!(row, vec![icon_x + 5, icon_x + 6, icon_x + 7, icon_x + 8]);
    assert_eq!(buf.get_pixel(icon_x + 5, 1), (0xFF, 0x66, 0x44));
}

#[test]
fn express_icon_is_raised_by_its_baseline_offset() {
    let font = test_font();
    // Route 4 may run express: the diamond, whose baseline offset is one.
    let buf = render_alert_with_icons(&font, "[4]");
    assert_eq!(lit_columns(&buf, 0), vec![6, 7]);
    assert_eq!(buf.get_pixel(6, 0), (0, 255, 0));
    // Route 1 with the marker has no diamond and falls back to its circle.
    let circle = render_alert_with_icons(&font, "[1x]");
    assert!(lit_columns(&circle, 0).is_empty());
    assert_eq!(lit_columns(&circle, 1), vec![5, 6, 7, 8]);
}

#[test]
fn alert_lookup_falls_back_to_the_local_icon() {
    let font = test_font();
    assert_eq!(lookup_icon(&font, "1", true).unwrap().height, 13);
    assert_eq!(lookup_icon(&font, "4", true).unwrap().height, 14);
    assert_eq!(lookup_icon(&font, "4", false).unwrap().height, 13);
    assert!(lookup_icon(&font, "9", true).is_none());
}

#[test]
fn longest_text_is_a_mebibyte() {
    assert_eq!(MAX_TEXT_BYTES, 1_048_576);
}

// ---------------------------------------------------------------------
// Train rows and frames
// ---------------------------------------------------------------------

#[test]
fn labels_are_written_in_decimal() {
    assert_eq!(make_number_label(1), "1.");
    assert_eq!(make_number_label(0), "0.");
    assert_eq!(make_number_label(10), "10.");
    assert_eq!(make_number_label(7_040), "7040.");
    assert_eq!(make_number_label(usize::MAX), format!("{}.", usize::MAX));
    assert_eq!(make_time_label(0), "0min");
    assert_eq!(make_time_label(5), "5min");
    assert_eq!(make_time_label(120), "120min");
    assert_eq!(make_time_label(998), "998min");
    assert_eq!(make_time_label(999), "---min");
    assert_eq!(make_time_label(i32::MAX), "---min");
    assert_eq!(make_time_label(-3), "-3min");
    assert_eq!(make_time_label(i32::MIN), format!("{}min", i32::MIN));
}

#[test]
fn truncation_cuts_characters_off_the_end() {
    let font = test_font();
    // Every character here is a box 6, 7 or 8 wide; with the spacing of -1
    // "abc" measures 7 + 8 + 6 - 2.
    assert_eq!(font.measure_text("abc", CHAR_SPACING, false), 19);
    assert_eq!(truncate_text(&font, "abc", 19), "abc");
    assert_eq!(truncate_text(&font, "abc", 18), "ab");
    assert_eq!(truncate_text(&font, "abc", 14), "ab");
    assert_eq!(truncate_text(&font, "abc", 13), "a");
    assert_eq!(truncate_text(&font, "abc", 7), "a");
    assert_eq!(truncate_text(&font, "abc", 6), "");
    assert_eq!(truncate_text(&font, "abc", 0), "");
    assert_eq!(truncate_text(&font, "", 0), "");
    assert_eq!(truncate_text(&font, "a\u{00E9}\u{00E9}", 10), "a\u{00E9}");
}

#[test]
fn train_row_is_laid_out_from_both_ends() {
    let font = test_font();
    let mut fb = FrameBuffer::new();
    render_train_row(&font, &mut fb, &make_train("1", "ab", 5, false), 0, 1, false);
    // Label "1." at x = -2: both glyphs are boxes from column 1 to 6 whose
    // top edge is row 3. The second starts at -2 + 7 - 1.
    // Icon at x = 12: row 3 of the circle is 8190, columns 1 to 12.
    // Destination at x = 12 + 14 + 3: "a" is a box of 6, "b" of 7.
    // Time "5min" measures 8 + 7 + 6 + 8 - 3 and ends at the right edge.
    let mut expected: Vec<usize> = Vec::new();
    expected.extend(0..=4);
    expected.extend(5..=10);
    expected.extend(13..=24);
    expected.extend(30..=35);
    expected.extend(36..=42);
    let time_x = 192 - 26;
    expected.extend(time_x + 1..=time_x + 7);
    expected.extend(time_x + 8..=time_x + 13);
    expected.extend(time_x + 14..=time_x + 18);
    expected.extend(time_x + 19..=time_x + 25);
    assert_eq!(lit_columns(&fb, 3), expected);
    assert_eq!(fb.get_pixel(0, 3), COLOR_GREEN);
    assert_eq!(fb.get_pixel(13, 3), (0xFF, 0x66, 0x44));
    assert_eq!(fb.get_pixel(191, 3), COLOR_GREEN);
    // Row 0 holds the top of the icon only: 480, columns 5 to 8.
    assert_eq!(lit_columns(&fb, 0), vec![17, 18, 19, 20]);
}

#[test]
fn arriving_train_is_red_and_its_time_flashes() {
    let font = test_font();
    let train = make_train("", "ab", 0, false);
    let mut steady = FrameBuffer::new();
    render_train_row(&font, &mut steady, &train, 0, 1, false);
    let mut flashing = FrameBuffer::new();
    render_train_row(&font, &mut flashing, &train, 0, 1, true);
    let time_x = 192 - 26;
    for x in 0..192usize {
        let a = steady.get_pixel(x, 3);
        let b = flashing.get_pixel(x, 3);
        assert!(a == (0, 0, 0) || a == COLOR_RED, "column {}", x);
        if x > time_x {
            assert_eq!(b, (0, 0, 0), "column {}", x);
        } else {
            assert_eq!(a, b, "column {}", x);
        }
    }
    assert_eq!(steady.get_pixel(191, 3), COLOR_RED);
    // A train without a route has no icon.
    assert!(lit_columns(&steady, 0).is_empty());
}

#[test]
fn destination_is_cut_to_the_room_before_the_time() {
    let font = test_font();
    let long = "a".repeat(60);
    let mut fb = FrameBuffer::new();
    render_train_row(&font, &mut fb, &make_train("1", &long, 5, false), 0, 1, false);
    // The room is 166 - 29 - 5 = 132 pixels. Each "a" is 7 wide, so 21 of
    // them measure 21 * 6 + 1 = 127 and 22 of them 133.
    assert_eq!(font.measure_text(&"a".repeat(21), CHAR_SPACING, false), 127);
    let columns = lit_columns(&fb, 3);
    let destination: Vec<usize> = columns.iter().cloned().filter(|&x| (29..166).contains(&x)).collect();
    assert_eq!(destination.first(), Some(&30));
    assert_eq!(destination.last(), Some(&(29 + 20 * 6 + 6)));
    assert_eq!(destination.len(), 21 * 6);
}

#[test]
fn empty_snapshot_shows_the_placeholder_on_both_rows() {
    let font = test_font();
    let frame = compose_frame(&font, &DisplaySnapshot::empty(), 0, false, 0, false, None);
    let mut expected = FrameBuffer::new();
    render_train_row(&font, &mut expected, &Train::empty(), 0, 1, false);
    render_train_row(&font, &mut expected, &Train::empty(), 16, 2, false);
    assert_eq!(frame.raw_pixels(), expected.raw_pixels());
    assert_eq!((frame.width(), frame.height()), (192, 32));
    assert!(!lit_columns(&frame, 3).is_empty());
    assert!(!lit_columns(&frame, 19).is_empty());
}

#[test]
fn same_inputs_give_the_same_frame() {
    let font = test_font();
    let snapshot = snapshot_of(
        vec![make_train("1", "Uptown", 0, false), make_train("4", "Woodlawn", 3, true)],
        vec![make_alert("a1")],
    );
    let alert = make_alert("a1");
    let mut first = Renderer::new(&font);
    let mut second = Renderer::new(&font);
    for (cycle, flash, scroll, show) in
        [(0, false, 0, false), (3, true, 40, true), (9, false, 250, true), (1, true, 0, false)]
    {
        let a = first.render_frame(&snapshot, cycle, flash, scroll, show, Some(&alert));
        let b = second.render_frame(&snapshot, cycle, flash, scroll, show, Some(&alert));
        let c = first.render_frame(&snapshot, cycle, flash, scroll, show, Some(&alert));
        assert_eq!(a.raw_pixels(), b.raw_pixels());
        assert_eq!(a.raw_pixels(), c.raw_pixels());
    }
}

#[test]
fn bottom_row_takes_turns_among_six_trains() {
    let font = test_font();
    let trains: Vec<Train> = (0..9).map(|i| make_train("", &"a".repeat(i + 1), 5, false)).collect();
    let snapshot = snapshot_of(trains.clone(), Vec::new());
    let mut renderer = Renderer::new(&font);
    for cycle in 0..8usize {
        let slot = cycle.min(5);
        let frame = renderer.render_frame(&snapshot, cycle, false, 0, false, None);
        let mut expected = FrameBuffer::new();
        render_train_row(&font, &mut expected, &trains[0], 0, 1, false);
        render_train_row(&font, &mut expected, &trains[slot + 1], 16, slot + 2, false);
        assert_eq!(frame.raw_pixels(), expected.raw_pixels(), "cycle {}", cycle);
    }
}

#[test]
fn alert_scrolls_in_from_the_right_edge() {
    let font = test_font();
    let mut renderer = Renderer::new(&font);
    let snapshot = snapshot_of(vec![make_train("", "", 5, false)], Vec::new());
    let alert = Alert {
        text: "A".into(),
        affected_routes: Vec::new(),
        priority: 1,
        alert_id: "x".into(),
    };
    let top_only = renderer.render_frame(&snapshot, 0, false, 0, true, None);
    // At offset 0 the picture starts at column 192: nothing of it shows.
    let hidden = renderer.render_frame(&snapshot, 0, false, 0, true, Some(&alert));
    assert_eq!(hidden.raw_pixels(), top_only.raw_pixels());
    assert_eq!(renderer.get_scroll_complete_distance(), 192 + 13 + 10);
    // At offset 20 the picture starts at column 172, at row 15. Row 2 of
    // the picture holds columns 7, 8, 9.
    let shown = renderer.render_frame(&snapshot, 0, false, 20, true, Some(&alert));
    let row: Vec<usize> =
        lit_columns(&shown, 17).into_iter().filter(|x| !lit_columns(&top_only, 17).contains(x)).collect();
    assert_eq!(row, vec![179, 180, 181]);
    assert_eq!(shown.get_pixel(179, 17), COLOR_ORANGE);
    // The picture is 13 wide: at offset 192 + 12 its last column is on the
    // sign, at 192 + 13 it is gone. Column 12 is lit in rows 4 to 7 of the
    // glyph, 1820 << 2 and 1548 << 2.
    let last = renderer.render_frame(&snapshot, 0, false, 204, true, Some(&alert));
    for y in 0..32usize {
        let lit = (20..=23).contains(&y);
        assert_eq!(last.get_pixel(0, y) == COLOR_ORANGE, lit, "row {}", y);
        assert_eq!(last.get_pixel(1, y), top_only.get_pixel(1, y));
    }
    let gone = renderer.render_frame(&snapshot, 0, false, 205, true, Some(&alert));
    assert_eq!(gone.raw_pixels(), top_only.raw_pixels());
    let huge = renderer.render_frame(&snapshot, 0, false, i32::MAX, true, Some(&alert));
    assert_eq!(huge.raw_pixels(), top_only.raw_pixels());
    let before = renderer.render_frame(&snapshot, 0, false, i32::MIN, true, Some(&alert));
    assert_eq!(before.raw_pixels(), top_only.raw_pixels());
}

#[test]
fn scroll_distance_follows_the_alert_drawn_last() {
    let font = test_font();
    let mut renderer = Renderer::new(&font);
    assert_eq!(renderer.get_scroll_complete_distance(), 202);
    let snapshot = DisplaySnapshot::empty();
    let mut alert = make_alert("a");
    alert.text = "A[1]".into();
    renderer.render_frame(&snapshot, 0, false, 0, true, Some(&alert));
    assert_eq!(renderer.get_scroll_complete_distance(), 192 + 32 + 10);
    // An alert that is not shown leaves the distance alone.
    alert.text = "A".into();
    renderer.render_frame(&snapshot, 0, false, 0, false, Some(&alert));
    assert_eq!(renderer.get_scroll_complete_distance(), 234);
    renderer.render_frame(&snapshot, 0, false, 0, true, None);
    assert_eq!(renderer.get_scroll_complete_distance(), 234);
    renderer.render_frame(&snapshot, 0, false, 0, true, Some(&alert));
    assert_eq!(renderer.get_scroll_complete_distance(), 192 + 13 + 10);
    // Other routes for the same text give the same picture.
    alert.affected_routes = vec!["7".into(), "A".into()];
    renderer.render_frame(&snapshot, 0, false, 0, true, Some(&alert));
    assert_eq!(renderer.get_scroll_complete_distance(), 215);
}

#[test]
fn routes_key_is_sorted_and_joined_by_commas() {
    let key = |routes: &[&str]| routes_key(&routes.iter().map(|s| s.to_string()).collect());
    assert_eq!(key(&[]), "");
    assert_eq!(key(&["A"]), "A");
    assert_eq!(key(&["N", "1", "A", "GS", "7"]), "1,7,A,GS,N");
    assert_eq!(key(&["b", "B", "10", "1", ""]), ",1,10,B,b");
    assert_eq!(key(&["2", "2", "1"]), "1,2,2");
    assert_eq!(key(&["\u{00E9}", "z", "Z"]), "Z,z,\u{00E9}");
    let mut sorted = vec!["b", "B", "10", "1", "", "\u{00E9}", "z"];
    sorted.sort();
    assert_eq!(key(&["z", "", "b", "\u{00E9}", "1", "B", "10"]), sorted.join(","));
    assert!(str_le("", ""));
    assert!(str_le("", "a"));
    assert!(!str_le("a", ""));
    assert!(str_le("a", "ab"));
    assert!(!str_le("ab", "a"));
    assert!(str_le("ab", "b"));
    assert!(str_le("a", "a"));
}

#[test]
fn text_is_clipped_to_a_mebibyte_between_characters() {
    assert!(is_drawable(""));
    assert_eq!(clip_text("Times Sq-42 St"), "Times Sq-42 St");
    let full = "a".repeat(MAX_TEXT_BYTES);
    assert!(is_drawable(&full));
    assert_eq!(clip_text(&full), full);
    // One byte more: the last character goes.
    let over = format!("{}b", full);
    assert!(!is_drawable(&over));
    assert_eq!(clip_text(&over), full);
    // A character of two bytes that ends one byte over goes as a whole.
    let head = "a".repeat(MAX_TEXT_BYTES - 1);
    let split = format!("{}\u{00E9}tail", head);
    assert!(!is_drawable(&split));
    assert_eq!(clip_text(&split), head);
    // One that ends at the limit stays.
    let fits = format!("{}\u{00E9}tail", "a".repeat(MAX_TEXT_BYTES - 2));
    assert_eq!(clip_text(&fits).len(), MAX_TEXT_BYTES);
    assert!(clip_text(&fits).ends_with('\u{00E9}'));
}

#[test]
fn snapshot_is_drawable_when_every_destination_is() {
    assert!(is_snapshot_drawable(&DisplaySnapshot::empty()));
    let long = "a".repeat(MAX_TEXT_BYTES + 1);
    let good = snapshot_of(
        vec![make_train("1", "Uptown", 1, false), make_train(&long, "Downtown", 2, false)],
        vec![make_alert(&long)],
    );
    assert!(is_snapshot_drawable(&good));
    let bad = snapshot_of(
        vec![make_train("1", "Uptown", 1, false), make_train("2", &long, 2, false)],
        Vec::new(),
    );
    assert!(!is_snapshot_drawable(&bad));
}

// ---------------------------------------------------------------------
// The state machine
// ---------------------------------------------------------------------

#[test]
fn arrival_sets_off_the_first_alert() {
    let alerts = vec![make_alert("a1"), make_alert("a2")];
    let mut am = AlertManager::new();
    am.filter_and_sort_at(&alerts, 0);
    let snapshot =
        snapshot_of(vec![make_train("4", "Woodlawn", 0, true), make_train("1", "Uptown", 2, false)], Vec::new());
    let mut state = AlertState::new();
    assert!(state.needs_update(&snapshot));
    state.update_at(&mut am, &snapshot, 300, 1, 90_000, 5_000);
    assert!(state.show_alert);
    assert_eq!(state.current_alert.as_ref().unwrap().alert_id, "a1");
    assert_eq!(state.scroll_offset, 1);
    assert_eq!(state.triggered_by, Some(("4".to_string(), "Woodlawn".to_string())));
    assert_eq!(state.cycle_start_time, 5_000);
}

#[test]
fn idle_machine_without_arrival_touches_nothing() {
    let alerts = vec![make_alert("a1")];
    let mut am = AlertManager::new();
    am.filter_and_sort_at(&alerts, 0);
    am.mark_displayed_at(&make_alert("old"), 0);
    let snapshot =
        snapshot_of(vec![make_train("1", "Uptown", 1, false), make_train("2", "X", 0, false)], Vec::new());
    let mut state = AlertState::new();
    assert!(!state.needs_update(&snapshot));
    // Were the manager touched, its cleanup would drop the old entry.
    state.update_at(&mut am, &snapshot, 300, 1, 90_000, 10_000_000);
    assert!(!state.show_alert);
    assert!(am.filter_and_sort_at(&[make_alert("old")], 0).is_empty());
    assert!(!AlertState::new().needs_update(&DisplaySnapshot::empty()));
}

#[test]
fn no_alert_goes_on_without_alerts_off_cooldown() {
    let alerts = vec![make_alert("a1")];
    let mut am = AlertManager::new();
    am.filter_and_sort_at(&alerts, 0);
    am.mark_displayed_at(&alerts[0], 0);
    let snapshot = snapshot_of(vec![make_train("1", "Uptown", 0, false)], Vec::new());
    let mut state = AlertState::new();
    state.update_at(&mut am, &snapshot, 300, 1, 90_000, 1_000);
    assert!(!state.show_alert);
    assert!(state.current_alert.is_none());
    state.update_at(&mut am, &snapshot, 300, 1, 90_000, 300_000);
    assert!(state.show_alert);
}

#[test]
fn alert_scrolls_until_the_distance_and_then_the_next_follows() {
    let alerts = vec![make_alert("a1"), make_alert("a2")];
    let mut am = AlertManager::new();
    am.filter_and_sort_at(&alerts, 0);
    let snapshot = snapshot_of(vec![make_train("1", "Uptown", 0, false)], Vec::new());
    let mut state = AlertState::new();
    state.update_at(&mut am, &snapshot, 10, 3, 90_000, 0);
    assert_eq!(state.scroll_offset, 3);
    state.update_at(&mut am, &snapshot, 10, 3, 90_000, 16);
    state.update_at(&mut am, &snapshot, 10, 3, 90_000, 33);
    assert_eq!(state.scroll_offset, 9);
    assert_eq!(state.current_alert.as_ref().unwrap().alert_id, "a1");
    // The fourth tick reaches 12: the alert is over and the second follows.
    state.update_at(&mut am, &snapshot, 10, 3, 90_000, 50);
    assert!(state.show_alert);
    assert_eq!(state.current_alert.as_ref().unwrap().alert_id, "a2");
    assert_eq!(state.scroll_offset, 0);
    assert_eq!(state.cycle_start_time, 0);
    // The first alert is on cooldown, the second is not.
    assert!(am.has_alerts_at(50));
    // Once the second is over too the machine rests.
    state.scroll_offset = 9;
    state.update_at(&mut am, &snapshot, 10, 3, 90_000, 66);
    assert!(!state.show_alert);
    assert!(state.current_alert.is_none());
    assert!(state.triggered_by.is_none());
    assert_eq!(state.scroll_offset, 0);
    assert!(am.all_shown_this_cycle());
    // Both alerts are on cooldown now, so the arriving train sets nothing off.
    state.update_at(&mut am, &snapshot, 10, 3, 90_000, 83);
    assert!(!state.show_alert);
}

#[test]
fn scroll_reaching_exactly_the_distance_counts_as_done() {
    let mut am = AlertManager::new();
    am.filter_and_sort_at(&[make_alert("a1")], 0);
    let snapshot = snapshot_of(vec![make_train("1", "Uptown", 0, false)], Vec::new());
    let mut state = AlertState::new();
    state.update_at(&mut am, &snapshot, 10, 1, 90_000, 0);
    state.scroll_offset = 8;
    state.update_at(&mut am, &snapshot, 10, 1, 90_000, 0);
    assert!(state.show_alert);
    assert_eq!(state.scroll_offset, 9);
    state.update_at(&mut am, &snapshot, 10, 1, 90_000, 0);
    assert!(!state.show_alert);
}

#[test]
fn timeout_beats_everything_else() {
    let alerts = vec![make_alert("a1"), make_alert("a2")];
    let mut am = AlertManager::new();
    am.filter_and_sort_at(&alerts, 0);
    let snapshot = snapshot_of(vec![make_train("1", "Uptown", 0, false)], Vec::new());
    let mut state = AlertState::new();
    state.update_at(&mut am, &snapshot, 300, 1, 90_000, 1_000);
    // Exactly at the limit the cycle goes on.
    state.update_at(&mut am, &snapshot, 300, 1, 90_000, 91_000);
    assert!(state.show_alert);
    assert_eq!(state.scroll_offset, 2);
    // Past the limit it ends, even though the scroll is done.
    state.scroll_offset = 400;
    state.update_at(&mut am, &snapshot, 300, 1, 90_000, 91_001);
    assert!(!state.show_alert);
    assert_eq!(state.scroll_offset, 0);
    // The alert was not marked as shown.
    assert!(!am.all_shown_this_cycle());
    assert!(am.has_alerts_at(91_001));
}

#[test]
fn departure_with_a_new_arrival_restarts_the_cycle() {
    let alerts = vec![make_alert("a1"), make_alert("a2"), make_alert("a3")];
    let mut am = AlertManager::new();
    am.filter_and_sort_at(&alerts, 0);
    let first = snapshot_of(vec![make_train("1", "Uptown", 0, false)], Vec::new());
    let mut state = AlertState::new();
    state.update_at(&mut am, &first, 10, 1, 90_000, 1_000);
    assert_eq!(state.current_alert.as_ref().unwrap().alert_id, "a1");
    // The first train has left and another is arriving.
    let second = snapshot_of(vec![make_train("2", "Flatbush", 0, false)], Vec::new());
    state.scroll_offset = 9;
    state.update_at(&mut am, &second, 10, 1, 90_000, 2_000);
    assert!(state.show_alert);
    assert_eq!(state.current_alert.as_ref().unwrap().alert_id, "a2");
    assert_eq!(state.triggered_by, Some(("2".to_string(), "Flatbush".to_string())));
    assert_eq!(state.cycle_start_time, 2_000);
    assert_eq!(state.scroll_offset, 0);
    // The cycle was reset: a1 no longer counts as shown.
    assert!(!am.all_shown_this_cycle());
}

#[test]
fn departure_without_a_new_arrival_ends_the_cycle() {
    let alerts = vec![make_alert("a1"), make_alert("a2")];
    let mut am = AlertManager::new();
    am.filter_and_sort_at(&alerts, 0);
    let arriving = snapshot_of(vec![make_train("1", "Uptown", 0, false)], Vec::new());
    let mut state = AlertState::new();
    state.update_at(&mut am, &arriving, 10, 1, 90_000, 0);
    // The train has left; the alert on the sign scrolls to its end first.
    let left = snapshot_of(vec![make_train("1", "Uptown", 2, false)], Vec::new());
    state.update_at(&mut am, &left, 10, 1, 90_000, 16);
    assert!(state.show_alert);
    assert_eq!(state.scroll_offset, 2);
    state.scroll_offset = 9;
    state.update_at(&mut am, &left, 10, 1, 90_000, 33);
    assert!(!state.show_alert);
    // The same train still arriving elsewhere in the list keeps the cycle.
    let mut am = AlertManager::new();
    am.filter_and_sort_at(&alerts, 0);
    let mut state = AlertState::new();
    state.update_at(&mut am, &arriving, 10, 1, 90_000, 0);
    let behind = snapshot_of(
        vec![make_train("3", "Harlem", 0, false), make_train("1", "Uptown", 0, false)],
        Vec::new(),
    );
    state.scroll_offset = 9;
    state.update_at(&mut am, &behind, 10, 1, 90_000, 16);
    assert_eq!(state.current_alert.as_ref().unwrap().alert_id, "a2");
    assert_eq!(state.triggered_by, Some(("1".to_string(), "Uptown".to_string())));
    assert_eq!(state.cycle_start_time, 0);
}

#[test]
fn scroll_offset_stops_at_the_ends_of_its_range() {
    assert_eq!(saturating_scroll(5, 3), 8);
    assert_eq!(saturating_scroll(5, -8), -3);
    assert_eq!(saturating_scroll(i32::MAX, 1), i32::MAX);
    assert_eq!(saturating_scroll(i32::MAX - 1, 1), i32::MAX);
    assert_eq!(saturating_scroll(i32::MIN, -1), i32::MIN);
    assert_eq!(saturating_scroll(i32::MAX, i32::MIN), -1);
    let mut am = AlertManager::new();
    am.filter_and_sort_at(&[make_alert("a1")], 0);
    let snapshot = snapshot_of(vec![make_train("1", "Uptown", 0, false)], Vec::new());
    let mut state = AlertState::new();
    state.update_at(&mut am, &snapshot, i32::MAX, 1, 90_000, 0);
    state.scroll_offset = i32::MAX - 1;
    state.update_at(&mut am, &snapshot, i32::MAX, i32::MAX, 90_000, 0);
    assert!(!state.show_alert);
}

#[test]
fn clear_puts_the_machine_at_rest() {
    let mut state = AlertState::new();
    state.show_alert = true;
    state.current_alert = Some(make_alert("a"));
    state.scroll_offset = 77;
    state.triggered_by = Some(("1".to_string(), "x".to_string()));
    state.cycle_start_time = 5;
    state.clear();
    assert!(!state.show_alert);
    assert!(state.current_alert.is_none());
    assert_eq!(state.scroll_offset, 0);
    assert!(state.triggered_by.is_none());
    assert_eq!(state.cycle_start_time, 5);
}
