use subway_sign::render_loop::{
    clamp_brightness, elapsed_between, sleep_after, FrameActions, FrameStats, RenderLoopState,
    FRAME_TIME_NANOS, MAX_ALERT_CYCLE_MS, SCROLL_SPEED,
};

fn nothing() -> FrameActions {
    FrameActions { set_brightness: None, record_tick: false, report: None }
}

#[test]
fn new_loop_state_starts_at_the_first_train() {
    let state = RenderLoopState::new(50, 7);
    assert_eq!(state.current_brightness, 50);
    assert_eq!(state.cycle_index, 0);
    assert!(!state.flash_state);
    assert_eq!((state.last_cycle_time, state.last_flash_time, state.last_stats_time), (7, 7, 7));
    assert_eq!(
        (state.frame_count, state.missed_frames, state.max_frame_us, state.total_frame_us),
        (0, 0, 0, 0)
    );
    assert_eq!(SCROLL_SPEED, 1);
    assert_eq!(MAX_ALERT_CYCLE_MS, 90_000);
}

#[test]
fn bottom_row_moves_on_every_three_seconds() {
    let mut state = RenderLoopState::new(50, 1_000);
    state.begin_frame(3_999);
    assert_eq!((state.cycle_index, state.last_cycle_time), (0, 1_000));
    state.begin_frame(4_000);
    assert_eq!((state.cycle_index, state.last_cycle_time), (1, 4_000));
    for step in 1..=5u64 {
        state.begin_frame(4_000 + step * 3_000);
        assert_eq!(state.cycle_index, ((1 + step) % 6) as usize);
    }
    assert_eq!(state.cycle_index, 0);
    // A clock that runs backwards counts as no time passed.
    state.begin_frame(0);
    assert_eq!((state.cycle_index, state.last_cycle_time), (0, 19_000));
}

#[test]
fn flash_toggles_every_half_second() {
    let mut state = RenderLoopState::new(50, 0);
    state.begin_frame(499);
    assert!(!state.flash_state);
    state.begin_frame(500);
    assert!(state.flash_state);
    assert_eq!(state.last_flash_time, 500);
    state.begin_frame(999);
    assert!(state.flash_state);
    state.begin_frame(1_000);
    assert!(!state.flash_state);
}

#[test]
fn cycle_index_out_of_range_comes_back_into_range() {
    let mut state = RenderLoopState::new(50, 0);
    state.cycle_index = usize::MAX;
    state.begin_frame(3_000);
    assert_eq!(state.cycle_index, (usize::MAX % 6 + 1) % 6);
}

#[test]
fn frames_are_counted_and_slow_frames_are_missed_frames() {
    let mut state = RenderLoopState::new(50, 0);
    assert_eq!(state.end_frame(5_000_999, 50, 1), nothing());
    assert_eq!(state.end_frame(FRAME_TIME_NANOS, 50, 2), nothing());
    assert_eq!(state.end_frame(FRAME_TIME_NANOS + 1, 50, 3), nothing());
    assert_eq!(state.frame_count, 3);
    assert_eq!(state.missed_frames, 1);
    assert_eq!(state.max_frame_us, 16_666);
    assert_eq!(state.total_frame_us, 5_000 + 16_666 + 16_666);
}

#[test]
fn brightness_is_looked_at_every_sixtieth_frame() {
    let mut state = RenderLoopState::new(50, 0);
    for frame in 1..=59 {
        assert_eq!(state.end_frame(1_000, 80, frame), nothing(), "frame {}", frame);
    }
    let actions = state.end_frame(1_000, 80, 60);
    assert_eq!(actions, FrameActions { set_brightness: Some(80), record_tick: true, report: None });
    assert_eq!(state.current_brightness, 80);
    for frame in 61..=119 {
        assert_eq!(state.end_frame(1_000, 10, frame), nothing());
    }
    // The same brightness is not passed on again.
    let actions = state.end_frame(1_000, 80, 120);
    assert_eq!(actions, FrameActions { set_brightness: None, record_tick: true, report: None });
}

#[test]
fn brightness_is_kept_between_one_and_a_hundred() {
    assert_eq!(clamp_brightness(0), 1);
    assert_eq!(clamp_brightness(1), 1);
    assert_eq!(clamp_brightness(55), 55);
    assert_eq!(clamp_brightness(100), 100);
    assert_eq!(clamp_brightness(101), 100);
    assert_eq!(clamp_brightness(255), 100);
    let mut state = RenderLoopState::new(100, 0);
    state.frame_count = 59;
    assert_eq!(state.end_frame(0, 200, 0).set_brightness, None);
    state.frame_count = 59;
    assert_eq!(state.end_frame(0, 0, 0).set_brightness, Some(1));
}

#[test]
fn frame_times_are_reported_every_five_minutes() {
    let mut state = RenderLoopState::new(50, 1_000);
    assert_eq!(state.end_frame(2_000_000, 50, 300_999), nothing());
    let actions = state.end_frame(20_000_000, 50, 301_000);
    assert_eq!(
        actions.report,
        Some(FrameStats {
            frame_count: 2,
            missed_frames: 1,
            max_frame_us: 20_000,
            total_frame_us: 22_000,
            elapsed_ms: 300_000,
        })
    );
    assert_eq!(
        (state.frame_count, state.missed_frames, state.max_frame_us, state.total_frame_us),
        (0, 0, 0, 0)
    );
    assert_eq!(state.last_stats_time, 301_000);
    assert_eq!(state.end_frame(1, 50, 301_001), nothing());
    assert_eq!(state.frame_count, 1);
}

#[test]
fn counters_stop_at_the_largest_number() {
    let mut state = RenderLoopState::new(50, 0);
    state.frame_count = u64::MAX;
    state.missed_frames = u64::MAX;
    state.total_frame_us = u64::MAX - 1;
    state.end_frame(u64::MAX, 50, 0);
    assert_eq!(state.frame_count, u64::MAX);
    assert_eq!(state.missed_frames, u64::MAX);
    assert_eq!(state.total_frame_us, u64::MAX);
    assert_eq!(state.max_frame_us, u64::MAX / 1000);
}

#[test]
fn loop_sleeps_for_the_rest_of_the_frame_time() {
    assert_eq!(sleep_after(0), Some(16_666_666));
    assert_eq!(sleep_after(6_666_666), Some(10_000_000));
    assert_eq!(sleep_after(16_666_665), Some(1));
    assert_eq!(sleep_after(16_666_666), None);
    assert_eq!(sleep_after(u64::MAX), None);
    assert_eq!(elapsed_between(10, 4), 6);
    assert_eq!(elapsed_between(4, 10), 0);
}
