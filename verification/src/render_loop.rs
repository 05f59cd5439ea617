//! The bookkeeping of the render loop.
//!
//! The loop itself waits, reads shared data and talks to the display; none
//! of that is done here. What is decided once per frame is: when the bottom
//! row moves on to the next train, when the flash toggles, when a changed
//! brightness is passed on to the display, how the frame times add up, when
//! they are reported, and how long the loop sleeps. Each decision is a
//! function of the loop's state and of what the loop measured.

use vstd::prelude::*;

verus! {

/// Frames per second that the loop aims at.
pub const TARGET_FPS: u64 = 60;

/// The time of one frame in nanoseconds.
pub const FRAME_TIME_NANOS: u64 = 16_666_666;

/// Milliseconds after which the bottom row moves on to the next train.
pub const CYCLE_INTERVAL_MS: u64 = 3_000;

/// Milliseconds after which the flash toggles.
pub const FLASH_INTERVAL_MS: u64 = 500;

/// Trains that take turns on the bottom row.
pub const CYCLE_LENGTH: usize = 6;

/// Pixels that an alert scrolls per frame: sixty pixels a second.
pub const SCROLL_SPEED: i32 = 1;

/// The longest that one cycle of alerts may take, in milliseconds.
pub const MAX_ALERT_CYCLE_MS: u64 = 90_000;

/// Milliseconds between two reports of the frame times.
pub const STATS_INTERVAL_MS: u64 = 300_000;

/// Frames between two looks at the configured brightness.
pub const BRIGHTNESS_POLL_FRAMES: u64 = 60;

/// The lowest and the highest brightness that is passed to the display, in
/// percent.
pub const MIN_BRIGHTNESS: u8 = 1;

/// The highest brightness, in percent.
pub const MAX_BRIGHTNESS: u8 = 100;

/// What the loop keeps from frame to frame. Times are readings of the
/// loop's clock in milliseconds.
#[derive(Clone, Copy, Debug, PartialEq, Eq, Structural)]
pub struct RenderLoopState {
    /// The brightness last passed to the display, in percent.
    pub current_brightness: u8,
    /// Which of the following trains is on the bottom row.
    pub cycle_index: usize,
    pub flash_state: bool,
    pub last_cycle_time: u64,
    pub last_flash_time: u64,
    /// Frames since the last report.
    pub frame_count: u64,
    /// Frames since the last report that took longer than a frame time.
    pub missed_frames: u64,
    /// The longest frame since the last report, in microseconds.
    pub max_frame_us: u64,
    /// The time of all frames since the last report, in microseconds.
    pub total_frame_us: u64,
    pub last_stats_time: u64,
}

/// The frame times since the last report.
#[derive(Clone, Copy, Debug, PartialEq, Eq, Structural)]
pub struct FrameStats {
    pub frame_count: u64,
    pub missed_frames: u64,
    pub max_frame_us: u64,
    pub total_frame_us: u64,
    /// Milliseconds since the last report.
    pub elapsed_ms: u64,
}

/// What the loop has to do at the end of a frame.
#[derive(Clone, Copy, Debug, PartialEq, Eq, Structural)]
pub struct FrameActions {
    /// The brightness to pass to the display, where it has changed.
    pub set_brightness: Option<u8>,
    /// Whether to record that the loop is alive.
    pub record_tick: bool,
    /// The frame times to report, where a report is due.
    pub report: Option<FrameStats>,
}

/// The time from one clock reading to a later one, zero where the second
/// reading is not later.
pub open spec fn time_since(now: u64, then: u64) -> u64 {
    if now >= then {
        (now - then) as u64
    } else {
        0
    }
}

/// A sum of two counters that stops at the largest number.
pub open spec fn capped_sum(a: u64, b: u64) -> u64 {
    if a + b > u64::MAX {
        u64::MAX
    } else {
        (a + b) as u64
    }
}

/// A brightness in percent brought into the range that the display takes.
pub open spec fn clamped_brightness(percent: u8) -> u8 {
    if percent < 1 {
        1
    } else if percent > 100 {
        100
    } else {
        percent
    }
}

/// How long the loop sleeps after a frame that took `elapsed_nanos`: the
/// rest of the frame time, and not at all where the frame took longer.
pub open spec fn sleep_nanos(elapsed_nanos: u64) -> Option<u64> {
    if elapsed_nanos < 16_666_666 {
        Some((16_666_666 - elapsed_nanos) as u64)
    } else {
        None
    }
}

impl RenderLoopState {
    /// The state at the start of a frame at the clock reading `now`: the
    /// bottom row moves on to the next of the six trains where three
    /// seconds have passed since it last did, and the flash toggles where
    /// half a second has passed since it last did.
    pub open spec fn begun(self, now: u64) -> RenderLoopState {
        let cycled = time_since(now, self.last_cycle_time) >= 3_000;
        let flashed = time_since(now, self.last_flash_time) >= 500;
        RenderLoopState {
            cycle_index: if cycled {
                ((self.cycle_index + 1) % 6) as usize
            } else {
                self.cycle_index
            },
            last_cycle_time: if cycled {
                now
            } else {
                self.last_cycle_time
            },
            flash_state: if flashed {
                !self.flash_state
            } else {
                self.flash_state
            },
            last_flash_time: if flashed {
                now
            } else {
                self.last_flash_time
            },
            ..self
        }
    }

    /// The state with one more frame counted that took `work_nanos`. A
    /// frame that took longer than the frame time counts as missed; it was
    /// drawn and shown all the same.
    pub open spec fn counted(self, work_nanos: u64) -> RenderLoopState {
        let work_us = work_nanos / 1000;
        RenderLoopState {
            total_frame_us: capped_sum(self.total_frame_us, work_us),
            max_frame_us: if work_us > self.max_frame_us {
                work_us
            } else {
                self.max_frame_us
            },
            missed_frames: if work_nanos > 16_666_666 {
                capped_sum(self.missed_frames, 1)
            } else {
                self.missed_frames
            },
            frame_count: capped_sum(self.frame_count, 1),
            ..self
        }
    }

    /// Whether the configured brightness is looked at after this frame.
    pub open spec fn polls_brightness(self) -> bool {
        self.frame_count % 60 == 0
    }

    /// Whether the frame times are reported at the clock reading `now`.
    pub open spec fn report_due(self, now: u64) -> bool {
        time_since(now, self.last_stats_time) >= 300_000
    }

    /// The frame times as they are reported at the clock reading `now`.
    pub open spec fn stats(self, now: u64) -> FrameStats {
        FrameStats {
            frame_count: self.frame_count,
            missed_frames: self.missed_frames,
            max_frame_us: self.max_frame_us,
            total_frame_us: self.total_frame_us,
            elapsed_ms: time_since(now, self.last_stats_time),
        }
    }

    /// The state at the end of a frame and what the loop has to do. The
    /// frame is counted. Every sixtieth frame the configured brightness is
    /// compared with the one last passed on, and passed on where it
    /// differs. Where five minutes have passed since the last report the
    /// frame times are reported and the counters start again from zero.
    pub open spec fn ended(self, work_nanos: u64, configured_brightness: u8, now: u64) -> (
        RenderLoopState,
        FrameActions,
    ) {
        let counted = self.counted(work_nanos);
        let wanted = clamped_brightness(configured_brightness);
        let poll = counted.polls_brightness();
        let changed = poll && wanted != counted.current_brightness;
        let lit = RenderLoopState {
            current_brightness: if changed {
                wanted
            } else {
                counted.current_brightness
            },
            ..counted
        };
        let due = lit.report_due(now);
        (
            if due {
                RenderLoopState {
                    frame_count: 0,
                    missed_frames: 0,
                    max_frame_us: 0,
                    total_frame_us: 0,
                    last_stats_time: now,
                    ..lit
                }
            } else {
                lit
            },
            FrameActions {
                set_brightness: if changed {
                    Some(wanted)
                } else {
                    None
                },
                record_tick: poll,
                report: if due {
                    Some(lit.stats(now))
                } else {
                    None
                },
            },
        )
    }
}

/// The time from the clock reading `then` to the reading `now`.
pub fn elapsed_between(now: u64, then: u64) -> (elapsed: u64)
    ensures
        elapsed == time_since(now, then),
{
    if now >= then {
        now - then
    } else {
        0
    }
}

/// A sum that stops at the highest number.
fn add_capped(a: u64, b: u64) -> (sum: u64)
    ensures
        sum == capped_sum(a, b),
{
    if a > u64::MAX - b {
        u64::MAX
    } else {
        a + b
    }
}

/// Brings a brightness in percent into the range that the display takes.
pub fn clamp_brightness(percent: u8) -> (clamped: u8)
    ensures
        clamped == clamped_brightness(percent),
        1 <= clamped <= 100,
{
    if percent < MIN_BRIGHTNESS {
        MIN_BRIGHTNESS
    } else if percent > MAX_BRIGHTNESS {
        MAX_BRIGHTNESS
    } else {
        percent
    }
}

/// How long to sleep after a frame that took `elapsed_nanos`, in
/// nanoseconds; `None` where the frame used up its time.
pub fn sleep_after(elapsed_nanos: u64) -> (nanos: Option<u64>)
    ensures
        nanos == sleep_nanos(elapsed_nanos),
{
    if elapsed_nanos < FRAME_TIME_NANOS {
        Some(FRAME_TIME_NANOS - elapsed_nanos)
    } else {
        None
    }
}

impl RenderLoopState {
    /// The state of a loop that starts at the clock reading `now` with the
    /// given brightness.
    pub fn new(brightness: u8, now: u64) -> (state: RenderLoopState)
        ensures
            state == (RenderLoopState {
                current_brightness: brightness,
                cycle_index: 0,
                flash_state: false,
                last_cycle_time: now,
                last_flash_time: now,
                frame_count: 0,
                missed_frames: 0,
                max_frame_us: 0,
                total_frame_us: 0,
                last_stats_time: now,
            }),
    {
        RenderLoopState {
            current_brightness: brightness,
            cycle_index: 0,
            flash_state: false,
            last_cycle_time: now,
            last_flash_time: now,
            frame_count: 0,
            missed_frames: 0,
            max_frame_us: 0,
            total_frame_us: 0,
            last_stats_time: now,
        }
    }

    /// Starts a frame at the clock reading `now`.
    pub fn begin_frame(&mut self, now: u64)
        ensures
            *final(self) == old(self).begun(now),
    {
        if elapsed_between(now, self.last_cycle_time) >= CYCLE_INTERVAL_MS {
            self.last_cycle_time = now;
            self.cycle_index = (self.cycle_index % CYCLE_LENGTH + 1) % CYCLE_LENGTH;
            proof {
                let i = old(self).cycle_index as int;
                assert(((i % 6) + 1) % 6 == (i + 1) % 6) by (nonlinear_arith);
            }
        }
        if elapsed_between(now, self.last_flash_time) >= FLASH_INTERVAL_MS {
            self.last_flash_time = now;
            self.flash_state = !self.flash_state;
        }
    }

    /// Ends a frame that took `work_nanos` at the clock reading `now`, with
    /// the brightness that is configured at present, in percent, and says
    /// what the loop has to do.
    pub fn end_frame(&mut self, work_nanos: u64, configured_brightness: u8, now: u64) -> (actions:
        FrameActions)
        ensures
            (*final(self), actions) == old(self).ended(work_nanos, configured_brightness, now),
    {
        let work_us = work_nanos / 1000;
        self.total_frame_us = add_capped(self.total_frame_us, work_us);
        if work_us > self.max_frame_us {
            self.max_frame_us = work_us;
        }
        if work_nanos > FRAME_TIME_NANOS {
            self.missed_frames = add_capped(self.missed_frames, 1);
        }
        self.frame_count = add_capped(self.frame_count, 1);

        let mut set_brightness: Option<u8> = None;
        let poll = self.frame_count % BRIGHTNESS_POLL_FRAMES == 0;
        if poll {
            let wanted = clamp_brightness(configured_brightness);
            if wanted != self.current_brightness {
                self.current_brightness = wanted;
                set_brightness = Some(wanted);
            }
        }
        let mut report: Option<FrameStats> = None;
        let since_report = elapsed_between(now, self.last_stats_time);
        if since_report >= STATS_INTERVAL_MS {
            report = Some(
                FrameStats {
                    frame_count: self.frame_count,
                    missed_frames: self.missed_frames,
                    max_frame_us: self.max_frame_us,
                    total_frame_us: self.total_frame_us,
                    elapsed_ms: since_report,
                },
            );
            self.frame_count = 0;
            self.missed_frames = 0;
            self.max_frame_us = 0;
            self.total_frame_us = 0;
            self.last_stats_time = now;
        }
        FrameActions { set_brightness, record_tick: poll, report }
    }
}

} // verus!
