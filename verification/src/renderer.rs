//! The frame renderer: two rows of the sign composed from a snapshot of the
//! data.
//!
//! The top row shows the nearest train. The bottom row shows either one of
//! the following trains, taking turns, or the picture of an alert scrolling
//! from right to left. A frame is a function of what is passed in; the one
//! thing the renderer keeps is the picture of the last alert, so that an
//! unchanged alert is not drawn anew for every frame.

use vstd::prelude::*;
use vstd::string::*;
use vstd::utf8::encode_utf8;
use crate::alert_render::{
    alert_icon, alert_picture, lookup_icon, render_alert_text, CHAR_SPACING, MAX_TEXT_BYTES,
};
use crate::alert_text::{
    alert_parts, byte_len, find_route_tokens, lemma_chars_le_bytes, route_tokens, slice,
    slice_chars,
};
use crate::colors::{Rgb, COLOR_BLACK, COLOR_GREEN, COLOR_RED};
use crate::fonts::{
    lemma_extent_of_prefix, lemma_short_text_fits, lemma_sum_widths_bounds, text_extent_fits,
    FontView, MtaFont,
};
use crate::framebuffer::{
    frame_sprite, icon_sprite, text_advance, FrameBuffer, FrameView, DISPLAY_HEIGHT, DISPLAY_WIDTH,
};
use crate::models::{Alert, DisplaySnapshot, SnapshotView, Train, TrainView};
use crate::text::{
    decimal_chars, lemma_decimal_len_u64, push_decimal, push_signed_decimal, signed_decimal_chars,
    str_eq,
};

verus! {

/// Width kept free for a route icon in a train row.
pub const ICON_SLOT_WIDTH: i32 = 14;

/// Pixels between the icon slot and the destination.
pub const ICON_TO_DESTINATION_GAP: i32 = 3;

/// Pixels kept free between the destination and the arrival time.
pub const TIME_GUTTER: i32 = 5;

/// Where a train row starts above its text.
pub const ROW_LIFT: i32 = 4;

/// The row of the frame at which the picture of an alert is drawn.
pub const ALERT_ROW_Y: i32 = 15;

/// The row offset of the bottom train row.
pub const BOTTOM_ROW_OFFSET: i32 = 16;

/// Trains that take turns on the bottom row.
pub const CYCLE_SLOTS: usize = 6;

/// Pixels that an alert scrolls on after its last column has left the
/// sign.
pub const SCROLL_MARGIN: i32 = 10;

/// The column at which the ordinal label of a train row starts.
pub const LABEL_X: i32 = -2;

/// Minutes from which on the arrival time is shown as unknown.
pub const UNKNOWN_FROM_MINUTES: i32 = 999;

/// A number that is zero where the argument is negative.
pub open spec fn clamp0(v: int) -> int {
    if v < 0 {
        0
    } else {
        v
    }
}

/// The colours of a train row, first of the arrival time, then of the rest:
/// green for a train on its way, red for an arriving train, whose time
/// goes black while the flash is on.
pub open spec fn row_colors(minutes: int, flash: bool) -> (Rgb, Rgb) {
    if minutes == 0 && flash {
        (COLOR_BLACK, COLOR_RED)
    } else if minutes == 0 {
        (COLOR_RED, COLOR_RED)
    } else {
        (COLOR_GREEN, COLOR_GREEN)
    }
}

/// The ordinal label of a row: the number and a full stop.
pub open spec fn number_label(n: nat) -> Seq<char> {
    decimal_chars(n) + "."@
}

/// The arrival time as shown: the minutes and `min`, or `---min` where the
/// minutes are not known.
pub open spec fn time_label(minutes: int) -> Seq<char> {
    if minutes < UNKNOWN_FROM_MINUTES {
        signed_decimal_chars(minutes) + "min"@
    } else {
        "---min"@
    }
}

/// A text cut to a width: characters are taken off its end until it fits
/// or nothing is left. Nothing is put in their place.
pub open spec fn truncated(font: FontView, text: Seq<char>, max_width: nat) -> Seq<char>
    decreases text.len(),
{
    if text.len() == 0 || font.text_width(text, -1, false) <= max_width {
        text
    } else {
        truncated(font, text.drop_last(), max_width)
    }
}

/// A text that is short enough to be drawn.
pub open spec fn drawable(text: Seq<char>) -> bool {
    encode_utf8(text).len() <= MAX_TEXT_BYTES
}

/// A frame with a train row drawn into it. The row starts four pixels above
/// `y_offset` and its text stands four pixels below that start. From the
/// left: the ordinal label at x = -2, the route icon behind it, raised by
/// its baseline offset, the destination three pixels behind the icon slot,
/// cut to the room in front of the arrival time less a gutter of five
/// pixels, and the arrival time flush right.
pub open spec fn train_row(
    frame: FrameView,
    font: FontView,
    train: TrainView,
    y_offset: int,
    number: nat,
    flash: bool,
) -> FrameView {
    let y = y_offset - ROW_LIFT;
    let (time_color, text_color) = row_colors(train.minutes, flash);
    let label = number_label(number);
    let labelled = frame.draw_text(font, label, LABEL_X as int, y + ROW_LIFT, text_color, false, -1);
    let icon_x = clamp0(text_advance(font, label, -1, false));
    let with_icon = if train.route.len() > 0 {
        match alert_icon(font, train.route, train.is_express) {
            Some(icon) => labelled.blit(
                icon_sprite(icon.pixels),
                icon_x,
                y + ROW_LIFT - icon.baseline_offset,
            ),
            None => labelled,
        }
    } else {
        labelled
    };
    let station_x = icon_x + ICON_SLOT_WIDTH + ICON_TO_DESTINATION_GAP;
    let time_text = time_label(train.minutes);
    let time_x = DISPLAY_WIDTH - font.text_width(time_text, -1, false);
    let available = clamp0(time_x - station_x - TIME_GUTTER) as nat;
    let destination = truncated(font, train.destination, available);
    with_icon.draw_text(font, destination, station_x, y + ROW_LIFT, text_color, false, -1).draw_text(
        font,
        time_text,
        time_x,
        y + ROW_LIFT,
        time_color,
        false,
        -1,
    )
}

/// A frame with the picture of an alert drawn into the bottom row: its left
/// edge stands `scroll` pixels to the left of the sign's right edge, and it
/// is drawn only while a part of it is still on the sign.
pub open spec fn alert_row(frame: FrameView, picture: FrameView, scroll: int) -> FrameView {
    let x = DISPLAY_WIDTH - scroll;
    if x > -picture.width {
        frame.blit(frame_sprite(picture), x, ALERT_ROW_Y as int)
    } else {
        frame
    }
}

/// The frame: the nearest train on the top row, and on the bottom row the
/// picture of the alert where an alert is shown, else the train whose turn
/// it is among the six that follow the nearest.
pub open spec fn frame_content(
    font: FontView,
    snapshot: SnapshotView,
    cycle_index: nat,
    flash: bool,
    scroll: int,
    show_alert: bool,
    picture: Option<FrameView>,
) -> FrameView {
    let top = train_row(
        FrameView::blank(DISPLAY_WIDTH as nat, DISPLAY_HEIGHT as nat),
        font,
        snapshot.first_train(),
        0,
        1,
        flash,
    );
    if show_alert {
        match picture {
            Some(p) => alert_row(top, p, scroll),
            None => top,
        }
    } else {
        let slot = if cycle_index < CYCLE_SLOTS - 1 {
            cycle_index
        } else {
            (CYCLE_SLOTS - 1) as nat
        };
        train_row(
            top,
            font,
            snapshot.cycling_trains(CYCLE_SLOTS as nat)[slot as int],
            BOTTOM_ROW_OFFSET as int,
            slot + 2,
            false,
        )
    }
}

/// The picture of an alert text: the text cut at the route tokens that the
/// regex engine finds in it, the parts drawn side by side.
pub open spec fn picture_of(font: FontView, text: Seq<char>) -> FrameView {
    alert_picture(font, alert_parts(text, route_tokens(text)))
}

/// Every train of a snapshot has a destination short enough to be drawn.
pub open spec fn snapshot_drawable(snapshot: SnapshotView) -> bool {
    forall|i: int| 0 <= i < snapshot.trains.len() ==> drawable((#[trigger] snapshot.trains[i]).destination)
}

/// The last place at or before byte `k` at which a text can be cut.
pub open spec fn clip_point(bytes: Seq<u8>, k: int) -> int
    decreases k,
{
    if k <= 0 || vstd::utf8::is_char_boundary(bytes, k) {
        k
    } else {
        clip_point(bytes, k - 1)
    }
}

/// A text made short enough to be drawn: the text itself where it is, else
/// the longest run of whole characters from its start that is.
pub open spec fn clipped(text: Seq<char>) -> Seq<char> {
    if drawable(text) {
        text
    } else {
        slice_chars(encode_utf8(text), 0, clip_point(encode_utf8(text), MAX_TEXT_BYTES as int))
    }
}

/// Whether a text is short enough to be drawn.
pub fn is_drawable(text: &str) -> (r: bool)
    ensures
        r == drawable(text@),
{
    byte_len(text) <= MAX_TEXT_BYTES
}

/// Makes a text short enough to be drawn, by cutting characters off its
/// end.
pub fn clip_text(text: &str) -> (r: String)
    ensures
        r@ == clipped(text@),
        drawable(r@),
{
    broadcast use vstd::utf8::encode_utf8_valid_utf8;

    if is_drawable(text) {
        return String::from_str(text);
    }
    let ghost bytes = text.spec_bytes();
    let mut k: usize = MAX_TEXT_BYTES;
    while k > 0 && !text.is_char_boundary(k)
        invariant
            k <= MAX_TEXT_BYTES,
            MAX_TEXT_BYTES < bytes.len(),
            bytes == text.spec_bytes(),
            clip_point(bytes, MAX_TEXT_BYTES as int) == clip_point(bytes, k as int),
        decreases k,
    {
        k -= 1;
    }
    assert(vstd::utf8::is_char_boundary(bytes, k as int));
    proof {
        vstd::utf8::valid_utf8_split(bytes, k as int);
    }
    assert(vstd::utf8::is_char_boundary(bytes.subrange(0, k as int), 0));
    match slice(text, 0, k) {
        Some(part) => part,
        None => String::new(),
    }
}

/// Whether every train of a snapshot can be drawn.
pub fn is_snapshot_drawable(snapshot: &DisplaySnapshot) -> (r: bool)
    ensures
        r == snapshot_drawable(snapshot@),
{
    let mut i: usize = 0;
    while i < snapshot.trains.len()
        invariant
            i <= snapshot.trains@.len(),
            forall|j: int| 0 <= j < i ==> drawable((#[trigger] snapshot@.trains[j]).destination),
        decreases snapshot.trains@.len() - i,
    {
        assert(snapshot@.trains[i as int] == snapshot.trains@[i as int]@);
        if !is_drawable(snapshot.trains[i].destination.as_str()) {
            return false;
        }
        i += 1;
    }
    true
}

/// A truncated text is the start of the text: characters are cut off
/// its end and nothing is put in their place. It fits the width unless
/// it is empty, and it is the longest start of the text that does.
pub proof fn lemma_truncated_is_prefix(font: FontView, text: Seq<char>, max_width: nat)
    ensures
        truncated(font, text, max_width).len() <= text.len(),
        truncated(font, text, max_width) == text.take(
            truncated(font, text, max_width).len() as int,
        ),
        truncated(font, text, max_width).len() == 0 || font.text_width(
            truncated(font, text, max_width),
            -1,
            false,
        ) <= max_width,
        forall|k: int|
            truncated(font, text, max_width).len() < k <= text.len() ==> font.text_width(
                #[trigger] text.take(k),
                -1,
                false,
            ) > max_width,
    decreases text.len(),
{
    if !(text.len() == 0 || font.text_width(text, -1, false) <= max_width) {
        let front = text.drop_last();
        lemma_truncated_is_prefix(font, front, max_width);
        let cut = truncated(font, text, max_width);
        assert(front.take(cut.len() as int) =~= text.take(cut.len() as int));
        assert forall|k: int| cut.len() < k <= text.len() implies font.text_width(
            #[trigger] text.take(k),
            -1,
            false,
        ) > max_width by {
            if k < text.len() {
                assert(front.take(k) =~= text.take(k));
            } else {
                assert(text.take(k) =~= text);
            }
        }
    } else {
        assert(text.take(text.len() as int) =~= text);
    }
}

/// Cuts a text to a width by taking characters off its end, as far as it
/// takes for the text to fit.
pub fn truncate_text(font: &MtaFont, text: &str, max_width: usize) -> (r: String)
    requires
        text_extent_fits(text@.len(), CHAR_SPACING as int),
    ensures
        r@ == truncated(font@, text@, max_width as nat),
        r@.len() <= text@.len(),
{
    proof {
        lemma_truncated_is_prefix(font@, text@, max_width as nat);
    }
    let mut keep: usize = text.unicode_len();
    assert(text@.take(keep as int) =~= text@);
    loop
        invariant
            keep <= text@.len(),
            text_extent_fits(text@.len(), CHAR_SPACING as int),
            truncated(font@, text@, max_width as nat) == truncated(
                font@,
                text@.take(keep as int),
                max_width as nat,
            ),
            truncated(font@, text@, max_width as nat).len() <= text@.len(),
        decreases keep,
    {
        let prefix = text.substring_char(0, keep);
        assert(prefix@ =~= text@.take(keep as int));
        proof {
            lemma_extent_of_prefix(text@.len(), CHAR_SPACING as int, prefix@.len());
        }
        if keep == 0 {
            return String::from_str(prefix);
        }
        if font.measure_text(prefix, CHAR_SPACING, false) <= max_width {
            return String::from_str(prefix);
        }
        assert(text@.take(keep as int).drop_last() =~= text@.take(keep - 1));
        keep -= 1;
    }
}

/// The ordinal label of a row.
pub fn make_number_label(number: usize) -> (label: String)
    ensures
        label@ == number_label(number as nat),
        label@.len() <= 21,
{
    proof {
        lemma_decimal_len_u64(number as u64);
        reveal_strlit(".");
    }
    let mut label = String::new();
    push_decimal(&mut label, number as u64);
    label.append(".");
    assert(label@ =~= number_label(number as nat));
    label
}

/// The arrival time as shown on the sign.
pub fn make_time_label(minutes: i32) -> (label: String)
    ensures
        label@ == time_label(minutes as int),
        label@.len() <= 24,
{
    proof {
        reveal_strlit("min");
        reveal_strlit("---min");
        if minutes < 0 {
            lemma_decimal_len_u64((-(minutes as int)) as u64);
        } else {
            lemma_decimal_len_u64(minutes as u64);
        }
    }
    if minutes < UNKNOWN_FROM_MINUTES {
        let mut label = String::new();
        push_signed_decimal(&mut label, minutes as i64);
        label.append("min");
        assert(label@ =~= time_label(minutes as int));
        label
    } else {
        String::from_str("---min")
    }
}

/// Draws one train row into a frame.
pub fn render_train_row(
    font: &MtaFont,
    fb: &mut FrameBuffer,
    train: &Train,
    y_offset: i32,
    train_number: usize,
    flash_state: bool,
)
    requires
        drawable(train@.destination),
    ensures
        final(fb)@ == train_row(
            old(fb)@,
            font@,
            train@,
            y_offset as int,
            train_number as nat,
            flash_state,
        ),
{
    let row_y: i64 = y_offset as i64 - ROW_LIFT as i64;
    let text_y: i32 = (row_y + ROW_LIFT as i64) as i32;

    let is_arriving = train.minutes == 0;
    let (time_color, text_color) = if is_arriving && flash_state {
        (COLOR_BLACK, COLOR_RED)
    } else if is_arriving {
        (COLOR_RED, COLOR_RED)
    } else {
        (COLOR_GREEN, COLOR_GREEN)
    };

    let num_text = make_number_label(train_number);
    proof {
        lemma_sum_widths_bounds(font@, num_text@, false);
        assert((-1) * num_text@.len() == -num_text@.len()) by (nonlinear_arith);
        lemma_short_text_fits(num_text@.len());
    }
    let num_width = fb.draw_text(
        font,
        num_text.as_str(),
        LABEL_X,
        text_y,
        text_color,
        false,
        CHAR_SPACING,
    );

    let icon_x: i32 = num_width as i32;
    if !train.route.as_str().is_empty() {
        match lookup_icon(font, train.route.as_str(), train.is_express) {
            Some(icon) => {
                fb.blit_icon_at(icon, icon_x as i64, text_y as i64 - icon.baseline_offset as i64);
            },
            None => {},
        }
    }
    let station_x: i32 = icon_x + ICON_SLOT_WIDTH + ICON_TO_DESTINATION_GAP;

    let time_text = make_time_label(train.minutes);
    proof {
        lemma_short_text_fits(time_text@.len());
    }
    let time_width = font.measure_text(time_text.as_str(), CHAR_SPACING, false);
    proof {
        lemma_sum_widths_bounds(font@, time_text@, false);
        assert((-1) * (time_text@.len() - 1) == 1 - time_text@.len()) by (nonlinear_arith);
    }
    let time_x: i32 = DISPLAY_WIDTH as i32 - time_width as i32;

    let room: i32 = time_x - station_x - TIME_GUTTER;
    let available_width: usize = if room < 0 {
        0
    } else {
        room as usize
    };
    proof {
        lemma_chars_le_bytes(train@.destination);
        lemma_short_text_fits(train@.destination.len());
    }
    let dest_text = truncate_text(font, train.destination.as_str(), available_width);
    proof {
        lemma_short_text_fits(dest_text@.len());
    }
    fb.draw_text(font, dest_text.as_str(), station_x, text_y, text_color, false, CHAR_SPACING);
    fb.draw_text(font, time_text.as_str(), time_x, text_y, time_color, false, CHAR_SPACING);
}

/// Draws the picture of an alert into the bottom row of a frame.
pub fn render_alert_picture(fb: &mut FrameBuffer, picture: &FrameBuffer, scroll_offset: i32)
    ensures
        final(fb)@ == alert_row(old(fb)@, picture@, scroll_offset as int),
{
    let x_pos: i64 = DISPLAY_WIDTH as i64 - scroll_offset as i64;
    let width = picture.width();
    if x_pos as i128 > -(width as i128) {
        fb.blit_frame(picture, x_pos, ALERT_ROW_Y as i64);
    }
}

/// Composes a frame from a snapshot, the animation state and, where an
/// alert is shown, the picture of that alert.
pub fn compose_frame(
    font: &MtaFont,
    snapshot: &DisplaySnapshot,
    cycle_index: usize,
    flash_state: bool,
    alert_scroll_offset: i32,
    show_alert: bool,
    picture: Option<&FrameBuffer>,
) -> (fb: FrameBuffer)
    requires
        snapshot_drawable(snapshot@),
    ensures
        fb@ == frame_content(
            font@,
            snapshot@,
            cycle_index as nat,
            flash_state,
            alert_scroll_offset as int,
            show_alert,
            match picture {
                Some(p) => Some(p@),
                None => None,
            },
        ),
        fb@.width == 192,
        fb@.height == 32,
{
    let mut fb = FrameBuffer::new();
    let first_train = snapshot.get_first_train();
    proof {
        lemma_placeholder_drawable();
        if snapshot@.trains.len() > 0 {
            assert(drawable(snapshot@.trains[0].destination));
        }
    }
    render_train_row(font, &mut fb, &first_train, 0, 1, flash_state);
    if show_alert {
        match picture {
            Some(p) => {
                render_alert_picture(&mut fb, p, alert_scroll_offset);
            },
            None => {},
        }
    } else {
        let cycling = snapshot.get_cycling_trains(CYCLE_SLOTS);
        let idx: usize = if cycle_index < CYCLE_SLOTS - 1 {
            cycle_index
        } else {
            CYCLE_SLOTS - 1
        };
        proof {
            let shown = snapshot@.cycling_trains(6)[idx as int];
            assert(crate::models::trains_view(cycling@).len() == 6);
            assert(crate::models::trains_view(cycling@)[idx as int] == cycling@[idx as int]@);
            assert(cycling@[idx as int]@ == shown);
            if idx + 1 < snapshot@.trains.len() {
                assert(drawable(snapshot@.trains[idx + 1].destination));
            }
        }
        render_train_row(font, &mut fb, &cycling[idx], BOTTOM_ROW_OFFSET, idx + 2, false);
    }
    proof {
        lemma_frame_content_size(
            font@,
            snapshot@,
            cycle_index as nat,
            flash_state,
            alert_scroll_offset as int,
            show_alert,
            match picture {
                Some(p) => Some(p@),
                None => None,
            },
        );
    }
    fb
}

/// The placeholder's destination is short enough to be drawn.
pub proof fn lemma_placeholder_drawable()
    ensures
        drawable(crate::models::placeholder_train().destination),
{
    reveal_strlit("---");
    let text = "---"@;
    assert(vstd::utf8::is_ascii_chars(text)) by {
        assert(text.len() == 3);
        assert(text[0] == '-' && text[1] == '-' && text[2] == '-');
    }
    vstd::utf8::is_ascii_chars_encode_utf8(text);
}

/// A train row keeps the size of the frame.
pub proof fn lemma_train_row_size(
    frame: FrameView,
    font: FontView,
    train: TrainView,
    y_offset: int,
    number: nat,
    flash: bool,
)
    ensures
        train_row(frame, font, train, y_offset, number, flash).width == frame.width,
        train_row(frame, font, train, y_offset, number, flash).height == frame.height,
        train_row(frame, font, train, y_offset, number, flash).pixels.len() == frame.pixels.len(),
{
    let y = y_offset - 4;
    let (time_color, text_color) = row_colors(train.minutes, flash);
    let label = number_label(number);
    let labelled = frame.draw_text(font, label, -2, y + 4, text_color, false, -1);
    crate::framebuffer::lemma_draw_text_keeps_size(
        frame,
        font,
        label,
        -2,
        y + 4,
        text_color,
        false,
        -1,
    );
    let icon_x = clamp0(text_advance(font, label, -1, false));
    let with_icon = if train.route.len() > 0 {
        match alert_icon(font, train.route, train.is_express) {
            Some(icon) => labelled.blit(
                icon_sprite(icon.pixels),
                icon_x,
                y + 4 - icon.baseline_offset,
            ),
            None => labelled,
        }
    } else {
        labelled
    };
    let station_x = icon_x + 14 + 3;
    let time_text = time_label(train.minutes);
    let time_x = 192 - font.text_width(time_text, -1, false);
    let available = clamp0(time_x - station_x - 5) as nat;
    let destination = truncated(font, train.destination, available);
    let with_destination = with_icon.draw_text(
        font,
        destination,
        station_x,
        y + 4,
        text_color,
        false,
        -1,
    );
    crate::framebuffer::lemma_draw_text_keeps_size(
        with_icon,
        font,
        destination,
        station_x,
        y + 4,
        text_color,
        false,
        -1,
    );
    crate::framebuffer::lemma_draw_text_keeps_size(
        with_destination,
        font,
        time_text,
        time_x,
        y + 4,
        time_color,
        false,
        -1,
    );
}

/// A frame has the size of the sign, whatever is drawn.
pub proof fn lemma_frame_content_size(
    font: FontView,
    snapshot: SnapshotView,
    cycle_index: nat,
    flash: bool,
    scroll: int,
    show_alert: bool,
    picture: Option<FrameView>,
)
    ensures
        frame_content(font, snapshot, cycle_index, flash, scroll, show_alert, picture).width == 192,
        frame_content(font, snapshot, cycle_index, flash, scroll, show_alert, picture).height
            == 32,
        frame_content(font, snapshot, cycle_index, flash, scroll, show_alert, picture).wf(),
{
    let blank = FrameView::blank(192, 32);
    let top = train_row(blank, font, snapshot.first_train(), 0, 1, flash);
    lemma_train_row_size(blank, font, snapshot.first_train(), 0, 1, flash);
    if !show_alert {
        let slot = if cycle_index < 5 {
            cycle_index
        } else {
            5
        };
        lemma_train_row_size(
            top,
            font,
            snapshot.cycling_trains(6)[slot as int],
            16,
            slot + 2,
            false,
        );
    }
}

/// Of a snapshot without trains the frame shows the placeholder train: on
/// the top row as the first, and, where no alert is shown, on the bottom
/// row as the one whose turn it is. The frame is a function of what is
/// passed in, so the same inputs give the same pixels.
pub proof fn lemma_empty_snapshot_frame(
    font: FontView,
    snapshot: SnapshotView,
    cycle_index: nat,
    flash: bool,
    scroll: int,
    picture: Option<FrameView>,
)
    requires
        snapshot.trains.len() == 0,
    ensures
        ({
            let placeholder = crate::models::placeholder_train();
            let top = train_row(FrameView::blank(192, 32), font, placeholder, 0, 1, flash);
            let slot = if cycle_index < 5 {
                cycle_index
            } else {
                5
            };
            &&& frame_content(font, snapshot, cycle_index, flash, scroll, false, picture)
                == train_row(top, font, placeholder, 16, slot + 2, false)
            &&& frame_content(font, snapshot, cycle_index, flash, scroll, true, None) == top
            &&& frame_content(font, snapshot, cycle_index, flash, scroll, false, picture).width
                == 192
            &&& frame_content(font, snapshot, cycle_index, flash, scroll, false, picture).height
                == 32
        }),
{
    lemma_frame_content_size(font, snapshot, cycle_index, flash, scroll, false, picture);
}

/// The picture of the alert drawn last, with the text and the routes it was
/// drawn for.
pub struct AlertCacheEntry {
    text: String,
    routes_key: String,
    buffer: FrameBuffer,
}

/// The renderer of frames.
pub struct Renderer<'a> {
    font: &'a MtaFont,
    last_alert_width: i32,
    alert_cache: Option<AlertCacheEntry>,
}

// ---------------------------------------------------------------------
// The key of a set of routes
// ---------------------------------------------------------------------

/// Whether one byte string comes before another or equals it, in
/// dictionary order.
pub open spec fn bytes_le(a: Seq<u8>, b: Seq<u8>) -> bool
    decreases a.len(),
{
    if a.len() == 0 {
        true
    } else if b.len() == 0 {
        false
    } else if a[0] != b[0] {
        a[0] < b[0]
    } else {
        bytes_le(a.drop_first(), b.drop_first())
    }
}

/// Where a string goes in a sorted list: behind the last string that does
/// not come after it.
pub open spec fn string_position(sorted: Seq<Seq<char>>, s: Seq<char>) -> int
    decreases sorted.len(),
{
    if sorted.len() == 0 {
        0
    } else if bytes_le(encode_utf8(sorted.last()), encode_utf8(s)) {
        sorted.len() as int
    } else {
        string_position(sorted.drop_last(), s)
    }
}

/// Strings in the dictionary order of their bytes.
pub open spec fn sort_strings(strings: Seq<Seq<char>>) -> Seq<Seq<char>>
    decreases strings.len(),
{
    if strings.len() == 0 {
        Seq::empty()
    } else {
        let sorted = sort_strings(strings.drop_last());
        sorted.insert(string_position(sorted, strings.last()), strings.last())
    }
}

/// Strings strung together with commas between them.
pub open spec fn join_commas(strings: Seq<Seq<char>>) -> Seq<char>
    decreases strings.len(),
{
    if strings.len() == 0 {
        Seq::empty()
    } else if strings.len() == 1 {
        strings[0]
    } else {
        join_commas(strings.drop_last()) + ","@ + strings.last()
    }
}

/// The key of a set of routes: the ids in order, with commas between them.
pub open spec fn routes_key_spec(routes: Seq<Seq<char>>) -> Seq<char> {
    join_commas(sort_strings(routes))
}

/// Whether the bytes of one string come before those of another or equal
/// them, in dictionary order.
pub fn str_le(a: &str, b: &str) -> (r: bool)
    ensures
        r == bytes_le(a.spec_bytes(), b.spec_bytes()),
{
    let ab = a.as_bytes();
    let bb = b.as_bytes();
    let mut i: usize = 0;
    assert(ab@.subrange(0, ab@.len() as int) =~= ab@);
    assert(bb@.subrange(0, bb@.len() as int) =~= bb@);
    loop
        invariant
            i <= ab@.len(),
            i <= bb@.len(),
            ab@ == a.spec_bytes(),
            bb@ == b.spec_bytes(),
            bytes_le(ab@, bb@) == bytes_le(
                ab@.subrange(i as int, ab@.len() as int),
                bb@.subrange(i as int, bb@.len() as int),
            ),
        decreases ab@.len() - i,
    {
        if i >= ab.len() {
            return true;
        }
        if i >= bb.len() {
            return false;
        }
        if ab[i] != bb[i] {
            return ab[i] < bb[i];
        }
        proof {
            let ra = ab@.subrange(i as int, ab@.len() as int);
            let rb = bb@.subrange(i as int, bb@.len() as int);
            assert(ra.drop_first() =~= ab@.subrange(i + 1, ab@.len() as int));
            assert(rb.drop_first() =~= bb@.subrange(i + 1, bb@.len() as int));
        }
        i += 1;
    }
}

/// The strings of a list of references, as values.
pub open spec fn refs_view(strings: Seq<&String>) -> Seq<Seq<char>> {
    Seq::new(strings.len(), |i: int| strings[i]@)
}

/// The key of a set of routes, by which a cached picture is told from one
/// for other routes.
pub fn routes_key(routes: &Vec<String>) -> (key: String)
    ensures
        key@ == routes_key_spec(crate::models::strings_view(routes@)),
{
    let ghost all = crate::models::strings_view(routes@);
    let mut sorted: Vec<&String> = Vec::new();
    let mut i: usize = 0;
    assert(all.take(0) =~= Seq::<Seq<char>>::empty());
    assert(refs_view(sorted@) =~= Seq::<Seq<char>>::empty());
    while i < routes.len()
        invariant
            i <= routes@.len(),
            all == crate::models::strings_view(routes@),
            refs_view(sorted@) == sort_strings(all.take(i as int)),
        decreases routes@.len() - i,
    {
        proof {
            assert(all.take(i + 1).drop_last() =~= all.take(i as int));
            assert(all.take(i + 1).last() == routes@[i as int]@);
        }
        let route = &routes[i];
        let ghost before = refs_view(sorted@);
        let mut pos: usize = sorted.len();
        assert(before.take(pos as int) =~= before);
        while pos > 0 && !str_le(sorted[pos - 1].as_str(), route.as_str())
            invariant
                pos <= sorted@.len(),
                before == refs_view(sorted@),
                string_position(before, route@) == string_position(
                    before.take(pos as int),
                    route@,
                ),
            decreases pos,
        {
            assert(before.take(pos as int).drop_last() =~= before.take(pos - 1));
            assert(before.take(pos as int).last() == sorted@[pos - 1]@);
            pos -= 1;
        }
        proof {
            if pos > 0 {
                assert(before.take(pos as int).last() == sorted@[pos - 1]@);
            }
            assert(string_position(before, route@) == pos);
        }
        sorted.insert(pos, route);
        assert(refs_view(sorted@) =~= before.insert(pos as int, route@));
        i += 1;
    }
    assert(all.take(i as int) =~= all);
    let ghost ordered = refs_view(sorted@);
    let mut key = String::new();
    let mut j: usize = 0;
    assert(ordered.take(0) =~= Seq::<Seq<char>>::empty());
    while j < sorted.len()
        invariant
            j <= sorted@.len(),
            ordered == refs_view(sorted@),
            key@ == join_commas(ordered.take(j as int)),
        decreases sorted@.len() - j,
    {
        proof {
            assert(ordered.take(j + 1).drop_last() =~= ordered.take(j as int));
            assert(ordered.take(j + 1).last() == sorted@[j as int]@);
            if j == 0 {
                assert(ordered.take(1)[0] == sorted@[0]@);
            }
        }
        if j > 0 {
            key.append(",");
        }
        key.append(sorted[j].as_str());
        assert(key@ =~= join_commas(ordered.take(j + 1)));
        j += 1;
    }
    assert(ordered.take(j as int) =~= ordered);
    key
}

impl<'a> Renderer<'a> {
    /// The font that the renderer draws with.
    pub closed spec fn font(&self) -> FontView {
        self.font@
    }

    /// The width of the alert picture drawn last, zero before the first.
    pub closed spec fn last_alert_width(&self) -> int {
        self.last_alert_width as int
    }

    /// The text whose picture the renderer keeps.
    pub closed spec fn cached_text(&self) -> Option<Seq<char>> {
        match self.alert_cache {
            Some(entry) => Some(entry.text@),
            None => None,
        }
    }

    /// The font is well formed, and the picture that the renderer keeps is
    /// the picture of the text it is kept for.
    pub closed spec fn wf(&self) -> bool {
        &&& self.font@.wf()
        &&& 0 <= self.last_alert_width <= 69 * MAX_TEXT_BYTES
        &&& match self.alert_cache {
            Some(entry) => entry.buffer@ == picture_of(self.font@, entry.text@)
                && self.last_alert_width == entry.buffer@.width,
            None => self.last_alert_width == 0,
        }
    }

    /// A renderer that draws with the given font.
    pub fn new(font: &'a MtaFont) -> (r: Renderer<'a>)
        requires
            font@.wf(),
        ensures
            r.wf(),
            r.font() == font@,
            r.last_alert_width() == 0,
            r.cached_text() is None,
    {
        Renderer { font, last_alert_width: 0, alert_cache: None }
    }

    /// Makes sure that the picture kept is the picture of the given alert.
    fn refresh_alert(&mut self, alert: &Alert)
        requires
            old(self).wf(),
            drawable(alert@.text),
        ensures
            final(self).wf(),
            final(self).font() == old(self).font(),
            final(self).alert_cache is Some,
            final(self).alert_cache->0.buffer@ == picture_of(final(self).font(), alert@.text),
            final(self).last_alert_width() == picture_of(final(self).font(), alert@.text).width,
            final(self).cached_text() == Some(alert@.text),
    {
        let key = routes_key(&alert.affected_routes);
        let need_render = match &self.alert_cache {
            Some(cached) => !str_eq(cached.text.as_str(), alert.text.as_str()) || !str_eq(
                cached.routes_key.as_str(),
                key.as_str(),
            ),
            None => true,
        };
        if need_render {
            let captures = find_route_tokens(alert.text.as_str());
            let picture = render_alert_text(self.font, alert.text.as_str(), &captures);
            self.last_alert_width = picture.width() as i32;
            self.alert_cache = Some(
                AlertCacheEntry { text: alert.text.clone(), routes_key: key, buffer: picture },
            );
        }
    }

    /// Renders one frame.
    ///
    /// Where an alert is shown, its picture is drawn anew only if the alert
    /// differs from the one drawn last.
    pub fn render_frame(
        &mut self,
        snapshot: &DisplaySnapshot,
        cycle_index: usize,
        flash_state: bool,
        alert_scroll_offset: i32,
        show_alert: bool,
        current_alert: Option<&Alert>,
    ) -> (fb: FrameBuffer)
        requires
            old(self).wf(),
            snapshot_drawable(snapshot@),
            current_alert is Some ==> drawable(current_alert->0@.text),
        ensures
            final(self).wf(),
            final(self).font() == old(self).font(),
            fb@ == frame_content(
                old(self).font(),
                snapshot@,
                cycle_index as nat,
                flash_state,
                alert_scroll_offset as int,
                show_alert,
                match current_alert {
                    Some(alert) => Some(picture_of(old(self).font(), alert@.text)),
                    None => None,
                },
            ),
            fb@.width == 192,
            fb@.height == 32,
            final(self).last_alert_width() == (match current_alert {
                Some(alert) => if show_alert {
                    picture_of(old(self).font(), alert@.text).width as int
                } else {
                    old(self).last_alert_width()
                },
                None => old(self).last_alert_width(),
            }),
    {
        match current_alert {
            Some(alert) => {
                if show_alert {
                    self.refresh_alert(alert);
                    let picture = match &self.alert_cache {
                        Some(entry) => Some(&entry.buffer),
                        None => None,
                    };
                    compose_frame(
                        self.font,
                        snapshot,
                        cycle_index,
                        flash_state,
                        alert_scroll_offset,
                        show_alert,
                        picture,
                    )
                } else {
                    compose_frame(
                        self.font,
                        snapshot,
                        cycle_index,
                        flash_state,
                        alert_scroll_offset,
                        show_alert,
                        None,
                    )
                }
            },
            None => compose_frame(
                self.font,
                snapshot,
                cycle_index,
                flash_state,
                alert_scroll_offset,
                show_alert,
                None,
            ),
        }
    }

    /// The distance that an alert has to scroll until it has crossed the
    /// sign: the width of the sign, the width of the alert picture drawn
    /// last, and ten pixels more.
    pub fn get_scroll_complete_distance(&self) -> (distance: i32)
        requires
            self.wf(),
        ensures
            distance == DISPLAY_WIDTH + self.last_alert_width() + SCROLL_MARGIN,
    {
        DISPLAY_WIDTH as i32 + self.last_alert_width + SCROLL_MARGIN
    }
}

} // verus!
