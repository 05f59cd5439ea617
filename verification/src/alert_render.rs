//! The picture of an alert: its text in italics with the icons of the routes
//! it names, in a buffer just wide enough to hold it.

use vstd::prelude::*;
use vstd::string::*;
use vstd::utf8::encode_utf8;
use crate::alert_text::{
    alert_parts, captures_view, lemma_chars_le_bytes, parse_alert_parts, part_weight, parts_view,
    parts_weight, AlertPart, AlertPartView, MatchGroups,
};
use crate::colors::COLOR_ORANGE;
use crate::fonts::{
    icon_wf, lemma_find_name, lemma_short_text_fits, lemma_sum_widths_bounds, FontView, MtaFont,
    RouteIcon, RouteIconView,
};
use crate::framebuffer::{icon_sprite, text_advance, FrameBuffer, FrameView};

verus! {

/// Spacing between the characters of all text on the sign.
pub const CHAR_SPACING: i32 = -1;

/// Gap between a run of text and the icon that follows it.
pub const TEXT_TO_ICON_GAP: i32 = 5;

/// Gap between an icon and the run of text that follows it.
pub const ICON_TO_TEXT_GAP: i32 = 2;

/// Gap between two icons.
pub const ICON_ICON_GAP: i32 = 1;

/// Height of the picture of an alert. It is one row higher than a glyph so
/// that a raised icon fits.
pub const ALERT_BUFFER_HEIGHT: usize = 17;

/// The longest text, in bytes, that is drawn. A longer text would not fit
/// the coordinates of the canvas.
pub const MAX_TEXT_BYTES: usize = 0x10_0000;

/// What kind of thing a part of an alert is; `Start` stands for the start
/// of the alert, before any part.
#[derive(Clone, Copy, Debug, PartialEq, Eq, Structural)]
pub enum PartType {
    Start,
    Text,
    Icon,
}

/// A part of an alert that is ready to be drawn.
pub enum RenderedPart<'a> {
    /// A run of text and its measured width.
    Text(String, usize),
    /// An icon.
    Icon(&'a RouteIcon),
}

/// The mathematical value of a [`RenderedPart`].
pub enum RenderedPartView {
    Text(Seq<char>, nat),
    Icon(RouteIconView),
}

impl<'a> View for RenderedPart<'a> {
    type V = RenderedPartView;

    open spec fn view(&self) -> RenderedPartView {
        match self {
            RenderedPart::Text(text, width) => RenderedPartView::Text(text@, *width as nat),
            RenderedPart::Icon(icon) => RenderedPartView::Icon(icon@),
        }
    }
}

impl RenderedPartView {
    /// The kind of the part.
    pub open spec fn part_type(self) -> PartType {
        match self {
            RenderedPartView::Text(..) => PartType::Text,
            RenderedPartView::Icon(..) => PartType::Icon,
        }
    }

    /// The width of the part in pixels.
    pub open spec fn width(self) -> nat {
        match self {
            RenderedPartView::Text(_, width) => width,
            RenderedPartView::Icon(icon) => icon.width,
        }
    }

    /// The bytes of text that the part stands for, counted at least.
    pub open spec fn weight(self) -> nat {
        match self {
            RenderedPartView::Text(text, _) => encode_utf8(text).len(),
            RenderedPartView::Icon(_) => 1,
        }
    }

    /// A part as the renderer makes it: a run of text with its true width,
    /// or a well-formed icon; and it stands for some text.
    pub open spec fn made_by(self, font: FontView) -> bool {
        match self {
            RenderedPartView::Text(text, width) => width == font.text_width(text, -1, true)
                && encode_utf8(text).len() >= 1,
            RenderedPartView::Icon(icon) => icon_wf(icon),
        }
    }
}

impl<'a> RenderedPart<'a> {
    /// The kind of the part.
    pub fn part_type(&self) -> (t: PartType)
        ensures
            t == self@.part_type(),
    {
        match self {
            RenderedPart::Text(..) => PartType::Text,
            RenderedPart::Icon(..) => PartType::Icon,
        }
    }

    /// The width of the part in pixels.
    pub fn width(&self) -> (w: usize)
        ensures
            w == self@.width(),
    {
        match self {
            RenderedPart::Text(_, width) => *width,
            RenderedPart::Icon(icon) => icon.width,
        }
    }
}

/// The parts of a list, as values.
pub open spec fn rendered_view(parts: Seq<RenderedPart>) -> Seq<RenderedPartView> {
    Seq::new(parts.len(), |i: int| parts[i]@)
}

/// The gap between two neighbouring parts: 5 pixels from text to icon, 2
/// from icon to text, 1 between icons, none otherwise.
pub open spec fn part_gap(before: PartType, part: PartType) -> int {
    match (before, part) {
        (PartType::Icon, PartType::Text) => ICON_TO_TEXT_GAP as int,
        (PartType::Icon, PartType::Icon) => ICON_ICON_GAP as int,
        (PartType::Text, PartType::Icon) => TEXT_TO_ICON_GAP as int,
        _ => 0,
    }
}

/// The gap between two neighbouring parts.
pub fn gap_between(before: PartType, part: PartType) -> (gap: i32)
    ensures
        gap == part_gap(before, part),
{
    match (before, part) {
        (PartType::Icon, PartType::Text) => ICON_TO_TEXT_GAP,
        (PartType::Icon, PartType::Icon) => ICON_ICON_GAP,
        (PartType::Text, PartType::Icon) => TEXT_TO_ICON_GAP,
        _ => 0,
    }
}

/// The kind of the part before part `i`.
pub open spec fn type_before(parts: Seq<RenderedPartView>, i: int) -> PartType {
    if 0 < i <= parts.len() {
        parts[i - 1].part_type()
    } else {
        PartType::Start
    }
}

/// The icon drawn for a route in an alert: the one asked for, or the local
/// one where that is missing.
pub open spec fn alert_icon(font: FontView, route: Seq<char>, is_express: bool) -> Option<
    RouteIconView,
> {
    match font.route_icon(route, is_express) {
        Some(icon) => Some(icon),
        None => font.route_icon(route, false),
    }
}

/// The parts of an alert made ready: each run of text with its width in
/// italics, each icon that the font has. An icon that the font lacks is
/// left out.
pub open spec fn rendered_parts(font: FontView, parts: Seq<AlertPartView>) -> Seq<RenderedPartView>
    decreases parts.len(),
{
    if parts.len() == 0 {
        Seq::empty()
    } else {
        let before = rendered_parts(font, parts.drop_last());
        match parts.last() {
            AlertPartView::Text(text) => before.push(
                RenderedPartView::Text(text, font.text_width(text, -1, true)),
            ),
            AlertPartView::Icon { route, is_express } => match alert_icon(font, route, is_express) {
                Some(icon) => before.push(RenderedPartView::Icon(icon)),
                None => before,
            },
        }
    }
}

/// The widths of the first `n` parts and the gaps before them, added up.
pub open spec fn parts_extent(parts: Seq<RenderedPartView>, n: nat) -> int
    decreases n,
{
    if n == 0 || n > parts.len() {
        0
    } else {
        parts_extent(parts, (n - 1) as nat) + part_gap(
            type_before(parts, n - 1),
            parts[n - 1].part_type(),
        ) + parts[n - 1].width()
    }
}

/// The weights of the first `n` parts added up.
pub open spec fn rendered_weight(parts: Seq<RenderedPartView>, n: nat) -> nat
    decreases n,
{
    if n == 0 || n > parts.len() {
        0
    } else {
        rendered_weight(parts, (n - 1) as nat) + parts[n - 1].weight()
    }
}

/// The width of an alert: the widths of its parts and the gaps between
/// them.
pub open spec fn alert_width(parts: Seq<RenderedPartView>) -> nat {
    let total = parts_extent(parts, parts.len());
    if total < 0 {
        0
    } else {
        total as nat
    }
}

/// The distance by which a drawn part moves the cursor: a run of text by
/// the advance of its characters, never backwards, an icon by its width.
pub open spec fn part_advance(font: FontView, part: RenderedPartView) -> int {
    match part {
        RenderedPartView::Text(text, _) => {
            let advance = text_advance(font, text, -1, true);
            if advance < 0 {
                0
            } else {
                advance
            }
        },
        RenderedPartView::Icon(icon) => icon.width as int,
    }
}

/// Where the cursor stands once the first `n` parts are drawn.
pub open spec fn cursor_after(font: FontView, parts: Seq<RenderedPartView>, n: nat) -> int
    decreases n,
{
    if n == 0 || n > parts.len() {
        0
    } else {
        cursor_after(font, parts, (n - 1) as nat) + part_gap(
            type_before(parts, n - 1),
            parts[n - 1].part_type(),
        ) + part_advance(font, parts[n - 1])
    }
}

/// A frame with the first `n` parts of an alert drawn into it: text in
/// orange italics one row down, each icon raised by its baseline offset.
pub open spec fn draw_parts(
    frame: FrameView,
    font: FontView,
    parts: Seq<RenderedPartView>,
    n: nat,
) -> FrameView
    decreases n,
{
    if n == 0 || n > parts.len() {
        frame
    } else {
        let before = draw_parts(frame, font, parts, (n - 1) as nat);
        let x = cursor_after(font, parts, (n - 1) as nat) + part_gap(
            type_before(parts, n - 1),
            parts[n - 1].part_type(),
        );
        match parts[n - 1] {
            RenderedPartView::Text(text, _) => before.draw_text(
                font,
                text,
                x,
                1,
                COLOR_ORANGE,
                true,
                -1,
            ),
            RenderedPartView::Icon(icon) => before.blit(
                icon_sprite(icon.pixels),
                x,
                1 - icon.baseline_offset,
            ),
        }
    }
}

/// The picture of an alert: a buffer as wide as the alert, at least one
/// pixel, and 17 rows high, with the parts drawn from the left.
pub open spec fn alert_picture(font: FontView, parts: Seq<AlertPartView>) -> FrameView {
    let rendered = rendered_parts(font, parts);
    let width = if alert_width(rendered) < 1 {
        1
    } else {
        alert_width(rendered)
    };
    draw_parts(FrameView::blank(width, ALERT_BUFFER_HEIGHT as nat), font, rendered, rendered.len())
}

/// Each part is as the renderer makes it.
pub open spec fn all_made_by(font: FontView, parts: Seq<RenderedPartView>) -> bool {
    forall|i: int| 0 <= i < parts.len() ==> (#[trigger] parts[i]).made_by(font)
}

/// The room that parts take is bounded by the text they stand for: no part
/// is wider than 64 pixels for each byte, and no gap is wider than 5.
pub proof fn lemma_parts_bounds(font: FontView, parts: Seq<RenderedPartView>, n: nat)
    requires
        n <= parts.len(),
        all_made_by(font, parts),
    ensures
        0 <= parts_extent(parts, n) <= 69 * rendered_weight(parts, n),
        0 <= cursor_after(font, parts, n) <= 69 * rendered_weight(parts, n),
        n <= rendered_weight(parts, n),
    decreases n,
{
    if n > 0 {
        lemma_parts_bounds(font, parts, (n - 1) as nat);
        let part = parts[n - 1];
        assert(part.made_by(font));
        match part {
            RenderedPartView::Text(text, width) => {
                lemma_sum_widths_bounds(font, text, true);
                lemma_chars_le_bytes(text);
                assert((-1) * (text.len() - 1) == 1 - text.len()) by (nonlinear_arith);
                assert((-1) * text.len() == -text.len()) by (nonlinear_arith);
            },
            RenderedPartView::Icon(icon) => {},
        }
    }
}

/// Drawing parts keeps the size of the frame.
pub proof fn lemma_draw_parts_size(
    frame: FrameView,
    font: FontView,
    parts: Seq<RenderedPartView>,
    n: nat,
)
    ensures
        draw_parts(frame, font, parts, n).width == frame.width,
        draw_parts(frame, font, parts, n).height == frame.height,
        draw_parts(frame, font, parts, n).pixels.len() == frame.pixels.len(),
    decreases n,
{
    if n > 0 && n <= parts.len() {
        lemma_draw_parts_size(frame, font, parts, (n - 1) as nat);
        let before = draw_parts(frame, font, parts, (n - 1) as nat);
        let x = cursor_after(font, parts, (n - 1) as nat) + part_gap(
            type_before(parts, n - 1),
            parts[n - 1].part_type(),
        );
        match parts[n - 1] {
            RenderedPartView::Text(text, _) => {
                crate::framebuffer::lemma_draw_text_keeps_size(
                    before,
                    font,
                    text,
                    x,
                    1,
                    COLOR_ORANGE,
                    true,
                    -1,
                );
            },
            RenderedPartView::Icon(icon) => {},
        }
    }
}

/// The icon of a route for an alert: the one asked for, or the local one
/// where the font lacks it.
pub fn lookup_icon<'a>(font: &'a MtaFont, route: &str, is_express: bool) -> (r: Option<
    &'a RouteIcon,
>)
    ensures
        match r {
            Some(icon) => alert_icon(font@, route@, is_express) == Some(icon@),
            None => alert_icon(font@, route@, is_express) is None,
        },
{
    match font.get_route_icon(route, is_express) {
        Some(icon) => Some(icon),
        None => font.get_route_icon(route, false),
    }
}

/// The width of an alert made of the given parts.
fn measure_alert_parts(parts: &Vec<RenderedPart>, font: Ghost<FontView>) -> (width: usize)
    requires
        all_made_by(font@, rendered_view(parts@)),
        rendered_weight(rendered_view(parts@), parts@.len() as nat) <= MAX_TEXT_BYTES,
    ensures
        width == alert_width(rendered_view(parts@)),
        width <= 69 * MAX_TEXT_BYTES,
{
    let ghost all = rendered_view(parts@);
    let mut total: i64 = 0;
    let mut i: usize = 0;
    while i < parts.len()
        invariant
            i <= parts@.len(),
            all == rendered_view(parts@),
            all_made_by(font@, all),
            rendered_weight(all, parts@.len() as nat) <= MAX_TEXT_BYTES,
            total == parts_extent(all, i as nat),
            0 <= total <= 69 * rendered_weight(all, i as nat),
            rendered_weight(all, i as nat) <= MAX_TEXT_BYTES,
        decreases parts@.len() - i,
    {
        proof {
            lemma_parts_bounds(font@, all, (i + 1) as nat);
            lemma_weight_monotone(all, (i + 1) as nat, parts@.len() as nat);
        }
        let before = if i > 0 {
            parts[i - 1].part_type()
        } else {
            PartType::Start
        };
        let part = &parts[i];
        total = total + gap_between(before, part.part_type()) as i64 + part.width() as i64;
        i += 1;
    }
    total as usize
}

/// The weight of a prefix is no more than the weight of a longer prefix.
pub proof fn lemma_weight_monotone(parts: Seq<RenderedPartView>, n: nat, m: nat)
    requires
        n <= m <= parts.len(),
    ensures
        rendered_weight(parts, n) <= rendered_weight(parts, m),
    decreases m,
{
    if n < m {
        lemma_weight_monotone(parts, n, (m - 1) as nat);
    }
}

/// Adding a part at the end changes nothing about the parts before it.
pub proof fn lemma_push_keeps_prefix(
    parts: Seq<RenderedPartView>,
    part: RenderedPartView,
    n: nat,
)
    requires
        n <= parts.len(),
    ensures
        rendered_weight(parts.push(part), n) == rendered_weight(parts, n),
    decreases n,
{
    if n > 0 {
        lemma_push_keeps_prefix(parts, part, (n - 1) as nat);
        assert(parts.push(part)[n - 1] == parts[n - 1]);
    }
}

/// Makes the parts of an alert ready to be drawn.
fn prepare_parts<'a>(font: &'a MtaFont, parts: &Vec<AlertPart>) -> (rendered: Vec<RenderedPart<'a>>)
    requires
        font@.wf(),
        parts_weight(parts_view(parts@)) <= MAX_TEXT_BYTES,
        forall|i: int| 0 <= i < parts@.len() ==> part_weight(#[trigger] parts@[i]@) >= 1,
    ensures
        rendered_view(rendered@) == rendered_parts(font@, parts_view(parts@)),
        all_made_by(font@, rendered_view(rendered@)),
        rendered_weight(rendered_view(rendered@), rendered@.len() as nat) <= MAX_TEXT_BYTES,
{
    let ghost source = parts_view(parts@);
    let mut rendered: Vec<RenderedPart<'a>> = Vec::new();
    let mut i: usize = 0;
    assert(source.take(0) =~= Seq::<AlertPartView>::empty());
    assert(rendered_view(rendered@) =~= Seq::<RenderedPartView>::empty());
    while i < parts.len()
        invariant
            i <= parts@.len(),
            font@.wf(),
            source == parts_view(parts@),
            parts_weight(source) <= MAX_TEXT_BYTES,
            forall|j: int| 0 <= j < parts@.len() ==> part_weight(#[trigger] parts@[j]@) >= 1,
            rendered_view(rendered@) == rendered_parts(font@, source.take(i as int)),
            all_made_by(font@, rendered_view(rendered@)),
            rendered_weight(rendered_view(rendered@), rendered@.len() as nat) <= parts_weight(
                source.take(i as int),
            ),
        decreases parts@.len() - i,
    {
        let ghost before = rendered_view(rendered@);
        proof {
            assert(source.take(i + 1).drop_last() =~= source.take(i as int));
            assert(source.take(i + 1).last() == parts@[i as int]@);
            lemma_parts_weight_prefix(source, i + 1);
            assert(part_weight(parts@[i as int]@) >= 1);
        }
        match &parts[i] {
            AlertPart::Text(text) => {
                proof {
                    lemma_chars_le_bytes(text@);
                    assert(parts_weight(source.take(i + 1)) == parts_weight(
                        source.take(i as int),
                    ) + part_weight(parts@[i as int]@));
                    assert(text@.len() <= MAX_TEXT_BYTES);
                    lemma_short_text_fits(text@.len());
                }
                let width = font.measure_text(text.as_str(), CHAR_SPACING, true);
                rendered.push(RenderedPart::Text(text.clone(), width));
                proof {
                    let part = RenderedPartView::Text(text@, width as nat);
                    assert(rendered_view(rendered@) =~= before.push(part));
                    lemma_push_keeps_prefix(before, part, before.len());
                }
            },
            AlertPart::Icon { route, is_express } => {
                match lookup_icon(font, route.as_str(), *is_express) {
                    Some(icon) => {
                        rendered.push(RenderedPart::Icon(icon));
                        proof {
                            let part = RenderedPartView::Icon(icon@);
                            assert(rendered_view(rendered@) =~= before.push(part));
                            lemma_push_keeps_prefix(before, part, before.len());
                            lemma_alert_icon_wf(font@, route@, *is_express);
                        }
                    },
                    None => {},
                }
            },
        }
        i += 1;
    }
    proof {
        assert(source.take(i as int) =~= source);
    }
    rendered
}

/// The weight of a prefix of the parts is no more than the weight of all.
pub proof fn lemma_parts_weight_prefix(parts: Seq<AlertPartView>, k: int)
    requires
        0 <= k <= parts.len(),
    ensures
        parts_weight(parts.take(k)) <= parts_weight(parts),
    decreases parts.len(),
{
    if k == parts.len() {
        assert(parts.take(k) =~= parts);
    } else {
        assert(parts.drop_last().take(k) =~= parts.take(k));
        lemma_parts_weight_prefix(parts.drop_last(), k);
    }
}

/// An icon that a well-formed font gives is well formed.
pub proof fn lemma_alert_icon_wf(font: FontView, route: Seq<char>, is_express: bool)
    requires
        font.wf(),
    ensures
        alert_icon(font, route, is_express) is Some ==> icon_wf(
            alert_icon(font, route, is_express)->0,
        ),
{
    lemma_find_name(font.icons, crate::fonts::icon_name(route, is_express));
    lemma_find_name(font.icons, crate::fonts::icon_name(route, false));
}

/// Draws the picture of an alert from its parts.
pub fn render_alert_parts(font: &MtaFont, parts: &Vec<AlertPart>) -> (picture: FrameBuffer)
    requires
        font@.wf(),
        parts_weight(parts_view(parts@)) <= MAX_TEXT_BYTES,
        forall|i: int| 0 <= i < parts@.len() ==> part_weight(#[trigger] parts@[i]@) >= 1,
    ensures
        picture@ == alert_picture(font@, parts_view(parts@)),
        picture@.wf(),
        picture@.height == 17,
        1 <= picture@.width <= 69 * MAX_TEXT_BYTES,
{
    let rendered = prepare_parts(font, parts);
    let ghost all = rendered_view(rendered@);
    let total = measure_alert_parts(&rendered, Ghost(font@));
    let width = if total < 1 {
        1
    } else {
        total
    };
    let mut picture = FrameBuffer::with_size(width, ALERT_BUFFER_HEIGHT);
    let ghost blank = picture@;
    let mut x_pos: i32 = 0;
    let mut i: usize = 0;
    while i < rendered.len()
        invariant
            i <= rendered@.len(),
            all == rendered_view(rendered@),
            all_made_by(font@, all),
            rendered_weight(all, rendered@.len() as nat) <= MAX_TEXT_BYTES,
            x_pos == cursor_after(font@, all, i as nat),
            picture@ == draw_parts(blank, font@, all, i as nat),
        decreases rendered@.len() - i,
    {
        proof {
            lemma_parts_bounds(font@, all, i as nat);
            lemma_parts_bounds(font@, all, (i + 1) as nat);
            lemma_weight_monotone(all, i as nat, rendered@.len() as nat);
            lemma_weight_monotone(all, (i + 1) as nat, rendered@.len() as nat);
            assert(all[i as int].made_by(font@));
        }
        let before = if i > 0 {
            rendered[i - 1].part_type()
        } else {
            PartType::Start
        };
        let part = &rendered[i];
        x_pos = x_pos + gap_between(before, part.part_type());
        match part {
            RenderedPart::Text(text, _) => {
                proof {
                    lemma_chars_le_bytes(text@);
                    assert(rendered_weight(all, (i + 1) as nat) == rendered_weight(all, i as nat)
                        + all[i as int].weight());
                    assert(text@.len() <= MAX_TEXT_BYTES);
                    lemma_short_text_fits(text@.len());
                }
                let drawn = picture.draw_text(
                    font,
                    text.as_str(),
                    x_pos,
                    1,
                    COLOR_ORANGE,
                    true,
                    CHAR_SPACING,
                );
                x_pos = x_pos + drawn as i32;
            },
            RenderedPart::Icon(icon) => {
                picture.blit_icon_at(icon, x_pos as i64, 1i64 - icon.baseline_offset as i64);
                x_pos = x_pos + icon.width as i32;
            },
        }
        i += 1;
    }
    proof {
        lemma_draw_parts_size(blank, font@, all, rendered@.len() as nat);
    }
    picture
}

/// Draws the picture of an alert from its text and the route tokens that
/// were found in it.
pub fn render_alert_text(font: &MtaFont, text: &str, captures: &Vec<MatchGroups>) -> (picture:
    FrameBuffer)
    requires
        font@.wf(),
        text.spec_bytes().len() <= MAX_TEXT_BYTES,
    ensures
        picture@ == alert_picture(font@, alert_parts(text@, captures_view(captures@))),
        picture@.wf(),
        picture@.height == 17,
        1 <= picture@.width <= 69 * MAX_TEXT_BYTES,
{
    let parts = parse_alert_parts(text, captures);
    render_alert_parts(font, &parts)
}

} // verus!
