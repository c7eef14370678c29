//! How large things are, where they stand, and how long they last.

use vstd::prelude::*;
use vstd::string::*;

use crate::anim::{resource_path, Animation, Player};
use crate::bubble_stack::{APPEAR_LAG_MS, GONE_LAG_MS, MAX_CARDS};
use crate::bubble_text::{LABEL_CHARS, MAX_LINE, ROTATE_AFTER_MS, TOOL_NAME_ROOM};
use crate::connectors::comfyui::{FINISHED_TTL_MS, PROGRESS_STEP};
use crate::connectors::hermes::{FRESHNESS_MS, LOOKBACK_SECS, PREVIEW_CHARS};
use crate::event::Mode;
use crate::gui::bubble::{
    body_budget, header_height, overlay_budget, overlay_width, text_width, Bubble, BubbleSizes, OverlaySizes, StrokeModel,
    BUBBLE_MARGIN_Y, MAX_BUBBLE_H, MAX_BUBBLE_W, MIN_BUBBLE_W, PAD_BOTTOM, PAD_TOP, PAD_X,
};
use crate::gui::canvas::{drawn_box, painted, Area, Brush, Canvas};
use crate::gui::fade::listed;
use crate::gui::flow::{APPEAR_MS, TYPE_LAG_CHARS};
use crate::gui::icon::icon_in;
use crate::gui::place::{
    x_bounds, y_bounds, Screen, BOTTOM_MARGIN, DRAG_SLIVER_PX, FULLSCREEN_TOLERANCE, RIGHT_MARGIN, WINDOW_EXTRA_W,
};
use crate::gui::settings::SettingsSizes;
use crate::gui::shapes::{area_of, round_of, uncovered, UncoverBrush};
use crate::gui::show::ShowModel;
use crate::sheet::{image_in, resized_in};
use crate::state::{
    DEFAULT_CELEBRATE_MS, DEFAULT_DONE_MS, DEFAULT_FAIL_MS, LIVE_TEXT_CAP, RECENT_END_MS, TASK_CHARS, TTL_APPROVAL_MS,
};

verus! {

/// How long things last: a result outranks all else for four seconds, a failure is
/// shown for ten and a completion for two minutes; requests are dropped after half
/// an hour; a session has just ended for ten seconds.
pub proof fn law_times_of_the_state()
    ensures
        DEFAULT_CELEBRATE_MS == 4_000,
        DEFAULT_FAIL_MS == 10_000,
        DEFAULT_DONE_MS == 120_000,
        TTL_APPROVAL_MS == 30 * 60 * 1000,
        RECENT_END_MS == 10_000,
        LIVE_TEXT_CAP == 8000,
        TASK_CHARS == 120,
{
}

/// How long cards and messages last, and how much they hold.
pub proof fn law_times_of_the_bubbles()
    ensures
        APPEAR_LAG_MS == 1500,
        GONE_LAG_MS == 1500,
        MAX_CARDS == 4,
        ROTATE_AFTER_MS == 5000,
        MAX_LINE == 120,
        LABEL_CHARS == 24,
        TOOL_NAME_ROOM == 24,
        APPEAR_MS == 200,
        TYPE_LAG_CHARS == 240,
{
}

/// How long the sources' sessions and prompts are looked at.
pub proof fn law_times_of_the_sources()
    ensures
        FINISHED_TTL_MS == 3 * 60 * 1000,
        PROGRESS_STEP == 10,
        FRESHNESS_MS == 10 * 60 * 1000,
        LOOKBACK_SECS == 2 * 60 * 60,
        PREVIEW_CHARS == 160,
{
}

/// The lengths of the window and the bubble at scale one.
pub proof fn law_lengths()
    ensures
        MIN_BUBBLE_W == 150 && MAX_BUBBLE_W == 150 && MAX_BUBBLE_H == 350 && BUBBLE_MARGIN_Y == 44,
        PAD_X == 7 && PAD_TOP == 6 && PAD_BOTTOM == 8,
        WINDOW_EXTRA_W == 180 && RIGHT_MARGIN == 10 && BOTTOM_MARGIN == 80,
        DRAG_SLIVER_PX == 48 && FULLSCREEN_TOLERANCE == 10,
{
}

/// The text of a bubble stands between its paddings, but has at least its least
/// width.
pub proof fn law_text_width(s: BubbleSizes, w: u32)
    ensures
        w - 2 * s.pad_x >= s.least_w ==> text_width(s, w) == w - 2 * s.pad_x,
        w - 2 * s.pad_x < s.least_w ==> text_width(s, w) == s.least_w,
{
}

/// The header holds the title and, above it, the name of the client.
pub proof fn law_header_height(s: BubbleSizes, title_h: u32, from_h: u32)
    requires
        title_h > 0,
    ensures
        header_height(s, false, title_h, 0) == title_h,
        header_height(s, true, title_h, from_h) == from_h + s.pill_gap + title_h,
        header_height(s, false, 0, 0) == 1,
{
}

/// The lines have what the paddings, the header, the divider and the gaps round it
/// leave, but at least their least height.
pub proof fn law_body_budget(s: BubbleSizes, h: u32, header_h: u32)
    ensures
        ({
            let text = h - s.pad_top - s.pad_bottom;
            let above = header_h + s.gap_top + s.divider + s.gap_bottom;
            let b = body_budget(s, h, header_h);
            &&& text >= s.least_h && text - above >= s.least_body ==> b == text - above
            &&& text >= s.least_h && text - above < s.least_body ==> b == s.least_body
            &&& text < s.least_h && s.least_h - above >= s.least_body ==> b == s.least_h - above
            &&& text < s.least_h && s.least_h - above < s.least_body ==> b == s.least_body
        }),
{
}

/// The text behind the companion keeps its margins on both sides, but is at least
/// sixty-four pixels wide, and thirty-two high.
pub proof fn law_overlay(s: OverlaySizes, pet_w: u32, pet_h: u32)
    ensures
        pet_w - 2 * s.margin_x >= 64 ==> overlay_width(s, pet_w) == pet_w - 2 * s.margin_x,
        pet_w - 2 * s.margin_x < 64 ==> overlay_width(s, pet_w) == 64,
        pet_h - 2 * s.margin_y >= 32 ==> overlay_budget(s, pet_h) == pet_h - 2 * s.margin_y,
        pet_h - 2 * s.margin_y < 32 ==> overlay_budget(s, pet_h) == 32,
{
}

/// The pill is as wide as its text and two paddings, stands in the middle between
/// the paddings of the bubble, and is round at its ends; its text is white.
pub proof fn law_pill_is_centered(
    b: Bubble,
    x: i32,
    y: i32,
    mode: Mode,
    body: bool,
    s: BubbleSizes,
    fade: Seq<u8>,
    label_w: u32,
)
    requires
        b.text@.from is Some,
        b.from_h >= 1,
        b.from_h <= 0xffff && s.pill_extra <= 0xffff && s.pill_pad <= 0xffff && label_w <= 0xffff,
        s.pad_x <= 0xffff && s.pad_top <= 0xffff && s.pill_lift <= s.pill_extra,
        b.w >= 2 * s.pad_x + label_w + 2 * s.pill_pad,
    ensures
        ({
            let d = b.drawing(x, y, mode, body, s, fade, label_w);
            let w = label_w + 2 * s.pill_pad;
            let h = b.from_h + s.pill_extra;
            let left = s.pad_x + (b.w - 2 * s.pad_x - w) / 2;
            &&& d[3] matches StrokeModel::Panel { at, radius, alpha, .. } && at.x == x + left && at.y == y + s.pad_top
                - s.pill_lift && at.w == w && at.h == h && radius == h / 2 && alpha == fade[230]
            &&& d[4] matches StrokeModel::Text { at, color, bold, .. } && at.x == x + left + s.pill_pad && at.y == y
                + s.pad_top && at.w == label_w + s.pill_extra && at.h == h - s.pill_lift && color.r == 255 && color.g == 255
                && color.b == 255 && bold
        }),
{
}

/// The ground lies within the border on all sides; its corners are less round by
/// one.
pub proof fn law_ground_within_border(
    b: Bubble,
    x: i32,
    y: i32,
    mode: Mode,
    body: bool,
    s: BubbleSizes,
    fade: Seq<u8>,
    label_w: u32,
)
    requires
        2 * s.border < b.w,
        2 * s.border < b.h,
        s.radius >= 1,
    ensures
        ({
            let d = b.drawing(x, y, mode, body, s, fade, label_w);
            &&& d[0] matches StrokeModel::Shadow { radius, blur, .. } && radius == s.radius && blur == s.shadow_blur
            &&& d[1] matches StrokeModel::Panel { radius, .. } && radius == s.radius
            &&& d[2] matches StrokeModel::Glass { at, radius, blur, .. } ==> at.w == b.w - 2 * s.border && at.h == b.h - 2
                * s.border && radius == s.radius - 1 && blur == s.glass_blur
            &&& d[2] matches StrokeModel::Panel { at, radius, .. } ==> at.w == b.w - 2 * s.border && at.h == b.h - 2
                * s.border && radius == s.radius - 1
        }),
{
}

/// The title is bold and as wide as the paddings leave room; the divider and the
/// lines, which are not bold, stand below the header.
pub proof fn law_lines_stand_below(
    b: Bubble,
    x: i32,
    y: i32,
    mode: Mode,
    s: BubbleSizes,
    fade: Seq<u8>,
    label_w: u32,
)
    requires
        b.text@.lines.len() > 0,
        b.header_h >= 1,
        b.header_h > b.from_h,
        b.w >= 2 * s.pad_x,
        b.h >= s.pad_top + b.header_h + s.gap_top + s.divider + s.gap_bottom + s.pad_bottom,
    ensures
        ({
            let d = b.drawing(x, y, mode, true, s, fade, label_w);
            let n = d.len() as int;
            let below = s.pad_top + b.header_h + s.gap_top;
            let room = b.w - 2 * s.pad_x;
            &&& d[n - 3] matches StrokeModel::Text { at, bold, .. } && bold && at.w == room && at.h == b.header_h - b.from_h
            &&& d[n - 2] matches StrokeModel::Panel { at, radius, .. } && at.x == x + s.pad_x && at.y == y + below && at.w
                == room && radius == 0
            &&& d[n - 1] matches StrokeModel::Text { at, bold, single, .. } && !bold && !single && at.x == x + s.pad_x
                && at.y == y + below + s.divider + s.gap_bottom && at.w == room && at.h == b.h - below - s.divider
                - s.gap_bottom - s.pad_bottom
        }),
{
}

/// The row of a script and those of its arguments stand one below the other, and a
/// wider gap comes before the next script.
pub proof fn law_rows_of_the_settings(s: SettingsSizes, rows: Seq<usize>, n: usize)
    ensures
        s.buttons_y(Seq::empty()) == s.margin,
        s.buttons_y(rows.push(n)) == s.buttons_y(rows) + (1 + n) * (s.row_h + s.gap) - s.gap + s.group_gap,
        s.lines(Seq::empty()) == 0,
        s.lines(rows.push(n)) == s.lines(rows) + 1 + n,
{
    assert(rows.push(n).drop_last() =~= rows);
}

/// Dragged as far as can be, forty-eight pixels of the companion stay on the
/// screen.
pub proof fn law_sliver(s: Screen, pet_w: int, overhang: int, h: int)
    requires
        pet_w >= 48,
        h >= 48,
        s.w >= 48,
        s.h >= 48,
    ensures
        ({
            let (x0, x1) = x_bounds(s, pet_w, overhang);
            let (y0, y1) = y_bounds(s, h);
            &&& x0 + overhang + pet_w == s.x + 48
            &&& x1 + overhang == s.x + s.w - 48
            &&& y0 + h == s.y + 48
            &&& y1 == s.y + s.h - 48
        }),
{
}

/// The tail of an animation is as many of its last frames as are asked for, or all
/// of them.
pub proof fn law_tail_by_frames(a: Animation, tail_ms: u64, f: u32, start: int)
    ensures
        a.tail_begins(tail_ms, Some(f), start) <==> start == (if f >= a.frames@.len() { 0int } else {
            a.frames@.len() - f
        }),
{
}

/// A player goes back to the first frame where it shows all of them over and over,
/// and otherwise to that of the tail; only then are passes counted.
pub proof fn law_player_goes_back(p: Player, a: Animation)
    ensures
        ({
            let s = p.schedule(a);
            &&& s.d == a.durations_ms@
            &&& p.full_loop ==> s.back_to == 0 && !s.counts
            &&& !p.full_loop ==> s.back_to == p.tail_start && s.counts
        }),
{
}

/// The resources lie where the caller says, or else in the directory `resource`
/// beside the program, with one separator before it.
pub proof fn law_resources(dir: Seq<char>, other: Seq<char>, sep: char)
    requires
        sep == '/' || sep == '\\',
    ensures
        resource_path(dir, Some(other), sep) == other,
        resource_path(Seq::empty(), None, sep) == "resource"@,
        dir.len() > 0 && dir.last() != '/' && dir.last() != sep ==> resource_path(dir, None, sep) == dir.push(sep)
            + "resource"@,
        dir.len() > 0 && (dir.last() == '/' || dir.last() == sep) ==> resource_path(dir, None, sep) == dir + "resource"@,
{
}

/// A mode does not fade where its own name is listed, or that of its animation.
pub proof fn law_listed(states: Seq<Seq<char>>, i: int)
    requires
        0 <= i < states.len(),
    ensures
        forall|m: Mode|
            states[i] == m.asset_name() ==> #[trigger] listed(states, m),
        states[i] == "offline"@ ==> listed(states, Mode::Offline),
        states[i] == "attention"@ ==> listed(states, Mode::Attention),
        states[i] == "failed"@ ==> listed(states, Mode::Failed),
        states[i] == "working"@ ==> listed(states, Mode::Working),
        states[i] == "thinking"@ ==> listed(states, Mode::Thinking),
        states[i] == "done"@ ==> listed(states, Mode::Done),
        states[i] == "idle"@ ==> listed(states, Mode::Idle),
        states[i] == "move"@ ==> listed(states, Mode::Move),
        !listed(Seq::empty(), Mode::Idle),
{
}

/// An animation moves while it is the one of the mode on show, and anything is
/// connected.
pub proof fn law_moves(s: ShowModel)
    ensures
        s.plays() <==> s.mode != Mode::Offline && s.anim == Some(s.mode.asset_name()),
{
}

/// A panel fills its rectangle, from its corner on; its shape ends with its last
/// column and row.
pub proof fn law_panel_place(x: i32, y: i32, w: u32, h: u32, radius: u32, px: int, py: int)
    ensures
        area_of(x, y, w, h).has(px, py) <==> x <= px < x + w && y <= py < y + h,
        ({
            let r = round_of(x, y, w, h, radius);
            r.x0 == x && r.y0 == y && r.x1 == x + w - 1 && r.y1 == y + h - 1 && r.radius == radius
        }),
{
}

/// The window's own last picture is taken out of every place of the screen's.
pub proof fn law_screen_is_uncovered(screen: Canvas, seen: Canvas, c: &Canvas, dx: i64, dy: i64, x: int, y: int)
    requires
        0 <= x < screen.w,
        0 <= y < screen.h,
    ensures
        uncovered(screen, seen, None) ==> seen == screen,
        uncovered(screen, seen, Some((c, dx, dy))) ==> seen.w == screen.w && seen.h == screen.h && seen.at(x, y) == (
        UncoverBrush { last: c, dx, dy }).shade(x, y, screen.at(x, y)),
{
    assert(screen.on(x, y));
}

/// A brush changes what lies in its rectangle, each place by itself, and nothing
/// else.
pub proof fn law_painting<B: Brush>(a: Canvas, b: Canvas, area: Area, brush: B, x: int, y: int)
    requires
        painted(a, b, area, brush),
        0 <= x < a.w,
        0 <= y < a.h,
    ensures
        b.w == a.w && b.h == a.h,
        area.x0 <= x < area.x1 && area.y0 <= y < area.y1 ==> b.at(x, y) == brush.shade(x, y, a.at(x, y)),
        !(area.x0 <= x < area.x1 && area.y0 <= y < area.y1) ==> b.at(x, y) == a.at(x, y),
{
    assert(a.on(x, y));
}

/// A pixel has four bytes, and pixels stand row by row.
pub proof fn law_pixels_in_rows(c: Canvas, x: int, y: int)
    ensures
        ({
            let o = 4 * (y * c.w + x);
            let p = c.at(x, y);
            p.b == c.bits@[o] && p.g == c.bits@[o + 1] && p.r == c.bits@[o + 2] && p.a == c.bits@[o + 3]
        }),
{
}

/// A picture becomes an icon of thirty-two by thirty-two pixels, with its bytes in
/// the order of the window's.
pub proof fn law_icon(png: Seq<u8>)
    ensures
        image_in(png) is Err ==> icon_in(png) is None,
        icon_in(png) matches Some(v) ==> {
            let p = image_in(png)->Ok_0;
            let small = resized_in(p.raw.take(4 * (p.width as int * p.height as int)), p.width, p.height, 32, 32);
            v.len() == small.len() && forall|i: int|
                0 <= i && 4 * i + 3 < v.len() ==> #[trigger] v[4 * i] == small[4 * i + 2] && v[4 * i + 1] == small[4 * i + 1]
                    && v[4 * i + 2] == small[4 * i] && v[4 * i + 3] == small[4 * i + 3]
        },
        image_in(png) matches Ok(p) ==> 0 < p.width <= 0x100_0000 && 0 < p.height <= 0x10_0000 && p.width <= 0x10_0000
            ==> icon_in(png) is Some,
{
}

/// A frame whose visible box is known is drawn within it.
pub proof fn law_drawn_box(f: crate::anim::FrameModel, b: (i32, i32, i32, i32))
    requires
        0 < f.w <= i32::MAX,
        0 < f.h <= i32::MAX,
    ensures
        f.bbox == Some(b) ==> drawn_box(f) == b,
        f.bbox is None && f.tight_bbox() == Some(b) ==> drawn_box(f) == b,
        f.bbox is None && f.tight_bbox() is None ==> drawn_box(f) == (0i32, 0i32, f.w as i32, f.h as i32),
{
}

} // verus!
