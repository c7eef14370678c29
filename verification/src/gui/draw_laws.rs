//! What is drawn for a bubble.

use vstd::prelude::*;
use vstd::string::*;

use crate::config::Rgb;
use crate::event::Mode;
use crate::gui::bubble::{bubble_size, Bubble, BubbleSizes, StrokeModel};

verus! {

/// The color of what a bubble tells: of thinking, working, done, failed and
/// attention in this order, and of all else.
pub open spec fn accent(b: Bubble, mode: Mode) -> Rgb {
    match mode {
        Mode::Thinking => b.theme.state@[0],
        Mode::Working => b.theme.state@[1],
        Mode::Done => b.theme.state@[2],
        Mode::Failed => b.theme.state@[3],
        Mode::Attention => b.theme.state@[4],
        _ => b.theme.state@[5],
    }
}

/// First the shadow, then the border, then the ground are drawn, in the colors of
/// the theme; the ground is glass where the theme says so.
pub proof fn law_ground_is_drawn(
    b: Bubble,
    x: i32,
    y: i32,
    mode: Mode,
    body: bool,
    s: BubbleSizes,
    fade: Seq<u8>,
    label_w: u32,
)
    ensures
        ({
            let d = b.drawing(x, y, mode, body, s, fade, label_w);
            &&& d.len() >= 4
            &&& d[0] matches StrokeModel::Shadow { at, alpha, .. } && at.x == x && at.y == y && at.w == b.w && at.h == b.h
                && alpha == fade[b.theme.shadow_alpha as int]
            &&& d[1] matches StrokeModel::Panel { at, color, alpha, .. } && at.x == x && at.y == y && at.w == b.w && at.h
                == b.h && color == b.theme.border && alpha == fade[b.theme.border_alpha as int]
            &&& b.theme.acrylic ==> (d[2] matches StrokeModel::Glass { at, tint, otherwise, .. } && at.x == x + s.border
                && at.y == y + s.border && tint == b.theme.fill && otherwise == fade[b.theme.fill_alpha as int])
            &&& !b.theme.acrylic ==> (d[2] matches StrokeModel::Panel { at, color, alpha, .. } && at.x == x + s.border
                && at.y == y + s.border && color == b.theme.fill && alpha == fade[b.theme.fill_alpha as int])
        }),
{
}

/// The name of the client is drawn on a pill in the color of the mode, above the
/// title; a bubble without one has no pill.
pub proof fn law_client_is_drawn(
    b: Bubble,
    x: i32,
    y: i32,
    mode: Mode,
    body: bool,
    s: BubbleSizes,
    fade: Seq<u8>,
    label_w: u32,
)
    ensures
        ({
            let d = b.drawing(x, y, mode, body, s, fade, label_w);
            let at_title: int = if b.text@.from is Some { 5 } else { 3 };
            &&& b.text@.from matches Some(f) ==> (d[3] matches StrokeModel::Panel { color, .. } && color == accent(b, mode))
            &&& b.text@.from matches Some(f) ==> (d[4] matches StrokeModel::Text { lines, single, .. } && lines == seq![
                "From "@ + f,
            ] && single)
            &&& at_title < d.len()
            &&& d[at_title] matches StrokeModel::Text { lines, color, .. } && lines == seq![b.text@.title] && color == (
            if mode == Mode::Done || mode == Mode::Failed || mode == Mode::Attention {
                accent(b, mode)
            } else {
                b.theme.title
            })
        }),
{
}

/// The title stands below the pill, and within the paddings.
pub proof fn law_title_stands_below(
    b: Bubble,
    x: i32,
    y: i32,
    mode: Mode,
    body: bool,
    s: BubbleSizes,
    fade: Seq<u8>,
    label_w: u32,
)
    requires
        s.pad_x <= 0xffff && s.pad_top <= 0xffff && s.pill_gap <= 0xffff && b.from_h <= 0xffff,
    ensures
        ({
            let d = b.drawing(x, y, mode, body, s, fade, label_w);
            let at_title: int = if b.text@.from is Some { 5 } else { 3 };
            let above = if b.text@.from is None {
                0
            } else if b.from_h > 1 {
                b.from_h + s.pill_gap
            } else {
                1 + s.pill_gap
            };
            d[at_title] matches StrokeModel::Text { at, .. } && at.x == x + s.pad_x && at.y == y + s.pad_top + above
        }),
{
}

/// The lines are drawn last, below a divider, where there are any and the bubble
/// is to show them; otherwise the title is the last.
pub proof fn law_lines_are_drawn(
    b: Bubble,
    x: i32,
    y: i32,
    mode: Mode,
    body: bool,
    s: BubbleSizes,
    fade: Seq<u8>,
    label_w: u32,
)
    ensures
        ({
            let d = b.drawing(x, y, mode, body, s, fade, label_w);
            let at_title: int = if b.text@.from is Some { 5 } else { 3 };
            let n = d.len() as int;
            &&& body && b.text@.lines.len() > 0 ==> n == at_title + 3 && (d[n - 2] matches StrokeModel::Panel {
                color,
                alpha,
                at,
                ..
            } && color == b.theme.divider && alpha == fade[b.theme.divider_alpha as int] && at.h == s.divider)
            &&& body && b.text@.lines.len() > 0 ==> (d[n - 1] matches StrokeModel::Text { lines, color, .. } && lines
                == b.text@.lines && color == b.theme.title)
            &&& !body || b.text@.lines.len() == 0 ==> n == at_title + 1
        }),
{
}

/// A bubble is as wide as the companion, but neither narrower nor wider than it
/// may be, and as high as it may be, but ends above the companion's foot.
pub proof fn law_bubble_has_room(s: BubbleSizes, pet_w: u32, pet_h: u32)
    ensures
        ({
            let (w, h) = bubble_size(s, pet_w, pet_h);
            &&& w <= s.max_w
            &&& s.min_w <= s.max_w ==> w >= s.min_w
            &&& s.min_w <= pet_w <= s.max_w ==> w == pet_w
            &&& h <= s.max_h
            &&& pet_h >= s.margin_y ==> h <= pet_h - s.margin_y
            &&& pet_h >= s.margin_y + s.max_h ==> h == s.max_h
            &&& s.margin_y <= pet_h < s.margin_y + s.max_h ==> h == pet_h - s.margin_y
        }),
{
}

} // verus!
