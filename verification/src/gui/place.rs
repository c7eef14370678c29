//! Where the window stands: on the screen, in its corner, within reach, and out
//! of the way of programs that fill the screen.

use vstd::prelude::*;

use crate::text::same_text;

verus! {

/// A rectangle by its edges; `right` and `bottom` lie outside.
#[derive(Debug, Clone, Copy, PartialEq, Eq, Structural)]
pub struct Rect {
    pub left: i32,
    pub top: i32,
    pub right: i32,
    pub bottom: i32,
}

/// The area that all screens cover together.
#[derive(Debug, Clone, Copy, PartialEq, Eq, Structural)]
pub struct Screen {
    pub x: i32,
    pub y: i32,
    pub w: i32,
    pub h: i32,
}

/// How many pixels of the companion stay on the screen, so that it can be
/// grabbed again.
pub const DRAG_SLIVER_PX: i32 = 48;

/// Room beside the companion for the bubble.
pub const WINDOW_EXTRA_W: u32 = 180;

/// Gap between the window and the right edge of the screen.
pub const RIGHT_MARGIN: i32 = 10;

/// Gap between the window and the bottom of the screen.
pub const BOTTOM_MARGIN: i32 = 80;

/// How far a window that fills the screen may fall short of its edges.
pub const FULLSCREEN_TOLERANCE: i32 = 10;

/// `x` moved into the range from `lo` to `hi`.
pub open spec fn clamped(x: int, lo: int, hi: int) -> int {
    if x < lo {
        lo
    } else if x > hi {
        hi
    } else {
        x
    }
}

fn clamp_i64(x: i64, lo: i64, hi: i64) -> (r: i64)
    ensures
        r == clamped(x as int, lo as int, hi as int),
{
    if x < lo {
        lo
    } else if x > hi {
        hi
    } else {
        x
    }
}

/// A part of a window can be seen on the screen.
pub open spec fn in_sight(r: Rect, s: Screen) -> bool {
    r.right > s.x && r.left < s.x + s.w && r.bottom > s.y && r.top < s.y + s.h
}

/// Whether a part of a window can be seen on the screen. The window of another
/// instance counts only then.
pub fn is_in_sight(r: Rect, s: Screen) -> (v: bool)
    ensures
        v == in_sight(r, s),
{
    r.right > s.x && (r.left as i64) < s.x as i64 + s.w as i64 && r.bottom > s.y && (r.top as i64) < s.y as i64
        + s.h as i64
}

/// A window covers a screen, but for a few pixels.
pub open spec fn covers(win: Rect, screen: Rect) -> bool {
    &&& win.left <= screen.left + FULLSCREEN_TOLERANCE
    &&& win.top <= screen.top + FULLSCREEN_TOLERANCE
    &&& win.right >= screen.right - FULLSCREEN_TOLERANCE
    &&& win.bottom >= screen.bottom - FULLSCREEN_TOLERANCE
}

/// The windows of the desktop itself, which always cover the screen.
pub open spec fn is_desktop_class(class: Seq<char>) -> bool {
    class == "Progman"@ || class == "WorkerW"@
}

/// What is known of the window in front.
pub struct Front {
    /// It is the companion's own window, the desktop, or none.
    pub own_or_desktop: bool,
    pub class: String,
    /// It is on the screen that the companion is on.
    pub same_screen: bool,
    pub rect: Rect,
    pub screen: Rect,
    /// It has a title bar, so it is maximized at most.
    pub has_caption: bool,
}

impl Front {
    /// The window in front fills the companion's screen.
    pub open spec fn fills(self) -> bool {
        &&& !self.own_or_desktop
        &&& !is_desktop_class(self.class@)
        &&& self.same_screen
        &&& covers(self.rect, self.screen)
        &&& !self.has_caption
    }

    /// Whether the window in front fills the companion's screen, so that the
    /// companion steps aside.
    pub fn check_fullscreen(&self) -> (r: bool)
        ensures
            r == self.fills(),
    {
        if self.own_or_desktop {
            return false;
        }
        if same_text(self.class.as_str(), "Progman") || same_text(self.class.as_str(), "WorkerW") {
            return false;
        }
        let tol: i64 = FULLSCREEN_TOLERANCE as i64;
        self.same_screen && self.rect.left as i64 <= self.screen.left as i64 + tol && self.rect.top as i64
            <= self.screen.top as i64 + tol && self.rect.right as i64 >= self.screen.right as i64 - tol
            && self.rect.bottom as i64 >= self.screen.bottom as i64 - tol && !self.has_caption
    }
}

/// The columns between which the window may be dragged: the companion stands
/// `overhang` pixels from its left edge and keeps a sliver on the screen.
pub open spec fn x_bounds(s: Screen, pet_w: int, overhang: int) -> (int, int) {
    let a = s.x + DRAG_SLIVER_PX - overhang - pet_w;
    let b = s.x + s.w - DRAG_SLIVER_PX - overhang;
    if a <= b {
        (a, b)
    } else {
        (b, a)
    }
}

/// The rows between which a window of height `h` may be dragged.
pub open spec fn y_bounds(s: Screen, h: int) -> (int, int) {
    let a = s.y + DRAG_SLIVER_PX - h;
    let b = s.y + s.h - DRAG_SLIVER_PX;
    if a <= b {
        (a, b)
    } else {
        (b, a)
    }
}

/// The place nearest to the one asked for at which the companion stays within
/// reach.
pub open spec fn reachable(s: Screen, pet_w: int, overhang: int, h: int, x: int, y: int) -> (int, int) {
    let (x0, x1) = x_bounds(s, pet_w, overhang);
    let (y0, y1) = y_bounds(s, h);
    (clamped(x, x0, x1), clamped(y, y0, y1))
}

/// The bounds can be written as screen coordinates.
pub open spec fn bounds_fit(s: Screen, pet_w: int, overhang: int, h: int) -> bool {
    let (x0, x1) = x_bounds(s, pet_w, overhang);
    let (y0, y1) = y_bounds(s, h);
    i32::MIN <= x0 && x1 <= i32::MAX && i32::MIN <= y0 && y1 <= i32::MAX
}

/// The columns between which the window may be dragged.
pub fn pet_drag_x_bounds(s: Screen, pet_w: u32, overhang: i32) -> (r: (i64, i64))
    ensures
        (r.0 as int, r.1 as int) == x_bounds(s, pet_w as int, overhang as int),
{
    let a: i64 = s.x as i64 + DRAG_SLIVER_PX as i64 - overhang as i64 - pet_w as i64;
    let b: i64 = s.x as i64 + s.w as i64 - DRAG_SLIVER_PX as i64 - overhang as i64;
    if a <= b {
        (a, b)
    } else {
        (b, a)
    }
}

/// The rows between which a window of height `h` may be dragged.
pub fn pet_drag_y_bounds(s: Screen, h: i32) -> (r: (i64, i64))
    ensures
        (r.0 as int, r.1 as int) == y_bounds(s, h as int),
{
    let a: i64 = s.y as i64 + DRAG_SLIVER_PX as i64 - h as i64;
    let b: i64 = s.y as i64 + s.h as i64 - DRAG_SLIVER_PX as i64;
    if a <= b {
        (a, b)
    } else {
        (b, a)
    }
}

/// Keeps a place within reach: most of the companion may leave the screen, but
/// never all of it.
pub fn clamp_inside_screen(s: Screen, pet_w: u32, overhang: i32, h: i32, x: i64, y: i64) -> (r: (i32, i32))
    requires
        bounds_fit(s, pet_w as int, overhang as int, h as int),
    ensures
        (r.0 as int, r.1 as int) == reachable(s, pet_w as int, overhang as int, h as int, x as int, y as int),
{
    let (x0, x1) = pet_drag_x_bounds(s, pet_w, overhang);
    let (y0, y1) = pet_drag_y_bounds(s, h);
    (clamp_i64(x, x0, x1) as i32, clamp_i64(y, y0, y1) as i32)
}

/// Wherever it is dragged, a strip of the companion stays on the screen.
pub proof fn law_never_lost(s: Screen, pet_w: int, overhang: int, h: int, x: int, y: int)
    requires
        s.w >= 2 * DRAG_SLIVER_PX,
        s.h >= 2 * DRAG_SLIVER_PX,
        pet_w >= 0,
        h >= 0,
    ensures
        ({
            let (nx, ny) = reachable(s, pet_w, overhang, h, x, y);
            &&& nx + overhang + pet_w >= s.x + DRAG_SLIVER_PX
            &&& nx + overhang <= s.x + s.w - DRAG_SLIVER_PX
            &&& ny + h >= s.y + DRAG_SLIVER_PX
            &&& ny <= s.y + s.h - DRAG_SLIVER_PX
        }),
{
}

/// A place within reach is left as it is.
pub proof fn law_reachable_stays(s: Screen, pet_w: int, overhang: int, h: int, x: int, y: int)
    ensures
        ({
            let (nx, ny) = reachable(s, pet_w, overhang, h, x, y);
            reachable(s, pet_w, overhang, h, nx, ny) == (nx, ny)
        }),
{
}

/// The corner in which the window stands at first: at the bottom right, but not
/// beyond the left or top edge.
pub open spec fn corner(sw: int, sh: int, w: int, h: int) -> (int, int) {
    let x = sw - w - RIGHT_MARGIN;
    let y = sh - h - BOTTOM_MARGIN;
    (if x < 0 { 0 } else { x }, if y < 0 { 0 } else { y })
}

/// Where the window starts: where it was left, kept within reach, or in its
/// corner.
pub fn start_place(
    saved: Option<(i32, i32)>,
    screen_w: i32,
    screen_h: i32,
    s: Screen,
    w: i32,
    h: i32,
    pet_w: u32,
    overhang: i32,
) -> (r: (i32, i32))
    requires
        w >= 0,
        h >= 0,
        bounds_fit(s, pet_w as int, overhang as int, h as int),
    ensures
        match saved {
            Some((x, y)) => (r.0 as int, r.1 as int) == reachable(
                s,
                pet_w as int,
                overhang as int,
                h as int,
                x as int,
                y as int,
            ),
            None => (r.0 as int, r.1 as int) == corner(screen_w as int, screen_h as int, w as int, h as int),
        },
{
    match saved {
        Some((x, y)) => clamp_inside_screen(s, pet_w, overhang, h, x as i64, y as i64),
        None => {
            let x: i64 = screen_w as i64 - w as i64 - RIGHT_MARGIN as i64;
            let y: i64 = screen_h as i64 - h as i64 - BOTTOM_MARGIN as i64;
            let x1: i32 = if x < 0 {
                0
            } else {
                x as i32
            };
            let y1: i32 = if y < 0 {
                0
            } else {
                y as i32
            };
            (x1, y1)
        },
    }
}

/// Where a window goes when its size changes: its right and bottom edges stay,
/// so that the companion does not move, but its top stays on the screen.
pub fn anchored(old_x: i32, old_y: i32, old_w: i32, old_h: i32, w: i32, h: i32) -> (r: (i32, i32))
    requires
        i32::MIN <= old_x + old_w - w <= i32::MAX,
        old_y + old_h - h <= i32::MAX,
    ensures
        r.0 == old_x + old_w - w,
        r.1 == if old_y + old_h - h < 0 {
            0
        } else {
            old_y + old_h - h
        },
{
    let x: i64 = old_x as i64 + old_w as i64 - w as i64;
    let y: i64 = old_y as i64 + old_h as i64 - h as i64;
    let y1: i32 = if y < 0 {
        0
    } else {
        y as i32
    };
    (x as i32, y1)
}

/// The size of the window around a companion of the given size.
pub fn window_size(pet_w: u32, pet_h: u32, overhang: u32) -> (r: (u32, u32))
    requires
        pet_w + WINDOW_EXTRA_W + overhang <= u32::MAX,
    ensures
        r.0 == pet_w + WINDOW_EXTRA_W + overhang,
        r.1 == pet_h,
{
    (pet_w + WINDOW_EXTRA_W + overhang, pet_h)
}

/// The part of the window that the companion fills: the box of its visible
/// pixels, or everything right of the bubble's room where that is not known.
/// Column, row, width and height.
pub open spec fn body_of(bbox: Option<(i32, i32, i32, i32)>, overhang: int, w: int, h: int) -> (int, int, int, int) {
    match bbox {
        Some((bx, by, bw, bh)) => (bx + overhang, by as int, bw as int, bh as int),
        None => (overhang, 0, w - overhang, h),
    }
}

/// At least one.
pub open spec fn at_least_one(n: int) -> int {
    if n < 1 {
        1
    } else {
        n
    }
}

/// The cursor is over the visible companion.
pub open spec fn over_body(body: (int, int, int, int), win: (int, int), cursor: (int, int)) -> bool {
    &&& win.0 + body.0 <= cursor.0 < win.0 + body.0 + at_least_one(body.2)
    &&& win.1 + body.1 <= cursor.1 < win.1 + body.1 + at_least_one(body.3)
}

/// Whether the cursor is over the visible companion.
pub fn cursor_over_pet(
    bbox: Option<(i32, i32, i32, i32)>,
    overhang: i32,
    win: (i32, i32, i32, i32),
    cursor: (i32, i32),
) -> (r: bool)
    ensures
        r == over_body(
            body_of(bbox, overhang as int, win.2 as int, win.3 as int),
            (win.0 as int, win.1 as int),
            (cursor.0 as int, cursor.1 as int),
        ),
{
    let (fx, fy, fw, fh): (i64, i64, i64, i64) = match bbox {
        Some((bx, by, bw, bh)) => (bx as i64 + overhang as i64, by as i64, bw as i64, bh as i64),
        None => (overhang as i64, 0, win.2 as i64 - overhang as i64, win.3 as i64),
    };
    let w: i64 = if fw < 1 {
        1
    } else {
        fw
    };
    let h: i64 = if fh < 1 {
        1
    } else {
        fh
    };
    let (cx, cy): (i64, i64) = (cursor.0 as i64, cursor.1 as i64);
    let x0: i64 = win.0 as i64 + fx;
    let y0: i64 = win.1 as i64 + fy;
    cx >= x0 && cx < x0 + w && cy >= y0 && cy < y0 + h
}

} // verus!
