//! Where the window goes.

use vstd::prelude::*;
use vstd::string::*;

use crate::gui::place::{body_of, corner, covers, in_sight, over_body, reachable, Front, Rect, Screen};
use crate::gui::roam::{Around, Dodge, Roam, Tuck};

verus! {

/// The window is free to rest or not: nobody drags it and nothing hides it.
pub open spec fn at_liberty(r: Roam, e: Around) -> bool {
    !r.dragging && !e.hidden
}

/// A window that has rested for long enough slides away, straight down, and
/// remembers where it stood; one that has not yet rested long enough stays.
pub proof fn law_rest_tucks_away(r: Roam, e: Around)
    requires
        at_liberty(r, e),
        !r.collapsed,
        e.auto_hide,
        e.resting,
    ensures
        ({
            let (n, t) = r.rested(e);
            let since = if r.idle_since is Some { r.idle_since->0 } else { e.now };
            let long = e.now - since >= e.after_sec * 1000 || e.after_sec == 0;
            &&& long ==> t == Tuck::Away && n.collapsed && n.home == Some((e.win.0, e.win.1)) && n.slide == Some(
                (e.win.0, e.tuck_y),
            ) && !n.dodging && n.avoid_home is None
            &&& !long ==> t == Tuck::Stay && n == (Roam { idle_since: Some(since), ..r })
        }),
{
}

/// A window that is not to be tucked away, or has something to do, does not count
/// its rest.
pub proof fn law_no_rest_no_tuck(r: Roam, e: Around)
    requires
        at_liberty(r, e),
        !r.collapsed,
        !e.auto_hide || !e.resting,
    ensures
        r.rested(e) == (Roam { idle_since: None, ..r }, Tuck::Stay),
{
}

/// Nothing happens of its own accord while the window is dragged or hidden.
pub proof fn law_no_tuck_while_held(r: Roam, e: Around)
    requires
        !at_liberty(r, e),
    ensures
        r.rested(e) == (r, Tuck::Stay),
{
}

/// A window that is tucked away comes back to where it stood as soon as there is
/// something to do.
pub proof fn law_comes_back_home(r: Roam, e: Around)
    requires
        at_liberty(r, e),
        r.collapsed,
        r.home is Some,
        !e.resting || !e.auto_hide,
    ensures
        ({
            let (n, t) = r.rested(e);
            &&& t == Tuck::Back
            &&& !n.collapsed
            &&& n.slide == r.home
            &&& n.home is None
            &&& n.clip == 0
        }),
{
}

/// The cursor is over the part of a tucked away window that can be seen: the
/// visible companion, above the edge of the screen.
pub open spec fn cursor_on_peek(e: Around) -> bool {
    let shown = if e.work_bottom < e.win.1 {
        0
    } else if e.work_bottom - e.win.1 > e.win.3 {
        e.win.3 as int
    } else {
        e.work_bottom - e.win.1
    };
    let bottom = e.win.1 + shown;
    match e.bbox {
        Some((bx, by, bw, bh)) => {
            &&& e.win.0 + bx + e.overhang <= e.cursor.0 < e.win.0 + bx + e.overhang + bw
            &&& e.win.1 + by <= e.cursor.1 < e.win.1 + by + bh
            &&& e.cursor.1 < bottom
        },
        None => e.win.0 <= e.cursor.0 < e.win.0 + e.win.2 && e.win.1 <= e.cursor.1 < bottom,
    }
}

/// A window that is tucked away comes back once the cursor has stayed on what can
/// be seen of it for long enough; the time starts anew whenever it leaves.
pub proof fn law_hovering_calls_back(r: Roam, e: Around)
    requires
        at_liberty(r, e),
        r.collapsed,
        e.resting,
        e.auto_hide,
        r.slide is None,
        e.win.3 >= 0,
        e.hover_sec <= 0xffff_ffff,
    ensures
        ({
            let (n, t) = r.rested(e);
            let since = if r.hover_since is Some { r.hover_since->0 } else { e.now };
            let long = e.now - since >= e.hover_sec * 1000 || e.hover_sec == 0;
            &&& !cursor_on_peek(e) ==> t == Tuck::Stay && n.collapsed && n.hover_since is None
            &&& cursor_on_peek(e) && !long ==> t == Tuck::Stay && n.collapsed && n.hover_since == Some(since)
            &&& cursor_on_peek(e) && long ==> t == Tuck::Back && !n.collapsed
        }),
{
}

/// A window that may dodge does so from where it stands when the cursor comes
/// near, goes on while the cursor is not far, and goes home when it is.
pub proof fn law_dodging(r: Roam, e: Around)
    requires
        at_liberty(r, e),
        e.avoid,
        !r.collapsed,
        r.slide is None,
        !r.arm_after_leave,
        r.dodging ==> r.avoid_home is Some,
    ensures
        ({
            let stand = if r.avoid_home is Some { r.avoid_home->0 } else { (e.win.0, e.win.1) };
            &&& r.avoided(e, true, false).1 == Dodge::From(stand.0, stand.1)
            &&& r.avoided(e, true, false).0.dodging && r.avoided(e, true, false).0.avoid_home is Some
            &&& r.dodging ==> r.avoided(e, false, false).1 == Dodge::From(stand.0, stand.1) && r.avoided(
                e,
                false,
                false,
            ).0.dodging
            &&& r.avoid_home is Some ==> r.avoided(e, false, true).1 == Dodge::Home(stand.0, stand.1)
            &&& r.avoid_home is None ==> r.avoided(e, false, true).1 == Dodge::Stay
            &&& !r.avoided(e, false, true).0.dodging
        }),
{
}

/// After it was called back a window does not dodge before the cursor has been
/// far once.
pub proof fn law_does_not_dodge_its_caller(r: Roam, e: Around, near: bool)
    requires
        r.arm_after_leave,
        r.avoid_home is None,
    ensures
        r.avoided(e, near, false) == (r, Dodge::Stay),
        !r.avoided(e, false, true).0.arm_after_leave,
{
}

/// A window that is dragged keeps its distance to the cursor.
pub proof fn law_drag_follows(r: Roam, e: Around, c: (i32, i32))
    ensures
        ({
            let g = r.grabbed(e);
            &&& g.dragging
            &&& !g.collapsed
            &&& g.dragged_to(c).0 - c.0 == e.win.0 - e.cursor.0
            &&& g.dragged_to(c).1 - c.1 == e.win.1 - e.cursor.1
        }),
{
}

/// A place within reach is kept, and one that is not is left for the nearest that
/// is: a coordinate moves only as far as its bound.
pub proof fn law_nearest_place(s: Screen, pet_w: int, overhang: int, h: int, x: int, y: int)
    requires
        s.w >= 96,
        s.h >= 96,
        pet_w >= 0,
        h >= 0,
    ensures
        ({
            let (nx, ny) = reachable(s, pet_w, overhang, h, x, y);
            let (x0, x1) = (s.x + 48 - overhang - pet_w, s.x + s.w - 48 - overhang);
            let (y0, y1) = (s.y + 48 - h, s.y + s.h - 48);
            &&& x0 <= x <= x1 ==> nx == x
            &&& x < x0 ==> nx == x0
            &&& x > x1 ==> nx == x1
            &&& y0 <= y <= y1 ==> ny == y
            &&& y < y0 ==> ny == y0
            &&& y > y1 ==> ny == y1
        }),
{
}

/// The window starts in the bottom right corner, clear of the edges, and never
/// beyond the left or top edge.
pub proof fn law_corner(sw: int, sh: int, w: int, h: int)
    ensures
        sw - w >= 10 ==> corner(sw, sh, w, h).0 + w + 10 == sw,
        sw - w < 10 ==> corner(sw, sh, w, h).0 == 0,
        sh - h >= 80 ==> corner(sw, sh, w, h).1 + h + 80 == sh,
        sh - h < 80 ==> corner(sw, sh, w, h).1 == 0,
{
}

/// A window is in sight where it shares a pixel with the screen.
pub proof fn law_in_sight(r: Rect, s: Screen, x: int, y: int)
    ensures
        r.left <= x < r.right && r.top <= y < r.bottom && s.x <= x < s.x + s.w && s.y <= y < s.y + s.h ==> in_sight(r, s),
        r.right <= s.x || r.left >= s.x + s.w || r.bottom <= s.y || r.top >= s.y + s.h ==> !in_sight(r, s),
{
}

/// A window that contains the screen covers it, and one that leaves a strip of
/// more than ten pixels does not.
pub proof fn law_covers(win: Rect, screen: Rect)
    ensures
        win.left <= screen.left && win.top <= screen.top && win.right >= screen.right && win.bottom >= screen.bottom
            ==> covers(win, screen),
        win.left > screen.left + 10 || win.top > screen.top + 10 || win.right + 10 < screen.right || win.bottom + 10
            < screen.bottom ==> !covers(win, screen),
        win.left <= screen.left + 10 && win.top <= screen.top + 10 && win.right + 10 >= screen.right && win.bottom + 10
            >= screen.bottom ==> covers(win, screen),
{
}

/// The cursor is over the companion where it is over the box of its visible
/// pixels, shifted by its place in the window; without a box everything right of
/// the bubble's room counts.
pub proof fn law_over_companion(b: (i32, i32, i32, i32), overhang: int, w: int, h: int, win: (int, int), c: (int, int))
    requires
        b.2 >= 1,
        b.3 >= 1,
        w - overhang >= 1,
        h >= 1,
    ensures
        over_body(body_of(Some(b), overhang, w, h), win, c) <==> win.0 + overhang + b.0 <= c.0 < win.0 + overhang + b.0
            + b.2 && win.1 + b.1 <= c.1 < win.1 + b.1 + b.3,
        over_body(body_of(None, overhang, w, h), win, c) <==> win.0 + overhang <= c.0 < win.0 + w && win.1 <= c.1 < win.1
            + h,
{
}

/// The companion steps aside for a window that covers its screen and has no title
/// bar, unless that is its own or one of the desktop.
pub proof fn law_steps_aside(f: Front)
    ensures
        f.fills() ==> f.same_screen && !f.has_caption && !f.own_or_desktop && covers(f.rect, f.screen),
        f.class@ == "Progman"@ || f.class@ == "WorkerW"@ ==> !f.fills(),
        f.same_screen && !f.has_caption && !f.own_or_desktop && covers(f.rect, f.screen) && f.class@ != "Progman"@
            && f.class@ != "WorkerW"@ ==> f.fills(),
{
}

} // verus!
