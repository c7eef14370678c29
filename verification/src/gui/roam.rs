//! How the window moves by itself: it slides away when nothing happens for
//! long, dodges the cursor, and follows the mouse when it is dragged.

use vstd::prelude::*;

use crate::gui::place::{clamp_inside_screen, clamped, bounds_fit, reachable, Screen};

verus! {

/// Where the window is on its way to and from.
#[derive(Debug, Clone, Copy)]
pub struct Roam {
    /// Since when nothing has happened.
    pub idle_since: Option<u64>,
    /// The window is tucked away, or on its way there.
    pub collapsed: bool,
    /// Where the window stood before it was tucked away.
    pub home: Option<(i32, i32)>,
    /// Since when the cursor has been over the tucked away window.
    pub hover_since: Option<u64>,
    /// Rows at the bottom that the task bar covers.
    pub clip: i32,
    /// Where the window slides to.
    pub slide: Option<(i32, i32)>,
    /// Where the window stood before it dodged.
    pub avoid_home: Option<(i32, i32)>,
    /// The window dodges the cursor.
    pub dodging: bool,
    /// The window does not dodge until the cursor has left once.
    pub arm_after_leave: bool,
    pub dragging: bool,
    /// Where the window and the cursor were when dragging began.
    pub drag_win: (i32, i32),
    pub drag_cursor: (i32, i32),
}

/// What the window finds around it.
#[derive(Debug, Clone, Copy)]
pub struct Around {
    /// Tucking away is switched on.
    pub auto_hide: bool,
    /// Dodging is switched on.
    pub avoid: bool,
    /// A program that fills the screen hides the window.
    pub hidden: bool,
    /// There is nothing to show but rest.
    pub resting: bool,
    /// Seconds of rest before the window is tucked away.
    pub after_sec: u64,
    /// Seconds of hovering that bring it back.
    pub hover_sec: u64,
    /// Milliseconds on the clock.
    pub now: u64,
    /// The window: column, row, width, height.
    pub win: (i32, i32, i32, i32),
    /// The row at which the task bar begins.
    pub work_bottom: i32,
    /// The row to which a tucked away window slides.
    pub tuck_y: i32,
    pub cursor: (i32, i32),
    /// The box of the visible pixels within the companion.
    pub bbox: Option<(i32, i32, i32, i32)>,
    /// Where the companion begins within the window.
    pub overhang: i32,
}

/// What the window does of its own accord.
#[derive(Debug, Clone, Copy, PartialEq, Eq, Structural)]
pub enum Tuck {
    Stay,
    /// It begins to slide away.
    Away,
    /// It begins to slide back.
    Back,
}

/// Where a dodging window is to go.
#[derive(Debug, Clone, Copy, PartialEq, Eq, Structural)]
pub enum Dodge {
    Stay,
    /// Away from the cursor, from this place.
    From(i32, i32),
    /// Back to this place.
    Home(i32, i32),
}

/// Whole seconds from `since` to `now`.
pub open spec fn seconds_since(now: u64, since: u64) -> int {
    if now < since {
        0
    } else {
        (now - since) / 1000
    }
}

/// The rows of the window that the task bar covers.
pub open spec fn covered_rows(e: Around) -> int {
    clamped(e.win.3 - (e.work_bottom - e.win.1), 0, e.win.3 as int)
}

/// The visible part of a tucked away window: left, top, right and bottom edge.
pub open spec fn peeking(e: Around, clip: int) -> (int, int, int, int) {
    let (wx, wy, ww, wh) = e.win;
    let seen = if wh - clip < 0 { 0 } else { wh - clip };
    let bottom = wy + seen;
    match e.bbox {
        Some((bx, by, bw, bh)) => {
            let top = wy + by;
            let low = if wy + by + bh < bottom { wy + by + bh } else { bottom };
            (wx + bx + e.overhang, top, wx + bx + e.overhang + bw, if low < top { top } else { low })
        },
        None => (wx as int, wy as int, wx + ww, bottom),
    }
}

/// The cursor is over the visible part of a tucked away window.
pub open spec fn hovered(e: Around, clip: int) -> bool {
    let (x0, y0, x1, y1) = peeking(e, clip);
    x0 <= e.cursor.0 < x1 && y0 <= e.cursor.1 < y1
}

/// Hovering has lasted long enough.
pub open spec fn called_back(since: Option<u64>, e: Around) -> bool {
    match since {
        Some(t) => {
            let held = if e.now < t { 0 } else { e.now - t };
            let need = if e.hover_sec * 1000 > u64::MAX { u64::MAX as int } else { e.hover_sec * 1000 };
            held >= need
        },
        None => false,
    }
}

impl Roam {
    /// The window leaves its tucked away place for the one it came from.
    pub open spec fn brought_back(self, e: Around) -> Roam {
        Roam {
            collapsed: false,
            hover_since: None,
            clip: 0,
            home: None,
            slide: if self.home is Some {
                self.home
            } else {
                self.slide
            },
            idle_since: Some(e.now),
            arm_after_leave: e.avoid,
            ..self
        }
    }

    /// The window begins to slide away.
    pub open spec fn tucked(self, e: Around) -> Roam {
        Roam {
            home: Some((e.win.0, e.win.1)),
            collapsed: true,
            hover_since: None,
            idle_since: None,
            slide: Some((e.win.0, e.tuck_y)),
            dodging: false,
            avoid_home: None,
            arm_after_leave: false,
            ..self
        }
    }

    /// A tucked away window that has arrived looks at the cursor.
    pub open spec fn watched(self, e: Around) -> Roam {
        let clip = covered_rows(e);
        Roam {
            clip: clip as i32,
            hover_since: if hovered(e, clip) {
                Some(
                    match self.hover_since {
                        Some(t) => t,
                        None => e.now,
                    },
                )
            } else {
                None
            },
            ..self
        }
    }

    /// What the window does of its own accord.
    pub open spec fn rested(self, e: Around) -> (Roam, Tuck) {
        if self.dragging || e.hidden {
            (self, Tuck::Stay)
        } else if self.collapsed {
            if !e.resting || !e.auto_hide {
                (self.brought_back(e), Tuck::Back)
            } else if self.slide is Some {
                (self, Tuck::Stay)
            } else {
                let w = self.watched(e);
                if called_back(w.hover_since, e) {
                    (w.brought_back(e), Tuck::Back)
                } else {
                    (w, Tuck::Stay)
                }
            }
        } else if !e.auto_hide || !e.resting {
            (Roam { idle_since: None, ..self }, Tuck::Stay)
        } else {
            let since = match self.idle_since {
                Some(t) => t,
                None => e.now,
            };
            let r = Roam { idle_since: Some(since), ..self };
            if seconds_since(e.now, since) >= e.after_sec {
                (r.tucked(e), Tuck::Away)
            } else {
                (r, Tuck::Stay)
            }
        }
    }

    /// A window at rest in its corner.
    pub fn new() -> (r: Self)
        ensures
            r == (Roam {
                idle_since: None,
                collapsed: false,
                home: None,
                hover_since: None,
                clip: 0,
                slide: None,
                avoid_home: None,
                dodging: false,
                arm_after_leave: false,
                dragging: false,
                drag_win: (0, 0),
                drag_cursor: (0, 0),
            }),
    {
        Roam {
            idle_since: None,
            collapsed: false,
            home: None,
            hover_since: None,
            clip: 0,
            slide: None,
            avoid_home: None,
            dodging: false,
            arm_after_leave: false,
            dragging: false,
            drag_win: (0, 0),
            drag_cursor: (0, 0),
        }
    }

    /// Brings a tucked away window back; returns whether it was tucked away.
    pub fn exit_collapse(&mut self, e: &Around) -> (r: bool)
        ensures
            r == old(self).collapsed,
            *final(self) == if r {
                old(self).brought_back(*e)
            } else {
                *old(self)
            },
    {
        if !self.collapsed {
            return false;
        }
        self.collapsed = false;
        self.hover_since = None;
        self.clip = 0;
        if self.home.is_some() {
            self.slide = self.home;
        }
        self.home = None;
        self.idle_since = Some(e.now);
        self.arm_after_leave = e.avoid;
        true
    }

    fn enter_collapse(&mut self, e: &Around)
        ensures
            *final(self) == old(self).tucked(*e),
    {
        self.home = Some((e.win.0, e.win.1));
        self.collapsed = true;
        self.hover_since = None;
        self.idle_since = None;
        self.slide = Some((e.win.0, e.tuck_y));
        self.dodging = false;
        self.avoid_home = None;
        self.arm_after_leave = false;
    }

    fn watch(&mut self, e: &Around)
        requires
            e.win.3 >= 0,
        ensures
            *final(self) == old(self).watched(*e),
    {
        let (wx, wy, ww, wh): (i64, i64, i64, i64) = (e.win.0 as i64, e.win.1 as i64, e.win.2 as i64, e.win.3 as i64);
        let below: i64 = wh - (e.work_bottom as i64 - wy);
        let clip: i64 = if below < 0 {
            0
        } else if below > wh {
            wh
        } else {
            below
        };
        self.clip = clip as i32;
        let bottom: i64 = wy + (wh - clip);
        let (x0, y0, x1, y1): (i64, i64, i64, i64) = match e.bbox {
            Some((bx, by, bw, bh)) => {
                let top: i64 = wy + by as i64;
                let end: i64 = wy + by as i64 + bh as i64;
                let low: i64 = if end < bottom {
                    end
                } else {
                    bottom
                };
                let left: i64 = wx + bx as i64 + e.overhang as i64;
                let low: i64 = if low < top {
                    top
                } else {
                    low
                };
                (left, top, left + bw as i64, low)
            },
            None => (wx, wy, wx + ww, bottom),
        };
        let (cx, cy): (i64, i64) = (e.cursor.0 as i64, e.cursor.1 as i64);
        let over = cx >= x0 && cx < x1 && cy >= y0 && cy < y1;
        assert(over == hovered(*e, clip as int));
        self.hover_since = if over {
            match self.hover_since {
                Some(t) => Some(t),
                None => Some(e.now),
            }
        } else {
            None
        };
    }

    /// Lets the window do what it does of its own accord when nothing happens:
    /// after long rest it slides away, and it comes back when something happens
    /// or the cursor stays on it.
    pub fn update_collapse(&mut self, e: &Around) -> (r: Tuck)
        requires
            e.win.3 >= 0,
        ensures
            (*final(self), r) == old(self).rested(*e),
    {
        if self.dragging || e.hidden {
            return Tuck::Stay;
        }
        if self.collapsed {
            if !e.resting || !e.auto_hide {
                self.exit_collapse(e);
                return Tuck::Back;
            }
            if self.slide.is_some() {
                return Tuck::Stay;
            }
            self.watch(e);
            let need: u64 = match e.hover_sec.checked_mul(1000) {
                Some(ms) => ms,
                None => u64::MAX,
            };
            let held = match self.hover_since {
                Some(t) => e.now.saturating_sub(t) >= need,
                None => false,
            };
            if held {
                self.exit_collapse(e);
                return Tuck::Back;
            }
            return Tuck::Stay;
        }
        if !e.auto_hide || !e.resting {
            self.idle_since = None;
            return Tuck::Stay;
        }
        let since: u64 = match self.idle_since {
            Some(t) => t,
            None => e.now,
        };
        self.idle_since = Some(since);
        if e.now.saturating_sub(since) / 1000 >= e.after_sec {
            self.enter_collapse(e);
            return Tuck::Away;
        }
        Tuck::Stay
    }

    /// The window has arrived where it slid to; returns whether it is tucked
    /// away now, so that clicks pass through it.
    pub fn arrive(&mut self) -> (r: bool)
        ensures
            *final(self) == (Roam { slide: None, ..*old(self) }),
            r == old(self).collapsed,
    {
        self.slide = None;
        self.collapsed
    }

    /// Whether the window may dodge at all.
    pub open spec fn may_dodge(self, e: Around) -> bool {
        e.avoid && !e.hidden && !self.dragging && !self.collapsed && self.slide is None && !self.arm_after_leave
    }

    /// What the window does about the cursor, which is near the place where it
    /// stood before it dodged, or far from it, or neither.
    pub open spec fn avoided(self, e: Around, near: bool, far: bool) -> (Roam, Dodge) {
        let r = Roam { arm_after_leave: self.arm_after_leave && !far, ..self };
        if !r.may_dodge(e) {
            match r.avoid_home {
                Some((x, y)) => (Roam { dodging: false, ..r }, Dodge::Home(x, y)),
                None => (r, Dodge::Stay),
            }
        } else if near && !r.dodging {
            let home = match r.avoid_home {
                Some(h) => h,
                None => (e.win.0, e.win.1),
            };
            (Roam { dodging: true, avoid_home: Some(home), ..r }, Dodge::From(home.0, home.1))
        } else if r.dodging && !far {
            let home = match r.avoid_home {
                Some(h) => h,
                None => (e.win.0, e.win.1),
            };
            (r, Dodge::From(home.0, home.1))
        } else {
            let q = Roam { dodging: false, ..r };
            match q.avoid_home {
                Some((x, y)) => (q, Dodge::Home(x, y)),
                None => (q, Dodge::Stay),
            }
        }
    }

    /// The place from which the distance to the cursor is measured: where the
    /// window stood before it dodged.
    pub fn measured_from(&self, win: (i32, i32)) -> (r: (i32, i32))
        ensures
            r == match self.avoid_home {
                Some(h) => h,
                None => win,
            },
    {
        match self.avoid_home {
            Some(h) => h,
            None => win,
        }
    }

    /// Lets the window dodge the cursor. It starts when the cursor comes near,
    /// goes on until the cursor is far, and then goes back to the very place it
    /// came from.
    pub fn update_avoid(&mut self, e: &Around, near: bool, far: bool) -> (r: Dodge)
        requires
            !(near && far),
        ensures
            (*final(self), r) == old(self).avoided(*e, near, far),
    {
        if self.arm_after_leave && far {
            self.arm_after_leave = false;
        }
        let active = e.avoid && !e.hidden && !self.dragging && !self.collapsed && self.slide.is_none()
            && !self.arm_after_leave;
        if !active {
            return match self.avoid_home {
                Some((x, y)) => {
                    self.dodging = false;
                    Dodge::Home(x, y)
                },
                None => Dodge::Stay,
            };
        }
        if near && !self.dodging {
            if self.avoid_home.is_none() {
                self.avoid_home = Some((e.win.0, e.win.1));
            }
            self.dodging = true;
        } else if self.dodging && far {
            self.dodging = false;
        }
        let home = self.measured_from((e.win.0, e.win.1));
        if self.dodging {
            Dodge::From(home.0, home.1)
        } else {
            match self.avoid_home {
                Some((x, y)) => Dodge::Home(x, y),
                None => Dodge::Stay,
            }
        }
    }

    /// The window is back where it stood before it dodged.
    pub fn returned(&mut self)
        ensures
            *final(self) == (Roam { avoid_home: None, ..*old(self) }),
    {
        self.avoid_home = None;
    }

    /// The window is grabbed.
    pub open spec fn grabbed(self, e: Around) -> Roam {
        let r = if self.collapsed {
            Roam { slide: None, ..self.brought_back(e) }
        } else {
            self
        };
        Roam {
            dragging: true,
            idle_since: if e.auto_hide {
                Some(e.now)
            } else {
                r.idle_since
            },
            dodging: false,
            avoid_home: None,
            drag_win: (e.win.0, e.win.1),
            drag_cursor: e.cursor,
            ..r
        }
    }

    /// Grabs the window: it comes out of hiding and stops dodging. Returns
    /// whether it was tucked away.
    pub fn on_lbutton_down(&mut self, e: &Around) -> (r: bool)
        ensures
            *final(self) == old(self).grabbed(*e),
            r == old(self).collapsed,
    {
        let was = self.exit_collapse(e);
        if was {
            self.slide = None;
        }
        self.dragging = true;
        if e.auto_hide {
            self.idle_since = Some(e.now);
        }
        self.dodging = false;
        self.avoid_home = None;
        self.drag_win = (e.win.0, e.win.1);
        self.drag_cursor = e.cursor;
        was
    }

    /// The place to which the mouse drags the window.
    pub open spec fn dragged_to(self, cursor: (i32, i32)) -> (int, int) {
        (
            self.drag_win.0 + (cursor.0 - self.drag_cursor.0),
            self.drag_win.1 + (cursor.1 - self.drag_cursor.1),
        )
    }

    /// The mouse moves: that is no rest, and a grabbed window follows, kept
    /// within reach. Returns the new place of a grabbed window.
    pub fn on_mouse_move(&mut self, e: &Around, s: Screen, pet_w: u32) -> (r: Option<(i32, i32)>)
        requires
            bounds_fit(s, pet_w as int, e.overhang as int, e.win.3 as int),
        ensures
            *final(self) == (Roam {
                idle_since: if e.auto_hide && !old(self).collapsed {
                    Some(e.now)
                } else {
                    old(self).idle_since
                },
                ..*old(self)
            }),
            match r {
                Some((x, y)) => {
                    let goal = old(self).dragged_to(e.cursor);
                    old(self).dragging && (x as int, y as int) == reachable(
                        s,
                        pet_w as int,
                        e.overhang as int,
                        e.win.3 as int,
                        goal.0,
                        goal.1,
                    )
                },
                None => !old(self).dragging,
            },
    {
        if e.auto_hide && !self.collapsed {
            self.idle_since = Some(e.now);
        }
        if !self.dragging {
            return None;
        }
        let x: i64 = self.drag_win.0 as i64 + (e.cursor.0 as i64 - self.drag_cursor.0 as i64);
        let y: i64 = self.drag_win.1 as i64 + (e.cursor.1 as i64 - self.drag_cursor.1 as i64);
        Some(clamp_inside_screen(s, pet_w, e.overhang, e.win.3, x, y))
    }

    /// The window is let go. Returns the place to remember, if it is grabbed and
    /// does not stand where it is remembered to stand.
    pub fn on_lbutton_up(&mut self, win: (i32, i32), saved: (Option<i32>, Option<i32>)) -> (r: Option<(i32, i32)>)
        ensures
            *final(self) == (Roam { dragging: false, ..*old(self) }),
            r == if old(self).dragging && saved != (Some(win.0), Some(win.1)) {
                Some(win)
            } else {
                None
            },
    {
        if !self.dragging {
            return None;
        }
        self.dragging = false;
        let same_x = match saved.0 {
            Some(x) => x == win.0,
            None => false,
        };
        let same_y = match saved.1 {
            Some(y) => y == win.1,
            None => false,
        };
        if same_x && same_y {
            None
        } else {
            Some(win)
        }
    }

    /// Tucking away has been switched on or off. Returns whether that brings the
    /// window back.
    pub fn set_auto_hide(&mut self, e: &Around) -> (r: bool)
        ensures
            r == (!e.auto_hide && old(self).collapsed),
            *final(self) == if r {
                old(self).brought_back(*e)
            } else if e.auto_hide {
                Roam { idle_since: Some(e.now), ..*old(self) }
            } else {
                *old(self)
            },
    {
        if !e.auto_hide && self.collapsed {
            self.exit_collapse(e);
            return true;
        }
        if e.auto_hide {
            self.idle_since = Some(e.now);
        }
        false
    }

    /// Dodging has been switched on or off.
    pub fn set_avoid(&mut self, enabled: bool)
        ensures
            *final(self) == (Roam { dodging: old(self).dodging && enabled, ..*old(self) }),
    {
        if !enabled {
            self.dodging = false;
        }
    }
}

/// Whether clicks pass through the window: where the user wants that, and while
/// it is tucked away.
pub fn clicks_pass(wanted: bool, collapsed: bool) -> (r: bool)
    ensures
        r == (wanted || collapsed),
{
    wanted || collapsed
}

/// A window that is tucked away and brought back slides to the place where it
/// stood before.
pub proof fn law_tuck_round_trip(r: Roam, away: Around, back: Around)
    ensures
        r.tucked(away).brought_back(back).slide == Some((away.win.0, away.win.1)),
        !r.tucked(away).brought_back(back).collapsed,
        r.tucked(away).brought_back(back).home is None,
{
}

/// The window is tucked away only after it has rested long enough, with tucking
/// away switched on.
pub proof fn law_tucks_only_at_rest(r: Roam, e: Around)
    ensures
        r.rested(e).1 == Tuck::Away ==> e.auto_hide && e.resting && !r.dragging && !e.hidden && !r.collapsed
            && seconds_since(
            e.now,
            match r.idle_since {
                Some(t) => t,
                None => e.now,
            },
        ) >= e.after_sec,
{
}

/// Anything that happens brings a tucked away window back at once.
pub proof fn law_activity_brings_back(r: Roam, e: Around)
    requires
        r.collapsed,
        !e.resting,
        !r.dragging,
        !e.hidden,
    ensures
        !r.rested(e).0.collapsed,
        r.rested(e).1 == Tuck::Back,
{
}

/// The rows cut off a tucked away window are rows of the window.
pub proof fn law_clip_within_window(r: Roam, e: Around)
    requires
        e.win.3 >= 0,
        0 <= r.clip <= e.win.3,
    ensures
        0 <= r.rested(e).0.clip <= e.win.3,
{
}

/// A window that dodges and then returns goes back to the very place where the
/// dodge began, however the cursor moved meanwhile.
pub proof fn law_dodge_returns_home(r: Roam, e: Around, f: Around, near: bool, far: bool)
    requires
        r.avoid_home is None,
        r.may_dodge(e),
        !r.dodging,
        !(near && far),
    ensures
        ({
            let (q, d) = r.avoided(e, true, false);
            &&& d == Dodge::From(e.win.0, e.win.1)
            &&& q.avoid_home == Some((e.win.0, e.win.1))
            &&& q.avoided(f, near, far).0.avoid_home == Some((e.win.0, e.win.1))
            &&& q.avoided(f, near, far).1 != Dodge::Stay
        }),
{
}

/// Between near and far nothing changes: a window that dodges goes on, one that
/// does not stays.
pub proof fn law_no_jitter(r: Roam, e: Around)
    requires
        r.may_dodge(e),
        r.dodging ==> r.avoid_home is Some,
    ensures
        r.avoided(e, false, false).0 == r,
{
}

/// A window that is tucked away, hidden or being dragged never dodges.
pub proof fn law_dodges_only_when_free(r: Roam, e: Around, near: bool, far: bool)
    requires
        r.collapsed || e.hidden || r.dragging || !e.avoid,
    ensures
        !(r.avoided(e, near, far).1 is From),
{
}

/// A window that is grabbed and let go without moving the mouse stays where it
/// is, if it was within reach.
pub proof fn law_drag_starts_in_place(r: Roam, e: Around)
    ensures
        r.grabbed(e).dragged_to(e.cursor) == (e.win.0 as int, e.win.1 as int),
{
}

} // verus!
