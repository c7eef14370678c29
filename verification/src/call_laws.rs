//! What the smaller decisions come to.

use vstd::prelude::*;

use crate::bubble_stack::StackCard;
use crate::connectors::dsh::{history_wait, is_healthy};
use crate::connectors::lua::{allowed, deliver, sql_param, CallError, Cell, Delivery, Reach, SqlParam};
use crate::connectors::{health_flip, next_slice};
use crate::event::{EventModel, Mode, Source, StateEvent, TurnEndReason};
use crate::gui::fade::{update_fade, Veil};
use crate::gui::place::{anchored, window_size};
use crate::gui::settings::{arg_places, button_places, Place, SettingsSizes};
use crate::http::{WsError, WsFrame};

verus! {

/// After a poll the source rests for what the poll left of its interval, but at
/// least for a tenth of a second.
pub proof fn law_poll_wait(poll_ms: u64, elapsed: u64, r: u64)
    requires
        call_ensures(crate::connectors::dsh::poll_wait, (poll_ms, elapsed), r),
    ensures
        r >= 100,
        r + elapsed >= poll_ms,
        r > 100 ==> r + elapsed == poll_ms,
{
}

/// Histories are looked at once in an interval of at least three tenths of a
/// second.
pub proof fn law_history_wait(history_ms: u64, elapsed: u64, r: u64)
    requires
        call_ensures(history_wait, (history_ms, elapsed), r),
    ensures
        r + elapsed >= 300,
        r + elapsed >= history_ms,
        r > 0 ==> r + elapsed == 300 || r + elapsed == history_ms,
{
}

/// A busy source is polled after the one time, an idle one after the other.
pub proof fn law_busy_poll_wait(running: bool, active_ms: u64, idle_ms: u64, r: u64)
    requires
        call_ensures(crate::connectors::hermes::poll_wait, (running, active_ms, idle_ms), r),
    ensures
        running ==> r == active_ms,
        !running ==> r == idle_ms,
{
}

/// A source is up after a good poll, and for ten seconds after a frame.
pub proof fn law_source_is_up(poll_ok: bool, ms: u64, r: bool)
    requires
        call_ensures(is_healthy, (poll_ok, ms), r),
    ensures
        poll_ok ==> r,
        !poll_ok ==> (r <==> ms < 10_000),
{
}

/// The health of a source is told when it changes, and only then.
pub proof fn law_health_is_told_once(source: Source, was: bool, healthy: bool, r: Option<StateEvent>)
    requires
        call_ensures(health_flip, (source, was, healthy), r),
    ensures
        was == healthy ==> r is None,
        was != healthy ==> r is Some && r->0@ == (EventModel::SourceHealth { source, healthy }),
{
}

/// A sleep goes on in slices of a twentieth of a second, until it is over or the
/// sleeper is told to stop.
pub proof fn law_sleep_slices(left: u64, stopped: bool, r: Option<u64>)
    requires
        call_ensures(next_slice, (left, stopped), r),
    ensures
        stopped || left == 0 ==> r is None,
        !stopped && left > 0 ==> r is Some && 0 < r->0 <= left && r->0 <= 50 && (r->0 == left || r->0 == 50),
{
}

/// A script gets the data of a frame, and waits on after any other frame but the
/// last.
pub proof fn law_frames_are_delivered(f: WsFrame, r: Delivery)
    requires
        call_ensures(deliver, (Ok::<WsFrame, WsError>(f),), r),
    ensures
        f.opcode == 1 || f.opcode == 2 ==> r is Data && r->Data_0@ == f.payload@,
        f.opcode == 8 ==> r is Gone,
        f.opcode != 1 && f.opcode != 2 && f.opcode != 8 ==> r is Again,
{
}

/// A script hears nothing while nothing comes in time; any other fault ends the
/// connection.
pub proof fn law_faults_are_delivered(e: WsError, r: Delivery)
    requires
        call_ensures(deliver, (Err::<WsFrame, WsError>(e),), r),
    ensures
        e is Timeout ==> r is Quiet,
        !(e is Timeout) ==> r is Gone,
{
}

/// A window that changes its size keeps its right and its lower edge, but its top
/// stays on the screen.
pub proof fn law_window_keeps_its_edges(x: i32, y: i32, old_w: i32, old_h: i32, w: i32, h: i32, r: (i32, i32))
    requires
        call_ensures(anchored, (x, y, old_w, old_h, w, h), r),
    ensures
        r.0 + w == x + old_w,
        r.1 >= 0,
        y + old_h >= h ==> r.1 + h == y + old_h,
        y + old_h < h ==> r.1 == 0,
{
}

/// The window has room for the companion, for what hangs over and for the bubble.
pub proof fn law_window_has_room(pet_w: u32, pet_h: u32, overhang: u32, r: (u32, u32))
    requires
        call_ensures(window_size, (pet_w, pet_h, overhang), r),
    ensures
        r.0 == pet_w + 180 + overhang,
        r.1 == pet_h,
{
}

/// The companion rests in no mode but these two; only at rest is all of an
/// animation repeated.
pub proof fn law_modes_at_rest(m: Mode, r: bool, l: bool)
    requires
        call_ensures(Mode::rests, (m,), r),
        call_ensures(Mode::loops_full, (&m,), l),
    ensures
        r <==> m is Idle || m is Offline,
        l <==> m is Idle,
{
}

/// A turn that was broken off is neither a success nor a failure.
pub proof fn law_broken_off(e: TurnEndReason, r: bool)
    requires
        call_ensures(TurnEndReason::is_neutral, (&e,), r),
    ensures
        r <==> e is Aborted || e is Interrupted,
{
}

/// A card has the colors of work where its script works, and else of thought.
pub proof fn law_card_colors(c: StackCard, r: Mode)
    requires
        call_ensures(StackCard::mode, (&c,), r),
    ensures
        c.working ==> r is Working,
        !c.working ==> r is Thinking,
{
}

/// The companion fades once it was left alone for long enough, except in a mode in
/// which nothing fades; it is looked through while the pointer is over it, it is in
/// sight, and clicks pass.
pub proof fn law_veil(disabled: bool, idle_s: u64, after_s: u64, passes: bool, hidden: bool, collapsed: bool, over: bool, r: Veil)
    requires
        call_ensures(update_fade, (disabled, idle_s, after_s, passes, hidden, collapsed, over), r),
    ensures
        r.faded <==> !disabled && after_s <= idle_s,
        hidden || collapsed || !passes || !over ==> !r.hovered,
        !hidden && !collapsed && passes && over ==> r.hovered,
        r.tucked == collapsed,
{
}

/// A call that reaches outside is refused in a sandbox, and only there.
pub proof fn law_sandbox_refuses(call: Reach, sandbox: bool, r: Result<(), String>)
    requires
        call_ensures(allowed, (call, sandbox), r),
    ensures
        r is Err <==> sandbox,
{
}

/// A value of a script becomes a parameter of a query: numbers without a fraction
/// and truth values become integers.
pub proof fn law_query_parameters(c: Cell, r: Result<SqlParam, CallError>)
    requires
        call_ensures(sql_param, (c,), r),
    ensures
        r is Err <==> c is BadText,
        c is Absent ==> r == Ok::<SqlParam, CallError>(SqlParam::Null),
        c matches Cell::Bool(b) ==> r == Ok::<SqlParam, CallError>(SqlParam::Int(if b { 1 } else { 0 })),
        c matches Cell::Int(i) ==> r == Ok::<SqlParam, CallError>(SqlParam::Int(i)),
        c matches Cell::Num(_, Some(i)) ==> r == Ok::<SqlParam, CallError>(SqlParam::Int(i)),
        c matches Cell::Num(_, None) ==> r == Ok::<SqlParam, CallError>(SqlParam::Real),
        c matches Cell::Text(s) ==> r is Ok && r->Ok_0 is Text && r->Ok_0->Text_0@ == s@,
{
}

/// The two buttons stand side by side below everything, the second at the right
/// margin; they have one size.
pub proof fn law_buttons_side_by_side(s: SettingsSizes, y: i64, r: (Place, Place))
    requires
        s.modest(),
        call_ensures(button_places, (&s, y), r),
    ensures
        r.1.x + r.1.w == s.client_w - s.margin,
        r.0.x + r.0.w + s.gap == r.1.x,
        r.0.w == s.btn_w && r.1.w == s.btn_w,
        r.0.h == s.btn_h && r.1.h == s.btn_h,
        r.0.y == y && r.1.y == y,
{
}

/// The label of an argument stands left of its field, both within their row; the
/// field ends a gap before the right margin.
pub proof fn law_argument_row(s: SettingsSizes, y: i64, r: (Place, Place))
    requires
        s.modest(),
        0 <= y <= 0xff_ffff_ffff,
        call_ensures(arg_places, (&s, y), r),
    ensures
        r.0.x == s.margin + s.indent,
        r.0.w == s.label_w,
        r.0.x + r.0.w + s.gap == r.1.x,
        r.1.x + r.1.w + s.gap == s.client_w - s.margin,
        r.0.y == y + s.edit_pad && r.1.y == r.0.y,
        r.0.y + r.0.h == y + s.row_h - s.edit_pad && r.1.h == r.0.h,
{
}

} // verus!
