//! What is printed, and how the values of a message are read.

use vstd::prelude::*;
use vstd::string::*;

use crate::event::{EventModel, ItemModel, Mode, Source, TurnEndReason};
use crate::json::{num_model, JsonModel, NumModel};
use crate::report::{
    all_working, debug_of, head_within, id_head, report_of, running_in, scripts_in, shortened, trace_of, width,
};
use crate::state::{InfoModel, SnapModel};
use crate::text::decimal;

verus! {

/// How many bytes a text takes.
pub open spec fn bytes_in(s: Seq<char>) -> nat
    decreases s.len(),
{
    if s.len() == 0 {
        0
    } else {
        width(s[0]) + bytes_in(s.drop_first())
    }
}

proof fn lemma_head(s: Seq<char>, n: int)
    requires
        n >= 0,
    ensures
        ({
            let k = head_within(s, n).len() as int;
            &&& k <= s.len()
            &&& head_within(s, n) == s.take(k)
            &&& bytes_in(s.take(k)) <= n
            &&& k < s.len() ==> bytes_in(s.take(k + 1)) > n
        }),
    decreases s.len(),
{
    let h = head_within(s, n);
    let k = h.len() as int;
    if s.len() == 0 {
        assert(s.take(0) =~= h);
    } else if width(s[0]) > n {
        assert(s.take(0) =~= h);
        assert(s.take(1)[0] == s[0]);
        assert(bytes_in(s.take(0)) == 0);
        assert(bytes_in(s.take(1)) >= width(s[0]));
    } else {
        let t = s.drop_first();
        lemma_head(t, n - width(s[0]));
        assert(h =~= s.take(k));
        assert(s.take(k)[0] == s[0]);
        assert(s.take(k).drop_first() =~= t.take(k - 1));
        if k < s.len() {
            assert(s.take(k + 1)[0] == s[0]);
            assert(s.take(k + 1).drop_first() =~= t.take(k));
        }
    }
}

/// A character takes one byte up to 127, two up to 2047, three up to 65535, and
/// four beyond.
pub proof fn law_width(c: char)
    ensures
        width(c) == 1 <==> (c as u32) <= 127,
        width(c) == 2 <==> 128 <= (c as u32) <= 2047,
        width(c) == 3 <==> 2048 <= (c as u32) <= 65535,
        width(c) == 4 <==> (c as u32) >= 65536,
{
}

/// The front of a name is as much of it as twelve bytes hold.
pub proof fn law_name_front(s: Seq<char>)
    ensures
        ({
            let k = id_head(s).len() as int;
            &&& k <= s.len()
            &&& id_head(s) == s.take(k)
            &&& bytes_in(s.take(k)) <= 12
            &&& k < s.len() ==> bytes_in(s.take(k + 1)) > 12
        }),
{
    lemma_head(s, 12);
}

/// Sessions and scripts are counted one by one.
pub proof fn law_counts(v: Seq<ItemModel>, i: ItemModel, ks: Seq<Source>, k: Source)
    ensures
        running_in(Seq::empty()) == 0,
        running_in(v.push(i)) == running_in(v) + (if i.running { 1int } else { 0 }),
        scripts_in(Seq::empty()) == 0,
        scripts_in(ks.push(k)) == scripts_in(ks) + (if k is Script { 1int } else { 0 }),
{
    assert(v.push(i).drop_last() =~= v);
    assert(ks.push(k).drop_last() =~= ks);
}

/// The word for how a turn ended.
pub open spec fn end_word(r: TurnEndReason) -> Seq<char> {
    match r {
        TurnEndReason::Completed => "Completed"@,
        TurnEndReason::Error => "Error"@,
        TurnEndReason::MaxTokens => "MaxTokens"@,
        TurnEndReason::Aborted => "Aborted"@,
        TurnEndReason::Interrupted => "Interrupted"@,
        TurnEndReason::Blocked => "Blocked"@,
    }
}

/// The events of a turn and of its tools are traced with the front of their
/// session's name.
pub proof fn law_trace_of_a_turn(ev: EventModel, names: Map<u16, Seq<char>>)
    ensures
        ev matches EventModel::TurnStarted { session_id, .. } ==> trace_of(ev, names) == Some(
            "[debug] TurnStarted "@ + id_head(session_id),
        ),
        ev matches EventModel::TurnEnded { session_id, reason, .. } ==> trace_of(ev, names) == Some(
            "[debug] TurnEnded "@ + end_word(reason) + " "@ + id_head(session_id),
        ),
        ev matches EventModel::ToolStarted { session_id, name, .. } ==> trace_of(ev, names) == Some(
            "[debug] ToolStarted "@ + id_head(session_id) + " "@ + name,
        ),
        ev matches EventModel::ToolEnded { session_id, name, .. } ==> trace_of(ev, names) == Some(
            "[debug] ToolEnded "@ + id_head(session_id) + " "@ + name,
        ),
{
}

/// A stream is traced by how much of it came in, a poll by how many sessions it
/// found and how many of these run; nothing else is traced.
pub proof fn law_trace_of_the_rest(ev: EventModel, names: Map<u16, Seq<char>>)
    ensures
        ev matches EventModel::LiveText { session_id, reasoning, text, .. } ==> trace_of(ev, names) == Some(
            "[debug] LiveText "@ + id_head(session_id) + " reasoning+"@ + decimal(
                if reasoning is Some { reasoning->0.len() } else { 0 },
            ) + " text+"@ + decimal(if text is Some { text->0.len() } else { 0 }),
        ),
        ev matches EventModel::Poll { source, items, .. } ==> trace_of(ev, names) == Some(
            "[debug] "@ + source.label_in(names) + " poll running="@ + decimal(running_in(items)) + " total="@ + decimal(
                items.len(),
            ),
        ),
        trace_of(ev, names) is Some <==> (ev is LiveText || ev is Poll || ev is TurnStarted || ev is TurnEnded
            || ev is ToolStarted || ev is ToolEnded),
{
}

/// The three built-in clients have names of their own; a script has the name it
/// was given, or else its number.
pub proof fn law_client_names(names: Map<u16, Seq<char>>, i: u16)
    ensures
        Source::Dsh.label_in(names) == "DSH"@,
        Source::Hermes.label_in(names) == "Hermes"@,
        Source::ComfyUi.label_in(names) == "ComfyUI"@,
        names.contains_key(i) ==> Source::Script(i).label_in(names) == names[i],
        !names.contains_key(i) ==> Source::Script(i).label_in(names) == "Script "@ + decimal(i as nat),
{
}

/// The name of a mode as it is printed.
pub open spec fn printed_mode(m: Mode) -> Seq<char> {
    match m {
        Mode::Offline => "Offline"@,
        Mode::Attention => "Attention"@,
        Mode::Failed => "Failed"@,
        Mode::Working => "Working"@,
        Mode::Thinking => "Thinking"@,
        Mode::Done => "Done"@,
        Mode::Idle => "Idle"@,
        Mode::Move => "Move"@,
    }
}

/// A report begins with the mode; the next line tells the queue, where anything
/// is queued.
pub proof fn law_report_begins(s: SnapModel)
    ensures
        ({
            let r = report_of(s);
            let n = scripts_in(crate::ordmap::ordered::<Source>(s.sources.dom()));
            &&& r.len() >= 1
            &&& r[0] == "=== MODE "@ + printed_mode(s.mode) + " (scripts="@ + decimal(n) + ") ==="@
            &&& s.queue_len > 0 ==> r.len() >= 2 && r[1] == "  queue: "@ + decimal(s.queue_len as nat) + " pending"@
        }),
{
}

/// A session at work is told with its client, title and tool, and with the front
/// of what it thinks and says.
pub proof fn law_working_is_reported(v: Seq<InfoModel>, w: InfoModel, names: Map<u16, Seq<char>>)
    ensures
        ({
            let before = all_working(v, names);
            let after = all_working(v.push(w), names);
            let n = before.len() as int;
            let thinks = w.live.reasoning.len() > 0;
            let says = w.live.text.len() > 0;
            &&& after.len() == n + 1 + (if thinks { 1int } else { 0 }) + (if says { 1int } else { 0 })
            &&& after.take(n) == before
            &&& after[n] == "  working: ["@ + w.source.label_in(names) + "] "@ + w.title + " tool="@ + debug_of(w.tool)
            &&& thinks ==> after[n + 1] == "    thinking: "@ + shortened(w.live.reasoning, 120)
            &&& says ==> after.last() == "    text: "@ + shortened(w.live.text, 120)
        }),
{
    assert(v.push(w).drop_last() =~= v);
    let before = all_working(v, names);
    let after = all_working(v.push(w), names);
    assert(after.take(before.len() as int) =~= before);
}

/// After the sessions at work come those that think, those that are done and those
/// that failed, then what is to be approved and what is asked: a line for each, in
/// the order of its list.
pub proof fn law_report_order(s: SnapModel, i: int)
    ensures
        ({
            let r = report_of(s);
            let asks = r.len() - s.pending_questions.len();
            let grants = asks - s.pending_approvals.len();
            let failed = grants - s.failed.len();
            let done = failed - s.done.len();
            let thinking = done - s.thinking.len();
            let head: int = if s.queue_len > 0 { 2 } else { 1 };
            let named = |w: InfoModel| w.source.label_in(s.labels) + "] "@ + w.title;
            &&& r.subrange(head, thinking) == all_working(s.working, s.labels)
            &&& 0 <= i < s.thinking.len() ==> r[thinking + i] == "  thinking: ["@ + named(s.thinking[i])
            &&& 0 <= i < s.done.len() ==> r[done + i] == "  done: ["@ + named(s.done[i])
            &&& 0 <= i < s.failed.len() ==> r[failed + i] == "  failed: ["@ + named(s.failed[i])
            &&& 0 <= i < s.pending_approvals.len() ==> r[grants + i] == "  approval: session "@ + s.pending_approvals[i].0
                + " tool "@ + s.pending_approvals[i].1
            &&& 0 <= i < s.pending_questions.len() ==> r[asks + i] == "  question: session "@ + s.pending_questions[i].0
                + ": "@ + s.pending_questions[i].1
        }),
{
    let r = report_of(s);
    let n = all_working(s.working, s.labels).len() as int;
    let head: int = if s.queue_len > 0 { 2 } else { 1 };
    assert(r.subrange(head, head + n) =~= all_working(s.working, s.labels));
    let line = |mark: Seq<char>, w: InfoModel| mark + w.source.label_in(s.labels) + "] "@ + w.title;
    if 0 <= i < s.thinking.len() {
        let w = s.thinking[i];
        assert(line("  thinking: ["@, w) =~= "  thinking: ["@ + (w.source.label_in(s.labels) + "] "@ + w.title));
    }
    if 0 <= i < s.done.len() {
        let w = s.done[i];
        assert(line("  done: ["@, w) =~= "  done: ["@ + (w.source.label_in(s.labels) + "] "@ + w.title));
    }
    if 0 <= i < s.failed.len() {
        let w = s.failed[i];
        assert(line("  failed: ["@, w) =~= "  failed: ["@ + (w.source.label_in(s.labels) + "] "@ + w.title));
    }
}

/// A text longer than the room for it keeps its front and ends in dots.
pub proof fn law_shortened(s: Seq<char>, n: nat)
    ensures
        s.len() <= n ==> shortened(s, n) == s,
        s.len() > n ==> shortened(s, n).len() == n + 1 && shortened(s, n).last() == '…' && shortened(s, n).take(n as int)
            == s.take(n as int),
{
    if s.len() > n {
        assert(shortened(s, n).take(n as int) =~= s.take(n as int));
    }
}

/// A value is read only as what it is.
pub proof fn law_values_are_read(s: Seq<char>, b: bool, n: NumModel, v: Seq<JsonModel>, j: JsonModel)
    ensures
        JsonModel::Str(s).as_str() == Some(s),
        JsonModel::Str(s).str_or_empty() == s,
        !(j is Str) ==> j.as_str() is None && j.str_or_empty().len() == 0,
        JsonModel::Bool(b).as_bool() == Some(b),
        !(j is Bool) ==> j.as_bool() is None,
        j.is_true() <==> j == JsonModel::Bool(true),
        JsonModel::Num(n).as_u64() == n.unsigned,
        !(j is Num) ==> j.as_u64() is None,
        JsonModel::Arr(v).as_array() == Some(v),
        JsonModel::Arr(v).elements() == v,
        !(j is Arr) ==> j.as_array() is None && j.elements().len() == 0,
{
}

/// Nothing stands under any key in what is no object.
pub proof fn law_no_fields(j: JsonModel, key: Seq<char>)
    requires
        !(j is Obj),
    ensures
        j.field(key) is None,
        j.at(key) == JsonModel::Null,
{
}

/// A whole number reads as itself, signed where it is small enough.
pub proof fn law_whole_number(n: u64)
    ensures
        num_model(n).unsigned == Some(n),
        num_model(n).truncated == n,
        n <= 0x7fff_ffff_ffff_ffff ==> num_model(n).signed == Some(n as i64),
        n > 0x7fff_ffff_ffff_ffff ==> num_model(n).signed is None,
        num_model(n).text == decimal(n as nat),
{
}

} // verus!
