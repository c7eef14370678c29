//! How the answers of a source are read, and what is logged of scripts.

use vstd::prelude::*;
use vstd::string::*;

use crate::connectors::dsh::{
    history_answer, history_entries, listed_items, sessions_in, items_in, some_events, sound_len, written_values,
    FetchFault, HistoryModel, FRAME_TIMEOUT_MS, GRACE_CYCLES,
};
use crate::connectors::lua::{
    hidden_globals, stage_after_compile, stage_line, summary_of, target_of, LogGate, Reach, Stage, LOG_REPEAT_MS,
};
use crate::connectors::SLEEP_SLICE_MS;
use crate::event::{EventModel, ItemModel, TurnEndReason};
use crate::http::UrlModel;
use crate::json::{json_written, Json, JsonModel};
use crate::text::{decimal, front_of};

verus! {

/// An answer is bad where it is not marked as good, and is then written out; a good
/// one without a list of sessions has none.
pub proof fn law_bad_list(answer: JsonModel)
    ensures
        ({
            let result = answer.at("result"@);
            let good = result.at("ok"@) == JsonModel::Bool(true);
            let inner = result.at("value"@).field("items"@);
            &&& !good ==> listed_items(answer) == Err::<Seq<JsonModel>, FetchFault>(
                FetchFault::NotOk(json_written(result)),
            )
            &&& good && inner is Some && !(inner->0 is Arr) ==> listed_items(answer) == Err::<Seq<JsonModel>, FetchFault>(
                FetchFault::NoItems,
            )
            &&& good && inner is None && !(result.at("items"@) is Arr) ==> listed_items(answer) == Err::<
                Seq<JsonModel>,
                FetchFault,
            >(FetchFault::NoItems)
            &&& listed_items(answer) matches Ok(v) ==> sessions_in(answer) == Ok::<Seq<ItemModel>, FetchFault>(items_in(v))
            &&& listed_items(answer) matches Err(e) ==> sessions_in(answer) == Err::<Seq<ItemModel>, FetchFault>(e)
        }),
{
}

/// A history is read from a good answer only; a good one without events has none.
pub proof fn law_history_of_an_answer(answer: JsonModel)
    ensures
        ({
            let result = answer.at("result"@);
            let good = result.at("ok"@) == JsonModel::Bool(true);
            let events = result.at("value"@).at("events"@);
            &&& !good ==> history_entries(answer) == Err::<Seq<JsonModel>, FetchFault>(
                FetchFault::NotOk(json_written(result)),
            )
            &&& good && events is Arr ==> history_entries(answer) == Ok::<Seq<JsonModel>, FetchFault>(events->Arr_0)
            &&& good && !(events is Arr) ==> (history_entries(answer) matches Ok(v) && v.len() == 0)
        }),
{
}

/// A history that could not be read leaves everything as it was.
pub proof fn law_failed_history(h: HistoryModel, sid: Seq<char>, e: FetchFault)
    ensures
        history_answer(h, sid, Err(e)) == (Err::<Seq<EventModel>, FetchFault>(e), h),
{
}

proof fn lemma_sound(v: Seq<Option<JsonModel>>)
    ensures
        sound_len(v) <= v.len(),
        forall|i: int| 0 <= i < sound_len(v) ==> #[trigger] v[i] is Some,
        sound_len(v) < v.len() ==> v[sound_len(v) as int] is None,
    decreases v.len(),
{
    if v.len() > 0 {
        let t = v.drop_last();
        lemma_sound(t);
        assert forall|i: int| 0 <= i < sound_len(v) implies #[trigger] v[i] is Some by {
            if i < t.len() {
                assert(t[i] == v[i]);
            }
        }
        if sound_len(t) < t.len() {
            assert(t[sound_len(t) as int] == v[sound_len(t) as int]);
        }
    }
}

/// The values of a payload are written out one by one, up to the first that could
/// not be read.
pub proof fn law_values_before_a_fault(v: Seq<Option<JsonModel>>, i: int)
    ensures
        ({
            let w = written_values(v);
            &&& w.len() <= v.len()
            &&& w.len() < v.len() ==> v[w.len() as int] is None
            &&& 0 <= i < w.len() ==> v[i] is Some && w[i] == json_written(v[i]->0)
        }),
{
    lemma_sound(v);
    if 0 <= i < sound_len(v) {
        assert(v[i] is Some);
    }
}

/// A fault is told with the request that it belongs to and with what was wrong.
pub proof fn law_fault_is_told(what: Seq<char>, n: u16, e: Seq<char>)
    requires
        what.len() > 0,
    ensures
        FetchFault::Status(n).text(what) == what + " "@ + "status "@ + decimal(n as nat),
        FetchFault::NotJson(e).text(what) == what + " "@ + "json: "@ + e,
        FetchFault::NotOk(e).text(what) == what + " "@ + "ok=false: "@ + e,
        FetchFault::NoItems.text(what) == what + ": no items"@,
{
}

/// A frame without events tells nothing.
pub proof fn law_some_events(evs: Seq<EventModel>)
    ensures
        evs.len() == 0 ==> some_events(evs) is None,
        evs.len() > 0 ==> some_events(evs) == Some(evs),
{
}

/// The times and counts of the sources: a frame vouches for ten seconds, a session
/// that stopped is looked at for three cycles, a repeated line of a log is held
/// back for thirty seconds, and sleepers look up twenty times a second.
pub proof fn law_times()
    ensures
        FRAME_TIMEOUT_MS == 10_000,
        GRACE_CYCLES == 3,
        LOG_REPEAT_MS == 30_000,
        SLEEP_SLICE_MS == 50,
{
}

/// A script starts where nothing is wrong with its text, and is otherwise told with
/// what is wrong.
pub proof fn law_compiling(e: Seq<char>, bytes: usize, args: Option<Json>, stage: Stage)
    ensures
        stage_after_compile(Some(e), bytes, args, stage) <==> (stage matches Stage::CompileFailed(t) && t@ == e),
        stage_after_compile(None, bytes, args, stage) <==> (stage matches Stage::Started { bytes: n, args: a } && n == bytes
            && a == args),
{
}

/// The start of a script is logged with its size and the front of its arguments.
pub proof fn law_start_is_logged(bytes: usize, j: Json)
    ensures
        stage_line(Stage::Started { bytes, args: Some(j) }) == "started ("@ + decimal(bytes as nat) + " bytes) args="@
            + front_of(json_written(j@), 300),
        stage_line(Stage::Started { bytes, args: None }) == "started ("@ + decimal(bytes as nat) + " bytes) args="@ + ""@,
{
}

/// A sandboxed script sees nothing that reaches files, other programs or code that
/// is not its own.
pub proof fn law_sandbox(call: Reach, url: Seq<char>)
    ensures
        hidden_globals() == seq!["os"@, "io"@, "package"@, "require"@, "dofile"@, "loadfile"@, "load"@, "debug"@],
        target_of(call, true, url) == Err::<UrlModel, Seq<char>>(
            (match call {
                Reach::Http => "pet.http"@,
                Reach::HttpPost => "pet.http_post"@,
                Reach::Ws => "pet.ws"@,
                Reach::Sqlite => "pet.sqlite"@,
            }) + " is disabled in sandbox mode"@,
        ),
{
}

/// The events of sessions and turns in one line each.
pub proof fn law_session_summary(e: EventModel)
    ensures
        e matches EventModel::SessionStatus { session_id, running, .. } ==> summary_of(e) == "session_status "@ + session_id
            + " "@ + (if running { "true"@ } else { "false"@ }),
        e matches EventModel::TurnStarted { session_id, turn, .. } ==> summary_of(e) == "session_started "@ + session_id
            + " turn="@ + decimal(turn as nat),
        e matches EventModel::TurnEnded { session_id, turn, reason, .. } ==> summary_of(e) == "session_ended "@ + session_id
            + " turn="@ + decimal(turn as nat) + " "@ + (match reason {
            TurnEndReason::Completed => "Completed"@,
            TurnEndReason::Error => "Error"@,
            TurnEndReason::MaxTokens => "MaxTokens"@,
            TurnEndReason::Aborted => "Aborted"@,
            TurnEndReason::Interrupted => "Interrupted"@,
            TurnEndReason::Blocked => "Blocked"@,
        }),
        e matches EventModel::ToolStarted { session_id, name, .. } ==> summary_of(e) == "tool_started "@ + session_id + " "@
            + name,
        e matches EventModel::ToolEnded { session_id, name, error, .. } ==> summary_of(e) == "tool_ended "@ + session_id
            + " "@ + name + " err="@ + (if error { "true"@ } else { "false"@ }),
        e matches EventModel::TodoSnapshot { session_id, todos, .. } ==> summary_of(e) == "todo "@ + session_id + " n="@
            + decimal(todos.len()),
        e matches EventModel::LiveText { session_id, reasoning, text, .. } ==> summary_of(e) == "live_text "@ + session_id
            + " r+"@ + decimal(if reasoning is Some { reasoning->0.len() } else { 0 }) + " t+"@ + decimal(
            if text is Some { text->0.len() } else { 0 },
        ),
        e matches EventModel::UserMessage { session_id, text, .. } ==> summary_of(e) == "user_message "@ + session_id + " "@
            + decimal(text.len()) + " chars"@,
{
}

/// The other events in one line each.
pub proof fn law_other_summary(e: EventModel)
    ensures
        e matches EventModel::SourceHealth { healthy, .. } ==> summary_of(e) == "health "@ + (if healthy {
            "true"@
        } else {
            "false"@
        }),
        e matches EventModel::Poll { items, .. } ==> summary_of(e) == "poll "@ + decimal(items.len()) + " items"@,
        e matches EventModel::ApprovalRequested { id, session_id, tool, .. } ==> summary_of(e) == "approval_requested "@ + id
            + " "@ + session_id + " "@ + tool,
        e matches EventModel::ApprovalResolved { id, .. } ==> summary_of(e) == "approval_resolved "@ + id,
        e matches EventModel::QuestionRequested { id, session_id, .. } ==> summary_of(e) == "question "@ + id + " "@
            + session_id,
        e matches EventModel::QuestionResolved { id, .. } ==> summary_of(e) == "answer "@ + id,
        e is PendingSync ==> summary_of(e) == "pending_sync"@,
        e matches EventModel::QueueChanged { pending, .. } ==> summary_of(e) == "queue "@ + decimal(pending as nat),
        e is Tick ==> summary_of(e) == "tick"@,
{
}

/// A line of a script's log is held back for thirty seconds after the same line.
pub proof fn law_repeated_line(g: LogGate, msg: Seq<char>, now: u64)
    requires
        g.at is Some,
        g.last@ == msg,
    ensures
        g.repeats(msg, now) <==> now < g.at->0 + 30_000,
{
}

} // verus!
