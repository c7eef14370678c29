//! What the calls of scripts come to.

use vstd::prelude::*;
use vstd::string::*;

use crate::connectors::lua::{
    event_of, items_in, label_of, limit_ms, reason_in, stage_events, target_of, todos_in, CallErrorModel, Cell,
    ItemCells, Reach, ScriptCall, Stage, TodoCells,
};
use crate::event::{EventModel, ItemModel, Source, TodoModel, TurnEndReason};
use crate::http::{url_in, UrlModel};
use crate::text::{decimal, opt_text, signed_decimal, trimmed};

verus! {

/// An id of a script as the others see it.
pub open spec fn own_id(id: u16, s: Seq<char>) -> Seq<char> {
    "script-"@ + decimal(id as nat) + "-"@ + s
}

/// The event that a call stands for, and no refusal.
pub open spec fn tells(id: u16, call: ScriptCall, ev: EventModel) -> bool {
    event_of(id, call) == Ok::<EventModel, CallErrorModel>(ev)
}

/// The calls on health, sessions and turns are told of the script's own source,
/// with the script's own id of the session, and with what they say.
pub proof fn law_session_calls(id: u16, s: String, turn: u64, flag: bool)
    ensures
        tells(id, ScriptCall::Health { ok: flag }, EventModel::SourceHealth { source: Source::Script(id), healthy: flag }),
        tells(
            id,
            ScriptCall::SessionStarted { id: s, turn },
            EventModel::TurnStarted { source: Source::Script(id), session_id: own_id(id, s@), turn },
        ),
        tells(
            id,
            ScriptCall::SessionStatus { id: s, running: flag },
            EventModel::SessionStatus { source: Source::Script(id), session_id: own_id(id, s@), running: flag },
        ),
{
}

/// The end of a turn of a script.
pub open spec fn turn_over(id: u16, s: Seq<char>, turn: u64, reason: TurnEndReason) -> EventModel {
    EventModel::TurnEnded { source: Source::Script(id), session_id: own_id(id, s), turn, reason }
}

/// A turn ends for one of six reasons; any other is refused, and named.
pub proof fn law_end_calls(id: u16, s: String, turn: u64, reason: String)
    ensures
        ({
            let call = ScriptCall::SessionEnded { id: s, turn, reason };
            let w = reason@;
            &&& w == "completed"@ ==> tells(id, call, turn_over(id, s@, turn, TurnEndReason::Completed))
            &&& w == "error"@ ==> tells(id, call, turn_over(id, s@, turn, TurnEndReason::Error))
            &&& w == "max_tokens"@ ==> tells(id, call, turn_over(id, s@, turn, TurnEndReason::MaxTokens))
            &&& w == "aborted"@ ==> tells(id, call, turn_over(id, s@, turn, TurnEndReason::Aborted))
            &&& w == "interrupted"@ ==> tells(id, call, turn_over(id, s@, turn, TurnEndReason::Interrupted))
            &&& w == "blocked"@ ==> tells(id, call, turn_over(id, s@, turn, TurnEndReason::Blocked))
            &&& w != "completed"@ && w != "error"@ && w != "max_tokens"@ && w != "aborted"@ && w != "interrupted"@ && w
                != "blocked"@ ==> event_of(id, call) == Err::<EventModel, CallErrorModel>(CallErrorModel::Reason(w))
        }),
{
    reveal_strlit("completed");
    reveal_strlit("error");
    reveal_strlit("max_tokens");
    reveal_strlit("aborted");
    reveal_strlit("interrupted");
    reveal_strlit("blocked");
    assert("completed"@.len() == 9 && "error"@.len() == 5 && "max_tokens"@.len() == 10 && "aborted"@.len() == 7);
    assert("interrupted"@.len() == 11 && "blocked"@.len() == 7);
    assert("aborted"@[0] == 'a' && "blocked"@[0] == 'b');
}

/// The calls on tools, text and messages are told with what they say; a tool
/// fails only where the script says so.
pub proof fn law_work_calls(
    id: u16,
    s: String,
    name: String,
    a: Option<String>,
    b: Option<String>,
    c: Option<String>,
    err: Option<bool>,
)
    ensures
        tells(
            id,
            ScriptCall::ToolStarted { id: s, name, args: a },
            EventModel::ToolStarted {
                source: Source::Script(id),
                session_id: own_id(id, s@),
                name: name@,
                arguments: opt_text(a),
            },
        ),
        tells(
            id,
            ScriptCall::ToolEnded { id: s, name, err },
            EventModel::ToolEnded {
                source: Source::Script(id),
                session_id: own_id(id, s@),
                name: name@,
                error: err is Some && err->0,
            },
        ),
        tells(
            id,
            ScriptCall::LiveText { id: s, reasoning: a, text: b, tool_name: c },
            EventModel::LiveText {
                source: Source::Script(id),
                session_id: own_id(id, s@),
                reasoning: opt_text(a),
                text: opt_text(b),
                tool_name: opt_text(c),
            },
        ),
        tells(
            id,
            ScriptCall::UserMessage { id: s, text: name },
            EventModel::UserMessage { source: Source::Script(id), session_id: own_id(id, s@), text: name@ },
        ),
{
}

/// The calls on requests are told with the script's own ids of the request and of
/// the session, so that an answer meets its request.
pub proof fn law_request_calls(id: u16, q: String, s: String, what: String, n: u32)
    ensures
        tells(
            id,
            ScriptCall::Question { qid: q, id: s, text: what },
            EventModel::QuestionRequested {
                source: Source::Script(id),
                id: own_id(id, q@),
                session_id: own_id(id, s@),
                text: what@,
            },
        ),
        tells(
            id,
            ScriptCall::Answer { qid: q },
            EventModel::QuestionResolved { source: Source::Script(id), id: own_id(id, q@) },
        ),
        tells(
            id,
            ScriptCall::ApprovalRequested { aid: q, id: s, tool: what },
            EventModel::ApprovalRequested {
                source: Source::Script(id),
                id: own_id(id, q@),
                session_id: own_id(id, s@),
                tool: what@,
            },
        ),
        tells(
            id,
            ScriptCall::ApprovalResolved { aid: q },
            EventModel::ApprovalResolved { source: Source::Script(id), id: own_id(id, q@) },
        ),
        tells(id, ScriptCall::PendingSync, EventModel::PendingSync { source: Source::Script(id) }),
        tells(id, ScriptCall::Queue { n }, EventModel::QueueChanged { source: Source::Script(id), pending: n }),
{
}

/// A task list tells its tasks in order: an entry with a content text is a task,
/// pending unless it says otherwise; any other entry is passed over.
pub proof fn law_task_lists(rows: Seq<Option<TodoCells>>, row: Option<TodoCells>)
    requires
        todos_in(rows) is Ok,
    ensures
        ({
            let (before, after) = (todos_in(rows), todos_in(rows.push(row)));
            &&& row is None ==> after == before
            &&& row matches Some(t) ==> {
                &&& t.content matches Cell::Text(c) ==> (t.status matches Cell::Text(st) ==> after == Ok::<
                    Seq<TodoModel>,
                    Seq<char>,
                >(before->Ok_0.push(TodoModel { content: c@, status: st@ })))
                &&& t.content matches Cell::Text(c) ==> !(t.status is Text) && !(t.status is BadText) ==> after == Ok::<
                    Seq<TodoModel>,
                    Seq<char>,
                >(before->Ok_0.push(TodoModel { content: c@, status: "pending"@ }))
                &&& !(t.content is Text) && !(t.content is BadText) ==> after == before
                &&& t.content matches Cell::BadText(e) ==> after == Err::<Seq<TodoModel>, Seq<char>>(e@)
            }
        }),
        todos_in(Seq::empty()) == Ok::<Seq<TodoModel>, Seq<char>>(Seq::empty()),
{
    assert(rows.push(row).drop_last() =~= rows);
}

/// The id that a script gives a session: a text, or a number in writing.
pub open spec fn given_id(c: Cell) -> Option<Seq<char>> {
    match c {
        Cell::Text(s) => Some(s@),
        Cell::Int(i) => Some(signed_decimal(i as int)),
        Cell::Num(s, _) => Some(s@),
        _ => None,
    }
}

/// A list of sessions tells them in order: an entry with an id is a session that
/// runs only where it says so, with its title and its tasks; any other entry is
/// passed over.
pub proof fn law_session_lists(id: u16, rows: Seq<Option<ItemCells>>, row: Option<ItemCells>)
    requires
        items_in(id, rows) is Ok,
    ensures
        ({
            let (before, after) = (items_in(id, rows), items_in(id, rows.push(row)));
            &&& row is None ==> after == before
            &&& row matches Some(t) ==> {
                let sid = given_id(t.session_id);
                &&& sid is None && !(t.session_id is BadText) ==> after == before
                &&& t.session_id matches Cell::BadText(e) ==> after == Err::<Seq<ItemModel>, Seq<char>>(e@)
                &&& sid is Some && !(t.title is BadText) && (t.todos matches Some(v) ==> todos_in(v@) is Ok) ==> after
                    == Ok::<Seq<ItemModel>, Seq<char>>(
                    before->Ok_0.push(
                        ItemModel {
                            session_id: own_id(id, sid->0),
                            running: t.running == Cell::Bool(true),
                            title: match t.title {
                                Cell::Text(s) => Some(s@),
                                _ => None,
                            },
                            todos: match t.todos {
                                Some(v) => Some(todos_in(v@)->Ok_0),
                                None => None,
                            },
                        },
                    ),
                )
            }
        }),
        items_in(id, Seq::empty()) == Ok::<Seq<ItemModel>, Seq<char>>(Seq::empty()),
{
    assert(rows.push(row).drop_last() =~= rows);
}

/// The lists are told of the script's own source, and refused for the first text
/// in them that cannot be read.
pub proof fn law_list_calls(id: u16, s: String, tasks: Vec<Option<TodoCells>>, sessions: Vec<Option<ItemCells>>)
    ensures
        todos_in(tasks@) matches Ok(v) ==> tells(
            id,
            ScriptCall::Todo { id: s, rows: tasks },
            EventModel::TodoSnapshot { source: Source::Script(id), session_id: own_id(id, s@), todos: v },
        ),
        todos_in(tasks@) matches Err(e) ==> event_of(id, ScriptCall::Todo { id: s, rows: tasks }) == Err::<
            EventModel,
            CallErrorModel,
        >(CallErrorModel::Encoding(e)),
        items_in(id, sessions@) matches Ok(v) ==> tells(
            id,
            ScriptCall::Poll { rows: sessions },
            EventModel::Poll { source: Source::Script(id), items: v, ok: true, error: None },
        ),
        items_in(id, sessions@) matches Err(e) ==> event_of(id, ScriptCall::Poll { rows: sessions }) == Err::<
            EventModel,
            CallErrorModel,
        >(CallErrorModel::Encoding(e)),
{
}

/// A script that runs is up; one that cannot start or has ended is down, and one
/// that has ended leaves no request behind.
pub proof fn law_stages(id: u16, stage: Stage)
    ensures
        ({
            let evs = stage_events(id, stage);
            let ended = stage is Returned || stage is Failed;
            &&& evs.len() == if ended { 2int } else { 1 }
            &&& evs[0] == (EventModel::SourceHealth { source: Source::Script(id), healthy: stage is Started })
            &&& ended ==> evs[1] == (EventModel::PendingSync { source: Source::Script(id) })
        }),
{
}

/// A network call goes where its url says, unless the script is sandboxed, and
/// may take between a millisecond and a minute: what the script asks for, or
/// eight seconds for a websocket and five for anything else.
pub proof fn law_network_calls(call: Reach, url: Seq<char>, timeout: Option<u64>)
    ensures
        target_of(call, false, url) == url_in(url),
        target_of(call, true, url) is Err,
        1 <= limit_ms(call, timeout) <= 60_000,
        timeout matches Some(t) ==> 1 <= t <= 60_000 ==> limit_ms(call, timeout) == t,
        timeout matches Some(t) ==> t > 60_000 ==> limit_ms(call, timeout) == 60_000,
        timeout == Some(0u64) ==> limit_ms(call, timeout) == 1,
        timeout is None && call == Reach::Ws ==> limit_ms(call, timeout) == 8000,
        timeout is None && call != Reach::Ws ==> limit_ms(call, timeout) == 5000,
{
}

/// A script goes by its own name, and by its place in the list, from one on,
/// where it has none.
pub proof fn law_script_names(id: u16, name: Seq<char>)
    ensures
        trimmed(name).len() > 0 ==> label_of(id, name) == name,
        trimmed(name).len() == 0 ==> label_of(id, name) == "Script "@ + decimal((id + 1) as nat),
{
}

/// A line of the log that was just written is held back for a while, and any
/// other line is not.
pub proof fn law_log_holds_back(g: crate::connectors::lua::LogGate, msg: Seq<char>, now: u64)
    ensures
        g.at is None ==> !g.repeats(msg, now),
        g.last@ != msg ==> !g.repeats(msg, now),
        g.at matches Some(t) ==> g.last@ == msg ==> (g.repeats(msg, now) <==> now - t
            < crate::connectors::lua::LOG_REPEAT_MS),
{
}

/// What goes on with a script is written to its log, with what is wrong.
pub proof fn law_log_tells_stage(e: String)
    ensures
        crate::connectors::lua::stage_line(Stage::LoadFailed(e)) == "script load failed: "@ + e@,
        crate::connectors::lua::stage_line(Stage::SetupFailed(e)) == "script setup failed: "@ + e@,
        crate::connectors::lua::stage_line(Stage::CompileFailed(e)) == "script compile failed: "@ + e@,
        crate::connectors::lua::stage_line(Stage::Failed(e)) == "script error: "@ + e@,
        crate::connectors::lua::stage_line(Stage::Returned) == "script returned (not looping) — source stopped"@,
{
}

} // verus!
