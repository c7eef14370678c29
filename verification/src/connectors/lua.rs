//! Scripts: what the calls of their interface turn into, which calls a sandbox
//! allows, and what a script's start and end mean for its source.

use vstd::prelude::*;
use vstd::string::*;

use crate::event::{
    events_of, items_of, todos_of, EventModel, ItemModel, SessionItem, Source, StateEvent, TodoItem, TodoModel,
    TurnEndReason,
};
use crate::http::{url_in, Response, Url, UrlModel, WsError, WsFrame, WS_OP_BINARY, WS_OP_CLOSE, WS_OP_TEXT};
use crate::json::{json_written, lossy_text, lossy_text_of, write_json, Json};
use crate::text::{
    chars_of, decimal, decimal_of, first_chars, front_of, hex_of, hex_text, joined, opt_text, own, same_text,
    signed_decimal, signed_decimal_of, trim, trimmed,
};
use crate::state::PetModel;
use crate::text::lemma_decimal;

verus! {

/// A value that a script stored in a table.
#[derive(Debug)]
pub enum Cell {
    /// Nothing, or a value of a kind that no field holds.
    Absent,
    Bool(bool),
    Int(i64),
    /// A number with a fraction: how it is written, and the integer that it
    /// equals if there is one.
    Num(String, Option<i64>),
    Text(String),
    /// A text that is not valid UTF-8; what its reader says of it.
    BadText(String),
}

/// The fields of a task list entry as a script wrote them.
#[derive(Debug)]
pub struct TodoCells {
    pub content: Cell,
    pub status: Cell,
}

/// The fields of a session as a script wrote them. `todos` is there where the
/// script gave a table.
#[derive(Debug)]
pub struct ItemCells {
    pub session_id: Cell,
    pub running: Cell,
    pub title: Cell,
    pub todos: Option<Vec<Option<TodoCells>>>,
}

/// A call of the script interface that reports something.
#[derive(Debug)]
pub enum ScriptCall {
    Health { ok: bool },
    SessionStarted { id: String, turn: u64 },
    SessionEnded { id: String, turn: u64, reason: String },
    SessionStatus { id: String, running: bool },
    ToolStarted { id: String, name: String, args: Option<String> },
    ToolEnded { id: String, name: String, err: Option<bool> },
    LiveText { id: String, reasoning: Option<String>, text: Option<String>, tool_name: Option<String> },
    Question { qid: String, id: String, text: String },
    Answer { qid: String },
    ApprovalRequested { aid: String, id: String, tool: String },
    ApprovalResolved { aid: String },
    PendingSync,
    UserMessage { id: String, text: String },
    Queue { n: u32 },
    /// A task list; an entry that is no table is `None`.
    Todo { id: String, rows: Vec<Option<TodoCells>> },
    /// A list of sessions; an entry that is no table is `None`.
    Poll { rows: Vec<Option<ItemCells>> },
}

/// Why a call is refused.
#[derive(Debug)]
pub enum CallError {
    /// The reason for the end of a turn is not one of the six.
    Reason(String),
    /// A text is not valid UTF-8; what its reader says of it.
    Encoding(String),
}

/// What a [`CallError`] holds.
pub enum CallErrorModel {
    Reason(Seq<char>),
    Encoding(Seq<char>),
}

impl View for CallError {
    type V = CallErrorModel;

    open spec fn view(&self) -> CallErrorModel {
        match *self {
            CallError::Reason(s) => CallErrorModel::Reason(s@),
            CallError::Encoding(e) => CallErrorModel::Encoding(e@),
        }
    }
}

impl CallError {
    /// What the script is told.
    pub open spec fn text(self) -> Seq<char> {
        match self {
            CallError::Reason(s) => "unknown reason '"@ + s@
                + "' (completed|error|max_tokens|aborted|interrupted|blocked)"@,
            CallError::Encoding(e) => e@,
        }
    }

    /// What the script is told.
    pub fn message(&self) -> (r: String)
        ensures
            r@ == self.text(),
    {
        match self {
            CallError::Reason(s) => {
                let left = joined("unknown reason '", s.as_str());
                joined(left.as_str(), "' (completed|error|max_tokens|aborted|interrupted|blocked)")
            },
            CallError::Encoding(e) => e.clone(),
        }
    }
}

/// An id of script `id` as the state machine knows it.
pub open spec fn prefixed(id: u16, s: Seq<char>) -> Seq<char> {
    "script-"@ + decimal(id as nat) + "-"@ + s
}

/// The reason for the end of a turn that a script names.
pub open spec fn reason_in(s: Seq<char>) -> Option<TurnEndReason> {
    if s == "completed"@ {
        Some(TurnEndReason::Completed)
    } else if s == "error"@ {
        Some(TurnEndReason::Error)
    } else if s == "max_tokens"@ {
        Some(TurnEndReason::MaxTokens)
    } else if s == "aborted"@ {
        Some(TurnEndReason::Aborted)
    } else if s == "interrupted"@ {
        Some(TurnEndReason::Interrupted)
    } else if s == "blocked"@ {
        Some(TurnEndReason::Blocked)
    } else {
        None
    }
}

/// What an entry of a list comes to.
pub enum Read<T, E> {
    /// It is passed over.
    Skip,
    /// It makes the whole call fail.
    Bad(E),
    Row(T),
}

/// A task list entry: without a content text it is passed over, without a
/// status text it is pending.
pub open spec fn todo_in(row: Option<TodoCells>) -> Read<TodoModel, Seq<char>> {
    match row {
        None => Read::Skip,
        Some(t) => match t.content {
            Cell::Text(content) => match t.status {
                Cell::Text(status) => Read::Row(TodoModel { content: content@, status: status@ }),
                Cell::BadText(e) => Read::Bad(e@),
                _ => Read::Row(TodoModel { content: content@, status: "pending"@ }),
            },
            Cell::BadText(e) => Read::Bad(e@),
            _ => Read::Skip,
        },
    }
}

/// A task list, or what is said of the first entry that makes the call fail.
pub open spec fn todos_in(rows: Seq<Option<TodoCells>>) -> Result<Seq<TodoModel>, Seq<char>>
    decreases rows.len(),
{
    if rows.len() == 0 {
        Ok(Seq::empty())
    } else {
        match todos_in(rows.drop_last()) {
            Err(e) => Err(e),
            Ok(acc) => match todo_in(rows.last()) {
                Read::Skip => Ok(acc),
                Read::Bad(e) => Err(e),
                Read::Row(m) => Ok(acc.push(m)),
            },
        }
    }
}

/// The id of a session: a text, or a number as it is written.
pub open spec fn id_in(c: Cell) -> Read<Seq<char>, Seq<char>> {
    match c {
        Cell::Text(s) => Read::Row(s@),
        Cell::Int(i) => Read::Row(signed_decimal(i as int)),
        Cell::Num(s, _) => Read::Row(s@),
        Cell::BadText(e) => Read::Bad(e@),
        _ => Read::Skip,
    }
}

/// A session: without an id it is passed over; it runs only where the script
/// says so; a title or a task list of another kind is passed over.
pub open spec fn item_in(id: u16, row: Option<ItemCells>) -> Read<ItemModel, Seq<char>> {
    match row {
        None => Read::Skip,
        Some(t) => match id_in(t.session_id) {
            Read::Skip => Read::Skip,
            Read::Bad(e) => Read::Bad(e),
            Read::Row(sid) => {
                let running = t.running == Cell::Bool(true);
                let title = match t.title {
                    Cell::Text(s) => Some(s@),
                    _ => None,
                };
                if let Cell::BadText(e) = t.title {
                    Read::Bad(e@)
                } else {
                    match t.todos {
                        None => Read::Row(ItemModel { session_id: prefixed(id, sid), running, title, todos: None }),
                        Some(rows) => match todos_in(rows@) {
                            Err(e) => Read::Bad(e),
                            Ok(todos) => Read::Row(
                                ItemModel { session_id: prefixed(id, sid), running, title, todos: Some(todos) },
                            ),
                        },
                    }
                }
            },
        },
    }
}

/// A list of sessions, or what is said of the first entry that makes the call
/// fail.
pub open spec fn items_in(id: u16, rows: Seq<Option<ItemCells>>) -> Result<Seq<ItemModel>, Seq<char>>
    decreases rows.len(),
{
    if rows.len() == 0 {
        Ok(Seq::empty())
    } else {
        match items_in(id, rows.drop_last()) {
            Err(e) => Err(e),
            Ok(acc) => match item_in(id, rows.last()) {
                Read::Skip => Ok(acc),
                Read::Bad(e) => Err(e),
                Read::Row(m) => Ok(acc.push(m)),
            },
        }
    }
}

/// The event that a call of script `id` stands for, or why it is refused.
pub open spec fn event_of(id: u16, call: ScriptCall) -> Result<EventModel, CallErrorModel> {
    let source = Source::Script(id);
    match call {
        ScriptCall::Health { ok } => Ok(EventModel::SourceHealth { source, healthy: ok }),
        ScriptCall::SessionStarted { id: s, turn } => Ok(
            EventModel::TurnStarted { source, session_id: prefixed(id, s@), turn },
        ),
        ScriptCall::SessionEnded { id: s, turn, reason } => match reason_in(reason@) {
            Some(r) => Ok(EventModel::TurnEnded { source, session_id: prefixed(id, s@), turn, reason: r }),
            None => Err(CallErrorModel::Reason(reason@)),
        },
        ScriptCall::SessionStatus { id: s, running } => Ok(
            EventModel::SessionStatus { source, session_id: prefixed(id, s@), running },
        ),
        ScriptCall::ToolStarted { id: s, name, args } => Ok(
            EventModel::ToolStarted {
                source,
                session_id: prefixed(id, s@),
                name: name@,
                arguments: opt_text(args),
            },
        ),
        ScriptCall::ToolEnded { id: s, name, err } => Ok(
            EventModel::ToolEnded {
                source,
                session_id: prefixed(id, s@),
                name: name@,
                error: err == Some(true),
            },
        ),
        ScriptCall::LiveText { id: s, reasoning, text, tool_name } => Ok(
            EventModel::LiveText {
                source,
                session_id: prefixed(id, s@),
                reasoning: opt_text(reasoning),
                text: opt_text(text),
                tool_name: opt_text(tool_name),
            },
        ),
        ScriptCall::Question { qid, id: s, text } => Ok(
            EventModel::QuestionRequested {
                source,
                id: prefixed(id, qid@),
                session_id: prefixed(id, s@),
                text: text@,
            },
        ),
        ScriptCall::Answer { qid } => Ok(EventModel::QuestionResolved { source, id: prefixed(id, qid@) }),
        ScriptCall::ApprovalRequested { aid, id: s, tool } => Ok(
            EventModel::ApprovalRequested {
                source,
                id: prefixed(id, aid@),
                session_id: prefixed(id, s@),
                tool: tool@,
            },
        ),
        ScriptCall::ApprovalResolved { aid } => Ok(EventModel::ApprovalResolved { source, id: prefixed(id, aid@) }),
        ScriptCall::PendingSync => Ok(EventModel::PendingSync { source }),
        ScriptCall::UserMessage { id: s, text } => Ok(
            EventModel::UserMessage { source, session_id: prefixed(id, s@), text: text@ },
        ),
        ScriptCall::Queue { n } => Ok(EventModel::QueueChanged { source, pending: n }),
        ScriptCall::Todo { id: s, rows } => match todos_in(rows@) {
            Ok(todos) => Ok(EventModel::TodoSnapshot { source, session_id: prefixed(id, s@), todos }),
            Err(e) => Err(CallErrorModel::Encoding(e)),
        },
        ScriptCall::Poll { rows } => match items_in(id, rows@) {
            Ok(items) => Ok(EventModel::Poll { source, items, ok: true, error: None }),
            Err(e) => Err(CallErrorModel::Encoding(e)),
        },
    }
}

/// The id of script `id` for `s`.
fn with_prefix(id: u16, s: &str) -> (r: String)
    ensures
        r@ == prefixed(id, s@),
{
    let a = joined("script-", decimal_of(id as u128).as_str());
    let b = joined(a.as_str(), "-");
    joined(b.as_str(), s)
}

fn read_reason(s: &str) -> (r: Option<TurnEndReason>)
    ensures
        r == reason_in(s@),
{
    if same_text(s, "completed") {
        Some(TurnEndReason::Completed)
    } else if same_text(s, "error") {
        Some(TurnEndReason::Error)
    } else if same_text(s, "max_tokens") {
        Some(TurnEndReason::MaxTokens)
    } else if same_text(s, "aborted") {
        Some(TurnEndReason::Aborted)
    } else if same_text(s, "interrupted") {
        Some(TurnEndReason::Interrupted)
    } else if same_text(s, "blocked") {
        Some(TurnEndReason::Blocked)
    } else {
        None
    }
}

/// Reads a task list entry.
fn read_todo(row: &Option<TodoCells>) -> (r: Read<TodoItem, String>)
    ensures
        match r {
            Read::Skip => todo_in(*row) is Skip,
            Read::Bad(e) => todo_in(*row) == Read::<TodoModel, Seq<char>>::Bad(e@),
            Read::Row(t) => todo_in(*row) == Read::<TodoModel, Seq<char>>::Row(t@),
        },
{
    match row {
        None => Read::Skip,
        Some(t) => match &t.content {
            Cell::Text(content) => match &t.status {
                Cell::Text(status) => Read::Row(TodoItem { content: content.clone(), status: status.clone() }),
                Cell::BadText(e) => Read::Bad(e.clone()),
                _ => Read::Row(TodoItem { content: content.clone(), status: own("pending") }),
            },
            Cell::BadText(e) => Read::Bad(e.clone()),
            _ => Read::Skip,
        },
    }
}

proof fn lemma_todos_fail(rows: Seq<Option<TodoCells>>, n: int)
    requires
        0 <= n <= rows.len(),
        todos_in(rows.take(n)) is Err,
    ensures
        todos_in(rows) == todos_in(rows.take(n)),
    decreases rows.len() - n,
{
    if n == rows.len() {
        assert(rows.take(n) =~= rows);
    } else {
        assert(rows.take(n + 1).drop_last() =~= rows.take(n));
        lemma_todos_fail(rows, n + 1);
    }
}

/// Reads a task list.
fn read_todos(rows: &Vec<Option<TodoCells>>) -> (r: Result<Vec<TodoItem>, String>)
    ensures
        match r {
            Ok(v) => todos_in(rows@) == Ok::<Seq<TodoModel>, Seq<char>>(todos_of(v@)),
            Err(e) => todos_in(rows@) == Err::<Seq<TodoModel>, Seq<char>>(e@),
        },
{
    let mut out: Vec<TodoItem> = Vec::new();
    let mut i: usize = 0;
    let n: usize = rows.len();
    proof {
        assert(todos_of(out@) =~= Seq::<TodoModel>::empty());
    }
    while i < n
        invariant
            i <= n == rows@.len(),
            todos_in(rows@.take(i as int)) == Ok::<Seq<TodoModel>, Seq<char>>(todos_of(out@)),
        decreases n - i,
    {
        proof {
            assert(rows@.take(i as int + 1).drop_last() =~= rows@.take(i as int));
            assert(rows@.take(i as int + 1).last() == rows@[i as int]);
        }
        let ghost before = out@;
        match read_todo(&rows[i]) {
            Read::Skip => {},
            Read::Bad(e) => {
                proof {
                    lemma_todos_fail(rows@, i as int + 1);
                }
                return Err(e);
            },
            Read::Row(t) => {
                out.push(t);
                assert(todos_of(out@) =~= todos_of(before).push(t@));
            },
        }
        i += 1;
    }
    assert(rows@.take(n as int) =~= rows@);
    Ok(out)
}

/// Reads the id of a session.
fn read_id(c: &Cell) -> (r: Read<String, String>)
    ensures
        match r {
            Read::Skip => id_in(*c) is Skip,
            Read::Bad(e) => id_in(*c) == Read::<Seq<char>, Seq<char>>::Bad(e@),
            Read::Row(s) => id_in(*c) == Read::<Seq<char>, Seq<char>>::Row(s@),
        },
{
    match c {
        Cell::Text(s) => Read::Row(s.clone()),
        Cell::Int(i) => Read::Row(signed_decimal_of(*i)),
        Cell::Num(s, _) => Read::Row(s.clone()),
        Cell::BadText(e) => Read::Bad(e.clone()),
        _ => Read::Skip,
    }
}

/// Reads a session.
fn read_item(id: u16, row: &Option<ItemCells>) -> (r: Read<SessionItem, String>)
    ensures
        match r {
            Read::Skip => item_in(id, *row) is Skip,
            Read::Bad(e) => item_in(id, *row) == Read::<ItemModel, Seq<char>>::Bad(e@),
            Read::Row(t) => item_in(id, *row) == Read::<ItemModel, Seq<char>>::Row(t@),
        },
{
    match row {
        None => Read::Skip,
        Some(t) => match read_id(&t.session_id) {
            Read::Skip => Read::Skip,
            Read::Bad(e) => Read::Bad(e),
            Read::Row(sid) => {
                let running = match &t.running {
                    Cell::Bool(b) => *b,
                    _ => false,
                };
                let title = match &t.title {
                    Cell::Text(s) => Some(s.clone()),
                    Cell::BadText(e) => {
                        return Read::Bad(e.clone());
                    },
                    _ => None,
                };
                let todos = match &t.todos {
                    None => None,
                    Some(rows) => match read_todos(rows) {
                        Err(e) => {
                            return Read::Bad(e);
                        },
                        Ok(v) => Some(v),
                    },
                };
                Read::Row(SessionItem { session_id: with_prefix(id, sid.as_str()), running, title, todos })
            },
        },
    }
}

proof fn lemma_items_fail(id: u16, rows: Seq<Option<ItemCells>>, n: int)
    requires
        0 <= n <= rows.len(),
        items_in(id, rows.take(n)) is Err,
    ensures
        items_in(id, rows) == items_in(id, rows.take(n)),
    decreases rows.len() - n,
{
    if n == rows.len() {
        assert(rows.take(n) =~= rows);
    } else {
        assert(rows.take(n + 1).drop_last() =~= rows.take(n));
        lemma_items_fail(id, rows, n + 1);
    }
}

/// Reads a list of sessions.
fn read_items(id: u16, rows: &Vec<Option<ItemCells>>) -> (r: Result<Vec<SessionItem>, String>)
    ensures
        match r {
            Ok(v) => items_in(id, rows@) == Ok::<Seq<ItemModel>, Seq<char>>(items_of(v@)),
            Err(e) => items_in(id, rows@) == Err::<Seq<ItemModel>, Seq<char>>(e@),
        },
{
    let mut out: Vec<SessionItem> = Vec::new();
    let mut i: usize = 0;
    let n: usize = rows.len();
    proof {
        assert(items_of(out@) =~= Seq::<ItemModel>::empty());
    }
    while i < n
        invariant
            i <= n == rows@.len(),
            items_in(id, rows@.take(i as int)) == Ok::<Seq<ItemModel>, Seq<char>>(items_of(out@)),
        decreases n - i,
    {
        proof {
            assert(rows@.take(i as int + 1).drop_last() =~= rows@.take(i as int));
            assert(rows@.take(i as int + 1).last() == rows@[i as int]);
        }
        let ghost before = out@;
        match read_item(id, &rows[i]) {
            Read::Skip => {},
            Read::Bad(e) => {
                proof {
                    lemma_items_fail(id, rows@, i as int + 1);
                }
                return Err(e);
            },
            Read::Row(t) => {
                out.push(t);
                assert(items_of(out@) =~= items_of(before).push(t@));
            },
        }
        i += 1;
    }
    assert(rows@.take(n as int) =~= rows@);
    Ok(out)
}

/// Turns a call of script `id` into the event that it reports. Sessions,
/// approvals and questions get the script's own prefix, so that scripts do not
/// collide with each other.
pub fn script_event(id: u16, call: ScriptCall) -> (r: Result<StateEvent, CallError>)
    ensures
        match r {
            Ok(e) => event_of(id, call) == Ok::<EventModel, CallErrorModel>(e@),
            Err(e) => event_of(id, call) == Err::<EventModel, CallErrorModel>(e@),
        },
{
    let source = Source::Script(id);
    match call {
        ScriptCall::Health { ok } => Ok(StateEvent::SourceHealth { source, healthy: ok }),
        ScriptCall::SessionStarted { id: s, turn } => Ok(
            StateEvent::TurnStarted { source, session_id: with_prefix(id, s.as_str()), turn },
        ),
        ScriptCall::SessionEnded { id: s, turn, reason } => match read_reason(reason.as_str()) {
            Some(r) => Ok(
                StateEvent::TurnEnded { source, session_id: with_prefix(id, s.as_str()), turn, reason: r },
            ),
            None => Err(CallError::Reason(reason)),
        },
        ScriptCall::SessionStatus { id: s, running } => Ok(
            StateEvent::SessionStatus { source, session_id: with_prefix(id, s.as_str()), running },
        ),
        ScriptCall::ToolStarted { id: s, name, args } => Ok(
            StateEvent::ToolStarted { source, session_id: with_prefix(id, s.as_str()), name, arguments: args },
        ),
        ScriptCall::ToolEnded { id: s, name, err } => {
            let error = match err {
                Some(b) => b,
                None => false,
            };
            Ok(StateEvent::ToolEnded { source, session_id: with_prefix(id, s.as_str()), name, error })
        },
        ScriptCall::LiveText { id: s, reasoning, text, tool_name } => Ok(
            StateEvent::LiveText { source, session_id: with_prefix(id, s.as_str()), reasoning, text, tool_name },
        ),
        ScriptCall::Question { qid, id: s, text } => Ok(
            StateEvent::QuestionRequested {
                source,
                id: with_prefix(id, qid.as_str()),
                session_id: with_prefix(id, s.as_str()),
                text,
            },
        ),
        ScriptCall::Answer { qid } => Ok(StateEvent::QuestionResolved { source, id: with_prefix(id, qid.as_str()) }),
        ScriptCall::ApprovalRequested { aid, id: s, tool } => Ok(
            StateEvent::ApprovalRequested {
                source,
                id: with_prefix(id, aid.as_str()),
                session_id: with_prefix(id, s.as_str()),
                tool,
            },
        ),
        ScriptCall::ApprovalResolved { aid } => Ok(
            StateEvent::ApprovalResolved { source, id: with_prefix(id, aid.as_str()) },
        ),
        ScriptCall::PendingSync => Ok(StateEvent::PendingSync { source }),
        ScriptCall::UserMessage { id: s, text } => Ok(
            StateEvent::UserMessage { source, session_id: with_prefix(id, s.as_str()), text },
        ),
        ScriptCall::Queue { n } => Ok(StateEvent::QueueChanged { source, pending: n }),
        ScriptCall::Todo { id: s, rows } => match read_todos(&rows) {
            Ok(todos) => Ok(StateEvent::TodoSnapshot { source, session_id: with_prefix(id, s.as_str()), todos }),
            Err(e) => Err(CallError::Encoding(e)),
        },
        ScriptCall::Poll { rows } => match read_items(id, &rows) {
            Ok(items) => Ok(StateEvent::Poll { source, items, ok: true, error: None }),
            Err(e) => Err(CallError::Encoding(e)),
        },
    }
}


/// A step in the life of a script.
#[derive(Debug)]
pub enum Stage {
    /// Its file cannot be read.
    LoadFailed(String),
    /// Its interface cannot be set up.
    SetupFailed(String),
    /// It is not a Lua chunk.
    CompileFailed(String),
    /// It starts to run: how long its text is, and what it was configured with.
    Started { bytes: usize, args: Option<Json> },
    /// It came back from its main loop.
    Returned,
    /// It failed while it ran.
    Failed(String),
}

/// What configured arguments look like in the log: the first characters of
/// their JSON.
pub open spec fn args_echo(args: Option<Json>) -> Seq<char> {
    match args {
        Some(j) => front_of(json_written(j@), 300),
        None => ""@,
    }
}

/// What a step writes to the log.
pub open spec fn stage_line(stage: Stage) -> Seq<char> {
    match stage {
        Stage::LoadFailed(e) => "script load failed: "@ + e@,
        Stage::SetupFailed(e) => "script setup failed: "@ + e@,
        Stage::CompileFailed(e) => "script compile failed: "@ + e@,
        Stage::Started { bytes, args } => "started ("@ + decimal(bytes as nat) + " bytes) args="@ + args_echo(args),
        Stage::Returned => "script returned (not looping) — source stopped"@,
        Stage::Failed(e) => "script error: "@ + e@,
    }
}

/// What a step means for the source of script `id`: a script that starts is
/// healthy, one that cannot start or has ended is not, and one that has ended
/// leaves no request behind.
pub open spec fn stage_events(id: u16, stage: Stage) -> Seq<EventModel> {
    let source = Source::Script(id);
    match stage {
        Stage::LoadFailed(_) | Stage::SetupFailed(_) | Stage::CompileFailed(_) => seq![
            EventModel::SourceHealth { source, healthy: false },
        ],
        Stage::Started { .. } => seq![EventModel::SourceHealth { source, healthy: true }],
        Stage::Returned | Stage::Failed(_) => seq![
            EventModel::SourceHealth { source, healthy: false },
            EventModel::PendingSync { source },
        ],
    }
}

/// The log line and the events of a step in the life of script `id`.
pub fn on_stage(id: u16, stage: &Stage) -> (r: (String, Vec<StateEvent>))
    ensures
        r.0@ == stage_line(*stage),
        events_of(r.1@) == stage_events(id, *stage),
{
    let source = Source::Script(id);
    let mut out: Vec<StateEvent> = Vec::new();
    let line = match stage {
        Stage::LoadFailed(e) => {
            out.push(StateEvent::SourceHealth { source, healthy: false });
            joined("script load failed: ", e.as_str())
        },
        Stage::SetupFailed(e) => {
            out.push(StateEvent::SourceHealth { source, healthy: false });
            joined("script setup failed: ", e.as_str())
        },
        Stage::CompileFailed(e) => {
            out.push(StateEvent::SourceHealth { source, healthy: false });
            joined("script compile failed: ", e.as_str())
        },
        Stage::Started { bytes, args } => {
            out.push(StateEvent::SourceHealth { source, healthy: true });
            let echo = match args {
                Some(j) => first_chars(write_json(j).as_str(), 300),
                None => own(""),
            };
            let a = joined("started (", decimal_of(*bytes as u128).as_str());
            let b = joined(a.as_str(), " bytes) args=");
            joined(b.as_str(), echo.as_str())
        },
        Stage::Returned => {
            out.push(StateEvent::SourceHealth { source, healthy: false });
            out.push(StateEvent::PendingSync { source });
            own("script returned (not looping) — source stopped")
        },
        Stage::Failed(e) => {
            out.push(StateEvent::SourceHealth { source, healthy: false });
            out.push(StateEvent::PendingSync { source });
            joined("script error: ", e.as_str())
        },
    };
    assert(events_of(out@) =~= stage_events(id, *stage));
    (line, out)
}

/// What is wrong with a Lua chunk that is loaded under a name, if anything is.
pub uninterp spec fn lua_fault_in(src: Seq<char>, name: Seq<char>) -> Option<Seq<char>>;

/// `mlua::Chunk::into_function` in a fresh state: whether a text is a Lua
/// chunk, and what is wrong with it otherwise, is a function of the text and of
/// the name that it is loaded under. Nothing of the chunk runs.
#[verifier::external_body]
fn fault_of(src: &str, name: &str) -> (r: Option<String>)
    ensures
        opt_text(r) == lua_fault_in(src@, name@),
{
    mlua::Lua::new().load(src).set_name(name).into_function().err().map(|e| e.to_string())
}

/// What follows once it is known what is wrong with a script's text: the script
/// starts where nothing is.
pub open spec fn stage_after_compile(error: Option<Seq<char>>, bytes: usize, args: Option<Json>, stage: Stage) -> bool {
    match error {
        Some(e) => stage is CompileFailed && stage->CompileFailed_0@ == e,
        None => stage == (Stage::Started { bytes, args }),
    }
}

/// The step that a script takes next, given what is wrong with its text.
pub fn next_stage(error: Option<String>, bytes: usize, args: Option<Json>) -> (r: Stage)
    ensures
        stage_after_compile(opt_text(error), bytes, args, r),
{
    match error {
        Some(e) => Stage::CompileFailed(e),
        None => Stage::Started { bytes, args },
    }
}

/// Compiles a script's text, of the given size in bytes, without running it.
pub fn compile_script(src: &str, file: &str, bytes: usize, args: Option<Json>) -> (r: Stage)
    ensures
        stage_after_compile(lua_fault_in(src@, file@), bytes, args, r),
{
    next_stage(fault_of(src, file), bytes, args)
}

/// How long a repeated log line is held back, in milliseconds.
pub const LOG_REPEAT_MS: u64 = 30_000;

/// Holds back a log line that repeats the last one too soon.
pub struct LogGate {
    pub last: String,
    pub at: Option<u64>,
}

impl LogGate {
    /// Nothing has been logged.
    pub fn new() -> (r: Self)
        ensures
            r.last@.len() == 0,
            r.at is None,
    {
        LogGate { last: String::new(), at: None }
    }

    /// Whether `msg` repeats the last line within the hold-back time.
    pub open spec fn repeats(self, msg: Seq<char>, now: u64) -> bool {
        self.at is Some && self.last@ == msg && now - self.at->0 < LOG_REPEAT_MS
    }

    /// Whether to log `msg` at `now`, and remembers it if so.
    pub fn passes(&mut self, msg: &str, now: u64) -> (r: bool)
        ensures
            r == !old(self).repeats(msg@, now),
            r ==> final(self).last@ == msg@ && final(self).at == Some(now),
            !r ==> *final(self) == *old(self),
    {
        let dup = match self.at {
            Some(t) => (now < t || now - t < LOG_REPEAT_MS) && same_text(self.last.as_str(), msg),
            None => false,
        };
        if dup {
            return false;
        }
        self.last = own(msg);
        self.at = Some(now);
        true
    }
}

/// A line of a script's log.
pub fn log_line(name: &str, msg: &str) -> (r: String)
    ensures
        r@ == "[lua:"@ + name@ + "] "@ + msg@,
{
    let a = joined("[lua:", name);
    let b = joined(a.as_str(), "] ");
    joined(b.as_str(), msg)
}

/// The name under which a script appears: its own, or its place in the list
/// where that is blank.
pub open spec fn label_of(id: u16, name: Seq<char>) -> Seq<char> {
    if trimmed(name).len() == 0 {
        "Script "@ + decimal((id + 1) as nat)
    } else {
        name
    }
}

/// The name under which a script appears.
pub fn script_label(id: u16, name: &str) -> (r: String)
    requires
        trimmed(name@).len() == 0 ==> id < u16::MAX,
    ensures
        r@ == label_of(id, name@),
{
    if trim(name).as_str().is_empty() {
        joined("Script ", decimal_of(id as u128 + 1).as_str())
    } else {
        own(name)
    }
}

/// The globals that a sandboxed script does not see.
pub open spec fn hidden_globals() -> Seq<Seq<char>> {
    seq!["os"@, "io"@, "package"@, "require"@, "dofile"@, "loadfile"@, "load"@, "debug"@]
}

/// The globals to remove from a script's state.
pub fn removed_globals(sandbox: bool) -> (r: Vec<&'static str>)
    ensures
        r@.map_values(|s: &'static str| s@) == if sandbox {
            hidden_globals()
        } else {
            Seq::empty()
        },
{
    let mut out: Vec<&'static str> = Vec::new();
    if sandbox {
        out.push("os");
        out.push("io");
        out.push("package");
        out.push("require");
        out.push("dofile");
        out.push("loadfile");
        out.push("load");
        out.push("debug");
        assert(out@.map_values(|s: &'static str| s@) =~= hidden_globals());
    } else {
        assert(out@.map_values(|s: &'static str| s@) =~= Seq::empty());
    }
    out
}

/// A call that reaches outside the script.
#[derive(Debug, Clone, Copy, PartialEq, Eq, Structural)]
pub enum Reach {
    Http,
    HttpPost,
    Ws,
    Sqlite,
}

impl Reach {
    /// Name of the call.
    pub open spec fn name(self) -> Seq<char> {
        match self {
            Reach::Http => "pet.http"@,
            Reach::HttpPost => "pet.http_post"@,
            Reach::Ws => "pet.ws"@,
            Reach::Sqlite => "pet.sqlite"@,
        }
    }

    /// The time limit that applies where the script gives none.
    pub open spec fn default_ms(self) -> u64 {
        if self == Reach::Ws {
            8000
        } else {
            5000
        }
    }

    fn name_of(&self) -> (r: &'static str)
        ensures
            r@ == self.name(),
    {
        match self {
            Reach::Http => "pet.http",
            Reach::HttpPost => "pet.http_post",
            Reach::Ws => "pet.ws",
            Reach::Sqlite => "pet.sqlite",
        }
    }
}

/// Lets a call through unless the script is sandboxed.
pub fn allowed(call: Reach, sandbox: bool) -> (r: Result<(), String>)
    ensures
        r is Ok <==> !sandbox,
        r matches Err(e) ==> e@ == call.name() + " is disabled in sandbox mode"@,
{
    if sandbox {
        Err(joined(call.name_of(), " is disabled in sandbox mode"))
    } else {
        Ok(())
    }
}

/// A time limit between one millisecond and a minute.
pub open spec fn limit_ms(call: Reach, timeout: Option<u64>) -> u64 {
    let t = match timeout {
        Some(t) => t,
        None => call.default_ms(),
    };
    if t > 60_000 {
        60_000
    } else if t < 1 {
        1
    } else {
        t
    }
}

/// Where a network call goes, or why it does not go anywhere.
pub open spec fn target_of(call: Reach, sandbox: bool, url: Seq<char>) -> Result<UrlModel, Seq<char>> {
    if sandbox {
        Err(call.name() + " is disabled in sandbox mode"@)
    } else {
        url_in(url)
    }
}

/// Plans a network call: where it goes and how many milliseconds it may take.
pub fn plan_call(call: Reach, sandbox: bool, url: &str, timeout: Option<u64>) -> (r: Result<(Url, u64), String>)
    ensures
        match r {
            Ok(p) => target_of(call, sandbox, url@) == Ok::<UrlModel, Seq<char>>(p.0@)
                && p.1 == limit_ms(call, timeout),
            Err(e) => target_of(call, sandbox, url@) == Err::<UrlModel, Seq<char>>(e@),
        },
{
    match allowed(call, sandbox) {
        Err(e) => {
            return Err(e);
        },
        Ok(()) => {},
    }
    let u = match Url::parse(url) {
        Ok(u) => u,
        Err(e) => {
            return Err(e);
        },
    };
    let t: u64 = match timeout {
        Some(t) => t,
        None => match call {
            Reach::Ws => 8000,
            _ => 5000,
        },
    };
    let ms: u64 = if t > 60_000 {
        60_000
    } else if t < 1 {
        1
    } else {
        t
    };
    Ok((u, ms))
}

/// What a script gets of a response: the status and the body as text.
pub fn reply_of(resp: &Response) -> (r: (i64, String))
    ensures
        r.0 == resp.status,
        r.1@ == lossy_text_of(resp.body@),
{
    (resp.status as i64, lossy_text(resp.body.as_slice()))
}

/// What a script gets of a websocket.
#[derive(Debug)]
pub enum Delivery {
    /// A frame with data.
    Data(Vec<u8>),
    /// Nothing came in time; the connection is still there.
    Quiet,
    /// The connection is gone.
    Gone,
    /// A frame that is none of the script's business: wait for the next.
    Again,
}

/// What a script gets once a frame has come, or has not.
pub fn deliver(got: Result<WsFrame, WsError>) -> (r: Delivery)
    ensures
        match got {
            Ok(f) => if f.opcode == WS_OP_TEXT || f.opcode == WS_OP_BINARY {
                r matches Delivery::Data(d) && d@ == f.payload@
            } else if f.opcode == WS_OP_CLOSE {
                r is Gone
            } else {
                r is Again
            },
            Err(WsError::Timeout) => r is Quiet,
            Err(_) => r is Gone,
        },
{
    match got {
        Ok(f) => if f.opcode == WS_OP_TEXT || f.opcode == WS_OP_BINARY {
            Delivery::Data(f.payload)
        } else if f.opcode == WS_OP_CLOSE {
            Delivery::Gone
        } else {
            Delivery::Again
        },
        Err(WsError::Timeout) => Delivery::Quiet,
        Err(_) => Delivery::Gone,
    }
}

/// A parameter of a query.
#[derive(Debug)]
pub enum SqlParam {
    Null,
    Int(i64),
    /// The number is handed on as it is.
    Real,
    Text(String),
}

/// The parameter that a script's value stands for, or what is said of a text
/// that is not valid UTF-8. A number without a fraction is an integer, a truth
/// value is one or zero.
pub fn sql_param(c: Cell) -> (r: Result<SqlParam, CallError>)
    ensures
        match c {
            Cell::Absent => r == Ok::<SqlParam, CallError>(SqlParam::Null),
            Cell::Bool(b) => r == Ok::<SqlParam, CallError>(SqlParam::Int(if b { 1 } else { 0 })),
            Cell::Int(i) => r == Ok::<SqlParam, CallError>(SqlParam::Int(i)),
            Cell::Num(_, Some(i)) => r == Ok::<SqlParam, CallError>(SqlParam::Int(i)),
            Cell::Num(_, None) => r == Ok::<SqlParam, CallError>(SqlParam::Real),
            Cell::Text(s) => r is Ok && r->Ok_0 is Text && r->Ok_0->Text_0@ == s@,
            Cell::BadText(e) => r is Err && r->Err_0@ == CallErrorModel::Encoding(e@),
        },
{
    match c {
        Cell::Absent => Ok(SqlParam::Null),
        Cell::Bool(b) => if b {
            Ok(SqlParam::Int(1))
        } else {
            Ok(SqlParam::Int(0))
        },
        Cell::Int(i) => Ok(SqlParam::Int(i)),
        Cell::Num(_, Some(i)) => Ok(SqlParam::Int(i)),
        Cell::Num(_, None) => Ok(SqlParam::Real),
        Cell::Text(s) => Ok(SqlParam::Text(s)),
        Cell::BadText(e) => Err(CallError::Encoding(e)),
    }
}

/// What a script gets of a text or blob column: the text, or the bytes in
/// hexadecimal.
pub fn column_text(bytes: &[u8], blob: bool) -> (r: String)
    ensures
        r@ == if blob {
            hex_of(bytes@)
        } else {
            lossy_text_of(bytes@)
        },
{
    if blob {
        hex_text(bytes)
    } else {
        lossy_text(bytes)
    }
}


/// `true` or `false`.
pub open spec fn bool_word(b: bool) -> Seq<char> {
    if b {
        "true"@
    } else {
        "false"@
    }
}

/// Name of a reason for the end of a turn.
pub open spec fn reason_word(r: TurnEndReason) -> Seq<char> {
    match r {
        TurnEndReason::Completed => "Completed"@,
        TurnEndReason::Error => "Error"@,
        TurnEndReason::MaxTokens => "MaxTokens"@,
        TurnEndReason::Aborted => "Aborted"@,
        TurnEndReason::Interrupted => "Interrupted"@,
        TurnEndReason::Blocked => "Blocked"@,
    }
}

/// Length of a text that may be missing.
pub open spec fn opt_len(s: Option<Seq<char>>) -> nat {
    match s {
        Some(t) => t.len(),
        None => 0,
    }
}

/// An event in one line.
pub open spec fn summary_of(e: EventModel) -> Seq<char> {
    match e {
        EventModel::SourceHealth { healthy, .. } => "health "@ + bool_word(healthy),
        EventModel::Poll { items, .. } => "poll "@ + decimal(items.len()) + " items"@,
        EventModel::SessionStatus { session_id, running, .. } => "session_status "@ + session_id + " "@
            + bool_word(running),
        EventModel::TurnStarted { session_id, turn, .. } => "session_started "@ + session_id + " turn="@
            + decimal(turn as nat),
        EventModel::TurnEnded { session_id, turn, reason, .. } => "session_ended "@ + session_id + " turn="@
            + decimal(turn as nat) + " "@ + reason_word(reason),
        EventModel::ToolStarted { session_id, name, .. } => "tool_started "@ + session_id + " "@ + name,
        EventModel::ToolEnded { session_id, name, error, .. } => "tool_ended "@ + session_id + " "@ + name + " err="@
            + bool_word(error),
        EventModel::TodoSnapshot { session_id, todos, .. } => "todo "@ + session_id + " n="@ + decimal(todos.len()),
        EventModel::ApprovalRequested { id, session_id, tool, .. } => "approval_requested "@ + id + " "@ + session_id
            + " "@ + tool,
        EventModel::ApprovalResolved { id, .. } => "approval_resolved "@ + id,
        EventModel::QuestionRequested { id, session_id, .. } => "question "@ + id + " "@ + session_id,
        EventModel::QuestionResolved { id, .. } => "answer "@ + id,
        EventModel::PendingSync { .. } => "pending_sync"@,
        EventModel::LiveText { session_id, reasoning, text, .. } => "live_text "@ + session_id + " r+"@
            + decimal(opt_len(reasoning)) + " t+"@ + decimal(opt_len(text)),
        EventModel::UserMessage { session_id, text, .. } => "user_message "@ + session_id + " "@ + decimal(text.len())
            + " chars"@,
        EventModel::QueueChanged { pending, .. } => "queue "@ + decimal(pending as nat),
        EventModel::Tick => "tick"@,
    }
}

fn bool_text(b: bool) -> (r: &'static str)
    ensures
        r@ == bool_word(b),
{
    if b {
        "true"
    } else {
        "false"
    }
}

/// The name of a reason.
pub fn reason_text(r: TurnEndReason) -> (t: &'static str)
    ensures
        t@ == reason_word(r),
{
    match r {
        TurnEndReason::Completed => "Completed",
        TurnEndReason::Error => "Error",
        TurnEndReason::MaxTokens => "MaxTokens",
        TurnEndReason::Aborted => "Aborted",
        TurnEndReason::Interrupted => "Interrupted",
        TurnEndReason::Blocked => "Blocked",
    }
}

fn text_len(s: &str) -> (r: u128)
    ensures
        r == s@.len(),
{
    chars_of(s).len() as u128
}

fn opt_text_len(s: &Option<String>) -> (r: u128)
    ensures
        r == opt_len(opt_text(*s)),
{
    match s {
        Some(t) => text_len(t.as_str()),
        None => 0,
    }
}

/// An event in one line, for the trace of a script under test.
pub fn ev_summary(ev: &StateEvent) -> (r: String)
    ensures
        r@ == summary_of(ev@),
{
    match ev {
        StateEvent::SourceHealth { healthy, .. } => joined("health ", bool_text(*healthy)),
        StateEvent::Poll { items, .. } => {
            let mut s = own("poll ");
            s.append(decimal_of(items.len() as u128).as_str());
            s.append(" items");
            s
        },
        StateEvent::SessionStatus { session_id, running, .. } => {
            let mut s = own("session_status ");
            s.append(session_id.as_str());
            s.append(" ");
            s.append(bool_text(*running));
            s
        },
        StateEvent::TurnStarted { session_id, turn, .. } => {
            let mut s = own("session_started ");
            s.append(session_id.as_str());
            s.append(" turn=");
            s.append(decimal_of(*turn as u128).as_str());
            s
        },
        StateEvent::TurnEnded { session_id, turn, reason, .. } => {
            let mut s = own("session_ended ");
            s.append(session_id.as_str());
            s.append(" turn=");
            s.append(decimal_of(*turn as u128).as_str());
            s.append(" ");
            s.append(reason_text(*reason));
            s
        },
        StateEvent::ToolStarted { session_id, name, .. } => {
            let mut s = own("tool_started ");
            s.append(session_id.as_str());
            s.append(" ");
            s.append(name.as_str());
            s
        },
        StateEvent::ToolEnded { session_id, name, error, .. } => {
            let mut s = own("tool_ended ");
            s.append(session_id.as_str());
            s.append(" ");
            s.append(name.as_str());
            s.append(" err=");
            s.append(bool_text(*error));
            s
        },
        StateEvent::TodoSnapshot { session_id, todos, .. } => {
            let mut s = own("todo ");
            s.append(session_id.as_str());
            s.append(" n=");
            s.append(decimal_of(todos.len() as u128).as_str());
            s
        },
        StateEvent::ApprovalRequested { id, session_id, tool, .. } => {
            let mut s = own("approval_requested ");
            s.append(id.as_str());
            s.append(" ");
            s.append(session_id.as_str());
            s.append(" ");
            s.append(tool.as_str());
            s
        },
        StateEvent::ApprovalResolved { id, .. } => joined("approval_resolved ", id.as_str()),
        StateEvent::QuestionRequested { id, session_id, .. } => {
            let mut s = own("question ");
            s.append(id.as_str());
            s.append(" ");
            s.append(session_id.as_str());
            s
        },
        StateEvent::QuestionResolved { id, .. } => joined("answer ", id.as_str()),
        StateEvent::PendingSync { .. } => own("pending_sync"),
        StateEvent::LiveText { session_id, reasoning, text, .. } => {
            let mut s = own("live_text ");
            s.append(session_id.as_str());
            s.append(" r+");
            s.append(decimal_of(opt_text_len(reasoning)).as_str());
            s.append(" t+");
            s.append(decimal_of(opt_text_len(text)).as_str());
            s
        },
        StateEvent::UserMessage { session_id, text, .. } => {
            let mut s = own("user_message ");
            s.append(session_id.as_str());
            s.append(" ");
            s.append(decimal_of(text_len(text.as_str())).as_str());
            s.append(" chars");
            s
        },
        StateEvent::QueueChanged { pending, .. } => joined("queue ", decimal_of(*pending as u128).as_str()),
        StateEvent::Tick => own("tick"),
    }
}

/// The source that an event speaks of.
pub open spec fn speaks_of(e: EventModel, source: Source) -> bool {
    match e {
        EventModel::Poll { source: s, .. } => s == source,
        EventModel::SessionStatus { source: s, .. } => s == source,
        EventModel::TurnStarted { source: s, .. } => s == source,
        EventModel::TurnEnded { source: s, .. } => s == source,
        EventModel::ToolStarted { source: s, .. } => s == source,
        EventModel::ToolEnded { source: s, .. } => s == source,
        EventModel::TodoSnapshot { source: s, .. } => s == source,
        EventModel::ApprovalRequested { source: s, .. } => s == source,
        EventModel::ApprovalResolved { source: s, .. } => s == source,
        EventModel::QuestionRequested { source: s, .. } => s == source,
        EventModel::QuestionResolved { source: s, .. } => s == source,
        EventModel::LiveText { source: s, .. } => s == source,
        EventModel::UserMessage { source: s, .. } => s == source,
        EventModel::SourceHealth { source: s, .. } => s == source,
        EventModel::QueueChanged { source: s, .. } => s == source,
        EventModel::PendingSync { source: s } => s == source,
        EventModel::Tick => false,
    }
}

/// A script speaks for itself only: every event that its calls report is its
/// own.
pub proof fn law_script_speaks_for_itself(id: u16, call: ScriptCall)
    ensures
        event_of(id, call) matches Ok(e) ==> speaks_of(e, Source::Script(id)),
{
}

/// Scripts do not collide: two ids are the same for the state machine only
/// where the same script used the same id.
pub proof fn law_scripts_do_not_collide(i: u16, j: u16, a: Seq<char>, b: Seq<char>)
    requires
        prefixed(i, a) == prefixed(j, b),
    ensures
        i == j,
        a == b,
{
    reveal_strlit("script-");
    reveal_strlit("-");
    lemma_decimal(i as nat);
    lemma_decimal(j as nat);
    let x = decimal(i as nat);
    let y = decimal(j as nat);
    let s = prefixed(i, a);
    let t = prefixed(j, b);
    assert(s[7int + x.len()] == '-');
    assert(t[7int + y.len()] == '-');
    if x.len() < y.len() {
        assert(t[7int + x.len()] == y[x.len() as int]);
        assert(crate::text::is_digit(y[x.len() as int]));
    } else if y.len() < x.len() {
        assert(s[7int + y.len()] == x[y.len() as int]);
        assert(crate::text::is_digit(x[y.len() as int]));
    }
    assert forall|k: int| 0 <= k < x.len() implies x[k] == y[k] by {
        assert(s[7 + k] == x[k]);
        assert(t[7 + k] == y[k]);
    }
    assert(x =~= y);
    assert(s.len() == 8 + x.len() + a.len());
    assert(t.len() == 8 + y.len() + b.len());
    assert forall|k: int| 0 <= k < a.len() implies a[k] == b[k] by {
        assert(s[8 + x.len() + k] == a[k]);
        assert(t[8 + x.len() + k] == b[k]);
    }
    assert(a =~= b);
}

/// A script that has ended does not keep the user waiting: nothing that it had
/// asked for is pending any more.
pub proof fn law_ended_script_asks_nothing(m: PetModel, id: u16, stage: Stage, key: Seq<char>)
    requires
        stage is Returned || stage is Failed,
    ensures
        ({
            let evs = stage_events(id, stage);
            let n = m.step(evs[0]).step(evs[1]);
            &&& evs.len() == 2
            &&& n.approvals.contains_key(key) ==> n.approvals[key].source != Source::Script(id)
            &&& n.questions.contains_key(key) ==> n.questions[key].source != Source::Script(id)
        }),
{
}

/// A sandboxed script reaches nothing outside itself.
pub proof fn law_sandbox_reaches_nothing(call: Reach, url: Seq<char>)
    ensures
        target_of(call, true, url) is Err,
{
}

} // verus!
