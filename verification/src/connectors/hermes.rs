//! The chat client: a database whose sessions and latest messages are polled.
//!
//! The caller runs the queries; the rows they give are turned into events here.

use vstd::prelude::*;
use vstd::string::*;

use crate::event::{events_of, items_of, EventModel, ItemModel, SessionItem, Source, StateEvent, TurnEndReason};
use crate::json::{
    as_array, as_str, at, json_in_text, jsons_of, parse_text, str_or_empty, val, Json, JsonModel,
};
use crate::ordmap::{kept, lemma_ordered_exists, ordered, Keep, OrdMap};
use crate::state::within;
use crate::text::{
    after_prefix, chars_of, clone_opt, contains_text, has_text, opt_text, own, same_text, string_of_range,
    strip_prefix, trim, trimmed,
};

verus! {

/// A session that was not active for this long is not running, though it has no end.
pub const FRESHNESS_MS: u64 = 600_000;

/// Sessions that ended longer ago than this are not looked at.
pub const LOOKBACK_SECS: i64 = 7200;

/// Longest preview of a tool's result.
pub const PREVIEW_CHARS: usize = 160;

/// A row of the table of sessions. Times are in seconds.
pub struct SessionRow {
    pub id: String,
    pub title: Option<String>,
    pub ended_at: Option<i64>,
    pub end_reason: Option<String>,
    pub last_active: Option<i64>,
}

/// Model of a [`SessionRow`].
pub struct SessionRowModel {
    pub id: Seq<char>,
    pub title: Option<Seq<char>>,
    pub ended_at: Option<i64>,
    pub end_reason: Option<Seq<char>>,
    pub last_active: Option<i64>,
}

impl View for SessionRow {
    type V = SessionRowModel;

    open spec fn view(&self) -> SessionRowModel {
        SessionRowModel {
            id: self.id@,
            title: opt_text(self.title),
            ended_at: self.ended_at,
            end_reason: opt_text(self.end_reason),
            last_active: self.last_active,
        }
    }
}

/// The latest message of a session.
pub struct MessageRow {
    pub id: i64,
    pub role: String,
    pub tool_name: Option<String>,
    pub content: Option<String>,
    pub display_content: Option<String>,
    pub reasoning_content: Option<String>,
    pub reasoning: Option<String>,
    pub tool_calls: Option<String>,
    pub finish_reason: Option<String>,
    pub tool_call_id: Option<String>,
}

/// Model of a [`MessageRow`].
pub struct MessageModel {
    pub id: i64,
    pub role: Seq<char>,
    pub tool_name: Option<Seq<char>>,
    pub content: Option<Seq<char>>,
    pub display_content: Option<Seq<char>>,
    pub reasoning_content: Option<Seq<char>>,
    pub reasoning: Option<Seq<char>>,
    pub tool_calls: Option<Seq<char>>,
    pub finish_reason: Option<Seq<char>>,
    pub tool_call_id: Option<Seq<char>>,
}

impl View for MessageRow {
    type V = MessageModel;

    open spec fn view(&self) -> MessageModel {
        MessageModel {
            id: self.id,
            role: self.role@,
            tool_name: opt_text(self.tool_name),
            content: opt_text(self.content),
            display_content: opt_text(self.display_content),
            reasoning_content: opt_text(self.reasoning_content),
            reasoning: opt_text(self.reasoning),
            tool_calls: opt_text(self.tool_calls),
            finish_reason: opt_text(self.finish_reason),
            tool_call_id: opt_text(self.tool_call_id),
        }
    }
}

/// The first of two texts that is there, or an empty one.
pub open spec fn first_text(a: Option<Seq<char>>, b: Option<Seq<char>>) -> Seq<char> {
    match a {
        Some(s) => s,
        None => match b {
            Some(s) => s,
            None => Seq::empty(),
        },
    }
}

impl MessageModel {
    /// What the message says.
    pub open spec fn text(self) -> Seq<char> {
        first_text(self.display_content, self.content)
    }

    /// What the model thought.
    pub open spec fn thoughts(self) -> Seq<char> {
        first_text(self.reasoning_content, self.reasoning)
    }
}

/// A question that waits for the user.
#[derive(Debug, Clone)]
pub struct Question {
    /// The call that asks it.
    pub call_id: String,
    pub text: String,
}

impl View for Question {
    type V = (Seq<char>, Seq<char>);

    open spec fn view(&self) -> (Seq<char>, Seq<char>) {
        (self.call_id@, self.text@)
    }
}

/// Model of an optional question.
pub open spec fn opt_question(o: Option<Question>) -> Option<(Seq<char>, Seq<char>)> {
    match o {
        Some(q) => Some(q@),
        None => None,
    }
}

/// What is remembered of a session between two polls.
pub struct PrevSession {
    pub running: bool,
    pub turn: u64,
    pub last_msg_id: i64,
    pub last_content: Option<String>,
    pub last_reasoning: Option<String>,
    pub pending_tool: Option<String>,
    pub pending_question: Option<Question>,
    pub title: Option<String>,
}

/// Model of a [`PrevSession`].
pub struct PrevModel {
    pub running: bool,
    pub turn: u64,
    pub last_msg_id: i64,
    pub last_content: Option<Seq<char>>,
    pub last_reasoning: Option<Seq<char>>,
    pub pending_tool: Option<Seq<char>>,
    pub pending_question: Option<(Seq<char>, Seq<char>)>,
    pub title: Option<Seq<char>>,
}

impl View for PrevSession {
    type V = PrevModel;

    open spec fn view(&self) -> PrevModel {
        PrevModel {
            running: self.running,
            turn: self.turn,
            last_msg_id: self.last_msg_id,
            last_content: opt_text(self.last_content),
            last_reasoning: opt_text(self.last_reasoning),
            pending_tool: opt_text(self.pending_tool),
            pending_question: opt_question(self.pending_question),
            title: opt_text(self.title),
        }
    }
}

impl PrevModel {
    /// A session that was never seen.
    pub open spec fn fresh() -> PrevModel {
        PrevModel {
            running: false,
            turn: 0,
            last_msg_id: 0,
            last_content: None,
            last_reasoning: None,
            pending_tool: None,
            pending_question: None,
            title: None,
        }
    }
}

impl Default for PrevSession {
    fn default() -> (r: Self)
        ensures
            r@ == PrevModel::fresh(),
    {
        PrevSession {
            running: false,
            turn: 0,
            last_msg_id: 0,
            last_content: None,
            last_reasoning: None,
            pending_tool: None,
            pending_question: None,
            title: None,
        }
    }
}

/// A poll in progress, and what is remembered between polls.
pub struct HermesPoll {
    pub prev: OrdMap<String, PrevSession>,
    /// Events to send.
    pub evs: Vec<StateEvent>,
    /// The sessions that the poll reports.
    pub items: Vec<SessionItem>,
    /// Some session is running.
    pub any_running: bool,
}

/// Model of a [`HermesPoll`].
#[verifier::ext_equal]
pub struct PollModel {
    pub prev: Map<Seq<char>, PrevModel>,
    pub evs: Seq<EventModel>,
    pub items: Seq<ItemModel>,
    pub any_running: bool,
}

impl View for HermesPoll {
    type V = PollModel;

    open spec fn view(&self) -> PollModel {
        PollModel {
            prev: self.prev@,
            evs: events_of(self.evs@),
            items: items_of(self.items@),
            any_running: self.any_running,
        }
    }
}

/// The session was active a short while ago.
pub open spec fn is_fresh(now_ms: u64, last_active: Option<i64>) -> bool {
    match last_active {
        Some(la) => {
            let s = la as u64;
            within(
                now_ms,
                if s * 1000 > u64::MAX {
                    u64::MAX
                } else {
                    (s * 1000) as u64
                },
                FRESHNESS_MS,
            )
        },
        None => false,
    }
}

/// The session is running: it has no end, and was active a short while ago.
pub open spec fn row_runs(now_ms: u64, row: SessionRowModel) -> bool {
    row.ended_at is None && is_fresh(now_ms, row.last_active)
}

/// How a session ended, by the reason it gives.
pub open spec fn end_reason_of(reason: Option<Seq<char>>) -> TurnEndReason {
    if reason == Some("complete"@) || reason == Some("completed"@) {
        TurnEndReason::Completed
    } else if reason == Some("error"@) || reason == Some("failed"@) {
        TurnEndReason::Error
    } else {
        TurnEndReason::Aborted
    }
}

/// The events that close a running session: its tool, its question, its turn.
pub open spec fn closing(id: Seq<char>, p: PrevModel, reason: TurnEndReason) -> Seq<EventModel> {
    (match p.pending_tool {
        Some(t) => seq![EventModel::ToolEnded { source: Source::Hermes, session_id: id, name: t, error: false }],
        None => Seq::empty(),
    }) + (match p.pending_question {
        Some(q) => seq![EventModel::QuestionResolved { source: Source::Hermes, id: q.0 }],
        None => Seq::empty(),
    }) + seq![
        EventModel::TurnEnded { source: Source::Hermes, session_id: id, turn: p.turn, reason },
        EventModel::SessionStatus { source: Source::Hermes, session_id: id, running: false },
    ]
}

impl PollModel {
    /// What is remembered of a session.
    pub open spec fn session(self, id: Seq<char>) -> PrevModel {
        if self.prev.contains_key(id) {
            self.prev[id]
        } else {
            PrevModel::fresh()
        }
    }

    /// A poll starts.
    pub open spec fn begun(self) -> PollModel {
        PollModel { evs: Seq::empty(), items: Seq::empty(), any_running: false, ..self }
    }

    /// A session was read: its turn starts or ends where it started or stopped running.
    pub open spec fn session_read(self, now_ms: u64, row: SessionRowModel) -> PollModel {
        let running = row_runs(now_ms, row);
        let p = PrevModel { title: row.title, ..self.session(row.id) };
        let (q, evs) = if running && !p.running {
            (
                PrevModel { running: true, turn: (p.turn + 1) as u64, pending_tool: None, ..p },
                seq![
                    EventModel::TurnStarted {
                        source: Source::Hermes,
                        session_id: row.id,
                        turn: (p.turn + 1) as u64,
                    },
                ],
            )
        } else if !running && p.running {
            (
                PrevModel { running: false, pending_tool: None, pending_question: None, ..p },
                closing(row.id, p, end_reason_of(row.end_reason)),
            )
        } else {
            (p, Seq::empty())
        };
        PollModel {
            prev: self.prev.insert(row.id, q),
            evs: self.evs + evs,
            items: self.items.push(
                ItemModel { session_id: row.id, running, title: row.title, todos: None },
            ),
            any_running: self.any_running || running,
        }
    }

    /// The latest message of a session was read.
    pub open spec fn message_read(
        self,
        id: Seq<char>,
        row: MessageModel,
        clarify: Option<(Seq<char>, Seq<char>)>,
        preview: Option<Seq<char>>,
    ) -> PollModel {
        let step = message_step(self.session(id), id, row, clarify, preview);
        PollModel { prev: self.prev.insert(id, step.0), evs: self.evs + step.1, ..self }
    }

    /// The poll read this session.
    pub open spec fn has_read(self, id: Seq<char>) -> bool {
        exists|i: int| 0 <= i < self.items.len() && (#[trigger] self.items[i]).session_id == id
    }

    /// All sessions were read: those that vanished are closed, and the poll is reported.
    pub open spec fn ended(self) -> PollModel {
        PollModel {
            prev: kept(self.prev, |id: Seq<char>, p: PrevModel| self.has_read(id)),
            evs: (self.evs + gone_events(self, ordered::<String>(self.prev.dom()))).push(
                EventModel::Poll { source: Source::Hermes, items: self.items, ok: true, error: None },
            ),
            ..self
        }
    }
}

/// The events that close the running sessions among `ks` that the poll did not read.
pub open spec fn gone_events(m: PollModel, ks: Seq<Seq<char>>) -> Seq<EventModel>
    decreases ks.len(),
{
    if ks.len() == 0 {
        Seq::empty()
    } else {
        let rest = gone_events(m, ks.drop_last());
        let id = ks.last();
        if !m.has_read(id) && m.prev[id].running {
            rest + closing(id, m.prev[id], TurnEndReason::Aborted)
        } else {
            rest
        }
    }
}

/// The text that was added behind `before`; all of it where it is another text.
pub open spec fn added(text: Seq<char>, before: Option<Seq<char>>) -> Seq<char> {
    match after_prefix(
        text,
        match before {
            Some(b) => b,
            None => Seq::empty(),
        },
    ) {
        Some(t) => t,
        None => text,
    }
}

/// Nothing, in place of an empty text.
pub open spec fn nonempty(s: Seq<char>) -> Option<Seq<char>> {
    if s.len() == 0 {
        None
    } else {
        Some(s)
    }
}

/// The question of a session after its latest message: an answer, or another
/// message in its place, resolves it; a new question opens.
pub open spec fn question_step(
    p: PrevModel,
    id: Seq<char>,
    row: MessageModel,
    clarify: Option<(Seq<char>, Seq<char>)>,
) -> (PrevModel, Seq<EventModel>) {
    let closes = p.pending_question matches Some(q) && ((row.role == "tool"@ && row.tool_call_id == Some(q.0)) || !(
    clarify matches Some(c) && c.0 == q.0));
    let (p1, e1) = if closes {
        (
            PrevModel { pending_question: None, ..p },
            seq![EventModel::QuestionResolved { source: Source::Hermes, id: (p.pending_question->0).0 }],
        )
    } else {
        (p, Seq::empty())
    };
    match clarify {
        Some(c) => if p1.pending_question is None {
            (
                PrevModel { pending_question: Some(c), ..p1 },
                e1.push(
                    EventModel::QuestionRequested {
                        source: Source::Hermes,
                        id: c.0,
                        session_id: id,
                        text: c.1,
                    },
                ),
            )
        } else {
            (p1, e1)
        },
        None => (p1, e1),
    }
}

/// The end of the tool that was shown.
pub open spec fn end_tool(p: PrevModel, id: Seq<char>) -> Seq<EventModel> {
    match p.pending_tool {
        Some(t) => seq![EventModel::ToolEnded { source: Source::Hermes, session_id: id, name: t, error: false }],
        None => Seq::empty(),
    }
}

/// A session after its latest message, and the events that the message gives.
pub open spec fn message_step(
    p: PrevModel,
    id: Seq<char>,
    row: MessageModel,
    clarify: Option<(Seq<char>, Seq<char>)>,
    preview: Option<Seq<char>>,
) -> (PrevModel, Seq<EventModel>) {
    let text = row.text();
    let thoughts = row.thoughts();
    if row.id == p.last_msg_id && p.last_content == Some(text) && p.last_reasoning == Some(thoughts) {
        (p, Seq::empty())
    } else {
        let (q, e) = question_step(
            PrevModel { last_msg_id: row.id, last_content: Some(text), last_reasoning: Some(thoughts), ..p },
            id,
            row,
            clarify,
        );
        if row.role == "tool"@ {
            match row.tool_name {
                Some(name) => if name.len() == 0 || name == "clarify"@ || q.pending_tool == Some(name) {
                    (q, e)
                } else {
                    (
                        PrevModel { pending_tool: Some(name), ..q },
                        (e + end_tool(q, id)).push(
                            EventModel::ToolStarted {
                                source: Source::Hermes,
                                session_id: id,
                                name,
                                arguments: preview,
                            },
                        ),
                    )
                },
                None => (q, e),
            }
        } else {
            let r = PrevModel { pending_tool: None, ..q };
            let f = e + end_tool(q, id);
            if row.role == "user"@ && text.len() > 0 {
                (r, f.push(EventModel::UserMessage { source: Source::Hermes, session_id: id, text }))
            } else if row.id == p.last_msg_id {
                let t = nonempty(added(text, p.last_content));
                let th = nonempty(added(thoughts, p.last_reasoning));
                if t is None && th is None {
                    (r, f)
                } else {
                    (r, f.push(live(id, th, t)))
                }
            } else {
                (r, f.push(live(id, nonempty(thoughts), nonempty(text))))
            }
        }
    }
}

/// Text that streamed in.
pub open spec fn live(id: Seq<char>, reasoning: Option<Seq<char>>, text: Option<Seq<char>>) -> EventModel {
    EventModel::LiveText { source: Source::Hermes, session_id: id, reasoning, text, tool_name: None }
}

/// The choices of a question, joined by slashes.
pub open spec fn choices_in(v: Seq<JsonModel>) -> Seq<char>
    decreases v.len(),
{
    if v.len() == 0 {
        Seq::empty()
    } else {
        let rest = choices_in(v.drop_last());
        match v.last().as_str() {
            Some(s) => if has_choice(v.drop_last()) {
                rest + " / "@ + s
            } else {
                s
            },
            None => rest,
        }
    }
}

/// Some element is a text.
pub open spec fn has_choice(v: Seq<JsonModel>) -> bool {
    exists|i: int| 0 <= i < v.len() && (#[trigger] v[i]).as_str() is Some
}

/// The wording of a question, by the arguments of the call that asks it.
pub open spec fn question_in(args: JsonModel) -> Seq<char> {
    let q = args.at("question"@).str_or_empty();
    let choices = args.at("choices"@).elements();
    let text = if !has_choice(choices) {
        q
    } else if q.len() == 0 {
        choices_in(choices)
    } else {
        (q + "（"@ + choices_in(choices)).push('）')
    };
    if trimmed(text).len() == 0 {
        "等待你确认…"@
    } else {
        text
    }
}

/// The arguments of a call, where they are JSON.
pub open spec fn call_args(call: JsonModel) -> JsonModel {
    match json_in_text(call.at("function"@).at("arguments"@).str_or_empty()) {
        Some(v) => v,
        None => JsonModel::Null,
    }
}

/// The call asks the user something.
pub open spec fn asks(call: JsonModel) -> bool {
    call.at("function"@).at("name"@).as_str() == Some("clarify"@) && call.at("id"@).str_or_empty().len() > 0
}

/// The first call that asks the user something.
pub open spec fn first_clarify(v: Seq<JsonModel>) -> Option<(Seq<char>, Seq<char>)>
    decreases v.len(),
{
    if v.len() == 0 {
        None
    } else if asks(v[0]) {
        Some((v[0].at("id"@).str_or_empty(), question_in(call_args(v[0]))))
    } else {
        first_clarify(v.drop_first())
    }
}

/// The question that a message leaves open.
pub open spec fn clarify_of(tool_calls: Option<Seq<char>>, finish_reason: Option<Seq<char>>) -> Option<
    (Seq<char>, Seq<char>),
> {
    if finish_reason matches Some(f) && has_text(f, "tool_calls"@) {
        match tool_calls {
            Some(t) => match json_in_text(t) {
                Some(v) => first_clarify(v.elements()),
                None => None,
            },
            None => None,
        }
    } else {
        None
    }
}

/// The first characters of a tool's result: its output, where it has one.
pub open spec fn preview_in(content: Seq<char>, parsed: Option<JsonModel>) -> Option<Seq<char>> {
    let out = match parsed {
        Some(v) => match v.at("output"@).as_str() {
            Some(s) => s,
            None => content,
        },
        None => content,
    };
    nonempty(
        if out.len() > PREVIEW_CHARS {
            out.take(PREVIEW_CHARS as int)
        } else {
            out
        },
    )
}

fn join_choices(v: &Vec<Json>) -> (r: Option<String>)
    ensures
        r is Some == has_choice(jsons_of(v@)),
        r matches Some(s) ==> s@ == choices_in(jsons_of(v@)),
{
    let ghost m = jsons_of(v@);
    let mut out: Option<String> = None;
    let mut i: usize = 0;
    while i < v.len()
        invariant
            i <= v@.len(),
            m == jsons_of(v@),
            out is Some == has_choice(m.take(i as int)),
            out matches Some(s) ==> s@ == choices_in(m.take(i as int)),
        decreases v@.len() - i,
    {
        let ghost t = m.take(i as int);
        let ghost u = m.take(i as int + 1);
        proof {
            assert(u.drop_last() =~= t);
            assert(u.last() == v@[i as int]@);
            if has_choice(t) {
                let k = choose|k: int| 0 <= k < t.len() && (#[trigger] t[k]).as_str() is Some;
                assert(u[k].as_str() is Some);
            }
            if has_choice(u) {
                let k = choose|k: int| 0 <= k < u.len() && (#[trigger] u[k]).as_str() is Some;
                if k < i {
                    assert(t[k].as_str() is Some);
                }
            }
            if v@[i as int]@.as_str() is Some {
                assert(u[i as int].as_str() is Some);
            }
        }
        if let Some(s) = as_str(Some(&v[i])) {
            out = match out {
                Some(mut x) => {
                    x.append(" / ");
                    x.append(s);
                    Some(x)
                },
                None => Some(own(s)),
            };
        }
        i += 1;
    }
    assert(m.take(i as int) =~= m);
    out
}

/// The wording of a question, by the arguments of the call that asks it.
pub fn question_text(args: Option<&Json>) -> (r: String)
    ensures
        r@ == question_in(val(args)),
{
    let mut text = str_or_empty(at(args, "question"));
    if let Some(v) = as_array(at(args, "choices")) {
        if let Some(c) = join_choices(v) {
            if text.as_str().is_empty() {
                text = c;
            } else {
                text.append("（");
                text.append(c.as_str());
                text.push('）');
            }
        }
    }
    if trim(text.as_str()).as_str().is_empty() {
        own("等待你确认…")
    } else {
        text
    }
}

fn find_clarify(v: &Vec<Json>) -> (r: Option<Question>)
    ensures
        opt_question(r) == first_clarify(jsons_of(v@)),
{
    let ghost m = jsons_of(v@);
    let mut i: usize = 0;
    assert(m.subrange(0, m.len() as int) =~= m);
    while i < v.len()
        invariant
            i <= v@.len(),
            m == jsons_of(v@),
            first_clarify(m) == first_clarify(m.subrange(i as int, m.len() as int)),
        decreases v@.len() - i,
    {
        proof {
            let t = m.subrange(i as int, m.len() as int);
            assert(t[0] == v@[i as int]@);
            assert(t.drop_first() =~= m.subrange(i as int + 1, m.len() as int));
        }
        let call = Some(&v[i]);
        let f = at(call, "function");
        let named = match as_str(at(f, "name")) {
            Some(n) => same_text(n, "clarify"),
            None => false,
        };
        let call_id = str_or_empty(at(call, "id"));
        if named && !call_id.as_str().is_empty() {
            let raw = str_or_empty(at(f, "arguments"));
            let text = match parse_text(raw.as_str()) {
                Some(args) => question_text(Some(&args)),
                None => question_text(None),
            };
            return Some(Question { call_id, text });
        }
        i += 1;
    }
    None
}

/// The question that a message leaves open: the call of it that asks the user
/// something, in a message that ends with calls.
pub fn pending_clarify(tool_calls: Option<&str>, finish_reason: Option<&str>) -> (r: Option<Question>)
    ensures
        opt_question(r) == clarify_of(
            crate::bubble_text::opt_str(tool_calls),
            crate::bubble_text::opt_str(finish_reason),
        ),
{
    match finish_reason {
        Some(f) => {
            if !contains_text(f, "tool_calls") {
                return None;
            }
        },
        None => {
            return None;
        },
    }
    match tool_calls {
        None => None,
        Some(t) => match parse_text(t) {
            None => None,
            Some(v) => match as_array(Some(&v)) {
                Some(calls) => find_clarify(calls),
                None => None,
            },
        },
    }
}

/// The preview of a tool's result, by what its content parses to.
pub fn preview_of(content: &str, parsed: Option<&Json>) -> (r: Option<String>)
    ensures
        opt_text(r) == preview_in(
            content@,
            match parsed {
                Some(j) => Some(j@),
                None => None,
            },
        ),
{
    let out = match as_str(at(parsed, "output")) {
        Some(s) => own(s),
        None => own(content),
    };
    let v = chars_of(out.as_str());
    let n: usize = if v.len() > PREVIEW_CHARS {
        PREVIEW_CHARS
    } else {
        v.len()
    };
    let t = string_of_range(&v, 0, n);
    assert(t@ =~= if out@.len() > PREVIEW_CHARS {
        out@.take(PREVIEW_CHARS as int)
    } else {
        out@
    });
    if t.as_str().is_empty() {
        None
    } else {
        Some(t)
    }
}

/// The preview of a tool's result: the output that its content holds, or the
/// content itself; at most [`PREVIEW_CHARS`] characters.
pub fn tool_content_preview(content: &str) -> (r: Option<String>)
    ensures
        opt_text(r) == preview_in(content@, json_in_text(content@)),
{
    match parse_text(content) {
        Some(v) => preview_of(content, Some(&v)),
        None => preview_of(content, None),
    }
}

fn or_empty(a: &Option<String>, b: &Option<String>) -> (r: String)
    ensures
        r@ == first_text(opt_text(*a), opt_text(*b)),
{
    match a {
        Some(s) => s.clone(),
        None => match b {
            Some(s) => s.clone(),
            None => String::new(),
        },
    }
}

fn is_text(o: &Option<String>, s: &str) -> (r: bool)
    ensures
        r == (opt_text(*o) == Some(s@)),
{
    match o {
        Some(t) => same_text(t.as_str(), s),
        None => false,
    }
}

fn unless_empty(s: String) -> (r: Option<String>)
    ensures
        opt_text(r) == nonempty(s@),
{
    if s.as_str().is_empty() {
        None
    } else {
        Some(s)
    }
}

fn added_text(text: &String, before: &Option<String>) -> (r: String)
    ensures
        r@ == added(text@, opt_text(*before)),
{
    let stripped = match before {
        Some(b) => strip_prefix(text.as_str(), b.as_str()),
        None => strip_prefix(text.as_str(), ""),
    };
    proof {
        reveal_strlit("");
        assert(""@ =~= Seq::<char>::empty());
    }
    match stripped {
        Some(t) => t,
        None => text.clone(),
    }
}

/// Whether a session is running.
fn runs(now_ms: u64, row: &SessionRow) -> (r: bool)
    ensures
        r == row_runs(now_ms, row@),
{
    let fresh = match row.last_active {
        Some(la) => {
            let s: u64 = la as u64;
            let ms: u64 = match s.checked_mul(1000) {
                Some(m) => m,
                None => u64::MAX,
            };
            now_ms.saturating_sub(ms) < FRESHNESS_MS
        },
        None => false,
    };
    row.ended_at.is_none() && fresh
}

fn ended_how(reason: &Option<String>) -> (r: TurnEndReason)
    ensures
        r == end_reason_of(opt_text(*reason)),
{
    if is_text(reason, "complete") || is_text(reason, "completed") {
        TurnEndReason::Completed
    } else if is_text(reason, "error") || is_text(reason, "failed") {
        TurnEndReason::Error
    } else {
        TurnEndReason::Aborted
    }
}

fn push_event(evs: &mut Vec<StateEvent>, ev: StateEvent)
    ensures
        events_of(final(evs)@) == events_of(old(evs)@).push(ev@),
{
    let ghost before = evs@;
    evs.push(ev);
    assert(events_of(evs@) =~= events_of(before).push(ev@));
}

/// Closes a session that was running: its tool, its question and its turn.
fn close_session(id: &String, p: &mut PrevSession, reason: TurnEndReason, evs: &mut Vec<StateEvent>)
    ensures
        final(p)@ == (PrevModel { pending_tool: None, pending_question: None, ..old(p)@ }),
        events_of(final(evs)@) == events_of(old(evs)@) + closing(id@, old(p)@, reason),
{
    let ghost e0 = events_of(evs@);
    let ghost p0 = p@;
    if let Some(t) = p.pending_tool.take() {
        push_event(
            evs,
            StateEvent::ToolEnded { source: Source::Hermes, session_id: id.clone(), name: t, error: false },
        );
    }
    if let Some(q) = p.pending_question.take() {
        push_event(evs, StateEvent::QuestionResolved { source: Source::Hermes, id: q.call_id });
    }
    push_event(
        evs,
        StateEvent::TurnEnded { source: Source::Hermes, session_id: id.clone(), turn: p.turn, reason },
    );
    push_event(
        evs,
        StateEvent::SessionStatus { source: Source::Hermes, session_id: id.clone(), running: false },
    );
    assert(events_of(evs@) =~= e0 + closing(id@, p0, reason));
}

/// The question of a session after its latest message.
fn step_question(p: &mut PrevSession, id: &String, row: &MessageRow, clarify: Option<Question>, evs: &mut Vec<StateEvent>)
    ensures
        ({
            let s = question_step(old(p)@, id@, row@, opt_question(clarify));
            &&& final(p)@ == s.0
            &&& events_of(final(evs)@) == events_of(old(evs)@) + s.1
        }),
{
    let ghost e0 = events_of(evs@);
    let ghost p0 = p@;
    let mut closes = false;
    if let Some(q) = &p.pending_question {
        let answered = same_text(row.role.as_str(), "tool") && is_text(&row.tool_call_id, q.call_id.as_str());
        let same = match &clarify {
            Some(c) => same_text(c.call_id.as_str(), q.call_id.as_str()),
            None => false,
        };
        closes = answered || !same;
    }
    if closes {
        if let Some(q) = p.pending_question.take() {
            push_event(evs, StateEvent::QuestionResolved { source: Source::Hermes, id: q.call_id });
        }
    }
    if p.pending_question.is_none() {
        if let Some(c) = clarify {
            push_event(
                evs,
                StateEvent::QuestionRequested {
                    source: Source::Hermes,
                    id: c.call_id.clone(),
                    session_id: id.clone(),
                    text: c.text.clone(),
                },
            );
            p.pending_question = Some(c);
        }
    }
    proof {
        let s = question_step(p0, id@, row@, opt_question(clarify));
        assert(events_of(evs@) =~= e0 + s.1);
    }
}

/// A session after its latest message.
fn step_message(
    p: &mut PrevSession,
    id: &String,
    row: &MessageRow,
    clarify: Option<Question>,
    preview: Option<String>,
    evs: &mut Vec<StateEvent>,
)
    ensures
        ({
            let s = message_step(old(p)@, id@, row@, opt_question(clarify), opt_text(preview));
            &&& final(p)@ == s.0
            &&& events_of(final(evs)@) == events_of(old(evs)@) + s.1
        }),
{
    let ghost e0 = events_of(evs@);
    let ghost p0 = p@;
    let ghost s = message_step(p0, id@, row@, opt_question(clarify), opt_text(preview));
    let text = or_empty(&row.display_content, &row.content);
    let thoughts = or_empty(&row.reasoning_content, &row.reasoning);
    if row.id == p.last_msg_id && is_text(&p.last_content, text.as_str()) && is_text(
        &p.last_reasoning,
        thoughts.as_str(),
    ) {
        assert(events_of(evs@) =~= e0 + s.1);
        return;
    }
    let same_msg = row.id == p.last_msg_id;
    let dtext = added_text(&text, &p.last_content);
    let dthoughts = added_text(&thoughts, &p.last_reasoning);
    p.last_msg_id = row.id;
    p.last_content = Some(text.clone());
    p.last_reasoning = Some(thoughts.clone());
    step_question(p, id, row, clarify, evs);
    let ghost e1 = events_of(evs@);
    let ghost p1 = p@;
    if same_text(row.role.as_str(), "tool") {
        if let Some(name) = &row.tool_name {
            if !name.as_str().is_empty() && !same_text(name.as_str(), "clarify") && !is_text(
                &p.pending_tool,
                name.as_str(),
            ) {
                if let Some(t) = p.pending_tool.take() {
                    push_event(
                        evs,
                        StateEvent::ToolEnded {
                            source: Source::Hermes,
                            session_id: id.clone(),
                            name: t,
                            error: false,
                        },
                    );
                }
                p.pending_tool = Some(name.clone());
                push_event(
                    evs,
                    StateEvent::ToolStarted {
                        source: Source::Hermes,
                        session_id: id.clone(),
                        name: name.clone(),
                        arguments: preview,
                    },
                );
            }
        }
        assert(events_of(evs@) =~= e0 + s.1);
        return;
    }
    if let Some(t) = p.pending_tool.take() {
        push_event(
            evs,
            StateEvent::ToolEnded { source: Source::Hermes, session_id: id.clone(), name: t, error: false },
        );
    }
    if same_text(row.role.as_str(), "user") && !text.as_str().is_empty() {
        push_event(evs, StateEvent::UserMessage { source: Source::Hermes, session_id: id.clone(), text });
        assert(events_of(evs@) =~= e0 + s.1);
        return;
    }
    if same_msg {
        let t = unless_empty(dtext);
        let th = unless_empty(dthoughts);
        if t.is_some() || th.is_some() {
            push_event(
                evs,
                StateEvent::LiveText {
                    source: Source::Hermes,
                    session_id: id.clone(),
                    reasoning: th,
                    text: t,
                    tool_name: None,
                },
            );
        }
        assert(events_of(evs@) =~= e0 + s.1);
        return;
    }
    push_event(
        evs,
        StateEvent::LiveText {
            source: Source::Hermes,
            session_id: id.clone(),
            reasoning: unless_empty(thoughts),
            text: unless_empty(text),
            tool_name: None,
        },
    );
    assert(events_of(evs@) =~= e0 + s.1);
}

/// Sessions that the poll read.
struct WasRead<'a> {
    items: &'a Vec<SessionItem>,
}

impl<'a> Keep<String, PrevSession> for WasRead<'a> {
    closed spec fn keep(&self, id: Seq<char>, p: PrevModel) -> bool {
        exists|i: int| 0 <= i < items_of(self.items@).len() && (#[trigger] items_of(self.items@)[i]).session_id == id
    }

    fn keeps(&self, id: &String, p: &PrevSession) -> (r: bool) {
        is_item(self.items, id)
    }
}

fn is_item(items: &Vec<SessionItem>, id: &String) -> (r: bool)
    ensures
        r == exists|i: int| 0 <= i < items_of(items@).len() && (#[trigger] items_of(items@)[i]).session_id == id@,
{
    let ghost m = items_of(items@);
    let mut i: usize = 0;
    while i < items.len()
        invariant
            i <= items@.len(),
            m == items_of(items@),
            forall|j: int| 0 <= j < i ==> (#[trigger] m[j]).session_id != id@,
        decreases items@.len() - i,
    {
        assert(m[i as int] == items@[i as int]@);
        if same_text(items[i].session_id.as_str(), id.as_str()) {
            return true;
        }
        i += 1;
    }
    false
}

impl HermesPoll {
    /// Nothing has been polled.
    pub fn new() -> (r: Self)
        ensures
            r@ == (PollModel {
                prev: Map::empty(),
                evs: Seq::empty(),
                items: Seq::empty(),
                any_running: false,
            }),
    {
        let r = HermesPoll { prev: OrdMap::new(), evs: Vec::new(), items: Vec::new(), any_running: false };
        assert(r@ =~= (PollModel {
            prev: Map::empty(),
            evs: Seq::empty(),
            items: Seq::empty(),
            any_running: false,
        }));
        r
    }

    /// Starts a poll.
    pub fn begin_poll(&mut self)
        ensures
            final(self)@ == old(self)@.begun(),
    {
        self.evs = Vec::new();
        self.items = Vec::new();
        self.any_running = false;
        assert(self@ =~= old(self)@.begun());
    }

    /// Whether the turns of a session can still be counted.
    pub fn has_room(&self, id: &String) -> (r: bool)
        ensures
            r == (self@.session(id@).turn < u64::MAX),
    {
        match self.prev.get(id) {
            Some(p) => p.turn < u64::MAX,
            None => true,
        }
    }

    /// Reads a session; tells whether it is running, so that its latest message
    /// is to be looked at.
    pub fn read_session(&mut self, now_ms: u64, row: &SessionRow) -> (r: bool)
        requires
            old(self)@.session(row@.id).turn < u64::MAX,
        ensures
            final(self)@ == old(self)@.session_read(now_ms, row@),
            r == row_runs(now_ms, row@),
    {
        let ghost m0 = self@;
        let running = runs(now_ms, row);
        let mut p = match self.prev.remove(&row.id) {
            Some(p) => p,
            None => PrevSession::default(),
        };
        p.title = clone_opt(&row.title);
        if running && !p.running {
            p.running = true;
            p.turn = p.turn + 1;
            p.pending_tool = None;
            push_event(
                &mut self.evs,
                StateEvent::TurnStarted { source: Source::Hermes, session_id: row.id.clone(), turn: p.turn },
            );
        } else if !running && p.running {
            p.running = false;
            close_session(&row.id, &mut p, ended_how(&row.end_reason), &mut self.evs);
        }
        if running {
            self.any_running = true;
        }
        let ghost before = self.items@;
        let item = SessionItem { session_id: row.id.clone(), running, title: clone_opt(&row.title), todos: None };
        self.items.push(item);
        assert(items_of(self.items@) =~= items_of(before).push(item@));
        self.prev.insert(row.id.clone(), p);
        assert(self@ =~= m0.session_read(now_ms, row@));
        running
    }

    /// Reads the latest message of a session, given the question it leaves open
    /// and the preview of its content.
    pub fn read_message(
        &mut self,
        id: &String,
        row: &MessageRow,
        clarify: Option<Question>,
        preview: Option<String>,
    )
        ensures
            final(self)@ == old(self)@.message_read(id@, row@, opt_question(clarify), opt_text(preview)),
    {
        let ghost m0 = self@;
        let mut p = match self.prev.remove(id) {
            Some(p) => p,
            None => PrevSession::default(),
        };
        step_message(&mut p, id, row, clarify, preview, &mut self.evs);
        self.prev.insert(id.clone(), p);
        assert(self@ =~= m0.message_read(id@, row@, opt_question(clarify), opt_text(preview)));
    }

    /// Reads the latest message of a session.
    pub fn poll_messages(&mut self, id: &String, row: &MessageRow)
        ensures
            final(self)@ == old(self)@.message_read(
                id@,
                row@,
                clarify_of(row@.tool_calls, row@.finish_reason),
                preview_in(row@.text(), json_in_text(row@.text())),
            ),
    {
        let calls = match &row.tool_calls {
            Some(s) => Some(s.as_str()),
            None => None,
        };
        let finish = match &row.finish_reason {
            Some(s) => Some(s.as_str()),
            None => None,
        };
        let clarify = pending_clarify(calls, finish);
        let text = or_empty(&row.display_content, &row.content);
        let preview = tool_content_preview(text.as_str());
        self.read_message(id, row, clarify, preview);
    }

    /// Ends a poll: sessions that vanished are closed, and the sessions that
    /// were read are reported.
    pub fn end_poll(&mut self)
        ensures
            final(self)@ == old(self)@.ended(),
    {
        let ghost m0 = self@;
        let ghost ks = ordered::<String>(m0.prev.dom());
        let n: usize = self.prev.len();
        let mut i: usize = 0;
        assert(m0.evs + gone_events(m0, ks.take(0)) =~= m0.evs);
        while i < n
            invariant
                i <= n,
                self.prev@ == m0.prev,
                items_of(self.items@) == m0.items,
                self.any_running == m0.any_running,
                ks == ordered::<String>(m0.prev.dom()),
                n == ks.len(),
                n == m0.prev.dom().len(),
                events_of(self.evs@) == m0.evs + gone_events(m0, ks.take(i as int)),
            decreases n - i,
        {
            proof {
                assert(ks.take(i as int + 1).drop_last() =~= ks.take(i as int));
                assert(ks.take(i as int + 1).last() == ks[i as int]);
            }
            let id = self.prev.key_at(i).clone();
            let p = self.prev.value_at(i);
            if p.running && !is_item(&self.items, &id) {
                let mut q = PrevSession {
                    running: p.running,
                    turn: p.turn,
                    last_msg_id: p.last_msg_id,
                    last_content: None,
                    last_reasoning: None,
                    pending_tool: clone_opt(&p.pending_tool),
                    pending_question: copy_question(&p.pending_question),
                    title: None,
                };
                let ghost e = events_of(self.evs@);
                close_session(&id, &mut q, TurnEndReason::Aborted, &mut self.evs);
                assert((m0.evs + gone_events(m0, ks.take(i as int))) + closing(
                    id@,
                    m0.prev[id@],
                    TurnEndReason::Aborted,
                ) =~= m0.evs + (gone_events(m0, ks.take(i as int)) + closing(
                    id@,
                    m0.prev[id@],
                    TurnEndReason::Aborted,
                )));
            }
            i += 1;
        }
        assert(ks.take(i as int) =~= ks);
        self.prev.retain(&WasRead { items: &self.items });
        let items = copy_items(&self.items);
        push_event(&mut self.evs, StateEvent::Poll { source: Source::Hermes, items, ok: true, error: None });
        assert(self@ =~= m0.ended());
    }
}

fn copy_question(o: &Option<Question>) -> (r: Option<Question>)
    ensures
        opt_question(r) == opt_question(*o),
{
    match o {
        Some(q) => Some(Question { call_id: q.call_id.clone(), text: q.text.clone() }),
        None => None,
    }
}

fn copy_items(v: &Vec<SessionItem>) -> (r: Vec<SessionItem>)
    ensures
        items_of(r@) == items_of(v@),
{
    let mut out: Vec<SessionItem> = Vec::new();
    let mut i: usize = 0;
    while i < v.len()
        invariant
            i <= v@.len(),
            out@.len() == i,
            forall|j: int| 0 <= j < i ==> (#[trigger] out@[j])@ == v@[j]@,
        decreases v@.len() - i,
    {
        let s = &v[i];
        let todos = match &s.todos {
            Some(t) => Some(crate::event::copy_todos(t)),
            None => None,
        };
        out.push(
            SessionItem {
                session_id: s.session_id.clone(),
                running: s.running,
                title: clone_opt(&s.title),
                todos,
            },
        );
        i += 1;
    }
    assert(items_of(out@) =~= items_of(v@));
    out
}

/// How long to wait for the next poll.
pub fn poll_wait(any_running: bool, active_ms: u64, idle_ms: u64) -> (r: u64)
    ensures
        r == if any_running {
            active_ms
        } else {
            idle_ms
        },
{
    if any_running {
        active_ms
    } else {
        idle_ms
    }
}

/// A message that did not change gives nothing.
pub proof fn law_unchanged_message(
    p: PrevModel,
    id: Seq<char>,
    row: MessageModel,
    clarify: Option<(Seq<char>, Seq<char>)>,
    preview: Option<Seq<char>>,
)
    ensures
        ({
            let once = message_step(p, id, row, clarify, preview);
            let again = message_step(once.0, id, row, clarify, preview);
            again.0 == once.0 && again.1.len() == 0
        }),
{
}

/// A message that grows gives only what was added.
pub proof fn law_growing_message(text: Seq<char>, more: Seq<char>)
    ensures
        added(text + more, Some(text)) == more,
{
    assert((text + more).take(text.len() as int) =~= text);
    assert((text + more).skip(text.len() as int) =~= more);
}

/// The question that a session leaves behind is resolved when the session
/// closes.
pub proof fn law_close_resolves_question(id: Seq<char>, p: PrevModel, reason: TurnEndReason)
    requires
        p.pending_question is Some,
    ensures
        closing(id, p, reason).contains(
            EventModel::QuestionResolved { source: Source::Hermes, id: (p.pending_question->0).0 },
        ),
{
    let c = closing(id, p, reason);
    let e = EventModel::QuestionResolved { source: Source::Hermes, id: (p.pending_question->0).0 };
    let i: int = if p.pending_tool is Some { 1 } else { 0 };
    assert(c[i] == e);
}

/// The answer to a question resolves it.
pub proof fn law_answer_resolves(p: PrevModel, id: Seq<char>, row: MessageModel)
    requires
        p.pending_question is Some,
        row.role == "tool"@,
        row.tool_call_id == Some((p.pending_question->0).0),
    ensures
        ({
            let s = question_step(p, id, row, None);
            &&& s.0.pending_question is None
            &&& s.1 == seq![EventModel::QuestionResolved { source: Source::Hermes, id: (p.pending_question->0).0 }]
        }),
{
}

/// A question that is asked again under the same call is not asked twice.
pub proof fn law_question_asked_once(p: PrevModel, id: Seq<char>, row: MessageModel, q: (Seq<char>, Seq<char>))
    requires
        p.pending_question == Some(q),
        row.role != "tool"@,
    ensures
        question_step(p, id, row, Some(q)) == (p, Seq::<EventModel>::empty()),
{
}

proof fn lemma_gone_events_close(m: PollModel, ks: Seq<Seq<char>>, id: Seq<char>, e: EventModel)
    requires
        ks.contains(id),
        !m.has_read(id),
        m.prev[id].running,
        closing(id, m.prev[id], TurnEndReason::Aborted).contains(e),
    ensures
        gone_events(m, ks).contains(e),
    decreases ks.len(),
{
    let rest = gone_events(m, ks.drop_last());
    if ks.last() == id {
        let c = closing(id, m.prev[id], TurnEndReason::Aborted);
        let i = choose|i: int| 0 <= i < c.len() && c[i] == e;
        assert(gone_events(m, ks)[rest.len() + i] == e);
    } else {
        let k = choose|k: int| 0 <= k < ks.len() && ks[k] == id;
        assert(ks.drop_last()[k] == id);
        lemma_gone_events_close(m, ks.drop_last(), id, e);
        let i = choose|i: int| 0 <= i < rest.len() && rest[i] == e;
        assert(gone_events(m, ks)[i] == e);
    }
}

/// A session that vanished is forgotten, and if it was running it is closed: the
/// poll reports everything that closes it.
pub proof fn law_vanished_is_closed(m: PollModel, id: Seq<char>)
    requires
        m.prev.dom().finite(),
        !m.has_read(id),
    ensures
        !m.ended().prev.contains_key(id),
        m.prev.contains_key(id) && m.prev[id].running ==> forall|e: EventModel|
            closing(id, m.prev[id], TurnEndReason::Aborted).contains(e) ==> #[trigger] m.ended().evs.contains(e),
{
    if m.prev.contains_key(id) && m.prev[id].running {
        let ks = ordered::<String>(m.prev.dom());
        lemma_ordered_exists::<String>(m.prev.dom());
        assert(ks.contains(id));
        let g = gone_events(m, ks);
        assert forall|e: EventModel| closing(id, m.prev[id], TurnEndReason::Aborted).contains(e) implies #[trigger] m.ended().evs.contains(
            e,
        ) by {
            lemma_gone_events_close(m, ks, id, e);
            let i = choose|i: int| 0 <= i < g.len() && g[i] == e;
            assert(m.ended().evs[m.evs.len() + i] == e);
        }
    }
}

} // verus!
