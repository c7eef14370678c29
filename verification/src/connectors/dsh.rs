//! The default source: session lists, session histories and two event streams.

use vstd::prelude::*;
use vstd::string::*;

use crate::event::{events_of, EventModel, SessionItem, Source, StateEvent, TodoItem, TodoModel, TurnEndReason};
use crate::event::{items_of, todos_of, ItemModel};
use crate::json::{
    as_array, as_str, as_u64, at, is_true, json_in_bytes, json_in_text, json_stream_in, json_written, jsons_of,
    lossy_text, lossy_text_of, num_model, number, opt_jsons, opt_string, parse_bytes, parse_text, str_or_empty, stream_values,
    string, val, write_json, Json, JsonModel,
};
use crate::ordmap::{ordered, OrdMap};
use crate::text::{decimal, decimal_of, joined, own, same_text, texts};

verus! {

/// Messages asked for in a session's history once it is known.
pub const HISTORY_MAX_MESSAGES: u64 = 2;

/// Messages asked for in the first history of a session; enough to hold the
/// start of the turn that is open.
pub const HISTORY_MAX_MESSAGES_BASELINE: u64 = 200;

/// Cycles for which a session that stopped is still looked at.
pub const GRACE_CYCLES: u32 = 3;

/// A tool call that has not returned.
pub struct OpenCall {
    pub call_id: String,
    pub name: String,
}

impl View for OpenCall {
    type V = (Seq<char>, Seq<char>);

    open spec fn view(&self) -> (Seq<char>, Seq<char>) {
        (self.call_id@, self.name@)
    }
}

/// The open tool calls of a session, oldest first.
pub struct OpenCalls {
    pub list: Vec<OpenCall>,
}

impl View for OpenCalls {
    type V = Seq<(Seq<char>, Seq<char>)>;

    open spec fn view(&self) -> Seq<(Seq<char>, Seq<char>)> {
        self.list@.map_values(|c: OpenCall| c@)
    }
}

/// What is remembered between two looks at the histories.
pub struct HistoryState {
    /// The last event of each session that was applied.
    pub last_seq: OrdMap<String, u64>,
    /// The open tool calls of each session.
    pub open_calls: OrdMap<String, OpenCalls>,
    /// For how many cycles each session has not been running.
    pub recent: OrdMap<String, u32>,
}

/// Model of a [`HistoryState`].
pub struct HistoryModel {
    pub last_seq: Map<Seq<char>, u64>,
    pub open_calls: Map<Seq<char>, Seq<(Seq<char>, Seq<char>)>>,
    pub recent: Map<Seq<char>, u32>,
}

impl View for HistoryState {
    type V = HistoryModel;

    open spec fn view(&self) -> HistoryModel {
        HistoryModel { last_seq: self.last_seq@, open_calls: self.open_calls@, recent: self.recent@ }
    }
}

impl HistoryModel {
    /// The last applied event of a session; nothing before the first look.
    pub open spec fn seq_of(self, sid: Seq<char>) -> u64 {
        if self.last_seq.contains_key(sid) {
            self.last_seq[sid]
        } else {
            0
        }
    }

    pub open spec fn calls_of(self, sid: Seq<char>) -> Seq<(Seq<char>, Seq<char>)> {
        if self.open_calls.contains_key(sid) {
            self.open_calls[sid]
        } else {
            Seq::empty()
        }
    }
}

impl HistoryState {
    /// Nothing has been looked at.
    pub fn new() -> (r: Self)
        ensures
            r@ == (HistoryModel { last_seq: Map::empty(), open_calls: Map::empty(), recent: Map::empty() }),
    {
        HistoryState { last_seq: OrdMap::new(), open_calls: OrdMap::new(), recent: OrdMap::new() }
    }
}

/// What has been gathered from the first entries of a history.
pub struct Gathered {
    pub open_turn: Option<u64>,
    /// The turns that ended, in a first look.
    pub ended: Vec<u64>,
    /// Whether the session has a list of open calls, which may be empty.
    pub listed: bool,
    pub calls: OpenCalls,
    pub reasoning: String,
    pub text: String,
    pub evs: Vec<StateEvent>,
}

/// Model of [`Gathered`].
#[verifier::ext_equal]
pub struct GatheredModel {
    pub open_turn: Option<u64>,
    pub ended: Seq<u64>,
    pub listed: bool,
    pub calls: Seq<(Seq<char>, Seq<char>)>,
    pub reasoning: Seq<char>,
    pub text: Seq<char>,
    pub evs: Seq<EventModel>,
}

impl View for Gathered {
    type V = GatheredModel;

    open spec fn view(&self) -> GatheredModel {
        GatheredModel {
            open_turn: self.open_turn,
            ended: self.ended@,
            listed: self.listed,
            calls: self.calls@,
            reasoning: self.reasoning@,
            text: self.text@,
            evs: events_of(self.evs@),
        }
    }
}

/// Index of the first open call with this id.
pub open spec fn call_index(calls: Seq<(Seq<char>, Seq<char>)>, id: Seq<char>) -> Option<int>
    decreases calls.len(),
{
    if calls.len() == 0 {
        None
    } else {
        match call_index(calls.drop_last(), id) {
            Some(i) => Some(i),
            None => if calls.last().0 == id {
                Some(calls.len() - 1)
            } else {
                None
            },
        }
    }
}

/// The tasks in a list: those that have a text; they are pending unless they say otherwise.
pub open spec fn todos_in(v: Seq<JsonModel>) -> Seq<TodoModel>
    decreases v.len(),
{
    if v.len() == 0 {
        Seq::empty()
    } else {
        let rest = todos_in(v.drop_last());
        match v.last().at("content"@).as_str() {
            Some(c) => rest.push(
                TodoModel {
                    content: c,
                    status: match v.last().at("status"@).as_str() {
                        Some(s) => s,
                        None => "pending"@,
                    },
                },
            ),
            None => rest,
        }
    }
}

/// The text blocks of a message, joined.
pub open spec fn text_blocks(v: Seq<JsonModel>) -> Seq<char>
    decreases v.len(),
{
    if v.len() == 0 {
        Seq::empty()
    } else {
        let rest = text_blocks(v.drop_last());
        match v.last().at("text"@).as_str() {
            Some(t) => if v.last().at("type"@).as_str() == Some("text"@) {
                rest + t
            } else {
                rest
            },
            None => rest,
        }
    }
}

/// The text of the message that an event carries.
pub open spec fn message_of(data: JsonModel) -> Seq<char> {
    text_blocks(data.at("message"@).at("content"@).elements())
}

/// The id and the name of the tool call that an event carries.
pub open spec fn call_in(data: JsonModel) -> (Seq<char>, Seq<char>) {
    (
        data.at("callId"@).str_or_empty(),
        match data.at("name"@).as_str() {
            Some(n) => n,
            None => "tool"@,
        },
    )
}

impl GatheredModel {
    pub open spec fn emit(self, ev: EventModel) -> GatheredModel {
        GatheredModel { evs: self.evs.push(ev), ..self }
    }

    /// Hands out the streamed text that has been gathered.
    pub open spec fn flush(self, sid: Seq<char>) -> GatheredModel {
        if self.reasoning.len() == 0 && self.text.len() == 0 {
            self
        } else {
            GatheredModel {
                reasoning: Seq::empty(),
                text: Seq::empty(),
                ..self.emit(
                    EventModel::LiveText {
                        source: Source::Dsh,
                        session_id: sid,
                        reasoning: if self.reasoning.len() == 0 {
                            None
                        } else {
                            Some(self.reasoning)
                        },
                        text: if self.text.len() == 0 {
                            None
                        } else {
                            Some(self.text)
                        },
                        tool_name: None,
                    },
                )
            }
        }
    }

    /// A tool was called.
    pub open spec fn call(self, sid: Seq<char>, data: JsonModel) -> GatheredModel {
        GatheredModel {
            listed: true,
            calls: self.calls.push(call_in(data)),
            ..self.emit(
                EventModel::ToolStarted {
                    source: Source::Dsh,
                    session_id: sid,
                    name: call_in(data).1,
                    arguments: data.at("arguments"@).as_str(),
                },
            )
        }
    }

    /// A tool returned. A call that is not known ends under `unknown`, where that is given.
    pub open spec fn returned(self, sid: Seq<char>, data: JsonModel, unknown: Option<Seq<char>>) -> GatheredModel {
        let id = data.at("message"@).at("source"@).at("callId"@).str_or_empty();
        let error = data.field("error"@) is Some;
        match call_index(self.calls, id) {
            Some(i) => GatheredModel {
                calls: self.calls.remove(i),
                ..self.emit(
                    EventModel::ToolEnded { source: Source::Dsh, session_id: sid, name: self.calls[i].1, error },
                )
            },
            None => match unknown {
                Some(name) => self.emit(
                    EventModel::ToolEnded { source: Source::Dsh, session_id: sid, name, error },
                ),
                None => self,
            },
        }
    }

    pub open spec fn todo(self, sid: Seq<char>, data: JsonModel) -> GatheredModel {
        self.emit(
            EventModel::TodoSnapshot {
                source: Source::Dsh,
                session_id: sid,
                todos: todos_in(data.at("todos"@).elements()),
            },
        )
    }

    pub open spec fn user(self, sid: Seq<char>, data: JsonModel) -> GatheredModel {
        if message_of(data).len() > 0 {
            self.emit(EventModel::UserMessage { source: Source::Dsh, session_id: sid, text: message_of(data) })
        } else {
            self
        }
    }

    /// An event of a turn shows that the turn is open, unless another one is or
    /// it has ended.
    pub open spec fn hinted(self, turn: Option<u64>) -> GatheredModel {
        if self.open_turn is None && turn is Some && !self.ended.contains(turn->0) {
            GatheredModel { open_turn: turn, ..self }
        } else {
            self
        }
    }

    /// A turn ended in a first look. A tool that was called in it has been told and
    /// stays open until it returns.
    pub open spec fn closed(self, turn: Option<u64>) -> GatheredModel {
        GatheredModel {
            open_turn: if turn == self.open_turn {
                None
            } else {
                self.open_turn
            },
            ended: match turn {
                Some(n) => self.ended.push(n),
                None => self.ended,
            },
            ..self
        }
    }

    /// One event of the first look at a session: what is going on is found out,
    /// nothing that is over is told again. A tool is at work only in the open
    /// turn; a call that names no turn belongs to it.
    pub open spec fn baseline(self, sid: Seq<char>, ev: JsonModel) -> GatheredModel {
        let data = ev.at("data"@);
        let t = ev.at("type"@).str_or_empty();
        let turn = data.at("turn"@).as_u64();
        if t == "turn/start"@ {
            GatheredModel { open_turn: turn, ..self }
        } else if t == "turn/end"@ {
            self.closed(turn)
        } else {
            let g = self.hinted(turn);
            if t == "tool/call"@ {
                if turn is None || turn == g.open_turn {
                    g.call(sid, data)
                } else {
                    g
                }
            } else if t == "tool/result"@ {
                g.returned(sid, data, None)
            } else if t == "todo/write"@ {
                g.todo(sid, data)
            } else if t == "user/message"@ {
                g.user(sid, data)
            } else {
                g
            }
        }
    }

    /// One event of a later look at a session.
    pub open spec fn delta(self, sid: Seq<char>, ev: JsonModel) -> GatheredModel {
        let data = ev.at("data"@);
        let t = ev.at("type"@).str_or_empty();
        let turn = match data.at("turn"@).as_u64() {
            Some(n) => n,
            None => 0,
        };
        if t == "turn/start"@ {
            self.emit(EventModel::TurnStarted { source: Source::Dsh, session_id: sid, turn })
        } else if t == "turn/end"@ {
            self.emit(
                EventModel::TurnEnded {
                    source: Source::Dsh,
                    session_id: sid,
                    turn,
                    reason: match TurnEndReason::of_kind(data.at("reason"@).at("kind"@).str_or_empty()) {
                        Some(r) => r,
                        None => TurnEndReason::Aborted,
                    },
                },
            ).flush(sid)
        } else if t == "tool/call"@ {
            self.call(sid, data).flush(sid)
        } else if t == "tool/result"@ {
            self.returned(sid, data, Some("tool"@))
        } else if t == "todo/write"@ {
            self.todo(sid, data)
        } else if t == "assistant/chunk"@ {
            let kind = data.at("chunk"@).at("type"@).str_or_empty();
            let text = data.at("chunk"@).at("text"@).str_or_empty();
            if kind == "reasoning-delta"@ {
                GatheredModel { reasoning: self.reasoning + text, ..self }
            } else if kind == "text-delta"@ {
                GatheredModel { text: self.text + text, ..self }
            } else {
                self
            }
        } else if t == "user/message"@ {
            self.user(sid, data).flush(sid)
        } else if t == "assistant/message"@ || t == "step/end"@ {
            self.flush(sid)
        } else {
            self
        }
    }
}

/// The number of an entry's event.
pub open spec fn seq_in(entry: JsonModel) -> u64 {
    match entry.at("event"@).at("seq"@).as_u64() {
        Some(n) => n,
        None => 0,
    }
}

/// What the entries beyond `last` give, first to last.
pub open spec fn gather(
    start: GatheredModel,
    sid: Seq<char>,
    entries: Seq<JsonModel>,
    last: u64,
    first_look: bool,
) -> GatheredModel
    decreases entries.len(),
{
    if entries.len() == 0 {
        start
    } else {
        let g = gather(start, sid, entries.drop_last(), last, first_look);
        let e = entries.last();
        if seq_in(e) <= last {
            g
        } else if first_look {
            g.baseline(sid, e.at("event"@))
        } else {
            g.delta(sid, e.at("event"@))
        }
    }
}

/// The highest event number among the entries and `last`.
pub open spec fn highest_seq(entries: Seq<JsonModel>, last: u64) -> u64
    decreases entries.len(),
{
    if entries.len() == 0 {
        last
    } else {
        let h = highest_seq(entries.drop_last(), last);
        if seq_in(entries.last()) > h {
            seq_in(entries.last())
        } else {
            h
        }
    }
}

/// Where a look at a session starts.
pub open spec fn gather_start(h: HistoryModel, sid: Seq<char>) -> GatheredModel {
    GatheredModel {
        open_turn: None,
        ended: Seq::empty(),
        listed: h.open_calls.contains_key(sid),
        calls: h.calls_of(sid),
        reasoning: Seq::empty(),
        text: Seq::empty(),
        evs: Seq::empty(),
    }
}

/// All that a batch of history entries gives. The first look ends with the
/// start of the turn that is open; a later one with the text that is left.
pub open spec fn history_result(h: HistoryModel, sid: Seq<char>, entries: Seq<JsonModel>) -> GatheredModel {
    let first_look = !h.last_seq.contains_key(sid);
    let g = gather(gather_start(h, sid), sid, entries, h.seq_of(sid), first_look);
    if first_look {
        match g.open_turn {
            Some(turn) => g.emit(EventModel::TurnStarted { source: Source::Dsh, session_id: sid, turn }),
            None => g,
        }
    } else {
        g.flush(sid)
    }
}

/// The open calls of all sessions after a batch of history entries. A session in
/// which no call was ever opened has no list of its own.
pub open spec fn calls_after(h: HistoryModel, sid: Seq<char>, entries: Seq<JsonModel>) -> Map<
    Seq<char>,
    Seq<(Seq<char>, Seq<char>)>,
> {
    let g = history_result(h, sid, entries);
    if g.listed {
        h.open_calls.insert(sid, g.calls)
    } else {
        h.open_calls
    }
}

proof fn lemma_events_push(v: Seq<StateEvent>, e: StateEvent)
    ensures
        events_of(v.push(e)) == events_of(v).push(e@),
{
    assert(events_of(v.push(e)) =~= events_of(v).push(e@));
}

proof fn lemma_call_index_stays(calls: Seq<(Seq<char>, Seq<char>)>, id: Seq<char>, n: int)
    requires
        0 <= n <= calls.len(),
        call_index(calls.take(n), id) is Some,
    ensures
        call_index(calls, id) == call_index(calls.take(n), id),
    decreases calls.len() - n,
{
    if n == calls.len() {
        assert(calls.take(n) =~= calls);
    } else {
        assert(calls.take(n + 1).drop_last() =~= calls.take(n));
        lemma_call_index_stays(calls, id, n + 1);
    }
}

/// Index of the first open call with this id.
fn find_call(calls: &OpenCalls, id: &str) -> (r: Option<usize>)
    ensures
        match r {
            Some(i) => call_index(calls@, id@) == Some(i as int) && i < calls.list@.len(),
            None => call_index(calls@, id@) is None,
        },
{
    let ghost m = calls@;
    let mut i: usize = 0;
    while i < calls.list.len()
        invariant
            i <= calls.list@.len(),
            m == calls@,
            call_index(m.take(i as int), id@) is None,
        decreases calls.list@.len() - i,
    {
        proof {
            assert(m.take(i as int + 1).drop_last() =~= m.take(i as int));
            assert(m.take(i as int + 1).last() == calls.list@[i as int]@);
        }
        if same_text(calls.list[i].call_id.as_str(), id) {
            proof {
                lemma_call_index_stays(m, id@, i as int + 1);
            }
            return Some(i);
        }
        i += 1;
    }
    assert(m.take(i as int) =~= m);
    None
}

/// The tasks in a list.
pub fn read_todos(v: &Vec<Json>) -> (r: Vec<TodoItem>)
    ensures
        todos_of(r@) == todos_in(jsons_of(v@)),
{
    let ghost m = jsons_of(v@);
    let mut out: Vec<TodoItem> = Vec::new();
    let mut i: usize = 0;
    assert(todos_of(out@) =~= Seq::<TodoModel>::empty());
    while i < v.len()
        invariant
            i <= v@.len(),
            m == jsons_of(v@),
            todos_of(out@) == todos_in(m.take(i as int)),
        decreases v@.len() - i,
    {
        proof {
            assert(m.take(i as int + 1).drop_last() =~= m.take(i as int));
            assert(m.take(i as int + 1).last() == v@[i as int]@);
        }
        let t = Some(&v[i]);
        if let Some(c) = as_str(at(t, "content")) {
            let status = match as_str(at(t, "status")) {
                Some(s) => own(s),
                None => own("pending"),
            };
            let item = TodoItem { content: own(c), status };
            let ghost before = out@;
            out.push(item);
            assert(todos_of(out@) =~= todos_of(before).push(item@));
        }
        i += 1;
    }
    assert(m.take(i as int) =~= m);
    out
}

/// The tasks in a value that is a list of them.
fn todos_or_none(o: Option<&Json>) -> (r: Vec<TodoItem>)
    ensures
        todos_of(r@) == todos_in(val(o).elements()),
{
    match as_array(o) {
        Some(v) => read_todos(v),
        None => {
            let v: Vec<TodoItem> = Vec::new();
            assert(todos_of(v@) =~= Seq::<TodoModel>::empty());
            v
        },
    }
}

/// The text of the message that an event carries.
fn message_text(data: Option<&Json>) -> (r: String)
    ensures
        r@ == message_of(val(data)),
{
    let mut out = String::new();
    if let Some(v) = as_array(at(at(data, "message"), "content")) {
        let ghost m = jsons_of(v@);
        let mut i: usize = 0;
        while i < v.len()
            invariant
                i <= v@.len(),
                m == jsons_of(v@),
                out@ == text_blocks(m.take(i as int)),
            decreases v@.len() - i,
        {
            proof {
                assert(m.take(i as int + 1).drop_last() =~= m.take(i as int));
                assert(m.take(i as int + 1).last() == v@[i as int]@);
            }
            let b = Some(&v[i]);
            if let Some(t) = as_str(at(b, "text")) {
                if let Some(k) = as_str(at(b, "type")) {
                    if same_text(k, "text") {
                        out.append(t);
                    }
                }
            }
            i += 1;
        }
        assert(m.take(i as int) =~= m);
    }
    out
}

impl Gathered {
    fn emit(&mut self, ev: StateEvent)
        ensures
            final(self)@ == old(self)@.emit(ev@),
    {
        proof {
            lemma_events_push(self.evs@, ev);
        }
        self.evs.push(ev);
    }

    fn flush_live(&mut self, sid: &str)
        ensures
            final(self)@ == old(self)@.flush(sid@),
    {
        if self.reasoning.as_str().is_empty() && self.text.as_str().is_empty() {
            return;
        }
        let reasoning = if self.reasoning.as_str().is_empty() {
            None
        } else {
            Some(self.reasoning.clone())
        };
        let text = if self.text.as_str().is_empty() {
            None
        } else {
            Some(self.text.clone())
        };
        self.reasoning = String::new();
        self.text = String::new();
        self.emit(
            StateEvent::LiveText { source: Source::Dsh, session_id: own(sid), reasoning, text, tool_name: None },
        );
    }

    fn call(&mut self, sid: &str, data: Option<&Json>)
        ensures
            final(self)@ == old(self)@.call(sid@, val(data)),
    {
        let call_id = str_or_empty(at(data, "callId"));
        let name = match as_str(at(data, "name")) {
            Some(n) => own(n),
            None => own("tool"),
        };
        let arguments = opt_string(at(data, "arguments"));
        let ghost before = self.calls@;
        let c = OpenCall { call_id, name: name.clone() };
        self.calls.list.push(c);
        self.listed = true;
        assert(self.calls@ =~= before.push(c@));
        self.emit(StateEvent::ToolStarted { source: Source::Dsh, session_id: own(sid), name, arguments });
    }

    fn returned(&mut self, sid: &str, data: Option<&Json>, unknown: Option<&str>)
        ensures
            final(self)@ == old(self)@.returned(
                sid@,
                val(data),
                match unknown {
                    Some(s) => Some(s@),
                    None => None,
                },
            ),
    {
        let id = str_or_empty(at(at(at(data, "message"), "source"), "callId"));
        let error = match data {
            Some(d) => d.get("error").is_some(),
            None => false,
        };
        match find_call(&self.calls, id.as_str()) {
            Some(i) => {
                let ghost before = self.calls@;
                let c = self.calls.list.remove(i);
                assert(self.calls@ =~= before.remove(i as int));
                assert(c@ == before[i as int]);
                self.emit(StateEvent::ToolEnded { source: Source::Dsh, session_id: own(sid), name: c.name, error });
            },
            None => {
                if let Some(name) = unknown {
                    self.emit(
                        StateEvent::ToolEnded { source: Source::Dsh, session_id: own(sid), name: own(name), error },
                    );
                }
            },
        }
    }

    fn todo(&mut self, sid: &str, data: Option<&Json>)
        ensures
            final(self)@ == old(self)@.todo(sid@, val(data)),
    {
        let todos = todos_or_none(at(data, "todos"));
        self.emit(StateEvent::TodoSnapshot { source: Source::Dsh, session_id: own(sid), todos });
    }

    fn user(&mut self, sid: &str, data: Option<&Json>)
        ensures
            final(self)@ == old(self)@.user(sid@, val(data)),
    {
        let text = message_text(data);
        if !text.as_str().is_empty() {
            self.emit(StateEvent::UserMessage { source: Source::Dsh, session_id: own(sid), text });
        }
    }

    fn hint(&mut self, turn: Option<u64>)
        ensures
            final(self)@ == old(self)@.hinted(turn),
    {
        if self.open_turn.is_some() {
            return;
        }
        if let Some(t) = turn {
            let n: usize = self.ended.len();
            let mut i: usize = 0;
            while i < n
                invariant
                    *self == *old(self),
                    i <= n == self.ended@.len(),
                    turn == Some(t),
                    forall|j: int| 0 <= j < i ==> self.ended@[j] != t,
                decreases n - i,
            {
                if self.ended[i] == t {
                    assert(self@.ended.contains(t));
                    return;
                }
                i += 1;
            }
            self.open_turn = Some(t);
        }
    }

    fn baseline(&mut self, sid: &str, ev: Option<&Json>)
        ensures
            final(self)@ == old(self)@.baseline(sid@, val(ev)),
    {
        let data = at(ev, "data");
        let kind = str_or_empty(at(ev, "type"));
        let t = kind.as_str();
        let turn = as_u64(at(data, "turn"));
        if same_text(t, "turn/start") {
            self.open_turn = turn;
            return;
        }
        if same_text(t, "turn/end") {
            if turn == self.open_turn {
                self.open_turn = None;
            }
            if let Some(n) = turn {
                self.ended.push(n);
            }
            return;
        }
        self.hint(turn);
        if same_text(t, "tool/call") {
            if turn.is_none() || turn == self.open_turn {
                self.call(sid, data);
            }
        } else if same_text(t, "tool/result") {
            self.returned(sid, data, None);
        } else if same_text(t, "todo/write") {
            self.todo(sid, data);
        } else if same_text(t, "user/message") {
            self.user(sid, data);
        }
    }

    fn delta(&mut self, sid: &str, ev: Option<&Json>)
        ensures
            final(self)@ == old(self)@.delta(sid@, val(ev)),
    {
        let data = at(ev, "data");
        let kind = str_or_empty(at(ev, "type"));
        let t = kind.as_str();
        let turn: u64 = match as_u64(at(data, "turn")) {
            Some(n) => n,
            None => 0,
        };
        if same_text(t, "turn/start") {
            self.emit(StateEvent::TurnStarted { source: Source::Dsh, session_id: own(sid), turn });
        } else if same_text(t, "turn/end") {
            let why = str_or_empty(at(at(data, "reason"), "kind"));
            let reason = match TurnEndReason::from_dsh_kind(why.as_str()) {
                Some(r) => r,
                None => TurnEndReason::Aborted,
            };
            self.emit(StateEvent::TurnEnded { source: Source::Dsh, session_id: own(sid), turn, reason });
            self.flush_live(sid);
        } else if same_text(t, "tool/call") {
            self.call(sid, data);
            self.flush_live(sid);
        } else if same_text(t, "tool/result") {
            self.returned(sid, data, Some("tool"));
        } else if same_text(t, "todo/write") {
            self.todo(sid, data);
        } else if same_text(t, "assistant/chunk") {
            let chunk = at(data, "chunk");
            let ctype = str_or_empty(at(chunk, "type"));
            let text = str_or_empty(at(chunk, "text"));
            if same_text(ctype.as_str(), "reasoning-delta") {
                self.reasoning.append(text.as_str());
            } else if same_text(ctype.as_str(), "text-delta") {
                self.text.append(text.as_str());
            }
        } else if same_text(t, "user/message") {
            self.user(sid, data);
            self.flush_live(sid);
        } else if same_text(t, "assistant/message") || same_text(t, "step/end") {
            self.flush_live(sid);
        }
    }
}

/// Applies a batch of history entries of one session: the events to report,
/// and what to remember. An event number is never applied twice.
pub fn apply_history_events(session_id: &str, entries: &Vec<Json>, st: &mut HistoryState) -> (r: Vec<StateEvent>)
    ensures
        events_of(r@) == history_result(old(st)@, session_id@, jsons_of(entries@)).evs,
        final(st)@ == (HistoryModel {
            last_seq: old(st)@.last_seq.insert(
                session_id@,
                highest_seq(jsons_of(entries@), old(st)@.seq_of(session_id@)),
            ),
            open_calls: calls_after(old(st)@, session_id@, jsons_of(entries@)),
            recent: old(st)@.recent,
        }),
{
    let ghost h = st@;
    let ghost m = jsons_of(entries@);
    let sid = own(session_id);
    let (first_look, last): (bool, u64) = match st.last_seq.get(&sid) {
        Some(n) => (false, *n),
        None => (true, 0),
    };
    let (listed, calls): (bool, OpenCalls) = match st.open_calls.remove(&sid) {
        Some(c) => (true, c),
        None => (false, OpenCalls { list: Vec::new() }),
    };
    assert(!h.open_calls.contains_key(sid@) ==> calls@ =~= h.calls_of(sid@));
    let mut g = Gathered {
        open_turn: None,
        ended: Vec::new(),
        listed,
        calls,
        reasoning: String::new(),
        text: String::new(),
        evs: Vec::new(),
    };
    let mut max_seq: u64 = last;
    let mut i: usize = 0;
    assert(g@ =~= gather_start(h, session_id@));
    while i < entries.len()
        invariant
            i <= entries@.len(),
            m == jsons_of(entries@),
            g@ == gather(gather_start(h, session_id@), session_id@, m.take(i as int), last, first_look),
            h.open_calls.contains_key(session_id@) ==> g@.listed,
            max_seq == highest_seq(m.take(i as int), last),
        decreases entries@.len() - i,
    {
        proof {
            assert(m.take(i as int + 1).drop_last() =~= m.take(i as int));
            assert(m.take(i as int + 1).last() == entries@[i as int]@);
        }
        let ev = at(Some(&entries[i]), "event");
        let seq: u64 = match as_u64(at(ev, "seq")) {
            Some(n) => n,
            None => 0,
        };
        if seq > max_seq {
            max_seq = seq;
        }
        if seq > last {
            if first_look {
                g.baseline(session_id, ev);
            } else {
                g.delta(session_id, ev);
            }
        }
        i += 1;
    }
    assert(m.take(i as int) =~= m);
    if first_look {
        if let Some(turn) = g.open_turn {
            g.emit(StateEvent::TurnStarted { source: Source::Dsh, session_id: own(session_id), turn });
        }
    } else {
        g.flush_live(session_id);
    }
    st.last_seq.insert(sid.clone(), max_seq);
    if g.listed {
        st.open_calls.insert(sid, g.calls);
    }
    assert(st.open_calls@ =~= calls_after(h, session_id@, m));
    g.evs
}

/// Why a request to the source gave nothing.
#[derive(Debug)]
pub enum FetchError {
    /// The response has another status than 200.
    Status(u16),
    /// The body is not JSON; what is wrong with it.
    NotJson(String),
    /// The source refused the request; what it answered.
    NotOk(String),
    /// The answer has no list.
    NoItems,
}

/// Model of a [`FetchError`].
pub enum FetchFault {
    Status(u16),
    NotJson(Seq<char>),
    NotOk(Seq<char>),
    NoItems,
}

impl View for FetchError {
    type V = FetchFault;

    open spec fn view(&self) -> FetchFault {
        match *self {
            FetchError::Status(n) => FetchFault::Status(n),
            FetchError::NotJson(e) => FetchFault::NotJson(e@),
            FetchError::NotOk(a) => FetchFault::NotOk(a@),
            FetchError::NoItems => FetchFault::NoItems,
        }
    }
}

/// What a description begins with: the method that was called, if it is told.
pub open spec fn told(what: Seq<char>) -> Seq<char> {
    if what.len() == 0 {
        what
    } else {
        what + " "@
    }
}

impl FetchFault {
    /// A description of the error.
    pub open spec fn text(self, what: Seq<char>) -> Seq<char> {
        match self {
            FetchFault::Status(n) => told(what) + "status "@ + decimal(n as nat),
            FetchFault::NotJson(e) => told(what) + "json: "@ + e,
            FetchFault::NotOk(a) => told(what) + "ok=false: "@ + a,
            FetchFault::NoItems => what + ": no items"@,
        }
    }
}

impl FetchError {
    /// A description of the error; `what` is the method that was called.
    pub fn message(&self, what: &str) -> (r: String)
        ensures
            r@ == self@.text(what@),
    {
        let head = if what.is_empty() {
            own(what)
        } else {
            joined(what, " ")
        };
        match self {
            FetchError::Status(n) => {
                let t = joined(head.as_str(), "status ");
                joined(t.as_str(), decimal_of(*n as u128).as_str())
            },
            FetchError::NotJson(e) => {
                let t = joined(head.as_str(), "json: ");
                joined(t.as_str(), e.as_str())
            },
            FetchError::NotOk(a) => {
                let t = joined(head.as_str(), "ok=false: ");
                joined(t.as_str(), a.as_str())
            },
            FetchError::NoItems => joined(what, ": no items"),
        }
    }
}

/// The refusal of a request: the source's answer, written out.
fn refusal(result: Option<&Json>) -> (r: FetchError)
    ensures
        r@ == FetchFault::NotOk(json_written(val(result))),
{
    match result {
        Some(j) => FetchError::NotOk(write_json(j)),
        None => FetchError::NotOk(write_json(&Json::Null)),
    }
}

/// The list in the answer to a session list request.
pub open spec fn listed_items(answer: JsonModel) -> Result<Seq<JsonModel>, FetchFault> {
    let result = answer.at("result"@);
    if !result.at("ok"@).is_true() {
        Err(FetchFault::NotOk(json_written(result)))
    } else {
        let nested = result.at("value"@).field("items"@);
        let items = if nested is Some {
            nested->0
        } else {
            result.at("items"@)
        };
        match items.as_array() {
            Some(v) => Ok(v),
            None => Err(FetchFault::NoItems),
        }
    }
}

/// One session of a session list.
pub open spec fn item_in(it: JsonModel) -> ItemModel {
    let values = it.at("projections"@).at("values"@);
    ItemModel {
        session_id: it.at("sessionId"@).str_or_empty(),
        running: it.at("running"@).is_true(),
        title: values.at("title"@).as_str(),
        todos: match values.at("todos"@).as_array() {
            Some(v) => Some(todos_in(v)),
            None => None,
        },
    }
}

/// The sessions of a session list; those without an id are skipped.
pub open spec fn items_in(v: Seq<JsonModel>) -> Seq<ItemModel>
    decreases v.len(),
{
    if v.len() == 0 {
        Seq::empty()
    } else {
        let rest = items_in(v.drop_last());
        if v.last().at("sessionId"@).str_or_empty().len() == 0 {
            rest
        } else {
            rest.push(item_in(v.last()))
        }
    }
}

/// Model of a list of sessions, or of the reason why there is none.
pub open spec fn fetched(r: Result<Vec<SessionItem>, FetchError>) -> Result<Seq<ItemModel>, FetchFault> {
    match r {
        Ok(v) => Ok(items_of(v@)),
        Err(e) => Err(e@),
    }
}

/// The sessions in the answer to a session list request.
pub open spec fn sessions_in(answer: JsonModel) -> Result<Seq<ItemModel>, FetchFault> {
    match listed_items(answer) {
        Ok(v) => Ok(items_in(v)),
        Err(e) => Err(e),
    }
}

fn read_item(it: &Json) -> (r: SessionItem)
    ensures
        r@ == item_in(it@),
{
    let o = Some(it);
    let values = at(at(o, "projections"), "values");
    let todos = match as_array(at(values, "todos")) {
        Some(v) => Some(read_todos(v)),
        None => None,
    };
    SessionItem {
        session_id: str_or_empty(at(o, "sessionId")),
        running: is_true(at(o, "running")),
        title: opt_string(at(values, "title")),
        todos,
    }
}

/// Reads the answer to a session list request.
pub fn read_sessions(answer: &Json) -> (r: Result<Vec<SessionItem>, FetchError>)
    ensures
        fetched(r) == sessions_in(answer@),
{
    let result = at(Some(answer), "result");
    if !is_true(at(result, "ok")) {
        return Err(refusal(result));
    }
    let value = at(result, "value");
    let nested = match value {
        Some(v) => v.get("items"),
        None => None,
    };
    let items = match nested {
        Some(v) => Some(v),
        None => at(result, "items"),
    };
    match as_array(items) {
        None => Err(FetchError::NoItems),
        Some(v) => {
            let ghost m = jsons_of(v@);
            let mut out: Vec<SessionItem> = Vec::new();
            let mut i: usize = 0;
            assert(items_of(out@) =~= Seq::<ItemModel>::empty());
            while i < v.len()
                invariant
                    i <= v@.len(),
                    m == jsons_of(v@),
                    items_of(out@) == items_in(m.take(i as int)),
                decreases v@.len() - i,
            {
                proof {
                    assert(m.take(i as int + 1).drop_last() =~= m.take(i as int));
                    assert(m.take(i as int + 1).last() == v@[i as int]@);
                }
                let item = read_item(&v[i]);
                let ghost before = out@;
                if !item.session_id.as_str().is_empty() {
                    out.push(item);
                    assert(items_of(out@) =~= items_of(before).push(item@));
                }
                i += 1;
            }
            assert(m.take(i as int) =~= m);
            Ok(out)
        },
    }
}

/// Reads the response to a session list request.
pub fn fetch_sessions(status: u16, body: &[u8]) -> (r: Result<Vec<SessionItem>, FetchError>)
    ensures
        fetched(r) == if status != 200 {
            Err(FetchFault::Status(status))
        } else {
            match json_in_bytes(body@) {
                Err(e) => Err(FetchFault::NotJson(e)),
                Ok(v) => sessions_in(v),
            }
        },
{
    if status != 200 {
        return Err(FetchError::Status(status));
    }
    match parse_bytes(body) {
        Err(e) => Err(FetchError::NotJson(e)),
        Ok(v) => read_sessions(&v),
    }
}

/// The request envelope of a method call, its keys in order.
pub open spec fn envelope(method: Seq<char>, payload: JsonModel, seq: u64) -> JsonModel {
    JsonModel::Obj(
        seq![
            ("method"@, JsonModel::Str(method)),
            ("payload"@, payload),
            ("rpcId"@, JsonModel::Str("pet-"@ + decimal(seq as nat))),
            ("type"@, JsonModel::Str("client-request"@)),
        ],
    )
}

fn make_envelope(method: &str, payload: Json, seq: u64) -> (r: Json)
    ensures
        r@ == envelope(method@, payload@, seq),
{
    let mut v: Vec<(String, Json)> = Vec::new();
    v.push((own("method"), string(method)));
    v.push((own("payload"), payload));
    let id = joined("pet-", decimal_of(seq as u128).as_str());
    v.push((own("rpcId"), string(id.as_str())));
    v.push((own("type"), string("client-request")));
    let r = Json::Obj(v);
    assert(r@->Obj_0 =~= envelope(method@, payload@, seq)->Obj_0);
    r
}

/// The envelope that asks for the list of sessions.
pub fn session_list_envelope(seq: u64) -> (r: Json)
    ensures
        r@ == envelope("session.list"@, JsonModel::Obj(Seq::empty()), seq),
{
    let v: Vec<(String, Json)> = Vec::new();
    let payload = Json::Obj(v);
    assert(payload@->Obj_0 =~= Seq::empty());
    make_envelope("session.list", payload, seq)
}

/// The payload that asks for the history of a session.
pub open spec fn history_payload(h: HistoryModel, sid: Seq<char>) -> JsonModel {
    JsonModel::Obj(
        seq![
            (
                "maxMessages"@,
                JsonModel::Num(
                    num_model(
                        if h.last_seq.contains_key(sid) {
                            HISTORY_MAX_MESSAGES
                        } else {
                            HISTORY_MAX_MESSAGES_BASELINE
                        },
                    ),
                ),
            ),
            ("sessionId"@, JsonModel::Str(sid)),
        ],
    )
}

/// The envelope that asks for the history of a session: a long one the first
/// time, so that it reaches back to the start of the open turn.
pub fn session_history_envelope(st: &HistoryState, session_id: &str, seq: u64) -> (r: Json)
    ensures
        r@ == envelope("session.history"@, history_payload(st@, session_id@), seq),
{
    let n: u64 = if st.last_seq.contains(&own(session_id)) {
        HISTORY_MAX_MESSAGES
    } else {
        HISTORY_MAX_MESSAGES_BASELINE
    };
    let mut v: Vec<(String, Json)> = Vec::new();
    v.push((own("maxMessages"), number(n)));
    v.push((own("sessionId"), string(session_id)));
    let payload = Json::Obj(v);
    assert(payload@->Obj_0 =~= history_payload(st@, session_id@)->Obj_0);
    make_envelope("session.history", payload, seq)
}

/// The body of a session list request.
pub fn session_list_body(seq: u64) -> (r: String)
    ensures
        r@ == json_written(envelope("session.list"@, JsonModel::Obj(Seq::empty()), seq)),
{
    write_json(&session_list_envelope(seq))
}

/// The body of a session history request.
pub fn session_history_body(st: &HistoryState, session_id: &str, seq: u64) -> (r: String)
    ensures
        r@ == json_written(envelope("session.history"@, history_payload(st@, session_id@), seq)),
{
    write_json(&session_history_envelope(st, session_id, seq))
}

/// The entries in the answer to a history request.
pub open spec fn history_entries(answer: JsonModel) -> Result<Seq<JsonModel>, FetchFault> {
    let result = answer.at("result"@);
    if result.at("ok"@).is_true() {
        Ok(result.at("value"@).at("events"@).elements())
    } else {
        Err(FetchFault::NotOk(json_written(result)))
    }
}

/// What the answer to a history request gives and leaves to remember.
pub open spec fn history_answer(
    h: HistoryModel,
    sid: Seq<char>,
    answer: Result<Seq<JsonModel>, FetchFault>,
) -> (Result<Seq<EventModel>, FetchFault>, HistoryModel) {
    match answer {
        Err(e) => (Err(e), h),
        Ok(entries) => (
            Ok(history_result(h, sid, entries).evs),
            HistoryModel {
                last_seq: h.last_seq.insert(sid, highest_seq(entries, h.seq_of(sid))),
                open_calls: calls_after(h, sid, entries),
                recent: h.recent,
            },
        ),
    }
}

/// Model of a list of events, or of the reason why there is none.
pub open spec fn reported(r: Result<Vec<StateEvent>, FetchError>) -> Result<Seq<EventModel>, FetchFault> {
    match r {
        Ok(v) => Ok(events_of(v@)),
        Err(e) => Err(e@),
    }
}

/// Reads the answer to a history request and applies it.
pub fn read_history(answer: &Json, session_id: &str, st: &mut HistoryState) -> (r: Result<
    Vec<StateEvent>,
    FetchError,
>)
    ensures
        (reported(r), final(st)@) == history_answer(old(st)@, session_id@, history_entries(answer@)),
{
    let result = at(Some(answer), "result");
    if !is_true(at(result, "ok")) {
        return Err(refusal(result));
    }
    match as_array(at(at(result, "value"), "events")) {
        Some(v) => Ok(apply_history_events(session_id, v, st)),
        None => {
            let none: Vec<Json> = Vec::new();
            assert(jsons_of(none@) =~= Seq::<JsonModel>::empty());
            Ok(apply_history_events(session_id, &none, st))
        },
    }
}

/// Reads the response to a history request and applies it.
pub fn poll_history(status: u16, body: &[u8], session_id: &str, st: &mut HistoryState) -> (r: Result<
    Vec<StateEvent>,
    FetchError,
>)
    ensures
        (reported(r), final(st)@) == history_answer(
            old(st)@,
            session_id@,
            if status != 200 {
                Err(FetchFault::Status(status))
            } else {
                match json_in_bytes(body@) {
                    Err(e) => Err(FetchFault::NotJson(e)),
                    Ok(v) => history_entries(v),
                }
            },
        ),
{
    if status != 200 {
        return Err(FetchError::Status(status));
    }
    match parse_bytes(body) {
        Err(e) => Err(FetchError::NotJson(e)),
        Ok(v) => read_history(&v, session_id, st),
    }
}

/// The ids of the running sessions.
pub open spec fn running_ids(items: Seq<ItemModel>) -> Set<Seq<char>> {
    Set::new(
        |id: Seq<char>|
            exists|i: int| 0 <= i < items.len() && (#[trigger] items[i]).running && items[i].session_id == id,
    )
}

/// The sessions that stopped a short while ago, and for how many cycles.
pub open spec fn lingering(items: Seq<ItemModel>, recent: Map<Seq<char>, u32>) -> Map<Seq<char>, u32> {
    Map::new(
        |id: Seq<char>|
            recent.contains_key(id) && (running_ids(items).contains(id) || recent[id] < GRACE_CYCLES),
        |id: Seq<char>|
            if running_ids(items).contains(id) {
                0u32
            } else {
                (recent[id] + 1) as u32
            },
    )
}

/// What is remembered of recent sessions for the next cycle.
pub open spec fn next_recent(items: Seq<ItemModel>, recent: Map<Seq<char>, u32>) -> Map<Seq<char>, u32> {
    Map::new(
        |id: Seq<char>| running_ids(items).contains(id) || lingering(items, recent).contains_key(id),
        |id: Seq<char>|
            if lingering(items, recent).contains_key(id) {
                lingering(items, recent)[id]
            } else {
                0u32
            },
    )
}

fn collect_running(items: &Vec<SessionItem>) -> (r: OrdMap<String, ()>)
    ensures
        r@.dom() == running_ids(items_of(items@)),
{
    let ghost m = items_of(items@);
    let mut out: OrdMap<String, ()> = OrdMap::new();
    let mut i: usize = 0;
    while i < items.len()
        invariant
            i <= items@.len(),
            m == items_of(items@),
            forall|id: Seq<char>| #[trigger] out@.contains_key(id) <==> (exists|j: int|
                0 <= j < i && (#[trigger] m[j]).running && m[j].session_id == id),
        decreases items@.len() - i,
    {
        let ghost before = out@;
        assert(m[i as int] == items@[i as int]@);
        if items[i].running {
            out.insert(items[i].session_id.clone(), ());
        }
        i += 1;
    }
    assert(out@.dom() =~= running_ids(m));
    out
}

/// The sessions whose history to look at: the running ones, then those that
/// stopped a short while ago. Updates how long each has not been running.
pub fn history_targets(items: &Vec<SessionItem>, st: &mut HistoryState) -> (r: Vec<String>)
    ensures
        texts(r@) == ordered::<String>(running_ids(items_of(items@))) + ordered::<String>(
            lingering(items_of(items@), old(st)@.recent).dom(),
        ),
        final(st)@ == (HistoryModel { recent: next_recent(items_of(items@), old(st)@.recent), ..old(st)@ }),
{
    let ghost m = items_of(items@);
    let ghost rec = st@.recent;
    let running = collect_running(items);
    let ghost run = running_ids(m);
    let n: usize = running.len();
    let ghost rk = ordered::<String>(run);
    let mut out: Vec<String> = Vec::new();
    let mut next: OrdMap<String, u32> = OrdMap::new();
    let mut i: usize = 0;
    assert(texts(out@) =~= rk.take(0));
    while i < n
        invariant
            i <= n,
            run == running@.dom(),
            rk == ordered::<String>(run),
            n == rk.len(),
            n == running@.dom().len(),
            texts(out@) == rk.take(i as int),
            forall|id: Seq<char>| #[trigger] next@.contains_key(id) <==> rk.take(i as int).contains(id),
            forall|id: Seq<char>| #[trigger] next@.contains_key(id) ==> next@[id] == 0,
        decreases n - i,
    {
        let id = running.key_at(i).clone();
        let ghost before = out@;
        proof {
            crate::seqs::lemma_take_contains(rk, i as int);
        }
        out.push(id.clone());
        proof {
            assert(texts(out@) =~= texts(before).push(id@));
            assert(rk.take(i as int + 1) =~= rk.take(i as int).push(rk[i as int]));
        }
        next.insert(id, 0);
        i += 1;
    }
    assert(rk.take(n as int) =~= rk);
    let mut kept: OrdMap<String, ()> = OrdMap::new();
    let k: usize = st.recent.len();
    let ghost ck = ordered::<String>(rec.dom());
    let mut j: usize = 0;
    while j < k
        invariant
            j <= k,
            st@.recent == rec,
            run == running@.dom(),
            run == running_ids(m),
            ck == ordered::<String>(rec.dom()),
            k == ck.len(),
            k == rec.dom().len(),
            forall|id: Seq<char>| #[trigger] kept@.contains_key(id) <==> ck.take(j as int).contains(id)
                && lingering(m, rec).contains_key(id),
            forall|id: Seq<char>| #[trigger] next@.contains_key(id) <==> run.contains(id) || kept@.contains_key(id),
            forall|id: Seq<char>| #[trigger]
                next@.contains_key(id) ==> next@[id] == if kept@.contains_key(id) {
                    lingering(m, rec)[id]
                } else {
                    0u32
                },
        decreases k - j,
    {
        let id = st.recent.key_at(j).clone();
        let cycles: u32 = *st.recent.value_at(j);
        proof {
            crate::seqs::lemma_take_contains(ck, j as int);
        }
        let is_running = running.contains(&id);
        if is_running {
            kept.insert(id.clone(), ());
            next.insert(id, 0);
        } else if cycles < GRACE_CYCLES {
            kept.insert(id.clone(), ());
            next.insert(id, cycles + 1);
        }
        j += 1;
    }
    proof {
        assert(ck.take(k as int) =~= ck);
        assert forall|id: Seq<char>| #[trigger] kept@.contains_key(id) <==> lingering(m, rec).contains_key(id) by {
            assert(ck.contains(id) <==> rec.dom().contains(id));
        }
        assert(kept@.dom() =~= lingering(m, rec).dom());
        assert(next@ =~= next_recent(m, rec));
    }
    st.recent = next;
    let ghost lk = ordered::<String>(lingering(m, rec).dom());
    let q: usize = kept.len();
    let mut p: usize = 0;
    assert(rk + lk.take(0) =~= rk);
    while p < q
        invariant
            p <= q,
            lk == ordered::<String>(kept@.dom()),
            q == lk.len(),
            q == kept@.dom().len(),
            texts(out@) == rk + lk.take(p as int),
        decreases q - p,
    {
        let id = kept.key_at(p).clone();
        let ghost before = out@;
        out.push(id);
        proof {
            assert(texts(out@) =~= texts(before).push(id@));
            assert(lk.take(p as int + 1) =~= lk.take(p as int).push(lk[p as int]));
            assert(rk + lk.take(p as int).push(lk[p as int]) =~= (rk + lk.take(p as int)).push(lk[p as int]));
        }
        p += 1;
    }
    assert(lk.take(q as int) =~= lk);
    out
}


/// A background job of a session.
pub struct Job {
    pub id: String,
    pub status: String,
}

impl View for Job {
    type V = (Seq<char>, Seq<char>);

    open spec fn view(&self) -> (Seq<char>, Seq<char>) {
        (self.id@, self.status@)
    }
}

/// What an event stream remembers: the last job seen in each session.
pub struct StreamCtx {
    pub jobs: OrdMap<String, Job>,
}

impl View for StreamCtx {
    type V = Map<Seq<char>, (Seq<char>, Seq<char>)>;

    open spec fn view(&self) -> Map<Seq<char>, (Seq<char>, Seq<char>)> {
        self.jobs@
    }
}

impl Default for StreamCtx {
    fn default() -> (r: Self)
        ensures
            r@ == Map::<Seq<char>, (Seq<char>, Seq<char>)>::empty(),
    {
        StreamCtx { jobs: OrdMap::new() }
    }
}

/// The key of one item of a question: the id of its request, a zero character
/// and the id of the item. A request without an id leaves the bare item id.
pub open spec fn question_key(rpc_id: Seq<char>, item_id: Seq<char>) -> Seq<char> {
    if rpc_id.len() == 0 {
        item_id
    } else {
        rpc_id.push('\0') + item_id
    }
}

/// The key of one item of a question.
pub fn question_pending_id(rpc_id: &str, item_id: &str) -> (r: String)
    ensures
        r@ == question_key(rpc_id@, item_id@),
{
    if rpc_id.is_empty() {
        own(item_id)
    } else {
        let mut t = own(rpc_id);
        t.push('\0');
        t.append(item_id);
        t
    }
}

/// The job is running or about to.
pub open spec fn job_runs(status: Seq<char>) -> bool {
    status == "running"@ || status == "queued"@
}

fn runs(status: &str) -> (r: bool)
    ensures
        r == job_runs(status@),
{
    same_text(status, "running") || same_text(status, "queued")
}

/// What has been gathered from the first jobs of a list.
pub struct JobsModel {
    pub last: Option<(Seq<char>, Seq<char>)>,
    pub evs: Seq<EventModel>,
}

/// The jobs of a session, first to last, and the events they give.
pub open spec fn jobs_fold(start: Option<(Seq<char>, Seq<char>)>, sid: Seq<char>, jobs: Seq<JsonModel>) -> JobsModel
    decreases jobs.len(),
{
    if jobs.len() == 0 {
        JobsModel { last: start, evs: Seq::empty() }
    } else {
        let g = jobs_fold(start, sid, jobs.drop_last());
        let id = jobs.last().at("id"@).str_or_empty();
        let status = jobs.last().at("status"@).str_or_empty();
        if id.len() == 0 || g.last == Some((id, status)) {
            g
        } else {
            let was = g.last matches Some(j) && job_runs(j.1);
            JobsModel {
                last: Some((id, status)),
                evs: if job_runs(status) && !was {
                    g.evs.push(
                        EventModel::ToolStarted {
                            source: Source::Dsh,
                            session_id: sid,
                            name: "job:"@ + id,
                            arguments: None,
                        },
                    )
                } else if !job_runs(status) && was {
                    g.evs.push(
                        EventModel::ToolEnded {
                            source: Source::Dsh,
                            session_id: sid,
                            name: "job:"@ + id,
                            error: status == "failed"@,
                        },
                    )
                } else {
                    g.evs
                },
            }
        }
    }
}

/// The list names a job with this id.
pub open spec fn names_job(jobs: Seq<JsonModel>, id: Seq<char>) -> bool {
    exists|i: int| 0 <= i < jobs.len() && (#[trigger] jobs[i]).at("id"@).str_or_empty() == id
}

/// The jobs that are remembered after a job list: the session's last job, as
/// long as the list names it.
pub open spec fn jobs_after(
    ctx: Map<Seq<char>, (Seq<char>, Seq<char>)>,
    sid: Seq<char>,
    jobs: Seq<JsonModel>,
) -> Map<Seq<char>, (Seq<char>, Seq<char>)> {
    let start = if ctx.contains_key(sid) {
        Some(ctx[sid])
    } else {
        None
    };
    match jobs_fold(start, sid, jobs).last {
        Some(j) => if j.0.len() > 0 && names_job(jobs, j.0) {
            ctx.insert(sid, j)
        } else {
            ctx.remove(sid)
        },
        None => ctx,
    }
}

/// The events of a job list.
pub open spec fn job_events(
    ctx: Map<Seq<char>, (Seq<char>, Seq<char>)>,
    sid: Seq<char>,
    jobs: Seq<JsonModel>,
) -> Seq<EventModel> {
    jobs_fold(
        if ctx.contains_key(sid) {
            Some(ctx[sid])
        } else {
            None
        },
        sid,
        jobs,
    ).evs
}

/// The questions of a request.
pub open spec fn question_events(rpc_id: Seq<char>, sid: Seq<char>, qs: Seq<JsonModel>) -> Seq<EventModel> {
    qs.map_values(
        |q: JsonModel|
            EventModel::QuestionRequested {
                source: Source::Dsh,
                id: question_key(rpc_id, q.at("id"@).str_or_empty()),
                session_id: sid,
                text: q.at("question"@).str_or_empty(),
            },
    )
}

/// The payload of an envelope and its type, where it has both.
pub open spec fn frame_of(v: JsonModel) -> Option<(JsonModel, Seq<char>)> {
    match v.field("payload"@) {
        Some(p) => match p.at("type"@).as_str() {
            Some(t) => Some((p, t)),
            None => None,
        },
        None => None,
    }
}

/// The events of a frame of the request stream.
pub open spec fn mux_events(ctx: Map<Seq<char>, (Seq<char>, Seq<char>)>, v: JsonModel) -> Seq<EventModel> {
    match frame_of(v) {
        None => Seq::empty(),
        Some(f) => {
            let p = f.0;
            let sid = p.at("sessionId"@).str_or_empty();
            if f.1 == "session/jobs"@ {
                job_events(ctx, sid, p.at("jobs"@).elements())
            } else if f.1 == "approval/requested"@ {
                seq![
                    EventModel::ApprovalRequested {
                        source: Source::Dsh,
                        id: p.at("approvalId"@).str_or_empty(),
                        session_id: sid,
                        tool: p.at("toolName"@).str_or_empty(),
                    },
                ]
            } else if f.1 == "approval/resolved"@ {
                seq![
                    EventModel::ApprovalResolved { source: Source::Dsh, id: p.at("approvalId"@).str_or_empty() },
                ]
            } else if f.1 == "question/requested"@ {
                question_events(v.at("rpcId"@).str_or_empty(), sid, p.at("questions"@).elements())
            } else if f.1 == "question/resolved"@ {
                seq![
                    EventModel::QuestionResolved { source: Source::Dsh, id: p.at("questionRpcId"@).str_or_empty() },
                ]
            } else {
                Seq::empty()
            }
        },
    }
}

/// The jobs that are remembered after a frame of the request stream.
pub open spec fn mux_ctx(
    ctx: Map<Seq<char>, (Seq<char>, Seq<char>)>,
    v: JsonModel,
) -> Map<Seq<char>, (Seq<char>, Seq<char>)> {
    match frame_of(v) {
        Some(f) => if f.1 == "session/jobs"@ && f.0.at("jobs"@).as_array() is Some {
            jobs_after(ctx, f.0.at("sessionId"@).str_or_empty(), f.0.at("jobs"@).elements())
        } else {
            ctx
        },
        None => ctx,
    }
}

/// Nothing, where there are no events.
pub open spec fn some_events(evs: Seq<EventModel>) -> Option<Seq<EventModel>> {
    if evs.len() == 0 {
        None
    } else {
        Some(evs)
    }
}

/// Model of an optional list of events.
pub open spec fn opt_events(o: Option<Vec<StateEvent>>) -> Option<Seq<EventModel>> {
    match o {
        Some(v) => Some(events_of(v@)),
        None => None,
    }
}

fn read_jobs(ctx: &mut StreamCtx, sid: &String, jobs: &Vec<Json>) -> (r: Vec<StateEvent>)
    ensures
        events_of(r@) == job_events(old(ctx)@, sid@, jsons_of(jobs@)),
        final(ctx)@ == jobs_after(old(ctx)@, sid@, jsons_of(jobs@)),
{
    let ghost c0 = ctx@;
    let ghost m = jsons_of(jobs@);
    let ghost start = if c0.contains_key(sid@) {
        Some(c0[sid@])
    } else {
        None
    };
    let mut last: Option<Job> = ctx.jobs.remove(sid);
    let mut evs: Vec<StateEvent> = Vec::new();
    let mut i: usize = 0;
    assert(events_of(evs@) =~= Seq::<EventModel>::empty());
    while i < jobs.len()
        invariant
            i <= jobs@.len(),
            m == jsons_of(jobs@),
            opt_job(last) == jobs_fold(start, sid@, m.take(i as int)).last,
            events_of(evs@) == jobs_fold(start, sid@, m.take(i as int)).evs,
        decreases jobs@.len() - i,
    {
        proof {
            assert(m.take(i as int + 1).drop_last() =~= m.take(i as int));
            assert(m.take(i as int + 1).last() == jobs@[i as int]@);
        }
        let j = Some(&jobs[i]);
        let id = str_or_empty(at(j, "id"));
        let status = str_or_empty(at(j, "status"));
        if !id.as_str().is_empty() {
            let (same, was) = match &last {
                Some(p) => (
                    same_text(p.id.as_str(), id.as_str()) && same_text(p.status.as_str(), status.as_str()),
                    runs(p.status.as_str()),
                ),
                None => (false, false),
            };
            if !same {
                let now = runs(status.as_str());
                let name = joined("job:", id.as_str());
                let ghost before = evs@;
                if now && !was {
                    let e = StateEvent::ToolStarted {
                        source: Source::Dsh,
                        session_id: sid.clone(),
                        name,
                        arguments: None,
                    };
                    evs.push(e);
                    proof {
                        lemma_events_push(before, e);
                    }
                } else if !now && was {
                    let e = StateEvent::ToolEnded {
                        source: Source::Dsh,
                        session_id: sid.clone(),
                        name,
                        error: same_text(status.as_str(), "failed"),
                    };
                    evs.push(e);
                    proof {
                        lemma_events_push(before, e);
                    }
                }
                last = Some(Job { id, status });
            }
        }
        i += 1;
    }
    assert(m.take(i as int) =~= m);
    match last {
        Some(j) => {
            if !j.id.as_str().is_empty() && has_job(jobs, j.id.as_str()) {
                ctx.jobs.insert(sid.clone(), j);
            }
            assert(ctx@ =~= jobs_after(c0, sid@, m));
        },
        None => {
            proof {
                lemma_jobs_last(start, sid@, m);
                assert(c0.remove(sid@) =~= c0);
            }
        },
    }
    evs
}

proof fn lemma_jobs_last(start: Option<(Seq<char>, Seq<char>)>, sid: Seq<char>, jobs: Seq<JsonModel>)
    ensures
        jobs_fold(start, sid, jobs).last is None ==> start is None,
    decreases jobs.len(),
{
    if jobs.len() > 0 {
        lemma_jobs_last(start, sid, jobs.drop_last());
    }
}

/// Model of an optional job.
pub open spec fn opt_job(o: Option<Job>) -> Option<(Seq<char>, Seq<char>)> {
    match o {
        Some(j) => Some(j@),
        None => None,
    }
}

fn has_job(jobs: &Vec<Json>, id: &str) -> (r: bool)
    ensures
        r == names_job(jsons_of(jobs@), id@),
{
    let ghost m = jsons_of(jobs@);
    let mut i: usize = 0;
    while i < jobs.len()
        invariant
            i <= jobs@.len(),
            m == jsons_of(jobs@),
            forall|j: int| 0 <= j < i ==> (#[trigger] m[j]).at("id"@).str_or_empty() != id@,
        decreases jobs@.len() - i,
    {
        assert(m[i as int] == jobs@[i as int]@);
        if same_text(str_or_empty(at(Some(&jobs[i]), "id")).as_str(), id) {
            return true;
        }
        i += 1;
    }
    false
}

fn read_questions(rpc_id: &str, sid: &str, qs: &Vec<Json>) -> (r: Vec<StateEvent>)
    ensures
        events_of(r@) == question_events(rpc_id@, sid@, jsons_of(qs@)),
{
    let ghost want = question_events(rpc_id@, sid@, jsons_of(qs@));
    let mut evs: Vec<StateEvent> = Vec::new();
    let mut i: usize = 0;
    while i < qs.len()
        invariant
            i <= qs@.len(),
            want == question_events(rpc_id@, sid@, jsons_of(qs@)),
            evs@.len() == i,
            forall|j: int| 0 <= j < i ==> (#[trigger] evs@[j])@ == want[j],
        decreases qs@.len() - i,
    {
        let q = Some(&qs[i]);
        let item = str_or_empty(at(q, "id"));
        let e = StateEvent::QuestionRequested {
            source: Source::Dsh,
            id: question_pending_id(rpc_id, item.as_str()),
            session_id: own(sid),
            text: str_or_empty(at(q, "question")),
        };
        assert(e@ == want[i as int]);
        evs.push(e);
        i += 1;
    }
    assert(events_of(evs@) =~= want);
    evs
}

fn one_event(e: StateEvent) -> (r: Vec<StateEvent>)
    ensures
        events_of(r@) == seq![e@],
{
    let mut v: Vec<StateEvent> = Vec::new();
    v.push(e);
    assert(events_of(v@) =~= seq![e@]);
    v
}

fn no_events() -> (r: Vec<StateEvent>)
    ensures
        events_of(r@) == Seq::<EventModel>::empty(),
{
    let v: Vec<StateEvent> = Vec::new();
    assert(events_of(v@) =~= Seq::<EventModel>::empty());
    v
}

/// Reads a frame of the request stream: approvals, questions and jobs.
pub fn read_mux_frame(ctx: &mut StreamCtx, v: &Json) -> (r: Option<Vec<StateEvent>>)
    ensures
        opt_events(r) == some_events(mux_events(old(ctx)@, v@)),
        final(ctx)@ == mux_ctx(old(ctx)@, v@),
{
    let payload = match v.get("payload") {
        Some(p) => Some(p),
        None => {
            return None;
        },
    };
    let ftype = match as_str(at(payload, "type")) {
        Some(t) => t,
        None => {
            return None;
        },
    };
    let sid = str_or_empty(at(payload, "sessionId"));
    let evs = if same_text(ftype, "session/jobs") {
        match as_array(at(payload, "jobs")) {
            Some(jobs) => read_jobs(ctx, &sid, jobs),
            None => no_events(),
        }
    } else if same_text(ftype, "approval/requested") {
        one_event(
            StateEvent::ApprovalRequested {
                source: Source::Dsh,
                id: str_or_empty(at(payload, "approvalId")),
                session_id: sid,
                tool: str_or_empty(at(payload, "toolName")),
            },
        )
    } else if same_text(ftype, "approval/resolved") {
        one_event(
            StateEvent::ApprovalResolved { source: Source::Dsh, id: str_or_empty(at(payload, "approvalId")) },
        )
    } else if same_text(ftype, "question/requested") {
        let rpc_id = str_or_empty(v.get("rpcId"));
        match as_array(at(payload, "questions")) {
            Some(qs) => read_questions(rpc_id.as_str(), sid.as_str(), qs),
            None => {
                let none = no_events();
                assert(question_events(rpc_id@, sid@, Seq::empty()) =~= Seq::<EventModel>::empty());
                none
            },
        }
    } else if same_text(ftype, "question/resolved") {
        one_event(
            StateEvent::QuestionResolved { source: Source::Dsh, id: str_or_empty(at(payload, "questionRpcId")) },
        )
    } else {
        no_events()
    };
    assert(events_of(evs@).len() == evs@.len());
    if evs.len() == 0 {
        None
    } else {
        Some(evs)
    }
}

/// The events of a frame of the host stream.
pub open spec fn host_events(v: JsonModel) -> Option<Seq<EventModel>> {
    match frame_of(v) {
        Some(f) => if f.1 == "host/session-status"@ && f.0.at("sessionId"@).str_or_empty().len() > 0 {
            Some(
                seq![
                    EventModel::SessionStatus {
                        source: Source::Dsh,
                        session_id: f.0.at("sessionId"@).str_or_empty(),
                        running: f.0.at("running"@).is_true(),
                    },
                ],
            )
        } else {
            None
        },
        None => None,
    }
}

/// Reads a frame of the host stream: sessions that start or stop running.
pub fn read_host_frame(v: &Json) -> (r: Option<Vec<StateEvent>>)
    ensures
        opt_events(r) == host_events(v@),
{
    let payload = match v.get("payload") {
        Some(p) => Some(p),
        None => {
            return None;
        },
    };
    let ftype = match as_str(at(payload, "type")) {
        Some(t) => t,
        None => {
            return None;
        },
    };
    if !same_text(ftype, "host/session-status") {
        return None;
    }
    let sid = str_or_empty(at(payload, "sessionId"));
    if sid.as_str().is_empty() {
        return None;
    }
    let running = is_true(at(payload, "running"));
    Some(one_event(StateEvent::SessionStatus { source: Source::Dsh, session_id: sid, running }))
}

/// Handles one envelope of the request stream.
pub fn handle_mux_frame(ctx: &mut StreamCtx, envelope: &str) -> (r: Option<Vec<StateEvent>>)
    ensures
        match json_in_text(envelope@) {
            None => r is None && final(ctx)@ == old(ctx)@,
            Some(v) => {
                &&& opt_events(r) == some_events(mux_events(old(ctx)@, v))
                &&& final(ctx)@ == mux_ctx(old(ctx)@, v)
            },
        },
{
    match parse_text(envelope) {
        None => None,
        Some(v) => read_mux_frame(ctx, &v),
    }
}

/// Handles one envelope of the host stream.
pub fn handle_host_frame(envelope: &str) -> (r: Option<Vec<StateEvent>>)
    ensures
        opt_events(r) == match json_in_text(envelope@) {
            None => None,
            Some(v) => host_events(v),
        },
{
    match parse_text(envelope) {
        None => None,
        Some(v) => read_host_frame(&v),
    }
}

/// How many values stand before the first that could not be read.
pub open spec fn sound_len(v: Seq<Option<JsonModel>>) -> nat
    decreases v.len(),
{
    if v.len() == 0 {
        0
    } else {
        let n = sound_len(v.drop_last());
        if n == v.len() - 1 && v.last() is Some {
            v.len()
        } else {
            n
        }
    }
}

/// The values before the first that could not be read, as they are written.
pub open spec fn written_values(v: Seq<Option<JsonModel>>) -> Seq<Seq<char>> {
    Seq::new(sound_len(v), |i: int| json_written(v[i]->0))
}

proof fn lemma_sound_len_stays(v: Seq<Option<JsonModel>>, n: int)
    requires
        0 <= n <= v.len(),
        sound_len(v.take(n)) < n,
    ensures
        sound_len(v) == sound_len(v.take(n)),
    decreases v.len(),
{
    if n == v.len() {
        assert(v.take(n) =~= v);
    } else {
        assert(v.drop_last().take(n) =~= v.take(n));
        lemma_sound_len_stays(v.drop_last(), n);
    }
}

/// Writes out the values before the first that could not be read.
pub fn write_values(values: &Vec<Option<Json>>) -> (r: Vec<String>)
    ensures
        texts(r@) == written_values(opt_jsons(values@)),
{
    let ghost m = opt_jsons(values@);
    let mut out: Vec<String> = Vec::new();
    let mut i: usize = 0;
    while i < values.len()
        invariant
            i <= values@.len(),
            m == opt_jsons(values@),
            sound_len(m.take(i as int)) == i,
            texts(out@) == Seq::new(i as nat, |k: int| json_written(m[k]->0)),
        decreases values@.len() - i,
    {
        proof {
            assert(m.take(i as int + 1).drop_last() =~= m.take(i as int));
            assert(m.take(i as int + 1).last() == m[i as int]);
        }
        let ghost before = out@;
        match &values[i] {
            Some(v) => {
                out.push(write_json(v));
                assert(texts(out@) =~= texts(before).push(json_written(v@)));
            },
            None => {
                proof {
                    lemma_sound_len_stays(m, i as int + 1);
                }
                return out;
            },
        }
        i += 1;
    }
    assert(m.take(i as int) =~= m);
    out
}

/// The envelopes in the payload of a frame: the values that stand in it one
/// after the other, up to the first that is not JSON.
pub fn split_json(payload: &[u8]) -> (r: Vec<String>)
    ensures
        texts(r@) == written_values(json_stream_in(lossy_text_of(payload@))),
{
    let text = lossy_text(payload);
    let values = stream_values(text.as_str());
    write_values(&values)
}

/// What the request stream reports as soon as it is connected: the source will
/// replay the requests that are still open, so those known are forgotten.
pub fn on_mux_connected() -> (r: StateEvent)
    ensures
        r@ == (EventModel::PendingSync { source: Source::Dsh }),
{
    StateEvent::PendingSync { source: Source::Dsh }
}

/// A stream that was silent for this long does not vouch for the source.
pub const FRAME_TIMEOUT_MS: u64 = 10_000;

/// Whether the source is up: the last poll succeeded, or a frame came in lately.
pub fn is_healthy(poll_ok: bool, ms_since_frame: u64) -> (r: bool)
    ensures
        r == (poll_ok || ms_since_frame < FRAME_TIMEOUT_MS),
{
    poll_ok || ms_since_frame < FRAME_TIMEOUT_MS
}

/// How long to wait after a poll that took `elapsed`: at least a tenth of a second.
pub fn poll_wait(poll_ms: u64, elapsed: u64) -> (r: u64)
    ensures
        r == if poll_ms >= elapsed && poll_ms - elapsed > 100 {
            poll_ms - elapsed
        } else {
            100
        },
{
    let w: u64 = poll_ms.saturating_sub(elapsed);
    if w > 100 {
        w
    } else {
        100
    }
}

/// How long to wait after a look at the histories: they are looked at every
/// `history_ms`, but not more often than every 300 ms.
pub fn history_wait(history_ms: u64, elapsed: u64) -> (r: u64)
    ensures
        ({
            let interval = if history_ms > 300 {
                history_ms
            } else {
                300
            };
            r == if interval > elapsed {
                interval - elapsed
            } else {
                0
            }
        }),
{
    let interval: u64 = if history_ms > 300 {
        history_ms
    } else {
        300
    };
    interval.saturating_sub(elapsed)
}

proof fn lemma_highest_bounds(entries: Seq<JsonModel>, last: u64)
    ensures
        highest_seq(entries, last) >= last,
        forall|i: int| 0 <= i < entries.len() ==> seq_in(#[trigger] entries[i]) <= highest_seq(entries, last),
    decreases entries.len(),
{
    if entries.len() > 0 {
        let t = entries.drop_last();
        lemma_highest_bounds(t, last);
        assert forall|i: int| 0 <= i < entries.len() implies seq_in(#[trigger] entries[i]) <= highest_seq(
            entries,
            last,
        ) by {
            if i < t.len() {
                assert(t[i] == entries[i]);
            }
        }
    }
}

proof fn lemma_gather_skips(start: GatheredModel, sid: Seq<char>, entries: Seq<JsonModel>, last: u64, first_look: bool)
    requires
        forall|i: int| 0 <= i < entries.len() ==> seq_in(#[trigger] entries[i]) <= last,
    ensures
        gather(start, sid, entries, last, first_look) == start,
    decreases entries.len(),
{
    if entries.len() > 0 {
        let t = entries.drop_last();
        assert forall|i: int| 0 <= i < t.len() implies seq_in(#[trigger] t[i]) <= last by {
            assert(t[i] == entries[i]);
        }
        lemma_gather_skips(start, sid, t, last, first_look);
        assert(entries.last() == entries[entries.len() - 1]);
    }
}

/// An event is never applied twice: a batch that was applied gives nothing the
/// next time, and changes nothing that is remembered.
pub proof fn law_history_applies_once(h: HistoryModel, sid: Seq<char>, entries: Seq<JsonModel>)
    ensures
        ({
            let after = history_answer(h, sid, Ok(entries)).1;
            let again = history_answer(after, sid, Ok(entries));
            &&& again.0 == Ok::<Seq<EventModel>, FetchFault>(Seq::empty())
            &&& again.1.last_seq == after.last_seq
            &&& again.1.open_calls == after.open_calls
        }),
{
    let after = history_answer(h, sid, Ok(entries)).1;
    lemma_highest_bounds(entries, h.seq_of(sid));
    let top = highest_seq(entries, h.seq_of(sid));
    lemma_gather_skips(gather_start(after, sid), sid, entries, top, false);
    lemma_highest_bounds(entries, top);
    lemma_highest_stays(entries, top);
    assert(after.last_seq.insert(sid, top) =~= after.last_seq);
    assert(calls_after(after, sid, entries) =~= after.open_calls);
}

proof fn lemma_highest_stays(entries: Seq<JsonModel>, last: u64)
    requires
        forall|i: int| 0 <= i < entries.len() ==> seq_in(#[trigger] entries[i]) <= last,
    ensures
        highest_seq(entries, last) == last,
    decreases entries.len(),
{
    if entries.len() > 0 {
        let t = entries.drop_last();
        assert forall|i: int| 0 <= i < t.len() implies seq_in(#[trigger] t[i]) <= last by {
            assert(t[i] == entries[i]);
        }
        lemma_highest_stays(t, last);
        assert(entries.last() == entries[entries.len() - 1]);
    }
}

/// The first look at a session tells no ending and replays no streamed text.
pub proof fn law_baseline_is_quiet(h: HistoryModel, sid: Seq<char>, entries: Seq<JsonModel>, i: int)
    requires
        !h.last_seq.contains_key(sid),
        0 <= i < history_result(h, sid, entries).evs.len(),
    ensures
        !(history_result(h, sid, entries).evs[i] is TurnEnded),
        !(history_result(h, sid, entries).evs[i] is LiveText),
{
    lemma_baseline_quiet(gather_start(h, sid), sid, entries, h.seq_of(sid));
}

proof fn lemma_baseline_quiet(start: GatheredModel, sid: Seq<char>, entries: Seq<JsonModel>, last: u64)
    requires
        start.evs.len() == 0,
    ensures
        forall|i: int|
            0 <= i < gather(start, sid, entries, last, true).evs.len() ==> ({
                let e = #[trigger] gather(start, sid, entries, last, true).evs[i];
                !(e is TurnEnded) && !(e is LiveText) && !(e is TurnStarted)
            }),
    decreases entries.len(),
{
    if entries.len() > 0 {
        lemma_baseline_quiet(start, sid, entries.drop_last(), last);
    }
}

/// An entry whose event is of this kind and belongs to this turn.
pub open spec fn is_of_turn(entry: JsonModel, kind: Seq<char>, turn: u64) -> bool {
    let ev = entry.at("event"@);
    ev.at("type"@).str_or_empty() == kind && ev.at("data"@).at("turn"@).as_u64() == Some(turn)
}

proof fn lemma_ended_turn(
    start: GatheredModel,
    sid: Seq<char>,
    entries: Seq<JsonModel>,
    last: u64,
    k: int,
    turn: u64,
)
    requires
        0 <= k < entries.len(),
        seq_in(entries[k]) > last,
        is_of_turn(entries[k], "turn/end"@, turn),
        forall|j: int| k < j < entries.len() ==> !is_of_turn(#[trigger] entries[j], "turn/start"@, turn),
    ensures
        gather(start, sid, entries, last, true).ended.contains(turn),
        gather(start, sid, entries, last, true).open_turn != Some(turn),
    decreases entries.len(),
{
    let t = entries.drop_last();
    let g = gather(start, sid, t, last, true);
    let e = entries.last();
    reveal_strlit("turn/start");
    reveal_strlit("turn/end");
    assert("turn/start"@ != "turn/end"@) by {
        assert("turn/start"@.len() != "turn/end"@.len());
    }
    let n = e.at("event"@).at("data"@).at("turn"@).as_u64();
    if k == entries.len() - 1 {
        assert(g.closed(n).ended.last() == turn);
    } else {
        assert forall|j: int| k < j < t.len() implies !is_of_turn(#[trigger] t[j], "turn/start"@, turn) by {
            assert(t[j] == entries[j]);
        }
        lemma_ended_turn(start, sid, t, last, k, turn);
        assert(!is_of_turn(entries[entries.len() - 1], "turn/start"@, turn));
        let i = g.ended.index_of(turn);
        assert(g.ended[i] == turn);
        if n is Some {
            assert(g.ended.push(n->0)[i] == turn);
        }
    }
}

/// A turn that ended among the entries of a first look, and did not start again
/// behind its end, is not told as open, whatever other events name it.
pub proof fn law_no_phantom_turn(
    h: HistoryModel,
    sid: Seq<char>,
    entries: Seq<JsonModel>,
    k: int,
    turn: u64,
    i: int,
)
    requires
        !h.last_seq.contains_key(sid),
        0 <= k < entries.len(),
        seq_in(entries[k]) > 0,
        is_of_turn(entries[k], "turn/end"@, turn),
        forall|j: int| k < j < entries.len() ==> !is_of_turn(#[trigger] entries[j], "turn/start"@, turn),
        0 <= i < history_result(h, sid, entries).evs.len(),
    ensures
        history_result(h, sid, entries).evs[i] != (EventModel::TurnStarted { source: Source::Dsh, session_id: sid, turn }),
{
    lemma_baseline_quiet(gather_start(h, sid), sid, entries, h.seq_of(sid));
    lemma_ended_turn(gather_start(h, sid), sid, entries, h.seq_of(sid), k, turn);
}

/// A call of a turn that has ended and is not open again starts no tool.
pub proof fn law_late_calls_start_nothing(g: GatheredModel, sid: Seq<char>, entry: JsonModel, turn: u64)
    requires
        is_of_turn(entry, "tool/call"@, turn),
        g.ended.contains(turn),
        g.open_turn != Some(turn),
    ensures
        g.baseline(sid, entry.at("event"@)) == g,
{
    reveal_strlit("turn/start");
    reveal_strlit("turn/end");
    reveal_strlit("tool/call");
    assert("turn/start"@[1] != "tool/call"@[1]);
    assert("turn/end"@[1] != "tool/call"@[1]);
}

/// Every question of a request is keyed so that resolving the request clears it.
pub proof fn law_question_keys(rpc_id: Seq<char>, item_id: Seq<char>)
    requires
        rpc_id.len() > 0,
    ensures
        crate::text::has_prefix(question_key(rpc_id, item_id), rpc_id.push('\0')),
{
    let p = rpc_id.push('\0');
    assert((p + item_id).take(p.len() as int) =~= p);
}

/// A session that stopped is looked at for a few cycles more, then no longer.
pub proof fn law_grace(items: Seq<ItemModel>, recent: Map<Seq<char>, u32>, id: Seq<char>)
    requires
        recent.contains_key(id),
        !running_ids(items).contains(id),
    ensures
        recent[id] < GRACE_CYCLES ==> next_recent(items, recent).contains_key(id) && next_recent(items, recent)[id]
            == recent[id] + 1,
        recent[id] >= GRACE_CYCLES ==> !next_recent(items, recent).contains_key(id),
{
}

} // verus!
