//! The image generator: a queue that is polled and a stream of execution events.
//!
//! One prompt is one turn, and the node that executes is a tool. A prompt is
//! started once and ended once, whichever of the two reports it first.

use vstd::prelude::*;
use vstd::string::*;

use crate::connectors::dsh::{FetchError, FetchFault};
use crate::event::{events_of, EventModel, ItemModel, SessionItem, Source, StateEvent, TurnEndReason};
use crate::event::items_of;
use crate::json::{
    as_array, as_str, as_u64, at, json_in_bytes, json_in_text, jsons_of, lossy_text, lossy_text_of, parse_bytes,
    parse_text, str_or_empty, val, Json, JsonModel,
};
use crate::ordmap::{kept, ordered, Keep, OrdMap};
use crate::state::within;
use crate::text::{
    after_prefix, contains_text, decimal, decimal_of, has_text, joined, lowered, number_in, opt_text, own, parse_u64,
    same_text, strip_prefix, texts, to_lower,
};

verus! {

/// Prompts that ended are remembered for this long; their ids never repeat.
pub const FINISHED_TTL_MS: u64 = 180_000;

/// Visible change of a progress, in percent.
pub const PROGRESS_STEP: u32 = 10;

/// What is known of the prompts, and the events that are ready to be sent.
pub struct RunState {
    /// Prompts whose turn is open.
    pub running: OrdMap<String, ()>,
    /// When each prompt ended.
    pub finished: OrdMap<String, u64>,
    /// The node that each prompt executes.
    pub node: OrdMap<String, String>,
    /// The class of each node of each prompt's graph.
    pub node_classes: OrdMap<String, OrdMap<String, String>>,
    /// The progress that was last shown, in percent.
    pub progress_pct: OrdMap<String, u32>,
    /// Events to send.
    pub out: Vec<StateEvent>,
}

/// Model of a [`RunState`].
#[verifier::ext_equal]
pub struct RunModel {
    pub running: Set<Seq<char>>,
    pub finished: Map<Seq<char>, u64>,
    pub node: Map<Seq<char>, Seq<char>>,
    pub node_classes: Map<Seq<char>, Map<Seq<char>, Seq<char>>>,
    pub progress_pct: Map<Seq<char>, u32>,
    pub out: Seq<EventModel>,
}

impl View for RunState {
    type V = RunModel;

    open spec fn view(&self) -> RunModel {
        RunModel {
            running: self.running@.dom(),
            finished: self.finished@,
            node: self.node@,
            node_classes: self.node_classes@,
            progress_pct: self.progress_pct@,
            out: events_of(self.out@),
        }
    }
}

impl Default for RunState {
    fn default() -> (r: Self)
        ensures
            r@ == (RunModel {
                running: Set::empty(),
                finished: Map::empty(),
                node: Map::empty(),
                node_classes: Map::empty(),
                progress_pct: Map::empty(),
                out: Seq::empty(),
            }),
    {
        let r = RunState {
            running: OrdMap::new(),
            finished: OrdMap::new(),
            node: OrdMap::new(),
            node_classes: OrdMap::new(),
            progress_pct: OrdMap::new(),
            out: Vec::new(),
        };
        assert(r@ =~= (RunModel {
            running: Set::empty(),
            finished: Map::empty(),
            node: Map::empty(),
            node_classes: Map::empty(),
            progress_pct: Map::empty(),
            out: Seq::empty(),
        }));
        r
    }
}

/// The name shown while nothing is known of the node that executes.
pub open spec fn placeholder() -> Seq<char> {
    "执行中"@
}

/// The first value in the order of the keys whose lower case holds `part`.
pub open spec fn first_holding(m: Map<Seq<char>, Seq<char>>, ks: Seq<Seq<char>>, part: Seq<char>) -> Option<Seq<char>>
    decreases ks.len(),
{
    if ks.len() == 0 {
        None
    } else if has_text(lowered(m[ks[0]]), part) {
        Some(m[ks[0]])
    } else {
        first_holding(m, ks.drop_first(), part)
    }
}

/// The node that stands for a graph: a sampler, else a decoder, else any node.
pub open spec fn node_label(m: Map<Seq<char>, Seq<char>>) -> Option<Seq<char>> {
    let ks = ordered::<String>(m.dom());
    match first_holding(m, ks, "sampler"@) {
        Some(s) => Some(s),
        None => match first_holding(m, ks, "vaedecode"@) {
            Some(s) => Some(s),
            None => if ks.len() > 0 {
                Some(m[ks[0]])
            } else {
                None
            },
        },
    }
}

/// The node that stands for a prompt.
pub open spec fn label_or_placeholder(m: RunModel, pid: Seq<char>) -> Seq<char> {
    if m.node_classes.contains_key(pid) && node_label(m.node_classes[pid]) is Some {
        node_label(m.node_classes[pid])->0
    } else {
        placeholder()
    }
}

impl RunModel {
    pub open spec fn emit(self, ev: EventModel) -> RunModel {
        RunModel { out: self.out.push(ev), ..self }
    }

    pub open spec fn tool_started(self, pid: Seq<char>, name: Seq<char>, arguments: Option<Seq<char>>) -> RunModel {
        self.emit(EventModel::ToolStarted { source: Source::ComfyUi, session_id: pid, name, arguments })
    }

    pub open spec fn tool_ended(self, pid: Seq<char>, name: Seq<char>) -> RunModel {
        self.emit(EventModel::ToolEnded { source: Source::ComfyUi, session_id: pid, name, error: false })
    }

    /// Another node executes.
    pub open spec fn set_node(self, pid: Seq<char>, name: Seq<char>) -> RunModel {
        RunModel {
            node: self.node.insert(pid, name),
            progress_pct: self.progress_pct.remove(pid),
            ..self
        }
    }

    /// Opens the turn of a prompt, unless it is open or over.
    pub open spec fn start_turn(self, pid: Seq<char>) -> RunModel {
        if self.running.contains(pid) || self.finished.contains_key(pid) {
            self
        } else {
            RunModel { running: self.running.insert(pid), ..self }.emit(
                EventModel::TurnStarted { source: Source::ComfyUi, session_id: pid, turn: 1 },
            )
        }
    }

    /// Shows a node for a prompt that is not over and shows none.
    pub open spec fn ensure_placeholder(self, pid: Seq<char>) -> RunModel {
        if self.finished.contains_key(pid) || self.node.contains_key(pid) {
            self
        } else {
            let name = label_or_placeholder(self, pid);
            self.set_node(pid, name).tool_started(pid, name, None)
        }
    }

    /// The better name for the node that a prompt shows, where there is one.
    pub open spec fn better_name(self, pid: Seq<char>) -> Option<Seq<char>> {
        if !self.node.contains_key(pid) || !self.node_classes.contains_key(pid) {
            None
        } else {
            let cur = self.node[pid];
            let classes = self.node_classes[pid];
            let target = if cur == placeholder() {
                Some(label_or_placeholder(self, pid))
            } else {
                match after_prefix(cur, "#"@) {
                    Some(rest) => match number_in(rest) {
                        Some(id) => if classes.contains_key(decimal(id as nat)) {
                            Some(classes[decimal(id as nat)])
                        } else {
                            None
                        },
                        None => None,
                    },
                    None => None,
                }
            };
            if target == Some(cur) {
                None
            } else {
                target
            }
        }
    }

    /// Gives the shown node its better name.
    pub open spec fn resolve_node_names(self, pid: Seq<char>) -> RunModel {
        match self.better_name(pid) {
            Some(name) => self.set_node(pid, name).tool_ended(pid, self.node[pid]).tool_started(pid, name, None),
            None => self,
        }
    }

    /// No node executes any more.
    pub open spec fn end_node(self, pid: Seq<char>) -> RunModel {
        if self.node.contains_key(pid) {
            RunModel {
                node: self.node.remove(pid),
                progress_pct: self.progress_pct.remove(pid),
                ..self
            }.tool_ended(pid, self.node[pid])
        } else {
            self
        }
    }

    /// Ends a prompt, unless it is over.
    pub open spec fn finish_prompt(self, pid: Seq<char>, reason: TurnEndReason, now: u64) -> RunModel {
        if self.finished.contains_key(pid) {
            self
        } else {
            let m = self.end_node(pid);
            RunModel {
                running: m.running.remove(pid),
                node_classes: m.node_classes.remove(pid),
                finished: m.finished.insert(pid, now),
                ..m
            }.emit(EventModel::TurnEnded { source: Source::ComfyUi, session_id: pid, turn: 1, reason })
        }
    }

    /// A node starts to execute.
    pub open spec fn executing(self, pid: Seq<char>, node: JsonModel) -> RunModel {
        let m = self.start_turn(pid);
        if node is Null {
            m.end_node(pid)
        } else {
            let id = match number_of(node) {
                Some(n) => Some(n),
                None => match node.as_str() {
                    Some(s) => number_in(s),
                    None => None,
                },
            };
            match id {
                None => m,
                Some(n) => {
                    let key = decimal(n as nat);
                    let name = if m.node_classes.contains_key(pid) && m.node_classes[pid].contains_key(key) {
                        m.node_classes[pid][key]
                    } else {
                        "#"@ + key
                    };
                    if name.len() == 0 || (m.node.contains_key(pid) && m.node[pid] == name) {
                        m
                    } else {
                        let e = if m.node.contains_key(pid) {
                            m.tool_ended(pid, m.node[pid])
                        } else {
                            m
                        };
                        e.set_node(pid, name).tool_started(pid, name, None)
                    }
                },
            }
        }
    }

    /// The progress of the node that executes; shown where it moved visibly.
    pub open spec fn progress(self, pid: Seq<char>, data: JsonModel) -> RunModel {
        let value = number_of(data.at("value"@));
        let max = number_of(data.at("max"@));
        if !self.node.contains_key(pid) || value is None || max is None || max == Some(0u64) {
            self
        } else {
            let pct = percent(value->0, max->0);
            let prev = if self.progress_pct.contains_key(pid) {
                self.progress_pct[pid]
            } else {
                0
            };
            if distance(pct, prev) >= PROGRESS_STEP || value == max {
                RunModel { progress_pct: self.progress_pct.insert(pid, pct), ..self }.tool_started(
                    pid,
                    self.node[pid],
                    Some(decimal(value->0 as nat) + "/"@ + decimal(max->0 as nat)),
                )
            } else {
                self
            }
        }
    }

    /// One message of the event stream.
    pub open spec fn ws_message(self, msg: JsonModel, now: u64) -> RunModel {
        let t = msg.at("type"@).str_or_empty();
        let data = msg.at("data"@);
        let pid = data.at("prompt_id"@).str_or_empty();
        if t == "execution_start"@ {
            if pid.len() > 0 {
                self.start_turn(pid).ensure_placeholder(pid)
            } else {
                self
            }
        } else if t == "executing"@ {
            if pid.len() > 0 {
                self.executing(pid, data.at("node"@))
            } else {
                self
            }
        } else if t == "progress"@ {
            self.progress(pid, data)
        } else if t == "execution_success"@ {
            if pid.len() > 0 {
                self.finish_prompt(pid, TurnEndReason::Completed, now)
            } else {
                self
            }
        } else if t == "execution_error"@ {
            if pid.len() > 0 {
                self.finish_prompt(pid, TurnEndReason::Error, now)
            } else {
                self
            }
        } else if t == "execution_interrupted"@ {
            if pid.len() > 0 {
                self.finish_prompt(pid, TurnEndReason::Interrupted, now)
            } else {
                self
            }
        } else if t == "status"@ {
            match data.at("status"@).at("exec_info"@).at("queue_remaining"@).as_u64() {
                Some(n) => self.emit(
                    EventModel::QueueChanged { source: Source::ComfyUi, pending: n as u32 },
                ),
                None => self,
            }
        } else {
            self
        }
    }

    /// One entry of the queue: its graph is kept, its turn opened, its node shown.
    pub open spec fn queued(self, q: QueueModel) -> RunModel {
        RunModel { node_classes: self.node_classes.insert(q.pid, q.classes), ..self }.start_turn(
            q.pid,
        ).ensure_placeholder(q.pid).resolve_node_names(q.pid)
    }

    /// All entries of the queue, first to last.
    pub open spec fn queue_read(self, v: Seq<JsonModel>) -> RunModel
        decreases v.len(),
    {
        if v.len() == 0 {
            self
        } else {
            let m = self.queue_read(v.drop_last());
            match queue_entry(v.last()) {
                Some(q) => m.queued(q),
                None => m,
            }
        }
    }

    /// The state after a poll has read the queue.
    pub open spec fn polled(self, now: u64, running: Seq<JsonModel>, pending: u32) -> RunModel {
        RunModel {
            finished: kept(self.finished, |k: Seq<char>, at: u64| within(now, at, FINISHED_TTL_MS)),
            ..self
        }.emit(EventModel::QueueChanged { source: Source::ComfyUi, pending }).queue_read(running)
    }
}

/// The share of `value` in `max`, in percent.
pub open spec fn percent(value: u64, max: u64) -> u32 {
    ((value * 100) / max as int) as u32
}

/// How far two numbers lie apart.
pub open spec fn distance(a: u32, b: u32) -> int {
    if a > b {
        a - b
    } else {
        b - a
    }
}

/// A number without its fraction.
pub open spec fn number_of(v: JsonModel) -> Option<u64> {
    match v {
        JsonModel::Num(n) => match n.unsigned {
            Some(u) => Some(u),
            None => Some(n.truncated),
        },
        _ => None,
    }
}

/// Model of a queue entry.
pub struct QueueModel {
    pub pid: Seq<char>,
    pub number: u64,
    pub classes: Map<Seq<char>, Seq<char>>,
}

/// One entry of the queue.
pub struct QueueItem {
    /// The prompt.
    pub pid: String,
    /// Its number in the queue.
    pub number: u64,
    /// The class of each node of its graph.
    pub classes: OrdMap<String, String>,
}

impl View for QueueItem {
    type V = QueueModel;

    open spec fn view(&self) -> QueueModel {
        QueueModel { pid: self.pid@, number: self.number, classes: self.classes@ }
    }
}

/// The class of each node of a graph.
pub open spec fn classes_in(v: Seq<(Seq<char>, JsonModel)>) -> Map<Seq<char>, Seq<char>>
    decreases v.len(),
{
    if v.len() == 0 {
        Map::empty()
    } else {
        let rest = classes_in(v.drop_last());
        match v.last().1.at("class_type"@).as_str() {
            Some(c) => rest.insert(v.last().0, c),
            None => rest,
        }
    }
}

/// The class of each node of the graph in a value.
pub open spec fn graph_classes(prompt: JsonModel) -> Map<Seq<char>, Seq<char>> {
    match prompt {
        JsonModel::Obj(v) => classes_in(v),
        _ => Map::empty(),
    }
}

/// A number, or zero.
pub open spec fn u64_or_zero(v: JsonModel) -> u64 {
    match v.as_u64() {
        Some(n) => n,
        None => 0,
    }
}

/// An entry of the queue: a list of number, prompt and graph, or an object with those.
pub open spec fn queue_entry(it: JsonModel) -> Option<QueueModel> {
    match it {
        JsonModel::Arr(a) => if a.len() < 2 || a[1].as_str() is None {
            None
        } else {
            Some(
                QueueModel {
                    pid: a[1].str_or_empty(),
                    number: u64_or_zero(a[0]),
                    classes: if a.len() > 2 {
                        graph_classes(a[2])
                    } else {
                        Map::empty()
                    },
                },
            )
        },
        _ => if it.at("prompt_id"@).as_str() is None {
            None
        } else {
            Some(
                QueueModel {
                    pid: it.at("prompt_id"@).str_or_empty(),
                    number: u64_or_zero(it.at("number"@)),
                    classes: graph_classes(it.at("prompt"@)),
                },
            )
        },
    }
}

/// The sessions that a poll reports for the entries of the queue.
pub open spec fn queue_sessions(v: Seq<JsonModel>) -> Seq<ItemModel>
    decreases v.len(),
{
    if v.len() == 0 {
        Seq::empty()
    } else {
        let rest = queue_sessions(v.drop_last());
        match queue_entry(v.last()) {
            Some(q) => rest.push(
                ItemModel {
                    session_id: q.pid,
                    running: true,
                    title: Some("出图任务 #"@ + decimal(q.number as nat)),
                    todos: None,
                },
            ),
            None => rest,
        }
    }
}

/// Some entry of the queue is this prompt.
pub open spec fn in_queue(v: Seq<JsonModel>, pid: Seq<char>) -> bool {
    exists|i: int| 0 <= i < v.len() && (#[trigger] queue_entry(v[i]) matches Some(q) && q.pid == pid)
}

/// The class of each node of a graph.
pub fn prompt_classes(prompt: Option<&Json>) -> (r: OrdMap<String, String>)
    ensures
        r@ == graph_classes(val(prompt)),
{
    let mut out: OrdMap<String, String> = OrdMap::new();
    if let Some(Json::Obj(v)) = prompt {
        let ghost m = val(prompt)->Obj_0;
        let mut i: usize = 0;
        while i < v.len()
            invariant
                i <= v@.len(),
                m.len() == v@.len(),
                forall|j: int| 0 <= j < m.len() ==> (#[trigger] m[j]) == (v@[j].0@, v@[j].1@),
                out@ == classes_in(m.take(i as int)),
            decreases v@.len() - i,
        {
            proof {
                assert(m.take(i as int + 1).drop_last() =~= m.take(i as int));
                assert(m.take(i as int + 1).last() == m[i as int]);
            }
            if let Some(c) = as_str(at(Some(&v[i].1), "class_type")) {
                out.insert(v[i].0.clone(), own(c));
            }
            i += 1;
        }
        assert(m.take(i as int) =~= m);
    }
    out
}

fn number_or_zero(o: Option<&Json>) -> (r: u64)
    ensures
        r == u64_or_zero(val(o)),
{
    match as_u64(o) {
        Some(n) => n,
        None => 0,
    }
}

/// Reads an entry of the queue.
pub fn queue_item(it: &Json) -> (r: Option<QueueItem>)
    ensures
        match r {
            Some(q) => queue_entry(it@) == Some(q@),
            None => queue_entry(it@) is None,
        },
{
    match it {
        Json::Arr(a) => {
            let ghost m = it@->Arr_0;
            assert(m.len() == a@.len());
            assert(forall|i: int| 0 <= i < a@.len() ==> (#[trigger] m[i]) == a@[i]@);
            if a.len() < 2 {
                return None;
            }
            match as_str(Some(&a[1])) {
                None => None,
                Some(pid) => {
                    let classes = if a.len() > 2 {
                        prompt_classes(Some(&a[2]))
                    } else {
                        OrdMap::new()
                    };
                    Some(QueueItem { pid: own(pid), number: number_or_zero(Some(&a[0])), classes })
                },
            }
        },
        _ => {
            let o = Some(it);
            match as_str(at(o, "prompt_id")) {
                None => None,
                Some(pid) => Some(
                    QueueItem {
                        pid: own(pid),
                        number: number_or_zero(at(o, "number")),
                        classes: prompt_classes(at(o, "prompt")),
                    },
                ),
            }
        },
    }
}

fn find_holding(m: &OrdMap<String, String>, part: &str) -> (r: Option<String>)
    ensures
        opt_text(r) == first_holding(m@, ordered::<String>(m@.dom()), part@),
{
    let ghost ks = ordered::<String>(m@.dom());
    let n: usize = m.len();
    let mut i: usize = 0;
    assert(ks.subrange(0, ks.len() as int) =~= ks);
    while i < n
        invariant
            i <= n,
            ks == ordered::<String>(m@.dom()),
            n == ks.len(),
            n == m@.dom().len(),
            first_holding(m@, ks, part@) == first_holding(m@, ks.subrange(i as int, ks.len() as int), part@),
        decreases n - i,
    {
        proof {
            let t = ks.subrange(i as int, ks.len() as int);
            assert(t[0] == ks[i as int]);
            assert(t.drop_first() =~= ks.subrange(i as int + 1, ks.len() as int));
        }
        let v = m.value_at(i);
        if contains_text(to_lower(v.as_str()).as_str(), part) {
            return Some(v.clone());
        }
        i += 1;
    }
    None
}

/// The node that stands for a graph.
pub fn default_node_label(classes: &OrdMap<String, String>) -> (r: Option<String>)
    ensures
        opt_text(r) == node_label(classes@),
{
    if let Some(s) = find_holding(classes, "sampler") {
        return Some(s);
    }
    if let Some(s) = find_holding(classes, "vaedecode") {
        return Some(s);
    }
    let n: usize = classes.len();
    if n > 0 {
        Some(classes.value_at(0).clone())
    } else {
        None
    }
}

fn num_u64(o: Option<&Json>) -> (r: Option<u64>)
    ensures
        r == number_of(val(o)),
{
    match o {
        Some(Json::Num(n)) => match n.unsigned {
            Some(u) => Some(u),
            None => Some(n.truncated),
        },
        _ => None,
    }
}

/// Prompts that ended a short while ago.
struct Lately {
    now: u64,
}

impl Keep<String, u64> for Lately {
    closed spec fn keep(&self, k: Seq<char>, at: u64) -> bool {
        within(self.now, at, FINISHED_TTL_MS)
    }

    fn keeps(&self, k: &String, at: &u64) -> (r: bool) {
        self.now.saturating_sub(*at) < FINISHED_TTL_MS
    }
}

impl RunState {
    fn emit(&mut self, ev: StateEvent)
        ensures
            final(self)@ == old(self)@.emit(ev@),
    {
        let ghost before = self.out@;
        self.out.push(ev);
        assert(events_of(self.out@) =~= events_of(before).push(ev@));
    }

    /// Takes the events that are ready to be sent.
    pub fn drain(&mut self) -> (r: Vec<StateEvent>)
        ensures
            events_of(r@) == old(self)@.out,
            final(self)@ == (RunModel { out: Seq::empty(), ..old(self)@ }),
    {
        let mut out: Vec<StateEvent> = Vec::new();
        std::mem::swap(&mut out, &mut self.out);
        assert(events_of(self.out@) =~= Seq::<EventModel>::empty());
        out
    }

    fn tool_started(&mut self, pid: &String, name: &String, arguments: Option<String>)
        ensures
            final(self)@ == old(self)@.tool_started(pid@, name@, opt_text(arguments)),
    {
        self.emit(
            StateEvent::ToolStarted {
                source: Source::ComfyUi,
                session_id: pid.clone(),
                name: name.clone(),
                arguments,
            },
        );
    }

    fn tool_ended(&mut self, pid: &String, name: &String)
        ensures
            final(self)@ == old(self)@.tool_ended(pid@, name@),
    {
        self.emit(
            StateEvent::ToolEnded {
                source: Source::ComfyUi,
                session_id: pid.clone(),
                name: name.clone(),
                error: false,
            },
        );
    }

    fn set_node(&mut self, pid: &String, name: &String)
        ensures
            final(self)@ == old(self)@.set_node(pid@, name@),
    {
        self.node.insert(pid.clone(), name.clone());
        let _ = self.progress_pct.remove(pid);
    }

    /// Opens the turn of a prompt, unless it is open or over.
    pub fn start_turn(&mut self, pid: &String)
        ensures
            final(self)@ == old(self)@.start_turn(pid@),
    {
        if self.running.contains(pid) || self.finished.contains(pid) {
            return;
        }
        let ghost before = self@;
        self.running.insert(pid.clone(), ());
        assert(self.running@.dom() =~= before.running.insert(pid@));
        self.emit(StateEvent::TurnStarted { source: Source::ComfyUi, session_id: pid.clone(), turn: 1 });
    }

    fn label(&self, pid: &String) -> (r: String)
        ensures
            r@ == label_or_placeholder(self@, pid@),
    {
        if let Some(classes) = self.node_classes.get(pid) {
            if let Some(s) = default_node_label(classes) {
                return s;
            }
        }
        own("执行中")
    }

    /// Shows a node for a prompt that is not over and shows none.
    pub fn ensure_placeholder(&mut self, pid: &String)
        ensures
            final(self)@ == old(self)@.ensure_placeholder(pid@),
    {
        if self.finished.contains(pid) || self.node.contains(pid) {
            return;
        }
        let name = self.label(pid);
        self.set_node(pid, &name);
        self.tool_started(pid, &name, None);
    }

    fn better_name(&self, pid: &String) -> (r: Option<String>)
        ensures
            opt_text(r) == self@.better_name(pid@),
    {
        let cur = match self.node.get(pid) {
            Some(c) => c,
            None => {
                return None;
            },
        };
        let classes = match self.node_classes.get(pid) {
            Some(c) => c,
            None => {
                return None;
            },
        };
        let target = if same_text(cur.as_str(), "执行中") {
            self.label(pid)
        } else {
            match strip_prefix(cur.as_str(), "#") {
                None => {
                    return None;
                },
                Some(rest) => match parse_u64(rest.as_str()) {
                    None => {
                        return None;
                    },
                    Some(id) => match classes.get(&decimal_of(id as u128)) {
                        None => {
                            return None;
                        },
                        Some(name) => name.clone(),
                    },
                },
            }
        };
        if same_text(target.as_str(), cur.as_str()) {
            None
        } else {
            Some(target)
        }
    }

    /// Gives the shown node its better name once the graph is known.
    pub fn resolve_node_names(&mut self, pid: &String)
        ensures
            final(self)@ == old(self)@.resolve_node_names(pid@),
    {
        if let Some(target) = self.better_name(pid) {
            let cur = match self.node.get(pid) {
                Some(c) => c.clone(),
                None => String::new(),
            };
            self.set_node(pid, &target);
            self.tool_ended(pid, &cur);
            self.tool_started(pid, &target, None);
        }
    }

    /// No node executes any more.
    pub fn end_node(&mut self, pid: &String)
        ensures
            final(self)@ == old(self)@.end_node(pid@),
    {
        let ghost before = self@;
        match self.node.remove(pid) {
            Some(name) => {
                let _ = self.progress_pct.remove(pid);
                self.tool_ended(pid, &name);
            },
            None => {
                assert(before.node.remove(pid@) =~= before.node);
            },
        }
    }

    /// Ends a prompt, unless it is over.
    pub fn finish_prompt(&mut self, pid: &String, reason: TurnEndReason, now: u64)
        ensures
            final(self)@ == old(self)@.finish_prompt(pid@, reason, now),
    {
        if self.finished.contains(pid) {
            return;
        }
        self.end_node(pid);
        let ghost m = self@;
        let _ = self.running.remove(pid);
        assert(self.running@.dom() =~= m.running.remove(pid@));
        let _ = self.node_classes.remove(pid);
        self.finished.insert(pid.clone(), now);
        self.emit(StateEvent::TurnEnded { source: Source::ComfyUi, session_id: pid.clone(), turn: 1, reason });
    }

    fn executing(&mut self, pid: &String, node: Option<&Json>)
        ensures
            final(self)@ == old(self)@.executing(pid@, val(node)),
    {
        self.start_turn(pid);
        let present = match node {
            None => false,
            Some(Json::Null) => false,
            Some(_) => true,
        };
        if !present {
            self.end_node(pid);
            return;
        }
        let id = match num_u64(node) {
            Some(n) => Some(n),
            None => match as_str(node) {
                Some(s) => parse_u64(s),
                None => None,
            },
        };
        if let Some(n) = id {
            let key = decimal_of(n as u128);
            let mut name = joined("#", key.as_str());
            if let Some(classes) = self.node_classes.get(pid) {
                if let Some(c) = classes.get(&key) {
                    name = c.clone();
                }
            }
            if name.as_str().is_empty() {
                return;
            }
            let old_name = match self.node.get(pid) {
                Some(c) => {
                    if same_text(c.as_str(), name.as_str()) {
                        return;
                    }
                    Some(c.clone())
                },
                None => None,
            };
            if let Some(c) = &old_name {
                self.tool_ended(pid, c);
            }
            self.set_node(pid, &name);
            self.tool_started(pid, &name, None);
        }
    }

    fn progress(&mut self, pid: &String, data: Option<&Json>)
        ensures
            final(self)@ == old(self)@.progress(pid@, val(data)),
    {
        let name = match self.node.get(pid) {
            Some(c) => c.clone(),
            None => {
                return;
            },
        };
        let value: u64 = match num_u64(at(data, "value")) {
            Some(n) => n,
            None => {
                return;
            },
        };
        let max: u64 = match num_u64(at(data, "max")) {
            Some(n) => n,
            None => {
                return;
            },
        };
        if max == 0 {
            return;
        }
        assert(value as u128 * 100 <= u128::MAX);
        let pct: u32 = ((value as u128 * 100) / (max as u128)) as u32;
        let prev: u32 = match self.progress_pct.get(pid) {
            Some(p) => *p,
            None => 0,
        };
        let moved: u32 = if pct > prev {
            pct - prev
        } else {
            prev - pct
        };
        if moved >= PROGRESS_STEP || value == max {
            self.progress_pct.insert(pid.clone(), pct);
            let mut args = decimal_of(value as u128);
            args.append("/");
            args.append(decimal_of(max as u128).as_str());
            self.tool_started(pid, &name, Some(args));
        }
    }

    /// Handles one message of the event stream.
    pub fn handle_ws_message(&mut self, msg: &Json, now: u64)
        ensures
            final(self)@ == old(self)@.ws_message(msg@, now),
    {
        let kind = str_or_empty(at(Some(msg), "type"));
        let t = kind.as_str();
        let data = at(Some(msg), "data");
        let pid = str_or_empty(at(data, "prompt_id"));
        let named = !pid.as_str().is_empty();
        if same_text(t, "execution_start") {
            if named {
                self.start_turn(&pid);
                self.ensure_placeholder(&pid);
            }
        } else if same_text(t, "executing") {
            if named {
                self.executing(&pid, at(data, "node"));
            }
        } else if same_text(t, "progress") {
            self.progress(&pid, data);
        } else if same_text(t, "execution_success") {
            if named {
                self.finish_prompt(&pid, TurnEndReason::Completed, now);
            }
        } else if same_text(t, "execution_error") {
            if named {
                self.finish_prompt(&pid, TurnEndReason::Error, now);
            }
        } else if same_text(t, "execution_interrupted") {
            if named {
                self.finish_prompt(&pid, TurnEndReason::Interrupted, now);
            }
        } else if same_text(t, "status") {
            if let Some(n) = as_u64(at(at(at(data, "status"), "exec_info"), "queue_remaining")) {
                self.emit(StateEvent::QueueChanged { source: Source::ComfyUi, pending: n as u32 });
            }
        }
    }

    /// Handles the payload of one text frame of the event stream.
    pub fn handle_ws_payload(&mut self, payload: &[u8], now: u64)
        ensures
            final(self)@ == match json_in_text(lossy_text_of(payload@)) {
                Some(msg) => old(self)@.ws_message(msg, now),
                None => old(self)@,
            },
    {
        let text = lossy_text(payload);
        if let Some(msg) = parse_text(text.as_str()) {
            self.handle_ws_message(&msg, now);
        }
    }

    /// Reads the entries of the queue: the sessions to report and the prompts
    /// that are no longer queued, whose end is to be looked up.
    pub fn begin_poll(&mut self, now: u64, running: &Vec<Json>, pending: usize) -> (r: (Vec<SessionItem>, Vec<String>))
        ensures
            final(self)@ == old(self)@.polled(now, jsons_of(running@), pending as u32),
            items_of(r.0@) == queue_sessions(jsons_of(running@)),
            texts(r.1@) == ordered::<String>(final(self)@.running).filter(
                |pid: Seq<char>| !in_queue(jsons_of(running@), pid),
            ),
    {
        self.finished.retain(&Lately { now });
        assert(self.finished@ =~= kept(
            old(self)@.finished,
            |k: Seq<char>, at: u64| within(now, at, FINISHED_TTL_MS),
        ));
        self.emit(StateEvent::QueueChanged { source: Source::ComfyUi, pending: pending as u32 });
        let ghost m0 = self@;
        let ghost js = jsons_of(running@);
        let mut items: Vec<SessionItem> = Vec::new();
        let mut seen: OrdMap<String, ()> = OrdMap::new();
        let mut i: usize = 0;
        assert(items_of(items@) =~= Seq::<ItemModel>::empty());
        while i < running.len()
            invariant
                i <= running@.len(),
                js == jsons_of(running@),
                self@ == m0.queue_read(js.take(i as int)),
                items_of(items@) == queue_sessions(js.take(i as int)),
                forall|pid: Seq<char>| #[trigger] seen@.contains_key(pid) <==> in_queue(js.take(i as int), pid),
            decreases running@.len() - i,
        {
            let ghost t = js.take(i as int);
            let ghost u = js.take(i as int + 1);
            proof {
                assert(u.drop_last() =~= t);
                assert(u.last() == running@[i as int]@);
            }
            let entry = queue_item(&running[i]);
            proof {
                assert forall|pid: Seq<char>| #[trigger] in_queue(u, pid) <==> in_queue(t, pid) || (entry is Some
                    && entry->0@.pid == pid) by {
                    if in_queue(t, pid) {
                        let k = choose|k: int|
                            0 <= k < t.len() && (#[trigger] queue_entry(t[k]) matches Some(q) && q.pid == pid);
                        assert(queue_entry(u[k]) == queue_entry(t[k]));
                    }
                    if in_queue(u, pid) {
                        let k = choose|k: int|
                            0 <= k < u.len() && (#[trigger] queue_entry(u[k]) matches Some(q) && q.pid == pid);
                        if k < i {
                            assert(queue_entry(t[k]) == queue_entry(u[k]));
                        }
                    }
                    assert(queue_entry(u[i as int]) == queue_entry(running@[i as int]@));
                }
            }
            if let Some(q) = entry {
                let ghost before = items@;
                let pid = q.pid;
                seen.insert(pid.clone(), ());
                self.node_classes.insert(pid.clone(), q.classes);
                self.start_turn(&pid);
                self.ensure_placeholder(&pid);
                self.resolve_node_names(&pid);
                let title = joined("出图任务 #", decimal_of(q.number as u128).as_str());
                let item = SessionItem { session_id: pid, running: true, title: Some(title), todos: None };
                items.push(item);
                assert(items_of(items@) =~= items_of(before).push(item@));
            }
            i += 1;
        }
        assert(js.take(i as int) =~= js);
        let ghost ks = ordered::<String>(self@.running);
        let ghost p = |pid: Seq<char>| !in_queue(js, pid);
        let n: usize = self.running.len();
        let mut gone: Vec<String> = Vec::new();
        let mut j: usize = 0;
        proof {
            reveal(Seq::filter);
            assert(texts(gone@) =~= ks.take(0).filter(p));
        }
        while j < n
            invariant
                j <= n,
                ks == ordered::<String>(self.running@.dom()),
                n == ks.len(),
                n == self.running@.dom().len(),
                p == (|pid: Seq<char>| !in_queue(js, pid)),
                forall|pid: Seq<char>| #[trigger] seen@.contains_key(pid) <==> in_queue(js, pid),
                texts(gone@) == ks.take(j as int).filter(p),
            decreases n - j,
        {
            proof {
                reveal(Seq::filter);
                assert(ks.take(j as int + 1).drop_last() =~= ks.take(j as int));
                assert(ks.take(j as int + 1).last() == ks[j as int]);
            }
            let pid = self.running.key_at(j);
            let ghost before = gone@;
            if !seen.contains(pid) {
                let id = pid.clone();
                gone.push(id);
                assert(texts(gone@) =~= texts(before).push(id@));
            }
            j += 1;
        }
        assert(ks.take(j as int) =~= ks);
        (items, gone)
    }
}

/// The event that ends a poll.
pub fn end_poll(items: Vec<SessionItem>) -> (r: StateEvent)
    ensures
        r@ == (EventModel::Poll { source: Source::ComfyUi, items: items_of(items@), ok: true, error: None }),
{
    StateEvent::Poll { source: Source::ComfyUi, items, ok: true, error: None }
}

/// The running entries and the number of pending ones.
pub open spec fn queue_in(answer: JsonModel) -> (Seq<JsonModel>, int) {
    (answer.at("queue_running"@).elements(), answer.at("queue_pending"@).elements().len() as int)
}

/// Reads the answer to a queue request: running entries, and how many wait.
pub fn read_queue(answer: Json) -> (r: (Vec<Json>, usize))
    ensures
        (jsons_of(r.0@), r.1 as int) == queue_in(answer@),
{
    let pending: usize = match as_array(at(Some(&answer), "queue_pending")) {
        Some(v) => {
            assert(jsons_of(v@).len() == v@.len());
            v.len()
        },
        None => 0,
    };
    (take_array(answer, "queue_running"), pending)
}

/// Takes the array under `key` out of an object.
fn take_array(answer: Json, key: &str) -> (r: Vec<Json>)
    ensures
        jsons_of(r@) == answer@.at(key@).elements(),
{
    match answer {
        Json::Obj(mut v) => {
            let ghost m = answer@->Obj_0;
            let ghost v0 = v@;
            let mut i: usize = 0;
            while i < v.len()
                invariant
                    i <= v@.len(),
                    v@ == v0,
                    answer@ == JsonModel::Obj(m),
                    m.len() == v@.len(),
                    forall|j: int| 0 <= j < m.len() ==> (#[trigger] m[j]) == (v0[j].0@, v0[j].1@),
                    crate::json::entry_index(m.take(i as int), key@) is None,
                decreases v@.len() - i,
            {
                proof {
                    assert(m.take(i as int + 1).drop_last() =~= m.take(i as int));
                    assert(m.take(i as int + 1).last() == m[i as int]);
                }
                if same_text(v[i].0.as_str(), key) {
                    proof {
                        crate::json::lemma_entry_index_stays(m, key@, i as int + 1);
                        assert(answer@.at(key@) == v0[i as int].1@);
                    }
                    let (_, x) = v.remove(i);
                    return match x {
                        Json::Arr(a) => {
                            assert(x@->Arr_0 =~= jsons_of(a@));
                            a
                        },
                        _ => {
                            let none: Vec<Json> = Vec::new();
                            assert(jsons_of(none@) =~= Seq::<JsonModel>::empty());
                            none
                        },
                    };
                }
                i += 1;
            }
            assert(m.take(i as int) =~= m);
            let none: Vec<Json> = Vec::new();
            assert(jsons_of(none@) =~= Seq::<JsonModel>::empty());
            none
        },
        _ => {
            let none: Vec<Json> = Vec::new();
            assert(jsons_of(none@) =~= Seq::<JsonModel>::empty());
            none
        },
    }
}

/// Reads the response to a queue request.
pub fn fetch_queue(status: u16, body: &[u8]) -> (r: Result<(Vec<Json>, usize), FetchError>)
    ensures
        match r {
            Err(e) => if status != 200 {
                e@ == FetchFault::Status(status)
            } else {
                json_in_bytes(body@) matches Err(fault) && e@ == FetchFault::NotJson(fault)
            },
            Ok(q) => {
                &&& status == 200
                &&& json_in_bytes(body@) matches Ok(v)
                &&& (jsons_of(q.0@), q.1 as int) == queue_in(v)
            },
        },
{
    if status != 200 {
        return Err(FetchError::Status(status));
    }
    match parse_bytes(body) {
        Err(e) => Err(FetchError::NotJson(e)),
        Ok(v) => Ok(read_queue(v)),
    }
}

/// Some message is of this type.
pub open spec fn has_message(v: Seq<JsonModel>, t: Seq<char>) -> bool {
    exists|i: int| 0 <= i < v.len() && (#[trigger] v[i]).at("type"@).as_str() == Some(t)
}

/// How a prompt ended, by its record.
pub open spec fn ending_in(answer: JsonModel, pid: Seq<char>) -> TurnEndReason {
    let status = answer.at(pid).at("status"@);
    if status.at("status_str"@).as_str() == Some("error"@) {
        TurnEndReason::Error
    } else if has_message(status.at("messages"@).elements(), "execution_interrupted"@) {
        TurnEndReason::Interrupted
    } else {
        TurnEndReason::Completed
    }
}

/// Reads the record of a prompt that ended. An interrupted prompt counts as a
/// success in its record and is told by its messages.
pub fn read_ending(answer: &Json, pid: &str) -> (r: TurnEndReason)
    ensures
        r == ending_in(answer@, pid@),
{
    let status = at(at(Some(answer), pid), "status");
    if let Some(s) = as_str(at(status, "status_str")) {
        if same_text(s, "error") {
            return TurnEndReason::Error;
        }
    }
    if let Some(v) = as_array(at(status, "messages")) {
        let ghost m = jsons_of(v@);
        let mut i: usize = 0;
        while i < v.len()
            invariant
                i <= v@.len(),
                m == jsons_of(v@),
                answer@.at(pid@).at("status"@).at("messages"@).elements() == m,
                answer@.at(pid@).at("status"@).at("status_str"@).as_str() != Some("error"@),
                forall|j: int| 0 <= j < i ==> (#[trigger] m[j]).at("type"@).as_str() != Some(
                    "execution_interrupted"@,
                ),
            decreases v@.len() - i,
        {
            assert(m[i as int] == v@[i as int]@);
            if let Some(t) = as_str(at(Some(&v[i]), "type")) {
                if same_text(t, "execution_interrupted") {
                    return TurnEndReason::Interrupted;
                }
            }
            i += 1;
        }
    }
    TurnEndReason::Completed
}

/// Reads the response to a history request: how the prompt ended, if the
/// response tells.
pub fn history_terminal(status: u16, body: &[u8], pid: &str) -> (r: Option<TurnEndReason>)
    ensures
        r == if status != 200 {
            None
        } else {
            match json_in_bytes(body@) {
                Ok(v) => Some(ending_in(v, pid@)),
                Err(_) => None,
            }
        },
{
    if status != 200 {
        return None;
    }
    match parse_bytes(body) {
        Err(_) => None,
        Ok(v) => Some(read_ending(&v, pid)),
    }
}

/// A prompt is started once: to start it again changes nothing.
pub proof fn law_starts_once(m: RunModel, pid: Seq<char>)
    ensures
        m.start_turn(pid).start_turn(pid) == m.start_turn(pid),
{
}

/// A prompt is ended once: to end it again, in whatever way, changes nothing.
pub proof fn law_ends_once(
    m: RunModel,
    pid: Seq<char>,
    r1: TurnEndReason,
    r2: TurnEndReason,
    t1: u64,
    t2: u64,
)
    ensures
        m.finish_prompt(pid, r1, t1).finish_prompt(pid, r2, t2) == m.finish_prompt(pid, r1, t1),
{
}

/// A prompt that ended is neither opened again nor shown at work again, though
/// the queue still lists it.
pub proof fn law_stays_ended(m: RunModel, pid: Seq<char>, reason: TurnEndReason, now: u64)
    requires
        !m.finished.contains_key(pid),
    ensures
        ({
            let n = m.finish_prompt(pid, reason, now);
            &&& n.start_turn(pid).ensure_placeholder(pid) == n
            &&& !n.running.contains(pid)
            &&& !n.node.contains_key(pid)
            &&& !n.node_classes.contains_key(pid)
            &&& n.out.last() == (EventModel::TurnEnded { source: Source::ComfyUi, session_id: pid, turn: 1, reason })
        }),
{
}

/// A prompt that starts is shown at work at once: the turn, then the node.
pub proof fn law_start_shows_work(m: RunModel, pid: Seq<char>)
    requires
        !m.running.contains(pid),
        !m.finished.contains_key(pid),
        !m.node.contains_key(pid),
    ensures
        ({
            let n = m.start_turn(pid).ensure_placeholder(pid);
            &&& n.out == m.out.push(
                EventModel::TurnStarted { source: Source::ComfyUi, session_id: pid, turn: 1 },
            ).push(
                EventModel::ToolStarted {
                    source: Source::ComfyUi,
                    session_id: pid,
                    name: label_or_placeholder(m, pid),
                    arguments: None,
                },
            )
            &&& n.node.contains_key(pid) && n.node[pid] == label_or_placeholder(m, pid)
        }),
{
    assert(label_or_placeholder(m.start_turn(pid), pid) == label_or_placeholder(m, pid));
}

/// Messages that speak of nothing the companion shows change nothing.
pub proof fn law_ignores_other_messages(m: RunModel, msg: JsonModel, now: u64)
    requires
        ({
            let t = msg.at("type"@).str_or_empty();
            &&& t != "execution_start"@
            &&& t != "executing"@
            &&& t != "progress"@
            &&& t != "execution_success"@
            &&& t != "execution_error"@
            &&& t != "execution_interrupted"@
            &&& t != "status"@
        }),
    ensures
        m.ws_message(msg, now) == m,
{
}

} // verus!
