//! The state machine: folds the events of all sources into one mode and one
//! snapshot. It does no I/O; the clock is a field that the caller sets.

use vstd::prelude::*;
use vstd::string::*;

use crate::ordmap::{kept, ordered, Keep, OrdMap};
use crate::text::{
    chars_of, clone_opt, has_prefix, head_of, opt_text, same_text, starts_with, string_of_range, trim, trimmed,
    truncate_chars,
};

pub use crate::event::{
    copy_todos, LiveText, Labels, Mode, SessionItem, Source, StateEvent, TodoItem, TurnEndReason,
};
pub use crate::event::{events_of, items_of, todos_of, EventModel, ItemModel, LiveModel, TodoModel};

verus! {

/// Most characters of streamed text that a session keeps.
pub const LIVE_TEXT_CAP: usize = 8000;

/// Pending requests older than this are dropped.
pub const TTL_APPROVAL_MS: u64 = 1_800_000;

pub const DEFAULT_DONE_MS: u64 = 120_000;

pub const DEFAULT_FAIL_MS: u64 = 10_000;

/// How long a fresh result outranks everything else that the sources do.
pub const DEFAULT_CELEBRATE_MS: u64 = 4_000;

/// A stopped session counts as recently ended for this long.
pub const RECENT_END_MS: u64 = 10_000;

/// Longest task label.
pub const TASK_CHARS: usize = 120;

/// What is known of one session.
pub struct SessionState {
    pub source: Source,
    pub title: Option<String>,
    pub running: bool,
    pub turns: u32,
    pub tools: OrdMap<String, ()>,
    pub tool_args: OrdMap<String, String>,
    pub last_user_text: Option<String>,
    pub waiting_user: bool,
    pub last_end: Option<(TurnEndReason, u64)>,
    /// When the first of the running tools was started.
    pub work_since: Option<u64>,
    pub todos: Vec<TodoItem>,
    pub live: LiveText,
}

/// Model of a [`SessionState`].
#[verifier::ext_equal]
pub struct SessionModel {
    pub source: Source,
    pub title: Option<Seq<char>>,
    pub running: bool,
    pub turns: int,
    pub tools: Set<Seq<char>>,
    pub tool_args: Map<Seq<char>, Seq<char>>,
    pub last_user_text: Option<Seq<char>>,
    pub waiting_user: bool,
    pub last_end: Option<(TurnEndReason, u64)>,
    pub work_since: Option<u64>,
    pub todos: Seq<TodoModel>,
    pub live: LiveModel,
}

impl SessionModel {
    /// A session that nothing is known of but its source.
    pub open spec fn fresh(source: Source) -> SessionModel {
        SessionModel {
            source,
            title: None,
            running: false,
            turns: 0,
            tools: Set::empty(),
            tool_args: Map::empty(),
            last_user_text: None,
            waiting_user: false,
            last_end: None,
            work_since: None,
            todos: Seq::empty(),
            live: LiveModel::none(),
        }
    }

    /// Some tool is running.
    pub open spec fn has_tools(self) -> bool {
        self.tools != Set::<Seq<char>>::empty()
    }

    /// The session is doing something.
    pub open spec fn is_active(self) -> bool {
        self.running || self.turns > 0 || self.has_tools()
    }

    /// The last turn failed less than `ms` before `now`.
    pub open spec fn failed_within(self, now: u64, ms: u64) -> bool {
        self.last_end matches Some(e) && e.0.fails() && within(now, e.1, ms)
    }

    /// The last turn completed less than `ms` before `now`.
    pub open spec fn done_within(self, now: u64, ms: u64) -> bool {
        self.last_end matches Some(e) && e.0 == TurnEndReason::Completed && within(now, e.1, ms)
    }

    /// Stopping now counts as completing: something was open, nobody waits for
    /// the user, and no end was reported a moment ago.
    pub open spec fn completes_on_stop(self, now: u64) -> bool {
        &&& self.turns > 0 || self.has_tools()
        &&& !self.waiting_user
        &&& !(self.last_end matches Some(e) && within(now, e.1, RECENT_END_MS))
    }

    /// The session after it was seen stopped.
    pub open spec fn stopped(self, now: u64) -> SessionModel {
        SessionModel {
            running: false,
            turns: 0,
            tools: Set::empty(),
            work_since: None,
            last_end: if self.completes_on_stop(now) {
                Some((TurnEndReason::Completed, now))
            } else {
                self.last_end
            },
            ..self
        }
    }

    /// The label of what the session works on: its title, else the last message
    /// of the user, else its first task that is not pending.
    pub open spec fn task(self) -> Option<Seq<char>> {
        if self.title matches Some(t) && t.len() > 0 {
            self.title
        } else if self.last_user_text is Some {
            self.last_user_text
        } else {
            match first_open(self.todos) {
                Some(i) => Some(head_of(self.todos[i].content, TASK_CHARS as int)),
                None => None,
            }
        }
    }

    /// The first running tool in order.
    pub open spec fn first_tool(self) -> Option<Seq<char>> {
        if self.has_tools() {
            Some(ordered::<String>(self.tools)[0])
        } else {
            None
        }
    }

    /// What a snapshot says of the session.
    pub open spec fn info(self, id: Seq<char>) -> InfoModel {
        InfoModel {
            session_id: id,
            source: self.source,
            title: match self.title {
                Some(t) => t,
                None => Seq::empty(),
            },
            tool: self.first_tool(),
            tool_args: match self.first_tool() {
                Some(t) => if self.tool_args.contains_key(t) {
                    Some(self.tool_args[t])
                } else {
                    None
                },
                None => None,
            },
            task: self.task(),
            todos: self.todos,
            live: self.live,
        }
    }
}

/// Index of the first task whose status is not `pending`.
pub open spec fn first_open(todos: Seq<TodoModel>) -> Option<int>
    decreases todos.len(),
{
    if todos.len() == 0 {
        None
    } else {
        match first_open(todos.drop_last()) {
            Some(i) => Some(i),
            None => if todos.last().status != "pending"@ {
                Some(todos.len() - 1)
            } else {
                None
            },
        }
    }
}

/// Less than `ms` have passed between `at` and `now`.
pub open spec fn within(now: u64, at: u64, ms: u64) -> bool {
    (if now > at {
        now - at
    } else {
        0
    }) < ms
}

fn is_within(now: u64, at: u64, ms: u64) -> (r: bool)
    ensures
        r == within(now, at, ms),
{
    now.saturating_sub(at) < ms
}

impl View for SessionState {
    type V = SessionModel;

    open spec fn view(&self) -> SessionModel {
        SessionModel {
            source: self.source,
            title: opt_text(self.title),
            running: self.running,
            turns: self.turns as int,
            tools: self.tools@.dom(),
            tool_args: self.tool_args@,
            last_user_text: opt_text(self.last_user_text),
            waiting_user: self.waiting_user,
            last_end: self.last_end,
            work_since: self.work_since,
            todos: todos_of(self.todos@),
            live: self.live@,
        }
    }
}

impl SessionState {
    fn fresh(source: Source) -> (r: Self)
        ensures
            r@ == SessionModel::fresh(source),
    {
        let r = SessionState {
            source,
            title: None,
            running: false,
            turns: 0,
            tools: OrdMap::new(),
            tool_args: OrdMap::new(),
            last_user_text: None,
            waiting_user: false,
            last_end: None,
            work_since: None,
            todos: Vec::new(),
            live: LiveText::default(),
        };
        assert(r@ =~= SessionModel::fresh(source));
        r
    }

    /// Whether the session is doing something.
    pub fn active(&self) -> (r: bool)
        ensures
            r == self@.is_active(),
    {
        self.running || self.turns > 0 || !self.tools.is_empty()
    }

    /// Whether the last turn failed less than `ms` before `now`.
    fn failed_recently(&self, now: u64, ms: u64) -> (r: bool)
        ensures
            r == self@.failed_within(now, ms),
    {
        match &self.last_end {
            Some((reason, at)) => reason.is_failure() && is_within(now, *at, ms),
            None => false,
        }
    }

    /// Whether the last turn completed less than `ms` before `now`.
    fn done_recently(&self, now: u64, ms: u64) -> (r: bool)
        ensures
            r == self@.done_within(now, ms),
    {
        match &self.last_end {
            Some((reason, at)) => *reason == TurnEndReason::Completed && is_within(now, *at, ms),
            None => false,
        }
    }

    /// Marks the session as stopped; tells whether that completed it.
    fn stop(&mut self, now: u64) -> (r: bool)
        ensures
            final(self)@ == old(self)@.stopped(now),
            r == old(self)@.completes_on_stop(now),
    {
        let recent = match &self.last_end {
            Some((_, at)) => is_within(now, *at, RECENT_END_MS),
            None => false,
        };
        let completes = (self.turns > 0 || !self.tools.is_empty()) && !self.waiting_user && !recent;
        if completes {
            self.last_end = Some((TurnEndReason::Completed, now));
        }
        self.turns = 0;
        self.tools = OrdMap::new();
        self.work_since = None;
        self.running = false;
        assert(self@ =~= old(self)@.stopped(now));
        completes
    }

    fn task(&self) -> (r: Option<String>)
        ensures
            opt_text(r) == self@.task(),
    {
        if let Some(t) = &self.title {
            if !t.as_str().is_empty() {
                return Some(t.clone());
            }
        }
        if self.last_user_text.is_some() {
            return clone_opt(&self.last_user_text);
        }
        let ghost ts = todos_of(self.todos@);
        let mut i: usize = 0;
        while i < self.todos.len()
            invariant
                i <= self.todos@.len(),
                ts == todos_of(self.todos@),
                self.last_user_text is None,
                !(self.title matches Some(t) && t@.len() > 0),
                first_open(ts.take(i as int)) is None,
            decreases self.todos@.len() - i,
        {
            proof {
                assert(ts.take(i as int + 1).drop_last() =~= ts.take(i as int));
                assert(ts.take(i as int + 1).last() == ts[i as int]);
            }
            if !same_text(self.todos[i].status.as_str(), "pending") {
                proof {
                    lemma_first_open_stays(ts, i as int + 1);
                }
                return Some(truncate_chars(self.todos[i].content.as_str(), TASK_CHARS));
            }
            i += 1;
        }
        assert(ts.take(i as int) =~= ts);
        None
    }

    fn info(&self, id: &String) -> (r: SessionInfo)
        ensures
            r@ == self@.info(id@),
    {
        let title = match &self.title {
            Some(t) => t.clone(),
            None => String::new(),
        };
        let mut tool: Option<String> = None;
        let mut tool_args: Option<String> = None;
        if !self.tools.is_empty() {
            let first = self.tools.key_at(0);
            if let Some(a) = self.tool_args.get(first) {
                tool_args = Some(a.clone());
            }
            tool = Some(first.clone());
        }
        SessionInfo {
            session_id: id.clone(),
            source: self.source,
            title,
            tool,
            tool_args,
            task: self.task(),
            todos: copy_todos(&self.todos),
            live: self.live.copy(),
        }
    }
}

proof fn lemma_first_open_stays(ts: Seq<TodoModel>, n: int)
    requires
        0 <= n <= ts.len(),
        first_open(ts.take(n)) is Some,
    ensures
        first_open(ts) == first_open(ts.take(n)),
    decreases ts.len() - n,
{
    if n == ts.len() {
        assert(ts.take(n) =~= ts);
    } else {
        assert(ts.take(n + 1).drop_last() =~= ts.take(n));
        lemma_first_open_stays(ts, n + 1);
    }
}

/// Keeps only the last [`LIVE_TEXT_CAP`] characters.
pub open spec fn capped(s: Seq<char>) -> Seq<char> {
    if s.len() > LIVE_TEXT_CAP {
        s.subrange(s.len() - LIVE_TEXT_CAP, s.len() as int)
    } else {
        s
    }
}

/// `s` with `more` appended, then capped.
pub open spec fn grown(s: Seq<char>, more: Option<Seq<char>>) -> Seq<char> {
    match more {
        Some(t) => if t.len() > 0 {
            capped(s + t)
        } else {
            s
        },
        None => s,
    }
}

fn cap_text(s: String) -> (r: String)
    ensures
        r@ == capped(s@),
{
    let v = chars_of(s.as_str());
    if v.len() > LIVE_TEXT_CAP {
        string_of_range(&v, v.len() - LIVE_TEXT_CAP, v.len())
    } else {
        s
    }
}

fn grow(s: &String, more: &Option<String>) -> (r: String)
    ensures
        r@ == grown(s@, opt_text(*more)),
{
    match more {
        Some(t) => {
            if t.as_str().is_empty() {
                s.clone()
            } else {
                let mut u = s.clone();
                u.append(t.as_str());
                cap_text(u)
            }
        },
        None => s.clone(),
    }
}

/// A request that waits for the user.
pub struct Pending {
    pub source: Source,
    pub session_id: String,
    /// The tool to approve, or the question to answer.
    pub what: String,
    pub at_ms: u64,
}

/// Model of a [`Pending`].
pub struct PendingModel {
    pub source: Source,
    pub session_id: Seq<char>,
    pub what: Seq<char>,
    pub at_ms: u64,
}

impl View for Pending {
    type V = PendingModel;

    open spec fn view(&self) -> PendingModel {
        PendingModel {
            source: self.source,
            session_id: self.session_id@,
            what: self.what@,
            at_ms: self.at_ms,
        }
    }
}

/// What a snapshot says of one session.
#[derive(Debug, Clone)]
pub struct SessionInfo {
    pub session_id: String,
    pub source: Source,
    pub title: String,
    pub tool: Option<String>,
    pub tool_args: Option<String>,
    pub task: Option<String>,
    pub todos: Vec<TodoItem>,
    pub live: LiveText,
}

/// Model of a [`SessionInfo`].
pub struct InfoModel {
    pub session_id: Seq<char>,
    pub source: Source,
    pub title: Seq<char>,
    pub tool: Option<Seq<char>>,
    pub tool_args: Option<Seq<char>>,
    pub task: Option<Seq<char>>,
    pub todos: Seq<TodoModel>,
    pub live: LiveModel,
}

impl View for SessionInfo {
    type V = InfoModel;

    open spec fn view(&self) -> InfoModel {
        InfoModel {
            session_id: self.session_id@,
            source: self.source,
            title: self.title@,
            tool: opt_text(self.tool),
            tool_args: opt_text(self.tool_args),
            task: opt_text(self.task),
            todos: todos_of(self.todos@),
            live: self.live@,
        }
    }
}

impl Default for SessionInfo {
    fn default() -> (r: Self)
        ensures
            r@ == SessionModel::fresh(Source::Dsh).info(Seq::empty()),
    {
        let r = SessionInfo {
            session_id: String::new(),
            source: Source::Dsh,
            title: String::new(),
            tool: None,
            tool_args: None,
            task: None,
            todos: Vec::new(),
            live: LiveText::default(),
        };
        assert(todos_of(r.todos@) =~= Seq::<TodoModel>::empty());
        r
    }
}

/// Model of a list of session infos.
pub open spec fn infos_of(v: Seq<SessionInfo>) -> Seq<InfoModel> {
    v.map_values(|s: SessionInfo| s@)
}

/// Everything that the user interface shows.
pub struct Snapshot {
    pub mode: Mode,
    /// Whether each source is up.
    pub sources: OrdMap<Source, bool>,
    /// (session, tool, source name)
    pub pending_approvals: Vec<(String, String, String)>,
    /// (session, question, source name)
    pub pending_questions: Vec<(String, String, String)>,
    pub working: Vec<SessionInfo>,
    pub thinking: Vec<SessionInfo>,
    pub failed: Vec<SessionInfo>,
    pub done: Vec<SessionInfo>,
    /// Since when each session with a running tool has been at work.
    pub working_since: OrdMap<String, u64>,
    pub labels: Labels,
    pub queue_len: u32,
    pub done_sound_pending: bool,
    pub fail_sound_pending: bool,
}

/// Model of a [`Snapshot`].
pub struct SnapModel {
    pub mode: Mode,
    pub sources: Map<Source, bool>,
    pub pending_approvals: Seq<(Seq<char>, Seq<char>, Seq<char>)>,
    pub pending_questions: Seq<(Seq<char>, Seq<char>, Seq<char>)>,
    pub working: Seq<InfoModel>,
    pub thinking: Seq<InfoModel>,
    pub failed: Seq<InfoModel>,
    pub done: Seq<InfoModel>,
    pub working_since: Map<Seq<char>, u64>,
    pub labels: Map<u16, Seq<char>>,
    pub queue_len: u32,
    pub done_sound_pending: bool,
    pub fail_sound_pending: bool,
}

/// Model of a list of pending requests.
pub open spec fn triples_of(v: Seq<(String, String, String)>) -> Seq<(Seq<char>, Seq<char>, Seq<char>)> {
    v.map_values(|t: (String, String, String)| (t.0@, t.1@, t.2@))
}

impl View for Snapshot {
    type V = SnapModel;

    open spec fn view(&self) -> SnapModel {
        SnapModel {
            mode: self.mode,
            sources: self.sources@,
            pending_approvals: triples_of(self.pending_approvals@),
            pending_questions: triples_of(self.pending_questions@),
            working: infos_of(self.working@),
            thinking: infos_of(self.thinking@),
            failed: infos_of(self.failed@),
            done: infos_of(self.done@),
            working_since: self.working_since@,
            labels: self.labels@,
            queue_len: self.queue_len,
            done_sound_pending: self.done_sound_pending,
            fail_sound_pending: self.fail_sound_pending,
        }
    }
}

impl SnapModel {
    /// A snapshot of nothing.
    pub open spec fn empty() -> SnapModel {
        SnapModel {
            mode: Mode::Move,
            sources: Map::empty(),
            pending_approvals: Seq::empty(),
            pending_questions: Seq::empty(),
            working: Seq::empty(),
            thinking: Seq::empty(),
            failed: Seq::empty(),
            done: Seq::empty(),
            working_since: Map::empty(),
            labels: Map::empty(),
            queue_len: 0,
            done_sound_pending: false,
            fail_sound_pending: false,
        }
    }
}

impl Default for Snapshot {
    fn default() -> (r: Self)
        ensures
            r@ == SnapModel::empty(),
    {
        let r = Snapshot {
            mode: Mode::Move,
            sources: OrdMap::new(),
            pending_approvals: Vec::new(),
            pending_questions: Vec::new(),
            working: Vec::new(),
            thinking: Vec::new(),
            failed: Vec::new(),
            done: Vec::new(),
            working_since: OrdMap::new(),
            labels: Labels::default(),
            queue_len: 0,
            done_sound_pending: false,
            fail_sound_pending: false,
        };
        proof {
            assert(triples_of(r.pending_approvals@) =~= Seq::empty());
            assert(infos_of(r.working@) =~= Seq::empty());
        }
        r
    }
}

/// The state machine.
pub struct PetState {
    /// The clock, in milliseconds.
    pub now_ms: u64,
    pub sessions: OrdMap<String, SessionState>,
    pub approvals: OrdMap<String, Pending>,
    pub questions: OrdMap<String, Pending>,
    pub source_health: OrdMap<Source, bool>,
    pub queue_pending: OrdMap<Source, u32>,
    pub labels: Labels,
    pub done_ms: u64,
    pub fail_ms: u64,
    pub celebrate_ms: u64,
    pub done_sound_pending: bool,
    pub fail_sound_pending: bool,
}

/// Model of a [`PetState`].
#[verifier::ext_equal]
pub struct PetModel {
    pub now_ms: u64,
    pub sessions: Map<Seq<char>, SessionModel>,
    pub approvals: Map<Seq<char>, PendingModel>,
    pub questions: Map<Seq<char>, PendingModel>,
    pub source_health: Map<Source, bool>,
    pub queue_pending: Map<Source, u32>,
    pub labels: Map<u16, Seq<char>>,
    pub done_ms: u64,
    pub fail_ms: u64,
    pub celebrate_ms: u64,
    pub done_sound_pending: bool,
    pub fail_sound_pending: bool,
}

impl View for PetState {
    type V = PetModel;

    open spec fn view(&self) -> PetModel {
        PetModel {
            now_ms: self.now_ms,
            sessions: self.sessions@,
            approvals: self.approvals@,
            questions: self.questions@,
            source_health: self.source_health@,
            queue_pending: self.queue_pending@,
            labels: self.labels@,
            done_ms: self.done_ms,
            fail_ms: self.fail_ms,
            celebrate_ms: self.celebrate_ms,
            done_sound_pending: self.done_sound_pending,
            fail_sound_pending: self.fail_sound_pending,
        }
    }
}

impl PetModel {
    /// The session under `id`, or a fresh one of `source`.
    pub open spec fn session(self, source: Source, id: Seq<char>) -> SessionModel {
        session_in(self.sessions, source, id)
    }

    /// The state with `s` under `id`.
    pub open spec fn with_session(self, id: Seq<char>, s: SessionModel) -> PetModel {
        PetModel { sessions: self.sessions.insert(id, s), ..self }
    }

    /// Every known source is down.
    pub open spec fn all_down(self) -> bool {
        &&& exists|s: Source| self.source_health.contains_key(s)
        &&& forall|s: Source| #[trigger] self.source_health.contains_key(s) ==> !self.source_health[s]
    }

    /// Something waits for the user.
    pub open spec fn has_pending(self) -> bool {
        ||| exists|k: Seq<char>| self.approvals.contains_key(k)
        ||| exists|k: Seq<char>| self.questions.contains_key(k)
    }

    pub open spec fn any_failed(self, ms: u64) -> bool {
        exists|k: Seq<char>| #[trigger]
            self.sessions.contains_key(k) && self.sessions[k].failed_within(self.now_ms, ms)
    }

    pub open spec fn any_done(self, ms: u64) -> bool {
        exists|k: Seq<char>| #[trigger]
            self.sessions.contains_key(k) && self.sessions[k].done_within(self.now_ms, ms)
    }

    pub open spec fn any_tools(self) -> bool {
        exists|k: Seq<char>| #[trigger] self.sessions.contains_key(k) && self.sessions[k].has_tools()
    }

    pub open spec fn any_turns(self) -> bool {
        exists|k: Seq<char>| #[trigger] self.sessions.contains_key(k) && self.sessions[k].turns > 0
    }

    /// What the companion shows.
    pub open spec fn mode(self) -> Mode {
        if self.all_down() {
            Mode::Offline
        } else if self.has_pending() {
            Mode::Attention
        } else if self.any_failed(self.celebrate_ms) {
            Mode::Failed
        } else if self.any_done(self.celebrate_ms) {
            Mode::Done
        } else if self.any_failed(self.fail_ms) {
            Mode::Failed
        } else if self.any_tools() {
            Mode::Working
        } else if self.any_turns() {
            Mode::Thinking
        } else if self.any_done(self.done_ms) {
            Mode::Done
        } else {
            Mode::Idle
        }
    }

    /// Pending work of all sources.
    pub open spec fn queue_total(self) -> int {
        queue_sum(self.queue_pending, ordered::<Source>(self.queue_pending.dom()))
    }

    /// The event can be counted: a session has room for one more open turn.
    pub open spec fn accepts(self, ev: EventModel) -> bool {
        ev matches EventModel::TurnStarted { source, session_id, .. } ==> self.session(source, session_id).turns
            < u32::MAX
    }

    /// A poll no longer lists the session, and it has nothing left to show.
    pub open spec fn reapable(self, s: SessionModel) -> bool {
        &&& !s.is_active()
        &&& s.last_end matches Some(e) ==> self.now_ms > e.1 && self.now_ms - e.1 > self.done_ms
    }

    /// The state after a successful poll.
    pub open spec fn polled(self, source: Source, items: Seq<ItemModel>) -> PetModel {
        let after = poll_sessions(self.sessions, source, self.now_ms, items);
        PetModel {
            sessions: kept(
                after,
                |id: Seq<char>, s: SessionModel|
                    s.source != source || listed(items, id) || !self.reapable(s),
            ),
            done_sound_pending: self.done_sound_pending || poll_completes(
                self.sessions,
                source,
                self.now_ms,
                items,
            ),
            ..self
        }
    }

    /// The state after `ev`.
    pub open spec fn step(self, ev: EventModel) -> PetModel {
        match ev {
            EventModel::SourceHealth { source, healthy } => PetModel {
                source_health: self.source_health.insert(source, healthy),
                ..self
            },
            EventModel::Poll { source, items, ok, .. } => if ok {
                self.polled(source, items)
            } else {
                self
            },
            EventModel::SessionStatus { source, session_id, running } => {
                let s = self.session(source, session_id);
                if running {
                    self.with_session(session_id, SessionModel { running: true, ..s })
                } else {
                    PetModel {
                        done_sound_pending: self.done_sound_pending || s.completes_on_stop(self.now_ms),
                        ..self.with_session(session_id, s.stopped(self.now_ms))
                    }
                }
            },
            EventModel::TurnStarted { source, session_id, .. } => {
                let s = self.session(source, session_id);
                self.with_session(
                    session_id,
                    SessionModel { turns: s.turns + 1, waiting_user: false, running: true, ..s },
                )
            },
            EventModel::TurnEnded { source, session_id, reason, .. } => {
                let s = self.session(source, session_id);
                let turns = if s.turns > 0 {
                    s.turns - 1
                } else {
                    0
                };
                PetModel {
                    done_sound_pending: self.done_sound_pending || reason == TurnEndReason::Completed,
                    fail_sound_pending: self.fail_sound_pending || reason.fails(),
                    ..self.with_session(
                        session_id,
                        SessionModel {
                            turns,
                            last_end: Some((reason, self.now_ms)),
                            waiting_user: s.waiting_user || reason == TurnEndReason::Blocked,
                            live: if turns == 0 {
                                LiveModel::none()
                            } else {
                                s.live
                            },
                            ..s
                        },
                    )
                }
            },
            EventModel::ToolStarted { source, session_id, name, arguments } => {
                let s = self.session(source, session_id);
                self.with_session(
                    session_id,
                    SessionModel {
                        tools: s.tools.insert(name),
                        tool_args: match arguments {
                            Some(a) => s.tool_args.insert(name, a),
                            None => s.tool_args,
                        },
                        work_since: if s.has_tools() {
                            s.work_since
                        } else {
                            Some(self.now_ms)
                        },
                        running: true,
                        ..s
                    },
                )
            },
            EventModel::ToolEnded { source, session_id, name, .. } => {
                let s = self.session(source, session_id);
                self.with_session(
                    session_id,
                    SessionModel {
                        tools: s.tools.remove(name),
                        tool_args: s.tool_args.remove(name),
                        work_since: if s.tools.remove(name) == Set::<Seq<char>>::empty() {
                            None
                        } else {
                            s.work_since
                        },
                        ..s
                    },
                )
            },
            EventModel::TodoSnapshot { source, session_id, todos } => {
                let s = self.session(source, session_id);
                self.with_session(session_id, SessionModel { todos, ..s })
            },
            EventModel::ApprovalRequested { source, id, session_id, tool } => PetModel {
                approvals: self.approvals.insert(
                    id,
                    PendingModel { source, session_id, what: tool, at_ms: self.now_ms },
                ),
                ..self
            },
            EventModel::ApprovalResolved { id, .. } => PetModel {
                approvals: self.approvals.remove(id),
                ..self
            },
            EventModel::QuestionRequested { source, id, session_id, text } => PetModel {
                questions: self.questions.insert(
                    id,
                    PendingModel { source, session_id, what: text, at_ms: self.now_ms },
                ),
                ..self
            },
            EventModel::QuestionResolved { id, .. } => PetModel {
                questions: kept(
                    self.questions,
                    |k: Seq<char>, q: PendingModel| k != id && !has_prefix(k, id.push('\0')),
                ),
                ..self
            },
            EventModel::UserMessage { source, session_id, text } => {
                let s = self.session(source, session_id);
                let t = trimmed(text);
                self.with_session(
                    session_id,
                    SessionModel {
                        last_user_text: if t.len() > 0 {
                            Some(head_of(t, TASK_CHARS as int))
                        } else {
                            s.last_user_text
                        },
                        ..s
                    },
                )
            },
            EventModel::LiveText { source, session_id, reasoning, text, tool_name } => {
                let s = self.session(source, session_id);
                self.with_session(
                    session_id,
                    SessionModel {
                        live: LiveModel {
                            reasoning: grown(s.live.reasoning, reasoning),
                            text: grown(s.live.text, text),
                            tool_name: if tool_name is Some {
                                tool_name
                            } else {
                                s.live.tool_name
                            },
                        },
                        ..s
                    },
                )
            },
            EventModel::QueueChanged { source, pending } => PetModel {
                queue_pending: if pending == 0 {
                    self.queue_pending.remove(source)
                } else {
                    self.queue_pending.insert(source, pending)
                },
                ..self
            },
            EventModel::PendingSync { source } => PetModel {
                approvals: kept(self.approvals, |k: Seq<char>, p: PendingModel| p.source != source),
                questions: kept(self.questions, |k: Seq<char>, p: PendingModel| p.source != source),
                ..self
            },
            EventModel::Tick => PetModel {
                approvals: kept(
                    self.approvals,
                    |k: Seq<char>, p: PendingModel| within(self.now_ms, p.at_ms, TTL_APPROVAL_MS),
                ),
                questions: kept(
                    self.questions,
                    |k: Seq<char>, p: PendingModel| within(self.now_ms, p.at_ms, TTL_APPROVAL_MS),
                ),
                ..self
            },
        }
    }

    /// The list of a snapshot that a session stands in.
    pub open spec fn bucket(self, s: SessionModel) -> Bucket {
        if s.failed_within(self.now_ms, self.fail_ms) {
            Bucket::Failed
        } else if s.done_within(self.now_ms, self.done_ms) {
            Bucket::Done
        } else if s.has_tools() {
            Bucket::Working
        } else if s.turns > 0 {
            Bucket::Thinking
        } else {
            Bucket::Hidden
        }
    }

    /// The sessions of one list, in the order of their ids.
    pub open spec fn bucket_list(self, b: Bucket) -> Seq<InfoModel> {
        ordered::<String>(self.sessions.dom()).filter(
            |k: Seq<char>| self.bucket(self.sessions[k]) == b,
        ).map_values(|k: Seq<char>| self.sessions[k].info(k))
    }

    /// What the user interface shows.
    pub open spec fn snapshot(self) -> SnapModel {
        SnapModel {
            mode: self.mode(),
            sources: self.source_health,
            pending_approvals: pending_list(self.approvals),
            pending_questions: pending_list(self.questions),
            working: self.bucket_list(Bucket::Working),
            thinking: self.bucket_list(Bucket::Thinking),
            failed: self.bucket_list(Bucket::Failed),
            done: self.bucket_list(Bucket::Done),
            working_since: Map::new(
                |k: Seq<char>| self.sessions.contains_key(k) && self.sessions[k].work_since is Some,
                |k: Seq<char>| self.sessions[k].work_since->0,
            ),
            labels: self.labels,
            queue_len: self.queue_total() as u32,
            done_sound_pending: false,
            fail_sound_pending: false,
        }
    }

    /// A session of `source` is doing something or waits for the user.
    pub open spec fn source_busy(self, source: Source) -> bool {
        exists|k: Seq<char>| #[trigger]
            self.sessions.contains_key(k) && self.sessions[k].source == source && (self.sessions[k].turns > 0
                || self.sessions[k].has_tools() || self.sessions[k].waiting_user)
    }

    /// How much a source that is up deserves the bubble.
    pub open spec fn level(self, source: Source) -> int {
        if self.source_busy(source) {
            2
        } else {
            1
        }
    }

    /// The source that the bubble shows among the first `n` in order.
    pub open spec fn best_source(self, ks: Seq<Source>) -> Option<Source>
        decreases ks.len(),
    {
        if ks.len() == 0 {
            None
        } else {
            let rest = self.best_source(ks.drop_last());
            let s = ks.last();
            if !self.source_health[s] {
                rest
            } else {
                match rest {
                    None => Some(s),
                    Some(b) => if self.level(s) > self.level(b) || (self.level(s) == self.level(b) && s == Source::Dsh
                        && b != Source::Dsh) {
                        Some(s)
                    } else {
                        rest
                    },
                }
            }
        }
    }
}

/// The lists of a snapshot.
pub enum Bucket {
    Failed,
    Done,
    Working,
    Thinking,
    Hidden,
}

/// The session under `id`, or a fresh one of `source`.
pub open spec fn session_in(
    sessions: Map<Seq<char>, SessionModel>,
    source: Source,
    id: Seq<char>,
) -> SessionModel {
    if sessions.contains_key(id) {
        sessions[id]
    } else {
        SessionModel::fresh(source)
    }
}

/// A session after its poll item was read.
pub open spec fn poll_session(s: SessionModel, now: u64, item: ItemModel) -> SessionModel {
    let t = SessionModel {
        title: if item.title is Some {
            item.title
        } else {
            s.title
        },
        todos: match item.todos {
            Some(v) => v,
            None => s.todos,
        },
        ..s
    };
    if item.running {
        SessionModel { running: true, ..t }
    } else {
        t.stopped(now)
    }
}

/// The sessions after all poll items were read, first to last.
pub open spec fn poll_sessions(
    sessions: Map<Seq<char>, SessionModel>,
    source: Source,
    now: u64,
    items: Seq<ItemModel>,
) -> Map<Seq<char>, SessionModel>
    decreases items.len(),
{
    if items.len() == 0 {
        sessions
    } else {
        let before = poll_sessions(sessions, source, now, items.drop_last());
        let it = items.last();
        before.insert(it.session_id, poll_session(session_in(before, source, it.session_id), now, it))
    }
}

/// Some session was found stopped in a way that completes it.
pub open spec fn poll_completes(
    sessions: Map<Seq<char>, SessionModel>,
    source: Source,
    now: u64,
    items: Seq<ItemModel>,
) -> bool
    decreases items.len(),
{
    items.len() > 0 && {
        let before = poll_sessions(sessions, source, now, items.drop_last());
        let it = items.last();
        ||| poll_completes(sessions, source, now, items.drop_last())
        ||| !it.running && session_in(before, source, it.session_id).completes_on_stop(now)
    }
}

/// The poll lists a session with this id.
pub open spec fn listed(items: Seq<ItemModel>, id: Seq<char>) -> bool {
    exists|i: int| 0 <= i < items.len() && (#[trigger] items[i]).session_id == id
}

/// The sum of the queues of `ks`.
pub open spec fn queue_sum(q: Map<Source, u32>, ks: Seq<Source>) -> int
    decreases ks.len(),
{
    if ks.len() == 0 {
        0
    } else {
        queue_sum(q, ks.drop_last()) + q[ks.last()]
    }
}

/// Pending requests in the order of their ids.
pub open spec fn pending_list(m: Map<Seq<char>, PendingModel>) -> Seq<(Seq<char>, Seq<char>, Seq<char>)> {
    ordered::<String>(m.dom()).map_values(
        |k: Seq<char>| (m[k].session_id, m[k].what, Seq::<char>::empty()),
    )
}

impl PetState {
    /// A machine that knows nothing yet.
    pub fn new(done_ms: u64, fail_ms: u64) -> (r: Self)
        ensures
            r@ == (PetModel {
                now_ms: 0,
                sessions: Map::empty(),
                approvals: Map::empty(),
                questions: Map::empty(),
                source_health: Map::empty(),
                queue_pending: Map::empty(),
                labels: Map::empty(),
                done_ms,
                fail_ms,
                celebrate_ms: DEFAULT_CELEBRATE_MS,
                done_sound_pending: false,
                fail_sound_pending: false,
            }),
    {
        PetState {
            now_ms: 0,
            sessions: OrdMap::new(),
            approvals: OrdMap::new(),
            questions: OrdMap::new(),
            source_health: OrdMap::new(),
            queue_pending: OrdMap::new(),
            labels: Labels::default(),
            done_ms,
            fail_ms,
            celebrate_ms: DEFAULT_CELEBRATE_MS,
            done_sound_pending: false,
            fail_sound_pending: false,
        }
    }

    /// Sets how long a fresh result outranks everything else.
    pub fn set_celebrate_ms(&mut self, ms: u64)
        ensures
            final(self)@ == (PetModel { celebrate_ms: ms, ..old(self)@ }),
    {
        self.celebrate_ms = ms;
    }

    /// Takes out the session under `id`, or makes a fresh one of `source`.
    fn take_session(&mut self, source: Source, id: &String) -> (r: SessionState)
        ensures
            r@ == old(self)@.session(source, id@),
            final(self)@ == (PetModel { sessions: old(self)@.sessions.remove(id@), ..old(self)@ }),
    {
        match self.sessions.remove(id) {
            Some(s) => s,
            None => SessionState::fresh(source),
        }
    }

    /// Puts a session back.
    fn put_session(&mut self, id: String, s: SessionState, Ghost(before): Ghost<PetModel>)
        requires
            old(self)@.sessions == before.sessions.remove(id@),
        ensures
            final(self)@ == (PetModel { sessions: before.sessions.insert(id@, s@), ..old(self)@ }),
    {
        self.sessions.insert(id, s);
        assert(before.sessions.remove(id@).insert(id@, s@) =~= before.sessions.insert(id@, s@));
    }

    /// Whether the event can be counted.
    pub fn accepts(&self, ev: &StateEvent) -> (r: bool)
        ensures
            r == self@.accepts(ev@),
    {
        match ev {
            StateEvent::TurnStarted { session_id, .. } => match self.sessions.get(session_id) {
                Some(s) => s.turns < u32::MAX,
                None => true,
            },
            _ => true,
        }
    }

    fn poll(&mut self, source: Source, items: Vec<SessionItem>)
        ensures
            final(self)@ == old(self)@.polled(source, items_of(items@)),
    {
        let now: u64 = self.now_ms;
        let done_ms: u64 = self.done_ms;
        let ghost m0 = self@;
        let ghost its = items_of(items@);
        let mut any_done = false;
        let mut i: usize = 0;
        while i < items.len()
            invariant
                i <= items@.len(),
                now == m0.now_ms,
                its == items_of(items@),
                self@ == (PetModel {
                    sessions: poll_sessions(m0.sessions, source, now, its.take(i as int)),
                    ..m0
                }),
                any_done == poll_completes(m0.sessions, source, now, its.take(i as int)),
            decreases items@.len() - i,
        {
            let it = &items[i];
            let ghost m1 = self@;
            let mut s = self.take_session(source, &it.session_id);
            let ghost s0 = s@;
            if it.title.is_some() {
                s.title = clone_opt(&it.title);
            }
            if let Some(todos) = &it.todos {
                s.todos = copy_todos(todos);
            }
            if it.running {
                s.running = true;
            } else {
                let ghost s1 = s@;
                let done = s.stop(now);
                assert(s1.completes_on_stop(now) == s0.completes_on_stop(now));
                any_done = any_done || done;
            }
            proof {
                assert(its[i as int] == it@);
                assert(its.take(i as int + 1).drop_last() =~= its.take(i as int));
                assert(its.take(i as int + 1).last() == it@);
                assert(s@ =~= poll_session(s0, now, it@));
            }
            self.put_session(it.session_id.clone(), s, Ghost(m1));
            i += 1;
        }
        assert(its.take(i as int) =~= its);
        if any_done {
            self.done_sound_pending = true;
        }
        let ghost m2 = self@;
        self.sessions.retain(&StillListed { source, items: &items, now, done_ms });
        assert(self@ =~= m0.polled(source, its));
    }

    /// Folds one event into the state.
    pub fn apply(&mut self, ev: StateEvent)
        requires
            old(self)@.accepts(ev@),
        ensures
            final(self)@ == old(self)@.step(ev@),
    {
        let ghost m0 = self@;
        let now: u64 = self.now_ms;
        match ev {
            StateEvent::SourceHealth { source, healthy } => {
                self.source_health.insert(source, healthy);
            },
            StateEvent::Poll { source, items, ok, .. } => {
                if ok {
                    self.poll(source, items);
                }
            },
            StateEvent::SessionStatus { source, session_id, running } => {
                let mut s = self.take_session(source, &session_id);
                if running {
                    s.running = true;
                } else if s.stop(now) {
                    self.done_sound_pending = true;
                }
                self.put_session(session_id, s, Ghost(m0));
            },
            StateEvent::TurnStarted { source, session_id, .. } => {
                let mut s = self.take_session(source, &session_id);
                s.turns = s.turns + 1;
                s.waiting_user = false;
                s.running = true;
                self.put_session(session_id, s, Ghost(m0));
            },
            StateEvent::TurnEnded { source, session_id, reason, .. } => {
                let mut s = self.take_session(source, &session_id);
                s.turns = s.turns.saturating_sub(1);
                s.last_end = Some((reason, now));
                if reason == TurnEndReason::Blocked {
                    s.waiting_user = true;
                }
                if s.turns == 0 {
                    s.live = LiveText::default();
                }
                if reason == TurnEndReason::Completed {
                    self.done_sound_pending = true;
                }
                if reason.is_failure() {
                    self.fail_sound_pending = true;
                }
                self.put_session(session_id, s, Ghost(m0));
            },
            StateEvent::ToolStarted { source, session_id, name, arguments } => {
                let mut s = self.take_session(source, &session_id);
                let ghost s0 = s@;
                if s.tools.is_empty() {
                    s.work_since = Some(now);
                }
                let ghost tools = s.tools@;
                s.tools.insert(name.clone(), ());
                assert(s.tools@.dom() =~= tools.dom().insert(name@));
                if let Some(a) = arguments {
                    s.tool_args.insert(name, a);
                }
                s.running = true;
                self.put_session(session_id, s, Ghost(m0));
            },
            StateEvent::ToolEnded { source, session_id, name, .. } => {
                let mut s = self.take_session(source, &session_id);
                let ghost tools = s.tools@;
                let _ = s.tools.remove(&name);
                assert(s.tools@.dom() =~= tools.dom().remove(name@));
                let _ = s.tool_args.remove(&name);
                if s.tools.is_empty() {
                    s.work_since = None;
                }
                self.put_session(session_id, s, Ghost(m0));
            },
            StateEvent::TodoSnapshot { source, session_id, todos } => {
                let mut s = self.take_session(source, &session_id);
                s.todos = todos;
                self.put_session(session_id, s, Ghost(m0));
            },
            StateEvent::ApprovalRequested { source, id, session_id, tool } => {
                self.approvals.insert(id, Pending { source, session_id, what: tool, at_ms: now });
            },
            StateEvent::ApprovalResolved { id, .. } => {
                let _ = self.approvals.remove(&id);
            },
            StateEvent::QuestionRequested { source, id, session_id, text } => {
                self.questions.insert(id, Pending { source, session_id, what: text, at_ms: now });
            },
            StateEvent::QuestionResolved { id, .. } => {
                let mut prefix = id.clone();
                prefix.push('\0');
                self.questions.retain(&Unanswered { id: &id, prefix: &prefix });
            },
            StateEvent::UserMessage { source, session_id, text } => {
                let mut s = self.take_session(source, &session_id);
                let t = trim(text.as_str());
                if !t.as_str().is_empty() {
                    s.last_user_text = Some(truncate_chars(t.as_str(), TASK_CHARS));
                }
                self.put_session(session_id, s, Ghost(m0));
            },
            StateEvent::LiveText { source, session_id, reasoning, text, tool_name } => {
                let mut s = self.take_session(source, &session_id);
                s.live.reasoning = grow(&s.live.reasoning, &reasoning);
                s.live.text = grow(&s.live.text, &text);
                if tool_name.is_some() {
                    s.live.tool_name = tool_name;
                }
                self.put_session(session_id, s, Ghost(m0));
            },
            StateEvent::QueueChanged { source, pending } => {
                if pending == 0 {
                    let _ = self.queue_pending.remove(&source);
                } else {
                    self.queue_pending.insert(source, pending);
                }
            },
            StateEvent::PendingSync { source } => {
                self.approvals.retain(&OfOthers { source });
                self.questions.retain(&OfOthers { source });
            },
            StateEvent::Tick => {
                self.approvals.retain(&Young { now });
                self.questions.retain(&Young { now });
            },
        }
        assert(self@ =~= m0.step(ev@));
    }
}

fn is_listed(items: &Vec<SessionItem>, id: &String) -> (r: bool)
    ensures
        r == listed(items_of(items@), id@),
{
    let ghost its = items_of(items@);
    let mut i: usize = 0;
    while i < items.len()
        invariant
            i <= items@.len(),
            its == items_of(items@),
            forall|j: int| 0 <= j < i ==> (#[trigger] its[j]).session_id != id@,
        decreases items@.len() - i,
    {
        assert(its[i as int] == items@[i as int]@);
        if same_text(items[i].session_id.as_str(), id.as_str()) {
            return true;
        }
        i += 1;
    }
    false
}

/// Sessions that a poll leaves in place.
struct StillListed<'a> {
    source: Source,
    items: &'a Vec<SessionItem>,
    now: u64,
    done_ms: u64,
}

impl<'a> Keep<String, SessionState> for StillListed<'a> {
    closed spec fn keep(&self, id: Seq<char>, s: SessionModel) -> bool {
        ||| s.source != self.source
        ||| listed(items_of(self.items@), id)
        ||| s.is_active()
        ||| s.last_end matches Some(e) && !(self.now > e.1 && self.now - e.1 > self.done_ms)
    }

    fn keeps(&self, id: &String, s: &SessionState) -> (r: bool) {
        if s.source != self.source {
            return true;
        }
        if is_listed(self.items, id) {
            return true;
        }
        let ended_long_ago = match &s.last_end {
            Some((_, at)) => self.now.saturating_sub(*at) > self.done_ms,
            None => true,
        };
        s.active() || !ended_long_ago
    }
}

/// Questions that do not belong to the request `id`; the items of a request are
/// keyed by the id, a zero character and the item.
struct Unanswered<'a> {
    id: &'a String,
    prefix: &'a String,
}

impl<'a> Keep<String, Pending> for Unanswered<'a> {
    closed spec fn keep(&self, k: Seq<char>, p: PendingModel) -> bool {
        k != self.id@ && !has_prefix(k, self.prefix@)
    }

    fn keeps(&self, k: &String, p: &Pending) -> (r: bool) {
        !same_text(k.as_str(), self.id.as_str()) && !starts_with(k.as_str(), self.prefix.as_str())
    }
}

/// Requests of other sources.
struct OfOthers {
    source: Source,
}

impl Keep<String, Pending> for OfOthers {
    closed spec fn keep(&self, k: Seq<char>, p: PendingModel) -> bool {
        p.source != self.source
    }

    fn keeps(&self, k: &String, p: &Pending) -> (r: bool) {
        p.source != self.source
    }
}

/// Requests that have not expired.
struct Young {
    now: u64,
}

impl Keep<String, Pending> for Young {
    closed spec fn keep(&self, k: Seq<char>, p: PendingModel) -> bool {
        within(self.now, p.at_ms, TTL_APPROVAL_MS)
    }

    fn keeps(&self, k: &String, p: &Pending) -> (r: bool) {
        is_within(self.now, p.at_ms, TTL_APPROVAL_MS)
    }
}

impl PetState {
    /// Sets the queue depth of the default source.
    pub fn set_queue_len(&mut self, n: u32)
        ensures
            final(self)@ == (PetModel {
                queue_pending: old(self)@.queue_pending.insert(Source::Dsh, n),
                ..old(self)@
            }),
    {
        self.queue_pending.insert(Source::Dsh, n);
    }

    /// The pending work of all sources, if it fits.
    pub fn queue_len_checked(&self) -> (r: Option<u32>)
        ensures
            match r {
                Some(n) => n as int == self@.queue_total(),
                None => self@.queue_total() > u32::MAX,
            },
    {
        let ghost q = self.queue_pending@;
        let ghost ks = ordered::<Source>(q.dom());
        let n: usize = self.queue_pending.len();
        let mut total: u32 = 0;
        let mut i: usize = 0;
        while i < n
            invariant
                i <= n,
                q == self.queue_pending@,
                ks == ordered::<Source>(q.dom()),
                n == ks.len(),
                n == q.dom().len(),
                total as int == queue_sum(q, ks.take(i as int)),
            decreases n - i,
        {
            let x: u32 = *self.queue_pending.value_at(i);
            proof {
                assert(ks.take(i as int + 1).drop_last() =~= ks.take(i as int));
                assert(ks.take(i as int + 1).last() == ks[i as int]);
            }
            match total.checked_add(x) {
                Some(t) => {
                    total = t;
                },
                None => {
                    proof {
                        lemma_queue_sum_grows(q, ks, i as int + 1);
                    }
                    return None;
                },
            }
            i += 1;
        }
        assert(ks.take(i as int) =~= ks);
        Some(total)
    }

    /// The pending work of all sources.
    pub fn queue_len(&self) -> (r: u32)
        requires
            self@.queue_total() <= u32::MAX,
        ensures
            r as int == self@.queue_total(),
    {
        match self.queue_len_checked() {
            Some(n) => n,
            None => 0,
        }
    }

    fn all_sources_down(&self) -> (r: bool)
        ensures
            r == self@.all_down(),
    {
        if self.source_health.is_empty() {
            return false;
        }
        let ghost p = self@;
        let ghost h = p.source_health;
        let ghost ks = ordered::<Source>(h.dom());
        let n: usize = self.source_health.len();
        let mut i: usize = 0;
        while i < n
            invariant
                i <= n,
                p == self@,
                h == p.source_health,
                ks == ordered::<Source>(h.dom()),
                n == ks.len(),
                n == h.dom().len(),
                forall|j: int| 0 <= j < i ==> !h[#[trigger] ks[j]],
            decreases n - i,
        {
            if *self.source_health.value_at(i) {
                assert(p.source_health.contains_key(ks[i as int]));
                return false;
            }
            i += 1;
        }
        proof {
            assert forall|s: Source| #[trigger] p.source_health.contains_key(s) implies !h[s] by {
                assert(ks.contains(s));
            }
        }
        true
    }

    /// Whether some session failed less than `ms` ago.
    fn has_failed(&self, ms: u64) -> (r: bool)
        ensures
            r == self@.any_failed(ms),
    {
        let ghost p = self@;
        let ghost m = p.sessions;
        let ghost ks = ordered::<String>(m.dom());
        let n: usize = self.sessions.len();
        let mut i: usize = 0;
        while i < n
            invariant
                i <= n,
                p == self@,
                m == p.sessions,
                ks == ordered::<String>(m.dom()),
                n == ks.len(),
                n == m.dom().len(),
                forall|j: int| 0 <= j < i ==> !m[#[trigger] ks[j]].failed_within(self.now_ms, ms),
            decreases n - i,
        {
            if self.sessions.value_at(i).failed_recently(self.now_ms, ms) {
                assert(p.sessions.contains_key(ks[i as int]));
                return true;
            }
            i += 1;
        }
        proof {
            assert forall|k: Seq<char>| #[trigger] p.sessions.contains_key(k) implies !m[k].failed_within(self.now_ms, ms) by {
                assert(ks.contains(k));
            }
        }
        false
    }

    /// Whether some session completed less than `ms` ago.
    fn has_done(&self, ms: u64) -> (r: bool)
        ensures
            r == self@.any_done(ms),
    {
        let ghost p = self@;
        let ghost m = p.sessions;
        let ghost ks = ordered::<String>(m.dom());
        let n: usize = self.sessions.len();
        let mut i: usize = 0;
        while i < n
            invariant
                i <= n,
                p == self@,
                m == p.sessions,
                ks == ordered::<String>(m.dom()),
                n == ks.len(),
                n == m.dom().len(),
                forall|j: int| 0 <= j < i ==> !m[#[trigger] ks[j]].done_within(self.now_ms, ms),
            decreases n - i,
        {
            if self.sessions.value_at(i).done_recently(self.now_ms, ms) {
                assert(p.sessions.contains_key(ks[i as int]));
                return true;
            }
            i += 1;
        }
        proof {
            assert forall|k: Seq<char>| #[trigger] p.sessions.contains_key(k) implies !m[k].done_within(self.now_ms, ms) by {
                assert(ks.contains(k));
            }
        }
        false
    }

    /// Whether a tool runs, and whether a turn is open, in some session.
    fn has_work(&self) -> (r: (bool, bool))
        ensures
            r.0 == self@.any_tools(),
            r.1 == self@.any_turns(),
    {
        let ghost p = self@;
        let ghost m = p.sessions;
        let ghost ks = ordered::<String>(m.dom());
        let n: usize = self.sessions.len();
        let mut tools = false;
        let mut turns = false;
        let mut i: usize = 0;
        while i < n
            invariant
                i <= n,
                p == self@,
                m == p.sessions,
                ks == ordered::<String>(m.dom()),
                n == ks.len(),
                n == m.dom().len(),
                tools ==> p.any_tools(),
                turns ==> p.any_turns(),
                !tools ==> forall|j: int| 0 <= j < i ==> !m[#[trigger] ks[j]].has_tools(),
                !turns ==> forall|j: int| 0 <= j < i ==> m[#[trigger] ks[j]].turns <= 0,
            decreases n - i,
        {
            let s = self.sessions.value_at(i);
            assert(p.sessions.contains_key(ks[i as int]));
            if !s.tools.is_empty() {
                tools = true;
            }
            if s.turns > 0 {
                turns = true;
            }
            i += 1;
        }
        proof {
            assert forall|k: Seq<char>| #[trigger] p.sessions.contains_key(k) implies (!tools ==> !m[k].has_tools()) && (!turns
                ==> m[k].turns <= 0) by {
                assert(ks.contains(k));
            }
        }
        (tools, turns)
    }

    /// What the companion shows.
    pub fn mode(&self) -> (r: Mode)
        ensures
            r == self@.mode(),
    {
        if self.all_sources_down() {
            return Mode::Offline;
        }
        let ghost p = self@;
        if !self.approvals.is_empty() {
            assert(p.approvals.contains_key(ordered::<String>(p.approvals.dom())[0]));
            return Mode::Attention;
        }
        if !self.questions.is_empty() {
            assert(p.questions.contains_key(ordered::<String>(p.questions.dom())[0]));
            return Mode::Attention;
        }
        assert(!p.has_pending());
        if self.has_failed(self.celebrate_ms) {
            return Mode::Failed;
        }
        if self.has_done(self.celebrate_ms) {
            return Mode::Done;
        }
        if self.has_failed(self.fail_ms) {
            return Mode::Failed;
        }
        let (tools, turns) = self.has_work();
        if tools {
            return Mode::Working;
        }
        if turns {
            return Mode::Thinking;
        }
        if self.has_done(self.done_ms) {
            return Mode::Done;
        }
        Mode::Idle
    }

    /// Everything that the user interface shows.
    pub fn snapshot(&self) -> (r: Snapshot)
        requires
            self@.queue_total() <= u32::MAX,
        ensures
            r@ == self@.snapshot(),
    {
        let mode = self.mode();
        let mut working: Vec<SessionInfo> = Vec::new();
        let mut thinking: Vec<SessionInfo> = Vec::new();
        let mut failed: Vec<SessionInfo> = Vec::new();
        let mut done: Vec<SessionInfo> = Vec::new();
        let mut since: OrdMap<String, u64> = OrdMap::new();
        let ghost p = self@;
        let ghost m = self.sessions@;
        let ghost ks = ordered::<String>(m.dom());
        let n: usize = self.sessions.len();
        let mut i: usize = 0;
        proof {
            lemma_part_empty(p, ks);
            assert(infos_of(working@) =~= Seq::<InfoModel>::empty());
        }
        while i < n
            invariant
                i <= n,
                p == self@,
                m == self.sessions@,
                ks == ordered::<String>(m.dom()),
                n == ks.len(),
                n == m.dom().len(),
                crate::ordmap::lists::<String>(ks, m.dom()),
                infos_of(working@) == p.part(ks, i as int, Bucket::Working),
                infos_of(thinking@) == p.part(ks, i as int, Bucket::Thinking),
                infos_of(failed@) == p.part(ks, i as int, Bucket::Failed),
                infos_of(done@) == p.part(ks, i as int, Bucket::Done),
                forall|k: Seq<char>| #[trigger] since@.contains_key(k) <==> ks.take(i as int).contains(k)
                    && m[k].work_since is Some,
                forall|k: Seq<char>| #[trigger] since@.contains_key(k) ==> since@[k] == m[k].work_since->0,
            decreases n - i,
        {
            let id = self.sessions.key_at(i);
            let s = self.sessions.value_at(i);
            let info = s.info(id);
            let fail = s.failed_recently(self.now_ms, self.fail_ms);
            let fin = s.done_recently(self.now_ms, self.done_ms);
            proof {
                lemma_part_step(p, ks, i as int);
                crate::seqs::lemma_take_contains(ks, i as int);
            }
            let ghost w0 = working@;
            let ghost t0 = thinking@;
            let ghost f0 = failed@;
            let ghost d0 = done@;
            if let Some(at) = &s.work_since {
                since.insert(id.clone(), *at);
            }
            if fail {
                failed.push(info);
            } else if fin {
                done.push(info);
            } else if !s.tools.is_empty() {
                working.push(info);
            } else if s.turns > 0 {
                thinking.push(info);
            }
            proof {
                lemma_infos_push(w0, info);
                lemma_infos_push(t0, info);
                lemma_infos_push(f0, info);
                lemma_infos_push(d0, info);
            }
            i += 1;
        }
        let r = Snapshot {
            mode,
            sources: self.source_health.copy(),
            pending_approvals: list_pending(&self.approvals),
            pending_questions: list_pending(&self.questions),
            working,
            thinking,
            failed,
            done,
            working_since: since,
            labels: self.labels.copy(),
            queue_len: self.queue_len(),
            done_sound_pending: false,
            fail_sound_pending: false,
        };
        proof {
            assert(ks.take(n as int) =~= ks);
            assert(r@.working_since =~= p.snapshot().working_since);
        }
        r
    }

    /// Reads and clears the sound flags: (done, failed).
    pub fn consume_sounds(&mut self) -> (r: (bool, bool))
        ensures
            r == (old(self)@.done_sound_pending, old(self)@.fail_sound_pending),
            final(self)@ == (PetModel {
                done_sound_pending: false,
                fail_sound_pending: false,
                ..old(self)@
            }),
    {
        let r = (self.done_sound_pending, self.fail_sound_pending);
        self.done_sound_pending = false;
        self.fail_sound_pending = false;
        r
    }

    fn busy(&self, source: Source) -> (r: bool)
        ensures
            r == self@.source_busy(source),
    {
        let ghost m = self.sessions@;
        let ghost ks = ordered::<String>(m.dom());
        let n: usize = self.sessions.len();
        let mut i: usize = 0;
        while i < n
            invariant
                i <= n,
                m == self.sessions@,
                ks == ordered::<String>(m.dom()),
                n == ks.len(),
                n == m.dom().len(),
                forall|j: int| 0 <= j < i ==> !(m[#[trigger] ks[j]].source == source && (m[ks[j]].turns > 0
                    || m[ks[j]].has_tools() || m[ks[j]].waiting_user)),
            decreases n - i,
        {
            let s = self.sessions.value_at(i);
            if s.source == source && (s.turns > 0 || !s.tools.is_empty() || s.waiting_user) {
                assert(m.contains_key(ks[i as int]));
                return true;
            }
            i += 1;
        }
        proof {
            assert forall|k: Seq<char>| #[trigger] m.contains_key(k) implies !(m[k].source == source && (m[k].turns > 0
                || m[k].has_tools() || m[k].waiting_user)) by {
                assert(ks.contains(k));
            }
        }
        false
    }

    /// The source that the bubble shows: of those that are up, a busy one; the
    /// default source where several deserve it alike, else the first in order.
    pub fn select_bubble_source(&self) -> (r: Option<Source>)
        ensures
            r == self@.best_source(ordered::<Source>(self@.source_health.dom())),
    {
        let ghost p = self@;
        let ghost h = self.source_health@;
        let ghost ks = ordered::<Source>(h.dom());
        let n: usize = self.source_health.len();
        let mut best: Option<Source> = None;
        let mut best_level: u8 = 0;
        let mut i: usize = 0;
        while i < n
            invariant
                i <= n,
                p == self@,
                h == self.source_health@,
                ks == ordered::<Source>(h.dom()),
                n == ks.len(),
                n == h.dom().len(),
                best == p.best_source(ks.take(i as int)),
                best matches Some(b) ==> best_level == p.level(b),
            decreases n - i,
        {
            let source = *self.source_health.key_at(i);
            proof {
                assert(ks.take(i as int + 1).drop_last() =~= ks.take(i as int));
                assert(ks.take(i as int + 1).last() == ks[i as int]);
            }
            if *self.source_health.value_at(i) {
                let level: u8 = if self.busy(source) {
                    2
                } else {
                    1
                };
                let better = match best {
                    None => true,
                    Some(b) => level > best_level || (level == best_level && source == Source::Dsh && b
                        != Source::Dsh),
                };
                if better {
                    best = Some(source);
                    best_level = level;
                }
            }
            i += 1;
        }
        assert(ks.take(n as int) =~= ks);
        best
    }
}

impl PetModel {
    /// The sessions of one list among the first `n` ids.
    spec fn part(self, ks: Seq<Seq<char>>, n: int, b: Bucket) -> Seq<InfoModel> {
        ks.take(n).filter(|k: Seq<char>| self.bucket(self.sessions[k]) == b).map_values(
            |k: Seq<char>| self.sessions[k].info(k),
        )
    }
}

proof fn lemma_part_empty(p: PetModel, ks: Seq<Seq<char>>)
    ensures
        forall|b: Bucket| #[trigger] p.part(ks, 0, b) == Seq::<InfoModel>::empty(),
{
    assert forall|b: Bucket| #[trigger] p.part(ks, 0, b) == Seq::<InfoModel>::empty() by {
        reveal(Seq::filter);
        assert(ks.take(0) =~= Seq::<Seq<char>>::empty());
        assert(p.part(ks, 0, b) =~= Seq::<InfoModel>::empty());
    }
}

proof fn lemma_part_step(p: PetModel, ks: Seq<Seq<char>>, i: int)
    requires
        0 <= i < ks.len(),
    ensures
        forall|b: Bucket| #[trigger]
            p.part(ks, i + 1, b) == if p.bucket(p.sessions[ks[i]]) == b {
                p.part(ks, i, b).push(p.sessions[ks[i]].info(ks[i]))
            } else {
                p.part(ks, i, b)
            },
{
    assert forall|b: Bucket| #[trigger]
        p.part(ks, i + 1, b) == if p.bucket(p.sessions[ks[i]]) == b {
            p.part(ks, i, b).push(p.sessions[ks[i]].info(ks[i]))
        } else {
            p.part(ks, i, b)
        } by {
        reveal(Seq::filter);
        assert(ks.take(i + 1).drop_last() =~= ks.take(i));
        assert(ks.take(i + 1).last() == ks[i]);
        assert(p.part(ks, i + 1, b) =~= if p.bucket(p.sessions[ks[i]]) == b {
            p.part(ks, i, b).push(p.sessions[ks[i]].info(ks[i]))
        } else {
            p.part(ks, i, b)
        });
    }
}

proof fn lemma_infos_push(v: Seq<SessionInfo>, s: SessionInfo)
    ensures
        infos_of(v.push(s)) == infos_of(v).push(s@),
{
    assert(infos_of(v.push(s)) =~= infos_of(v).push(s@));
}

proof fn lemma_queue_sum_grows(q: Map<Source, u32>, ks: Seq<Source>, n: int)
    requires
        0 <= n <= ks.len(),
    ensures
        queue_sum(q, ks.take(n)) <= queue_sum(q, ks),
    decreases ks.len() - n,
{
    if n == ks.len() {
        assert(ks.take(n) =~= ks);
    } else {
        assert(ks.take(n + 1).drop_last() =~= ks.take(n));
        lemma_queue_sum_grows(q, ks, n + 1);
    }
}

fn list_pending(m: &OrdMap<String, Pending>) -> (r: Vec<(String, String, String)>)
    ensures
        triples_of(r@) == pending_list(m@),
{
    let ghost ks = ordered::<String>(m@.dom());
    let n: usize = m.len();
    let mut out: Vec<(String, String, String)> = Vec::new();
    let mut i: usize = 0;
    while i < n
        invariant
            i <= n,
            ks == ordered::<String>(m@.dom()),
            n == ks.len(),
            n == m@.dom().len(),
            out@.len() == i,
            forall|j: int| 0 <= j < i ==> (#[trigger] triples_of(out@)[j]) == pending_list(m@)[j],
        decreases n - i,
    {
        let p = m.value_at(i);
        let ghost before = out@;
        out.push((p.session_id.clone(), p.what.clone(), String::new()));
        proof {
            assert forall|j: int| 0 <= j < i + 1 implies (#[trigger] triples_of(out@)[j]) == pending_list(m@)[j] by {
                if j < i {
                    assert(triples_of(before)[j] == triples_of(out@)[j]);
                }
            }
        }
        i += 1;
    }
    assert(triples_of(out@) =~= pending_list(m@));
    out
}

} // verus!
