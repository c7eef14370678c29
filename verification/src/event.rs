//! What the connectors report: sources, events, and their mathematical models.

use vstd::prelude::*;

use crate::ordmap::{Key, OrdMap};
use crate::text::{decimal, decimal_of, joined, opt_text, own, same_text};

verus! {

/// A place that events come from.
#[derive(Debug, Clone, Copy, PartialEq, Eq, Structural, Hash)]
pub enum Source {
    Dsh,
    Hermes,
    ComfyUi,
    /// A script, by its place in the configuration.
    Script(u16),
}

impl View for Source {
    type V = Source;

    open spec fn view(&self) -> Source {
        *self
    }
}

impl Default for Source {
    fn default() -> (r: Self)
        ensures
            r == Source::Dsh,
    {
        Source::Dsh
    }
}

impl Source {
    /// Place of the source in the order in which sources are walked.
    pub open spec fn rank(self) -> int {
        match self {
            Source::Dsh => 0,
            Source::Hermes => 1,
            Source::ComfyUi => 2,
            Source::Script(i) => 3 + i,
        }
    }

    fn rank_of(&self) -> (r: u32)
        ensures
            r as int == self.rank(),
    {
        match self {
            Source::Dsh => 0,
            Source::Hermes => 1,
            Source::ComfyUi => 2,
            Source::Script(i) => 3 + *i as u32,
        }
    }

    /// The name of the source, given the registered script names.
    pub open spec fn label_in(self, names: Map<u16, Seq<char>>) -> Seq<char> {
        match self {
            Source::Dsh => "DSH"@,
            Source::Hermes => "Hermes"@,
            Source::ComfyUi => "ComfyUI"@,
            Source::Script(i) => if names.contains_key(i) {
                names[i]
            } else {
                "Script "@ + decimal(i as nat)
            },
        }
    }

    /// The name shown for the source.
    pub fn label(&self, names: &Labels) -> (r: String)
        ensures
            r@ == self.label_in(names@),
    {
        match self {
            Source::Dsh => own("DSH"),
            Source::Hermes => own("Hermes"),
            Source::ComfyUi => own("ComfyUI"),
            Source::Script(i) => match names.names.get(i) {
                Some(n) => n.clone(),
                None => joined("Script ", decimal_of(*i as u128).as_str()),
            },
        }
    }
}

impl Key for Source {
    open spec fn lt(a: Source, b: Source) -> bool {
        a.rank() < b.rank()
    }

    proof fn lt_irreflexive(a: Source) {
    }

    proof fn lt_transitive(a: Source, b: Source, c: Source) {
    }

    proof fn lt_total(a: Source, b: Source) {
    }

    fn less(&self, other: &Self) -> (r: bool) {
        self.rank_of() < other.rank_of()
    }

    fn same(&self, other: &Self) -> (r: bool) {
        *self == *other
    }

    fn dup(&self) -> (r: Self) {
        *self
    }
}

/// Names that scripts have registered for themselves.
pub struct Labels {
    pub names: OrdMap<u16, String>,
}

impl View for Labels {
    type V = Map<u16, Seq<char>>;

    open spec fn view(&self) -> Map<u16, Seq<char>> {
        self.names@
    }
}

impl Default for Labels {
    fn default() -> (r: Self)
        ensures
            r@ == Map::<u16, Seq<char>>::empty(),
    {
        Labels { names: OrdMap::new() }
    }
}

impl Labels {
    /// Gives script `id` a name.
    pub fn register_script_label(&mut self, id: u16, name: String)
        ensures
            final(self)@ == old(self)@.insert(id, name@),
    {
        self.names.insert(id, name);
    }

    /// A copy of the table.
    pub fn copy(&self) -> (r: Self)
        ensures
            r@ == self@,
    {
        Labels { names: self.names.copy() }
    }
}

/// What the companion shows.
#[derive(Debug, Clone, Copy, PartialEq, Eq, Structural)]
pub enum Mode {
    Offline,
    Attention,
    Failed,
    Working,
    Thinking,
    Done,
    Idle,
    /// The user is dragging the companion; set by the user interface only.
    Move,
}

impl Default for Mode {
    fn default() -> (r: Self)
        ensures
            r == Mode::Move,
    {
        Mode::Move
    }
}

impl Mode {
    /// Nothing goes on in this mode: the companion may be tucked away.
    pub fn rests(self) -> (r: bool)
        ensures
            r == (self == Mode::Idle || self == Mode::Offline),
    {
        match self {
            Mode::Idle | Mode::Offline => true,
            _ => false,
        }
    }

    /// Priority of the mode, higher first.
    pub open spec fn rank(self) -> u8 {
        match self {
            Mode::Offline => 8,
            Mode::Attention => 7,
            Mode::Failed => 6,
            Mode::Working => 5,
            Mode::Thinking => 4,
            Mode::Done => 3,
            Mode::Idle => 2,
            Mode::Move => 1,
        }
    }

    /// Priority of the mode, higher first.
    pub fn priority(self) -> (r: u8)
        ensures
            r == self.rank(),
    {
        match self {
            Mode::Offline => 8,
            Mode::Attention => 7,
            Mode::Failed => 6,
            Mode::Working => 5,
            Mode::Thinking => 4,
            Mode::Done => 3,
            Mode::Idle => 2,
            Mode::Move => 1,
        }
    }

    /// Name of the animation that shows the mode.
    pub open spec fn asset_name(self) -> Seq<char> {
        match self {
            Mode::Offline => "idle"@,
            Mode::Attention => "attention"@,
            Mode::Failed => "fail"@,
            Mode::Working => "working"@,
            Mode::Thinking => "think"@,
            Mode::Done => "done"@,
            Mode::Idle => "idle"@,
            Mode::Move => "move"@,
        }
    }

    /// Name of the animation that shows the mode. Offline reuses the idle one.
    pub fn asset(&self) -> (r: &'static str)
        ensures
            r@ == self.asset_name(),
    {
        match self {
            Mode::Offline => "idle",
            Mode::Attention => "attention",
            Mode::Failed => "fail",
            Mode::Working => "working",
            Mode::Thinking => "think",
            Mode::Done => "done",
            Mode::Idle => "idle",
            Mode::Move => "move",
        }
    }

    /// Idle is the only mode that repeats its whole animation.
    pub fn loops_full(&self) -> (r: bool)
        ensures
            r == (*self == Mode::Idle),
    {
        matches!(self, Mode::Idle)
    }
}

/// How a turn ended.
#[derive(Debug, Clone, Copy, PartialEq, Eq, Structural)]
pub enum TurnEndReason {
    Completed,
    Error,
    MaxTokens,
    Aborted,
    Interrupted,
    Blocked,
}

impl TurnEndReason {
    /// The reason that a kind names.
    pub open spec fn of_kind(kind: Seq<char>) -> Option<TurnEndReason> {
        if kind == "completed"@ {
            Some(TurnEndReason::Completed)
        } else if kind == "error"@ {
            Some(TurnEndReason::Error)
        } else if kind == "max-tokens"@ {
            Some(TurnEndReason::MaxTokens)
        } else if kind == "aborted"@ {
            Some(TurnEndReason::Aborted)
        } else if kind == "interrupted"@ {
            Some(TurnEndReason::Interrupted)
        } else if kind == "blocked"@ {
            Some(TurnEndReason::Blocked)
        } else {
            None
        }
    }

    /// The reason that a kind names, if it names one.
    pub fn from_dsh_kind(kind: &str) -> (r: Option<TurnEndReason>)
        ensures
            r == TurnEndReason::of_kind(kind@),
    {
        if same_text(kind, "completed") {
            Some(TurnEndReason::Completed)
        } else if same_text(kind, "error") {
            Some(TurnEndReason::Error)
        } else if same_text(kind, "max-tokens") {
            Some(TurnEndReason::MaxTokens)
        } else if same_text(kind, "aborted") {
            Some(TurnEndReason::Aborted)
        } else if same_text(kind, "interrupted") {
            Some(TurnEndReason::Interrupted)
        } else if same_text(kind, "blocked") {
            Some(TurnEndReason::Blocked)
        } else {
            None
        }
    }

    /// The reasons that count as a failure.
    pub open spec fn fails(self) -> bool {
        self == TurnEndReason::Error || self == TurnEndReason::MaxTokens
    }

    /// Whether the turn failed.
    pub fn is_failure(&self) -> (r: bool)
        ensures
            r == self.fails(),
    {
        matches!(self, TurnEndReason::Error | TurnEndReason::MaxTokens)
    }

    /// Whether the turn ended without success and without failure.
    pub fn is_neutral(&self) -> (r: bool)
        ensures
            r == (*self == TurnEndReason::Aborted || *self == TurnEndReason::Interrupted),
    {
        matches!(self, TurnEndReason::Aborted | TurnEndReason::Interrupted)
    }
}

/// One line of a task list.
#[derive(Debug, Clone, PartialEq, Eq)]
pub struct TodoItem {
    pub content: String,
    /// `pending`, `in_progress` or `completed`.
    pub status: String,
}

/// Model of a [`TodoItem`].
pub struct TodoModel {
    pub content: Seq<char>,
    pub status: Seq<char>,
}

impl View for TodoItem {
    type V = TodoModel;

    open spec fn view(&self) -> TodoModel {
        TodoModel { content: self.content@, status: self.status@ }
    }
}

impl TodoItem {
    /// A copy of the item.
    pub fn copy(&self) -> (r: Self)
        ensures
            r@ == self@,
    {
        TodoItem { content: self.content.clone(), status: self.status.clone() }
    }
}

/// Model of a task list.
pub open spec fn todos_of(v: Seq<TodoItem>) -> Seq<TodoModel> {
    v.map_values(|t: TodoItem| t@)
}

/// A copy of a task list.
pub fn copy_todos(v: &Vec<TodoItem>) -> (r: Vec<TodoItem>)
    ensures
        todos_of(r@) == todos_of(v@),
{
    let mut out: Vec<TodoItem> = Vec::new();
    let mut i: usize = 0;
    while i < v.len()
        invariant
            i <= v@.len(),
            out@.len() == i,
            forall|j: int| 0 <= j < i ==> (#[trigger] out@[j])@ == v@[j]@,
        decreases v@.len() - i,
    {
        out.push(v[i].copy());
        i += 1;
    }
    assert(todos_of(out@) =~= todos_of(v@));
    out
}

/// Model output that has streamed in so far.
#[derive(Debug, Clone, PartialEq, Eq)]
pub struct LiveText {
    pub reasoning: String,
    pub text: String,
    pub tool_name: Option<String>,
}

/// Model of a [`LiveText`].
pub struct LiveModel {
    pub reasoning: Seq<char>,
    pub text: Seq<char>,
    pub tool_name: Option<Seq<char>>,
}

impl LiveModel {
    /// Nothing has streamed in.
    pub open spec fn none() -> LiveModel {
        LiveModel { reasoning: Seq::empty(), text: Seq::empty(), tool_name: None }
    }
}

impl View for LiveText {
    type V = LiveModel;

    open spec fn view(&self) -> LiveModel {
        LiveModel {
            reasoning: self.reasoning@,
            text: self.text@,
            tool_name: opt_text(self.tool_name),
        }
    }
}

impl Default for LiveText {
    fn default() -> (r: Self)
        ensures
            r@ == LiveModel::none(),
    {
        LiveText { reasoning: String::new(), text: String::new(), tool_name: None }
    }
}

impl LiveText {
    /// A copy of the text.
    pub fn copy(&self) -> (r: Self)
        ensures
            r@ == self@,
    {
        LiveText {
            reasoning: self.reasoning.clone(),
            text: self.text.clone(),
            tool_name: crate::text::clone_opt(&self.tool_name),
        }
    }
}

/// One session of a poll result.
#[derive(Debug, Clone)]
pub struct SessionItem {
    pub session_id: String,
    pub running: bool,
    pub title: Option<String>,
    pub todos: Option<Vec<TodoItem>>,
}

/// Model of a [`SessionItem`].
pub struct ItemModel {
    pub session_id: Seq<char>,
    pub running: bool,
    pub title: Option<Seq<char>>,
    pub todos: Option<Seq<TodoModel>>,
}

impl View for SessionItem {
    type V = ItemModel;

    open spec fn view(&self) -> ItemModel {
        ItemModel {
            session_id: self.session_id@,
            running: self.running,
            title: opt_text(self.title),
            todos: match self.todos {
                Some(v) => Some(todos_of(v@)),
                None => None,
            },
        }
    }
}

/// Model of a list of poll items.
pub open spec fn items_of(v: Seq<SessionItem>) -> Seq<ItemModel> {
    v.map_values(|t: SessionItem| t@)
}

/// What a connector reports.
#[allow(inconsistent_fields)]
#[derive(Debug, Clone)]
pub enum StateEvent {
    /// Baseline poll result of a source.
    Poll { source: Source, items: Vec<SessionItem>, ok: bool, error: Option<String> },
    /// A session started or stopped running.
    SessionStatus { source: Source, session_id: String, running: bool },
    TurnStarted { source: Source, session_id: String, turn: u64 },
    TurnEnded { source: Source, session_id: String, turn: u64, reason: TurnEndReason },
    ToolStarted { source: Source, session_id: String, name: String, arguments: Option<String> },
    ToolEnded { source: Source, session_id: String, name: String, error: bool },
    TodoSnapshot { source: Source, session_id: String, todos: Vec<TodoItem> },
    ApprovalRequested { source: Source, id: String, session_id: String, tool: String },
    ApprovalResolved { source: Source, id: String },
    QuestionRequested { source: Source, id: String, session_id: String, text: String },
    QuestionResolved { source: Source, id: String },
    /// Model output that streamed in since the last event.
    LiveText {
        source: Source,
        session_id: String,
        reasoning: Option<String>,
        text: Option<String>,
        tool_name: Option<String>,
    },
    /// A message of the user.
    UserMessage { source: Source, session_id: String, text: String },
    /// The connector came up or went down.
    SourceHealth { source: Source, healthy: bool },
    /// Depth of the source's queue.
    QueueChanged { source: Source, pending: u32 },
    /// The source lost track of its pending requests: forget them.
    PendingSync { source: Source },
    /// Time has passed.
    Tick,
}

/// Model of a [`StateEvent`].
#[allow(inconsistent_fields)]
pub enum EventModel {
    Poll { source: Source, items: Seq<ItemModel>, ok: bool, error: Option<Seq<char>> },
    SessionStatus { source: Source, session_id: Seq<char>, running: bool },
    TurnStarted { source: Source, session_id: Seq<char>, turn: u64 },
    TurnEnded { source: Source, session_id: Seq<char>, turn: u64, reason: TurnEndReason },
    ToolStarted {
        source: Source,
        session_id: Seq<char>,
        name: Seq<char>,
        arguments: Option<Seq<char>>,
    },
    ToolEnded { source: Source, session_id: Seq<char>, name: Seq<char>, error: bool },
    TodoSnapshot { source: Source, session_id: Seq<char>, todos: Seq<TodoModel> },
    ApprovalRequested { source: Source, id: Seq<char>, session_id: Seq<char>, tool: Seq<char> },
    ApprovalResolved { source: Source, id: Seq<char> },
    QuestionRequested { source: Source, id: Seq<char>, session_id: Seq<char>, text: Seq<char> },
    QuestionResolved { source: Source, id: Seq<char> },
    LiveText {
        source: Source,
        session_id: Seq<char>,
        reasoning: Option<Seq<char>>,
        text: Option<Seq<char>>,
        tool_name: Option<Seq<char>>,
    },
    UserMessage { source: Source, session_id: Seq<char>, text: Seq<char> },
    SourceHealth { source: Source, healthy: bool },
    QueueChanged { source: Source, pending: u32 },
    PendingSync { source: Source },
    Tick,
}

impl View for StateEvent {
    type V = EventModel;

    open spec fn view(&self) -> EventModel {
        match *self {
            StateEvent::Poll { source, items, ok, error } => EventModel::Poll {
                source,
                items: items_of(items@),
                ok,
                error: opt_text(error),
            },
            StateEvent::SessionStatus { source, session_id, running } => EventModel::SessionStatus {
                source,
                session_id: session_id@,
                running,
            },
            StateEvent::TurnStarted { source, session_id, turn } => EventModel::TurnStarted {
                source,
                session_id: session_id@,
                turn,
            },
            StateEvent::TurnEnded { source, session_id, turn, reason } => EventModel::TurnEnded {
                source,
                session_id: session_id@,
                turn,
                reason,
            },
            StateEvent::ToolStarted { source, session_id, name, arguments } => EventModel::ToolStarted {
                source,
                session_id: session_id@,
                name: name@,
                arguments: opt_text(arguments),
            },
            StateEvent::ToolEnded { source, session_id, name, error } => EventModel::ToolEnded {
                source,
                session_id: session_id@,
                name: name@,
                error,
            },
            StateEvent::TodoSnapshot { source, session_id, todos } => EventModel::TodoSnapshot {
                source,
                session_id: session_id@,
                todos: todos_of(todos@),
            },
            StateEvent::ApprovalRequested { source, id, session_id, tool } => EventModel::ApprovalRequested {
                source,
                id: id@,
                session_id: session_id@,
                tool: tool@,
            },
            StateEvent::ApprovalResolved { source, id } => EventModel::ApprovalResolved { source, id: id@ },
            StateEvent::QuestionRequested { source, id, session_id, text } => EventModel::QuestionRequested {
                source,
                id: id@,
                session_id: session_id@,
                text: text@,
            },
            StateEvent::QuestionResolved { source, id } => EventModel::QuestionResolved { source, id: id@ },
            StateEvent::LiveText { source, session_id, reasoning, text, tool_name } => EventModel::LiveText {
                source,
                session_id: session_id@,
                reasoning: opt_text(reasoning),
                text: opt_text(text),
                tool_name: opt_text(tool_name),
            },
            StateEvent::UserMessage { source, session_id, text } => EventModel::UserMessage {
                source,
                session_id: session_id@,
                text: text@,
            },
            StateEvent::SourceHealth { source, healthy } => EventModel::SourceHealth { source, healthy },
            StateEvent::QueueChanged { source, pending } => EventModel::QueueChanged { source, pending },
            StateEvent::PendingSync { source } => EventModel::PendingSync { source },
            StateEvent::Tick => EventModel::Tick,
        }
    }
}

/// Model of a list of events.
pub open spec fn events_of(v: Seq<StateEvent>) -> Seq<EventModel> {
    v.map_values(|e: StateEvent| e@)
}

} // verus!
