//! What each event does to the session that it speaks of, and what a snapshot
//! says of every session.

use vstd::prelude::*;

use crate::event::{EventModel, ItemModel, LiveModel, Source, TodoModel, TurnEndReason};
use crate::mode_laws::{fresh_failure, fresh_success, lemma_some_tool, younger};
use crate::ordmap::{lemma_ordered_exists, ordered, Key};
use crate::state::{
    first_open, poll_session, poll_sessions, session_in, Bucket, InfoModel, PendingModel, PetModel, SessionModel,
};
use crate::text::trimmed;

verus! {

/// What was known of a session: nothing but its source where it is new.
pub open spec fn was(m: PetModel, source: Source, id: Seq<char>) -> SessionModel {
    if m.sessions.contains_key(id) {
        m.sessions[id]
    } else {
        SessionModel {
            source,
            title: None,
            running: false,
            turns: 0,
            tools: Set::empty(),
            tool_args: Map::empty(),
            last_user_text: None,
            waiting_user: false,
            last_end: None,
            work_since: None,
            todos: Seq::empty(),
            live: LiveModel { reasoning: Seq::empty(), text: Seq::empty(), tool_name: None },
        }
    }
}

/// Nothing but the sessions and the sounds differ.
pub open spec fn same_but_sessions(m: PetModel, n: PetModel) -> bool {
    &&& n.now_ms == m.now_ms
    &&& n.approvals == m.approvals
    &&& n.questions == m.questions
    &&& n.source_health == m.source_health
    &&& n.queue_pending == m.queue_pending
    &&& n.labels == m.labels
    &&& n.done_ms == m.done_ms
    &&& n.fail_ms == m.fail_ms
    &&& n.celebrate_ms == m.celebrate_ms
}

/// Only the session `id` and nothing of the rest was touched, and no sound is
/// due that was not due before.
pub open spec fn touches_only(m: PetModel, n: PetModel, id: Seq<char>) -> bool {
    &&& same_but_sessions(m, n)
    &&& n.done_sound_pending == m.done_sound_pending
    &&& n.fail_sound_pending == m.fail_sound_pending
    &&& n.sessions.contains_key(id)
    &&& n.sessions.remove(id) =~= m.sessions.remove(id)
}

/// A turn that starts is counted and ends the waiting for the user.
pub proof fn law_turn_start_counts(m: PetModel, source: Source, id: Seq<char>, turn: u64)
    ensures
        ({
            let n = m.step(EventModel::TurnStarted { source, session_id: id, turn });
            let (a, b) = (was(m, source, id), n.sessions[id]);
            &&& touches_only(m, n, id)
            &&& b.turns == a.turns + 1
            &&& b.running
            &&& !b.waiting_user
            &&& b == (SessionModel { turns: b.turns, running: b.running, waiting_user: b.waiting_user, ..a })
        }),
{
}

/// A turn that ends is counted off, leaves its reason and its time, and closes
/// the streamed text with the last one; only a blocked one waits for the user.
pub proof fn law_turn_end_is_kept(m: PetModel, source: Source, id: Seq<char>, turn: u64, reason: TurnEndReason)
    requires
        was(m, source, id).turns >= 0,
    ensures
        ({
            let n = m.step(EventModel::TurnEnded { source, session_id: id, turn, reason });
            let (a, b) = (was(m, source, id), n.sessions[id]);
            &&& same_but_sessions(m, n)
            &&& n.sessions.contains_key(id)
            &&& n.sessions.remove(id) =~= m.sessions.remove(id)
            &&& a.turns > 0 ==> b.turns == a.turns - 1
            &&& a.turns == 0 ==> b.turns == 0
            &&& b.last_end == Some((reason, m.now_ms))
            &&& b.waiting_user <==> a.waiting_user || reason == TurnEndReason::Blocked
            &&& b.turns > 0 ==> b.live == a.live
            &&& b.turns == 0 ==> b.live.text.len() == 0 && b.live.reasoning.len() == 0 && b.live.tool_name is None
            &&& b == (SessionModel {
                turns: b.turns,
                last_end: b.last_end,
                waiting_user: b.waiting_user,
                live: b.live,
                ..a
            })
            &&& n.done_sound_pending <==> m.done_sound_pending || reason == TurnEndReason::Completed
            &&& n.fail_sound_pending <==> m.fail_sound_pending || reason == TurnEndReason::Error || reason
                == TurnEndReason::MaxTokens
        }),
{
}

/// A tool that starts runs, with its arguments, and work has gone on since the
/// first of the running tools was started.
pub proof fn law_tool_start_runs(
    m: PetModel,
    source: Source,
    id: Seq<char>,
    name: Seq<char>,
    arguments: Option<Seq<char>>,
)
    ensures
        ({
            let n = m.step(EventModel::ToolStarted { source, session_id: id, name, arguments });
            let (a, b) = (was(m, source, id), n.sessions[id]);
            &&& touches_only(m, n, id)
            &&& forall|t: Seq<char>| #[trigger] b.tools.contains(t) <==> a.tools.contains(t) || t == name
            &&& arguments is Some ==> b.tool_args.contains_key(name) && b.tool_args[name] == arguments->0
            &&& arguments is None ==> b.tool_args == a.tool_args
            &&& b.tool_args.remove(name) =~= a.tool_args.remove(name)
            &&& (exists|t: Seq<char>| a.tools.contains(t)) ==> b.work_since == a.work_since
            &&& (forall|t: Seq<char>| !a.tools.contains(t)) ==> b.work_since == Some(m.now_ms)
            &&& b.running
            &&& b == (SessionModel {
                tools: b.tools,
                tool_args: b.tool_args,
                work_since: b.work_since,
                running: b.running,
                ..a
            })
        }),
{
    let a = was(m, source, id);
    if forall|t: Seq<char>| !a.tools.contains(t) {
        assert(a.tools =~= Set::<Seq<char>>::empty());
    }
    if exists|t: Seq<char>| a.tools.contains(t) {
        let t = choose|t: Seq<char>| a.tools.contains(t);
        assert(!Set::<Seq<char>>::empty().contains(t));
    }
    let b = m.step(EventModel::ToolStarted { source, session_id: id, name, arguments }).sessions[id];
    assert(b.tool_args.remove(name) =~= a.tool_args.remove(name));
}

/// A tool that ends runs no more, its arguments are forgotten, and with the last
/// one the work is over.
pub proof fn law_tool_end_stops(m: PetModel, source: Source, id: Seq<char>, name: Seq<char>, error: bool)
    ensures
        ({
            let n = m.step(EventModel::ToolEnded { source, session_id: id, name, error });
            let (a, b) = (was(m, source, id), n.sessions[id]);
            &&& touches_only(m, n, id)
            &&& forall|t: Seq<char>| #[trigger] b.tools.contains(t) <==> a.tools.contains(t) && t != name
            &&& !b.tool_args.contains_key(name)
            &&& b.tool_args.remove(name) =~= a.tool_args.remove(name)
            &&& (exists|t: Seq<char>| b.tools.contains(t)) ==> b.work_since == a.work_since
            &&& (forall|t: Seq<char>| !b.tools.contains(t)) ==> b.work_since is None
            &&& b == (SessionModel { tools: b.tools, tool_args: b.tool_args, work_since: b.work_since, ..a })
        }),
{
    let a = was(m, source, id);
    let b = m.step(EventModel::ToolEnded { source, session_id: id, name, error }).sessions[id];
    if forall|t: Seq<char>| !b.tools.contains(t) {
        assert(b.tools =~= Set::<Seq<char>>::empty());
    }
    if exists|t: Seq<char>| b.tools.contains(t) {
        let t = choose|t: Seq<char>| b.tools.contains(t);
        assert(!Set::<Seq<char>>::empty().contains(t));
    }
}

/// A task list takes the place of the one before.
pub proof fn law_todos_replaced(m: PetModel, source: Source, id: Seq<char>, todos: Seq<TodoModel>)
    ensures
        ({
            let n = m.step(EventModel::TodoSnapshot { source, session_id: id, todos });
            touches_only(m, n, id) && n.sessions[id] == (SessionModel { todos, ..was(m, source, id) })
        }),
{
}

/// A message of the user is remembered without the space around it, up to 120
/// characters of it; one of space alone changes nothing.
pub proof fn law_user_message_kept(m: PetModel, source: Source, id: Seq<char>, text: Seq<char>)
    ensures
        ({
            let n = m.step(EventModel::UserMessage { source, session_id: id, text });
            let (a, b) = (was(m, source, id), n.sessions[id]);
            let t = trimmed(text);
            &&& touches_only(m, n, id)
            &&& t.len() == 0 ==> b.last_user_text == a.last_user_text
            &&& 0 < t.len() <= 120 ==> b.last_user_text == Some(t)
            &&& t.len() > 120 ==> b.last_user_text is Some && b.last_user_text->0.len() == 121
                && b.last_user_text->0.take(120) == t.take(120) && b.last_user_text->0[120] == '…'
            &&& b == (SessionModel { last_user_text: b.last_user_text, ..a })
        }),
{
    let t = trimmed(text);
    if t.len() > 120 {
        assert(t.take(120).push('…').take(120) =~= t.take(120));
    }
}

/// `s` is the end of `whole`: all of it, or its last 8000 characters.
pub open spec fn newest_of(s: Seq<char>, whole: Seq<char>) -> bool {
    &&& s.len() == if whole.len() < 8000 { whole.len() as int } else { 8000 }
    &&& s == whole.skip(whole.len() - s.len())
}

/// Streamed text is appended to what streamed in before, of which the newest is
/// kept; a tool name stays until another comes.
pub proof fn law_live_text_grows(
    m: PetModel,
    source: Source,
    id: Seq<char>,
    reasoning: Option<Seq<char>>,
    text: Option<Seq<char>>,
    tool_name: Option<Seq<char>>,
)
    requires
        was(m, source, id).live.reasoning.len() <= 8000,
        was(m, source, id).live.text.len() <= 8000,
    ensures
        ({
            let n = m.step(EventModel::LiveText { source, session_id: id, reasoning, text, tool_name });
            let (a, b) = (was(m, source, id), n.sessions[id]);
            &&& touches_only(m, n, id)
            &&& newest_of(
                b.live.reasoning,
                a.live.reasoning + match reasoning {
                    Some(t) => t,
                    None => Seq::empty(),
                },
            )
            &&& newest_of(
                b.live.text,
                a.live.text + match text {
                    Some(t) => t,
                    None => Seq::empty(),
                },
            )
            &&& tool_name is Some ==> b.live.tool_name == tool_name
            &&& tool_name is None ==> b.live.tool_name == a.live.tool_name
            &&& b == (SessionModel { live: b.live, ..a })
        }),
{
    let a = was(m, source, id);
    let b = m.step(EventModel::LiveText { source, session_id: id, reasoning, text, tool_name }).sessions[id];
    let more = match text {
        Some(t) => t,
        None => Seq::empty(),
    };
    let thought = match reasoning {
        Some(t) => t,
        None => Seq::empty(),
    };
    let (w, v) = (a.live.text + more, a.live.reasoning + thought);
    assert(more.len() == 0 ==> w =~= a.live.text);
    assert(thought.len() == 0 ==> v =~= a.live.reasoning);
    assert(b.live.text =~= w.skip(w.len() - b.live.text.len()));
    assert(b.live.reasoning =~= v.skip(v.len() - b.live.reasoning.len()));
}

/// A session that was doing something, does not wait for the user and had no end
/// in the last ten seconds.
pub open spec fn just_finished(s: SessionModel, now: u64) -> bool {
    &&& s.turns > 0 || exists|t: Seq<char>| s.tools.contains(t)
    &&& !s.waiting_user
    &&& s.last_end matches Some(e) ==> !younger(now, e.1, 10_000)
}

/// `b` is `a` at rest; where it had just finished, it completed now.
pub open spec fn at_rest(a: SessionModel, b: SessionModel, now: u64) -> bool {
    &&& !b.running
    &&& b.turns == 0
    &&& forall|t: Seq<char>| !b.tools.contains(t)
    &&& b.work_since is None
    &&& b.last_end == if just_finished(a, now) {
        Some((TurnEndReason::Completed, now))
    } else {
        a.last_end
    }
    &&& b.source == a.source
    &&& b.tool_args == a.tool_args
    &&& b.last_user_text == a.last_user_text
    &&& b.waiting_user == a.waiting_user
    &&& b.live == a.live
}

proof fn lemma_stopped(a: SessionModel, now: u64)
    ensures
        at_rest(a, a.stopped(now), now),
        a.completes_on_stop(now) == just_finished(a, now),
        a.stopped(now).title == a.title,
        a.stopped(now).todos == a.todos,
{
    if a.has_tools() {
        lemma_some_tool(a.tools);
    }
    if exists|t: Seq<char>| a.tools.contains(t) {
        let t = choose|t: Seq<char>| a.tools.contains(t);
        assert(!Set::<Seq<char>>::empty().contains(t));
    }
}

/// A session that is reported as stopped comes to rest, and counts as completed
/// where it had just finished; one that is reported as running runs.
pub proof fn law_status_reported(m: PetModel, source: Source, id: Seq<char>, running: bool)
    ensures
        ({
            let n = m.step(EventModel::SessionStatus { source, session_id: id, running });
            let (a, b) = (was(m, source, id), n.sessions[id]);
            &&& same_but_sessions(m, n)
            &&& n.sessions.contains_key(id)
            &&& n.sessions.remove(id) =~= m.sessions.remove(id)
            &&& n.fail_sound_pending == m.fail_sound_pending
            &&& n.done_sound_pending <==> m.done_sound_pending || (!running && just_finished(a, m.now_ms))
            &&& running ==> b == (SessionModel { running: true, ..a })
            &&& !running ==> at_rest(a, b, m.now_ms) && b.title == a.title && b.todos == a.todos
        }),
{
    lemma_stopped(was(m, source, id), m.now_ms);
}

/// A poll that lists a session once gives it the title and the tasks that it
/// names, and says whether it runs; the session stays.
pub proof fn law_poll_updates(
    m: PetModel,
    source: Source,
    items: Seq<ItemModel>,
    error: Option<Seq<char>>,
    i: int,
)
    requires
        0 <= i < items.len(),
        forall|j: int| 0 <= j < items.len() && j != i ==> (#[trigger] items[j]).session_id != items[i].session_id,
    ensures
        ({
            let n = m.step(EventModel::Poll { source, items, ok: true, error });
            let it = items[i];
            let (a, b) = (was(m, source, it.session_id), n.sessions[it.session_id]);
            &&& same_but_sessions(m, n)
            &&& n.fail_sound_pending == m.fail_sound_pending
            &&& n.sessions.contains_key(it.session_id)
            &&& b.title == if it.title is Some { it.title } else { a.title }
            &&& b.todos == match it.todos {
                Some(v) => v,
                None => a.todos,
            }
            &&& it.running ==> b == (SessionModel { running: true, title: b.title, todos: b.todos, ..a })
            &&& !it.running ==> at_rest(a, b, m.now_ms)
        }),
{
    let it = items[i];
    lemma_poll_one(m.sessions, source, m.now_ms, items, i);
    let a = was(m, source, it.session_id);
    let t = SessionModel {
        title: if it.title is Some {
            it.title
        } else {
            a.title
        },
        todos: match it.todos {
            Some(v) => v,
            None => a.todos,
        },
        ..a
    };
    lemma_stopped(t, m.now_ms);
    assert(items[i].session_id == it.session_id);
}

proof fn lemma_poll_one(
    sessions: Map<Seq<char>, SessionModel>,
    source: Source,
    now: u64,
    items: Seq<ItemModel>,
    i: int,
)
    requires
        0 <= i < items.len(),
        forall|j: int| 0 <= j < items.len() && j != i ==> (#[trigger] items[j]).session_id != items[i].session_id,
    ensures
        poll_sessions(sessions, source, now, items).contains_key(items[i].session_id),
        poll_sessions(sessions, source, now, items)[items[i].session_id] == poll_session(
            session_in(sessions, source, items[i].session_id),
            now,
            items[i],
        ),
    decreases items.len(),
{
    let t = items.drop_last();
    if i < t.len() {
        assert(t[i] == items[i]);
        assert forall|j: int| 0 <= j < t.len() && j != i implies (#[trigger] t[j]).session_id != t[i].session_id by {
            assert(t[j] == items[j]);
        }
        lemma_poll_one(sessions, source, now, t, i);
        assert(items[items.len() - 1].session_id != items[i].session_id);
    } else {
        assert forall|j: int| 0 <= j < t.len() implies (#[trigger] t[j]).session_id != items[i].session_id by {
            assert(t[j] == items[j]);
        }
        lemma_poll_not(sessions, source, now, t, items[i].session_id);
    }
}

proof fn lemma_poll_not(
    sessions: Map<Seq<char>, SessionModel>,
    source: Source,
    now: u64,
    items: Seq<ItemModel>,
    id: Seq<char>,
)
    requires
        forall|j: int| 0 <= j < items.len() ==> (#[trigger] items[j]).session_id != id,
    ensures
        poll_sessions(sessions, source, now, items).contains_key(id) == sessions.contains_key(id),
        sessions.contains_key(id) ==> poll_sessions(sessions, source, now, items)[id] == sessions[id],
    decreases items.len(),
{
    if items.len() > 0 {
        let t = items.drop_last();
        assert forall|j: int| 0 <= j < t.len() implies (#[trigger] t[j]).session_id != id by {
            assert(t[j] == items[j]);
        }
        lemma_poll_not(sessions, source, now, t, id);
        assert(items[items.len() - 1].session_id != id);
    }
}

/// A session that a poll does not list stays as it is, unless it belongs to the
/// source, does nothing, and has no end that is still remembered.
pub proof fn law_poll_leaves(
    m: PetModel,
    source: Source,
    items: Seq<ItemModel>,
    error: Option<Seq<char>>,
    id: Seq<char>,
)
    requires
        forall|j: int| 0 <= j < items.len() ==> (#[trigger] items[j]).session_id != id,
    ensures
        ({
            let n = m.step(EventModel::Poll { source, items, ok: true, error });
            let s = m.sessions[id];
            let idle = !s.running && s.turns <= 0 && (forall|t: Seq<char>| !s.tools.contains(t));
            let forgotten = match s.last_end {
                Some(e) => m.now_ms - e.1 > m.done_ms,
                None => true,
            };
            &&& n.sessions.contains_key(id) <==> m.sessions.contains_key(id) && !(s.source == source && idle
                && forgotten)
            &&& n.sessions.contains_key(id) ==> n.sessions[id] == s
        }),
{
    lemma_poll_not(m.sessions, source, m.now_ms, items, id);
    let s = m.sessions[id];
    if s.has_tools() {
        lemma_some_tool(s.tools);
    }
    if exists|t: Seq<char>| s.tools.contains(t) {
        let t = choose|t: Seq<char>| s.tools.contains(t);
        assert(!Set::<Seq<char>>::empty().contains(t));
    }
}

/// A poll sounds where it finds that a session which it lists once has just
/// finished, and does not sound where none has.
pub proof fn law_poll_sounds(m: PetModel, source: Source, items: Seq<ItemModel>, error: Option<Seq<char>>)
    requires
        forall|i: int, j: int|
            0 <= i < j < items.len() ==> (#[trigger] items[i]).session_id != (#[trigger] items[j]).session_id,
    ensures
        m.step(EventModel::Poll { source, items, ok: true, error }).done_sound_pending <==> m.done_sound_pending || (
        exists|i: int|
            0 <= i < items.len() && !(#[trigger] items[i]).running && just_finished(
                was(m, source, items[i].session_id),
                m.now_ms,
            )),
{
    lemma_poll_sounds(m, source, items);
}

proof fn lemma_poll_sounds(m: PetModel, source: Source, items: Seq<ItemModel>)
    requires
        forall|i: int, j: int|
            0 <= i < j < items.len() ==> (#[trigger] items[i]).session_id != (#[trigger] items[j]).session_id,
    ensures
        crate::state::poll_completes(m.sessions, source, m.now_ms, items) <==> exists|i: int|
            0 <= i < items.len() && !(#[trigger] items[i]).running && just_finished(
                was(m, source, items[i].session_id),
                m.now_ms,
            ),
    decreases items.len(),
{
    if items.len() > 0 {
        let t = items.drop_last();
        let it = items.last();
        let last = items.len() - 1;
        assert(items[last] == it);
        assert forall|i: int, j: int| 0 <= i < j < t.len() implies (#[trigger] t[i]).session_id != (
        #[trigger] t[j]).session_id by {
            assert(t[i] == items[i] && t[j] == items[j]);
        }
        lemma_poll_sounds(m, source, t);
        assert forall|j: int| 0 <= j < t.len() implies (#[trigger] t[j]).session_id != it.session_id by {
            assert(t[j] == items[j]);
            assert(items[j].session_id != items[last].session_id);
        }
        lemma_poll_not(m.sessions, source, m.now_ms, t, it.session_id);
        lemma_stopped(was(m, source, it.session_id), m.now_ms);
        if crate::state::poll_completes(m.sessions, source, m.now_ms, t) {
            let i = choose|i: int|
                0 <= i < t.len() && !(#[trigger] t[i]).running && just_finished(
                    was(m, source, t[i].session_id),
                    m.now_ms,
                );
            assert(items[i] == t[i]);
        }
        if exists|i: int|
            0 <= i < items.len() && !(#[trigger] items[i]).running && just_finished(
                was(m, source, items[i].session_id),
                m.now_ms,
            ) {
            let i = choose|i: int|
                0 <= i < items.len() && !(#[trigger] items[i]).running && just_finished(
                    was(m, source, items[i].session_id),
                    m.now_ms,
                );
            if i < last {
                assert(t[i] == items[i]);
            }
        }
    }
}

/// A request is kept under its id with what it asks, of whom and when.
pub proof fn law_request_is_kept(m: PetModel, source: Source, id: Seq<char>, session_id: Seq<char>, what: Seq<char>)
    ensures
        ({
            let p = PendingModel { source, session_id, what, at_ms: m.now_ms };
            let a = m.step(EventModel::ApprovalRequested { source, id, session_id, tool: what });
            let q = m.step(EventModel::QuestionRequested { source, id, session_id, text: what });
            &&& a == (PetModel { approvals: a.approvals, ..m })
            &&& a.approvals.contains_key(id) && a.approvals[id] == p
            &&& a.approvals.remove(id) =~= m.approvals.remove(id)
            &&& q == (PetModel { questions: q.questions, ..m })
            &&& q.questions.contains_key(id) && q.questions[id] == p
            &&& q.questions.remove(id) =~= m.questions.remove(id)
        }),
{
}

/// An approval that is resolved is gone, and no other request is.
pub proof fn law_approval_resolved(m: PetModel, source: Source, id: Seq<char>, other: Seq<char>)
    ensures
        ({
            let n = m.step(EventModel::ApprovalResolved { source, id });
            &&& n == (PetModel { approvals: n.approvals, ..m })
            &&& n.approvals.contains_key(other) <==> m.approvals.contains_key(other) && other != id
            &&& n.approvals.contains_key(other) ==> n.approvals[other] == m.approvals[other]
        }),
{
}

/// What a source reports of itself is kept for it and for no other source; a
/// queue that is empty is forgotten.
pub proof fn law_source_reports(m: PetModel, source: Source, healthy: bool, pending: u32, other: Source)
    ensures
        ({
            let h = m.step(EventModel::SourceHealth { source, healthy });
            let q = m.step(EventModel::QueueChanged { source, pending });
            &&& h == (PetModel { source_health: h.source_health, ..m })
            &&& h.source_health.contains_key(source) && h.source_health[source] == healthy
            &&& other != source ==> h.source_health.contains_key(other) == m.source_health.contains_key(other)
            &&& other != source && m.source_health.contains_key(other) ==> h.source_health[other]
                == m.source_health[other]
            &&& q == (PetModel { queue_pending: q.queue_pending, ..m })
            &&& q.queue_pending.contains_key(source) <==> pending > 0
            &&& pending > 0 ==> q.queue_pending[source] == pending
            &&& other != source ==> q.queue_pending.contains_key(other) == m.queue_pending.contains_key(other)
            &&& other != source && m.queue_pending.contains_key(other) ==> q.queue_pending[other]
                == m.queue_pending[other]
        }),
{
}

/// Forgetting the requests of a source, or old ones, changes none that stays and
/// nothing else.
pub proof fn law_forgetting_changes_no_other(m: PetModel, source: Source, id: Seq<char>)
    ensures
        ({
            let s = m.step(EventModel::PendingSync { source });
            let t = m.step(EventModel::Tick);
            &&& s == (PetModel { approvals: s.approvals, questions: s.questions, ..m })
            &&& t == (PetModel { approvals: t.approvals, questions: t.questions, ..m })
            &&& s.approvals.contains_key(id) ==> s.approvals[id] == m.approvals[id]
            &&& s.questions.contains_key(id) ==> s.questions[id] == m.questions[id]
            &&& t.approvals.contains_key(id) ==> t.approvals[id] == m.approvals[id]
            &&& t.questions.contains_key(id) ==> t.questions[id] == m.questions[id]
            &&& t.approvals.contains_key(id) <==> m.approvals.contains_key(id) && m.now_ms - m.approvals[id].at_ms
                < 1_800_000
            &&& t.questions.contains_key(id) <==> m.questions.contains_key(id) && m.now_ms - m.questions[id].at_ms
                < 1_800_000
        }),
{
}

} // verus!
