//! What holds of the state machine as a whole.

use vstd::prelude::*;

use crate::ordmap::{lemma_ordered_exists, lemma_ordered_is, lists, ordered, Key};
use crate::state::{
    poll_session, poll_sessions, queue_sum, session_in, within, Bucket, EventModel, ItemModel, Mode, PetModel,
    SessionModel, Source, TurnEndReason, LIVE_TEXT_CAP, TTL_APPROVAL_MS,
};
use crate::seqs::{lemma_filter_member, lemma_filter_none};
use crate::text::has_prefix;

verus! {

/// The companion is offline exactly when it knows a source and all known sources are down.
pub proof fn law_offline(m: PetModel)
    ensures
        m.mode() == Mode::Offline <==> m.all_down(),
{
}

/// One source that is up keeps the companion from being offline.
pub proof fn law_one_source_up(m: PetModel, source: Source)
    requires
        m.source_health.contains_key(source),
        m.source_health[source],
    ensures
        m.mode() != Mode::Offline,
{
}

/// Whatever the sessions do, a pending request asks for attention while a source is up.
pub proof fn law_attention(m: PetModel)
    ensures
        !m.all_down() ==> (m.mode() == Mode::Attention <==> m.has_pending()),
{
}

/// The companion never shows the dragging overlay on its own.
pub proof fn law_never_move(m: PetModel)
    ensures
        m.mode() != Mode::Move,
{
}

/// A completed turn is shown even though the next turn starts at once.
pub proof fn law_celebrates_done(m: PetModel, source: Source, id: Seq<char>, t1: u64, t2: u64)
    requires
        !m.all_down(),
        !m.has_pending(),
        m.celebrate_ms > 0,
        forall|k: Seq<char>| #[trigger]
            m.sessions.contains_key(k) && k != id ==> !m.sessions[k].failed_within(m.now_ms, m.celebrate_ms),
    ensures
        m.step(
            EventModel::TurnEnded { source, session_id: id, turn: t1, reason: TurnEndReason::Completed },
        ).step(EventModel::TurnStarted { source, session_id: id, turn: t2 }).mode() == Mode::Done,
{
    let a = m.step(EventModel::TurnEnded { source, session_id: id, turn: t1, reason: TurnEndReason::Completed });
    let b = a.step(EventModel::TurnStarted { source, session_id: id, turn: t2 });
    assert(b.sessions.contains_key(id));
    assert(b.sessions[id].done_within(b.now_ms, b.celebrate_ms));
    assert forall|k: Seq<char>| #[trigger] b.sessions.contains_key(k) implies !b.sessions[k].failed_within(
        b.now_ms,
        b.celebrate_ms,
    ) by {
        if k != id {
            assert(m.sessions.contains_key(k));
        }
    }
}

/// A fresh failure outranks all work.
pub proof fn law_failure_first(m: PetModel, id: Seq<char>)
    requires
        !m.all_down(),
        !m.has_pending(),
        m.sessions.contains_key(id),
        m.sessions[id].failed_within(m.now_ms, m.celebrate_ms),
    ensures
        m.mode() == Mode::Failed,
{
}

/// Once every window has passed, only open work is shown.
pub proof fn law_windows_expire(m: PetModel)
    requires
        !m.all_down(),
        !m.has_pending(),
        forall|k: Seq<char>| #[trigger]
            m.sessions.contains_key(k) ==> !(m.sessions[k].last_end matches Some(e) && (within(
                m.now_ms,
                e.1,
                m.celebrate_ms,
            ) || within(m.now_ms, e.1, m.fail_ms) || within(m.now_ms, e.1, m.done_ms))),
    ensures
        m.mode() == if m.any_tools() {
            Mode::Working
        } else if m.any_turns() {
            Mode::Thinking
        } else {
            Mode::Idle
        },
{
}

/// An aborted or interrupted turn sets off no sound and lands in no result list.
pub proof fn law_neutral_end(m: PetModel, source: Source, id: Seq<char>, turn: u64, reason: TurnEndReason)
    requires
        reason == TurnEndReason::Aborted || reason == TurnEndReason::Interrupted,
    ensures
        ({
            let n = m.step(EventModel::TurnEnded { source, session_id: id, turn, reason });
            &&& n.done_sound_pending == m.done_sound_pending
            &&& n.fail_sound_pending == m.fail_sound_pending
            &&& n.bucket(n.sessions[id]) != Bucket::Failed
            &&& n.bucket(n.sessions[id]) != Bucket::Done
        }),
{
}

/// A failed poll changes nothing.
pub proof fn law_failed_poll(m: PetModel, source: Source, items: Seq<ItemModel>, error: Option<Seq<char>>)
    ensures
        m.step(EventModel::Poll { source, items, ok: false, error }) == m,
{
}

/// A session that waits for the user is never taken for completed when it stops.
pub proof fn law_waiting_is_not_done(m: PetModel, source: Source, id: Seq<char>)
    requires
        m.sessions.contains_key(id),
        m.sessions[id].waiting_user,
    ensures
        ({
            let n = m.step(EventModel::SessionStatus { source, session_id: id, running: false });
            &&& n.sessions[id].last_end == m.sessions[id].last_end
            &&& n.done_sound_pending == m.done_sound_pending
        }),
{
}

/// Resolving a request clears all of its questions, under its own id and under
/// the ids of its items, and no other question.
pub proof fn law_question_resolved(m: PetModel, source: Source, id: Seq<char>, item: Seq<char>, other: Seq<char>)
    ensures
        ({
            let n = m.step(EventModel::QuestionResolved { source, id });
            &&& !n.questions.contains_key(id)
            &&& !n.questions.contains_key(id.push('\0') + item)
            &&& n.questions.contains_key(other) ==> m.questions.contains_key(other) && n.questions[other]
                == m.questions[other]
            &&& m.questions.contains_key(other) && other != id && !has_prefix(other, id.push('\0'))
                ==> n.questions.contains_key(other)
            &&& n.approvals == m.approvals
            &&& n.sessions == m.sessions
        }),
{
    let p = id.push('\0');
    assert((p + item).take(p.len() as int) =~= p);
}

/// After a tick no request is older than its lifetime, and no younger one is lost.
pub proof fn law_requests_expire(m: PetModel, id: Seq<char>)
    ensures
        ({
            let n = m.step(EventModel::Tick);
            &&& n.approvals.contains_key(id) <==> m.approvals.contains_key(id) && within(
                m.now_ms,
                m.approvals[id].at_ms,
                TTL_APPROVAL_MS,
            )
            &&& n.questions.contains_key(id) <==> m.questions.contains_key(id) && within(
                m.now_ms,
                m.questions[id].at_ms,
                TTL_APPROVAL_MS,
            )
            &&& n.sessions == m.sessions
        }),
{
}

/// A source that starts over forgets its own requests and no others.
pub proof fn law_sync_is_local(m: PetModel, source: Source, id: Seq<char>)
    ensures
        ({
            let n = m.step(EventModel::PendingSync { source });
            &&& n.approvals.contains_key(id) <==> m.approvals.contains_key(id) && m.approvals[id].source != source
            &&& n.questions.contains_key(id) <==> m.questions.contains_key(id) && m.questions[id].source != source
        }),
{
}

/// Asking and then resolving leaves the requests as they were.
pub proof fn law_approval_round_trip(m: PetModel, source: Source, id: Seq<char>, session_id: Seq<char>, tool: Seq<char>)
    requires
        !m.approvals.contains_key(id),
    ensures
        m.step(EventModel::ApprovalRequested { source, id, session_id, tool }).step(
            EventModel::ApprovalResolved { source, id },
        ) == m,
{
    assert(m.step(EventModel::ApprovalRequested { source, id, session_id, tool }).step(
        EventModel::ApprovalResolved { source, id },
    ).approvals =~= m.approvals);
}

/// A tool that ends leaves the set of tools as it was before it started.
pub proof fn law_tool_round_trip(m: PetModel, source: Source, id: Seq<char>, name: Seq<char>, args: Option<Seq<char>>)
    requires
        !m.session(source, id).tools.contains(name),
    ensures
        m.step(EventModel::ToolStarted { source, session_id: id, name, arguments: args }).step(
            EventModel::ToolEnded { source, session_id: id, name, error: false },
        ).sessions[id].tools == m.session(source, id).tools,
{
    assert(m.session(source, id).tools.insert(name).remove(name) =~= m.session(source, id).tools);
}

/// A turn that ends leaves as many open turns as there were before it started.
pub proof fn law_turn_round_trip(m: PetModel, source: Source, id: Seq<char>, turn: u64, reason: TurnEndReason)
    requires
        m.session(source, id).turns >= 0,
    ensures
        m.step(EventModel::TurnStarted { source, session_id: id, turn }).step(
            EventModel::TurnEnded { source, session_id: id, turn, reason },
        ).sessions[id].turns == m.session(source, id).turns,
{
}

/// The session that an event speaks of.
pub open spec fn subject(ev: EventModel) -> Option<Seq<char>> {
    match ev {
        EventModel::SessionStatus { session_id, .. } => Some(session_id),
        EventModel::TurnStarted { session_id, .. } => Some(session_id),
        EventModel::TurnEnded { session_id, .. } => Some(session_id),
        EventModel::ToolStarted { session_id, .. } => Some(session_id),
        EventModel::ToolEnded { session_id, .. } => Some(session_id),
        EventModel::TodoSnapshot { session_id, .. } => Some(session_id),
        EventModel::LiveText { session_id, .. } => Some(session_id),
        EventModel::UserMessage { session_id, .. } => Some(session_id),
        _ => None,
    }
}

/// Only a poll can drop a session, and an event changes no session but its own.
pub proof fn law_sessions_are_separate(m: PetModel, ev: EventModel, id: Seq<char>)
    requires
        !(ev is Poll),
        subject(ev) != Some(id),
    ensures
        m.step(ev).sessions.contains_key(id) == m.sessions.contains_key(id),
        m.sessions.contains_key(id) ==> m.step(ev).sessions[id] == m.sessions[id],
{
}

/// A poll never drops a session of another source, nor one that is active.
pub proof fn law_poll_drops_only_idle(
    m: PetModel,
    source: Source,
    items: Seq<ItemModel>,
    error: Option<Seq<char>>,
    id: Seq<char>,
)
    requires
        m.sessions.contains_key(id),
        forall|i: int| 0 <= i < items.len() ==> (#[trigger] items[i]).session_id != id,
        m.sessions[id].source != source || m.sessions[id].is_active(),
    ensures
        m.step(EventModel::Poll { source, items, ok: true, error }).sessions.contains_key(id),
        m.step(EventModel::Poll { source, items, ok: true, error }).sessions[id] == m.sessions[id],
{
    lemma_poll_frame(m.sessions, source, m.now_ms, items, id);
}

proof fn lemma_poll_frame(
    sessions: Map<Seq<char>, SessionModel>,
    source: Source,
    now: u64,
    items: Seq<ItemModel>,
    id: Seq<char>,
)
    requires
        forall|i: int| 0 <= i < items.len() ==> (#[trigger] items[i]).session_id != id,
    ensures
        poll_sessions(sessions, source, now, items).contains_key(id) == sessions.contains_key(id),
        sessions.contains_key(id) ==> poll_sessions(sessions, source, now, items)[id] == sessions[id],
    decreases items.len(),
{
    if items.len() > 0 {
        assert forall|i: int| 0 <= i < items.drop_last().len() implies (#[trigger] items.drop_last()[i]).session_id
            != id by {
            assert(items.drop_last()[i] == items[i]);
        }
        lemma_poll_frame(sessions, source, now, items.drop_last(), id);
        assert(items.last() == items[items.len() - 1]);
    }
}

/// Streamed text within its cap, and a start of work exactly while tools run.
pub open spec fn session_ok(s: SessionModel) -> bool {
    &&& s.turns >= 0
    &&& s.live.reasoning.len() <= LIVE_TEXT_CAP
    &&& s.live.text.len() <= LIVE_TEXT_CAP
    &&& s.work_since is Some <==> s.has_tools()
}

/// Every session is in order.
pub open spec fn sessions_ok(sessions: Map<Seq<char>, SessionModel>) -> bool {
    forall|k: Seq<char>| #[trigger] sessions.contains_key(k) ==> session_ok(sessions[k])
}

/// Every event keeps the streamed text of each session within its cap, and
/// keeps the start of work exactly while tools run.
pub proof fn law_sessions_stay_ok(m: PetModel, ev: EventModel)
    requires
        sessions_ok(m.sessions),
    ensures
        sessions_ok(m.step(ev).sessions),
{
    let n = m.step(ev);
    match ev {
        EventModel::Poll { source, items, ok, .. } => {
            lemma_poll_ok(m.sessions, source, m.now_ms, items);
        },
        EventModel::ToolStarted { source, session_id, name, .. } => {
            let s = m.session(source, session_id);
            assert(s.tools.insert(name).contains(name));
            assert(!Set::<Seq<char>>::empty().contains(name));
            assert(session_ok(n.sessions[session_id]));
        },
        EventModel::ToolEnded { source, session_id, name, .. } => {
            let s = m.session(source, session_id);
            assert(!s.has_tools() ==> s.tools.remove(name) =~= Set::<Seq<char>>::empty());
            assert(session_ok(s));
            assert(session_ok(n.sessions[session_id]));
        },
        EventModel::LiveText { source, session_id, reasoning, text, .. } => {
            let s = m.session(source, session_id);
            assert(session_ok(s));
            assert(session_ok(n.sessions[session_id]));
        },
        _ => {
            assert forall|k: Seq<char>| #[trigger] n.sessions.contains_key(k) implies session_ok(n.sessions[k]) by {
                if subject(ev) != Some(k) {
                    assert(m.sessions.contains_key(k));
                } else {
                    assert(m.sessions.contains_key(k) ==> session_ok(m.sessions[k]));
                }
            }
        },
    }
}

proof fn lemma_poll_ok(sessions: Map<Seq<char>, SessionModel>, source: Source, now: u64, items: Seq<ItemModel>)
    requires
        sessions_ok(sessions),
    ensures
        sessions_ok(poll_sessions(sessions, source, now, items)),
    decreases items.len(),
{
    if items.len() > 0 {
        lemma_poll_ok(sessions, source, now, items.drop_last());
        let before = poll_sessions(sessions, source, now, items.drop_last());
        let it = items.last();
        assert(session_ok(session_in(before, source, it.session_id)));
        assert(session_ok(poll_session(session_in(before, source, it.session_id), now, it)));
    }
}

/// While the companion rests, every list of the snapshot is empty.
pub proof fn law_idle_shows_nothing(m: PetModel, b: Bucket)
    requires
        m.mode() == Mode::Idle,
        m.sessions.dom().finite(),
        b != Bucket::Hidden,
        forall|k: Seq<char>| #[trigger] m.sessions.contains_key(k) ==> m.sessions[k].turns >= 0,
    ensures
        m.bucket_list(b).len() == 0,
{
    let ks = ordered::<String>(m.sessions.dom());
    lemma_ordered_exists::<String>(m.sessions.dom());
    let pred = |k: Seq<char>| m.bucket(m.sessions[k]) == b;
    assert forall|i: int| 0 <= i < ks.len() implies !pred(#[trigger] ks[i]) by {
        assert(ks.contains(ks[i]));
        assert(m.sessions.contains_key(ks[i]));
    }
    lemma_filter_none(ks, pred);
}

/// A session stands in the list of its bucket and in no other list.
pub proof fn law_one_list_per_session(m: PetModel, b: Bucket, i: int)
    requires
        m.sessions.dom().finite(),
        0 <= i < m.bucket_list(b).len(),
    ensures
        ({
            let id = m.bucket_list(b)[i].session_id;
            &&& m.sessions.contains_key(id)
            &&& m.bucket(m.sessions[id]) == b
            &&& m.bucket_list(b)[i] == m.sessions[id].info(id)
        }),
{
    let ks = ordered::<String>(m.sessions.dom());
    lemma_ordered_exists::<String>(m.sessions.dom());
    let pred = |k: Seq<char>| m.bucket(m.sessions[k]) == b;
    lemma_filter_member(ks, pred, i);
    let k = ks.filter(pred)[i];
    assert(m.bucket_list(b)[i] == m.sessions[k].info(k));
    assert(ks.contains(k));
}

/// The bubble shows a source that is up whenever there is one; a busy one where
/// one is busy; and the default source where it deserves it as much as the rest.
pub proof fn law_bubble_source(m: PetModel, other: Source)
    requires
        m.source_health.dom().finite(),
        m.source_health.contains_key(other),
        m.source_health[other],
    ensures
        ({
            let best = m.best_source(ordered::<Source>(m.source_health.dom()));
            &&& best is Some
            &&& m.source_health.contains_key(best->0) && m.source_health[best->0]
            &&& m.level(best->0) >= m.level(other)
            &&& other == Source::Dsh && m.level(best->0) == m.level(other) ==> best == Some(Source::Dsh)
        }),
{
    let ks = ordered::<Source>(m.source_health.dom());
    lemma_ordered_exists::<Source>(m.source_health.dom());
    assert(ks.contains(other));
    let j = choose|j: int| 0 <= j < ks.len() && ks[j] == other;
    lemma_best_source(m, ks);
    assert(m.source_health[ks[j]]);
    let b = m.best_source(ks)->0;
    assert(ks.contains(b));
}

proof fn lemma_best_source(m: PetModel, ks: Seq<Source>)
    ensures
        m.best_source(ks) matches Some(b) ==> ks.contains(b) && m.source_health[b],
        forall|j: int|
            0 <= j < ks.len() && m.source_health[#[trigger] ks[j]] ==> (m.best_source(ks) matches Some(b) && m.level(b)
                >= m.level(ks[j]) && (ks[j] == Source::Dsh && m.level(b) == m.level(ks[j]) ==> b == Source::Dsh)),
    decreases ks.len(),
{
    if ks.len() > 0 {
        let t = ks.drop_last();
        lemma_best_source(m, t);
        assert(ks[ks.len() - 1] == ks.last());
        assert forall|j: int| 0 <= j < ks.len() && m.source_health[#[trigger] ks[j]] implies (m.best_source(
            ks,
        ) matches Some(b) && m.level(b) >= m.level(ks[j]) && (ks[j] == Source::Dsh && m.level(b) == m.level(ks[j])
            ==> b == Source::Dsh)) by {
            if j < t.len() {
                assert(t[j] == ks[j]);
            }
        }
        if m.best_source(t) is Some {
            let b = m.best_source(t)->0;
            let j = choose|j: int| 0 <= j < t.len() && t[j] == b;
            assert(ks[j] == b);
        }
    }
}

/// The total of the queues moves by what one source's queue moves.
pub proof fn law_queue_total(m: PetModel, source: Source, pending: u32)
    requires
        m.queue_pending.dom().finite(),
    ensures
        m.step(EventModel::QueueChanged { source, pending }).queue_total() == m.queue_total() - (
        if m.queue_pending.contains_key(source) {
            m.queue_pending[source] as int
        } else {
            0
        }) + pending,
{
    let q = m.queue_pending;
    let r = q.remove(source);
    let n = m.step(EventModel::QueueChanged { source, pending }).queue_pending;
    if q.contains_key(source) {
        lemma_queue_insert(r, source, q[source]);
        assert(r.insert(source, q[source]) =~= q);
    } else {
        assert(r =~= q);
    }
    if pending > 0 {
        lemma_queue_insert(r, source, pending);
        assert(r.insert(source, pending) =~= n);
    }
}

proof fn lemma_queue_insert(q: Map<Source, u32>, source: Source, x: u32)
    requires
        q.dom().finite(),
        !q.contains_key(source),
    ensures
        queue_sum(q.insert(source, x), ordered::<Source>(q.insert(source, x).dom())) == queue_sum(
            q,
            ordered::<Source>(q.dom()),
        ) + x,
{
    let n = q.insert(source, x);
    lemma_ordered_exists::<Source>(q.dom());
    lemma_ordered_exists::<Source>(n.dom());
    let ks = ordered::<Source>(n.dom());
    assert(ks.contains(source));
    let p = choose|p: int| 0 <= p < ks.len() && ks[p] == source;
    let r = ks.remove(p);
    assert(lists::<Source>(r, q.dom())) by {
        assert forall|i: int, j: int| 0 <= i < j < r.len() implies Source::lt(#[trigger] r[i], #[trigger] r[j]) by {
            let i0 = if i < p { i } else { i + 1 };
            let j0 = if j < p { j } else { j + 1 };
            assert(Source::lt(ks[i0], ks[j0]));
        }
        assert forall|k: Source| #[trigger] r.contains(k) <==> q.dom().contains(k) by {
            if r.contains(k) {
                let i = choose|i: int| 0 <= i < r.len() && r[i] == k;
                let i0 = if i < p { i } else { i + 1 };
                assert(ks[i0] == k);
                assert(ks.contains(k));
                assert(k != source);
            }
            if q.dom().contains(k) {
                assert(ks.contains(k));
                let i = choose|i: int| 0 <= i < ks.len() && ks[i] == k;
                assert(r[if i < p { i } else { i - 1 }] == k);
            }
        }
    }
    lemma_ordered_is::<Source>(r, q.dom());
    lemma_sum_remove(n, ks, p);
    assert forall|i: int| 0 <= i < r.len() implies n[#[trigger] r[i]] == q[r[i]] by {
        assert(r.contains(r[i]));
    }
    lemma_sum_agrees(n, q, r);
}

proof fn lemma_sum_remove(q: Map<Source, u32>, ks: Seq<Source>, p: int)
    requires
        0 <= p < ks.len(),
    ensures
        queue_sum(q, ks) == queue_sum(q, ks.remove(p)) + q[ks[p]],
    decreases ks.len(),
{
    if p == ks.len() - 1 {
        assert(ks.remove(p) =~= ks.drop_last());
    } else {
        lemma_sum_remove(q, ks.drop_last(), p);
        assert(ks.remove(p).drop_last() =~= ks.drop_last().remove(p));
        assert(ks.remove(p).last() == ks.last());
    }
}

proof fn lemma_sum_agrees(a: Map<Source, u32>, b: Map<Source, u32>, ks: Seq<Source>)
    requires
        forall|i: int| 0 <= i < ks.len() ==> a[#[trigger] ks[i]] == b[ks[i]],
    ensures
        queue_sum(a, ks) == queue_sum(b, ks),
    decreases ks.len(),
{
    if ks.len() > 0 {
        assert forall|i: int| 0 <= i < ks.drop_last().len() implies a[#[trigger] ks.drop_last()[i]]
            == b[ks.drop_last()[i]] by {
            assert(ks.drop_last()[i] == ks[i]);
        }
        lemma_sum_agrees(a, b, ks.drop_last());
        assert(ks.last() == ks[ks.len() - 1]);
    }
}

} // verus!
