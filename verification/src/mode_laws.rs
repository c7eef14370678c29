//! Which mode the companion is in, in terms of what the sessions do and how long
//! ago their turns ended.

use vstd::prelude::*;

use crate::event::{EventModel, Mode, Source, TurnEndReason};
use crate::state::{PetModel, SessionModel};

verus! {

/// Less than `ms` milliseconds lie between `at` and `now`.
pub open spec fn younger(now: u64, at: u64, ms: u64) -> bool {
    ms > 0 && now - at < ms
}

/// The last turn of the session failed, less than `ms` ago.
pub open spec fn fresh_failure(s: SessionModel, now: u64, ms: u64) -> bool {
    match s.last_end {
        Some((TurnEndReason::Error, at)) => younger(now, at, ms),
        Some((TurnEndReason::MaxTokens, at)) => younger(now, at, ms),
        _ => false,
    }
}

/// The last turn of the session completed, less than `ms` ago.
pub open spec fn fresh_success(s: SessionModel, now: u64, ms: u64) -> bool {
    match s.last_end {
        Some((TurnEndReason::Completed, at)) => younger(now, at, ms),
        _ => false,
    }
}

/// No session failed less than `ms` ago.
pub open spec fn no_failure(m: PetModel, ms: u64) -> bool {
    forall|k: Seq<char>| #[trigger] m.sessions.contains_key(k) ==> !fresh_failure(m.sessions[k], m.now_ms, ms)
}

/// No session completed less than `ms` ago.
pub open spec fn no_success(m: PetModel, ms: u64) -> bool {
    forall|k: Seq<char>| #[trigger] m.sessions.contains_key(k) ==> !fresh_success(m.sessions[k], m.now_ms, ms)
}

/// Some source is up, or none is known, and nothing waits for the user.
pub open spec fn undisturbed(m: PetModel) -> bool {
    &&& (exists|s: Source| #[trigger] m.source_health.contains_key(s) && m.source_health[s]) || (forall|s: Source|
        !#[trigger] m.source_health.contains_key(s))
    &&& forall|k: Seq<char>| !#[trigger] m.approvals.contains_key(k)
    &&& forall|k: Seq<char>| !#[trigger] m.questions.contains_key(k)
}

/// The companion is offline exactly where it knows a source and none is up.
pub proof fn law_offline_means_none_up(m: PetModel, known: Source)
    requires
        m.source_health.contains_key(known),
    ensures
        m.mode() == Mode::Offline <==> forall|s: Source| #[trigger]
            m.source_health.contains_key(s) ==> !m.source_health[s],
{
}

/// Before any source is known the companion is not offline.
pub proof fn law_unknown_is_not_offline(m: PetModel)
    requires
        forall|s: Source| !#[trigger] m.source_health.contains_key(s),
    ensures
        m.mode() != Mode::Offline,
{
}

/// While a source is up, a request of either kind, and nothing else, asks for
/// attention.
pub proof fn law_request_asks_attention(m: PetModel, up: Source)
    requires
        m.source_health.contains_key(up),
        m.source_health[up],
    ensures
        m.mode() == Mode::Attention <==> (exists|k: Seq<char>| #[trigger] m.approvals.contains_key(k)) || (exists|
            k: Seq<char>,
        | #[trigger] m.questions.contains_key(k)),
{
}

/// A fresh failure comes before everything that the sessions do.
pub proof fn law_fresh_failure_shows(m: PetModel, id: Seq<char>)
    requires
        undisturbed(m),
        m.sessions.contains_key(id),
        fresh_failure(m.sessions[id], m.now_ms, m.celebrate_ms),
    ensures
        m.mode() == Mode::Failed,
{
}

/// Without a fresh failure, a fresh completion comes next, whatever tools run.
pub proof fn law_fresh_completion_shows(m: PetModel, id: Seq<char>)
    requires
        undisturbed(m),
        no_failure(m, m.celebrate_ms),
        m.sessions.contains_key(id),
        fresh_success(m.sessions[id], m.now_ms, m.celebrate_ms),
    ensures
        m.mode() == Mode::Done,
{
}

/// Once nothing fresh is celebrated, a failure is shown for its own window.
pub proof fn law_failure_lasts(m: PetModel, id: Seq<char>)
    requires
        undisturbed(m),
        no_success(m, m.celebrate_ms),
        m.sessions.contains_key(id),
        fresh_failure(m.sessions[id], m.now_ms, m.fail_ms),
    ensures
        m.mode() == Mode::Failed,
{
}

/// Once nothing fresh is celebrated and no failure is shown, what goes on is
/// shown, a tool before a turn, also while a completion is still remembered.
pub proof fn law_work_outranks_old_results(m: PetModel)
    requires
        undisturbed(m),
        no_failure(m, m.celebrate_ms),
        no_success(m, m.celebrate_ms),
        no_failure(m, m.fail_ms),
    ensures
        m.mode() == Mode::Working <==> exists|k: Seq<char>, t: Seq<char>| #[trigger]
            m.sessions.contains_key(k) && #[trigger] m.sessions[k].tools.contains(t),
        m.mode() == Mode::Thinking <==> (forall|k: Seq<char>, t: Seq<char>| #[trigger]
            m.sessions.contains_key(k) ==> !#[trigger] m.sessions[k].tools.contains(t)) && (exists|k: Seq<char>|
            #[trigger] m.sessions.contains_key(k) && m.sessions[k].turns > 0),
{
    assert forall|k: Seq<char>| #[trigger] m.sessions.contains_key(k) && m.sessions[k].has_tools() implies exists|
        t: Seq<char>,
    | m.sessions[k].tools.contains(t) by {
        lemma_some_tool(m.sessions[k].tools);
    }
    assert forall|k: Seq<char>, t: Seq<char>| #[trigger]
        m.sessions.contains_key(k) && #[trigger] m.sessions[k].tools.contains(t) implies m.sessions[k].has_tools() by {
        assert(!Set::<Seq<char>>::empty().contains(t));
    }
    if m.any_tools() {
        let k = choose|k: Seq<char>| #[trigger] m.sessions.contains_key(k) && m.sessions[k].has_tools();
        lemma_some_tool(m.sessions[k].tools);
        let t = choose|t: Seq<char>| m.sessions[k].tools.contains(t);
        assert(m.sessions.contains_key(k) && m.sessions[k].tools.contains(t));
    }
}

/// With nothing going on, a completion is shown for as long as it is remembered;
/// after that the companion rests.
pub proof fn law_rest_follows_results(m: PetModel)
    requires
        undisturbed(m),
        no_failure(m, m.celebrate_ms),
        no_success(m, m.celebrate_ms),
        no_failure(m, m.fail_ms),
        forall|k: Seq<char>, t: Seq<char>| #[trigger]
            m.sessions.contains_key(k) ==> !#[trigger] m.sessions[k].tools.contains(t),
        forall|k: Seq<char>| #[trigger] m.sessions.contains_key(k) ==> m.sessions[k].turns <= 0,
    ensures
        m.mode() == Mode::Done <==> !no_success(m, m.done_ms),
        m.mode() == Mode::Idle <==> no_success(m, m.done_ms),
{
    assert forall|k: Seq<char>| #[trigger] m.sessions.contains_key(k) implies !m.sessions[k].has_tools() by {
        if m.sessions[k].has_tools() {
            lemma_some_tool(m.sessions[k].tools);
        }
    }
}

/// A set that is not empty has a member.
pub proof fn lemma_some_tool(tools: Set<Seq<char>>)
    requires
        tools != Set::<Seq<char>>::empty(),
    ensures
        exists|t: Seq<char>| tools.contains(t),
{
    if forall|t: Seq<char>| !tools.contains(t) {
        assert(tools =~= Set::<Seq<char>>::empty());
    }
}

/// Out of rest, a turn makes the companion think, a tool in it makes it work,
/// and the end of the tool makes it think again.
pub proof fn law_turn_and_tool_show(
    m: PetModel,
    source: Source,
    id: Seq<char>,
    turn: u64,
    name: Seq<char>,
    arguments: Option<Seq<char>>,
    error: bool,
)
    requires
        undisturbed(m),
        forall|k: Seq<char>| #[trigger]
            m.sessions.contains_key(k) ==> m.sessions[k].last_end is None && m.sessions[k].turns == 0
                && m.sessions[k].tools == Set::<Seq<char>>::empty(),
    ensures
        ({
            let a = m.step(EventModel::TurnStarted { source, session_id: id, turn });
            let b = a.step(EventModel::ToolStarted { source, session_id: id, name, arguments });
            let c = b.step(EventModel::ToolEnded { source, session_id: id, name, error });
            &&& m.mode() == Mode::Idle
            &&& a.mode() == Mode::Thinking
            &&& b.mode() == Mode::Working
            &&& c.mode() == Mode::Thinking
        }),
{
    let a = m.step(EventModel::TurnStarted { source, session_id: id, turn });
    let b = a.step(EventModel::ToolStarted { source, session_id: id, name, arguments });
    let c = b.step(EventModel::ToolEnded { source, session_id: id, name, error });
    assert(a.sessions.contains_key(id) && a.sessions[id].turns > 0);
    assert(b.sessions.contains_key(id) && b.sessions[id].tools.contains(name));
    assert(!Set::<Seq<char>>::empty().contains(name));
    assert(c.sessions[id].tools =~= Set::<Seq<char>>::empty());
    assert(c.sessions.contains_key(id) && c.sessions[id].turns > 0);
}

/// The end of a turn is shown as what it was: a completion as done, a failure as
/// failed, and any other end as rest.
pub proof fn law_end_shows(m: PetModel, source: Source, id: Seq<char>, turn: u64, reason: TurnEndReason)
    requires
        undisturbed(m),
        m.celebrate_ms > 0,
        forall|k: Seq<char>| #[trigger]
            m.sessions.contains_key(k) ==> m.sessions[k].last_end is None && m.sessions[k].tools
                == Set::<Seq<char>>::empty() && m.sessions[k].turns == (if k == id { 1int } else { 0 }),
    ensures
        ({
            let n = m.step(EventModel::TurnEnded { source, session_id: id, turn, reason });
            n.mode() == match reason {
                TurnEndReason::Completed => Mode::Done,
                TurnEndReason::Error | TurnEndReason::MaxTokens => Mode::Failed,
                _ => Mode::Idle,
            }
        }),
{
    let n = m.step(EventModel::TurnEnded { source, session_id: id, turn, reason });
    assert(n.sessions.contains_key(id) && n.sessions[id].last_end == Some((reason, m.now_ms)));
}

} // verus!
