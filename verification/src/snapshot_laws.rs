//! What a snapshot says of the sessions and of the requests.

use vstd::prelude::*;

use crate::event::{Source, TodoModel};
use crate::mode_laws::{fresh_failure, fresh_success, lemma_some_tool};
use crate::ordmap::{lemma_filter_lists, lemma_ordered_exists, ordered, text_lt, Key};
use crate::state::{first_open, pending_list, Bucket, InfoModel, PendingModel, PetModel, SessionModel};

verus! {

/// A list has an entry for the session `id`.
pub open spec fn shows(list: Seq<InfoModel>, id: Seq<char>) -> bool {
    exists|i: int| 0 <= i < list.len() && (#[trigger] list[i]).session_id == id
}

/// The entries of a list ascend, so that no session stands in it twice.
pub open spec fn in_order(list: Seq<InfoModel>) -> bool {
    forall|i: int, j: int|
        0 <= i < j < list.len() ==> text_lt((#[trigger] list[i]).session_id, (#[trigger] list[j]).session_id)
}

/// Every entry of a list speaks of a session that is known.
pub open spec fn of_sessions(m: PetModel, list: Seq<InfoModel>) -> bool {
    forall|i: int|
        0 <= i < list.len() ==> m.sessions.contains_key((#[trigger] list[i]).session_id) && list[i]
            == m.sessions[list[i].session_id].info(list[i].session_id)
}

proof fn lemma_bucket(m: PetModel, b: Bucket, id: Seq<char>)
    requires
        m.sessions.dom().finite(),
    ensures
        shows(m.bucket_list(b), id) <==> m.sessions.contains_key(id) && m.bucket(m.sessions[id]) == b,
        in_order(m.bucket_list(b)),
        of_sessions(m, m.bucket_list(b)),
{
    let d = m.sessions.dom();
    let ks = ordered::<String>(d);
    let p = |k: Seq<char>| m.bucket(m.sessions[k]) == b;
    let e = d.filter(p);
    lemma_ordered_exists::<String>(d);
    lemma_filter_lists::<String>(ks, d, p, e);
    let f = ks.filter(p);
    let list = m.bucket_list(b);
    assert forall|i: int| 0 <= i < list.len() implies (#[trigger] list[i]).session_id == f[i] && e.contains(f[i])
        && list[i] == m.sessions[f[i]].info(f[i]) by {
        assert(f.contains(f[i]));
    }
    if shows(list, id) {
        let i = choose|i: int| 0 <= i < list.len() && (#[trigger] list[i]).session_id == id;
        assert(e.contains(f[i]));
    }
    if e.contains(id) {
        assert(f.contains(id));
        let i = choose|i: int| 0 <= i < f.len() && f[i] == id;
        assert(list[i].session_id == id);
    }
    assert forall|i: int, j: int| 0 <= i < j < list.len() implies text_lt(
        (#[trigger] list[i]).session_id,
        (#[trigger] list[j]).session_id,
    ) by {
        assert(text_lt(f[i], f[j]));
    }
}

/// A session is listed as failed for as long as its failure is remembered, else
/// as done for as long as its completion is, else as working while a tool runs,
/// else as thinking while a turn is open, and nowhere otherwise.
pub proof fn law_sessions_are_listed(m: PetModel, id: Seq<char>)
    requires
        m.sessions.dom().finite(),
    ensures
        ({
            let snap = m.snapshot();
            let s = m.sessions[id];
            let known = m.sessions.contains_key(id);
            let failed = fresh_failure(s, m.now_ms, m.fail_ms);
            let done = fresh_success(s, m.now_ms, m.done_ms);
            let works = exists|t: Seq<char>| s.tools.contains(t);
            &&& shows(snap.failed, id) <==> known && failed
            &&& shows(snap.done, id) <==> known && !failed && done
            &&& shows(snap.working, id) <==> known && !failed && !done && works
            &&& shows(snap.thinking, id) <==> known && !failed && !done && !works && s.turns > 0
        }),
{
    lemma_bucket(m, Bucket::Failed, id);
    lemma_bucket(m, Bucket::Done, id);
    lemma_bucket(m, Bucket::Working, id);
    lemma_bucket(m, Bucket::Thinking, id);
    let s = m.sessions[id];
    if s.has_tools() {
        lemma_some_tool(s.tools);
    }
    if exists|t: Seq<char>| s.tools.contains(t) {
        let t = choose|t: Seq<char>| s.tools.contains(t);
        assert(!Set::<Seq<char>>::empty().contains(t));
    }
}

/// The lists are in the order of the session ids, and every entry is what the
/// session says of itself.
pub proof fn law_lists_are_in_order(m: PetModel)
    requires
        m.sessions.dom().finite(),
    ensures
        ({
            let snap = m.snapshot();
            &&& in_order(snap.failed) && of_sessions(m, snap.failed)
            &&& in_order(snap.done) && of_sessions(m, snap.done)
            &&& in_order(snap.working) && of_sessions(m, snap.working)
            &&& in_order(snap.thinking) && of_sessions(m, snap.thinking)
        }),
{
    lemma_bucket(m, Bucket::Failed, Seq::empty());
    lemma_bucket(m, Bucket::Done, Seq::empty());
    lemma_bucket(m, Bucket::Working, Seq::empty());
    lemma_bucket(m, Bucket::Thinking, Seq::empty());
}

/// An entry carries the session's source, title, tasks and streamed text, the
/// first of its running tools, and that tool's arguments.
pub proof fn law_entry_tells_session(s: SessionModel, id: Seq<char>)
    requires
        s.tools.finite(),
    ensures
        ({
            let e = s.info(id);
            &&& e.session_id == id
            &&& e.source == s.source
            &&& e.title == match s.title {
                Some(t) => t,
                None => Seq::empty(),
            }
            &&& e.todos == s.todos
            &&& e.live == s.live
            &&& e.tool is None <==> forall|t: Seq<char>| !s.tools.contains(t)
            &&& e.tool matches Some(t) ==> s.tools.contains(t) && (forall|u: Seq<char>| #[trigger]
                s.tools.contains(u) ==> u == t || text_lt(t, u)) && (s.tool_args.contains_key(t) ==> e.tool_args
                == Some(s.tool_args[t])) && (!s.tool_args.contains_key(t) ==> e.tool_args is None)
            &&& e.tool is None ==> e.tool_args is None
        }),
{
    let ks = ordered::<String>(s.tools);
    lemma_ordered_exists::<String>(s.tools);
    if s.has_tools() {
        lemma_some_tool(s.tools);
        let t = choose|t: Seq<char>| s.tools.contains(t);
        assert(ks.contains(t));
        assert(ks.contains(ks[0]));
        assert forall|u: Seq<char>| #[trigger] s.tools.contains(u) implies u == ks[0] || text_lt(ks[0], u) by {
            assert(ks.contains(u));
            let j = choose|j: int| 0 <= j < ks.len() && ks[j] == u;
            if j > 0 {
                assert(text_lt(ks[0], ks[j]));
            }
        }
    } else {
        assert forall|t: Seq<char>| !s.tools.contains(t) by {
            assert(!Set::<Seq<char>>::empty().contains(t));
        }
    }
}

proof fn lemma_first_open(todos: Seq<TodoModel>)
    ensures
        first_open(todos) matches Some(i) ==> 0 <= i < todos.len() && todos[i].status != "pending"@ && (forall|j: int|
            0 <= j < i ==> (#[trigger] todos[j]).status == "pending"@),
        first_open(todos) is None ==> forall|j: int| 0 <= j < todos.len() ==> (#[trigger] todos[j]).status == "pending"@,
    decreases todos.len(),
{
    if todos.len() > 0 {
        let t = todos.drop_last();
        lemma_first_open(t);
        assert forall|j: int| 0 <= j < t.len() && (first_open(t) is None || j < first_open(t)->0) implies (
        #[trigger] todos[j]).status == "pending"@ by {
            assert(t[j] == todos[j]);
        }
        if first_open(t) is Some {
            assert(t[first_open(t)->0] == todos[first_open(t)->0]);
        }
    }
}

/// What a session works on is named by its title; without one by the last
/// message of the user; without that by its first task that is not pending, of
/// which 120 characters are shown; and not at all where there is none.
pub proof fn law_task_is_named(s: SessionModel, id: Seq<char>, i: int)
    ensures
        ({
            let task = s.info(id).task;
            let titled = s.title is Some && s.title->0.len() > 0;
            let c = s.todos[i].content;
            &&& titled ==> task == s.title
            &&& !titled && s.last_user_text is Some ==> task == s.last_user_text
            &&& !titled && s.last_user_text is None && (forall|j: int|
                0 <= j < s.todos.len() ==> (#[trigger] s.todos[j]).status == "pending"@) ==> task is None
            &&& !titled && s.last_user_text is None && 0 <= i < s.todos.len() && s.todos[i].status != "pending"@ && (
            forall|j: int| 0 <= j < i ==> (#[trigger] s.todos[j]).status == "pending"@) ==> task == Some(
                if c.len() <= 120 {
                    c
                } else {
                    c.take(120).push('…')
                },
            )
        }),
{
    lemma_first_open(s.todos);
    let f = first_open(s.todos);
    if 0 <= i < s.todos.len() && s.todos[i].status != "pending"@ && (forall|j: int|
        0 <= j < i ==> (#[trigger] s.todos[j]).status == "pending"@) {
        assert(f is Some);
        if f->0 < i {
            assert(s.todos[f->0].status == "pending"@);
        }
        if i < f->0 {
            assert(s.todos[i].status == "pending"@);
        }
    }
}

proof fn lemma_pending(p: Map<Seq<char>, PendingModel>)
    requires
        p.dom().finite(),
    ensures
        pending_list(p).len() == p.dom().len(),
        exists|ks: Seq<Seq<char>>| #[trigger]
            crate::ordmap::lists::<String>(ks, p.dom()) && ks.len() == pending_list(p).len() && forall|i: int|
            0 <= i < ks.len() ==> (#[trigger] pending_list(p)[i]).0 == p[ks[i]].session_id && pending_list(p)[i].1
                == p[ks[i]].what && pending_list(p)[i].2.len() == 0,
{
    let ks = ordered::<String>(p.dom());
    lemma_ordered_exists::<String>(p.dom());
    assert(crate::ordmap::lists::<String>(ks, p.dom()));
    assert(ks.no_duplicates()) by {
        assert forall|i: int, j: int| 0 <= i < ks.len() && 0 <= j < ks.len() && i != j implies ks[i] != ks[j] by {
            if i < j {
                assert(text_lt(ks[i], ks[j]));
            } else {
                assert(text_lt(ks[j], ks[i]));
            }
            <String as Key>::lt_irreflexive(ks[i]);
        }
    }
    ks.unique_seq_to_set();
    assert(ks.to_set() =~= p.dom()) by {
        assert forall|k: Seq<char>| ks.to_set().contains(k) <==> p.dom().contains(k) by {
            assert(ks.to_set().contains(k) <==> ks.contains(k));
        }
    }
}

/// Every request that waits is shown once, in the order of the request ids, with
/// its session and with what it asks.
pub proof fn law_requests_are_shown(m: PetModel)
    requires
        m.approvals.dom().finite(),
        m.questions.dom().finite(),
    ensures
        ({
            let snap = m.snapshot();
            &&& snap.pending_approvals.len() == m.approvals.dom().len()
            &&& snap.pending_questions.len() == m.questions.dom().len()
            &&& exists|ks: Seq<Seq<char>>| #[trigger]
                crate::ordmap::lists::<String>(ks, m.approvals.dom()) && ks.len() == snap.pending_approvals.len()
                    && forall|i: int|
                    0 <= i < ks.len() ==> (#[trigger] snap.pending_approvals[i]).0 == m.approvals[ks[i]].session_id
                        && snap.pending_approvals[i].1 == m.approvals[ks[i]].what
            &&& exists|ks: Seq<Seq<char>>| #[trigger]
                crate::ordmap::lists::<String>(ks, m.questions.dom()) && ks.len() == snap.pending_questions.len()
                    && forall|i: int|
                    0 <= i < ks.len() ==> (#[trigger] snap.pending_questions[i]).0 == m.questions[ks[i]].session_id
                        && snap.pending_questions[i].1 == m.questions[ks[i]].what
        }),
{
    lemma_pending(m.approvals);
    lemma_pending(m.questions);
}

/// A snapshot passes on the mode, the health of the sources and the labels, and
/// since when each session has been at work; it takes no sound away.
pub proof fn law_snapshot_passes_on(m: PetModel, id: Seq<char>)
    ensures
        ({
            let snap = m.snapshot();
            &&& snap.mode == m.mode()
            &&& snap.sources == m.source_health
            &&& snap.labels == m.labels
            &&& snap.working_since.contains_key(id) <==> m.sessions.contains_key(id) && m.sessions[id].work_since
                is Some
            &&& snap.working_since.contains_key(id) ==> Some(snap.working_since[id]) == m.sessions[id].work_since
        }),
{
}

/// A session of the source has an open turn or a running tool, or waits for the
/// user.
pub open spec fn occupied(m: PetModel, source: Source) -> bool {
    exists|k: Seq<char>|
        {
            &&& #[trigger] m.sessions.contains_key(k)
            &&& m.sessions[k].source == source
            &&& m.sessions[k].turns > 0 || m.sessions[k].waiting_user || exists|t: Seq<char>|
                m.sessions[k].tools.contains(t)
        }
}

proof fn lemma_occupied(m: PetModel, source: Source)
    ensures
        m.source_busy(source) == occupied(m, source),
{
    assert forall|k: Seq<char>| #[trigger] m.sessions.contains_key(k) implies m.sessions[k].has_tools() == exists|
        t: Seq<char>,
    | m.sessions[k].tools.contains(t) by {
        if m.sessions[k].has_tools() {
            lemma_some_tool(m.sessions[k].tools);
        }
        if exists|t: Seq<char>| m.sessions[k].tools.contains(t) {
            let t = choose|t: Seq<char>| m.sessions[k].tools.contains(t);
            assert(!Set::<Seq<char>>::empty().contains(t));
        }
    }
    if m.source_busy(source) {
        let k = choose|k: Seq<char>| #[trigger]
            m.sessions.contains_key(k) && m.sessions[k].source == source && (m.sessions[k].turns > 0
                || m.sessions[k].has_tools() || m.sessions[k].waiting_user);
        assert(m.sessions.contains_key(k));
    }
    if occupied(m, source) {
        let k = choose|k: Seq<char>|
            {
                &&& #[trigger] m.sessions.contains_key(k)
                &&& m.sessions[k].source == source
                &&& m.sessions[k].turns > 0 || m.sessions[k].waiting_user || exists|t: Seq<char>|
                    m.sessions[k].tools.contains(t)
            };
        assert(m.sessions.contains_key(k));
    }
}

proof fn lemma_best(m: PetModel, ks: Seq<Source>)
    requires
        crate::ordmap::ascending::<Source>(ks),
    ensures
        m.best_source(ks) is None <==> forall|j: int| 0 <= j < ks.len() ==> !m.source_health[#[trigger] ks[j]],
        m.best_source(ks) matches Some(b) ==> ks.contains(b) && m.source_health[b] && forall|j: int|
            0 <= j < ks.len() && m.source_health[#[trigger] ks[j]] && ks[j] != b ==> (m.level(b) > m.level(ks[j]) || (
            m.level(b) == m.level(ks[j]) && (b == Source::Dsh || (ks[j] != Source::Dsh && Source::lt(b, ks[j]))))),
    decreases ks.len(),
{
    if ks.len() > 0 {
        let t = ks.drop_last();
        let s = ks.last();
        assert forall|i: int, j: int| 0 <= i < j < t.len() implies Source::lt(#[trigger] t[i], #[trigger] t[j]) by {
            assert(t[i] == ks[i] && t[j] == ks[j]);
        }
        lemma_best(m, t);
        assert(ks[ks.len() - 1] == s);
        assert forall|j: int| 0 <= j < t.len() implies ks[j] == #[trigger] t[j] && Source::lt(ks[j], s) by {
            assert(Source::lt(ks[j], ks[ks.len() - 1]));
        }
        if m.best_source(t) is Some {
            let b = m.best_source(t)->0;
            let i = choose|i: int| 0 <= i < t.len() && t[i] == b;
            assert(ks[i] == b);
            assert(Source::lt(b, s));
        } else {
            assert forall|j: int| 0 <= j < t.len() implies !m.source_health[#[trigger] ks[j]] by {
                assert(t[j] == ks[j]);
            }
        }
        let r = m.best_source(ks);
        assert forall|j: int|
            r is Some && 0 <= j < ks.len() && m.source_health[#[trigger] ks[j]] && ks[j] != r->0 implies (m.level(r->0)
            > m.level(ks[j]) || (m.level(r->0) == m.level(ks[j]) && (r->0 == Source::Dsh || (ks[j] != Source::Dsh
            && Source::lt(r->0, ks[j]))))) by {
            if j < t.len() {
                assert(t[j] == ks[j]);
            }
        }
    }
}

/// The bubble goes to a source that is up, and to none where none is. Any other
/// source that is up is less occupied, or as much and behind it: the default
/// source comes first, the others follow in order.
pub proof fn law_bubble_goes_to_the_busy(m: PetModel, other: Source)
    requires
        m.source_health.dom().finite(),
    ensures
        ({
            let best = m.best_source(ordered::<Source>(m.source_health.dom()));
            &&& best is None <==> forall|s: Source| #[trigger]
                m.source_health.contains_key(s) ==> !m.source_health[s]
            &&& best matches Some(b) ==> m.source_health.contains_key(b) && m.source_health[b] && (
            m.source_health.contains_key(other) && m.source_health[other] && other != b ==> (occupied(m, b)
                && !occupied(m, other)) || (occupied(m, b) == occupied(m, other) && (b == Source::Dsh || (other
                != Source::Dsh && Source::lt(b, other)))))
        }),
{
    let ks = ordered::<Source>(m.source_health.dom());
    lemma_ordered_exists::<Source>(m.source_health.dom());
    lemma_best(m, ks);
    let best = m.best_source(ks);
    lemma_occupied(m, other);
    if best is Some {
        lemma_occupied(m, best->0);
        assert(ks.contains(best->0));
    }
    assert forall|s: Source| #[trigger] m.source_health.contains_key(s) implies exists|j: int|
        0 <= j < ks.len() && ks[j] == s by {
        assert(ks.contains(s));
    }
    assert forall|j: int| 0 <= j < ks.len() implies m.source_health.contains_key(#[trigger] ks[j]) by {
        assert(ks.contains(ks[j]));
    }
    if m.source_health.contains_key(other) {
        assert(ks.contains(other));
        let j = choose|j: int| 0 <= j < ks.len() && ks[j] == other;
        assert(m.source_health[ks[j]] == m.source_health[other]);
    }
}

} // verus!
