//! What polling the Hermes database comes to.

use vstd::prelude::*;
use vstd::string::*;

use crate::connectors::hermes::{
    asks, choices_in, clarify_of, first_clarify, gone_events, has_choice, preview_in, question_in, MessageModel,
    PollModel, PrevModel, SessionRowModel,
};
use crate::event::{EventModel, ItemModel, Source, TurnEndReason};
use crate::json::{json_in_text, JsonModel};
use crate::ordmap::{lemma_ordered_exists, ordered};
use crate::text::{has_text, trimmed};

verus! {

/// What is remembered of a session: nothing where it is new.
pub open spec fn known(m: PollModel, id: Seq<char>) -> PrevModel {
    if m.prev.contains_key(id) {
        m.prev[id]
    } else {
        PrevModel {
            running: false,
            turn: 0,
            last_msg_id: 0,
            last_content: None,
            last_reasoning: None,
            pending_tool: None,
            pending_question: None,
            title: None,
        }
    }
}

/// What a message shows: what is meant for display, or else its content.
pub open spec fn shown_text(row: MessageModel) -> Seq<char> {
    if row.display_content is Some {
        row.display_content->0
    } else if row.content is Some {
        row.content->0
    } else {
        Seq::empty()
    }
}

/// What the model thought before a message.
pub open spec fn shown_thoughts(row: MessageModel) -> Seq<char> {
    if row.reasoning_content is Some {
        row.reasoning_content->0
    } else if row.reasoning is Some {
        row.reasoning->0
    } else {
        Seq::empty()
    }
}

/// A message says something that the last look did not see.
pub open spec fn is_news(p: PrevModel, row: MessageModel) -> bool {
    ||| row.id != p.last_msg_id
    ||| p.last_content != Some(shown_text(row))
    ||| p.last_reasoning != Some(shown_thoughts(row))
}

/// The end of the tool that is shown, if one is.
pub open spec fn tool_over(p: PrevModel, id: Seq<char>) -> Seq<EventModel> {
    if p.pending_tool is Some {
        seq![
            EventModel::ToolEnded { source: Source::Hermes, session_id: id, name: p.pending_tool->0, error: false },
        ]
    } else {
        Seq::empty()
    }
}

/// No question is open, and the message asks none.
pub open spec fn no_question(p: PrevModel, clarify: Option<(Seq<char>, Seq<char>)>) -> bool {
    p.pending_question is None && clarify is None
}

/// A message that is no news changes nothing and tells nothing.
pub proof fn law_no_news(
    m: PollModel,
    id: Seq<char>,
    row: MessageModel,
    clarify: Option<(Seq<char>, Seq<char>)>,
    preview: Option<Seq<char>>,
)
    requires
        !is_news(known(m, id), row),
    ensures
        m.message_read(id, row, clarify, preview).evs == m.evs,
        m.message_read(id, row, clarify, preview).prev == m.prev.insert(id, known(m, id)),
{
    assert(m.evs + Seq::<EventModel>::empty() =~= m.evs);
}

/// A message is remembered by its number and by what it shows, and touches
/// nothing of the other sessions and of the report.
pub proof fn law_message_is_remembered(
    m: PollModel,
    id: Seq<char>,
    row: MessageModel,
    clarify: Option<(Seq<char>, Seq<char>)>,
    preview: Option<Seq<char>>,
)
    ensures
        ({
            let n = m.message_read(id, row, clarify, preview);
            let (p, q) = (known(m, id), n.prev[id]);
            &&& n.prev.contains_key(id)
            &&& n.prev.remove(id) =~= m.prev.remove(id)
            &&& n.items == m.items
            &&& n.any_running == m.any_running
            &&& q.last_msg_id == row.id
            &&& q.last_content == Some(shown_text(row))
            &&& q.last_reasoning == Some(shown_thoughts(row))
            &&& q.running == p.running
            &&& q.turn == p.turn
            &&& q.title == p.title
        }),
{
}

/// A tool that is not the one shown takes its place: the one shown ends, and the
/// new one starts with the preview of its result. It is then the one shown.
pub proof fn law_new_tool_is_shown(
    m: PollModel,
    id: Seq<char>,
    row: MessageModel,
    clarify: Option<(Seq<char>, Seq<char>)>,
    preview: Option<Seq<char>>,
    name: Seq<char>,
)
    requires
        is_news(known(m, id), row),
        row.role == "tool"@,
        row.tool_name == Some(name),
        name.len() > 0,
        name != "clarify"@,
        known(m, id).pending_tool != Some(name),
    ensures
        ({
            let p = known(m, id);
            let n = m.message_read(id, row, clarify, preview);
            let started = EventModel::ToolStarted { source: Source::Hermes, session_id: id, name, arguments: preview };
            let k = n.evs.len() - tool_over(p, id).len() - 1;
            &&& n.prev[id].pending_tool == Some(name)
            &&& k >= m.evs.len()
            &&& n.evs.skip(k) == tool_over(p, id).push(started)
            &&& no_question(p, clarify) ==> n.evs == m.evs + tool_over(p, id).push(started)
        }),
{
    let p = known(m, id);
    let n = m.message_read(id, row, clarify, preview);
    let started = EventModel::ToolStarted { source: Source::Hermes, session_id: id, name, arguments: preview };
    let k = n.evs.len() - tool_over(p, id).len() - 1;
    assert(n.evs.skip(k) =~= tool_over(p, id).push(started));
    if no_question(p, clarify) {
        assert(n.evs =~= m.evs + tool_over(p, id).push(started));
    }
}

/// The tool that is shown is not started again, and neither is one without a name
/// nor the answer to a question.
pub proof fn law_shown_tool_goes_on(
    m: PollModel,
    id: Seq<char>,
    row: MessageModel,
    clarify: Option<(Seq<char>, Seq<char>)>,
    preview: Option<Seq<char>>,
)
    requires
        row.role == "tool"@,
        row.tool_name is None || row.tool_name->0.len() == 0 || row.tool_name->0 == "clarify"@ || known(
            m,
            id,
        ).pending_tool == row.tool_name,
    ensures
        ({
            let n = m.message_read(id, row, clarify, preview);
            &&& n.prev[id].pending_tool == known(m, id).pending_tool
            &&& no_question(known(m, id), clarify) ==> n.evs == m.evs
            &&& forall|i: int| m.evs.len() <= i < n.evs.len() ==> !((#[trigger] n.evs[i]) is ToolStarted)
                && !(n.evs[i] is ToolEnded)
        }),
{
    assert(m.evs + Seq::<EventModel>::empty() =~= m.evs);
}

/// A text with nothing in it is not told.
pub open spec fn worth_telling(s: Seq<char>) -> Option<Seq<char>> {
    if s.len() > 0 {
        Some(s)
    } else {
        None
    }
}

/// A new message that is no tool's ends the tool that is shown; what the user
/// wrote is told as a message, anything else as text of the model.
pub proof fn law_new_message_is_told(
    m: PollModel,
    id: Seq<char>,
    row: MessageModel,
    clarify: Option<(Seq<char>, Seq<char>)>,
    preview: Option<Seq<char>>,
)
    requires
        row.role != "tool"@,
        row.id != known(m, id).last_msg_id,
        no_question(known(m, id), clarify),
    ensures
        ({
            let p = known(m, id);
            let n = m.message_read(id, row, clarify, preview);
            let text = shown_text(row);
            &&& n.prev[id].pending_tool is None
            &&& row.role == "user"@ && text.len() > 0 ==> n.evs == m.evs + tool_over(p, id).push(
                EventModel::UserMessage { source: Source::Hermes, session_id: id, text },
            )
            &&& row.role != "user"@ || text.len() == 0 ==> n.evs == m.evs + tool_over(p, id).push(
                EventModel::LiveText {
                    source: Source::Hermes,
                    session_id: id,
                    reasoning: worth_telling(shown_thoughts(row)),
                    text: worth_telling(text),
                    tool_name: None,
                },
            )
        }),
{
    let p = known(m, id);
    let n = m.message_read(id, row, clarify, preview);
    assert(n.evs =~= m.evs + tool_over(p, id).push(n.evs.last()));
}

/// A message that grew tells only what was added to it, to the text and to the
/// thoughts.
pub proof fn law_growth_is_told(
    m: PollModel,
    id: Seq<char>,
    row: MessageModel,
    preview: Option<Seq<char>>,
    text: Seq<char>,
    more: Seq<char>,
    thoughts: Seq<char>,
    more_thoughts: Seq<char>,
)
    requires
        row.role != "tool"@,
        row.role != "user"@,
        row.id == known(m, id).last_msg_id,
        known(m, id).last_content == Some(text),
        known(m, id).last_reasoning == Some(thoughts),
        shown_text(row) == text + more,
        shown_thoughts(row) == thoughts + more_thoughts,
        more.len() > 0 || more_thoughts.len() > 0,
        known(m, id).pending_question is None,
    ensures
        m.message_read(id, row, None, preview).evs == m.evs + tool_over(known(m, id), id).push(
            EventModel::LiveText {
                source: Source::Hermes,
                session_id: id,
                reasoning: worth_telling(more_thoughts),
                text: worth_telling(more),
                tool_name: None,
            },
        ),
{
    let p = known(m, id);
    let n = m.message_read(id, row, None, preview);
    assert((text + more).take(text.len() as int) =~= text);
    assert((text + more).skip(text.len() as int) =~= more);
    assert((thoughts + more_thoughts).take(thoughts.len() as int) =~= thoughts);
    assert((thoughts + more_thoughts).skip(thoughts.len() as int) =~= more_thoughts);
    assert(text + more != text || thoughts + more_thoughts != thoughts) by {
        assert((text + more).len() + (thoughts + more_thoughts).len() > text.len() + thoughts.len());
    }
    assert(n.evs =~= m.evs + tool_over(p, id).push(n.evs.last()));
}

/// A question is told once, when it is first asked, and is open from then on.
pub proof fn law_question_is_told(
    m: PollModel,
    id: Seq<char>,
    row: MessageModel,
    q: (Seq<char>, Seq<char>),
    preview: Option<Seq<char>>,
)
    requires
        is_news(known(m, id), row),
        known(m, id).pending_question is None,
    ensures
        ({
            let n = m.message_read(id, row, Some(q), preview);
            &&& n.prev[id].pending_question == Some(q)
            &&& n.evs.len() > m.evs.len()
            &&& n.evs[m.evs.len() as int] == (EventModel::QuestionRequested {
                source: Source::Hermes,
                id: q.0,
                session_id: id,
                text: q.1,
            })
        }),
{
}

/// The open question is resolved by its answer and by any message that does not
/// ask it; a message that asks it again leaves it open and tells nothing of it.
pub proof fn law_question_is_resolved(
    m: PollModel,
    id: Seq<char>,
    row: MessageModel,
    q: (Seq<char>, Seq<char>),
    clarify: Option<(Seq<char>, Seq<char>)>,
    preview: Option<Seq<char>>,
)
    requires
        is_news(known(m, id), row),
        known(m, id).pending_question == Some(q),
    ensures
        ({
            let n = m.message_read(id, row, clarify, preview);
            let answered = row.role == "tool"@ && row.tool_call_id == Some(q.0);
            let asked = clarify is Some && (clarify->0).0 == q.0;
            let resolved = EventModel::QuestionResolved { source: Source::Hermes, id: q.0 };
            &&& answered || !asked ==> n.evs.len() > m.evs.len() && n.evs[m.evs.len() as int] == resolved
                && n.prev[id].pending_question == clarify
            &&& !answered && asked ==> n.prev[id].pending_question == Some(q) && forall|i: int|
                m.evs.len() <= i < n.evs.len() ==> !((#[trigger] n.evs[i]) is QuestionResolved)
                    && !(n.evs[i] is QuestionRequested)
        }),
{
}

/// A session runs where it has no end and was active less than ten minutes ago.
pub open spec fn is_running(now_ms: u64, row: SessionRowModel) -> bool {
    &&& row.ended_at is None
    &&& row.last_active matches Some(t) && t >= 0 && now_ms - t * 1000 < 600_000
}

/// A session is reported with its title and whether it runs; a new turn is told
/// where it started to run, and nothing where nothing changed.
pub proof fn law_session_start_is_told(m: PollModel, now_ms: u64, row: SessionRowModel)
    requires
        known(m, row.id).turn < u64::MAX,
        row.last_active matches Some(t) ==> 0 <= t <= 0xffff_ffff_ffff,
    ensures
        ({
            let p = known(m, row.id);
            let n = m.session_read(now_ms, row);
            let q = n.prev[row.id];
            let running = is_running(now_ms, row);
            &&& n.items == m.items.push(
                ItemModel { session_id: row.id, running, title: row.title, todos: None },
            )
            &&& n.any_running == (m.any_running || running)
            &&& n.prev.remove(row.id) =~= m.prev.remove(row.id)
            &&& q.running == running && q.title == row.title
            &&& q.last_msg_id == p.last_msg_id && q.last_content == p.last_content && q.last_reasoning
                == p.last_reasoning
            &&& running && !p.running ==> n.evs == m.evs.push(
                EventModel::TurnStarted { source: Source::Hermes, session_id: row.id, turn: (p.turn + 1) as u64 },
            ) && q.turn == p.turn + 1 && q.pending_tool is None && q.pending_question == p.pending_question
            &&& running == p.running ==> n.evs == m.evs && q.turn == p.turn && q.pending_tool == p.pending_tool
                && q.pending_question == p.pending_question
        }),
{
    let p = known(m, row.id);
    let n = m.session_read(now_ms, row);
    if is_running(now_ms, row) && !p.running {
        assert(n.evs =~= m.evs.push(
            EventModel::TurnStarted { source: Source::Hermes, session_id: row.id, turn: (p.turn + 1) as u64 },
        ));
    } else if is_running(now_ms, row) == p.running {
        assert(n.evs =~= m.evs);
    }
}

/// Everything that ends with a session: its tool, its question and its turn, and
/// then that it stopped.
pub open spec fn ends_of(p: PrevModel, id: Seq<char>, reason: TurnEndReason) -> Seq<EventModel> {
    let turn_over = seq![
        EventModel::TurnEnded { source: Source::Hermes, session_id: id, turn: p.turn, reason },
        EventModel::SessionStatus { source: Source::Hermes, session_id: id, running: false },
    ];
    if p.pending_question is Some {
        tool_over(p, id).push(
            EventModel::QuestionResolved { source: Source::Hermes, id: (p.pending_question->0).0 },
        ) + turn_over
    } else {
        tool_over(p, id) + turn_over
    }
}

proof fn lemma_ends(p: PrevModel, id: Seq<char>, reason: TurnEndReason)
    ensures
        crate::connectors::hermes::closing(id, p, reason) == ends_of(p, id, reason),
{
    assert(crate::connectors::hermes::closing(id, p, reason) =~= ends_of(p, id, reason));
}

/// A session that stopped is closed, as completed, failed or aborted by the
/// reason that it gives.
pub proof fn law_session_end_is_told(m: PollModel, now_ms: u64, row: SessionRowModel)
    requires
        row.last_active matches Some(t) ==> 0 <= t <= 0xffff_ffff_ffff,
        !is_running(now_ms, row),
        known(m, row.id).running,
    ensures
        ({
            let p = known(m, row.id);
            let n = m.session_read(now_ms, row);
            let why = row.end_reason;
            let reason = if why == Some("complete"@) || why == Some("completed"@) {
                TurnEndReason::Completed
            } else if why == Some("error"@) || why == Some("failed"@) {
                TurnEndReason::Error
            } else {
                TurnEndReason::Aborted
            };
            &&& n.evs == m.evs + ends_of(p, row.id, reason)
            &&& !n.prev[row.id].running
            &&& n.prev[row.id].turn == p.turn
            &&& n.prev[row.id].pending_tool is None
            &&& n.prev[row.id].pending_question is None
        }),
{
    lemma_ends(known(m, row.id), row.id, crate::connectors::hermes::end_reason_of(row.end_reason));
}

/// The poll read a session of this id.
pub open spec fn was_read(m: PollModel, id: Seq<char>) -> bool {
    exists|i: int| 0 <= i < m.items.len() && (#[trigger] m.items[i]).session_id == id
}

proof fn lemma_none_gone(m: PollModel, ks: Seq<Seq<char>>)
    requires
        forall|i: int| 0 <= i < ks.len() ==> was_read(m, #[trigger] ks[i]) || !m.prev[ks[i]].running,
    ensures
        gone_events(m, ks) == Seq::<EventModel>::empty(),
    decreases ks.len(),
{
    if ks.len() > 0 {
        let t = ks.drop_last();
        assert forall|i: int| 0 <= i < t.len() implies was_read(m, #[trigger] t[i]) || !m.prev[t[i]].running by {
            assert(t[i] == ks[i]);
        }
        lemma_none_gone(m, t);
        assert(ks.last() == ks[ks.len() - 1]);
        assert(was_read(m, ks.last()) == m.has_read(ks.last()));
    }
}

proof fn lemma_one_gone(m: PollModel, ks: Seq<Seq<char>>, k: int)
    requires
        0 <= k < ks.len(),
        !was_read(m, ks[k]),
        m.prev[ks[k]].running,
        forall|i: int| 0 <= i < ks.len() && i != k ==> was_read(m, #[trigger] ks[i]) || !m.prev[ks[i]].running,
    ensures
        gone_events(m, ks) == ends_of(m.prev[ks[k]], ks[k], TurnEndReason::Aborted),
    decreases ks.len(),
{
    let t = ks.drop_last();
    assert(ks.last() == ks[ks.len() - 1]);
    assert(was_read(m, ks.last()) == m.has_read(ks.last()));
    assert forall|i: int| 0 <= i < t.len() && i != k implies was_read(m, #[trigger] t[i]) || !m.prev[t[i]].running by {
        assert(t[i] == ks[i]);
    }
    if k == ks.len() - 1 {
        lemma_none_gone(m, t);
        lemma_ends(m.prev[ks[k]], ks[k], TurnEndReason::Aborted);
        assert(gone_events(m, ks) =~= ends_of(m.prev[ks[k]], ks[k], TurnEndReason::Aborted));
    } else {
        assert(t[k] == ks[k]);
        lemma_one_gone(m, t, k);
    }
}

/// A poll ends with a report of the sessions that it read, which are the ones
/// remembered. Before it the session that was running and vanished is closed as
/// aborted; where none vanished, nothing is told before it.
pub proof fn law_poll_reports(m: PollModel, id: Seq<char>)
    requires
        m.prev.dom().finite(),
    ensures
        ({
            let n = m.ended();
            let report = EventModel::Poll { source: Source::Hermes, items: m.items, ok: true, error: None };
            let gone = |k: Seq<char>| m.prev.contains_key(k) && m.prev[k].running && !was_read(m, k);
            &&& n.evs.len() > 0 && n.evs.last() == report
            &&& n.prev.contains_key(id) <==> m.prev.contains_key(id) && was_read(m, id)
            &&& n.prev.contains_key(id) ==> n.prev[id] == m.prev[id]
            &&& (forall|k: Seq<char>| !#[trigger] gone(k)) ==> n.evs == m.evs.push(report)
            &&& gone(id) && (forall|k: Seq<char>| #[trigger] gone(k) ==> k == id) ==> n.evs == (m.evs + ends_of(
                m.prev[id],
                id,
                TurnEndReason::Aborted,
            )).push(report)
        }),
{
    let n = m.ended();
    let report = EventModel::Poll { source: Source::Hermes, items: m.items, ok: true, error: None };
    let gone = |k: Seq<char>| m.prev.contains_key(k) && m.prev[k].running && !was_read(m, k);
    let ks = ordered::<String>(m.prev.dom());
    lemma_ordered_exists::<String>(m.prev.dom());
    assert(was_read(m, id) == m.has_read(id));
    assert forall|i: int| 0 <= i < ks.len() implies m.prev.contains_key(#[trigger] ks[i]) by {
        assert(ks.contains(ks[i]));
    }
    if forall|k: Seq<char>| !#[trigger] gone(k) {
        assert forall|i: int| 0 <= i < ks.len() implies was_read(m, #[trigger] ks[i]) || !m.prev[ks[i]].running by {
            assert(!gone(ks[i]));
        }
        lemma_none_gone(m, ks);
        assert(n.evs =~= m.evs.push(report));
    }
    if gone(id) && (forall|k: Seq<char>| #[trigger] gone(k) ==> k == id) {
        assert(ks.contains(id));
        let k = choose|k: int| 0 <= k < ks.len() && ks[k] == id;
        assert forall|i: int| 0 <= i < ks.len() && i != k implies was_read(m, #[trigger] ks[i])
            || !m.prev[ks[i]].running by {
            if gone(ks[i]) {
                assert(ks[i] == ks[k]);
                if i < k {
                    assert(crate::ordmap::text_lt(ks[i], ks[k]));
                } else {
                    assert(crate::ordmap::text_lt(ks[k], ks[i]));
                }
                <String as crate::ordmap::Key>::lt_irreflexive(id);
            }
        }
        lemma_one_gone(m, ks, k);
    }
}

/// The preview of a result is the first 160 characters of its output, where it is
/// JSON that has one, or else of the result itself; an empty one is none.
pub proof fn law_preview(content: Seq<char>, parsed: Option<JsonModel>)
    ensures
        ({
            let out = if parsed is Some && parsed->0.at("output"@) is Str {
                parsed->0.at("output"@)->Str_0
            } else {
                content
            };
            &&& preview_in(content, parsed) is None <==> out.len() == 0
            &&& preview_in(content, parsed) matches Some(s) ==> s.len() <= 160 && s == out.take(s.len() as int) && (
            out.len() <= 160 ==> s == out) && (out.len() > 160 ==> s.len() == 160)
        }),
{
    let out = if parsed is Some && parsed->0.at("output"@) is Str {
        parsed->0.at("output"@)->Str_0
    } else {
        content
    };
    assert(out.take(out.len() as int) =~= out);
}

proof fn lemma_first_clarify(v: Seq<JsonModel>, i: int)
    requires
        0 <= i < v.len(),
        asks(v[i]),
        forall|j: int| 0 <= j < i ==> !asks(#[trigger] v[j]),
    ensures
        first_clarify(v) == Some(
            (v[i].at("id"@).str_or_empty(), question_in(crate::connectors::hermes::call_args(v[i]))),
        ),
    decreases v.len(),
{
    if i > 0 {
        assert(!asks(v[0]));
        let t = v.drop_first();
        assert(t[i - 1] == v[i]);
        assert forall|j: int| 0 <= j < i - 1 implies !asks(#[trigger] t[j]) by {
            assert(t[j] == v[j + 1]);
        }
        lemma_first_clarify(t, i - 1);
    }
}

proof fn lemma_no_clarify(v: Seq<JsonModel>)
    requires
        forall|j: int| 0 <= j < v.len() ==> !asks(#[trigger] v[j]),
    ensures
        first_clarify(v) is None,
    decreases v.len(),
{
    if v.len() > 0 {
        assert(!asks(v[0]));
        let t = v.drop_first();
        assert forall|j: int| 0 <= j < t.len() implies !asks(#[trigger] t[j]) by {
            assert(t[j] == v[j + 1]);
        }
        lemma_no_clarify(t);
    }
}

/// A call of the tool that asks the user, with an id.
pub open spec fn is_question(call: JsonModel) -> bool {
    &&& call.at("function"@).at("name"@) == JsonModel::Str("clarify"@)
    &&& call.at("id"@) matches JsonModel::Str(s) && s.len() > 0
}

/// A message asks what its first call of the asking tool asks, under the id of
/// that call, and asks nothing where it did not stop for tools or calls no such
/// tool.
pub proof fn law_message_asks(tool_calls: Seq<char>, finish: Seq<char>, calls: Seq<JsonModel>, i: int)
    requires
        json_in_text(tool_calls) == Some(JsonModel::Arr(calls)),
    ensures
        !has_text(finish, "tool_calls"@) ==> clarify_of(Some(tool_calls), Some(finish)) is None,
        clarify_of(None, Some(finish)) is None,
        clarify_of(Some(tool_calls), None) is None,
        (forall|j: int| 0 <= j < calls.len() ==> !is_question(#[trigger] calls[j])) ==> clarify_of(
            Some(tool_calls),
            Some(finish),
        ) is None,
        has_text(finish, "tool_calls"@) && 0 <= i < calls.len() && is_question(calls[i]) && (forall|j: int|
            0 <= j < i ==> !is_question(#[trigger] calls[j])) ==> clarify_of(Some(tool_calls), Some(finish)) == Some(
            (
                calls[i].at("id"@)->Str_0,
                question_in(
                    match json_in_text(calls[i].at("function"@).at("arguments"@).str_or_empty()) {
                        Some(v) => v,
                        None => JsonModel::Null,
                    },
                ),
            ),
        ),
{
    assert forall|j: int| 0 <= j < calls.len() implies is_question(#[trigger] calls[j]) == asks(calls[j]) by {}
    if forall|j: int| 0 <= j < calls.len() ==> !is_question(#[trigger] calls[j]) {
        assert forall|j: int| 0 <= j < calls.len() implies !asks(#[trigger] calls[j]) by {
            assert(!is_question(calls[j]));
        }
        lemma_no_clarify(calls);
    }
    if 0 <= i < calls.len() && is_question(calls[i]) && (forall|j: int| 0 <= j < i ==> !is_question(#[trigger] calls[j])) {
        assert forall|j: int| 0 <= j < i implies !asks(#[trigger] calls[j]) by {
            assert(!is_question(calls[j]));
        }
        lemma_first_clarify(calls, i);
    }
}

/// The choices of a question are its texts, in order, with slashes between them.
pub proof fn law_choices_are_joined(v: Seq<JsonModel>, s: Seq<char>, x: JsonModel)
    ensures
        choices_in(Seq::empty()) == Seq::<char>::empty(),
        !(x is Str) ==> choices_in(v.push(x)) == choices_in(v),
        (exists|i: int| 0 <= i < v.len() && (#[trigger] v[i]) is Str) ==> choices_in(v.push(JsonModel::Str(s)))
            == choices_in(v) + " / "@ + s,
        (forall|i: int| 0 <= i < v.len() ==> !((#[trigger] v[i]) is Str)) ==> choices_in(v.push(JsonModel::Str(s))) == s,
{
    assert(v.push(x).drop_last() =~= v);
    assert(v.push(JsonModel::Str(s)).drop_last() =~= v);
    if exists|i: int| 0 <= i < v.len() && (#[trigger] v[i]) is Str {
        let i = choose|i: int| 0 <= i < v.len() && (#[trigger] v[i]) is Str;
        assert(v[i].as_str() is Some);
        assert(has_choice(v));
    }
}

/// A question is worded as it stands, with its choices in brackets behind it;
/// choices alone stand for themselves, and one without any words says that it
/// waits.
pub proof fn law_question_wording(args: JsonModel)
    ensures
        ({
            let q = args.at("question"@).str_or_empty();
            let v = args.at("choices"@).elements();
            let some = exists|i: int| 0 <= i < v.len() && (#[trigger] v[i]) is Str;
            let c = choices_in(v);
            &&& !some && trimmed(q).len() > 0 ==> question_in(args) == q
            &&& !some && trimmed(q).len() == 0 ==> question_in(args) == "等待你确认…"@
            &&& some && q.len() > 0 && trimmed((q + "（"@ + c).push('）')).len() > 0 ==> question_in(args) == (q + "（"@
                + c).push('）')
            &&& some && q.len() == 0 && trimmed(c).len() > 0 ==> question_in(args) == c
        }),
{
    let v = args.at("choices"@).elements();
    if exists|i: int| 0 <= i < v.len() && (#[trigger] v[i]) is Str {
        let i = choose|i: int| 0 <= i < v.len() && (#[trigger] v[i]) is Str;
        assert(v[i].as_str() is Some);
    }
    if has_choice(v) {
        let i = choose|i: int| 0 <= i < v.len() && (#[trigger] v[i]).as_str() is Some;
        assert(v[i] is Str);
    }
}

/// A poll starts with nothing to tell and nothing to report, and remembers the
/// sessions of the last one.
pub proof fn law_poll_starts_empty(m: PollModel)
    ensures
        m.begun().evs.len() == 0,
        m.begun().items.len() == 0,
        !m.begun().any_running,
        m.begun().prev == m.prev,
{
}

} // verus!
