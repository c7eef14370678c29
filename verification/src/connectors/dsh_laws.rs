//! What the histories, lists and streams of the default source come to.

use vstd::prelude::*;
use vstd::string::*;

use crate::connectors::dsh::{
    call_index, gather, gather_start, highest_seq, history_answer, history_result, items_in, job_events, jobs_after,
    listed_items, message_of, mux_ctx, mux_events, host_events, seq_in, text_blocks, todos_in, FetchFault,
    GatheredModel, HistoryModel,
};
use crate::event::{EventModel, ItemModel, Source, TodoModel, TurnEndReason};
use crate::json::JsonModel;

verus! {

/// The names of events differ.
proof fn lemma_kinds()
    ensures
        "turn/start"@.len() == 10 && "turn/start"@[1] == 'u',
        "turn/end"@.len() == 8 && "turn/end"@[0] == 't',
        "tool/call"@.len() == 9,
        "tool/result"@.len() == 11,
        "todo/write"@.len() == 10 && "todo/write"@[1] == 'o',
        "assistant/chunk"@.len() == 15 && "assistant/chunk"@[0] == 'a',
        "user/message"@.len() == 12,
        "assistant/message"@.len() == 17,
        "step/end"@.len() == 8 && "step/end"@[0] == 's',
        "reasoning-delta"@.len() == 15 && "reasoning-delta"@[0] == 'r',
        "text-delta"@.len() == 10 && "text-delta"@[0] == 't' && "text-delta"@[1] == 'e',
{
    reveal_strlit("turn/start");
    reveal_strlit("turn/end");
    reveal_strlit("tool/call");
    reveal_strlit("tool/result");
    reveal_strlit("todo/write");
    reveal_strlit("assistant/chunk");
    reveal_strlit("user/message");
    reveal_strlit("assistant/message");
    reveal_strlit("step/end");
    reveal_strlit("reasoning-delta");
    reveal_strlit("text-delta");
}

/// The kind of a history event.
pub open spec fn kind_of(ev: JsonModel) -> Seq<char> {
    ev.at("type"@).str_or_empty()
}

/// The piece of streamed text that a history event carries: of the answer, or of
/// the reasoning before it.
pub open spec fn piece(ev: JsonModel, delta: Seq<char>) -> Seq<char> {
    let chunk = ev.at("data"@).at("chunk"@);
    if kind_of(ev) == "assistant/chunk"@ && chunk.at("type"@).str_or_empty() == delta {
        chunk.at("text"@).str_or_empty()
    } else {
        Seq::empty()
    }
}

/// The pieces of all entries beyond `last`, joined.
pub open spec fn streamed(entries: Seq<JsonModel>, last: u64, delta: Seq<char>) -> Seq<char>
    decreases entries.len(),
{
    if entries.len() == 0 {
        Seq::empty()
    } else {
        let e = entries.last();
        let before = streamed(entries.drop_last(), last, delta);
        match e.at("event"@).at("seq"@).as_u64() {
            Some(n) => if n > last {
                before + piece(e.at("event"@), delta)
            } else {
                before
            },
            None => before,
        }
    }
}

/// The text, or the reasoning, that one event tells.
pub open spec fn told_by(ev: EventModel, reasoning: bool) -> Seq<char> {
    match ev {
        EventModel::LiveText { reasoning: r, text: t, .. } => {
            let o = if reasoning {
                r
            } else {
                t
            };
            match o {
                Some(s) => s,
                None => Seq::empty(),
            }
        },
        _ => Seq::empty(),
    }
}

/// The text, or the reasoning, that events tell, joined.
pub open spec fn told_text(evs: Seq<EventModel>, reasoning: bool) -> Seq<char>
    decreases evs.len(),
{
    if evs.len() == 0 {
        Seq::empty()
    } else {
        told_text(evs.drop_last(), reasoning) + told_by(evs.last(), reasoning)
    }
}

proof fn lemma_told_push(evs: Seq<EventModel>, ev: EventModel, reasoning: bool)
    ensures
        told_text(evs.push(ev), reasoning) == told_text(evs, reasoning) + told_by(ev, reasoning),
{
    assert(evs.push(ev).drop_last() =~= evs);
}

/// What has been told so far, and what is still held back.
pub open spec fn heard(g: GatheredModel, reasoning: bool) -> Seq<char> {
    told_text(g.evs, reasoning) + if reasoning {
        g.reasoning
    } else {
        g.text
    }
}

proof fn lemma_flush_tells(g: GatheredModel, sid: Seq<char>, reasoning: bool)
    ensures
        heard(g.flush(sid), reasoning) == heard(g, reasoning),
        g.flush(sid).text.len() == 0,
        g.flush(sid).reasoning.len() == 0,
{
    if g.reasoning.len() > 0 || g.text.len() > 0 {
        lemma_told_push(g.evs, g.flush(sid).evs.last(), reasoning);
        assert(g.flush(sid).evs.drop_last() =~= g.evs);
    }
    assert(heard(g.flush(sid), reasoning) =~= heard(g, reasoning));
}

proof fn lemma_delta_tells(g: GatheredModel, sid: Seq<char>, ev: JsonModel, reasoning: bool)
    ensures
        heard(g.delta(sid, ev), reasoning) == heard(g, reasoning) + piece(
            ev,
            if reasoning {
                "reasoning-delta"@
            } else {
                "text-delta"@
            },
        ),
{
    lemma_kinds();
    let data = ev.at("data"@);
    let t = kind_of(ev);
    let n = g.delta(sid, ev);
    if t == "assistant/chunk"@ {
        assert(heard(n, reasoning) =~= heard(g, reasoning) + piece(
            ev,
            if reasoning {
                "reasoning-delta"@
            } else {
                "text-delta"@
            },
        ));
    } else if t == "assistant/message"@ || t == "step/end"@ {
        lemma_flush_tells(g, sid, reasoning);
        assert(heard(n, reasoning) =~= heard(g, reasoning) + Seq::<char>::empty());
    } else if t == "turn/end"@ || t == "tool/call"@ || t == "user/message"@ {
        let m = if t == "turn/end"@ {
            g.emit(
                EventModel::TurnEnded {
                    source: Source::Dsh,
                    session_id: sid,
                    turn: match data.at("turn"@).as_u64() {
                        Some(n) => n,
                        None => 0,
                    },
                    reason: match TurnEndReason::of_kind(data.at("reason"@).at("kind"@).str_or_empty()) {
                        Some(r) => r,
                        None => TurnEndReason::Aborted,
                    },
                },
            )
        } else if t == "tool/call"@ {
            g.call(sid, data)
        } else {
            g.user(sid, data)
        };
        lemma_flush_tells(m, sid, reasoning);
        if m.evs.len() > g.evs.len() {
            lemma_told_push(g.evs, m.evs.last(), reasoning);
            assert(m.evs.drop_last() =~= g.evs);
        }
        assert(n == m.flush(sid));
        assert(heard(n, reasoning) =~= heard(g, reasoning) + Seq::<char>::empty());
    } else {
        if n.evs.len() > g.evs.len() {
            lemma_told_push(g.evs, n.evs.last(), reasoning);
            assert(n.evs.drop_last() =~= g.evs);
        }
        assert(heard(n, reasoning) =~= heard(g, reasoning) + Seq::<char>::empty());
    }
}

proof fn lemma_stream(start: GatheredModel, sid: Seq<char>, entries: Seq<JsonModel>, last: u64, reasoning: bool)
    requires
        start.evs.len() == 0,
        start.text.len() == 0,
        start.reasoning.len() == 0,
    ensures
        heard(gather(start, sid, entries, last, false), reasoning) == streamed(
            entries,
            last,
            if reasoning {
                "reasoning-delta"@
            } else {
                "text-delta"@
            },
        ),
    decreases entries.len(),
{
    if entries.len() == 0 {
        assert(heard(start, reasoning) =~= Seq::<char>::empty());
    } else {
        lemma_stream(start, sid, entries.drop_last(), last, reasoning);
        lemma_delta_tells(
            gather(start, sid, entries.drop_last(), last, false),
            sid,
            entries.last().at("event"@),
            reasoning,
        );
    }
}

/// Nothing that streams in is lost, told twice or told out of order: what the
/// events of a later look tell, joined, is what its new chunks hold, joined, for
/// the answer and for the reasoning alike.
pub proof fn law_stream_is_told(h: HistoryModel, sid: Seq<char>, entries: Seq<JsonModel>)
    requires
        h.last_seq.contains_key(sid),
    ensures
        told_text(history_result(h, sid, entries).evs, false) == streamed(entries, h.last_seq[sid], "text-delta"@),
        told_text(history_result(h, sid, entries).evs, true) == streamed(entries, h.last_seq[sid], "reasoning-delta"@),
{
    let last = h.last_seq[sid];
    let g = gather(gather_start(h, sid), sid, entries, last, false);
    lemma_stream(gather_start(h, sid), sid, entries, last, false);
    lemma_stream(gather_start(h, sid), sid, entries, last, true);
    lemma_flush_tells(g, sid, false);
    lemma_flush_tells(g, sid, true);
    let f = g.flush(sid);
    assert(heard(f, false) =~= told_text(f.evs, false));
    assert(heard(f, true) =~= told_text(f.evs, true));
}

/// The text that is held back comes out as one event, each part only where there
/// is some, and no event comes out where there is none.
pub open spec fn held_back(g: GatheredModel, sid: Seq<char>) -> Seq<EventModel> {
    if g.text.len() == 0 && g.reasoning.len() == 0 {
        Seq::empty()
    } else {
        seq![
            EventModel::LiveText {
                source: Source::Dsh,
                session_id: sid,
                reasoning: if g.reasoning.len() > 0 { Some(g.reasoning) } else { None },
                text: if g.text.len() > 0 { Some(g.text) } else { None },
                tool_name: None,
            },
        ]
    }
}

proof fn lemma_flushed(g: GatheredModel, sid: Seq<char>)
    ensures
        g.flush(sid).evs == g.evs + held_back(g, sid),
        g.flush(sid).calls == g.calls,
        g.flush(sid).open_turn == g.open_turn,
        g.flush(sid).listed == g.listed,
{
    assert(g.flush(sid).evs =~= g.evs + held_back(g, sid));
}

/// In a later look the start and the end of a turn are told with the number of
/// the turn and the reason, where it is known; the text before an end follows it.
pub proof fn law_turns_are_told(g: GatheredModel, sid: Seq<char>, ev: JsonModel)
    ensures
        ({
            let n = g.delta(sid, ev);
            let turn = match ev.at("data"@).at("turn"@).as_u64() {
                Some(t) => t,
                None => 0,
            };
            let why = ev.at("data"@).at("reason"@).at("kind"@).str_or_empty();
            let reason = if why == "completed"@ {
                TurnEndReason::Completed
            } else if why == "error"@ {
                TurnEndReason::Error
            } else if why == "max-tokens"@ {
                TurnEndReason::MaxTokens
            } else if why == "interrupted"@ {
                TurnEndReason::Interrupted
            } else if why == "blocked"@ {
                TurnEndReason::Blocked
            } else {
                TurnEndReason::Aborted
            };
            &&& kind_of(ev) == "turn/start"@ ==> n.evs == g.evs.push(
                EventModel::TurnStarted { source: Source::Dsh, session_id: sid, turn },
            ) && n.calls == g.calls && n.text == g.text && n.reasoning == g.reasoning
            &&& kind_of(ev) == "turn/end"@ ==> n.evs == g.evs.push(
                EventModel::TurnEnded { source: Source::Dsh, session_id: sid, turn, reason },
            ) + held_back(g, sid) && n.calls == g.calls
        }),
{
    lemma_kinds();
    reveal_strlit("completed");
    reveal_strlit("error");
    reveal_strlit("max-tokens");
    reveal_strlit("interrupted");
    reveal_strlit("blocked");
    reveal_strlit("aborted");
    assert("aborted"@[0] != "blocked"@[0] && "aborted"@[0] != "interrupted"@[0]);
    let n = g.delta(sid, ev);
    if kind_of(ev) == "turn/end"@ {
        let why = ev.at("data"@).at("reason"@).at("kind"@).str_or_empty();
        let e = EventModel::TurnEnded {
            source: Source::Dsh,
            session_id: sid,
            turn: match ev.at("data"@).at("turn"@).as_u64() {
                Some(t) => t,
                None => 0,
            },
            reason: match TurnEndReason::of_kind(why) {
                Some(r) => r,
                None => TurnEndReason::Aborted,
            },
        };
        lemma_flushed(g.emit(e), sid);
        assert(n == g.emit(e).flush(sid));
        assert(held_back(g.emit(e), sid) == held_back(g, sid));
    }
}

/// In a later look a call of a tool is told with its name and its arguments, and
/// is open from then on; its result is told with the name of the first open call
/// of that id, which is open no more, and as a failure where it has an error.
pub proof fn law_tools_are_told(g: GatheredModel, sid: Seq<char>, ev: JsonModel, i: int)
    ensures
        ({
            let n = g.delta(sid, ev);
            let data = ev.at("data"@);
            let name = match data.at("name"@).as_str() {
                Some(s) => s,
                None => "tool"@,
            };
            let id = data.at("message"@).at("source"@).at("callId"@).str_or_empty();
            let error = data.field("error"@) is Some;
            &&& kind_of(ev) == "tool/call"@ ==> {
                &&& n.evs == g.evs.push(
                    EventModel::ToolStarted {
                        source: Source::Dsh,
                        session_id: sid,
                        name,
                        arguments: data.at("arguments"@).as_str(),
                    },
                ) + held_back(g, sid)
                &&& n.calls == g.calls.push((data.at("callId"@).str_or_empty(), name))
                &&& n.listed
            }
            &&& kind_of(ev) == "tool/result"@ && 0 <= i < g.calls.len() && g.calls[i].0 == id && (forall|j: int|
                0 <= j < i ==> (#[trigger] g.calls[j]).0 != id) ==> {
                &&& n.evs == g.evs.push(
                    EventModel::ToolEnded { source: Source::Dsh, session_id: sid, name: g.calls[i].1, error },
                )
                &&& n.calls == g.calls.remove(i)
            }
            &&& kind_of(ev) == "tool/result"@ && (forall|j: int|
                0 <= j < g.calls.len() ==> (#[trigger] g.calls[j]).0 != id) ==> {
                &&& n.evs == g.evs.push(
                    EventModel::ToolEnded { source: Source::Dsh, session_id: sid, name: "tool"@, error },
                )
                &&& n.calls == g.calls
            }
        }),
{
    lemma_kinds();
    let data = ev.at("data"@);
    let id = data.at("message"@).at("source"@).at("callId"@).str_or_empty();
    lemma_flushed(g.call(sid, data), sid);
    lemma_call_index(g.calls, id);
    let f = call_index(g.calls, id);
    if 0 <= i < g.calls.len() && g.calls[i].0 == id && (forall|j: int|
        0 <= j < i ==> (#[trigger] g.calls[j]).0 != id) {
        assert(f is Some);
        if f->0 < i {
            assert(g.calls[f->0].0 != id);
        }
        if i < f->0 {
            assert(g.calls[i].0 != id);
        }
    }
}

proof fn lemma_call_index(calls: Seq<(Seq<char>, Seq<char>)>, id: Seq<char>)
    ensures
        call_index(calls, id) matches Some(i) ==> 0 <= i < calls.len() && calls[i].0 == id && (forall|j: int|
            0 <= j < i ==> (#[trigger] calls[j]).0 != id),
        call_index(calls, id) is None ==> forall|j: int| 0 <= j < calls.len() ==> (#[trigger] calls[j]).0 != id,
    decreases calls.len(),
{
    if calls.len() > 0 {
        let t = calls.drop_last();
        lemma_call_index(t, id);
        assert forall|j: int| 0 <= j < t.len() && (call_index(t, id) is None || j < call_index(t, id)->0) implies (
        #[trigger] calls[j]).0 != id by {
            assert(t[j] == calls[j]);
        }
        if call_index(t, id) is Some {
            assert(t[call_index(t, id)->0] == calls[call_index(t, id)->0]);
        }
    }
}

/// In a later look a task list and a message of the user are told as they are,
/// an empty message is not told, and a step or a message of the model that is
/// over lets out the text that is held back.
pub proof fn law_messages_are_told(g: GatheredModel, sid: Seq<char>, ev: JsonModel)
    ensures
        ({
            let n = g.delta(sid, ev);
            let data = ev.at("data"@);
            let said = message_of(data);
            &&& kind_of(ev) == "todo/write"@ ==> n.evs == g.evs.push(
                EventModel::TodoSnapshot {
                    source: Source::Dsh,
                    session_id: sid,
                    todos: todos_in(data.at("todos"@).elements()),
                },
            ) && n.text == g.text && n.reasoning == g.reasoning && n.calls == g.calls
            &&& kind_of(ev) == "user/message"@ && said.len() > 0 ==> n.evs == g.evs.push(
                EventModel::UserMessage { source: Source::Dsh, session_id: sid, text: said },
            ) + held_back(g, sid)
            &&& kind_of(ev) == "user/message"@ && said.len() == 0 ==> n.evs == g.evs + held_back(g, sid)
            &&& kind_of(ev) == "assistant/message"@ || kind_of(ev) == "step/end"@ ==> n.evs == g.evs + held_back(
                g,
                sid,
            )
            &&& kind_of(ev) == "assistant/chunk"@ ==> n.evs == g.evs
        }),
{
    lemma_kinds();
    lemma_flushed(g, sid);
    lemma_flushed(g.user(sid, ev.at("data"@)), sid);
}

/// The first look tells no text and no turn before its end; a tool that is
/// called in the open turn is told, and so is its result, but no other result.
pub proof fn law_first_look_tells(g: GatheredModel, sid: Seq<char>, ev: JsonModel, i: int)
    ensures
        ({
            let n = g.baseline(sid, ev);
            let data = ev.at("data"@);
            let turn = data.at("turn"@).as_u64();
            let open = if g.open_turn is Some || (turn is Some && g.ended.contains(turn->0)) {
                g.open_turn
            } else {
                turn
            };
            let name = match data.at("name"@).as_str() {
                Some(s) => s,
                None => "tool"@,
            };
            let id = data.at("message"@).at("source"@).at("callId"@).str_or_empty();
            let k = kind_of(ev);
            &&& n.text == g.text && n.reasoning == g.reasoning
            &&& k == "turn/start"@ ==> n.open_turn == turn && n.evs == g.evs && n.calls == g.calls
            &&& k == "turn/end"@ ==> n.open_turn == (if turn == g.open_turn { None } else { g.open_turn }) && n.evs
                == g.evs && n.calls == g.calls
            &&& k != "turn/start"@ && k != "turn/end"@ ==> n.open_turn == open
            &&& k == "tool/call"@ && (turn is None || turn == open) ==> n.evs == g.evs.push(
                EventModel::ToolStarted {
                    source: Source::Dsh,
                    session_id: sid,
                    name,
                    arguments: data.at("arguments"@).as_str(),
                },
            ) && n.calls == g.calls.push((data.at("callId"@).str_or_empty(), name)) && n.listed
            &&& k == "tool/call"@ && turn is Some && turn != open ==> n.evs == g.evs && n.calls == g.calls
            &&& k == "tool/result"@ && 0 <= i < g.calls.len() && g.calls[i].0 == id && (forall|j: int|
                0 <= j < i ==> (#[trigger] g.calls[j]).0 != id) ==> n.evs == g.evs.push(
                EventModel::ToolEnded {
                    source: Source::Dsh,
                    session_id: sid,
                    name: g.calls[i].1,
                    error: data.field("error"@) is Some,
                },
            ) && n.calls == g.calls.remove(i)
            &&& k == "tool/result"@ && (forall|j: int| 0 <= j < g.calls.len() ==> (#[trigger] g.calls[j]).0 != id)
                ==> n.evs == g.evs && n.calls == g.calls
            &&& k == "todo/write"@ ==> n.evs == g.evs.push(
                EventModel::TodoSnapshot {
                    source: Source::Dsh,
                    session_id: sid,
                    todos: todos_in(data.at("todos"@).elements()),
                },
            )
            &&& k == "user/message"@ && message_of(data).len() > 0 ==> n.evs == g.evs.push(
                EventModel::UserMessage { source: Source::Dsh, session_id: sid, text: message_of(data) },
            )
            &&& k == "user/message"@ && message_of(data).len() == 0 ==> n.evs == g.evs
            &&& k == "assistant/chunk"@ || k == "assistant/message"@ || k == "step/end"@ ==> n.evs == g.evs
        }),
{
    lemma_kinds();
    let data = ev.at("data"@);
    let id = data.at("message"@).at("source"@).at("callId"@).str_or_empty();
    lemma_call_index(g.calls, id);
    let f = call_index(g.calls, id);
    if 0 <= i < g.calls.len() && g.calls[i].0 == id && (forall|j: int|
        0 <= j < i ==> (#[trigger] g.calls[j]).0 != id) {
        assert(f is Some);
        if f->0 < i {
            assert(g.calls[f->0].0 != id);
        }
        if i < f->0 {
            assert(g.calls[i].0 != id);
        }
    }
}

/// Entries count one after the other, and those up to the last number that was
/// applied do not count.
pub proof fn law_entries_count_in_order(
    start: GatheredModel,
    sid: Seq<char>,
    a: Seq<JsonModel>,
    b: Seq<JsonModel>,
    last: u64,
    first_look: bool,
)
    ensures
        gather(start, sid, a + b, last, first_look) == gather(
            gather(start, sid, a, last, first_look),
            sid,
            b,
            last,
            first_look,
        ),
        b.len() == 1 ==> gather(start, sid, b, last, first_look) == match b[0].at("event"@).at("seq"@).as_u64() {
            Some(n) => if n <= last {
                start
            } else if first_look {
                start.baseline(sid, b[0].at("event"@))
            } else {
                start.delta(sid, b[0].at("event"@))
            },
            None => start,
        },
    decreases b.len(),
{
    if b.len() == 0 {
        assert(a + b =~= a);
    } else {
        law_entries_count_in_order(start, sid, a, b.drop_last(), last, first_look);
        assert((a + b).drop_last() =~= a + b.drop_last());
        assert((a + b).last() == b.last());
        if b.len() == 1 {
            assert(b.drop_last() =~= Seq::<JsonModel>::empty());
            assert(gather(start, sid, b.drop_last(), last, first_look) == start);
            assert(b.last() == b[0]);
        }
    }
}

/// A batch of entries ends with the open turn, in a first look, and with the text
/// that is held back, in a later one.
pub proof fn law_batch_ends(h: HistoryModel, sid: Seq<char>, entries: Seq<JsonModel>)
    ensures
        ({
            let first = !h.last_seq.contains_key(sid);
            let last = if first { 0 } else { h.last_seq[sid] };
            let start = GatheredModel {
                open_turn: None,
                ended: Seq::empty(),
                listed: h.open_calls.contains_key(sid),
                calls: if h.open_calls.contains_key(sid) { h.open_calls[sid] } else { Seq::empty() },
                reasoning: Seq::empty(),
                text: Seq::empty(),
                evs: Seq::empty(),
            };
            let g = gather(start, sid, entries, last, first);
            let r = history_result(h, sid, entries);
            &&& r.calls == g.calls
            &&& !first ==> r.evs == g.evs + held_back(g, sid)
            &&& first && g.open_turn is None ==> r.evs == g.evs
            &&& first && g.open_turn is Some ==> r.evs == g.evs.push(
                EventModel::TurnStarted { source: Source::Dsh, session_id: sid, turn: g.open_turn->0 },
            )
        }),
{
    let g = gather(gather_start(h, sid), sid, entries, h.seq_of(sid), !h.last_seq.contains_key(sid));
    lemma_flushed(g, sid);
}

/// The number that is remembered is the highest that was seen.
pub proof fn law_highest_number_is_kept(h: HistoryModel, sid: Seq<char>, entries: Seq<JsonModel>)
    ensures
        ({
            let n = history_answer(h, sid, Ok(entries)).1;
            let before = if h.last_seq.contains_key(sid) { h.last_seq[sid] } else { 0 };
            &&& n.last_seq.contains_key(sid)
            &&& n.last_seq[sid] >= before
            &&& forall|i: int|
                0 <= i < entries.len() ==> ((#[trigger] entries[i]).at("event"@).at("seq"@).as_u64() matches Some(k)
                    ==> k <= n.last_seq[sid])
            &&& n.last_seq[sid] == before || exists|i: int|
                0 <= i < entries.len() && (#[trigger] entries[i]).at("event"@).at("seq"@).as_u64() == Some(
                    n.last_seq[sid],
                )
            &&& n.last_seq.remove(sid) =~= h.last_seq.remove(sid)
            &&& n.open_calls.remove(sid) =~= h.open_calls.remove(sid)
            &&& n.recent == h.recent
        }),
{
    lemma_highest(entries, h.seq_of(sid));
}

proof fn lemma_highest(entries: Seq<JsonModel>, last: u64)
    ensures
        highest_seq(entries, last) >= last,
        forall|i: int|
            0 <= i < entries.len() ==> ((#[trigger] entries[i]).at("event"@).at("seq"@).as_u64() matches Some(k) ==> k
                <= highest_seq(entries, last)),
        highest_seq(entries, last) == last || exists|i: int|
            0 <= i < entries.len() && (#[trigger] entries[i]).at("event"@).at("seq"@).as_u64() == Some(
                highest_seq(entries, last),
            ),
    decreases entries.len(),
{
    if entries.len() > 0 {
        let t = entries.drop_last();
        lemma_highest(t, last);
        let h = highest_seq(t, last);
        assert(entries[entries.len() - 1] == entries.last());
        assert forall|i: int| 0 <= i < entries.len() implies ((#[trigger] entries[i]).at("event"@).at(
            "seq"@,
        ).as_u64() matches Some(k) ==> k <= highest_seq(entries, last)) by {
            if i < t.len() {
                assert(t[i] == entries[i]);
            }
        }
        if highest_seq(entries, last) == h && h != last {
            let i = choose|i: int|
                0 <= i < t.len() && (#[trigger] t[i]).at("event"@).at("seq"@).as_u64() == Some(h);
            assert(entries[i] == t[i]);
        }
    }
}

/// The tasks of a list are those of its parts, one after the other; an entry is a
/// task where it has a text, and pending where it says nothing else.
pub proof fn law_todos_of_a_list(a: Seq<JsonModel>, b: Seq<JsonModel>, x: JsonModel)
    ensures
        todos_in(a + b) == todos_in(a) + todos_in(b),
        x.at("content"@).as_str() is None ==> todos_in(seq![x]) == Seq::<TodoModel>::empty(),
        x.at("content"@).as_str() matches Some(c) ==> todos_in(seq![x]) == seq![
            TodoModel {
                content: c,
                status: match x.at("status"@).as_str() {
                    Some(s) => s,
                    None => "pending"@,
                },
            },
        ],
    decreases b.len(),
{
    assert(seq![x].drop_last() =~= Seq::<JsonModel>::empty());
    assert(todos_in(seq![x].drop_last()) =~= Seq::<TodoModel>::empty());
    if x.at("content"@).as_str() is Some {
        assert(todos_in(seq![x]).len() == 1);
        assert(todos_in(seq![x]) =~= seq![todos_in(seq![x])[0]]);
    }
    if b.len() == 0 {
        assert(a + b =~= a);
        assert(todos_in(a) + todos_in(b) =~= todos_in(a));
    } else {
        law_todos_of_a_list(a, b.drop_last(), x);
        assert((a + b).drop_last() =~= a + b.drop_last());
        assert((a + b).last() == b.last());
        assert(todos_in(a + b) =~= todos_in(a) + todos_in(b));
    }
}

/// The text of a message is that of its text blocks, one after the other, and of
/// no other blocks.
pub proof fn law_text_of_a_message(a: Seq<JsonModel>, b: Seq<JsonModel>, x: JsonModel, data: JsonModel)
    ensures
        text_blocks(a + b) == text_blocks(a) + text_blocks(b),
        text_blocks(seq![x]) == if x.at("type"@).as_str() == Some("text"@) {
            x.at("text"@).str_or_empty()
        } else {
            Seq::empty()
        },
        message_of(data) == text_blocks(data.at("message"@).at("content"@).elements()),
    decreases b.len(),
{
    assert(seq![x].drop_last() =~= Seq::<JsonModel>::empty());
    assert(text_blocks(seq![x].drop_last()) =~= Seq::<char>::empty());
    assert(text_blocks(seq![x]) =~= if x.at("type"@).as_str() == Some("text"@) {
        x.at("text"@).str_or_empty()
    } else {
        Seq::empty()
    });
    if b.len() == 0 {
        assert(a + b =~= a);
        assert(text_blocks(a) + text_blocks(b) =~= text_blocks(a));
    } else {
        law_text_of_a_message(a, b.drop_last(), x, data);
        assert((a + b).drop_last() =~= a + b.drop_last());
        assert((a + b).last() == b.last());
        assert(text_blocks(a + b) =~= text_blocks(a) + text_blocks(b));
    }
}

/// The sessions of a list are those of its parts, one after the other; an entry
/// with an id is a session that runs only where it says so, with its title and
/// its tasks where it has them, and one without an id is none.
pub proof fn law_sessions_of_a_list(a: Seq<JsonModel>, b: Seq<JsonModel>, x: JsonModel)
    ensures
        items_in(a + b) == items_in(a) + items_in(b),
        x.at("sessionId"@).str_or_empty().len() == 0 ==> items_in(seq![x]) == Seq::<ItemModel>::empty(),
        x.at("sessionId"@).str_or_empty().len() > 0 ==> items_in(seq![x]) == seq![
            ItemModel {
                session_id: x.at("sessionId"@).str_or_empty(),
                running: x.at("running"@) == JsonModel::Bool(true),
                title: x.at("projections"@).at("values"@).at("title"@).as_str(),
                todos: match x.at("projections"@).at("values"@).at("todos"@) {
                    JsonModel::Arr(v) => Some(todos_in(v)),
                    _ => None,
                },
            },
        ],
    decreases b.len(),
{
    assert(seq![x].drop_last() =~= Seq::<JsonModel>::empty());
    assert(items_in(seq![x].drop_last()) =~= Seq::<ItemModel>::empty());
    if x.at("sessionId"@).str_or_empty().len() > 0 {
        assert(items_in(seq![x]).len() == 1);
        assert(items_in(seq![x]) =~= seq![items_in(seq![x])[0]]);
    }
    if b.len() == 0 {
        assert(a + b =~= a);
        assert(items_in(a) + items_in(b) =~= items_in(a));
    } else {
        law_sessions_of_a_list(a, b.drop_last(), x);
        assert((a + b).drop_last() =~= a + b.drop_last());
        assert((a + b).last() == b.last());
        assert(items_in(a + b) =~= items_in(a) + items_in(b));
    }
}

/// A list is taken only from an answer that is marked as good; it stands under
/// the value of the result, or else in the result itself.
pub proof fn law_list_of_an_answer(answer: JsonModel)
    ensures
        ({
            let result = answer.at("result"@);
            let inner = result.at("value"@).field("items"@);
            &&& result.at("ok"@) != JsonModel::Bool(true) ==> listed_items(answer) is Err
            &&& result.at("ok"@) == JsonModel::Bool(true) ==> (inner matches Some(JsonModel::Arr(v)) ==> listed_items(
                answer,
            ) == Ok::<Seq<JsonModel>, FetchFault>(v))
            &&& result.at("ok"@) == JsonModel::Bool(true) && inner is None ==> (result.at(
                "items"@,
            ) matches JsonModel::Arr(v) ==> listed_items(answer) == Ok::<Seq<JsonModel>, FetchFault>(v))
        }),
{
}

/// The names of frames differ.
proof fn lemma_frames()
    ensures
        "session/jobs"@.len() == 12,
        "approval/requested"@.len() == 18 && "approval/requested"@[0] == 'a',
        "approval/resolved"@.len() == 17 && "approval/resolved"@[0] == 'a',
        "question/requested"@.len() == 18 && "question/requested"@[0] == 'q',
        "question/resolved"@.len() == 17 && "question/resolved"@[0] == 'q',
{
    reveal_strlit("session/jobs");
    reveal_strlit("approval/requested");
    reveal_strlit("approval/resolved");
    reveal_strlit("question/requested");
    reveal_strlit("question/resolved");
}

/// A frame that carries a payload of this kind.
pub open spec fn carries(v: JsonModel, kind: Seq<char>) -> bool {
    v.field("payload"@) is Some && v.field("payload"@)->0.at("type"@) == JsonModel::Str(kind)
}

/// Requests for approval and their answers are passed on with the id of the
/// request, the session and the tool.
pub proof fn law_approvals_are_told(ctx: Map<Seq<char>, (Seq<char>, Seq<char>)>, v: JsonModel)
    ensures
        ({
            let p = v.at("payload"@);
            let id = p.at("approvalId"@).str_or_empty();
            &&& carries(v, "approval/requested"@) ==> mux_events(ctx, v) == seq![
                EventModel::ApprovalRequested {
                    source: Source::Dsh,
                    id,
                    session_id: p.at("sessionId"@).str_or_empty(),
                    tool: p.at("toolName"@).str_or_empty(),
                },
            ] && mux_ctx(ctx, v) == ctx
            &&& carries(v, "approval/resolved"@) ==> mux_events(ctx, v) == seq![
                EventModel::ApprovalResolved { source: Source::Dsh, id },
            ] && mux_ctx(ctx, v) == ctx
        }),
{
    lemma_frames();
}

/// Every item of a question is passed on, in order, under the id of its request
/// and its own, so that the answer to the request, which is passed on under the
/// id of the request, resolves them all.
pub proof fn law_questions_are_told(ctx: Map<Seq<char>, (Seq<char>, Seq<char>)>, v: JsonModel, i: int)
    ensures
        ({
            let p = v.at("payload"@);
            let qs = p.at("questions"@).elements();
            let rpc = v.at("rpcId"@).str_or_empty();
            let item = qs[i].at("id"@).str_or_empty();
            let evs = mux_events(ctx, v);
            &&& carries(v, "question/requested"@) ==> evs.len() == qs.len() && mux_ctx(ctx, v) == ctx
            &&& carries(v, "question/requested"@) && 0 <= i < qs.len() ==> evs[i] == (EventModel::QuestionRequested {
                source: Source::Dsh,
                id: if rpc.len() > 0 { rpc.push('\0') + item } else { item },
                session_id: p.at("sessionId"@).str_or_empty(),
                text: qs[i].at("question"@).str_or_empty(),
            })
            &&& carries(v, "question/resolved"@) ==> evs == seq![
                EventModel::QuestionResolved { source: Source::Dsh, id: p.at("questionRpcId"@).str_or_empty() },
            ] && mux_ctx(ctx, v) == ctx
        }),
{
    lemma_frames();
}

/// A frame without a payload, or with one of another kind, tells nothing.
pub proof fn law_other_frames_are_ignored(ctx: Map<Seq<char>, (Seq<char>, Seq<char>)>, v: JsonModel)
    requires
        !carries(v, "session/jobs"@),
        !carries(v, "approval/requested"@),
        !carries(v, "approval/resolved"@),
        !carries(v, "question/requested"@),
        !carries(v, "question/resolved"@),
    ensures
        mux_events(ctx, v).len() == 0,
        mux_ctx(ctx, v) == ctx,
{
}

/// The job is at work or waits for it.
pub open spec fn works(status: Seq<char>) -> bool {
    status == "running"@ || status == "queued"@
}

/// A list of one job: the job is told as a tool when it begins to work, and again
/// when it no longer does, as failed where it says so; while nothing changes,
/// nothing is told. The job is remembered with its status.
pub proof fn law_jobs_are_told(
    ctx: Map<Seq<char>, (Seq<char>, Seq<char>)>,
    sid: Seq<char>,
    job: JsonModel,
)
    requires
        job.at("id"@).str_or_empty().len() > 0,
    ensures
        ({
            let id = job.at("id"@).str_or_empty();
            let status = job.at("status"@).str_or_empty();
            let evs = job_events(ctx, sid, seq![job]);
            let was = ctx.contains_key(sid) && works(ctx[sid].1);
            let same = ctx.contains_key(sid) && ctx[sid] == (id, status);
            &&& same || was == works(status) ==> evs.len() == 0
            &&& !same && !was && works(status) ==> evs == seq![
                EventModel::ToolStarted {
                    source: Source::Dsh,
                    session_id: sid,
                    name: "job:"@ + id,
                    arguments: None,
                },
            ]
            &&& !same && was && !works(status) ==> evs == seq![
                EventModel::ToolEnded {
                    source: Source::Dsh,
                    session_id: sid,
                    name: "job:"@ + id,
                    error: status == "failed"@,
                },
            ]
            &&& jobs_after(ctx, sid, seq![job]) =~= ctx.insert(sid, (id, status))
        }),
{
    let jobs = seq![job];
    let start = if ctx.contains_key(sid) {
        Some(ctx[sid])
    } else {
        None
    };
    assert(jobs.drop_last() =~= Seq::<JsonModel>::empty());
    assert(crate::connectors::dsh::jobs_fold(start, sid, jobs.drop_last()).evs =~= Seq::<EventModel>::empty());
    assert(jobs.last() == job);
    assert(jobs[0].at("id"@).str_or_empty() == job.at("id"@).str_or_empty());
    let evs = job_events(ctx, sid, jobs);
    if evs.len() > 0 {
        assert(evs =~= seq![evs[0]]);
    }
}

/// A job list frame tells what its jobs tell, of the session that it names, and
/// the jobs of other sessions stay remembered.
pub proof fn law_job_frames(ctx: Map<Seq<char>, (Seq<char>, Seq<char>)>, v: JsonModel, jobs: Seq<JsonModel>, other: Seq<char>)
    requires
        carries(v, "session/jobs"@),
        v.at("payload"@).at("jobs"@) == JsonModel::Arr(jobs),
    ensures
        ({
            let sid = v.at("payload"@).at("sessionId"@).str_or_empty();
            &&& mux_events(ctx, v) == job_events(ctx, sid, jobs)
            &&& mux_ctx(ctx, v) == jobs_after(ctx, sid, jobs)
            &&& other != sid ==> mux_ctx(ctx, v).contains_key(other) == ctx.contains_key(other)
            &&& other != sid && ctx.contains_key(other) ==> mux_ctx(ctx, v)[other] == ctx[other]
        }),
{
    lemma_frames();
}

/// The host stream tells which session runs or stopped, and nothing else.
pub proof fn law_host_tells_status(v: JsonModel)
    ensures
        ({
            let p = v.at("payload"@);
            let sid = p.at("sessionId"@).str_or_empty();
            &&& carries(v, "host/session-status"@) && sid.len() > 0 ==> host_events(v) == Some(
                seq![
                    EventModel::SessionStatus {
                        source: Source::Dsh,
                        session_id: sid,
                        running: p.at("running"@) == JsonModel::Bool(true),
                    },
                ],
            )
            &&& !carries(v, "host/session-status"@) || sid.len() == 0 ==> host_events(v) is None
        }),
{
}

/// The sessions whose history is looked at run, or stopped no more than three
/// cycles ago; each cycle counts, and running starts the count anew.
pub proof fn law_looks_at_recent(items: Seq<ItemModel>, recent: Map<Seq<char>, u32>, id: Seq<char>)
    ensures
        ({
            let runs = exists|i: int| 0 <= i < items.len() && (#[trigger] items[i]).running && items[i].session_id == id;
            let next = crate::connectors::dsh::next_recent(items, recent);
            let looks = crate::connectors::dsh::running_ids(items).contains(id)
                || crate::connectors::dsh::lingering(items, recent).contains_key(id);
            &&& crate::connectors::dsh::running_ids(items).contains(id) <==> runs
            &&& looks <==> runs || (recent.contains_key(id) && recent[id] < 3)
            &&& next.contains_key(id) <==> looks
            &&& runs ==> next[id] == 0
            &&& !runs && looks ==> next[id] == recent[id] + 1
        }),
{
}

/// A history is asked for by the session and by how far it is to reach back: far
/// for the first look, and a little for a later one.
pub proof fn law_history_request(h: HistoryModel, sid: Seq<char>, seq: u64)
    ensures
        ({
            let e = crate::connectors::dsh::envelope(
                "session.history"@,
                crate::connectors::dsh::history_payload(h, sid),
                seq,
            );
            let p = e.at("payload"@);
            &&& e.at("method"@) == JsonModel::Str("session.history"@)
            &&& e.at("type"@) == JsonModel::Str("client-request"@)
            &&& e.at("rpcId"@) == JsonModel::Str("pet-"@ + crate::text::decimal(seq as nat))
            &&& p.at("sessionId"@) == JsonModel::Str(sid)
            &&& p.at("maxMessages"@).as_u64() == Some(
                if h.last_seq.contains_key(sid) {
                    2u64
                } else {
                    200u64
                },
            )
        }),
{
    reveal_strlit("method");
    reveal_strlit("payload");
    reveal_strlit("rpcId");
    reveal_strlit("type");
    reveal_strlit("maxMessages");
    reveal_strlit("sessionId");
    let pay = crate::connectors::dsh::history_payload(h, sid);
    let e = crate::connectors::dsh::envelope("session.history"@, pay, seq);
    let v = e->Obj_0;
    let w = pay->Obj_0;
    assert("method"@.len() == 6 && "payload"@.len() == 7 && "rpcId"@.len() == 5 && "type"@.len() == 4);
    assert("maxMessages"@.len() == 11 && "sessionId"@.len() == 9);
    lemma_key(v, 0);
    lemma_key(v, 1);
    lemma_key(v, 2);
    lemma_key(v, 3);
    lemma_key(w, 0);
    lemma_key(w, 1);
}

/// A key that stands in an object once is found where it stands.
proof fn lemma_key(v: Seq<(Seq<char>, JsonModel)>, i: int)
    requires
        0 <= i < v.len(),
        forall|j: int| 0 <= j < v.len() && j != i ==> (#[trigger] v[j]).0 != v[i].0,
    ensures
        JsonModel::Obj(v).at(v[i].0) == v[i].1,
        crate::json::entry_index(v, v[i].0) == Some(i),
    decreases v.len(),
{
    let t = v.drop_last();
    if i < t.len() {
        assert(t[i] == v[i]);
        assert forall|j: int| 0 <= j < t.len() && j != i implies (#[trigger] t[j]).0 != t[i].0 by {
            assert(t[j] == v[j]);
        }
        lemma_key(t, i);
    } else {
        assert forall|j: int| 0 <= j < t.len() implies (#[trigger] t[j]).0 != v[i].0 by {
            assert(t[j] == v[j]);
        }
        lemma_no_key(t, v[i].0);
    }
}

proof fn lemma_no_key(v: Seq<(Seq<char>, JsonModel)>, key: Seq<char>)
    requires
        forall|j: int| 0 <= j < v.len() ==> (#[trigger] v[j]).0 != key,
    ensures
        crate::json::entry_index(v, key) is None,
    decreases v.len(),
{
    if v.len() > 0 {
        let t = v.drop_last();
        assert forall|j: int| 0 <= j < t.len() implies (#[trigger] t[j]).0 != key by {
            assert(t[j] == v[j]);
        }
        lemma_no_key(t, key);
        assert(v[v.len() - 1].0 != key);
    }
}

/// An object gives the value that stands first under a key, and nothing else.
pub proof fn law_first_value_of_a_key(v: Seq<(Seq<char>, JsonModel)>, key: Seq<char>, i: int)
    ensures
        0 <= i < v.len() && v[i].0 == key && (forall|j: int| 0 <= j < i ==> (#[trigger] v[j]).0 != key)
            ==> JsonModel::Obj(v).field(key) == Some(v[i].1) && JsonModel::Obj(v).at(key) == v[i].1,
        (forall|j: int| 0 <= j < v.len() ==> (#[trigger] v[j]).0 != key) ==> JsonModel::Obj(v).field(key) is None
            && JsonModel::Obj(v).at(key) is Null,
    decreases v.len(),
{
    if v.len() > 0 {
        let t = v.drop_last();
        law_first_value_of_a_key(t, key, i);
        if forall|j: int| 0 <= j < v.len() ==> (#[trigger] v[j]).0 != key {
            lemma_no_key(v, key);
        }
        if 0 <= i < v.len() && v[i].0 == key && (forall|j: int| 0 <= j < i ==> (#[trigger] v[j]).0 != key) {
            if i < t.len() {
                assert(t[i] == v[i]);
                assert forall|j: int| 0 <= j < i implies (#[trigger] t[j]).0 != key by {
                    assert(t[j] == v[j]);
                }
                lemma_key_stays(v, key);
            } else {
                assert forall|j: int| 0 <= j < t.len() implies (#[trigger] t[j]).0 != key by {
                    assert(t[j] == v[j]);
                }
                lemma_no_key(t, key);
            }
        }
    }
}

proof fn lemma_key_stays(v: Seq<(Seq<char>, JsonModel)>, key: Seq<char>)
    requires
        v.len() > 0,
        crate::json::entry_index(v.drop_last(), key) is Some,
    ensures
        crate::json::entry_index(v, key) == crate::json::entry_index(v.drop_last(), key),
        0 <= crate::json::entry_index(v, key)->0 < v.len() - 1,
    decreases v.len(),
{
    let t = v.drop_last();
    if t.len() > 0 && crate::json::entry_index(t.drop_last(), key) is Some {
        lemma_key_stays(t, key);
    }
}

/// Jobs count one after the other, each against the one before; a job without an
/// id does not count.
pub proof fn law_jobs_count_in_order(
    start: Option<(Seq<char>, Seq<char>)>,
    sid: Seq<char>,
    jobs: Seq<JsonModel>,
    x: JsonModel,
)
    ensures
        ({
            let a = crate::connectors::dsh::jobs_fold(start, sid, jobs);
            let b = crate::connectors::dsh::jobs_fold(start, sid, jobs.push(x));
            let one = crate::connectors::dsh::jobs_fold(a.last, sid, seq![x]);
            &&& b.last == one.last
            &&& b.evs == a.evs + one.evs
            &&& x.at("id"@).str_or_empty().len() == 0 ==> b.last == a.last && b.evs == a.evs
        }),
{
    let a = crate::connectors::dsh::jobs_fold(start, sid, jobs);
    let one = crate::connectors::dsh::jobs_fold(a.last, sid, seq![x]);
    let b = crate::connectors::dsh::jobs_fold(start, sid, jobs.push(x));
    assert(jobs.push(x).drop_last() =~= jobs);
    let none = seq![x].drop_last();
    assert(none =~= Seq::<JsonModel>::empty());
    let z = crate::connectors::dsh::jobs_fold(a.last, sid, none);
    assert(z.last == a.last && z.evs =~= Seq::<EventModel>::empty());
    assert(seq![x].last() == x);
    assert(b.evs =~= a.evs + one.evs);
}

/// A job that a list no longer names is forgotten, and one that it names stays.
pub proof fn law_lost_jobs_are_forgotten(
    ctx: Map<Seq<char>, (Seq<char>, Seq<char>)>,
    sid: Seq<char>,
    jobs: Seq<JsonModel>,
)
    requires
        ctx.contains_key(sid),
        forall|i: int| 0 <= i < jobs.len() ==> (#[trigger] jobs[i]).at("id"@).str_or_empty().len() == 0,
    ensures
        job_events(ctx, sid, jobs).len() == 0,
        jobs_after(ctx, sid, jobs) == ctx.remove(sid),
    decreases jobs.len(),
{
    if jobs.len() > 0 {
        let t = jobs.drop_last();
        assert forall|i: int| 0 <= i < t.len() implies (#[trigger] t[i]).at("id"@).str_or_empty().len() == 0 by {
            assert(t[i] == jobs[i]);
        }
        law_lost_jobs_are_forgotten(ctx, sid, t);
        assert(jobs[jobs.len() - 1] == jobs.last());
    }
    lemma_nameless_jobs(ctx[sid], sid, jobs);
    if ctx[sid].0.len() > 0 && crate::connectors::dsh::names_job(jobs, ctx[sid].0) {
        let i = choose|i: int| 0 <= i < jobs.len() && (#[trigger] jobs[i]).at("id"@).str_or_empty() == ctx[sid].0;
        assert(jobs[i].at("id"@).str_or_empty().len() == 0);
    }
}

proof fn lemma_nameless_jobs(job: (Seq<char>, Seq<char>), sid: Seq<char>, jobs: Seq<JsonModel>)
    requires
        forall|i: int| 0 <= i < jobs.len() ==> (#[trigger] jobs[i]).at("id"@).str_or_empty().len() == 0,
    ensures
        crate::connectors::dsh::jobs_fold(Some(job), sid, jobs).last == Some(job),
        crate::connectors::dsh::jobs_fold(Some(job), sid, jobs).evs.len() == 0,
    decreases jobs.len(),
{
    if jobs.len() > 0 {
        let t = jobs.drop_last();
        assert forall|i: int| 0 <= i < t.len() implies (#[trigger] t[i]).at("id"@).str_or_empty().len() == 0 by {
            assert(t[i] == jobs[i]);
        }
        lemma_nameless_jobs(job, sid, t);
        assert(jobs[jobs.len() - 1] == jobs.last());
    }
}

} // verus!
