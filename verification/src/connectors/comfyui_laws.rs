//! What the messages and the queue of ComfyUI come to.

use vstd::prelude::*;
use vstd::string::*;

use crate::connectors::comfyui::{
    classes_in, ending_in, first_holding, label_or_placeholder, node_label, queue_entry, queue_in, queue_sessions,
    QueueModel, RunModel,
};
use crate::event::{EventModel, ItemModel, Source, TurnEndReason};
use crate::json::JsonModel;
use crate::ordmap::{lemma_ordered_exists, ordered};
use crate::text::{decimal, has_text, lowered, number_in};

verus! {

/// The kinds of messages differ.
proof fn lemma_kinds()
    ensures
        "execution_start"@.len() == 15 && "execution_start"@[10] == 's',
        "executing"@.len() == 9,
        "progress"@.len() == 8,
        "execution_success"@.len() == 17,
        "execution_error"@.len() == 15 && "execution_error"@[10] == 'e',
        "execution_interrupted"@.len() == 21,
        "status"@.len() == 6,
{
    reveal_strlit("execution_start");
    reveal_strlit("executing");
    reveal_strlit("progress");
    reveal_strlit("execution_success");
    reveal_strlit("execution_error");
    reveal_strlit("execution_interrupted");
    reveal_strlit("status");
}

/// A message of this kind that speaks of this prompt.
pub open spec fn speaks_of(msg: JsonModel, kind: Seq<char>, pid: Seq<char>) -> bool {
    &&& msg.at("type"@).str_or_empty() == kind
    &&& msg.at("data"@).at("prompt_id"@).str_or_empty() == pid
    &&& pid.len() > 0
}

/// The start of the turn of a prompt.
pub open spec fn turn_start(pid: Seq<char>) -> EventModel {
    EventModel::TurnStarted { source: Source::ComfyUi, session_id: pid, turn: 1 }
}

/// The start of the work on a node.
pub open spec fn node_start(pid: Seq<char>, name: Seq<char>) -> EventModel {
    EventModel::ToolStarted { source: Source::ComfyUi, session_id: pid, name, arguments: None }
}

/// The end of the work on the node that a prompt shows, if it shows one.
pub open spec fn node_end(m: RunModel, pid: Seq<char>) -> Seq<EventModel> {
    if m.node.contains_key(pid) {
        seq![
            EventModel::ToolEnded {
                source: Source::ComfyUi,
                session_id: pid,
                name: m.node[pid],
                error: false,
            },
        ]
    } else {
        Seq::empty()
    }
}

/// A prompt that starts opens a turn and shows a node; one that is known already,
/// or is over, does nothing of what it did before.
pub proof fn law_start_is_told(m: RunModel, msg: JsonModel, pid: Seq<char>, now: u64)
    requires
        speaks_of(msg, "execution_start"@, pid),
    ensures
        ({
            let n = m.ws_message(msg, now);
            let known = m.running.contains(pid);
            let over = m.finished.contains_key(pid);
            let busy = m.node.contains_key(pid);
            &&& over ==> n == m
            &&& !over && !known && !busy ==> n.node.contains_key(pid) && n.out == m.out.push(turn_start(pid)).push(
                node_start(pid, n.node[pid]),
            )
            &&& !over && known && !busy ==> n.node.contains_key(pid) && n.out == m.out.push(
                node_start(pid, n.node[pid]),
            )
            &&& !over && known && busy ==> n.out == m.out
            &&& !over ==> n.running.contains(pid) && n.node.contains_key(pid)
            &&& !over && !busy && !m.node_classes.contains_key(pid) ==> n.node[pid] == "执行中"@
            &&& busy ==> n.node[pid] == m.node[pid]
            &&& n.finished == m.finished
        }),
{
    lemma_kinds();
}

/// A node that starts in a prompt ends the one before and is shown by its class,
/// or by its number where the class is not known; the node that is shown does not
/// start again.
pub proof fn law_node_is_told(m: RunModel, msg: JsonModel, pid: Seq<char>, id: u64, now: u64)
    requires
        speaks_of(msg, "executing"@, pid),
        m.running.contains(pid),
        msg.at("data"@).at("node"@) matches JsonModel::Num(n) && n.unsigned == Some(id),
    ensures
        ({
            let n = m.ws_message(msg, now);
            let key = decimal(id as nat);
            let known = m.node_classes.contains_key(pid) && m.node_classes[pid].contains_key(key);
            let name = if known { m.node_classes[pid][key] } else { "#"@ + key };
            let shown = m.node.contains_key(pid) && m.node[pid] == name;
            &&& name.len() > 0 && !shown ==> {
                &&& n.out == (m.out + node_end(m, pid)).push(node_start(pid, name))
                &&& n.node.contains_key(pid) && n.node[pid] == name
                &&& !n.progress_pct.contains_key(pid)
            }
            &&& name.len() == 0 || shown ==> n == m
            &&& n.running == m.running && n.finished == m.finished
        }),
{
    lemma_kinds();
    let n = m.ws_message(msg, now);
    let key = decimal(id as nat);
    let known = m.node_classes.contains_key(pid) && m.node_classes[pid].contains_key(key);
    let name = if known { m.node_classes[pid][key] } else { "#"@ + key };
    if name.len() > 0 && !(m.node.contains_key(pid) && m.node[pid] == name) {
        assert(n.out =~= (m.out + node_end(m, pid)).push(node_start(pid, name)));
    }
}

/// A node may also be named by its number in writing.
pub proof fn law_node_number_in_writing(m: RunModel, msg: JsonModel, other: JsonModel, pid: Seq<char>, id: u64, now: u64)
    requires
        speaks_of(msg, "executing"@, pid),
        speaks_of(other, "executing"@, pid),
        msg.at("data"@).at("node"@) matches JsonModel::Num(n) && n.unsigned == Some(id),
        other.at("data"@).at("node"@) matches JsonModel::Str(s) && number_in(s) == Some(id),
    ensures
        m.ws_message(msg, now) == m.ws_message(other, now),
{
    lemma_kinds();
}

/// A prompt whose last node is over shows no node any more, but is still open.
pub proof fn law_last_node_ends(m: RunModel, msg: JsonModel, pid: Seq<char>, now: u64)
    requires
        speaks_of(msg, "executing"@, pid),
        m.running.contains(pid),
        msg.at("data"@).at("node"@) is Null,
    ensures
        ({
            let n = m.ws_message(msg, now);
            &&& n.out == m.out + node_end(m, pid)
            &&& !n.node.contains_key(pid)
            &&& n.running == m.running && n.finished == m.finished
        }),
{
    lemma_kinds();
    let n = m.ws_message(msg, now);
    assert(n.out =~= m.out + node_end(m, pid));
}

/// The progress of the node that is shown is told where it moved by ten percent
/// since it was last told, and where it is complete; otherwise nothing changes.
pub proof fn law_progress_is_told(m: RunModel, msg: JsonModel, pid: Seq<char>, value: u64, max: u64, now: u64)
    requires
        msg.at("type"@).str_or_empty() == "progress"@,
        msg.at("data"@).at("prompt_id"@).str_or_empty() == pid,
        msg.at("data"@).at("value"@) matches JsonModel::Num(n) && n.unsigned == Some(value),
        msg.at("data"@).at("max"@) matches JsonModel::Num(n) && n.unsigned == Some(max),
        value <= max,
    ensures
        ({
            let n = m.ws_message(msg, now);
            let pct = value * 100 / max as int;
            let was = if m.progress_pct.contains_key(pid) { m.progress_pct[pid] as int } else { 0 };
            let moved = pct - was >= 10 || was - pct >= 10 || value == max;
            &&& m.node.contains_key(pid) && max > 0 && moved ==> {
                &&& n.out == m.out.push(
                    EventModel::ToolStarted {
                        source: Source::ComfyUi,
                        session_id: pid,
                        name: m.node[pid],
                        arguments: Some(decimal(value as nat) + "/"@ + decimal(max as nat)),
                    },
                )
                &&& n.progress_pct.contains_key(pid) && n.progress_pct[pid] == pct
                &&& n == (RunModel { out: n.out, progress_pct: n.progress_pct, ..m })
            }
            &&& !m.node.contains_key(pid) || max == 0 || !moved ==> n == m
        }),
{
    lemma_kinds();
    if max > 0 {
        assert(0 <= value * 100 / max as int <= 100) by (nonlinear_arith)
            requires
                0 <= value <= max,
                max > 0,
        ;
    }
}

/// A prompt that is over ends its node and its turn, as completed, failed or
/// interrupted, and is remembered as over; nothing happens where it was over.
pub proof fn law_end_is_told(m: RunModel, msg: JsonModel, pid: Seq<char>, reason: TurnEndReason, now: u64)
    requires
        speaks_of(
            msg,
            match reason {
                TurnEndReason::Completed => "execution_success"@,
                TurnEndReason::Error => "execution_error"@,
                _ => "execution_interrupted"@,
            },
            pid,
        ),
        reason == TurnEndReason::Completed || reason == TurnEndReason::Error || reason == TurnEndReason::Interrupted,
    ensures
        ({
            let n = m.ws_message(msg, now);
            &&& m.finished.contains_key(pid) ==> n == m
            &&& !m.finished.contains_key(pid) ==> {
                &&& n.out == (m.out + node_end(m, pid)).push(
                    EventModel::TurnEnded { source: Source::ComfyUi, session_id: pid, turn: 1, reason },
                )
                &&& !n.running.contains(pid)
                &&& !n.node.contains_key(pid)
                &&& !n.node_classes.contains_key(pid)
                &&& n.finished == m.finished.insert(pid, now)
                &&& n.running.insert(pid) =~= m.running.insert(pid)
                &&& n.node =~= m.node.remove(pid)
            }
        }),
{
    lemma_kinds();
    let n = m.ws_message(msg, now);
    if !m.finished.contains_key(pid) {
        assert(n.out =~= (m.out + node_end(m, pid)).push(
            EventModel::TurnEnded { source: Source::ComfyUi, session_id: pid, turn: 1, reason },
        ));
        assert(n.node =~= m.node.remove(pid));
    }
}

/// The number of waiting prompts is passed on.
pub proof fn law_queue_length_is_told(m: RunModel, msg: JsonModel, n: u64, now: u64)
    requires
        msg.at("type"@).str_or_empty() == "status"@,
        msg.at("data"@).at("status"@).at("exec_info"@).at("queue_remaining"@).as_u64() == Some(n),
        n <= u32::MAX,
    ensures
        m.ws_message(msg, now) == (RunModel {
            out: m.out.push(EventModel::QueueChanged { source: Source::ComfyUi, pending: n as u32 }),
            ..m
        }),
{
    lemma_kinds();
}

/// A message that names no prompt starts and ends none.
pub proof fn law_nameless_is_ignored(m: RunModel, msg: JsonModel, now: u64)
    requires
        msg.at("data"@).at("prompt_id"@).str_or_empty().len() == 0,
        msg.at("type"@).str_or_empty() != "progress"@,
        msg.at("type"@).str_or_empty() != "status"@,
    ensures
        m.ws_message(msg, now) == m,
{
}

/// A poll tells how many prompts wait, forgets prompts that ended three minutes
/// ago, and then reads the entries of the queue one after the other.
pub proof fn law_queue_is_read(m: RunModel, now: u64, a: Seq<JsonModel>, e: JsonModel, pending: u32, pid: Seq<char>)
    ensures
        ({
            let none = m.polled(now, Seq::empty(), pending);
            &&& none.out == m.out.push(EventModel::QueueChanged { source: Source::ComfyUi, pending })
            &&& none.finished.contains_key(pid) <==> m.finished.contains_key(pid) && now - m.finished[pid] < 180_000
            &&& none.finished.contains_key(pid) ==> none.finished[pid] == m.finished[pid]
            &&& none == (RunModel { out: none.out, finished: none.finished, ..m })
            &&& queue_entry(e) is None ==> m.polled(now, a.push(e), pending) == m.polled(now, a, pending)
            &&& queue_entry(e) matches Some(q) ==> m.polled(now, a.push(e), pending) == m.polled(now, a, pending).queued(
                q,
            )
        }),
{
    assert(a.push(e).drop_last() =~= a);
    assert(a.push(e).last() == e);
}

/// An entry of the queue that was not known opens a turn and shows the node that
/// stands for its graph; one that is over shows nothing.
pub proof fn law_queued_prompt_is_told(m: RunModel, q: QueueModel)
    ensures
        ({
            let n = m.queued(q);
            let over = m.finished.contains_key(q.pid);
            let fresh = !over && !m.running.contains(q.pid) && !m.node.contains_key(q.pid);
            &&& n.node_classes == m.node_classes.insert(q.pid, q.classes)
            &&& n.finished == m.finished
            &&& fresh ==> n.running.contains(q.pid) && n.node.contains_key(q.pid)
            &&& fresh && node_label(q.classes) is None ==> n.out == m.out.push(turn_start(q.pid)).push(
                node_start(q.pid, "执行中"@),
            ) && n.node[q.pid] == "执行中"@
            &&& fresh && node_label(q.classes) is Some && node_label(q.classes)->0 != "执行中"@ && (node_label(
                q.classes,
            )->0.len() == 0 || node_label(q.classes)->0[0] != '#') ==> n.out == m.out.push(turn_start(q.pid)).push(
                node_start(q.pid, node_label(q.classes)->0),
            ) && n.node[q.pid] == node_label(q.classes)->0
            &&& over && !m.node.contains_key(q.pid) ==> n.out == m.out && n.running == m.running
        }),
{
    reveal_strlit("#");
    let n = m.queued(q);
    let a = RunModel { node_classes: m.node_classes.insert(q.pid, q.classes), ..m };
    let b = a.start_turn(q.pid);
    let c = b.ensure_placeholder(q.pid);
    if !m.finished.contains_key(q.pid) && !m.running.contains(q.pid) && !m.node.contains_key(q.pid) {
        let name = label_or_placeholder(b, q.pid);
        assert(c.node[q.pid] == name);
        if name.len() > 0 && name[0] != '#' {
            assert(crate::text::after_prefix(name, "#"@) is None) by {
                if crate::text::has_prefix(name, "#"@) {
                    assert(name.take(1)[0] == "#"@[0]);
                }
            }
        }
        if name.len() == 0 {
            assert(crate::text::after_prefix(name, "#"@) is None);
        }
        assert(label_or_placeholder(c, q.pid) == name);
        reveal_strlit("执行中");
        if name.len() == 0 || name[0] != '#' {
            assert(c.better_name(q.pid) is None);
        }
    }
}

/// A prompt that shows only that it runs, or the number of a node, is given the
/// name of the node once that is known.
pub proof fn law_better_name_is_told(m: RunModel, pid: Seq<char>, id: u64)
    requires
        m.node.contains_key(pid),
        m.node_classes.contains_key(pid),
    ensures
        ({
            let n = m.resolve_node_names(pid);
            let cls = m.node_classes[pid];
            let key = decimal(id as nat);
            &&& m.node[pid] == "#"@ + key && cls.contains_key(key) && cls[key] != m.node[pid] ==> n.node[pid] == cls[key]
                && n.out == (m.out + node_end(m, pid)).push(node_start(pid, cls[key]))
            &&& m.node[pid] == "执行中"@ && node_label(cls) is Some && node_label(cls)->0 != m.node[pid] ==> n.node[pid]
                == node_label(cls)->0 && n.out == (m.out + node_end(m, pid)).push(node_start(pid, node_label(cls)->0))
        }),
{
    reveal_strlit("#");
    reveal_strlit("执行中");
    let n = m.resolve_node_names(pid);
    let cls = m.node_classes[pid];
    let key = decimal(id as nat);
    crate::text::lemma_decimal(id as nat);
    let cur = "#"@ + key;
    assert(cur.take(1) =~= "#"@);
    assert(cur.skip(1) =~= key);
    assert(cur[0] == '#');
    assert("执行中"@[0] != '#');
    assert(crate::text::is_digit(key[0]));
    assert(number_in(key) == Some(id));
    if m.better_name(pid) is Some {
        assert(n.out =~= (m.out + node_end(m, pid)).push(node_start(pid, m.better_name(pid)->0)));
    }
}

proof fn lemma_first_holding(m: Map<Seq<char>, Seq<char>>, ks: Seq<Seq<char>>, part: Seq<char>)
    ensures
        first_holding(m, ks, part) is None <==> forall|i: int|
            0 <= i < ks.len() ==> !has_text(lowered(m[#[trigger] ks[i]]), part),
        first_holding(m, ks, part) matches Some(s) ==> exists|i: int|
            #![trigger ks[i]]
            0 <= i < ks.len() && m[ks[i]] == s && has_text(lowered(s), part) && forall|j: int|
                0 <= j < i ==> !has_text(lowered(m[#[trigger] ks[j]]), part),
    decreases ks.len(),
{
    if ks.len() > 0 && !has_text(lowered(m[ks[0]]), part) {
        let t = ks.drop_first();
        lemma_first_holding(m, t, part);
        if first_holding(m, ks, part) is None {
            assert forall|i: int| 0 <= i < ks.len() implies !has_text(lowered(m[#[trigger] ks[i]]), part) by {
                if i > 0 {
                    assert(t[i - 1] == ks[i]);
                }
            }
        } else {
            let s = first_holding(m, ks, part)->0;
            let i = choose|i: int|
                #![trigger t[i]]
                0 <= i < t.len() && m[t[i]] == s && has_text(lowered(s), part) && forall|j: int|
                    0 <= j < i ==> !has_text(lowered(m[#[trigger] t[j]]), part);
            assert(ks[i + 1] == t[i]);
            assert forall|j: int| 0 <= j < i + 1 implies !has_text(lowered(m[#[trigger] ks[j]]), part) by {
                if j > 0 {
                    assert(t[j - 1] == ks[j]);
                }
            }
        }
    } else if ks.len() > 0 {
        assert(has_text(lowered(m[ks[0]]), part));
    }
}

/// A graph is named by one of its nodes: by a sampler where it has one, or else by
/// a decoder where it has one; and not at all only where it has no nodes.
pub proof fn law_graph_is_named(m: Map<Seq<char>, Seq<char>>)
    requires
        m.dom().finite(),
    ensures
        ({
            let holds = |part: Seq<char>| exists|k: Seq<char>| #[trigger] m.contains_key(k) && has_text(lowered(m[k]), part);
            let r = node_label(m);
            &&& r is None <==> forall|k: Seq<char>| !#[trigger] m.contains_key(k)
            &&& r is Some ==> exists|k: Seq<char>| #[trigger] m.contains_key(k) && m[k] == r->0
            &&& holds("sampler"@) ==> has_text(lowered(r->0), "sampler"@)
            &&& !holds("sampler"@) && holds("vaedecode"@) ==> has_text(lowered(r->0), "vaedecode"@)
        }),
{
    let ks = ordered::<String>(m.dom());
    lemma_ordered_exists::<String>(m.dom());
    lemma_first_holding(m, ks, "sampler"@);
    lemma_first_holding(m, ks, "vaedecode"@);
    assert forall|k: Seq<char>| #[trigger] m.contains_key(k) implies exists|i: int|
        #![trigger ks[i]]
        0 <= i < ks.len() && ks[i] == k by {
        assert(ks.contains(k));
    }
    assert forall|i: int| 0 <= i < ks.len() implies m.contains_key(#[trigger] ks[i]) by {
        assert(ks.contains(ks[i]));
    }
    if ks.len() > 0 {
        assert(m.contains_key(ks[0]));
    }
}

/// A graph has the class of every node that names one.
pub proof fn law_classes_of_a_graph(v: Seq<(Seq<char>, JsonModel)>, e: (Seq<char>, JsonModel))
    ensures
        classes_in(Seq::empty()) == Map::<Seq<char>, Seq<char>>::empty(),
        e.1.at("class_type"@) matches JsonModel::Str(c) ==> classes_in(v.push(e)) == classes_in(v).insert(e.0, c),
        !(e.1.at("class_type"@) is Str) ==> classes_in(v.push(e)) == classes_in(v),
{
    assert(v.push(e).drop_last() =~= v);
}

/// An entry of the queue is a list of its number, its prompt and its graph, or an
/// object with those; without a prompt it is none.
pub proof fn law_queue_entries(a: Seq<JsonModel>, o: Seq<(Seq<char>, JsonModel)>)
    ensures
        ({
            let r = queue_entry(JsonModel::Arr(a));
            &&& a.len() < 2 ==> r is None
            &&& a.len() >= 2 && !(a[1] is Str) ==> r is None
            &&& a.len() >= 2 ==> (a[1] matches JsonModel::Str(pid) ==> r is Some && r->0.pid == pid && r->0.number
                == match a[0].as_u64() {
                Some(n) => n,
                None => 0,
            })
            &&& a.len() > 2 && a[1] is Str ==> (a[2] matches JsonModel::Obj(g) ==> r->0.classes == classes_in(g))
        }),
        ({
            let it = JsonModel::Obj(o);
            let r = queue_entry(it);
            &&& !(it.at("prompt_id"@) is Str) ==> r is None
            &&& it.at("prompt_id"@) matches JsonModel::Str(pid) ==> r is Some && r->0.pid == pid && r->0.number
                == match it.at("number"@).as_u64() {
                Some(n) => n,
                None => 0,
            }
            &&& it.at("prompt_id"@) is Str ==> (it.at("prompt"@) matches JsonModel::Obj(g) ==> r->0.classes == classes_in(
                g,
            ))
        }),
{
}

/// A poll reports every entry of the queue as a running session with its number.
pub proof fn law_queue_is_reported(a: Seq<JsonModel>, e: JsonModel)
    ensures
        queue_sessions(Seq::empty()) == Seq::<ItemModel>::empty(),
        queue_entry(e) is None ==> queue_sessions(a.push(e)) == queue_sessions(a),
        queue_entry(e) matches Some(q) ==> queue_sessions(a.push(e)) == queue_sessions(a).push(
            ItemModel {
                session_id: q.pid,
                running: true,
                title: Some("出图任务 #"@ + decimal(q.number as nat)),
                todos: None,
            },
        ),
{
    assert(a.push(e).drop_last() =~= a);
}

/// A record tells how a prompt ended: as failed where its status is an error, as
/// interrupted where a message says so, and as completed otherwise.
pub proof fn law_record_tells_end(answer: JsonModel, pid: Seq<char>, i: int)
    ensures
        ({
            let status = answer.at(pid).at("status"@);
            let v = status.at("messages"@).elements();
            let failed = status.at("status_str"@) == JsonModel::Str("error"@);
            &&& failed ==> ending_in(answer, pid) == TurnEndReason::Error
            &&& !failed && 0 <= i < v.len() && v[i].at("type"@) == JsonModel::Str("execution_interrupted"@)
                ==> ending_in(answer, pid) == TurnEndReason::Interrupted
            &&& !failed && (forall|k: int|
                0 <= k < v.len() ==> (#[trigger] v[k]).at("type"@) != JsonModel::Str("execution_interrupted"@))
                ==> ending_in(answer, pid) == TurnEndReason::Completed
        }),
{
    let v = answer.at(pid).at("status"@).at("messages"@).elements();
    if 0 <= i < v.len() && v[i].at("type"@) == JsonModel::Str("execution_interrupted"@) {
        assert(v[i].at("type"@).as_str() == Some("execution_interrupted"@));
    }
    assert forall|k: int|
        0 <= k < v.len() && (#[trigger] v[k]).at("type"@) != JsonModel::Str("execution_interrupted"@) implies v[k].at(
        "type"@,
    ).as_str() != Some("execution_interrupted"@) by {}
}

/// A prompt is queued where some entry of the queue is that prompt.
pub proof fn law_queued_prompts(a: Seq<JsonModel>, e: JsonModel, pid: Seq<char>)
    ensures
        !crate::connectors::comfyui::in_queue(Seq::empty(), pid),
        crate::connectors::comfyui::in_queue(a.push(e), pid) <==> crate::connectors::comfyui::in_queue(a, pid) || (
        queue_entry(e) is Some && queue_entry(e)->0.pid == pid),
{
    let b = a.push(e);
    if crate::connectors::comfyui::in_queue(a, pid) {
        let i = choose|i: int| 0 <= i < a.len() && (#[trigger] queue_entry(a[i]) matches Some(q) && q.pid == pid);
        assert(queue_entry(b[i]) == queue_entry(a[i]));
    }
    if queue_entry(e) is Some && queue_entry(e)->0.pid == pid {
        assert(queue_entry(b[a.len() as int]) == queue_entry(e));
    }
    if crate::connectors::comfyui::in_queue(b, pid) {
        let i = choose|i: int| 0 <= i < b.len() && (#[trigger] queue_entry(b[i]) matches Some(q) && q.pid == pid);
        if i < a.len() {
            assert(queue_entry(a[i]) == queue_entry(b[i]));
        }
    }
}

/// The running entries and the number of waiting ones are those of the answer.
pub proof fn law_queue_of_an_answer(answer: JsonModel, running: Seq<JsonModel>, waiting: Seq<JsonModel>)
    ensures
        answer.at("queue_running"@) == JsonModel::Arr(running) ==> queue_in(answer).0 == running,
        answer.at("queue_pending"@) == JsonModel::Arr(waiting) ==> queue_in(answer).1 == waiting.len(),
        !(answer.at("queue_running"@) is Arr) ==> queue_in(answer).0.len() == 0,
        !(answer.at("queue_pending"@) is Arr) ==> queue_in(answer).1 == 0,
{
}

} // verus!
