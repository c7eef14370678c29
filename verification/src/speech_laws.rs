//! What the bubble says, in terms of the snapshot that it shows.

use vstd::prelude::*;
use vstd::string::*;

use crate::bubble_text::{
    best, bubble_of, candidates, earliest, first_where, has_stream, live_content, of_source, picked, revealed,
    rotated, stream_of, tail_of, BubbleModel, StreamModel,
};
use crate::event::{Mode, Source};
use crate::state::{InfoModel, SnapModel};
use crate::text::{decimal, trimmed};

verus! {

/// The name of a source.
pub open spec fn name_of(source: Source, labels: Map<u16, Seq<char>>) -> Seq<char> {
    match source {
        Source::Dsh => "DSH"@,
        Source::Hermes => "Hermes"@,
        Source::ComfyUi => "ComfyUI"@,
        Source::Script(i) => if labels.contains_key(i) {
            labels[i]
        } else {
            "Script "@ + decimal(i as nat)
        },
    }
}

/// `t` is `s`, or as much of its front as fits and a sign that more follows.
pub open spec fn is_front(t: Seq<char>, s: Seq<char>, n: int) -> bool {
    &&& s.len() <= n ==> t == s
    &&& s.len() > n ==> t.len() == n + 1 && t.take(n) == s.take(n) && t[n] == '…'
}

/// `t` is `s`, or as much of its end as fits behind a sign that more comes before.
pub open spec fn is_end(t: Seq<char>, s: Seq<char>, n: int) -> bool {
    &&& s.len() <= n ==> t == s
    &&& s.len() > n ==> t.len() == n + 1 && t[0] == '…' && t.skip(1) == s.skip(s.len() - n)
}

/// `t` names what a session works on: its task, unless that is blank, or its
/// title, or that it has no name.
pub open spec fn names_task(t: Seq<char>, s: InfoModel) -> bool {
    if s.task is Some && trimmed(s.task->0).len() > 0 {
        is_front(t, s.task->0, 24)
    } else if s.title.len() > 0 {
        is_front(t, s.title, 24)
    } else {
        t == "(未命名会话)"@
    }
}

/// A line that consists of a mark, the name of a session's source and what it
/// works on.
pub open spec fn tells_result(line: Seq<char>, mark: Seq<char>, s: InfoModel, labels: Map<u16, Seq<char>>) -> bool {
    let head = mark + name_of(s.source, labels) + "] "@;
    &&& line.len() >= head.len()
    &&& line.take(head.len() as int) == head
    &&& names_task(line.skip(head.len() as int), s)
}

proof fn lemma_front(s: Seq<char>, n: int)
    requires
        n >= 0,
    ensures
        is_front(crate::text::head_of(s, n), s, n),
{
    if s.len() > n {
        assert(s.take(n).push('…').take(n) =~= s.take(n));
    }
}

proof fn lemma_end(s: Seq<char>, n: int)
    requires
        n >= 0,
    ensures
        is_end(tail_of(s, n), s, n),
{
    if s.len() > n {
        assert(tail_of(s, n).skip(1) =~= s.skip(s.len() - n));
    }
}

proof fn lemma_result_line(mark: Seq<char>, s: InfoModel, labels: Map<u16, Seq<char>>)
    ensures
        tells_result(
            mark + s.source.label_in(labels) + "] "@ + crate::bubble_text::task_name(s),
            mark,
            s,
            labels,
        ),
{
    let head = mark + name_of(s.source, labels) + "] "@;
    let t = crate::bubble_text::task_name(s);
    let line = head + t;
    assert(line.take(head.len() as int) =~= head);
    assert(line.skip(head.len() as int) =~= t);
    if s.task is Some {
        lemma_front(s.task->0, 24);
    }
    lemma_front(s.title, 24);
}

/// In the failed mode each failed session has a line of its own, in order, with
/// its source and its task, and nothing else is told.
pub proof fn law_failures_are_listed(
    snap: SnapModel,
    source: Option<Source>,
    prefer: Option<Seq<char>>,
    upto: Option<int>,
    max_line: int,
)
    requires
        snap.mode == Mode::Failed,
    ensures
        ({
            let b = bubble_of(snap, source, prefer, upto, max_line);
            &&& b.title == "出错了!"@
            &&& b.from is None
            &&& b.lines.len() == snap.failed.len()
            &&& forall|i: int|
                0 <= i < snap.failed.len() ==> tells_result(
                    #[trigger] b.lines[i],
                    "✗ ["@,
                    snap.failed[i],
                    snap.labels,
                )
        }),
{
    let b = bubble_of(snap, source, prefer, upto, max_line);
    assert forall|i: int| 0 <= i < snap.failed.len() implies tells_result(
        #[trigger] b.lines[i],
        "✗ ["@,
        snap.failed[i],
        snap.labels,
    ) by {
        lemma_result_line("✗ ["@, snap.failed[i], snap.labels);
    }
}

/// In the done mode each completed session has a line of its own, in order, with
/// its source and its task, and nothing else is told.
pub proof fn law_completions_are_listed(
    snap: SnapModel,
    source: Option<Source>,
    prefer: Option<Seq<char>>,
    upto: Option<int>,
    max_line: int,
)
    requires
        snap.mode == Mode::Done,
    ensures
        ({
            let b = bubble_of(snap, source, prefer, upto, max_line);
            &&& b.title == "任务完成啦 🎉"@
            &&& b.from is None
            &&& b.lines.len() == snap.done.len()
            &&& forall|i: int|
                0 <= i < snap.done.len() ==> tells_result(#[trigger] b.lines[i], "✓ ["@, snap.done[i], snap.labels)
        }),
{
    let b = bubble_of(snap, source, prefer, upto, max_line);
    assert forall|i: int| 0 <= i < snap.done.len() implies tells_result(
        #[trigger] b.lines[i],
        "✓ ["@,
        snap.done[i],
        snap.labels,
    ) by {
        lemma_result_line("✓ ["@, snap.done[i], snap.labels);
    }
}

/// Every session that a snapshot lists: at work, in thought, done, failed.
pub open spec fn all_listed(snap: SnapModel) -> Seq<InfoModel> {
    snap.working + snap.thinking + snap.done + snap.failed
}

/// `t` names a session: by the title of the first session of that id that is
/// listed, or by the id where there is no title.
pub open spec fn names_session(t: Seq<char>, snap: SnapModel, id: Seq<char>) -> bool {
    let v = all_listed(snap);
    &&& forall|i: int|
        #![trigger v[i]]
        0 <= i < v.len() && v[i].session_id == id && (forall|j: int| 0 <= j < i ==> (#[trigger] v[j]).session_id != id)
            && v[i].title.len() > 0 ==> is_front(t, v[i].title, 24)
    &&& (forall|i: int| 0 <= i < v.len() && (#[trigger] v[i]).session_id == id ==> v[i].title.len() == 0) && id.len()
        > 0 ==> is_front(t, id, 24)
}

proof fn lemma_first_where(v: Seq<InfoModel>, p: spec_fn(InfoModel) -> bool)
    ensures
        first_where(v, p) is None <==> forall|i: int| 0 <= i < v.len() ==> !p(#[trigger] v[i]),
        first_where(v, p) matches Some(s) ==> exists|i: int|
            0 <= i < v.len() && #[trigger] v[i] == s && p(s) && forall|j: int| 0 <= j < i ==> !p(#[trigger] v[j]),
    decreases v.len(),
{
    if v.len() > 0 && !p(v[0]) {
        let t = v.drop_first();
        lemma_first_where(t, p);
        if first_where(v, p) is None {
            assert forall|i: int| 0 <= i < v.len() implies !p(#[trigger] v[i]) by {
                if i > 0 {
                    assert(t[i - 1] == v[i]);
                }
            }
        } else {
            let s = first_where(v, p)->0;
            let i = choose|i: int|
                0 <= i < t.len() && #[trigger] t[i] == s && p(s) && forall|j: int| 0 <= j < i ==> !p(#[trigger] t[j]);
            assert(v[i + 1] == s);
            assert forall|j: int| 0 <= j < i + 1 implies !p(#[trigger] v[j]) by {
                if j > 0 {
                    assert(t[j - 1] == v[j]);
                }
            }
            assert(!(forall|k: int| 0 <= k < v.len() ==> !p(#[trigger] v[k]))) by {
                assert(p(v[i + 1]));
            }
        }
    } else if v.len() > 0 {
        assert(p(v[0]));
    }
}

proof fn lemma_session_name(snap: SnapModel, id: Seq<char>)
    ensures
        names_session(crate::bubble_text::session_name(snap, id), snap, id),
{
    let v = all_listed(snap);
    let p = |s: InfoModel| s.session_id == id;
    lemma_first_where(v, p);
    lemma_front(id, 24);
    let f = first_where(v, p);
    if f is Some {
        let s = f->0;
        lemma_front(s.title, 24);
        let k = choose|i: int|
            0 <= i < v.len() && #[trigger] v[i] == s && p(s) && forall|j: int| 0 <= j < i ==> !p(#[trigger] v[j]);
        assert forall|i: int|
            #![trigger v[i]]
            0 <= i < v.len() && v[i].session_id == id && (forall|j: int|
                0 <= j < i ==> (#[trigger] v[j]).session_id != id) implies v[i] == s by {
            if i < k {
                assert(!p(v[i]));
            }
            if k < i {
                assert(v[k].session_id != id);
            }
        }
        assert(v[k].session_id == id);
    } else {
        assert forall|i: int| 0 <= i < v.len() implies (#[trigger] v[i]).session_id != id by {
            assert(!p(v[i]));
        }
    }
}

/// In the attention mode the title counts the requests, and each has a line of
/// its own: first the questions, with what they ask, then the approvals, with the
/// tool that is to be used.
pub proof fn law_requests_are_listed(
    snap: SnapModel,
    source: Option<Source>,
    prefer: Option<Seq<char>>,
    upto: Option<int>,
    max_line: int,
    i: int,
)
    requires
        snap.mode == Mode::Attention,
    ensures
        ({
            let b = bubble_of(snap, source, prefer, upto, max_line);
            let (q, a) = (snap.pending_questions, snap.pending_approvals);
            &&& b.title == "需要你确认 · "@ + decimal((q.len() + a.len()) as nat) + " 项"@
            &&& b.from is None
            &&& b.lines.len() == q.len() + a.len()
            &&& 0 <= i < q.len() ==> exists|name: Seq<char>, text: Seq<char>|
                {
                    &&& b.lines[i] == #[trigger] ("❓ "@ + name + ": "@ + text)
                    &&& names_session(name, snap, q[i].0)
                    &&& is_front(text, q[i].1, 120)
                }
            &&& 0 <= i < a.len() ==> exists|name: Seq<char>|
                {
                    &&& b.lines[q.len() + i] == #[trigger] ("🔧 "@ + name + ": 请求使用 "@ + a[i].1)
                    &&& names_session(name, snap, a[i].0)
                }
        }),
{
    let b = bubble_of(snap, source, prefer, upto, max_line);
    let (q, a) = (snap.pending_questions, snap.pending_approvals);
    if 0 <= i < q.len() {
        let name = crate::bubble_text::session_name(snap, q[i].0);
        let text = crate::text::head_of(q[i].1, 120);
        lemma_session_name(snap, q[i].0);
        lemma_front(q[i].1, 120);
        assert(b.lines[i] == "❓ "@ + name + ": "@ + text);
    }
    if 0 <= i < a.len() {
        let name = crate::bubble_text::session_name(snap, a[i].0);
        lemma_session_name(snap, a[i].0);
        assert(b.lines[q.len() + i] == "🔧 "@ + name + ": 请求使用 "@ + a[i].1);
    }
}

/// At rest the bubble says so, for the chosen source or the default one, and how
/// much work is queued; offline it says that it keeps trying; while it is dragged
/// it says only that.
pub proof fn law_rest_is_told(
    snap: SnapModel,
    source: Option<Source>,
    prefer: Option<Seq<char>>,
    upto: Option<int>,
    max_line: int,
)
    ensures
        ({
            let b = bubble_of(snap, source, prefer, upto, max_line);
            let who = match source {
                Some(s) => s,
                None => Source::Dsh,
            };
            &&& snap.mode == Mode::Idle ==> b == (BubbleModel {
                title: "休息中 💤"@,
                from: Some(name_of(who, snap.labels)),
                lines: seq![
                    if snap.queue_len == 0 {
                        "没有运行中的任务"@
                    } else {
                        "队列中还有 "@ + decimal(snap.queue_len as nat) + " 个任务待处理"@
                    },
                ],
            })
            &&& snap.mode == Mode::Offline ==> b == (BubbleModel {
                title: "连不上 DSH 和 Hermes 😢"@,
                from: None,
                lines: seq!["自动重试中…"@],
            })
            &&& snap.mode == Mode::Move ==> b == (BubbleModel {
                title: "拖动中…"@,
                from: None,
                lines: Seq::empty(),
            })
        }),
{
}

/// At work and in thought the bubble says which, for the chosen source or the
/// default one, and has one line on the session that it follows, or none where it
/// follows none.
pub proof fn law_activity_is_told(
    snap: SnapModel,
    source: Option<Source>,
    prefer: Option<Seq<char>>,
    upto: Option<int>,
    max_line: int,
)
    requires
        snap.mode == Mode::Working || snap.mode == Mode::Thinking,
    ensures
        ({
            let b = bubble_of(snap, source, prefer, upto, max_line);
            let who = match source {
                Some(s) => s,
                None => Source::Dsh,
            };
            let s = picked(snap, source, snap.mode, prefer);
            &&& snap.mode == Mode::Working ==> b.title == "正在干活…"@
            &&& snap.mode == Mode::Thinking ==> b.title == "思考中…"@
            &&& b.from == Some(name_of(who, snap.labels))
            &&& s is None ==> b.lines.len() == 0
            &&& s is Some ==> b.lines == seq![live_content(s->0, snap.mode, upto, max_line)]
        }),
{
}

/// `line` shows `s`: as much of it as has been typed out, and of that the end.
pub open spec fn types_out(line: Seq<char>, mark: Seq<char>, s: Seq<char>, upto: Option<int>, max_line: int) -> bool {
    let n = if upto is Some && upto->0 < s.len() {
        upto->0
    } else {
        s.len() as int
    };
    exists|t: Seq<char>| line == #[trigger] (mark + t) && is_end(t, s.take(n), max_line)
}

/// A session at work shows its text, or else its reasoning; one in thought shows
/// its reasoning, or else its text; in either case the newest part of what has
/// been typed out.
pub proof fn law_stream_is_shown(s: InfoModel, mode: Mode, upto: Option<int>, max_line: int)
    requires
        mode == Mode::Working || mode == Mode::Thinking,
        max_line >= 0,
        upto matches Some(n) ==> n >= 0,
    ensures
        ({
            let line = live_content(s, mode, upto, max_line);
            let (text, thought) = (s.live.text, s.live.reasoning);
            &&& text.len() > 0 && (mode == Mode::Working || thought.len() == 0) ==> types_out(
                line,
                "💬 "@,
                text,
                upto,
                max_line,
            )
            &&& thought.len() > 0 && (mode == Mode::Thinking || text.len() == 0) ==> types_out(
                line,
                "🧠 "@,
                thought,
                upto,
                max_line,
            )
            &&& text.len() == 0 && thought.len() == 0 && mode == Mode::Thinking ==> line == "思考中…"@
        }),
{
    let line = live_content(s, mode, upto, max_line);
    lemma_typed("💬 "@, s.live.text, upto, max_line);
    lemma_typed("🧠 "@, s.live.reasoning, upto, max_line);
}

proof fn lemma_typed(mark: Seq<char>, s: Seq<char>, upto: Option<int>, max_line: int)
    requires
        max_line >= 0,
        upto matches Some(n) ==> n >= 0,
    ensures
        types_out(
            mark + (if upto matches Some(r) && r < s.len() {
                revealed(s, upto->0, max_line)
            } else {
                tail_of(s, max_line)
            }),
            mark,
            s,
            upto,
            max_line,
        ),
{
    let n = if upto is Some && upto->0 < s.len() {
        upto->0
    } else {
        s.len() as int
    };
    assert(s.take(s.len() as int) =~= s);
    lemma_end(s.take(n), max_line);
    let t = tail_of(s.take(n), max_line);
    assert(mark + t == mark + t);
}

/// A session at work that has streamed nothing shows its tool and the end of the
/// tool's arguments, or the tool alone where it has none, or only that it works.
pub proof fn law_tool_is_shown(s: InfoModel, upto: Option<int>, max_line: int)
    requires
        s.live.text.len() == 0,
        s.live.reasoning.len() == 0,
    ensures
        ({
            let line = live_content(s, Mode::Working, upto, max_line);
            let room = if max_line > 24 { max_line - 24 } else { 0 };
            &&& s.tool is None ==> line == "正在干活…"@
            &&& s.tool is Some && (s.tool_args is None || s.tool_args->0.len() == 0) ==> line == "⚙ 正在执行: "@
                + s.tool->0
            &&& s.tool is Some && s.tool_args is Some && s.tool_args->0.len() > 0 ==> exists|t: Seq<char>|
                line == #[trigger] ("⚙ "@ + s.tool->0 + ": "@ + t) && is_end(t, s.tool_args->0, room)
        }),
{
    let room = if max_line > 24 { max_line - 24 } else { 0 };
    if s.tool is Some && s.tool_args is Some && s.tool_args->0.len() > 0 {
        lemma_end(s.tool_args->0, room);
        let t = tail_of(s.tool_args->0, room);
        assert(live_content(s, Mode::Working, upto, max_line) == "⚙ "@ + s.tool->0 + ": "@ + t);
    }
}

/// The session belongs to the chosen source, or none is chosen.
pub open spec fn belongs(s: InfoModel, source: Option<Source>) -> bool {
    source is None || s.source == source->0
}

/// A session that is preferred is followed for as long as it is listed as working
/// or thinking, and belongs to the chosen source.
pub proof fn law_preferred_is_followed(
    snap: SnapModel,
    source: Option<Source>,
    mode: Mode,
    id: Seq<char>,
    i: int,
)
    requires
        mode == Mode::Working || mode == Mode::Thinking,
        0 <= i < snap.working.len() + snap.thinking.len(),
        (snap.working + snap.thinking)[i].session_id == id,
        belongs((snap.working + snap.thinking)[i], source),
        forall|j: int|
            0 <= j < i ==> (#[trigger] (snap.working + snap.thinking)[j]).session_id != id,
    ensures
        picked(snap, source, mode, Some(id)) == Some((snap.working + snap.thinking)[i]),
{
    let v = snap.working + snap.thinking;
    let p = |s: InfoModel| s.session_id == id && of_source(s, source);
    lemma_first_where(v, p);
    assert(p(v[i]));
    let s = first_where(v, p)->0;
    let k = choose|k: int|
        0 <= k < v.len() && #[trigger] v[k] == s && p(s) && forall|j: int| 0 <= j < k ==> !p(#[trigger] v[j]);
    if i < k {
        assert(!p(v[i]));
    }
    if k < i {
        assert(v[k].session_id != id);
    }
}

/// Since when a session has been at work; unknown counts as last.
pub open spec fn at_work_since(snap: SnapModel, s: InfoModel) -> int {
    if snap.working_since.contains_key(s.session_id) {
        snap.working_since[s.session_id] as int
    } else {
        u64::MAX as int
    }
}

/// Something of the session has streamed in.
pub open spec fn streams_in(s: InfoModel) -> bool {
    s.live.text.len() > 0 || s.live.reasoning.len() > 0
}

proof fn lemma_earliest(snap: SnapModel, v: Seq<InfoModel>)
    ensures
        earliest(snap, v) is None <==> v.len() == 0,
        earliest(snap, v) matches Some(s) ==> exists|i: int|
            #![trigger v[i]]
            0 <= i < v.len() && v[i] == s && (forall|j: int|
                0 <= j < v.len() ==> at_work_since(snap, s) <= at_work_since(snap, #[trigger] v[j])) && (forall|j: int|
                0 <= j < i ==> at_work_since(snap, s) < at_work_since(snap, #[trigger] v[j])),
    decreases v.len(),
{
    if v.len() > 0 {
        let t = v.drop_last();
        let last = v.len() - 1;
        lemma_earliest(snap, t);
        assert(v[last] == v.last());
        if earliest(snap, t) is Some {
            let b = earliest(snap, t)->0;
            let i = choose|i: int|
                #![trigger t[i]]
                0 <= i < t.len() && t[i] == b && (forall|j: int|
                    0 <= j < t.len() ==> at_work_since(snap, b) <= at_work_since(snap, #[trigger] t[j])) && (forall|
                    j: int,
                | 0 <= j < i ==> at_work_since(snap, b) < at_work_since(snap, #[trigger] t[j]));
            let s = earliest(snap, v)->0;
            assert forall|j: int| 0 <= j < v.len() implies at_work_since(snap, s) <= at_work_since(
                snap,
                #[trigger] v[j],
            ) by {
                if j < last {
                    assert(t[j] == v[j]);
                }
            }
            if at_work_since(snap, v.last()) < at_work_since(snap, b) {
                assert forall|j: int| 0 <= j < last implies at_work_since(snap, s) < at_work_since(
                    snap,
                    #[trigger] v[j],
                ) by {
                    assert(t[j] == v[j]);
                }
                assert(v[last] == s);
            } else {
                assert(v[i] == s);
                assert forall|j: int| 0 <= j < i implies at_work_since(snap, s) < at_work_since(
                    snap,
                    #[trigger] v[j],
                ) by {
                    assert(t[j] == v[j]);
                }
            }
        } else {
            assert(v[0] == v.last());
        }
    }
}

/// Of several sessions, the first that streams is followed; where none does, the
/// one that has been at work the longest; and of several such, the first.
pub proof fn law_best_is_followed(snap: SnapModel, v: Seq<InfoModel>)
    ensures
        best(snap, v) is None <==> v.len() == 0,
        best(snap, v) matches Some(s) ==> exists|i: int|
            #![trigger v[i]]
            {
                &&& 0 <= i < v.len()
                &&& v[i] == s
                &&& streams_in(s) ==> forall|j: int| 0 <= j < i ==> !streams_in(#[trigger] v[j])
                &&& !streams_in(s) ==> forall|j: int|
                    0 <= j < v.len() ==> !streams_in(#[trigger] v[j]) && at_work_since(snap, s) <= at_work_since(
                        snap,
                        v[j],
                    )
                &&& !streams_in(s) ==> forall|j: int|
                    0 <= j < i ==> at_work_since(snap, s) < at_work_since(snap, #[trigger] v[j])
            },
{
    let p = |s: InfoModel| has_stream(s);
    lemma_first_where(v, p);
    lemma_earliest(snap, v);
    let f = first_where(v, p);
    if f is Some {
        let s = f->0;
        let i = choose|i: int|
            0 <= i < v.len() && #[trigger] v[i] == s && p(s) && forall|j: int| 0 <= j < i ==> !p(#[trigger] v[j]);
        assert forall|j: int| 0 <= j < i implies !streams_in(#[trigger] v[j]) by {
            assert(!p(v[j]));
        }
        assert(v[i] == s && streams_in(s));
    } else if v.len() > 0 {
        assert forall|j: int| 0 <= j < v.len() implies !streams_in(#[trigger] v[j]) by {
            assert(!p(v[j]));
        }
        let s = earliest(snap, v)->0;
        let i = choose|i: int|
            #![trigger v[i]]
            0 <= i < v.len() && v[i] == s && (forall|j: int|
                0 <= j < v.len() ==> at_work_since(snap, s) <= at_work_since(snap, #[trigger] v[j])) && (forall|j: int|
                0 <= j < i ==> at_work_since(snap, s) < at_work_since(snap, #[trigger] v[j]));
        assert(!streams_in(v[i]));
    }
}

/// Without a preferred session the best of the sessions of the mode is followed
/// that belong to the chosen source.
pub proof fn law_follows_the_mode(snap: SnapModel, source: Option<Source>)
    ensures
        picked(snap, source, Mode::Working, None) == best(
            snap,
            snap.working.filter(|s: InfoModel| belongs(s, source)),
        ),
        picked(snap, source, Mode::Thinking, None) == best(
            snap,
            snap.thinking.filter(|s: InfoModel| belongs(s, source)),
        ),
        picked(snap, source, Mode::Idle, None) is None,
        picked(snap, source, Mode::Done, None) is None,
        picked(snap, source, Mode::Failed, None) is None,
{
    assert((|s: InfoModel| belongs(s, source)) =~= (|s: InfoModel| of_source(s, source)));
}

/// A preferred session that is no longer listed, or belongs to another source, is
/// given up for the one that would be followed without it.
pub proof fn law_lost_preference(snap: SnapModel, source: Option<Source>, mode: Mode, id: Seq<char>)
    requires
        forall|i: int|
            0 <= i < snap.working.len() + snap.thinking.len() ==> (#[trigger] (snap.working + snap.thinking)[i]).session_id
                != id || !belongs((snap.working + snap.thinking)[i], source),
    ensures
        picked(snap, source, mode, Some(id)) == picked(snap, source, mode, None),
{
    let v = snap.working + snap.thinking;
    let p = |s: InfoModel| s.session_id == id && of_source(s, source);
    lemma_first_where(v, p);
    assert forall|i: int| 0 <= i < v.len() implies !p(#[trigger] v[i]) by {
        assert(v[i].session_id != id || !belongs(v[i], source));
    }
}

/// The bubble turns to sessions of the chosen source that have something to show,
/// first to those of the mode itself.
pub proof fn law_candidates(snap: SnapModel, source: Option<Source>)
    ensures
        ({
            let p = |s: InfoModel| (streams_in(s) || s.tool is Some) && belongs(s, source);
            &&& candidates(snap, source, Mode::Working) == snap.working.filter(p) + snap.thinking.filter(p)
            &&& candidates(snap, source, Mode::Thinking) == snap.thinking.filter(p) + snap.working.filter(p)
            &&& candidates(snap, source, Mode::Done).len() == 0
            &&& candidates(snap, source, Mode::Idle).len() == 0
        }),
{
    let p = |s: InfoModel| (streams_in(s) || s.tool is Some) && belongs(s, source);
    let q = |s: InfoModel| (has_stream(s) || s.tool is Some) && of_source(s, source);
    assert(p =~= q);
    Seq::filter_distributes_over_add(snap.working, snap.thinking, q);
    Seq::filter_distributes_over_add(snap.thinking, snap.working, q);
}

/// The session that is shown stays while it is a candidate and something new
/// comes in; otherwise the best of the others is next, and it stays where there
/// is no other.
pub proof fn law_turns_to_another(
    snap: SnapModel,
    source: Option<Source>,
    mode: Mode,
    current: Option<Seq<char>>,
    stale: bool,
)
    ensures
        ({
            let c = candidates(snap, source, mode);
            let there = current is Some && exists|i: int| 0 <= i < c.len() && (#[trigger] c[i]).session_id == current->0;
            let others = c.filter(|s: InfoModel| s.session_id != current->0);
            let next = rotated(snap, source, mode, current, stale);
            &&& c.len() == 0 ==> next is None
            &&& c.len() > 0 && there && !stale ==> next == current
            &&& c.len() > 0 && there && stale && others.len() == 0 ==> next == current
            &&& c.len() > 0 && there && stale && others.len() > 0 ==> next is Some && best(snap, others) is Some && next
                == Some(best(snap, others)->0.session_id)
            &&& c.len() > 0 && !there ==> next is Some && best(snap, c) is Some && next == Some(
                best(snap, c)->0.session_id,
            )
        }),
{
    let c = candidates(snap, source, mode);
    law_best_is_followed(snap, c);
    law_best_is_followed(snap, c.filter(|s: InfoModel| s.session_id != current->0));
}

/// What is typed out is the stream of the session that is followed, of the kind
/// that the mode shows, in full length.
pub proof fn law_stream_that_is_typed(snap: SnapModel, source: Option<Source>, mode: Mode, prefer: Option<Seq<char>>)
    requires
        mode == Mode::Working || mode == Mode::Thinking,
    ensures
        ({
            let r = stream_of(snap, source, mode, prefer);
            let o = picked(snap, source, mode, prefer);
            let s = o->0;
            let (text, thought) = (s.live.text, s.live.reasoning);
            &&& o is None ==> r is None
            &&& o is Some && text.len() == 0 && thought.len() == 0 ==> r is None
            &&& o is Some && text.len() > 0 && (mode == Mode::Working || thought.len() == 0) ==> r == Some(
                StreamModel { session_id: s.session_id, kind: 1, len: text.len() as int },
            )
            &&& o is Some && thought.len() > 0 && (mode == Mode::Thinking || text.len() == 0) ==> r == Some(
                StreamModel { session_id: s.session_id, kind: 0, len: thought.len() as int },
            )
        }),
{
}

} // verus!
