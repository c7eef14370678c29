//! What a run without a window prints.

use vstd::prelude::*;
use vstd::string::*;

use crate::connectors::lua::{opt_len, reason_text, reason_word};
use crate::event::{items_of, EventModel, ItemModel, Labels, Mode, SessionItem, Source, StateEvent};
use crate::ordmap::ordered;
use crate::state::{infos_of, triples_of, InfoModel, SessionInfo, SnapModel, Snapshot};
use crate::text::{chars_of, code_of, decimal, decimal_of, joined, opt_text, own, string_of_range, texts};

verus! {

/// How `Option<String>` prints for debugging.
pub uninterp spec fn debug_of(o: Option<Seq<char>>) -> Seq<char>;

/// The `Debug` form of `Option<String>`, as `format!` makes it: `None`, or
/// `Some` with the text in quotes and escaped. What a text looks like is only
/// named.
#[verifier::external_body]
fn debug_text(o: &Option<String>) -> (r: String)
    ensures
        r@ == debug_of(opt_text(*o)),
        o is None ==> r@ == "None"@,
{
    format!("{:?}", o)
}

/// The first `n` characters of a text; dots stand for the others.
pub open spec fn shortened(s: Seq<char>, n: nat) -> Seq<char> {
    if s.len() <= n {
        s
    } else {
        s.take(n as int).push('…')
    }
}

/// The first `n` characters of a text; dots stand for the others.
pub fn truncate(s: &str, n: usize) -> (r: String)
    ensures
        r@ == shortened(s@, n as nat),
{
    let v = chars_of(s);
    if v.len() <= n {
        own(s)
    } else {
        let mut t = string_of_range(&v, 0, n);
        t.push('…');
        assert(t@ =~= s@.take(n as int).push('…'));
        t
    }
}

/// How many bytes a character takes in UTF-8.
pub open spec fn width(c: char) -> nat {
    if (c as u32) < 0x80 {
        1
    } else if (c as u32) < 0x800 {
        2
    } else if (c as u32) < 0x10000 {
        3
    } else {
        4
    }
}

/// The characters at the front of a text that fit into `n` bytes.
pub open spec fn head_within(s: Seq<char>, n: int) -> Seq<char>
    decreases s.len(),
{
    if s.len() == 0 || width(s[0]) > n {
        seq![]
    } else {
        seq![s[0]] + head_within(s.drop_first(), n - width(s[0]))
    }
}

/// How many bytes of a session's name are printed.
pub const ID_BYTES: usize = 12;

/// The front of a session's name.
pub open spec fn id_head(s: Seq<char>) -> Seq<char> {
    head_within(s, ID_BYTES as int)
}

fn id_front(s: &str) -> (r: String)
    ensures
        r@ == id_head(s@),
{
    let v = chars_of(s);
    let mut out = String::new();
    let mut room: usize = ID_BYTES;
    let mut i: usize = 0;
    let mut open = true;
    let n: usize = v.len();
    assert(s@.subrange(0, n as int) =~= s@);
    assert(out@ + head_within(s@.subrange(0, n as int), room as int) =~= id_head(s@));
    while i < n && open
        invariant
            n == v@.len(),
            v@ == s@,
            i <= n,
            room <= ID_BYTES,
            open ==> out@ + head_within(s@.subrange(i as int, n as int), room as int) == id_head(s@),
            !open ==> out@ == id_head(s@),
        decreases (if open { 1int } else { 0 }), n - i,
    {
        let c: char = v[i];
        let u: u32 = code_of(c);
        let w: usize = if u < 0x80 {
            1
        } else if u < 0x800 {
            2
        } else if u < 0x10000 {
            3
        } else {
            4
        };
        let ghost rest = s@.subrange(i as int, n as int);
        proof {
            assert(rest[0] == c);
            assert(rest.drop_first() =~= s@.subrange(i + 1, n as int));
        }
        if w > room {
            open = false;
            assert(out@ + head_within(rest, room as int) =~= out@);
        } else {
            let ghost was = out@;
            out.push(c);
            proof {
                assert(out@ + head_within(rest.drop_first(), room - w) =~= was + head_within(rest, room as int));
            }
            room = room - w;
            i += 1;
        }
    }
    proof {
        if open {
            assert(s@.subrange(i as int, n as int) =~= seq![]);
            assert(out@ + head_within(s@.subrange(i as int, n as int), room as int) =~= out@);
        }
    }
    out
}

/// How many sessions are running.
pub open spec fn running_in(v: Seq<ItemModel>) -> nat
    decreases v.len(),
{
    if v.len() == 0 {
        0
    } else {
        running_in(v.drop_last()) + (if v.last().running {
            1nat
        } else {
            0
        })
    }
}

fn count_running(v: &Vec<SessionItem>) -> (r: usize)
    ensures
        r == running_in(items_of(v@)),
{
    let n: usize = v.len();
    let ghost all = items_of(v@);
    let mut k: usize = 0;
    let mut i: usize = 0;
    assert(all.take(0) =~= seq![]);
    while i < n
        invariant
            n == v@.len(),
            all == items_of(v@),
            i <= n,
            k <= i,
            k == running_in(all.take(i as int)),
        decreases n - i,
    {
        proof {
            assert(all.take(i + 1).drop_last() =~= all.take(i as int));
            assert(all.take(i + 1).last() == v@[i as int]@);
        }
        if v[i].running {
            k += 1;
        }
        i += 1;
    }
    assert(all.take(n as int) =~= all);
    k
}

/// The line that traces an event, for those that have one.
pub open spec fn trace_of(ev: EventModel, names: Map<u16, Seq<char>>) -> Option<Seq<char>> {
    match ev {
        EventModel::LiveText { session_id, reasoning, text, .. } => Some(
            "[debug] LiveText "@ + id_head(session_id) + " reasoning+"@ + decimal(opt_len(reasoning)) + " text+"@
                + decimal(opt_len(text)),
        ),
        EventModel::TurnStarted { session_id, .. } => Some("[debug] TurnStarted "@ + id_head(session_id)),
        EventModel::TurnEnded { session_id, reason, .. } => Some(
            "[debug] TurnEnded "@ + reason_word(reason) + " "@ + id_head(session_id),
        ),
        EventModel::ToolStarted { session_id, name, .. } => Some(
            "[debug] ToolStarted "@ + id_head(session_id) + " "@ + name,
        ),
        EventModel::ToolEnded { session_id, name, .. } => Some(
            "[debug] ToolEnded "@ + id_head(session_id) + " "@ + name,
        ),
        EventModel::Poll { source, items, .. } => Some(
            "[debug] "@ + source.label_in(names) + " poll running="@ + decimal(running_in(items)) + " total="@
                + decimal(items.len()),
        ),
        _ => None,
    }
}

fn opt_chars(o: &Option<String>) -> (r: u128)
    ensures
        r == opt_len(opt_text(*o)),
{
    match o {
        Some(t) => chars_of(t.as_str()).len() as u128,
        None => 0,
    }
}

/// The line that traces an event, for those that have one.
pub fn trace_line(ev: &StateEvent, names: &Labels) -> (r: Option<String>)
    ensures
        opt_text(r) == trace_of(ev@, names@),
{
    match ev {
        StateEvent::LiveText { session_id, reasoning, text, .. } => {
            let mut s = own("[debug] LiveText ");
            s.append(id_front(session_id.as_str()).as_str());
            s.append(" reasoning+");
            s.append(decimal_of(opt_chars(reasoning)).as_str());
            s.append(" text+");
            s.append(decimal_of(opt_chars(text)).as_str());
            Some(s)
        },
        StateEvent::TurnStarted { session_id, .. } => Some(
            joined("[debug] TurnStarted ", id_front(session_id.as_str()).as_str()),
        ),
        StateEvent::TurnEnded { session_id, reason, .. } => {
            let mut s = own("[debug] TurnEnded ");
            s.append(reason_text(*reason));
            s.append(" ");
            s.append(id_front(session_id.as_str()).as_str());
            Some(s)
        },
        StateEvent::ToolStarted { session_id, name, .. } => {
            let mut s = own("[debug] ToolStarted ");
            s.append(id_front(session_id.as_str()).as_str());
            s.append(" ");
            s.append(name.as_str());
            Some(s)
        },
        StateEvent::ToolEnded { session_id, name, .. } => {
            let mut s = own("[debug] ToolEnded ");
            s.append(id_front(session_id.as_str()).as_str());
            s.append(" ");
            s.append(name.as_str());
            Some(s)
        },
        StateEvent::Poll { source, items, .. } => {
            let mut s = own("[debug] ");
            s.append(source.label(names).as_str());
            s.append(" poll running=");
            s.append(decimal_of(count_running(items) as u128).as_str());
            s.append(" total=");
            s.append(decimal_of(items.len() as u128).as_str());
            Some(s)
        },
        _ => None,
    }
}

/// The name of a mode.
pub open spec fn mode_name(m: Mode) -> Seq<char> {
    match m {
        Mode::Offline => "Offline"@,
        Mode::Attention => "Attention"@,
        Mode::Failed => "Failed"@,
        Mode::Working => "Working"@,
        Mode::Thinking => "Thinking"@,
        Mode::Done => "Done"@,
        Mode::Idle => "Idle"@,
        Mode::Move => "Move"@,
    }
}

fn name_of(m: Mode) -> (r: &'static str)
    ensures
        r@ == mode_name(m),
{
    match m {
        Mode::Offline => "Offline",
        Mode::Attention => "Attention",
        Mode::Failed => "Failed",
        Mode::Working => "Working",
        Mode::Thinking => "Thinking",
        Mode::Done => "Done",
        Mode::Idle => "Idle",
        Mode::Move => "Move",
    }
}

/// How many of some sources are scripts.
pub open spec fn scripts_in(ks: Seq<Source>) -> nat
    decreases ks.len(),
{
    if ks.len() == 0 {
        0
    } else {
        scripts_in(ks.drop_last()) + (if ks.last() is Script {
            1nat
        } else {
            0
        })
    }
}

/// How much of a stream is printed, in characters.
pub const STREAM_CHARS: usize = 120;

/// The lines for a session that is at work.
pub open spec fn working_lines(w: InfoModel, names: Map<u16, Seq<char>>) -> Seq<Seq<char>> {
    let first = seq![
        "  working: ["@ + w.source.label_in(names) + "] "@ + w.title + " tool="@ + debug_of(w.tool),
    ];
    let second = if w.live.reasoning.len() > 0 {
        first.push("    thinking: "@ + shortened(w.live.reasoning, STREAM_CHARS as nat))
    } else {
        first
    };
    if w.live.text.len() > 0 {
        second.push("    text: "@ + shortened(w.live.text, STREAM_CHARS as nat))
    } else {
        second
    }
}

/// The line for another session.
pub open spec fn info_line(mark: Seq<char>, w: InfoModel, names: Map<u16, Seq<char>>) -> Seq<char> {
    mark + w.source.label_in(names) + "] "@ + w.title
}

/// The lines for the sessions that are at work.
pub open spec fn all_working(v: Seq<InfoModel>, names: Map<u16, Seq<char>>) -> Seq<Seq<char>>
    decreases v.len(),
{
    if v.len() == 0 {
        seq![]
    } else {
        all_working(v.drop_last(), names) + working_lines(v.last(), names)
    }
}

/// The lines for some other sessions.
pub open spec fn info_lines(mark: Seq<char>, v: Seq<InfoModel>, names: Map<u16, Seq<char>>) -> Seq<Seq<char>> {
    v.map_values(|w: InfoModel| info_line(mark, w, names))
}

/// The lines for what waits for an answer: the session, and what is asked.
pub open spec fn ask_lines(
    mark: Seq<char>,
    link: Seq<char>,
    v: Seq<(Seq<char>, Seq<char>, Seq<char>)>,
) -> Seq<Seq<char>> {
    v.map_values(|t: (Seq<char>, Seq<char>, Seq<char>)| mark + t.0 + link + t.1)
}

/// The first lines: the mode, and how much is queued.
pub open spec fn head_lines(s: SnapModel) -> Seq<Seq<char>> {
    let first = seq![
        "=== MODE "@ + mode_name(s.mode) + " (scripts="@ + decimal(scripts_in(ordered::<Source>(s.sources.dom())))
            + ") ==="@,
    ];
    if s.queue_len > 0 {
        first.push("  queue: "@ + decimal(s.queue_len as nat) + " pending"@)
    } else {
        first
    }
}

/// What is printed of a state.
pub open spec fn report_of(s: SnapModel) -> Seq<Seq<char>> {
    head_lines(s) + all_working(s.working, s.labels) + info_lines("  thinking: ["@, s.thinking, s.labels) + info_lines(
        "  done: ["@,
        s.done,
        s.labels,
    ) + info_lines("  failed: ["@, s.failed, s.labels) + ask_lines(
        "  approval: session "@,
        " tool "@,
        s.pending_approvals,
    ) + ask_lines("  question: session "@, ": "@, s.pending_questions)
}

fn count_scripts(s: &Snapshot) -> (r: usize)
    ensures
        r == scripts_in(ordered::<Source>(s.sources@.dom())),
{
    let n: usize = s.sources.len();
    let ghost ks = ordered::<Source>(s.sources@.dom());
    let mut k: usize = 0;
    let mut i: usize = 0;
    assert(ks.take(0) =~= seq![]);
    while i < n
        invariant
            n == s.sources@.dom().len() == ks.len(),
            ks == ordered::<Source>(s.sources@.dom()),
            i <= n,
            k <= i,
            k == scripts_in(ks.take(i as int)),
        decreases n - i,
    {
        proof {
            assert(ks.take(i + 1).drop_last() =~= ks.take(i as int));
            assert(ks.take(i + 1).last() == ks[i as int]);
        }
        let src = s.sources.key_at(i);
        if matches!(src, Source::Script(_)) {
            k += 1;
        }
        i += 1;
    }
    assert(ks.take(n as int) =~= ks);
    k
}

fn add_line(out: &mut Vec<String>, line: String)
    ensures
        texts(final(out)@) == texts(old(out)@).push(line@),
{
    let ghost was = out@;
    out.push(line);
    assert(texts(out@) =~= texts(was).push(line@));
}

fn add_working(out: &mut Vec<String>, w: &SessionInfo, names: &Labels)
    ensures
        texts(final(out)@) == texts(old(out)@) + working_lines(w@, names@),
{
    let ghost before = texts(out@);
    let mut a = own("  working: [");
    a.append(w.source.label(names).as_str());
    a.append("] ");
    a.append(w.title.as_str());
    a.append(" tool=");
    a.append(debug_text(&w.tool).as_str());
    add_line(out, a);
    if !w.live.reasoning.as_str().is_empty() {
        add_line(out, joined("    thinking: ", truncate(w.live.reasoning.as_str(), STREAM_CHARS).as_str()));
    }
    if !w.live.text.as_str().is_empty() {
        add_line(out, joined("    text: ", truncate(w.live.text.as_str(), STREAM_CHARS).as_str()));
    }
    assert(texts(out@) =~= before + working_lines(w@, names@));
}

fn add_infos(out: &mut Vec<String>, mark: &str, v: &Vec<SessionInfo>, names: &Labels)
    ensures
        texts(final(out)@) == texts(old(out)@) + info_lines(mark@, infos_of(v@), names@),
{
    let n: usize = v.len();
    let ghost before = texts(out@);
    let ghost goal = info_lines(mark@, infos_of(v@), names@);
    let mut i: usize = 0;
    assert(texts(out@) =~= before + goal.take(0));
    while i < n
        invariant
            n == v@.len() == goal.len(),
            goal == info_lines(mark@, infos_of(v@), names@),
            i <= n,
            texts(out@) == before + goal.take(i as int),
        decreases n - i,
    {
        let mut a = own(mark);
        a.append(v[i].source.label(names).as_str());
        a.append("] ");
        a.append(v[i].title.as_str());
        assert(goal[i as int] == a@) by {
            assert(infos_of(v@)[i as int] == v@[i as int]@);
        }
        add_line(out, a);
        assert(before + goal.take(i + 1) =~= (before + goal.take(i as int)).push(goal[i as int]));
        i += 1;
    }
    assert(goal.take(n as int) =~= goal);
}

fn add_asks(out: &mut Vec<String>, mark: &str, link: &str, v: &Vec<(String, String, String)>)
    ensures
        texts(final(out)@) == texts(old(out)@) + ask_lines(mark@, link@, triples_of(v@)),
{
    let n: usize = v.len();
    let ghost before = texts(out@);
    let ghost goal = ask_lines(mark@, link@, triples_of(v@));
    let mut i: usize = 0;
    assert(texts(out@) =~= before + goal.take(0));
    while i < n
        invariant
            n == v@.len() == goal.len(),
            goal == ask_lines(mark@, link@, triples_of(v@)),
            i <= n,
            texts(out@) == before + goal.take(i as int),
        decreases n - i,
    {
        let mut a = own(mark);
        a.append(v[i].0.as_str());
        a.append(link);
        a.append(v[i].1.as_str());
        assert(goal[i as int] == a@) by {
            assert(triples_of(v@)[i as int] == (v@[i as int].0@, v@[i as int].1@, v@[i as int].2@));
        }
        add_line(out, a);
        assert(before + goal.take(i + 1) =~= (before + goal.take(i as int)).push(goal[i as int]));
        i += 1;
    }
    assert(goal.take(n as int) =~= goal);
}

/// What is printed of a state.
pub fn snapshot_lines(s: &Snapshot) -> (r: Vec<String>)
    ensures
        texts(r@) == report_of(s@),
{
    let mut out: Vec<String> = Vec::new();
    let mut a = own("=== MODE ");
    a.append(name_of(s.mode));
    a.append(" (scripts=");
    a.append(decimal_of(count_scripts(s) as u128).as_str());
    a.append(") ===");
    add_line(&mut out, a);
    if s.queue_len > 0 {
        let mut q = own("  queue: ");
        q.append(decimal_of(s.queue_len as u128).as_str());
        q.append(" pending");
        add_line(&mut out, q);
    }
    assert(texts(out@) =~= head_lines(s@));
    let ghost head = texts(out@);
    let n: usize = s.working.len();
    let ghost all = infos_of(s.working@);
    let mut i: usize = 0;
    assert(all.take(0) =~= seq![]);
    assert(head + all_working(all.take(0), s.labels@) =~= head);
    while i < n
        invariant
            n == s.working@.len(),
            all == infos_of(s.working@),
            i <= n,
            texts(out@) == head + all_working(all.take(i as int), s.labels@),
        decreases n - i,
    {
        proof {
            assert(all.take(i + 1).drop_last() =~= all.take(i as int));
            assert(all.take(i + 1).last() == s.working@[i as int]@);
        }
        let ghost was = texts(out@);
        add_working(&mut out, &s.working[i], &s.labels);
        assert(texts(out@) =~= head + all_working(all.take(i + 1), s.labels@));
        i += 1;
    }
    assert(all.take(n as int) =~= all);
    add_infos(&mut out, "  thinking: [", &s.thinking, &s.labels);
    add_infos(&mut out, "  done: [", &s.done, &s.labels);
    add_infos(&mut out, "  failed: [", &s.failed, &s.labels);
    add_asks(&mut out, "  approval: session ", " tool ", &s.pending_approvals);
    add_asks(&mut out, "  question: session ", ": ", &s.pending_questions);
    out
}

} // verus!
