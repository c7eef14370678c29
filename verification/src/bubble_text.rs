//! What the speech bubble says: the wording of each mode, which session it
//! follows, and how much of a stream it has revealed.

use vstd::prelude::*;
use vstd::string::*;

use crate::state::{
    infos_of, InfoModel, Mode, SessionInfo, SnapModel, Snapshot, Source,
};
use crate::text::{
    chars_of, decimal, decimal_of, head_of, opt_text, own, same_text, string_of_range, texts, trim, trimmed,
    truncate_chars,
};

verus! {

/// Longest line, in characters.
pub const MAX_LINE: usize = 120;

/// How long a message may stand unchanged before the bubble moves on.
pub const ROTATE_AFTER_MS: u64 = 5000;

/// Longest task or session label.
pub const LABEL_CHARS: usize = 24;

/// What the bubble shows: a header row and the lines below it.
#[derive(Debug, Clone, PartialEq, Eq)]
pub struct BubbleText {
    /// Header title.
    pub title: String,
    /// Name of the client behind the content.
    pub from: Option<String>,
    /// Lines below the header.
    pub lines: Vec<String>,
}

/// Model of a [`BubbleText`].
pub struct BubbleModel {
    pub title: Seq<char>,
    pub from: Option<Seq<char>>,
    pub lines: Seq<Seq<char>>,
}

impl View for BubbleText {
    type V = BubbleModel;

    open spec fn view(&self) -> BubbleModel {
        BubbleModel { title: self.title@, from: opt_text(self.from), lines: texts(self.lines@) }
    }
}

impl BubbleModel {
    /// Nothing to show.
    pub open spec fn empty() -> BubbleModel {
        BubbleModel { title: Seq::empty(), from: None, lines: Seq::empty() }
    }
}

impl Default for BubbleText {
    fn default() -> (r: Self)
        ensures
            r@ == BubbleModel::empty(),
    {
        let r = BubbleText { title: String::new(), from: None, lines: Vec::new() };
        assert(texts(r.lines@) =~= Seq::<Seq<char>>::empty());
        r
    }
}

/// `s` when it has at most `n` characters, otherwise an ellipsis followed by
/// its last `n` characters.
pub open spec fn tail_of(s: Seq<char>, n: int) -> Seq<char> {
    if s.len() <= n {
        s
    } else {
        seq!['…'] + s.subrange(s.len() - n, s.len() as int)
    }
}

fn ellipsis_and(v: &Vec<char>, from: usize, to: usize) -> (r: String)
    requires
        from <= to <= v@.len(),
    ensures
        r@ == seq!['…'] + v@.subrange(from as int, to as int),
{
    let mut t = String::new();
    t.push('…');
    let rest = string_of_range(v, from, to);
    t.append(rest.as_str());
    assert(t@ =~= seq!['…'] + v@.subrange(from as int, to as int));
    t
}

/// Shortens a growing text from the front, so that its newest part shows.
fn truncate_tail(s: &str, n: usize) -> (r: String)
    ensures
        r@ == tail_of(s@, n as int),
{
    let v = chars_of(s);
    if v.len() <= n {
        own(s)
    } else {
        ellipsis_and(&v, v.len() - n, v.len())
    }
}

/// The session belongs to the chosen source, if one is chosen.
pub open spec fn of_source(s: InfoModel, source: Option<Source>) -> bool {
    source matches Some(x) ==> s.source == x
}

/// Something has streamed in.
pub open spec fn has_stream(s: InfoModel) -> bool {
    s.live.text.len() > 0 || s.live.reasoning.len() > 0
}

/// The first element that satisfies `p`.
pub open spec fn first_where(v: Seq<InfoModel>, p: spec_fn(InfoModel) -> bool) -> Option<InfoModel>
    decreases v.len(),
{
    if v.len() == 0 {
        None
    } else if p(v[0]) {
        Some(v[0])
    } else {
        first_where(v.drop_first(), p)
    }
}

/// Since when the session has been at work; as late as can be when unknown.
pub open spec fn since(snap: SnapModel, s: InfoModel) -> u64 {
    if snap.working_since.contains_key(s.session_id) {
        snap.working_since[s.session_id]
    } else {
        u64::MAX
    }
}

/// The session that started work first; the first of them in the list.
pub open spec fn earliest(snap: SnapModel, v: Seq<InfoModel>) -> Option<InfoModel>
    decreases v.len(),
{
    if v.len() == 0 {
        None
    } else {
        match earliest(snap, v.drop_last()) {
            None => Some(v.last()),
            Some(b) => if since(snap, v.last()) < since(snap, b) {
                Some(v.last())
            } else {
                Some(b)
            },
        }
    }
}

/// The first session with a stream, else the one that started work first.
pub open spec fn best(snap: SnapModel, v: Seq<InfoModel>) -> Option<InfoModel> {
    match first_where(v, |s: InfoModel| has_stream(s)) {
        Some(s) => Some(s),
        None => earliest(snap, v),
    }
}

/// The session that the bubble follows. A preferred session is honoured while
/// it is listed as working or thinking.
pub open spec fn picked(snap: SnapModel, source: Option<Source>, mode: Mode, prefer: Option<Seq<char>>) -> Option<
    InfoModel,
> {
    let pinned = match prefer {
        Some(p) => first_where(
            snap.working + snap.thinking,
            |s: InfoModel| s.session_id == p && of_source(s, source),
        ),
        None => None,
    };
    let by_source = |s: InfoModel| of_source(s, source);
    match mode {
        Mode::Working => if pinned is Some {
            pinned
        } else {
            best(snap, snap.working.filter(by_source))
        },
        Mode::Thinking => if pinned is Some {
            pinned
        } else {
            best(snap, snap.thinking.filter(by_source))
        },
        _ => None,
    }
}

/// Model of a list of borrowed session infos.
pub open spec fn refs_of(v: Seq<&SessionInfo>) -> Seq<InfoModel> {
    v.map_values(|s: &SessionInfo| s@)
}

/// Model of an optional borrowed session info.
pub open spec fn opt_info(o: Option<&SessionInfo>) -> Option<InfoModel> {
    match o {
        Some(s) => Some(s@),
        None => None,
    }
}

fn is_of_source(s: &SessionInfo, source: Option<Source>) -> (r: bool)
    ensures
        r == of_source(s@, source),
{
    match source {
        Some(x) => s.source == x,
        None => true,
    }
}

fn streams(s: &SessionInfo) -> (r: bool)
    ensures
        r == has_stream(s@),
{
    !s.live.text.as_str().is_empty() || !s.live.reasoning.as_str().is_empty()
}

fn since_of(snap: &Snapshot, s: &SessionInfo) -> (r: u64)
    ensures
        r == since(snap@, s@),
{
    match snap.working_since.get(&s.session_id) {
        Some(t) => *t,
        None => u64::MAX,
    }
}

/// The first session with a stream, else the one that started work first.
fn best_of<'a>(v: &Vec<&'a SessionInfo>, snap: &Snapshot) -> (r: Option<&'a SessionInfo>)
    ensures
        opt_info(r) == best(snap@, refs_of(v@)),
{
    let ghost m = refs_of(v@);
    let ghost p = |s: InfoModel| has_stream(s);
    let mut i: usize = 0;
    assert(m.subrange(0, m.len() as int) =~= m);
    while i < v.len()
        invariant
            i <= v@.len(),
            m == refs_of(v@),
            p == (|s: InfoModel| has_stream(s)),
            first_where(m, p) == first_where(m.subrange(i as int, m.len() as int), p),
        decreases v@.len() - i,
    {
        proof {
            let t = m.subrange(i as int, m.len() as int);
            assert(t[0] == v@[i as int]@);
            assert(t.drop_first() =~= m.subrange(i as int + 1, m.len() as int));
        }
        if streams(v[i]) {
            return Some(v[i]);
        }
        i += 1;
    }
    assert(first_where(m, p) is None);
    let mut found: Option<&'a SessionInfo> = None;
    let mut j: usize = 0;
    while j < v.len()
        invariant
            j <= v@.len(),
            m == refs_of(v@),
            opt_info(found) == earliest(snap@, m.take(j as int)),
        decreases v@.len() - j,
    {
        proof {
            assert(m.take(j as int + 1).drop_last() =~= m.take(j as int));
            assert(m.take(j as int + 1).last() == v@[j as int]@);
        }
        let s: &'a SessionInfo = v[j];
        match found {
            None => {
                found = Some(s);
            },
            Some(b) => {
                if since_of(snap, s) < since_of(snap, b) {
                    found = Some(s);
                }
            },
        }
        j += 1;
    }
    assert(m.take(j as int) =~= m);
    found
}

/// The sessions of `source` in a list.
fn only_source<'a>(v: &'a Vec<SessionInfo>, source: Option<Source>) -> (r: Vec<&'a SessionInfo>)
    ensures
        refs_of(r@) == infos_of(v@).filter(|s: InfoModel| of_source(s, source)),
{
    let ghost m = infos_of(v@);
    let ghost p = |s: InfoModel| of_source(s, source);
    let mut out: Vec<&'a SessionInfo> = Vec::new();
    let mut i: usize = 0;
    proof {
        reveal(Seq::filter);
        assert(m.take(0).filter(p) =~= Seq::<InfoModel>::empty());
        assert(refs_of(out@) =~= Seq::<InfoModel>::empty());
    }
    while i < v.len()
        invariant
            i <= v@.len(),
            m == infos_of(v@),
            p == (|s: InfoModel| of_source(s, source)),
            refs_of(out@) == m.take(i as int).filter(p),
        decreases v@.len() - i,
    {
        proof {
            reveal(Seq::filter);
            assert(m.take(i as int + 1).drop_last() =~= m.take(i as int));
            assert(m.take(i as int + 1).last() == v@[i as int]@);
        }
        let s: &'a SessionInfo = &v[i];
        let ghost before = out@;
        if is_of_source(s, source) {
            out.push(s);
            assert(refs_of(out@) =~= refs_of(before).push(s@));
        }
        i += 1;
    }
    assert(m.take(i as int) =~= m);
    out
}

/// The first session with id `p` of `source` in two lists, one after the other.
fn find_pinned<'a>(
    a: &'a Vec<SessionInfo>,
    b: &'a Vec<SessionInfo>,
    source: Option<Source>,
    p: &str,
) -> (r: Option<&'a SessionInfo>)
    ensures
        opt_info(r) == first_where(
            infos_of(a@) + infos_of(b@),
            |s: InfoModel| s.session_id == p@ && of_source(s, source),
        ),
{
    let ghost m = infos_of(a@) + infos_of(b@);
    let ghost q = |s: InfoModel| s.session_id == p@ && of_source(s, source);
    let n: usize = a.len();
    let k: usize = b.len();
    let mut i: usize = 0;
    assert(m.subrange(0, m.len() as int) =~= m);
    while i < n
        invariant
            i <= n == a@.len(),
            k == b@.len(),
            m == infos_of(a@) + infos_of(b@),
            q == (|s: InfoModel| s.session_id == p@ && of_source(s, source)),
            first_where(m, q) == first_where(m.subrange(i as int, m.len() as int), q),
        decreases n - i,
    {
        proof {
            let t = m.subrange(i as int, m.len() as int);
            assert(t[0] == a@[i as int]@);
            assert(t.drop_first() =~= m.subrange(i as int + 1, m.len() as int));
        }
        if same_text(a[i].session_id.as_str(), p) && is_of_source(&a[i], source) {
            return Some(&a[i]);
        }
        i += 1;
    }
    let mut j: usize = 0;
    while j < k
        invariant
            j <= k == b@.len(),
            n == a@.len(),
            m == infos_of(a@) + infos_of(b@),
            q == (|s: InfoModel| s.session_id == p@ && of_source(s, source)),
            first_where(m, q) == first_where(m.subrange(n + j, m.len() as int), q),
        decreases k - j,
    {
        proof {
            let t = m.subrange(n + j, m.len() as int);
            assert(t[0] == b@[j as int]@);
            assert(t.drop_first() =~= m.subrange(n + j + 1, m.len() as int));
        }
        if same_text(b[j].session_id.as_str(), p) && is_of_source(&b[j], source) {
            return Some(&b[j]);
        }
        j += 1;
    }
    None
}

/// The session that the bubble follows.
fn pick_session<'a>(snap: &'a Snapshot, source: Option<Source>, mode: Mode, prefer: Option<&str>) -> (r: Option<
    &'a SessionInfo,
>)
    ensures
        opt_info(r) == picked(snap@, source, mode, opt_str(prefer)),
{
    match mode {
        Mode::Working => {
            if let Some(p) = prefer {
                if let Some(s) = find_pinned(&snap.working, &snap.thinking, source, p) {
                    return Some(s);
                }
            }
            let v = only_source(&snap.working, source);
            best_of(&v, snap)
        },
        Mode::Thinking => {
            if let Some(p) = prefer {
                if let Some(s) = find_pinned(&snap.working, &snap.thinking, source, p) {
                    return Some(s);
                }
            }
            let v = only_source(&snap.thinking, source);
            best_of(&v, snap)
        },
        _ => None,
    }
}

/// Model of an optional borrowed text.
pub open spec fn opt_str(o: Option<&str>) -> Option<Seq<char>> {
    match o {
        Some(s) => Some(s@),
        None => None,
    }
}

/// Sessions with something to show, those of the mode's own list first.
pub open spec fn candidates(snap: SnapModel, source: Option<Source>, mode: Mode) -> Seq<InfoModel> {
    let p = |s: InfoModel| (has_stream(s) || s.tool is Some) && of_source(s, source);
    match mode {
        Mode::Working => (snap.working + snap.thinking).filter(p),
        Mode::Thinking => (snap.thinking + snap.working).filter(p),
        _ => Seq::empty(),
    }
}

fn push_candidates<'a>(
    out: &mut Vec<&'a SessionInfo>,
    v: &'a Vec<SessionInfo>,
    source: Option<Source>,
    Ghost(before): Ghost<Seq<InfoModel>>,
)
    requires
        refs_of(old(out)@) == before.filter(|s: InfoModel| (has_stream(s) || s.tool is Some) && of_source(s, source)),
    ensures
        refs_of(final(out)@) == (before + infos_of(v@)).filter(
            |s: InfoModel| (has_stream(s) || s.tool is Some) && of_source(s, source),
        ),
{
    let ghost m = infos_of(v@);
    let ghost p = |s: InfoModel| (has_stream(s) || s.tool is Some) && of_source(s, source);
    let mut i: usize = 0;
    assert(before + m.take(0) =~= before);
    while i < v.len()
        invariant
            i <= v@.len(),
            m == infos_of(v@),
            p == (|s: InfoModel| (has_stream(s) || s.tool is Some) && of_source(s, source)),
            refs_of(out@) == (before + m.take(i as int)).filter(p),
        decreases v@.len() - i,
    {
        let s: &'a SessionInfo = &v[i];
        proof {
            reveal(Seq::filter);
            let t = before + m.take(i as int + 1);
            assert(t.drop_last() =~= before + m.take(i as int));
            assert(t.last() == s@);
        }
        let ghost old_out = out@;
        if (streams(s) || s.tool.is_some()) && is_of_source(s, source) {
            out.push(s);
            assert(refs_of(out@) =~= refs_of(old_out).push(s@));
        }
        i += 1;
    }
    assert(m.take(i as int) =~= m);
}

/// Sessions with something to show.
fn rotation_candidates<'a>(snap: &'a Snapshot, source: Option<Source>, mode: Mode) -> (r: Vec<&'a SessionInfo>)
    ensures
        refs_of(r@) == candidates(snap@, source, mode),
{
    let mut out: Vec<&'a SessionInfo> = Vec::new();
    proof {
        reveal(Seq::filter);
        let p = |s: InfoModel| (has_stream(s) || s.tool is Some) && of_source(s, source);
        assert(refs_of(out@) =~= Seq::<InfoModel>::empty());
        assert(Seq::<InfoModel>::empty().filter(p) =~= Seq::<InfoModel>::empty());
    }
    match mode {
        Mode::Working => {
            push_candidates(&mut out, &snap.working, source, Ghost(Seq::empty()));
            assert(Seq::<InfoModel>::empty() + snap@.working =~= snap@.working);
            push_candidates(&mut out, &snap.thinking, source, Ghost(snap@.working));
        },
        Mode::Thinking => {
            push_candidates(&mut out, &snap.thinking, source, Ghost(Seq::empty()));
            assert(Seq::<InfoModel>::empty() + snap@.thinking =~= snap@.thinking);
            push_candidates(&mut out, &snap.working, source, Ghost(snap@.thinking));
        },
        _ => {},
    }
    out
}

/// The list holds a session with this id.
pub open spec fn has_id(v: Seq<InfoModel>, id: Seq<char>) -> bool {
    exists|i: int| 0 <= i < v.len() && (#[trigger] v[i]).session_id == id
}

/// The id of an optional session.
pub open spec fn id_of(o: Option<InfoModel>) -> Option<Seq<char>> {
    match o {
        Some(s) => Some(s.session_id),
        None => None,
    }
}

/// The session to show next: the current one while it is a candidate and
/// fresh; once it is stale, the best of the others, if there is one.
pub open spec fn rotated(
    snap: SnapModel,
    source: Option<Source>,
    mode: Mode,
    current: Option<Seq<char>>,
    stale: bool,
) -> Option<Seq<char>> {
    let c = candidates(snap, source, mode);
    if c.len() == 0 {
        None
    } else if !(current matches Some(id) && has_id(c, id)) {
        id_of(best(snap, c))
    } else if !stale {
        current
    } else {
        let others = c.filter(|s: InfoModel| s.session_id != current->0);
        if others.len() == 0 {
            current
        } else {
            id_of(best(snap, others))
        }
    }
}

fn contains_id(v: &Vec<&SessionInfo>, id: &str) -> (r: bool)
    ensures
        r == has_id(refs_of(v@), id@),
{
    let ghost m = refs_of(v@);
    let mut i: usize = 0;
    while i < v.len()
        invariant
            i <= v@.len(),
            m == refs_of(v@),
            forall|j: int| 0 <= j < i ==> (#[trigger] m[j]).session_id != id@,
        decreases v@.len() - i,
    {
        assert(m[i as int] == v@[i as int]@);
        if same_text(v[i].session_id.as_str(), id) {
            return true;
        }
        i += 1;
    }
    false
}

fn without_id<'a>(v: &Vec<&'a SessionInfo>, id: &str) -> (r: Vec<&'a SessionInfo>)
    ensures
        refs_of(r@) == refs_of(v@).filter(|s: InfoModel| s.session_id != id@),
{
    let ghost m = refs_of(v@);
    let ghost p = |s: InfoModel| s.session_id != id@;
    let mut out: Vec<&'a SessionInfo> = Vec::new();
    let mut i: usize = 0;
    proof {
        reveal(Seq::filter);
        assert(refs_of(out@) =~= Seq::<InfoModel>::empty());
        assert(m.take(0).filter(p) =~= Seq::<InfoModel>::empty());
    }
    while i < v.len()
        invariant
            i <= v@.len(),
            m == refs_of(v@),
            p == (|s: InfoModel| s.session_id != id@),
            refs_of(out@) == m.take(i as int).filter(p),
        decreases v@.len() - i,
    {
        let s: &'a SessionInfo = v[i];
        proof {
            reveal(Seq::filter);
            assert(m.take(i as int + 1).drop_last() =~= m.take(i as int));
            assert(m.take(i as int + 1).last() == s@);
        }
        let ghost before = out@;
        if !same_text(s.session_id.as_str(), id) {
            out.push(s);
            assert(refs_of(out@) =~= refs_of(before).push(s@));
        }
        i += 1;
    }
    assert(m.take(i as int) =~= m);
    out
}

fn id_string(o: Option<&SessionInfo>) -> (r: Option<String>)
    ensures
        opt_text(r) == id_of(opt_info(o)),
{
    match o {
        Some(s) => Some(s.session_id.clone()),
        None => None,
    }
}

/// The session to show next.
pub fn rotate_pick(
    snap: &Snapshot,
    source: Option<Source>,
    mode: Mode,
    current: Option<&str>,
    stale: bool,
) -> (r: Option<String>)
    ensures
        opt_text(r) == rotated(snap@, source, mode, opt_str(current), stale),
{
    let cands = rotation_candidates(snap, source, mode);
    assert(refs_of(cands@).len() == cands@.len());
    if cands.len() == 0 {
        return None;
    }
    match current {
        Some(c) => {
            if !contains_id(&cands, c) {
                return id_string(best_of(&cands, snap));
            }
            if !stale {
                return Some(own(c));
            }
            let others = without_id(&cands, c);
            assert(refs_of(others@).len() == others@.len());
            if others.len() == 0 {
                return Some(own(c));
            }
            id_string(best_of(&others, snap))
        },
        None => id_string(best_of(&cands, snap)),
    }
}

/// The stream that the bubble types out.
pub struct LiveStream {
    pub session_id: String,
    /// 0 for reasoning, 1 for text.
    pub kind: u8,
    /// Characters streamed so far.
    pub len: usize,
}

/// Model of a [`LiveStream`].
pub struct StreamModel {
    pub session_id: Seq<char>,
    pub kind: u8,
    pub len: int,
}

impl View for LiveStream {
    type V = StreamModel;

    open spec fn view(&self) -> StreamModel {
        StreamModel { session_id: self.session_id@, kind: self.kind, len: self.len as int }
    }
}

/// The stream of a session that shows: working shows text first, thinking
/// reasoning first. The flag tells text from reasoning.
pub open spec fn shown_stream(s: InfoModel, prefer_text: bool) -> Option<(bool, Seq<char>)> {
    if !has_stream(s) {
        None
    } else if prefer_text {
        if s.live.text.len() > 0 {
            Some((true, s.live.text))
        } else {
            Some((false, s.live.reasoning))
        }
    } else {
        if s.live.reasoning.len() > 0 {
            Some((false, s.live.reasoning))
        } else {
            Some((true, s.live.text))
        }
    }
}

/// The stream that the bubble types out.
pub open spec fn stream_of(snap: SnapModel, source: Option<Source>, mode: Mode, prefer: Option<Seq<char>>) -> Option<
    StreamModel,
> {
    match picked(snap, source, mode, prefer) {
        None => None,
        Some(s) => match shown_stream(s, mode == Mode::Working) {
            None => None,
            Some(x) => Some(
                StreamModel {
                    session_id: s.session_id,
                    kind: if x.0 {
                        1
                    } else {
                        0
                    },
                    len: x.1.len() as int,
                },
            ),
        },
    }
}

/// The stream of a session that shows.
fn stream_shown<'a>(w: &'a SessionInfo, prefer_text: bool) -> (r: Option<(bool, &'a str)>)
    ensures
        match r {
            Some(x) => shown_stream(w@, prefer_text) == Some((x.0, x.1@)),
            None => shown_stream(w@, prefer_text) is None,
        },
{
    if !streams(w) {
        return None;
    }
    if prefer_text {
        if !w.live.text.as_str().is_empty() {
            Some((true, w.live.text.as_str()))
        } else {
            Some((false, w.live.reasoning.as_str()))
        }
    } else {
        if !w.live.reasoning.as_str().is_empty() {
            Some((false, w.live.reasoning.as_str()))
        } else {
            Some((true, w.live.text.as_str()))
        }
    }
}

/// The stream that the bubble types out.
pub fn live_stream_pinned(
    snap: &Snapshot,
    source: Option<Source>,
    mode: Mode,
    prefer: Option<&str>,
) -> (r: Option<LiveStream>)
    ensures
        match r {
            Some(x) => stream_of(snap@, source, mode, opt_str(prefer)) == Some(x@),
            None => stream_of(snap@, source, mode, opt_str(prefer)) is None,
        },
{
    match pick_session(snap, source, mode, prefer) {
        None => None,
        Some(w) => match stream_shown(w, mode == Mode::Working) {
            None => None,
            Some((is_text, s)) => Some(
                LiveStream {
                    session_id: w.session_id.clone(),
                    kind: if is_text {
                        1
                    } else {
                        0
                    },
                    len: chars_of(s).len(),
                },
            ),
        },
    }
}

/// The last `n` of the first `upto` characters, with an ellipsis in front
/// where something is left out there.
pub open spec fn revealed(s: Seq<char>, upto: int, n: int) -> Seq<char> {
    tail_of(s.take(if upto < s.len() {
        upto
    } else {
        s.len() as int
    }), n)
}

fn reveal_tail(s: &str, upto: usize, n: usize) -> (r: String)
    ensures
        r@ == revealed(s@, upto as int, n as int),
{
    let v = chars_of(s);
    let k: usize = if upto < v.len() {
        upto
    } else {
        v.len()
    };
    assert(v@.subrange(0, k as int) =~= s@.take(k as int));
    if k <= n {
        string_of_range(&v, 0, k)
    } else {
        assert(s@.take(k as int).subrange(k - n, k as int) =~= v@.subrange(k - n, k as int));
        ellipsis_and(&v, k - n, k)
    }
}

/// The line that shows a stream: its mark and its newest characters, of those
/// that have been revealed.
pub open spec fn live_line(s: InfoModel, prefer_text: bool, upto: Option<int>, max_line: int) -> Seq<char> {
    match shown_stream(s, prefer_text) {
        None => if prefer_text {
            "正在干活…"@
        } else {
            "思考中…"@
        },
        Some(x) => {
            let mark = if x.0 {
                "💬 "@
            } else {
                "🧠 "@
            };
            mark + (if upto matches Some(r) && r < x.1.len() {
                revealed(x.1, upto->0, max_line)
            } else {
                tail_of(x.1, max_line)
            })
        },
    }
}

/// Model of an optional count.
pub open spec fn opt_int(o: Option<usize>) -> Option<int> {
    match o {
        Some(n) => Some(n as int),
        None => None,
    }
}

fn live_reveal(w: &SessionInfo, prefer_text: bool, upto: Option<usize>, max_line: usize) -> (r: String)
    ensures
        r@ == live_line(w@, prefer_text, opt_int(upto), max_line as int),
{
    match stream_shown(w, prefer_text) {
        None => if prefer_text {
            own("正在干活…")
        } else {
            own("思考中…")
        },
        Some((is_text, s)) => {
            let mut line = if is_text {
                own("💬 ")
            } else {
                own("🧠 ")
            };
            let shown = match upto {
                Some(r) => if r < chars_of(s).len() {
                    reveal_tail(s, r, max_line)
                } else {
                    truncate_tail(s, max_line)
                },
                None => truncate_tail(s, max_line),
            };
            line.append(shown.as_str());
            line
        },
    }
}

/// Room that the name of a tool takes from its arguments.
pub const TOOL_NAME_ROOM: usize = 24;

/// The title of an active mode.
pub open spec fn live_title(mode: Mode) -> Seq<char> {
    if mode == Mode::Working {
        "正在干活…"@
    } else {
        "思考中…"@
    }
}

/// The line below the title of an active mode: the stream; while nothing has
/// streamed, the running tool and its arguments.
pub open spec fn live_content(s: InfoModel, mode: Mode, upto: Option<int>, max_line: int) -> Seq<char> {
    if mode == Mode::Working && !has_stream(s) {
        match s.tool {
            Some(t) => if s.tool_args matches Some(a) && a.len() > 0 {
                "⚙ "@ + t + ": "@ + tail_of(
                    s.tool_args->0,
                    if max_line < TOOL_NAME_ROOM {
                        0
                    } else {
                        max_line - TOOL_NAME_ROOM
                    },
                )
            } else {
                "⚙ 正在执行: "@ + t
            },
            None => "正在干活…"@,
        }
    } else {
        live_line(s, mode == Mode::Working, upto, max_line)
    }
}

fn tool_line(w: &SessionInfo, max_line: usize) -> (r: String)
    requires
        !has_stream(w@),
    ensures
        r@ == live_content(w@, Mode::Working, None, max_line as int),
{
    match &w.tool {
        Some(t) => {
            if let Some(a) = &w.tool_args {
                if !a.as_str().is_empty() {
                    let mut line = own("⚙ ");
                    line.append(t.as_str());
                    line.append(": ");
                    let tail = truncate_tail(a.as_str(), max_line.saturating_sub(TOOL_NAME_ROOM));
                    line.append(tail.as_str());
                    return line;
                }
            }
            let mut line = own("⚙ 正在执行: ");
            line.append(t.as_str());
            line
        },
        None => own("正在干活…"),
    }
}

/// Title and content of an active mode; no content when no session is picked.
fn live_parts(
    snap: &Snapshot,
    source: Option<Source>,
    mode: Mode,
    prefer: Option<&str>,
    upto: Option<usize>,
    max_line: usize,
) -> (r: (String, Option<String>))
    ensures
        r.0@ == live_title(mode),
        match picked(snap@, source, mode, opt_str(prefer)) {
            Some(s) => r.1 is Some && r.1->0@ == live_content(s, mode, opt_int(upto), max_line as int),
            None => r.1 is None,
        },
{
    let title = if mode == Mode::Working {
        own("正在干活…")
    } else {
        own("思考中…")
    };
    match pick_session(snap, source, mode, prefer) {
        None => (title, None),
        Some(w) => {
            let content = if mode == Mode::Working && !streams(w) {
                tool_line(w, max_line)
            } else {
                live_reveal(w, mode == Mode::Working, upto, max_line)
            };
            (title, Some(content))
        },
    }
}

/// A label, or a placeholder for an empty one.
pub open spec fn label_or(t: Seq<char>) -> Seq<char> {
    if t.len() == 0 {
        "(未命名会话)"@
    } else {
        head_of(t, LABEL_CHARS as int)
    }
}

fn title_or(t: &str) -> (r: String)
    ensures
        r@ == label_or(t@),
{
    if t.is_empty() {
        own("(未命名会话)")
    } else {
        truncate_chars(t, LABEL_CHARS)
    }
}

/// The name of a session's task: its task label unless that is blank, else its title.
pub open spec fn task_name(s: InfoModel) -> Seq<char> {
    if s.task matches Some(t) && trimmed(t).len() > 0 {
        head_of(s.task->0, LABEL_CHARS as int)
    } else {
        label_or(s.title)
    }
}

fn task_label(s: &SessionInfo) -> (r: String)
    ensures
        r@ == task_name(s@),
{
    if let Some(t) = &s.task {
        if !trim(t.as_str()).as_str().is_empty() {
            return truncate_chars(t.as_str(), LABEL_CHARS);
        }
    }
    title_or(s.title.as_str())
}

/// The title of the first listed session with this id.
pub open spec fn title_in(snap: SnapModel, id: Seq<char>) -> Seq<char> {
    match first_where(
        snap.working + snap.thinking + snap.done + snap.failed,
        |s: InfoModel| s.session_id == id,
    ) {
        Some(s) => s.title,
        None => Seq::empty(),
    }
}

/// The label of a session: its title where known, else its id.
pub open spec fn session_name(snap: SnapModel, id: Seq<char>) -> Seq<char> {
    label_or(if title_in(snap, id).len() == 0 {
        id
    } else {
        title_in(snap, id)
    })
}

/// Looks for the id in one list; `rest` are the lists that follow it.
fn find_title<'a>(v: &'a Vec<SessionInfo>, id: &str, Ghost(rest): Ghost<Seq<InfoModel>>) -> (r: Option<&'a str>)
    ensures
        match r {
            Some(t) => {
                &&& first_where(infos_of(v@) + rest, |s: InfoModel| s.session_id == id@) is Some
                &&& first_where(infos_of(v@) + rest, |s: InfoModel| s.session_id == id@)->0.title == t@
            },
            None => first_where(infos_of(v@) + rest, |s: InfoModel| s.session_id == id@) == first_where(
                rest,
                |s: InfoModel| s.session_id == id@,
            ),
        },
{
    let ghost m = infos_of(v@) + rest;
    let ghost q = |s: InfoModel| s.session_id == id@;
    let mut i: usize = 0;
    assert(m.subrange(0, m.len() as int) =~= m);
    while i < v.len()
        invariant
            i <= v@.len(),
            m == infos_of(v@) + rest,
            q == (|s: InfoModel| s.session_id == id@),
            first_where(m, q) == first_where(m.subrange(i as int, m.len() as int), q),
        decreases v@.len() - i,
    {
        proof {
            let t = m.subrange(i as int, m.len() as int);
            assert(t[0] == v@[i as int]@);
            assert(t.drop_first() =~= m.subrange(i as int + 1, m.len() as int));
        }
        if same_text(v[i].session_id.as_str(), id) {
            return Some(v[i].title.as_str());
        }
        i += 1;
    }
    assert(m.subrange(i as int, m.len() as int) =~= rest);
    None
}

fn session_label(snap: &Snapshot, id: &str) -> (r: String)
    ensures
        r@ == session_name(snap@, id@),
{
    let ghost w = snap@.working;
    let ghost t = snap@.thinking;
    let ghost d = snap@.done;
    let ghost f = snap@.failed;
    proof {
        assert(w + (t + (d + (f + Seq::<InfoModel>::empty()))) =~= w + t + d + f);
    }
    let found = match find_title(&snap.working, id, Ghost(t + (d + (f + Seq::empty())))) {
        Some(x) => Some(x),
        None => match find_title(&snap.thinking, id, Ghost(d + (f + Seq::empty()))) {
            Some(x) => Some(x),
            None => match find_title(&snap.done, id, Ghost(f + Seq::empty())) {
                Some(x) => Some(x),
                None => find_title(&snap.failed, id, Ghost(Seq::empty())),
            },
        },
    };
    match found {
        Some(x) => if x.is_empty() {
            title_or(id)
        } else {
            title_or(x)
        },
        None => title_or(id),
    }
}

/// The lines of a result list: a mark, the source and the task of each session.
pub open spec fn result_lines(snap: SnapModel, mark: Seq<char>, v: Seq<InfoModel>) -> Seq<Seq<char>> {
    v.map_values(
        |s: InfoModel| mark + s.source.label_in(snap.labels) + "] "@ + task_name(s),
    )
}

/// The lines that ask for attention: the questions, then the approvals.
pub open spec fn request_lines(snap: SnapModel) -> Seq<Seq<char>> {
    snap.pending_questions.map_values(
        |q: (Seq<char>, Seq<char>, Seq<char>)|
            "❓ "@ + session_name(snap, q.0) + ": "@ + head_of(q.1, MAX_LINE as int),
    ) + snap.pending_approvals.map_values(
        |a: (Seq<char>, Seq<char>, Seq<char>)| "🔧 "@ + session_name(snap, a.0) + ": 请求使用 "@ + a.1,
    )
}

/// What the bubble shows while no session is followed.
pub open spec fn plain(snap: SnapModel, source: Option<Source>) -> BubbleModel {
    match snap.mode {
        Mode::Offline => BubbleModel {
            title: "连不上 DSH 和 Hermes 😢"@,
            from: None,
            lines: seq!["自动重试中…"@],
        },
        Mode::Attention => BubbleModel {
            title: "需要你确认 · "@ + decimal(
                (snap.pending_approvals.len() + snap.pending_questions.len()) as nat,
            ) + " 项"@,
            from: None,
            lines: request_lines(snap),
        },
        Mode::Failed => BubbleModel {
            title: "出错了!"@,
            from: None,
            lines: result_lines(snap, "✗ ["@, snap.failed),
        },
        Mode::Done => BubbleModel {
            title: "任务完成啦 🎉"@,
            from: None,
            lines: result_lines(snap, "✓ ["@, snap.done),
        },
        Mode::Idle => BubbleModel {
            title: "休息中 💤"@,
            from: Some(source_or_default(source).label_in(snap.labels)),
            lines: seq![
                if snap.queue_len > 0 {
                    "队列中还有 "@ + decimal(snap.queue_len as nat) + " 个任务待处理"@
                } else {
                    "没有运行中的任务"@
                },
            ],
        },
        Mode::Move => BubbleModel { title: "拖动中…"@, from: None, lines: Seq::empty() },
        _ => BubbleModel::empty(),
    }
}

/// The chosen source, or the default one.
pub open spec fn source_or_default(source: Option<Source>) -> Source {
    match source {
        Some(s) => s,
        None => Source::Dsh,
    }
}

fn list_results(snap: &Snapshot, mark: &str, v: &Vec<SessionInfo>) -> (r: Vec<String>)
    ensures
        texts(r@) == result_lines(snap@, mark@, infos_of(v@)),
{
    let ghost want = result_lines(snap@, mark@, infos_of(v@));
    let mut out: Vec<String> = Vec::new();
    let mut i: usize = 0;
    while i < v.len()
        invariant
            i <= v@.len(),
            want == result_lines(snap@, mark@, infos_of(v@)),
            out@.len() == i,
            forall|j: int| 0 <= j < i ==> (#[trigger] out@[j])@ == want[j],
        decreases v@.len() - i,
    {
        let mut line = own(mark);
        let label = v[i].source.label(&snap.labels);
        line.append(label.as_str());
        line.append("] ");
        let task = task_label(&v[i]);
        line.append(task.as_str());
        assert(line@ == want[i as int]);
        out.push(line);
        i += 1;
    }
    assert(texts(out@) =~= want);
    out
}

fn list_requests(snap: &Snapshot) -> (r: Vec<String>)
    ensures
        texts(r@) == request_lines(snap@),
{
    let ghost want = request_lines(snap@);
    let ghost nq: int = snap.pending_questions@.len() as int;
    let mut out: Vec<String> = Vec::new();
    let mut i: usize = 0;
    while i < snap.pending_questions.len()
        invariant
            i <= snap.pending_questions@.len(),
            want == request_lines(snap@),
            out@.len() == i,
            forall|j: int| 0 <= j < i ==> (#[trigger] out@[j])@ == want[j],
        decreases snap.pending_questions@.len() - i,
    {
        let q = &snap.pending_questions[i];
        let mut line = own("❓ ");
        let label = session_label(snap, q.0.as_str());
        line.append(label.as_str());
        line.append(": ");
        let text = truncate_chars(q.1.as_str(), MAX_LINE);
        line.append(text.as_str());
        assert(line@ == want[i as int]);
        out.push(line);
        i += 1;
    }
    let mut k: usize = 0;
    while k < snap.pending_approvals.len()
        invariant
            k <= snap.pending_approvals@.len(),
            nq == snap.pending_questions@.len(),
            want == request_lines(snap@),
            out@.len() == nq + k,
            forall|j: int| 0 <= j < nq + k ==> (#[trigger] out@[j])@ == want[j],
        decreases snap.pending_approvals@.len() - k,
    {
        let a = &snap.pending_approvals[k];
        let mut line = own("🔧 ");
        let label = session_label(snap, a.0.as_str());
        line.append(label.as_str());
        line.append(": 请求使用 ");
        line.append(a.1.as_str());
        assert(line@ == want[nq + k]);
        out.push(line);
        k += 1;
    }
    assert(texts(out@) =~= want);
    out
}

fn one_line(s: String) -> (r: Vec<String>)
    ensures
        texts(r@) == seq![s@],
{
    let mut v: Vec<String> = Vec::new();
    v.push(s);
    assert(texts(v@) =~= seq![s@]);
    v
}

/// What the bubble shows while no session is followed.
fn plain_bubble(snap: &Snapshot, source: Option<Source>) -> (r: BubbleText)
    ensures
        r@ == plain(snap@, source),
{
    match snap.mode {
        Mode::Offline => BubbleText {
            title: own("连不上 DSH 和 Hermes 😢"),
            from: None,
            lines: one_line(own("自动重试中…")),
        },
        Mode::Attention => {
            let n: u128 = snap.pending_approvals.len() as u128 + snap.pending_questions.len() as u128;
            let mut title = own("需要你确认 · ");
            title.append(decimal_of(n).as_str());
            title.append(" 项");
            BubbleText { title, from: None, lines: list_requests(snap) }
        },
        Mode::Failed => BubbleText {
            title: own("出错了!"),
            from: None,
            lines: list_results(snap, "✗ [", &snap.failed),
        },
        Mode::Done => BubbleText {
            title: own("任务完成啦 🎉"),
            from: None,
            lines: list_results(snap, "✓ [", &snap.done),
        },
        Mode::Idle => {
            let src = match source {
                Some(s) => s,
                None => Source::Dsh,
            };
            let line = if snap.queue_len > 0 {
                let mut t = own("队列中还有 ");
                t.append(decimal_of(snap.queue_len as u128).as_str());
                t.append(" 个任务待处理");
                t
            } else {
                own("没有运行中的任务")
            };
            BubbleText { title: own("休息中 💤"), from: Some(src.label(&snap.labels)), lines: one_line(line) }
        },
        Mode::Move => {
            let r = BubbleText { title: own("拖动中…"), from: None, lines: Vec::new() };
            assert(texts(r.lines@) =~= Seq::<Seq<char>>::empty());
            r
        },
        _ => BubbleText::default(),
    }
}

/// What the bubble shows.
pub open spec fn bubble_of(
    snap: SnapModel,
    source: Option<Source>,
    prefer: Option<Seq<char>>,
    upto: Option<int>,
    max_line: int,
) -> BubbleModel {
    if snap.mode == Mode::Working || snap.mode == Mode::Thinking {
        BubbleModel {
            title: live_title(snap.mode),
            from: Some(source_or_default(source).label_in(snap.labels)),
            lines: match picked(snap, source, snap.mode, prefer) {
                Some(s) => seq![live_content(s, snap.mode, upto, max_line)],
                None => Seq::empty(),
            },
        }
    } else {
        plain(snap, source)
    }
}

/// What the bubble shows. `prefer` pins the session it follows, `upto` is
/// how much of the stream has been typed out.
pub fn bubble_text_pinned(
    snap: &Snapshot,
    source: Option<Source>,
    prefer: Option<&str>,
    upto: Option<usize>,
    max_line: usize,
) -> (r: BubbleText)
    ensures
        r@ == bubble_of(snap@, source, opt_str(prefer), opt_int(upto), max_line as int),
{
    if snap.mode == Mode::Working || snap.mode == Mode::Thinking {
        let src = match source {
            Some(s) => s,
            None => Source::Dsh,
        };
        let (title, content) = live_parts(snap, source, snap.mode, prefer, upto, max_line);
        let lines = match content {
            Some(c) => one_line(c),
            None => Vec::new(),
        };
        assert(lines@.len() == 0 ==> texts(lines@) =~= Seq::<Seq<char>>::empty());
        BubbleText { title, from: Some(src.label(&snap.labels)), lines }
    } else {
        plain_bubble(snap, source)
    }
}

} // verus!
