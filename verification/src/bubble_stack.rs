//! Stacked bubbles: which scripts have a card, when a card appears and when it
//! goes, and in which order the cards lie.

use vstd::prelude::*;

use crate::bubble_text::{opt_str, BubbleModel, BubbleText};
use crate::event::Mode;
use crate::ordmap::{lemma_filter_lists, ordered, OrdMap};
use crate::seqs::lemma_take_contains;
use crate::state::{infos_of, within, InfoModel, SessionInfo, SnapModel, Snapshot, Source};
use crate::text::{own, same_text};

verus! {

/// A card appears once its script has been active for this long.
pub const APPEAR_LAG_MS: u64 = 1500;

/// A card stays for this long after its script went quiet.
pub const GONE_LAG_MS: u64 = 1500;

/// Most cards in a stack.
pub const MAX_CARDS: usize = 4;

/// One card of the stack.
#[derive(Debug, Clone, Copy, PartialEq, Eq, Structural)]
pub struct StackCard {
    /// The script.
    pub id: u16,
    /// The front card shows its whole content; the others show their header.
    pub front: bool,
    /// The script has a working session.
    pub working: bool,
}

impl StackCard {
    /// The mode whose colors the card has.
    pub fn mode(&self) -> (r: Mode)
        ensures
            r == if self.working {
                Mode::Working
            } else {
                Mode::Thinking
            },
    {
        if self.working {
            Mode::Working
        } else {
            Mode::Thinking
        }
    }
}

/// How long a script has been active, and since when it has been quiet.
#[derive(Debug, Clone, Copy, PartialEq, Eq, Structural)]
pub struct StackState {
    /// Start of the activity.
    pub active_since: Option<u64>,
    /// Start of the silence that follows it.
    pub gone_since: Option<u64>,
}

impl View for StackState {
    type V = StackState;

    open spec fn view(&self) -> StackState {
        *self
    }
}

impl Default for StackState {
    fn default() -> (r: Self)
        ensures
            r == (StackState { active_since: None, gone_since: None }),
    {
        StackState { active_since: None, gone_since: None }
    }
}

/// Some session of the list belongs to `source`.
pub open spec fn lists_source(v: Seq<InfoModel>, source: Source) -> bool {
    exists|i: int| 0 <= i < v.len() && (#[trigger] v[i]).source == source
}

/// The script has a session that works or thinks.
pub open spec fn is_active(snap: SnapModel, id: u16) -> bool {
    lists_source(snap.working, Source::Script(id)) || lists_source(snap.thinking, Source::Script(id))
}

/// Weight of a script in the order of the cards.
pub open spec fn rank(snap: SnapModel, id: u16) -> u8 {
    if is_active(snap, id) {
        1
    } else if lists_source(snap.done, Source::Script(id)) {
        2
    } else if lists_source(snap.failed, Source::Script(id)) {
        3
    } else {
        4
    }
}

/// The script has been active for long enough.
pub open spec fn appeared(s: StackState, now: u64) -> bool {
    s.active_since matches Some(t) && !within(now, t, APPEAR_LAG_MS)
}

/// What is remembered of a script at time `now`.
pub open spec fn next_entry(snap: SnapModel, now: u64, state: Map<u16, StackState>, id: u16) -> Option<StackState> {
    if is_active(snap, id) {
        Some(
            StackState {
                active_since: Some(
                    if state.contains_key(id) && state[id].active_since is Some {
                        state[id].active_since->0
                    } else {
                        now
                    },
                ),
                gone_since: None,
            },
        )
    } else if state.contains_key(id) {
        let s = state[id];
        if s.gone_since matches Some(g) && !within(now, g, GONE_LAG_MS) {
            None
        } else if appeared(s, now) {
            Some(
                StackState {
                    gone_since: Some(
                        if s.gone_since is Some {
                            s.gone_since->0
                        } else {
                            now
                        },
                    ),
                    ..s
                },
            )
        } else {
            None
        }
    } else {
        None
    }
}

/// What is remembered of all scripts at time `now`.
pub open spec fn next_state(snap: SnapModel, now: u64, state: Map<u16, StackState>) -> Map<u16, StackState> {
    Map::new(
        |id: u16| next_entry(snap, now, state, id) is Some,
        |id: u16| next_entry(snap, now, state, id)->0,
    )
}

/// The scripts that have a card at time `now`.
pub open spec fn shown(snap: SnapModel, now: u64, state: Map<u16, StackState>) -> Set<u16> {
    Set::new(|id: u16| next_entry(snap, now, state, id) matches Some(s) && appeared(s, now))
}

/// The first listed session with this id that works or thinks.
pub open spec fn session_of(snap: SnapModel, id: Seq<char>) -> Option<InfoModel> {
    crate::bubble_text::first_where(snap.working + snap.thinking, |s: InfoModel| s.session_id == id)
}

/// The source of the session that the front card follows.
pub open spec fn source_of(snap: SnapModel, session: Option<Seq<char>>) -> Option<Source> {
    match session {
        None => None,
        Some(id) => match session_of(snap, id) {
            Some(s) => Some(s.source),
            None => None,
        },
    }
}

/// The script of the session that the front card follows.
pub open spec fn front_of(snap: SnapModel, session: Option<Seq<char>>) -> Option<u16> {
    match source_of(snap, session) {
        Some(Source::Script(i)) => Some(i),
        _ => None,
    }
}

/// The cards behind the front card that have weight `r`, in the order of the scripts.
pub open spec fn behind(snap: SnapModel, front: Option<u16>, ids: Seq<u16>, r: u8) -> Seq<u16> {
    ids.filter(|id: u16| Some(id) != front && rank(snap, id) == r)
}

/// All cards from back to front: heavier ones first, the front card last.
pub open spec fn order(snap: SnapModel, front: Option<u16>, ids: Seq<u16>) -> Seq<u16> {
    behind(snap, front, ids, 4) + behind(snap, front, ids, 3) + behind(snap, front, ids, 2) + behind(
        snap,
        front,
        ids,
        1,
    ) + (if front matches Some(f) && ids.contains(f) {
        seq![front->0]
    } else {
        Seq::empty()
    })
}

/// The cards that fit: the first ones, and the front card in any case.
pub open spec fn cut(ids: Seq<u16>, has_front: bool) -> Seq<u16> {
    if ids.len() <= MAX_CARDS {
        ids
    } else if has_front {
        ids.take(MAX_CARDS - 1).push(ids.last())
    } else {
        ids.take(MAX_CARDS as int)
    }
}

/// The stack at time `now`, from back to front.
pub open spec fn stack(
    snap: SnapModel,
    session: Option<Seq<char>>,
    now: u64,
    state: Map<u16, StackState>,
) -> Seq<StackCard> {
    let front = front_of(snap, session);
    let ids = ordered::<u16>(shown(snap, now, state));
    cut(order(snap, front, ids), front matches Some(f) && ids.contains(f)).map_values(
        |id: u16|
            StackCard {
                id,
                front: Some(id) == front,
                working: lists_source(snap.working, Source::Script(id)),
            },
    )
}

fn any_of(v: &Vec<SessionInfo>, source: Source) -> (r: bool)
    ensures
        r == lists_source(infos_of(v@), source),
{
    let ghost m = infos_of(v@);
    let mut i: usize = 0;
    while i < v.len()
        invariant
            i <= v@.len(),
            m == infos_of(v@),
            forall|j: int| 0 <= j < i ==> (#[trigger] m[j]).source != source,
        decreases v@.len() - i,
    {
        assert(m[i as int] == v@[i as int]@);
        if v[i].source == source {
            return true;
        }
        i += 1;
    }
    false
}

fn state_rank(snap: &Snapshot, id: u16) -> (r: u8)
    ensures
        r == rank(snap@, id),
{
    let src = Source::Script(id);
    if has_sessions(snap, id) {
        1
    } else if any_of(&snap.done, src) {
        2
    } else if any_of(&snap.failed, src) {
        3
    } else {
        4
    }
}

fn has_sessions(snap: &Snapshot, id: u16) -> (r: bool)
    ensures
        r == is_active(snap@, id),
{
    any_of(&snap.working, Source::Script(id)) || any_of(&snap.thinking, Source::Script(id))
}

fn has_working(snap: &Snapshot, id: u16) -> (r: bool)
    ensures
        r == lists_source(snap@.working, Source::Script(id)),
{
    any_of(&snap.working, Source::Script(id))
}

/// Adds the scripts of a list of sessions.
fn add_scripts(out: &mut OrdMap<u16, ()>, v: &Vec<SessionInfo>)
    ensures
        forall|id: u16| #[trigger]
            final(out)@.contains_key(id) <==> old(out)@.contains_key(id) || lists_source(
                infos_of(v@),
                Source::Script(id),
            ),
{
    let ghost m = infos_of(v@);
    let ghost before = out@;
    let mut i: usize = 0;
    while i < v.len()
        invariant
            i <= v@.len(),
            m == infos_of(v@),
            before == old(out)@,
            forall|id: u16| #[trigger]
                out@.contains_key(id) <==> before.contains_key(id) || lists_source(
                    m.take(i as int),
                    Source::Script(id),
                ),
        decreases v@.len() - i,
    {
        let ghost o1 = out@;
        let source = v[i].source;
        if let Source::Script(id) = source {
            out.insert(id, ());
        }
        proof {
            let t = m.take(i as int);
            let u = m.take(i as int + 1);
            assert(u[i as int].source == source);
            assert forall|id: u16| #[trigger] lists_source(u, Source::Script(id)) <==> lists_source(
                t,
                Source::Script(id),
            ) || source == Source::Script(id) by {
                if lists_source(t, Source::Script(id)) {
                    let j = choose|j: int| 0 <= j < t.len() && (#[trigger] t[j]).source == Source::Script(id);
                    assert(u[j].source == Source::Script(id));
                }
                if lists_source(u, Source::Script(id)) {
                    let j = choose|j: int| 0 <= j < u.len() && (#[trigger] u[j]).source == Source::Script(id);
                    if j < i {
                        assert(t[j].source == Source::Script(id));
                    }
                }
            }
        }
        i += 1;
    }
    assert(m.take(i as int) =~= m);
}

/// Adds the scripts that are remembered.
fn add_known(out: &mut OrdMap<u16, ()>, state: &OrdMap<u16, StackState>)
    ensures
        forall|id: u16| #[trigger]
            final(out)@.contains_key(id) <==> old(out)@.contains_key(id) || state@.contains_key(id),
{
    let ghost before = out@;
    let ghost ks = ordered::<u16>(state@.dom());
    let n: usize = state.len();
    let mut i: usize = 0;
    while i < n
        invariant
            i <= n,
            before == old(out)@,
            ks == ordered::<u16>(state@.dom()),
            n == ks.len(),
            n == state@.dom().len(),
            forall|id: u16| #[trigger]
                out@.contains_key(id) <==> before.contains_key(id) || ks.take(i as int).contains(id),
        decreases n - i,
    {
        proof {
            lemma_take_contains(ks, i as int);
        }
        out.insert(*state.key_at(i), ());
        i += 1;
    }
    assert(ks.take(i as int) =~= ks);
    assert forall|id: u16| #[trigger] out@.contains_key(id) <==> before.contains_key(id) || state@.contains_key(id) by {
        assert(ks.contains(id) <==> state@.dom().contains(id));
    }
}

/// What is remembered of a script at time `now`.
fn advance_entry(snap: &Snapshot, now: u64, state: &OrdMap<u16, StackState>, id: u16) -> (r: Option<StackState>)
    ensures
        r == next_entry(snap@, now, state@, id),
{
    if has_sessions(snap, id) {
        let since: u64 = match state.get(&id) {
            Some(s) => match s.active_since {
                Some(t) => t,
                None => now,
            },
            None => now,
        };
        return Some(StackState { active_since: Some(since), gone_since: None });
    }
    match state.get(&id) {
        None => None,
        Some(s) => {
            let gone: u64 = match s.gone_since {
                Some(g) => {
                    if now.saturating_sub(g) >= GONE_LAG_MS {
                        return None;
                    }
                    g
                },
                None => now,
            };
            if has_appeared(s, now) {
                Some(StackState { active_since: s.active_since, gone_since: Some(gone) })
            } else {
                None
            }
        },
    }
}

fn has_appeared(s: &StackState, now: u64) -> (r: bool)
    ensures
        r == appeared(*s, now),
{
    match s.active_since {
        Some(t) => now.saturating_sub(t) >= APPEAR_LAG_MS,
        None => false,
    }
}

/// The source of the session that the front card follows.
pub fn front_source(snap: &Snapshot, session: Option<&str>) -> (r: Option<Source>)
    ensures
        r == source_of(snap@, opt_str(session)),
{
    match session {
        None => None,
        Some(id) => {
            let ghost m = snap@.working + snap@.thinking;
            let ghost q = |s: InfoModel| s.session_id == id@;
            let n: usize = snap.working.len();
            let k: usize = snap.thinking.len();
            let mut i: usize = 0;
            assert(m.subrange(0, m.len() as int) =~= m);
            while i < n
                invariant
                    i <= n,
                    n == snap.working@.len(),
                    session == Some(id),
                    m == snap@.working + snap@.thinking,
                    q == (|s: InfoModel| s.session_id == id@),
                    session_of(snap@, id@) == crate::bubble_text::first_where(
                        m.subrange(i as int, m.len() as int),
                        q,
                    ),
                decreases n - i,
            {
                proof {
                    let t = m.subrange(i as int, m.len() as int);
                    assert(t[0] == snap.working@[i as int]@);
                    assert(t.drop_first() =~= m.subrange(i as int + 1, m.len() as int));
                }
                if same_text(snap.working[i].session_id.as_str(), id) {
                    return Some(snap.working[i].source);
                }
                i += 1;
            }
            let mut j: usize = 0;
            while j < k
                invariant
                    j <= k,
                    n == snap.working@.len(),
                    k == snap.thinking@.len(),
                    session == Some(id),
                    m == snap@.working + snap@.thinking,
                    q == (|s: InfoModel| s.session_id == id@),
                    session_of(snap@, id@) == crate::bubble_text::first_where(m.subrange(n + j, m.len() as int), q),
                decreases k - j,
            {
                proof {
                    let t = m.subrange(n + j, m.len() as int);
                    assert(t[0] == snap.thinking@[j as int]@);
                    assert(t.drop_first() =~= m.subrange(n + j + 1, m.len() as int));
                }
                if same_text(snap.thinking[j].session_id.as_str(), id) {
                    return Some(snap.thinking[j].source);
                }
                j += 1;
            }
            None
        },
    }
}

/// The script of the session that the front card follows.
fn front_script(snap: &Snapshot, session: Option<&str>) -> (r: Option<u16>)
    ensures
        r == front_of(snap@, opt_str(session)),
{
    match front_source(snap, session) {
        Some(source) => script_id(source),
        None => None,
    }
}

fn script_id(source: Source) -> (r: Option<u16>)
    ensures
        r == match source {
            Source::Script(i) => Some(i),
            _ => None,
        },
{
    match source {
        Source::Script(i) => Some(i),
        _ => None,
    }
}

/// Appends the cards behind the front card that have weight `r`.
fn push_rank(out: &mut Vec<u16>, snap: &Snapshot, front: Option<u16>, ids: &Vec<u16>, r: u8)
    ensures
        final(out)@ == old(out)@ + behind(snap@, front, ids@, r),
{
    let ghost before = out@;
    let ghost p = |id: u16| Some(id) != front && rank(snap@, id) == r;
    let mut i: usize = 0;
    proof {
        reveal(Seq::filter);
        assert(ids@.take(0).filter(p) =~= Seq::<u16>::empty());
        assert(before + Seq::<u16>::empty() =~= before);
    }
    while i < ids.len()
        invariant
            i <= ids@.len(),
            before == old(out)@,
            p == (|id: u16| Some(id) != front && rank(snap@, id) == r),
            out@ == before + ids@.take(i as int).filter(p),
        decreases ids@.len() - i,
    {
        let id: u16 = ids[i];
        proof {
            reveal(Seq::filter);
            assert(ids@.take(i as int + 1).drop_last() =~= ids@.take(i as int));
            assert(ids@.take(i as int + 1).last() == id);
        }
        let ghost o1 = out@;
        let is_front = match front {
            Some(f) => f == id,
            None => false,
        };
        if !is_front && state_rank(snap, id) == r {
            out.push(id);
            assert(out@ =~= before + ids@.take(i as int).filter(p).push(id));
        }
        i += 1;
    }
    assert(ids@.take(i as int) =~= ids@);
}

fn has_number(ids: &Vec<u16>, id: u16) -> (r: bool)
    ensures
        r == ids@.contains(id),
{
    let mut i: usize = 0;
    while i < ids.len()
        invariant
            i <= ids@.len(),
            forall|j: int| 0 <= j < i ==> ids@[j] != id,
        decreases ids@.len() - i,
    {
        if ids[i] == id {
            return true;
        }
        i += 1;
    }
    false
}

/// The stack of cards, from back to front, and what is remembered for the next
/// call. `front_session` is the session that the front card follows.
pub fn stack_cards(
    snap: &Snapshot,
    front_session: Option<&str>,
    now: u64,
    state: &mut OrdMap<u16, StackState>,
) -> (r: Vec<StackCard>)
    ensures
        r@ == stack(snap@, opt_str(front_session), now, old(state)@),
        final(state)@ == next_state(snap@, now, old(state)@),
{
    let ghost st = state@;
    let ghost sm = snap@;
    let mut all: OrdMap<u16, ()> = OrdMap::new();
    add_scripts(&mut all, &snap.working);
    add_scripts(&mut all, &snap.thinking);
    add_known(&mut all, state);
    let ghost ks = ordered::<u16>(all@.dom());
    let ghost p = |id: u16| next_entry(sm, now, st, id) matches Some(s) && appeared(s, now);
    let n: usize = all.len();
    let mut next: OrdMap<u16, StackState> = OrdMap::new();
    let mut ids: Vec<u16> = Vec::new();
    let mut i: usize = 0;
    proof {
        reveal(Seq::filter);
        assert(ks.take(0).filter(p) =~= Seq::<u16>::empty());
    }
    while i < n
        invariant
            i <= n,
            sm == snap@,
            st == state@,
            n == ks.len(),
            n == all@.dom().len(),
            ks == ordered::<u16>(all@.dom()),
            p == (|id: u16| next_entry(sm, now, st, id) matches Some(s) && appeared(s, now)),
            ids@ == ks.take(i as int).filter(p),
            forall|id: u16| #[trigger]
                next@.contains_key(id) <==> ks.take(i as int).contains(id) && next_entry(sm, now, st, id) is Some,
            forall|id: u16| #[trigger] next@.contains_key(id) ==> next@[id] == next_entry(sm, now, st, id)->0,
        decreases n - i,
    {
        proof {
            reveal(Seq::filter);
            lemma_take_contains(ks, i as int);
            assert(ks.take(i as int + 1).drop_last() =~= ks.take(i as int));
            assert(ks.take(i as int + 1).last() == ks[i as int]);
        }
        let id: u16 = *all.key_at(i);
        if let Some(s) = advance_entry(snap, now, state, id) {
            if has_appeared(&s, now) {
                ids.push(id);
            }
            next.insert(id, s);
        }
        i += 1;
    }
    proof {
        assert(ks.take(i as int) =~= ks);
        assert forall|id: u16| #[trigger] next@.contains_key(id) <==> next_state(sm, now, st).contains_key(id) by {
            if next_entry(sm, now, st, id) is Some {
                assert(all@.contains_key(id));
                assert(all@.dom().contains(id));
            }
            assert(ks.contains(id) <==> all@.dom().contains(id));
        }
        assert(next@ =~= next_state(sm, now, st));
        let e = shown(sm, now, st);
        assert forall|id: u16| #[trigger] e.contains(id) <==> all@.dom().contains(id) && p(id) by {
            if e.contains(id) {
                assert(all@.contains_key(id));
            }
        }
        lemma_filter_lists::<u16>(ks, all@.dom(), p, e);
    }
    *state = next;
    let front = front_script(snap, front_session);
    let mut order_ids: Vec<u16> = Vec::new();
    push_rank(&mut order_ids, snap, front, &ids, 4);
    push_rank(&mut order_ids, snap, front, &ids, 3);
    push_rank(&mut order_ids, snap, front, &ids, 2);
    push_rank(&mut order_ids, snap, front, &ids, 1);
    let mut has_front = false;
    if let Some(f) = front {
        if has_number(&ids, f) {
            order_ids.push(f);
            has_front = true;
        }
    }
    assert(order_ids@ =~= order(sm, front, ids@));
    let ghost full = order_ids@;
    if order_ids.len() > MAX_CARDS {
        if has_front {
            let last: u16 = order_ids[order_ids.len() - 1];
            order_ids.truncate(MAX_CARDS - 1);
            order_ids.push(last);
        } else {
            order_ids.truncate(MAX_CARDS);
        }
    }
    assert(order_ids@ =~= cut(full, has_front));
    let ghost want = stack(sm, opt_str(front_session), now, st);
    let mut out: Vec<StackCard> = Vec::new();
    let mut k: usize = 0;
    while k < order_ids.len()
        invariant
            k <= order_ids@.len(),
            sm == snap@,
            want.len() == order_ids@.len(),
            forall|j: int| 0 <= j < want.len() ==> (#[trigger] want[j]) == (StackCard {
                id: order_ids@[j],
                front: Some(order_ids@[j]) == front,
                working: lists_source(sm.working, Source::Script(order_ids@[j])),
            }),
            out@.len() == k,
            forall|j: int| 0 <= j < k ==> (#[trigger] out@[j]) == want[j],
        decreases order_ids@.len() - k,
    {
        let id: u16 = order_ids[k];
        let is_front = match front {
            Some(f) => f == id,
            None => false,
        };
        out.push(StackCard { id, front: is_front, working: has_working(snap, id) });
        assert(want[k as int].id == id);
        k += 1;
    }
    assert(out@ =~= want);
    out
}

/// The title of a card.
pub open spec fn title_of_card(snap: SnapModel, source: Source) -> Seq<char> {
    if lists_source(snap.working, source) {
        "正在干活…"@
    } else {
        "思考中…"@
    }
}

/// The title of a card: what its own source does, whatever the others do.
pub fn card_title(snap: &Snapshot, source: Source) -> (r: String)
    ensures
        r@ == title_of_card(snap@, source),
{
    if any_of(&snap.working, source) {
        own("正在干活…")
    } else {
        own("思考中…")
    }
}

/// Gives a bubble the title of its own source.
pub fn fix_card_title(text: &mut BubbleText, snap: &Snapshot, source: Source)
    ensures
        final(text)@ == (BubbleModel { title: title_of_card(snap@, source), ..old(text)@ }),
{
    text.title = card_title(snap, source);
}

} // verus!
