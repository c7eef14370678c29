//! What holds of the bubbles as a whole.

use vstd::prelude::*;

use crate::bubble_stack::{
    appeared, behind, cut, front_of, is_active, next_entry, next_state, order, rank, shown, stack, StackState,
    APPEAR_LAG_MS, GONE_LAG_MS, MAX_CARDS,
};
use crate::bubble_text::{
    best, candidates, earliest, first_where, has_id, has_stream, live_line, of_source, picked, revealed, rotated,
    shown_stream, since, tail_of,
};
use crate::ordmap::{lists, ordered};
use crate::seqs::lemma_filter_member;
use crate::state::{within, InfoModel, Mode, SnapModel, Source};

verus! {

/// The bubble stays with a session while its message keeps changing.
pub proof fn law_fresh_stays(snap: SnapModel, source: Option<Source>, mode: Mode, id: Seq<char>)
    requires
        has_id(candidates(snap, source, mode), id),
    ensures
        rotated(snap, source, mode, Some(id), false) == Some(id),
{
}

/// A stale bubble moves to another session as soon as another one has content.
pub proof fn law_stale_moves(snap: SnapModel, source: Option<Source>, mode: Mode, id: Seq<char>, i: int)
    requires
        has_id(candidates(snap, source, mode), id),
        0 <= i < candidates(snap, source, mode).len(),
        candidates(snap, source, mode)[i].session_id != id,
    ensures
        rotated(snap, source, mode, Some(id), true) is Some,
        rotated(snap, source, mode, Some(id), true) != Some(id),
        has_id(candidates(snap, source, mode), rotated(snap, source, mode, Some(id), true)->0),
{
    let c = candidates(snap, source, mode);
    let p = |s: InfoModel| s.session_id != id;
    let others = c.filter(p);
    c.filter_lemma(p);
    assert(p(c[i]));
    assert(others.contains(c[i]));
    lemma_best_member(snap, others);
    let b = best(snap, others)->0;
    let j = choose|j: int| 0 <= j < others.len() && others[j] == b;
    assert(p(others[j]));
    lemma_filter_member(c, p, j);
    let k = choose|k: int| 0 <= k < c.len() && c[k] == others[j];
    assert(c[k].session_id == b.session_id);
}

/// A stale bubble with nowhere to go stays.
pub proof fn law_stale_alone_stays(snap: SnapModel, source: Option<Source>, mode: Mode, id: Seq<char>)
    requires
        has_id(candidates(snap, source, mode), id),
        forall|i: int| 0 <= i < candidates(snap, source, mode).len() ==> (#[trigger] candidates(
            snap,
            source,
            mode,
        )[i]).session_id == id,
    ensures
        rotated(snap, source, mode, Some(id), true) == Some(id),
{
    let c = candidates(snap, source, mode);
    let p = |s: InfoModel| s.session_id != id;
    c.filter_lemma(p);
    let others = c.filter(p);
    if others.len() > 0 {
        assert(p(others[0]));
        lemma_filter_member(c, p, 0);
    }
}

/// The bubble shows a candidate whenever there is one, and nothing otherwise.
pub proof fn law_rotation_shows_candidates(
    snap: SnapModel,
    source: Option<Source>,
    mode: Mode,
    current: Option<Seq<char>>,
    stale: bool,
)
    ensures
        rotated(snap, source, mode, current, stale) is None <==> candidates(snap, source, mode).len() == 0,
        rotated(snap, source, mode, current, stale) matches Some(id) ==> has_id(candidates(snap, source, mode), id),
{
    let c = candidates(snap, source, mode);
    if c.len() > 0 {
        lemma_best_member(snap, c);
        let b = best(snap, c)->0;
        let k = choose|k: int| 0 <= k < c.len() && c[k] == b;
        assert(c[k].session_id == b.session_id);
        if current is Some && has_id(c, current->0) && stale {
            let p = |s: InfoModel| s.session_id != current->0;
            let others = c.filter(p);
            c.filter_lemma(p);
            if others.len() > 0 {
                lemma_best_member(snap, others);
                let o = best(snap, others)->0;
                let j = choose|j: int| 0 <= j < others.len() && others[j] == o;
                lemma_filter_member(c, p, j);
                let m = choose|m: int| 0 <= m < c.len() && c[m] == others[j];
                assert(c[m].session_id == o.session_id);
            }
        }
    }
}

proof fn lemma_first_member(v: Seq<InfoModel>, p: spec_fn(InfoModel) -> bool)
    ensures
        first_where(v, p) matches Some(s) ==> v.contains(s) && p(s),
        first_where(v, p) is None ==> forall|i: int| 0 <= i < v.len() ==> !p(#[trigger] v[i]),
    decreases v.len(),
{
    if v.len() > 0 {
        if p(v[0]) {
            assert(v.contains(v[0]));
        } else {
            let t = v.drop_first();
            lemma_first_member(t, p);
            if first_where(t, p) is Some {
                let s = first_where(t, p)->0;
                let j = choose|j: int| 0 <= j < t.len() && t[j] == s;
                assert(v[j + 1] == s);
            } else {
                assert forall|i: int| 0 <= i < v.len() implies !p(#[trigger] v[i]) by {
                    if i > 0 {
                        assert(t[i - 1] == v[i]);
                    }
                }
            }
        }
    }
}

proof fn lemma_earliest(snap: SnapModel, v: Seq<InfoModel>)
    ensures
        earliest(snap, v) is None <==> v.len() == 0,
        earliest(snap, v) matches Some(b) ==> v.contains(b) && forall|i: int|
            0 <= i < v.len() ==> since(snap, b) <= since(snap, #[trigger] v[i]),
    decreases v.len(),
{
    if v.len() > 0 {
        let t = v.drop_last();
        lemma_earliest(snap, t);
        assert(v[v.len() - 1] == v.last());
        let b = earliest(snap, v)->0;
        if t.contains(b) {
            let j = choose|j: int| 0 <= j < t.len() && t[j] == b;
            assert(v[j] == b);
        }
        assert forall|i: int| 0 <= i < v.len() implies since(snap, b) <= since(snap, #[trigger] v[i]) by {
            if i < t.len() {
                assert(t[i] == v[i]);
            }
        }
    }
}

proof fn lemma_best_member(snap: SnapModel, v: Seq<InfoModel>)
    ensures
        best(snap, v) is None <==> v.len() == 0,
        best(snap, v) matches Some(b) ==> v.contains(b),
{
    let p = |s: InfoModel| has_stream(s);
    lemma_first_member(v, p);
    lemma_earliest(snap, v);
    if v.len() == 0 {
        assert(first_where(v, p) is None);
    }
}

/// Among sessions without a stream, the bubble follows the one that has been
/// at work the longest.
pub proof fn law_longest_work_wins(snap: SnapModel, v: Seq<InfoModel>, i: int)
    requires
        0 <= i < v.len(),
        forall|j: int| 0 <= j < v.len() ==> !has_stream(#[trigger] v[j]),
    ensures
        best(snap, v) is Some,
        since(snap, best(snap, v)->0) <= since(snap, v[i]),
{
    let p = |s: InfoModel| has_stream(s);
    lemma_first_member(v, p);
    lemma_earliest(snap, v);
    if first_where(v, p) is Some {
        let s = first_where(v, p)->0;
        let j = choose|j: int| 0 <= j < v.len() && v[j] == s;
        assert(has_stream(v[j]));
    }
}

/// A session with a stream goes before those without one.
pub proof fn law_stream_first(snap: SnapModel, v: Seq<InfoModel>, i: int)
    requires
        0 <= i < v.len(),
        has_stream(v[i]),
    ensures
        best(snap, v) is Some,
        has_stream(best(snap, v)->0),
{
    let p = |s: InfoModel| has_stream(s);
    lemma_first_member(v, p);
    assert(p(v[i]));
}

/// The bubble of one source never shows a session of another.
pub proof fn law_bubble_keeps_to_its_source(snap: SnapModel, source: Source, mode: Mode, prefer: Option<Seq<char>>)
    ensures
        picked(snap, Some(source), mode, prefer) matches Some(s) ==> s.source == source,
{
    if let Some(s) = picked(snap, Some(source), mode, prefer) {
        if let Some(p) = prefer {
            lemma_first_member(
                snap.working + snap.thinking,
                |s: InfoModel| s.session_id == p && of_source(s, Some(source)),
            );
        }
        let by_source = |s: InfoModel| of_source(s, Some(source));
        snap.working.filter_lemma(by_source);
        snap.thinking.filter_lemma(by_source);
        lemma_best_member(snap, snap.working.filter(by_source));
        lemma_best_member(snap, snap.thinking.filter(by_source));
    }
}

/// Once all of a stream has been typed out, the line reads as if nothing had
/// been held back.
pub proof fn law_reveal_all(s: InfoModel, prefer_text: bool, n: int, max_line: int)
    requires
        shown_stream(s, prefer_text) matches Some(x) ==> n >= x.1.len(),
    ensures
        live_line(s, prefer_text, Some(n), max_line) == live_line(s, prefer_text, None, max_line),
{
}

/// Until the line is full, each step types one more character.
pub proof fn law_reveal_one_by_one(s: Seq<char>, r: int, max_line: int)
    requires
        0 <= r < s.len(),
        r < max_line,
    ensures
        revealed(s, r + 1, max_line) == revealed(s, r, max_line).push(s[r]),
{
    assert(s.take(r + 1) =~= s.take(r).push(s[r]));
}

/// A shortened text is at most one character longer than its limit, and ends
/// as the text ends.
pub proof fn law_tail_is_newest(s: Seq<char>, n: int)
    requires
        n >= 0,
    ensures
        tail_of(s, n).len() <= n + 1,
        n > 0 && s.len() > 0 ==> tail_of(s, n).last() == s.last(),
{
}

/// The stack has at most [`MAX_CARDS`] cards.
pub proof fn law_stack_is_bounded(snap: SnapModel, session: Option<Seq<char>>, now: u64, state: Map<u16, StackState>)
    ensures
        stack(snap, session, now, state).len() <= MAX_CARDS,
{
}

/// Where the script of the followed session has a card, that card is the last
/// one, whatever had to be cut; and only that card is a front card.
pub proof fn law_front_is_last(snap: SnapModel, session: Option<Seq<char>>, now: u64, state: Map<u16, StackState>, i: int)
    ensures
        ({
            let front = front_of(snap, session);
            let cards = stack(snap, session, now, state);
            &&& front is Some && shown(snap, now, state).contains(front->0) ==> cards.len() > 0 && cards.last().id
                == front->0 && cards.last().front
            &&& 0 <= i < cards.len() ==> (cards[i].front <==> front == Some(cards[i].id))
            &&& 0 <= i < cards.len() - 1 ==> !cards[i].front
        }),
{
    let front = front_of(snap, session);
    let ids = ordered::<u16>(shown(snap, now, state));
    let o = order(snap, front, ids);
    let cards = stack(snap, session, now, state);
    lemma_shown_lists(snap, now, state);
    let has_front = front matches Some(f) && ids.contains(f);
    assert forall|j: int| 0 <= j < o.len() && !(has_front && j == o.len() - 1) implies Some(#[trigger] o[j])
        != front by {
        lemma_behind_not_front(snap, front, ids);
        let b4 = behind(snap, front, ids, 4);
        let b3 = behind(snap, front, ids, 3);
        let b2 = behind(snap, front, ids, 2);
        let b1 = behind(snap, front, ids, 1);
        if j < b4.len() {
            assert(o[j] == b4[j]);
        } else if j < b4.len() + b3.len() {
            assert(o[j] == b3[j - b4.len()]);
        } else if j < b4.len() + b3.len() + b2.len() {
            assert(o[j] == b2[j - b4.len() - b3.len()]);
        } else {
            assert(o[j] == b1[j - b4.len() - b3.len() - b2.len()]);
        }
    }
    if has_front {
        assert(o.last() == front->0);
        assert(ids.contains(front->0) <==> shown(snap, now, state).contains(front->0));
    }
    if front is Some {
        assert(ids.contains(front->0) <==> shown(snap, now, state).contains(front->0));
    }
    let c = cut(o, has_front);
    if 0 <= i < cards.len() - 1 {
        assert(c[i] == o[i]);
    }
}

proof fn lemma_behind_not_front(snap: SnapModel, front: Option<u16>, ids: Seq<u16>)
    ensures
        forall|r: u8, j: int| 0 <= j < behind(snap, front, ids, r).len() ==> Some(
            #[trigger] behind(snap, front, ids, r)[j],
        ) != front,
{
    assert forall|r: u8, j: int| 0 <= j < behind(snap, front, ids, r).len() implies Some(
        #[trigger] behind(snap, front, ids, r)[j],
    ) != front by {
        let p = |id: u16| Some(id) != front && rank(snap, id) == r;
        ids.filter_lemma(p);
        assert(p(ids.filter(p)[j]));
    }
}

proof fn lemma_shown_lists(snap: SnapModel, now: u64, state: Map<u16, StackState>)
    ensures
        lists::<u16>(ordered::<u16>(shown(snap, now, state)), shown(snap, now, state)),
{
    let d = shown(snap, now, state);
    broadcast use vstd::set_lib::full_set_properties;
    vstd::set_lib::lemma_set_subset_finite(Set::<u16>::full(), d);
    crate::ordmap::lemma_ordered_exists::<u16>(d);
}

/// Every card belongs to a script that has been active for at least the lag.
pub proof fn law_no_flash(snap: SnapModel, session: Option<Seq<char>>, now: u64, state: Map<u16, StackState>, i: int)
    requires
        0 <= i < stack(snap, session, now, state).len(),
    ensures
        ({
            let id = stack(snap, session, now, state)[i].id;
            &&& next_state(snap, now, state).contains_key(id)
            &&& next_state(snap, now, state)[id].active_since matches Some(t) && !within(now, t, APPEAR_LAG_MS)
        }),
{
    let front = front_of(snap, session);
    let ids = ordered::<u16>(shown(snap, now, state));
    let o = order(snap, front, ids);
    lemma_shown_lists(snap, now, state);
    let has_front = front matches Some(f) && ids.contains(f);
    let c = cut(o, has_front);
    let id = c[i];
    let j = if c.len() == o.len() || i < MAX_CARDS - 1 || !has_front { i } else { o.len() - 1 };
    assert(c[i] == o[j]);
    lemma_order_member(snap, front, ids, j);
    assert(shown(snap, now, state).contains(id));
}

proof fn lemma_order_member(snap: SnapModel, front: Option<u16>, ids: Seq<u16>, j: int)
    requires
        0 <= j < order(snap, front, ids).len(),
    ensures
        ids.contains(order(snap, front, ids)[j]),
{
    let o = order(snap, front, ids);
    let b4 = behind(snap, front, ids, 4);
    let b3 = behind(snap, front, ids, 3);
    let b2 = behind(snap, front, ids, 2);
    let b1 = behind(snap, front, ids, 1);
    lemma_behind_member(snap, front, ids);
    if j < b4.len() {
        assert(o[j] == b4[j]);
    } else if j < b4.len() + b3.len() {
        assert(o[j] == b3[j - b4.len()]);
    } else if j < b4.len() + b3.len() + b2.len() {
        assert(o[j] == b2[j - b4.len() - b3.len()]);
    } else if j < b4.len() + b3.len() + b2.len() + b1.len() {
        assert(o[j] == b1[j - b4.len() - b3.len() - b2.len()]);
    }
}

proof fn lemma_behind_member(snap: SnapModel, front: Option<u16>, ids: Seq<u16>)
    ensures
        forall|r: u8, j: int| 0 <= j < behind(snap, front, ids, r).len() ==> ids.contains(
            #[trigger] behind(snap, front, ids, r)[j],
        ),
{
    assert forall|r: u8, j: int| 0 <= j < behind(snap, front, ids, r).len() implies ids.contains(
        #[trigger] behind(snap, front, ids, r)[j],
    ) by {
        let p = |id: u16| Some(id) != front && rank(snap, id) == r;
        ids.filter_lemma(p);
        lemma_filter_member(ids, p, j);
    }
}

/// A script that has a card keeps it through a silence shorter than the lag,
/// and has it still when it becomes active again.
pub proof fn law_card_bridges_gaps(
    quiet: SnapModel,
    busy: SnapModel,
    t0: u64,
    t1: u64,
    state: Map<u16, StackState>,
    id: u16,
)
    requires
        t0 <= t1,
        state.contains_key(id),
        state[id].gone_since is None,
        appeared(state[id], t0),
        !is_active(quiet, id),
        is_active(busy, id),
        within(t1, t0, GONE_LAG_MS),
    ensures
        shown(quiet, t0, state).contains(id),
        shown(quiet, t1, next_state(quiet, t0, state)).contains(id),
        shown(busy, t1, next_state(quiet, t0, state)).contains(id),
        next_state(busy, t1, next_state(quiet, t0, state))[id].active_since == state[id].active_since,
{
    let s1 = next_state(quiet, t0, state);
    assert(next_entry(quiet, t0, state, id) is Some);
    assert(s1.contains_key(id));
    assert(appeared(s1[id], t1));
}

/// A script that stays silent for the lag loses its card and is forgotten.
pub proof fn law_card_goes(quiet: SnapModel, t0: u64, t1: u64, state: Map<u16, StackState>, id: u16)
    requires
        t0 <= t1,
        state.contains_key(id),
        state[id].gone_since is None,
        appeared(state[id], t0),
        !is_active(quiet, id),
        !within(t1, t0, GONE_LAG_MS),
    ensures
        !shown(quiet, t1, next_state(quiet, t0, state)).contains(id),
        !next_state(quiet, t1, next_state(quiet, t0, state)).contains_key(id),
{
    assert(next_state(quiet, t0, state).contains_key(id));
}

/// A script that was active for less than the lag leaves nothing behind.
pub proof fn law_flash_is_forgotten(quiet: SnapModel, now: u64, state: Map<u16, StackState>, id: u16)
    requires
        !is_active(quiet, id),
        state.contains_key(id) ==> !appeared(state[id], now),
    ensures
        !next_state(quiet, now, state).contains_key(id),
        !shown(quiet, now, state).contains(id),
{
}

} // verus!
