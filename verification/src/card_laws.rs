//! Which scripts have a card in the stack of bubbles, and in which order.

use vstd::prelude::*;

use crate::bubble_stack::{
    behind, cut, front_of, next_state, order, shown, stack, StackState,
};
use crate::event::Source;
use crate::ordmap::{ascending, lists, ordered};
use crate::seqs::lemma_filter_member;
use crate::state::{InfoModel, SnapModel};

verus! {

/// A list has a session of the script.
pub open spec fn has_session(v: Seq<InfoModel>, id: u16) -> bool {
    exists|i: int| 0 <= i < v.len() && (#[trigger] v[i]).source == Source::Script(id)
}

/// The script works or thinks.
pub open spec fn busy(snap: SnapModel, id: u16) -> bool {
    has_session(snap.working, id) || has_session(snap.thinking, id)
}

/// A script that is busy is remembered since when it is; the time is kept while
/// it goes on.
pub proof fn law_activity_is_remembered(snap: SnapModel, now: u64, state: Map<u16, StackState>, id: u16)
    requires
        busy(snap, id),
    ensures
        ({
            let n = next_state(snap, now, state);
            let since = if state.contains_key(id) && state[id].active_since is Some {
                state[id].active_since->0
            } else {
                now
            };
            &&& n.contains_key(id)
            &&& n[id] == (StackState { active_since: Some(since), gone_since: None })
            &&& shown(snap, now, state).contains(id) <==> now - since >= 1500
        }),
{
}

/// A script that is no longer busy keeps its card for a second and a half, and is
/// forgotten after that; one that never had a card is forgotten at once.
pub proof fn law_silence_is_remembered(snap: SnapModel, now: u64, state: Map<u16, StackState>, id: u16)
    requires
        !busy(snap, id),
    ensures
        ({
            let n = next_state(snap, now, state);
            let s = state[id];
            let had = state.contains_key(id) && s.active_since is Some && now - s.active_since->0 >= 1500;
            let late = s.gone_since is Some && now - s.gone_since->0 >= 1500;
            &&& n.contains_key(id) <==> had && !late
            &&& n.contains_key(id) ==> n[id].active_since == s.active_since && n[id].gone_since == Some(
                if s.gone_since is Some {
                    s.gone_since->0
                } else {
                    now
                },
            )
            &&& shown(snap, now, state).contains(id) <==> had && !late
        }),
{
}

/// What a script weighs: busy ones are the lightest, then come those that are
/// done, those that failed, and the rest.
pub open spec fn weight(snap: SnapModel, id: u16) -> int {
    if busy(snap, id) {
        1
    } else if has_session(snap.done, id) {
        2
    } else if has_session(snap.failed, id) {
        3
    } else {
        4
    }
}

/// `a` lies behind `b`: it is heavier, or as heavy with a lower number; and the
/// front card lies before all others.
pub open spec fn lies_behind(snap: SnapModel, front: Option<u16>, a: u16, b: u16) -> bool {
    if Some(b) == front {
        Some(a) != front
    } else {
        Some(a) != front && (weight(snap, a) > weight(snap, b) || (weight(snap, a) == weight(snap, b) && a < b))
    }
}

proof fn lemma_weight(snap: SnapModel, id: u16)
    ensures
        weight(snap, id) == crate::bubble_stack::rank(snap, id),
{
}

proof fn lemma_behind(snap: SnapModel, front: Option<u16>, ids: Seq<u16>, r: u8)
    requires
        ascending::<u16>(ids),
    ensures
        ({
            let b = behind(snap, front, ids, r);
            &&& forall|i: int|
                0 <= i < b.len() ==> Some(#[trigger] b[i]) != front && weight(snap, b[i]) == r && ids.contains(b[i])
            &&& forall|i: int, j: int| 0 <= i < j < b.len() ==> #[trigger] b[i] < #[trigger] b[j]
            &&& forall|x: u16|
                ids.contains(x) && Some(x) != front && weight(snap, x) == r ==> #[trigger] b.contains(x)
        }),
{
    let p = |id: u16| Some(id) != front && crate::bubble_stack::rank(snap, id) == r;
    let b = ids.filter(p);
    ids.filter_lemma(p);
    let d = ids.to_set();
    assert(lists::<u16>(ids, d)) by {
        assert forall|k: u16| #[trigger] ids.contains(k) <==> d.contains(k) by {}
    }
    let e = d.filter(p);
    crate::ordmap::lemma_filter_lists::<u16>(ids, d, p, e);
    assert forall|i: int| 0 <= i < b.len() implies Some(#[trigger] b[i]) != front && weight(snap, b[i]) == r
        && ids.contains(b[i]) by {
        lemma_filter_member(ids, p, i);
        lemma_weight(snap, b[i]);
    }
    assert forall|i: int, j: int| 0 <= i < j < b.len() implies #[trigger] b[i] < #[trigger] b[j] by {
        assert(<u16 as crate::ordmap::Key>::lt(b[i], b[j]));
    }
    assert forall|x: u16| ids.contains(x) && Some(x) != front && weight(snap, x) == r implies #[trigger] b.contains(
        x,
    ) by {
        lemma_weight(snap, x);
        assert(e.contains(x));
    }
}

/// The cards are those that are shown, each once, from back to front.
pub proof fn law_cards_are_in_order(snap: SnapModel, front: Option<u16>, ids: Seq<u16>)
    requires
        ascending::<u16>(ids),
    ensures
        ({
            let o = order(snap, front, ids);
            &&& forall|i: int, j: int|
                0 <= i < j < o.len() ==> lies_behind(snap, front, #[trigger] o[i], #[trigger] o[j])
            &&& forall|x: u16| #[trigger] o.contains(x) <==> ids.contains(x)
        }),
{
    let o = order(snap, front, ids);
    let b4 = behind(snap, front, ids, 4);
    let b3 = behind(snap, front, ids, 3);
    let b2 = behind(snap, front, ids, 2);
    let b1 = behind(snap, front, ids, 1);
    let f = if front is Some && ids.contains(front->0) {
        seq![front->0]
    } else {
        Seq::empty()
    };
    lemma_behind(snap, front, ids, 4);
    lemma_behind(snap, front, ids, 3);
    lemma_behind(snap, front, ids, 2);
    lemma_behind(snap, front, ids, 1);
    assert(o == b4 + b3 + b2 + b1 + f);
    let (n4, n3, n2, n1) = (
        b4.len() as int,
        (b4.len() + b3.len()) as int,
        (b4.len() + b3.len() + b2.len()) as int,
        (b4.len() + b3.len() + b2.len() + b1.len()) as int,
    );
    assert forall|i: int| 0 <= i < o.len() implies #[trigger] o[i] == (if i < n4 {
        b4[i]
    } else if i < n3 {
        b3[i - n4]
    } else if i < n2 {
        b2[i - n3]
    } else if i < n1 {
        b1[i - n2]
    } else {
        f[i - n1]
    }) by {}
    assert forall|i: int, j: int| 0 <= i < j < o.len() implies lies_behind(
        snap,
        front,
        #[trigger] o[i],
        #[trigger] o[j],
    ) by {}
    assert forall|x: u16| #[trigger] o.contains(x) <==> ids.contains(x) by {
        if o.contains(x) {
            let i = choose|i: int| 0 <= i < o.len() && o[i] == x;
            assert(o[i] == x);
        }
        if ids.contains(x) {
            if Some(x) == front {
                assert(o[n1] == x);
            } else {
                lemma_weight(snap, x);
                let w = weight(snap, x);
                if w == 4 {
                    assert(b4.contains(x));
                    let i = choose|i: int| 0 <= i < b4.len() && b4[i] == x;
                    assert(o[i] == x);
                } else if w == 3 {
                    assert(b3.contains(x));
                    let i = choose|i: int| 0 <= i < b3.len() && b3[i] == x;
                    assert(o[n4 + i] == x);
                } else if w == 2 {
                    assert(b2.contains(x));
                    let i = choose|i: int| 0 <= i < b2.len() && b2[i] == x;
                    assert(o[n3 + i] == x);
                } else {
                    assert(b1.contains(x));
                    let i = choose|i: int| 0 <= i < b1.len() && b1[i] == x;
                    assert(o[n2 + i] == x);
                }
            }
        }
    }
}

/// Of more than four cards the first four stay, or the first three and the front
/// card where there is one.
pub proof fn law_stack_is_cut(ids: Seq<u16>, has_front: bool)
    ensures
        ids.len() <= 4 ==> cut(ids, has_front) == ids,
        ids.len() > 4 && !has_front ==> cut(ids, has_front) == ids.take(4),
        ids.len() > 4 && has_front ==> cut(ids, has_front) == ids.take(3).push(ids.last()),
{
}

/// The stack shows the cards in their order, cut to size, each with whether it is
/// the front card and whether its script has a session at work.
pub proof fn law_stack_shows_cards(snap: SnapModel, session: Option<Seq<char>>, now: u64, state: Map<u16, StackState>, i: int)
    ensures
        ({
            let front = front_of(snap, session);
            let ids = ordered::<u16>(shown(snap, now, state));
            let cards = stack(snap, session, now, state);
            let c = cut(order(snap, front, ids), front is Some && ids.contains(front->0));
            &&& cards.len() == c.len()
            &&& 0 <= i < cards.len() ==> cards[i].id == c[i] && cards[i].front == (front == Some(c[i]))
                && cards[i].working == has_session(snap.working, c[i])
        }),
{
}

/// The front card is that of the script whose session is followed.
pub proof fn law_front_follows_session(snap: SnapModel, id: Seq<char>, i: int)
    requires
        0 <= i < snap.working.len() + snap.thinking.len(),
        (snap.working + snap.thinking)[i].session_id == id,
        forall|j: int| 0 <= j < i ==> (#[trigger] (snap.working + snap.thinking)[j]).session_id != id,
    ensures
        front_of(snap, Some(id)) == match (snap.working + snap.thinking)[i].source {
            Source::Script(k) => Some(k),
            _ => None,
        },
        front_of(snap, None) is None,
{
    lemma_first(snap.working + snap.thinking, id, i);
}

proof fn lemma_first(v: Seq<InfoModel>, id: Seq<char>, i: int)
    requires
        0 <= i < v.len(),
        v[i].session_id == id,
        forall|j: int| 0 <= j < i ==> (#[trigger] v[j]).session_id != id,
    ensures
        crate::bubble_text::first_where(v, |s: InfoModel| s.session_id == id) == Some(v[i]),
    decreases v.len(),
{
    if i > 0 {
        let t = v.drop_first();
        assert(v[0].session_id != id);
        assert(t[i - 1] == v[i]);
        assert forall|j: int| 0 <= j < i - 1 implies (#[trigger] t[j]).session_id != id by {
            assert(t[j] == v[j + 1]);
        }
        lemma_first(t, id, i - 1);
    }
}

} // verus!
