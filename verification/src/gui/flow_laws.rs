//! What the bubble says from tick to tick.

use vstd::prelude::*;
use vstd::string::*;

use crate::bubble_stack::{next_state, source_of, stack, StackCard, StackState};
use crate::bubble_text::{bubble_of, rotated, stream_of, BubbleModel, StreamModel};
use crate::event::{Mode, Source};
use crate::gui::flow::{card_ids, typed, FlowConfig, FlowModel, RevealModel};
use crate::state::SnapModel;

verus! {

/// Typing goes on with this stream.
pub open spec fn goes_on(r: Option<RevealModel>, s: StreamModel) -> bool {
    r is Some && r->0.session == s.session_id && r->0.kind == s.kind
}

/// Typing shows as many characters as there has been time for, and starts over
/// with a stream that is new; it skips what lies more than 240 characters back.
pub proof fn law_typing_rate(r: Option<RevealModel>, s: StreamModel, cps: u32, dt: u64)
    requires
        cps > 0,
        0 <= s.len <= 0xffff_ffff,
        cps * dt <= 0xffff_ffff_ffff,
        r is Some ==> r->0.pos <= 0xffff_ffff_ffff,
    ensures
        ({
            let (next, shown) = typed(r, Some(s), cps, dt);
            let from = if goes_on(r, s) { r->0.pos as int } else { 0 };
            let due = (from + cps * dt) / 1000;
            &&& next is Some && next->0.session == s.session_id && next->0.kind == s.kind
            &&& due >= s.len ==> shown == Some(s.len)
            &&& due < s.len && s.len - due <= 240 ==> shown == Some(due)
            &&& due < s.len && s.len - due > 240 ==> shown == Some(s.len - 240)
            &&& s.len - due <= 240 ==> next->0.pos == from + cps * dt
            &&& s.len - due > 240 ==> next->0.pos == (s.len - 240) * 1000
        }),
{
    assert(0 <= cps * dt) by (nonlinear_arith);
}

/// Without a stream, or with typing switched off, nothing is typed and nothing is
/// held back.
pub proof fn law_no_typing(r: Option<RevealModel>, s: Option<StreamModel>, cps: u32, dt: u64)
    requires
        cps == 0 || s is None,
    ensures
        typed(r, s, cps, dt).0 is None,
        typed(r, s, cps, dt).1 is None,
{
}

/// No card is on show or remembered.
pub open spec fn no_cards(m: FlowModel) -> bool {
    &&& m.cards.len() == 0
    &&& forall|id: u16| !#[trigger] m.state.contains_key(id)
    &&& forall|id: u16| !#[trigger] m.pool.contains_key(id)
}

/// At rest, offline and while it is dragged the companion says nothing and
/// forgets whose turn it was.
pub proof fn law_rest_says_nothing(
    m: FlowModel,
    snap: SnapModel,
    source: Option<Source>,
    mode: Mode,
    stacking: bool,
    now: u64,
    dt: u64,
    c: FlowConfig,
)
    requires
        mode == Mode::Idle || mode == Mode::Offline || mode == Mode::Move,
    ensures
        ({
            let n = m.ticked(snap, source, mode, stacking, now, dt, c).0;
            &&& n.text.title.len() == 0 && n.text.from is None && n.text.lines.len() == 0
            &&& n.pick is None && n.typing is None && n.stale_since is None
            &&& no_cards(n)
        }),
{
}

/// Results and requests are told in full at once, in a single bubble.
pub proof fn law_results_are_told(
    m: FlowModel,
    snap: SnapModel,
    source: Option<Source>,
    mode: Mode,
    stacking: bool,
    now: u64,
    dt: u64,
    c: FlowConfig,
)
    requires
        mode == Mode::Done || mode == Mode::Failed || mode == Mode::Attention,
    ensures
        ({
            let (n, redraw) = m.ticked(snap, source, mode, stacking, now, dt, c);
            &&& n.text == bubble_of(snap, source, None, None, c.max_chars as int)
            &&& n.pick is None && n.typing is None && n.stale_since is None
            &&& no_cards(n)
            &&& n.text != m.text ==> redraw
        }),
{
}

/// What was said has stood for at least `ms`.
pub open spec fn stood_for(since: Option<u64>, now: u64, ms: u64) -> bool {
    since is Some && (now - since->0 >= ms || ms == 0)
}

/// At work and in thought the bubble says what the session says whose turn it is,
/// as far as it has been typed out. The turn goes round when what was said has
/// stood for long enough, and the time starts anew with everything new.
pub proof fn law_turn_is_followed(
    m: FlowModel,
    snap: SnapModel,
    source: Option<Source>,
    mode: Mode,
    now: u64,
    dt: u64,
    c: FlowConfig,
)
    requires
        mode == Mode::Working || mode == Mode::Thinking,
    ensures
        ({
            let (n, redraw) = m.ticked(snap, source, mode, false, now, dt, c);
            let pick = rotated(snap, source, mode, m.pick, stood_for(m.stale_since, now, c.rotate_ms));
            let (typing, shown) = typed(m.typing, stream_of(snap, source, mode, pick), c.type_cps, dt);
            &&& n.pick == pick
            &&& n.typing == typing
            &&& n.text == bubble_of(snap, source, pick, shown, c.max_chars as int)
            &&& n.text != m.text || pick != m.pick ==> n.stale_since == Some(now)
            &&& n.text == m.text && pick == m.pick ==> n.stale_since == m.stale_since
            &&& n.text != m.text ==> redraw
            &&& no_cards(n)
        }),
{
}

/// In a stack the cards are those of the scripts at work, the turn goes round
/// over all sources, and the front card says what the session says whose turn it
/// is. Each card has been on show since it first was.
pub proof fn law_stack_is_followed(
    m: FlowModel,
    snap: SnapModel,
    source: Option<Source>,
    mode: Mode,
    now: u64,
    dt: u64,
    c: FlowConfig,
    id: u16,
)
    requires
        mode == Mode::Working || mode == Mode::Thinking,
        c.rotate_ms > 0,
    ensures
        ({
            let (n, redraw) = m.ticked(snap, source, mode, true, now, dt, c);
            let pick = rotated(snap, None, mode, m.pick, stood_for(m.stale_since, now, c.rotate_ms));
            let who = source_of(snap, pick);
            &&& n.pick == pick
            &&& n.cards == stack(snap, pick, now, m.state)
            &&& n.state == next_state(snap, now, m.state)
            &&& n.pool.contains_key(id) <==> exists|i: int| 0 <= i < n.cards.len() && (#[trigger] n.cards[i]).id == id
            &&& n.pool.contains_key(id) ==> n.pool[id] == (if m.pool.contains_key(id) { m.pool[id] } else { now })
            &&& who is None ==> n.text.title.len() == 0 && n.text.lines.len() == 0
            &&& who is Some ==> ({
                let (typing, shown) = typed(m.typing, stream_of(snap, who, mode, pick), c.type_cps, dt);
                let b = bubble_of(snap, who, pick, shown, c.max_chars as int);
                n.typing == typing && n.text.lines == b.lines && n.text.from == b.from
            })
            &&& n.text != m.text ==> redraw && n.stale_since == Some(now)
        }),
{
    let n = m.ticked(snap, source, mode, true, now, dt, c).0;
    lemma_card_ids(n.cards, id);
}

proof fn lemma_card_ids(cards: Seq<StackCard>, id: u16)
    ensures
        card_ids(cards).contains(id) <==> exists|i: int| 0 <= i < cards.len() && (#[trigger] cards[i]).id == id,
{
    let ids = cards.map_values(|c: StackCard| c.id);
    if card_ids(cards).contains(id) {
        let i = choose|i: int| 0 <= i < ids.len() && ids[i] == id;
        assert(cards[i].id == id);
    }
    if exists|i: int| 0 <= i < cards.len() && (#[trigger] cards[i]).id == id {
        let i = choose|i: int| 0 <= i < cards.len() && (#[trigger] cards[i]).id == id;
        assert(ids[i] == id);
        assert(ids.contains(id));
    }
}

/// A card behind the front has no lines; the front card has those of the bubble.
pub proof fn law_cards_say(m: FlowModel, snap: SnapModel, max_chars: int, i: int)
    requires
        0 <= i < m.cards.len(),
    ensures
        ({
            let t = m.card_text(snap, max_chars, i);
            &&& m.cards[i].front ==> t.lines == m.text.lines && t.from == m.text.from
            &&& !m.cards[i].front ==> t.lines.len() == 0
        }),
{
}

/// A stack is drawn again while a card appears, which takes a fifth of a second,
/// and whenever its cards or its words change, and not otherwise.
pub proof fn law_stack_is_drawn(
    m: FlowModel,
    snap: SnapModel,
    source: Option<Source>,
    mode: Mode,
    now: u64,
    dt: u64,
    c: FlowConfig,
    id: u16,
)
    requires
        mode == Mode::Working || mode == Mode::Thinking,
    ensures
        ({
            let (n, redraw) = m.ticked(snap, source, mode, true, now, dt, c);
            &&& n.pool.contains_key(id) && now - n.pool[id] < 200 ==> redraw
            &&& n.pool.contains_key(id) != m.pool.contains_key(id) ==> redraw
            &&& n.text == m.text && n.pool.dom() == m.pool.dom() && (forall|k: u16| #[trigger]
                n.pool.contains_key(k) ==> now - n.pool[k] >= 200) ==> !redraw
        }),
{
    let n = m.ticked(snap, source, mode, true, now, dt, c).0;
    assert(n.pool.dom() =~= card_ids(n.cards));
    if n.pool.contains_key(id) != m.pool.contains_key(id) {
        assert(n.pool.dom().contains(id) != m.pool.dom().contains(id));
    }
}

/// A card is titled by what its own script does.
pub proof fn law_cards_are_titled(m: FlowModel, snap: SnapModel, max_chars: int, i: int)
    requires
        0 <= i < m.cards.len(),
    ensures
        ({
            let works = exists|k: int|
                0 <= k < snap.working.len() && (#[trigger] snap.working[k]).source == Source::Script(m.cards[i].id);
            let t = m.card_text(snap, max_chars, i).title;
            &&& works ==> t == "正在干活…"@
            &&& !works ==> t == "思考中…"@
        }),
{
}

/// There were cards on show, or there were about to be.
pub open spec fn had_cards(m: FlowModel) -> bool {
    m.cards.len() > 0 || m.state != Map::<u16, StackState>::empty() || m.pool != Map::<u16, u64>::empty()
}

/// A single bubble is drawn again where its words change or cards go, and not
/// otherwise.
pub proof fn law_single_is_drawn(
    m: FlowModel,
    snap: SnapModel,
    source: Option<Source>,
    mode: Mode,
    stacking: bool,
    now: u64,
    dt: u64,
    c: FlowConfig,
)
    requires
        !stacking || !(mode == Mode::Working || mode == Mode::Thinking),
    ensures
        ({
            let (n, redraw) = m.ticked(snap, source, mode, stacking, now, dt, c);
            redraw <==> n.text != m.text || had_cards(m)
        }),
{
}

/// The front card of a stack is titled by what its source does; the time since when
/// nothing changed goes on while neither the turn nor the words change; without a
/// session to follow nothing is typed.
pub proof fn law_front_of_the_stack(
    m: FlowModel,
    snap: SnapModel,
    source: Option<Source>,
    mode: Mode,
    now: u64,
    dt: u64,
    c: FlowConfig,
)
    requires
        mode == Mode::Working || mode == Mode::Thinking,
    ensures
        ({
            let n = m.ticked(snap, source, mode, true, now, dt, c).0;
            let who = source_of(snap, n.pick);
            let works = exists|k: int| 0 <= k < snap.working.len() && (#[trigger] snap.working[k]).source == who->0;
            &&& who is Some && works ==> n.text.title == "正在干活…"@
            &&& who is Some && !works ==> n.text.title == "思考中…"@
            &&& who is None ==> n.typing is None && n.text.from is None
            &&& n.text == m.text && n.pick == m.pick ==> n.stale_since == m.stale_since
            &&& n.pick != m.pick ==> n.stale_since == Some(now)
            &&& c.rotate_ms == 0 ==> n.pick == rotated(snap, None, mode, m.pick, stood_for(m.stale_since, now, 1))
        }),
{
}

/// A card behind the front names its client as a bubble of its own would.
pub proof fn law_back_cards_name_clients(m: FlowModel, snap: SnapModel, max_chars: int, i: int)
    requires
        0 <= i < m.cards.len(),
        !m.cards[i].front,
    ensures
        m.card_text(snap, max_chars, i).from == bubble_of(
            snap,
            Some(Source::Script(m.cards[i].id)),
            None,
            None,
            max_chars,
        ).from,
{
}

} // verus!
