//! What the bubble says from tick to tick: whose turn it is, how much of a
//! stream has been typed out, and which cards are stacked.

use vstd::prelude::*;
use vstd::string::*;

use crate::bubble_stack::{
    fix_card_title, front_source, next_state, source_of, stack, stack_cards, title_of_card, StackCard, StackState,
};
use crate::bubble_text::{
    bubble_of, bubble_text_pinned, live_stream_pinned, opt_int, opt_str, rotate_pick, rotated, stream_of, BubbleModel,
    BubbleText, LiveStream, StreamModel,
};
use crate::event::{Mode, Source};
use crate::ordmap::{lists, ordered, OrdMap};
use crate::state::{SnapModel, Snapshot};
use crate::text::{clone_opt, copy_texts, opt_text, same_lines, same_text, texts};

verus! {

/// How far typing may lag behind a fast stream, in characters.
pub const TYPE_LAG_CHARS: usize = 240;

/// How long a card takes to appear, in milliseconds.
pub const APPEAR_MS: u64 = 200;

/// How far a stream has been typed out.
pub struct Reveal {
    pub session: String,
    pub kind: u8,
    /// Thousandths of a character.
    pub pos: u64,
}

/// Model of a [`Reveal`].
pub struct RevealModel {
    pub session: Seq<char>,
    pub kind: u8,
    pub pos: u64,
}

/// Model of a typing that may not be going on.
pub open spec fn opt_reveal(o: Option<Reveal>) -> Option<RevealModel> {
    match o {
        Some(r) => Some(RevealModel { session: r.session@, kind: r.kind, pos: r.pos }),
        None => None,
    }
}

/// Model of a stream that may not be there.
pub open spec fn opt_stream(o: Option<LiveStream>) -> Option<StreamModel> {
    match o {
        Some(s) => Some(s@),
        None => None,
    }
}

/// The typing goes on with the same stream.
pub open spec fn same_stream(r: Option<RevealModel>, s: Option<StreamModel>) -> bool {
    match (r, s) {
        (Some(a), Some(b)) => a.session == b.session_id && a.kind == b.kind,
        (None, None) => true,
        _ => false,
    }
}

/// The smaller of two numbers.
pub open spec fn least(a: int, b: int) -> int {
    if a < b {
        a
    } else {
        b
    }
}

/// Typing at `cps` characters per second for `dt` milliseconds: how far it is
/// then, and how many characters are shown. A new stream starts over; one that
/// runs away is caught up with.
pub open spec fn typed(
    typing: Option<RevealModel>,
    stream: Option<StreamModel>,
    cps: u32,
    dt: u64,
) -> (Option<RevealModel>, Option<int>) {
    if cps == 0 {
        (None, None)
    } else {
        match stream {
            None => (None, None),
            Some(s) => {
                let from = if same_stream(typing, stream) {
                    typing->0.pos as int
                } else {
                    0
                };
                let pos = least(from + cps * dt, u64::MAX as int);
                let pos = if s.len - least(pos / 1000, s.len) > TYPE_LAG_CHARS {
                    least((s.len - TYPE_LAG_CHARS) * 1000, u64::MAX as int)
                } else {
                    pos
                };
                (
                    Some(RevealModel { session: s.session_id, kind: s.kind, pos: pos as u64 }),
                    Some(least(pos / 1000, s.len)),
                )
            },
        }
    }
}

fn chars_at(pos: u64, len: usize) -> (r: usize)
    ensures
        r == least(pos as int / 1000, len as int),
{
    let whole: u64 = pos / 1000;
    if whole < len as u64 {
        whole as usize
    } else {
        len
    }
}

/// Types on; returns how many characters are shown.
pub fn type_on(typing: &mut Option<Reveal>, stream: &Option<LiveStream>, cps: u32, dt: u64) -> (r: Option<usize>)
    ensures
        (opt_reveal(*final(typing)), opt_int(r)) == typed(opt_reveal(*old(typing)), opt_stream(*stream), cps, dt),
{
    if cps == 0 {
        *typing = None;
        return None;
    }
    match stream {
        None => {
            *typing = None;
            None
        },
        Some(s) => {
            let from: u64 = match typing {
                Some(r) => if same_text(r.session.as_str(), s.session_id.as_str()) && r.kind == s.kind {
                    r.pos
                } else {
                    0
                },
                None => 0,
            };
            let grown: u128 = {
                proof {
                    assert(0 <= cps * dt <= 0xffff_ffff * 0xffff_ffff_ffff_ffff) by (nonlinear_arith)
                        requires
                            0 <= cps <= 0xffff_ffff,
                            0 <= dt <= 0xffff_ffff_ffff_ffff,
                    ;
                }
                from as u128 + cps as u128 * dt as u128
            };
            let most: u128 = u64::MAX as u128;
            let pos: u64 = if grown < most {
                grown as u64
            } else {
                u64::MAX
            };
            let pos: u64 = if s.len - chars_at(pos, s.len) > TYPE_LAG_CHARS {
                let caught: u128 = (s.len - TYPE_LAG_CHARS) as u128 * 1000;
                if caught < most {
                    caught as u64
                } else {
                    u64::MAX
                }
            } else {
                pos
            };
            *typing = Some(Reveal { session: s.session_id.clone(), kind: s.kind, pos });
            Some(chars_at(pos, s.len))
        },
    }
}

/// Typing never lags more than a window behind what has streamed in.
pub proof fn law_typing_keeps_up(r: Option<RevealModel>, s: StreamModel, cps: u32, dt: u64)
    requires
        cps > 0,
        0 <= s.len <= 0xffff_ffff,
    ensures
        ({
            let (_, shown) = typed(r, Some(s), cps, dt);
            &&& shown is Some
            &&& 0 <= shown->0 <= s.len
            &&& s.len - shown->0 <= TYPE_LAG_CHARS
        }),
{
    assert(0 <= cps * dt) by (nonlinear_arith);
}

/// Typing shows more and more of a stream that does not change.
pub proof fn law_typing_never_goes_back(r: Option<RevealModel>, s: StreamModel, cps: u32, dt: u64, dt2: u64)
    requires
        cps > 0,
        0 <= s.len <= 0xffff_ffff,
    ensures
        ({
            let (next, shown) = typed(r, Some(s), cps, dt);
            let (_, later) = typed(next, Some(s), cps, dt2);
            shown->0 <= later->0
        }),
{
    assert(0 <= cps * dt) by (nonlinear_arith);
    assert(0 <= cps * dt2) by (nonlinear_arith);
}

/// What the bubble says, and what it remembers for the next tick.
pub struct Flow {
    /// The session whose turn it is.
    pub pick: Option<String>,
    /// Since when what it says has not changed.
    pub stale_since: Option<u64>,
    pub typing: Option<Reveal>,
    pub text: BubbleText,
    /// Which scripts have, or are about to have, a card.
    pub state: OrdMap<u16, StackState>,
    /// The cards on show, from back to front.
    pub cards: Vec<StackCard>,
    /// Since when each card has been on show.
    pub pool: OrdMap<u16, u64>,
}

/// Model of a [`Flow`].
#[verifier::ext_equal]
pub struct FlowModel {
    pub pick: Option<Seq<char>>,
    pub stale_since: Option<u64>,
    pub typing: Option<RevealModel>,
    pub text: BubbleModel,
    pub state: Map<u16, StackState>,
    pub cards: Seq<StackCard>,
    pub pool: Map<u16, u64>,
}

impl View for Flow {
    type V = FlowModel;

    open spec fn view(&self) -> FlowModel {
        FlowModel {
            pick: opt_text(self.pick),
            stale_since: self.stale_since,
            typing: opt_reveal(self.typing),
            text: self.text@,
            state: self.state@,
            cards: self.cards@,
            pool: self.pool@,
        }
    }
}

/// How the bubble is set up.
#[derive(Debug, Clone, Copy)]
pub struct FlowConfig {
    /// How long a message may stay unchanged before another has its turn.
    pub rotate_ms: u64,
    /// Characters per second; none for no typing.
    pub type_cps: u32,
    /// How much of a stream is shown.
    pub max_chars: usize,
}

/// What has been said for `rotate_ms` has gone stale.
pub open spec fn is_stale(since: Option<u64>, now: u64, rotate_ms: u64) -> bool {
    match since {
        Some(at) => (if now < at {
            0
        } else {
            now - at
        }) >= rotate_ms,
        None => false,
    }
}

/// The text of a card behind the front: its head alone.
pub open spec fn back_text(snap: SnapModel, id: u16, max_chars: int) -> BubbleModel {
    BubbleModel {
        title: title_of_card(snap, Source::Script(id)),
        lines: Seq::empty(),
        ..bubble_of(snap, Some(Source::Script(id)), None, None, max_chars)
    }
}

/// The text of the front card.
pub open spec fn front_text(
    snap: SnapModel,
    source: Option<Source>,
    pick: Option<Seq<char>>,
    shown: Option<int>,
    max_chars: int,
) -> BubbleModel {
    match source {
        Some(src) => BubbleModel {
            title: title_of_card(snap, src),
            ..bubble_of(snap, Some(src), pick, shown, max_chars)
        },
        None => BubbleModel::empty(),
    }
}

/// The ids of cards.
pub open spec fn card_ids(cards: Seq<StackCard>) -> Set<u16> {
    cards.map_values(|c: StackCard| c.id).to_set()
}

impl FlowModel {
    /// No card is on show, and none is about to be.
    pub open spec fn unstacked(self) -> FlowModel {
        FlowModel { state: Map::empty(), cards: Seq::empty(), pool: Map::empty(), ..self }
    }

    /// There are cards, or there are about to be.
    pub open spec fn has_stack(self) -> bool {
        self.state != Map::<u16, StackState>::empty() || self.cards.len() > 0 || self.pool != Map::<u16, u64>::empty()
    }

    /// The bubble says nothing.
    pub open spec fn silent(self) -> (FlowModel, bool) {
        (
            FlowModel {
                pick: None,
                stale_since: None,
                typing: None,
                text: BubbleModel::empty(),
                ..self.unstacked()
            },
            self.has_stack() || self.text != BubbleModel::empty(),
        )
    }

    /// The bubble tells of results and requests.
    pub open spec fn telling(self, snap: SnapModel, source: Option<Source>, c: FlowConfig) -> (FlowModel, bool) {
        let text = bubble_of(snap, source, None, None, c.max_chars as int);
        (
            FlowModel { pick: None, stale_since: None, typing: None, text, ..self.unstacked() },
            self.has_stack() || self.text != text,
        )
    }

    /// The session whose turn it is, and since when nothing has changed.
    pub open spec fn turned(self, snap: SnapModel, source: Option<Source>, mode: Mode, now: u64, rotate_ms: u64) -> (
        Option<Seq<char>>,
        Option<u64>,
    ) {
        let pick = rotated(snap, source, mode, self.pick, is_stale(self.stale_since, now, rotate_ms));
        (
            pick,
            if pick != self.pick {
                Some(now)
            } else {
                self.stale_since
            },
        )
    }

    /// The bubble follows one session at a time.
    pub open spec fn following(
        self,
        snap: SnapModel,
        source: Option<Source>,
        mode: Mode,
        now: u64,
        dt: u64,
        c: FlowConfig,
    ) -> (FlowModel, bool) {
        let (pick, since) = self.turned(snap, source, mode, now, c.rotate_ms);
        let (typing, shown) = typed(self.typing, stream_of(snap, source, mode, pick), c.type_cps, dt);
        let text = bubble_of(snap, source, pick, shown, c.max_chars as int);
        let changed = text != self.text;
        (
            FlowModel {
                pick,
                stale_since: if changed {
                    Some(now)
                } else {
                    since
                },
                typing,
                text,
                ..self.unstacked()
            },
            self.has_stack() || changed,
        )
    }

    /// The cards on show, and since when.
    pub open spec fn pooled(self, cards: Seq<StackCard>, now: u64) -> Map<u16, u64> {
        Map::new(
            |id: u16| card_ids(cards).contains(id),
            |id: u16| if self.pool.contains_key(id) {
                self.pool[id]
            } else {
                now
            },
        )
    }

    /// Some card is still appearing.
    pub open spec fn appearing(pool: Map<u16, u64>, now: u64) -> bool {
        exists|id: u16| #[trigger] pool.contains_key(id) && (if now < pool[id] {
            0
        } else {
            now - pool[id]
        }) < APPEAR_MS
    }

    /// The bubble is a stack of cards, one for each script at work; the front one
    /// follows one session at a time.
    pub open spec fn stacked(self, snap: SnapModel, mode: Mode, now: u64, dt: u64, c: FlowConfig) -> (FlowModel, bool) {
        let rotate = if c.rotate_ms < 1 {
            1
        } else {
            c.rotate_ms
        };
        let (pick, since) = self.turned(snap, None, mode, now, rotate);
        let source = source_of(snap, pick);
        let stream = if source is Some {
            stream_of(snap, source, mode, pick)
        } else {
            None
        };
        let (typing, shown) = typed(self.typing, stream, c.type_cps, dt);
        let text = front_text(snap, source, pick, shown, c.max_chars as int);
        let changed = text != self.text;
        let cards = stack(snap, pick, now, self.state);
        let pool = self.pooled(cards, now);
        (
            FlowModel {
                pick,
                stale_since: if changed {
                    Some(now)
                } else {
                    since
                },
                typing,
                text,
                state: next_state(snap, now, self.state),
                cards,
                pool,
            },
            changed || self.pool.dom() != card_ids(cards) || FlowModel::appearing(pool, now),
        )
    }

    /// The text of card `i`.
    pub open spec fn card_text(self, snap: SnapModel, max_chars: int, i: int) -> BubbleModel {
        let card = self.cards[i];
        if card.front {
            BubbleModel { title: title_of_card(snap, Source::Script(card.id)), ..self.text }
        } else {
            back_text(snap, card.id, max_chars)
        }
    }

    /// What the bubble says at a tick, and whether it has to be drawn again.
    pub open spec fn ticked(
        self,
        snap: SnapModel,
        source: Option<Source>,
        mode: Mode,
        stacking: bool,
        now: u64,
        dt: u64,
        c: FlowConfig,
    ) -> (FlowModel, bool) {
        if mode == Mode::Idle || mode == Mode::Offline || mode == Mode::Move {
            self.silent()
        } else if mode == Mode::Thinking || mode == Mode::Working {
            if stacking {
                self.stacked(snap, mode, now, dt, c)
            } else {
                self.following(snap, source, mode, now, dt, c)
            }
        } else {
            self.telling(snap, source, c)
        }
    }
}

/// Whether two bubbles say the same.
pub fn same_bubble(a: &BubbleText, b: &BubbleText) -> (r: bool)
    ensures
        r == (a@ == b@),
{
    let from = match (&a.from, &b.from) {
        (Some(x), Some(y)) => same_text(x.as_str(), y.as_str()),
        (None, None) => true,
        _ => false,
    };
    from && same_text(a.title.as_str(), b.title.as_str()) && same_lines(&a.lines, &b.lines)
}

/// Copies what a bubble says.
pub fn copy_bubble(t: &BubbleText) -> (r: BubbleText)
    ensures
        r@ == t@,
{
    BubbleText { title: t.title.clone(), from: clone_opt(&t.from), lines: copy_texts(&t.lines) }
}

fn same_opt(a: &Option<String>, b: &Option<String>) -> (r: bool)
    ensures
        r == (opt_text(*a) == opt_text(*b)),
{
    match (a, b) {
        (Some(x), Some(y)) => same_text(x.as_str(), y.as_str()),
        (None, None) => true,
        _ => false,
    }
}

fn as_ref_str<'a>(o: &'a Option<String>) -> (r: Option<&'a str>)
    ensures
        opt_str(r) == opt_text(*o),
{
    match o {
        Some(s) => Some(s.as_str()),
        None => None,
    }
}

fn has_gone_stale(since: Option<u64>, now: u64, rotate_ms: u64) -> (r: bool)
    ensures
        r == is_stale(since, now, rotate_ms),
{
    match since {
        Some(at) => now.saturating_sub(at) >= rotate_ms,
        None => false,
    }
}

fn has_card(cards: &Vec<StackCard>, id: u16) -> (r: bool)
    ensures
        r == card_ids(cards@).contains(id),
{
    let mut i: usize = 0;
    let n: usize = cards.len();
    let ghost ids = cards@.map_values(|c: StackCard| c.id);
    while i < n
        invariant
            i <= n == cards@.len(),
            ids == cards@.map_values(|c: StackCard| c.id),
            forall|j: int| 0 <= j < i ==> #[trigger] ids[j] != id,
        decreases n - i,
    {
        if cards[i].id == id {
            assert(ids[i as int] == id);
            assert(ids.contains(id));
            return true;
        }
        assert(ids[i as int] != id);
        i += 1;
    }
    assert(!ids.contains(id));
    false
}

/// Whether each card, and nothing else, is in the pool.
fn pool_matches(pool: &OrdMap<u16, u64>, cards: &Vec<StackCard>) -> (r: bool)
    ensures
        r == (pool@.dom() == card_ids(cards@)),
{
    let ghost d = pool@.dom();
    let ghost ids = card_ids(cards@);
    let n: usize = pool.len();
    let mut i: usize = 0;
    while i < n
        invariant
            i <= n,
            n == d.len(),
            n == ordered::<u16>(d).len(),
            d == pool@.dom(),
            ids == card_ids(cards@),
            lists::<u16>(ordered::<u16>(d), d),
            forall|j: int| 0 <= j < i ==> ids.contains(#[trigger] ordered::<u16>(d)[j]),
        decreases n - i,
    {
        let k: u16 = *pool.key_at(i);
        if !has_card(cards, k) {
            assert(d.contains(k));
            return false;
        }
        i += 1;
    }
    let m: usize = cards.len();
    let ghost seq = cards@.map_values(|c: StackCard| c.id);
    let mut j: usize = 0;
    while j < m
        invariant
            j <= m == cards@.len(),
            d == pool@.dom(),
            ids == seq.to_set(),
            seq == cards@.map_values(|c: StackCard| c.id),
            forall|k: int| 0 <= k < j ==> d.contains(#[trigger] seq[k]),
        decreases m - j,
    {
        if !pool.contains(&cards[j].id) {
            assert(seq[j as int] == cards@[j as int].id);
            assert(ids.contains(seq[j as int]));
            return false;
        }
        assert(seq[j as int] == cards@[j as int].id);
        j += 1;
    }
    proof {
        assert forall|x: u16| d.contains(x) implies ids.contains(x) by {
            assert(ordered::<u16>(d).contains(x));
        }
        assert forall|x: u16| ids.contains(x) implies d.contains(x) by {
            assert(seq.contains(x));
        }
        assert(d =~= ids);
    }
    true
}

/// The cards on show, and since when each has been.
fn build_pool(pool: &OrdMap<u16, u64>, cards: &Vec<StackCard>, now: u64) -> (r: OrdMap<u16, u64>)
    ensures
        r@ == Map::new(
            |id: u16| card_ids(cards@).contains(id),
            |id: u16| if pool@.contains_key(id) {
                pool@[id]
            } else {
                now
            },
        ),
{
    let mut out: OrdMap<u16, u64> = OrdMap::new();
    let ghost seq = cards@.map_values(|c: StackCard| c.id);
    let n: usize = cards.len();
    let mut i: usize = 0;
    while i < n
        invariant
            i <= n == cards@.len(),
            seq == cards@.map_values(|c: StackCard| c.id),
            forall|id: u16| #[trigger] out@.contains_key(id) <==> seq.take(i as int).contains(id),
            forall|id: u16| #[trigger]
                out@.contains_key(id) ==> out@[id] == if pool@.contains_key(id) {
                    pool@[id]
                } else {
                    now
                },
        decreases n - i,
    {
        let id: u16 = cards[i].id;
        let at: u64 = match pool.get(&id) {
            Some(t) => *t,
            None => now,
        };
        proof {
            assert(seq[i as int] == id);
            let a = seq.take(i as int);
            let b = seq.take(i as int + 1);
            assert(b =~= a.push(id));
            assert forall|x: u16| b.contains(x) <==> (a.contains(x) || x == id) by {
                if a.contains(x) {
                    let k = choose|k: int| 0 <= k < a.len() && a[k] == x;
                    assert(b[k] == x);
                }
                if x == id {
                    assert(b[i as int] == x);
                }
            }
        }
        out.insert(id, at);
        i += 1;
    }
    proof {
        assert(seq.take(n as int) =~= seq);
        assert forall|x: u16| card_ids(cards@).contains(x) <==> seq.contains(x) by {}
        assert(out@ =~= Map::new(
            |id: u16| card_ids(cards@).contains(id),
            |id: u16| if pool@.contains_key(id) {
                pool@[id]
            } else {
                now
            },
        ));
    }
    out
}

fn any_appearing(pool: &OrdMap<u16, u64>, now: u64) -> (r: bool)
    ensures
        r == FlowModel::appearing(pool@, now),
{
    let ghost d = pool@.dom();
    let n: usize = pool.len();
    let mut i: usize = 0;
    while i < n
        invariant
            i <= n,
            n == d.len(),
            n == ordered::<u16>(d).len(),
            d == pool@.dom(),
            lists::<u16>(ordered::<u16>(d), d),
            forall|j: int|
                0 <= j < i ==> (if now < pool@[#[trigger] ordered::<u16>(d)[j]] {
                    0
                } else {
                    now - pool@[ordered::<u16>(d)[j]]
                }) >= APPEAR_MS,
        decreases n - i,
    {
        let at: u64 = *pool.value_at(i);
        if now.saturating_sub(at) < APPEAR_MS {
            assert(pool@.contains_key(ordered::<u16>(d)[i as int]));
            return true;
        }
        i += 1;
    }
    proof {
        assert forall|id: u16| #[trigger] pool@.contains_key(id) implies (if now < pool@[id] {
            0
        } else {
            now - pool@[id]
        }) >= APPEAR_MS by {
            assert(ordered::<u16>(d).contains(id));
        }
    }
    false
}

/// The texts of bubbles.
pub open spec fn bubbles_of(v: Seq<BubbleText>) -> Seq<BubbleModel> {
    v.map_values(|t: BubbleText| t@)
}

impl Flow {
    /// The bubble says nothing.
    pub fn new() -> (r: Self)
        ensures
            r@ == (FlowModel {
                pick: None,
                stale_since: None,
                typing: None,
                text: BubbleModel::empty(),
                state: Map::empty(),
                cards: Seq::empty(),
                pool: Map::empty(),
            }),
    {
        Flow {
            pick: None,
            stale_since: None,
            typing: None,
            text: BubbleText::default(),
            state: OrdMap::new(),
            cards: Vec::new(),
            pool: OrdMap::new(),
        }
    }

    /// Drops the cards; returns whether there were any.
    pub fn clear_stack(&mut self) -> (r: bool)
        ensures
            r == old(self)@.has_stack(),
            final(self)@ == old(self)@.unstacked(),
    {
        let had = !self.state.is_empty() || self.cards.len() > 0 || !self.pool.is_empty();
        self.state = OrdMap::new();
        self.cards = Vec::new();
        self.pool = OrdMap::new();
        assert(self@ =~= old(self)@.unstacked());
        had
    }

    fn silence(&mut self) -> (r: bool)
        ensures
            (final(self)@, r) == old(self)@.silent(),
    {
        let had = self.clear_stack();
        let empty = BubbleText::default();
        let spoke = !same_bubble(&self.text, &empty);
        self.pick = None;
        self.stale_since = None;
        self.typing = None;
        self.text = empty;
        assert(self@ =~= old(self)@.silent().0);
        had || spoke
    }

    fn tell(&mut self, snap: &Snapshot, source: Option<Source>, c: &FlowConfig) -> (r: bool)
        ensures
            (final(self)@, r) == old(self)@.telling(snap@, source, *c),
    {
        let had = self.clear_stack();
        let text = bubble_text_pinned(snap, source, None, None, c.max_chars);
        let changed = !same_bubble(&text, &self.text);
        self.pick = None;
        self.stale_since = None;
        self.typing = None;
        self.text = text;
        assert(self@ =~= old(self)@.telling(snap@, source, *c).0);
        had || changed
    }

    /// Finds out whose turn it is.
    fn turn(&mut self, snap: &Snapshot, source: Option<Source>, mode: Mode, now: u64, rotate_ms: u64)
        ensures
            ({
                let (pick, since) = old(self)@.turned(snap@, source, mode, now, rotate_ms);
                final(self)@ == (FlowModel { pick, stale_since: since, ..old(self)@ })
            }),
    {
        let stale = has_gone_stale(self.stale_since, now, rotate_ms);
        let pick = rotate_pick(snap, source, mode, as_ref_str(&self.pick), stale);
        if !same_opt(&pick, &self.pick) {
            self.pick = pick;
            self.stale_since = Some(now);
        }
        proof {
            let (p, since) = old(self)@.turned(snap@, source, mode, now, rotate_ms);
            assert(self@ =~= (FlowModel { pick: p, stale_since: since, ..old(self)@ }));
        }
    }

    fn follow(&mut self, snap: &Snapshot, source: Option<Source>, mode: Mode, now: u64, dt: u64, c: &FlowConfig) -> (r:
        bool)
        ensures
            (final(self)@, r) == old(self)@.following(snap@, source, mode, now, dt, *c),
    {
        let had = self.clear_stack();
        self.turn(snap, source, mode, now, c.rotate_ms);
        let stream = live_stream_pinned(snap, source, mode, as_ref_str(&self.pick));
        let shown = type_on(&mut self.typing, &stream, c.type_cps, dt);
        let text = bubble_text_pinned(snap, source, as_ref_str(&self.pick), shown, c.max_chars);
        let changed = !same_bubble(&text, &self.text);
        if changed {
            self.stale_since = Some(now);
            self.text = text;
        }
        assert(self@ =~= old(self)@.following(snap@, source, mode, now, dt, *c).0);
        had || changed
    }

    fn pile(&mut self, snap: &Snapshot, mode: Mode, now: u64, dt: u64, c: &FlowConfig) -> (r: bool)
        ensures
            (final(self)@, r) == old(self)@.stacked(snap@, mode, now, dt, *c),
    {
        let rotate: u64 = if c.rotate_ms < 1 {
            1
        } else {
            c.rotate_ms
        };
        self.turn(snap, None, mode, now, rotate);
        let source = front_source(snap, as_ref_str(&self.pick));
        let stream = match source {
            Some(_) => live_stream_pinned(snap, source, mode, as_ref_str(&self.pick)),
            None => None,
        };
        let shown = type_on(&mut self.typing, &stream, c.type_cps, dt);
        let text = match source {
            Some(src) => {
                let mut t = bubble_text_pinned(snap, source, as_ref_str(&self.pick), shown, c.max_chars);
                fix_card_title(&mut t, snap, src);
                t
            },
            None => BubbleText::default(),
        };
        let changed = !same_bubble(&text, &self.text);
        if changed {
            self.stale_since = Some(now);
            self.text = text;
        }
        let cards = stack_cards(snap, as_ref_str(&self.pick), now, &mut self.state);
        let moved = !pool_matches(&self.pool, &cards);
        self.pool = build_pool(&self.pool, &cards, now);
        self.cards = cards;
        let appearing = any_appearing(&self.pool, now);
        assert(self@ =~= old(self)@.stacked(snap@, mode, now, dt, *c).0);
        changed || moved || appearing
    }

    /// The texts of the cards, from back to front: the front card tells what its
    /// session does, the others show their head alone.
    pub fn card_texts(&self, snap: &Snapshot, max_chars: usize) -> (r: Vec<BubbleText>)
        ensures
            bubbles_of(r@) == Seq::new(
                self@.cards.len(),
                |i: int| self@.card_text(snap@, max_chars as int, i),
            ),
    {
        let ghost goal = Seq::new(self@.cards.len(), |i: int| self@.card_text(snap@, max_chars as int, i));
        let mut out: Vec<BubbleText> = Vec::new();
        let n: usize = self.cards.len();
        let mut i: usize = 0;
        assert(bubbles_of(out@) =~= goal.take(0));
        while i < n
            invariant
                i <= n == self.cards@.len(),
                goal == Seq::new(self@.cards.len(), |i: int| self@.card_text(snap@, max_chars as int, i)),
                bubbles_of(out@) == goal.take(i as int),
            decreases n - i,
        {
            let card = self.cards[i];
            let source = Source::Script(card.id);
            let mut t = if card.front {
                copy_bubble(&self.text)
            } else {
                let b = bubble_text_pinned(snap, Some(source), None, None, max_chars);
                let bare = BubbleText { title: b.title, from: b.from, lines: Vec::new() };
                assert(texts(bare.lines@) =~= Seq::<Seq<char>>::empty());
                bare
            };
            fix_card_title(&mut t, snap, source);
            let ghost before = out@;
            assert(t@ == goal[i as int]);
            out.push(t);
            proof {
                assert(bubbles_of(out@) =~= bubbles_of(before).push(goal[i as int]));
                assert(goal.take(i as int + 1) =~= goal.take(i as int).push(goal[i as int]));
            }
            i += 1;
        }
        assert(goal.take(n as int) =~= goal);
        out
    }

    /// The text of the single bubble: none while the cards stand in its place.
    pub fn single_text(&self, mode: Mode, stacking: bool) -> (r: BubbleText)
        ensures
            r@ == if stacking && (mode == Mode::Thinking || mode == Mode::Working) {
                BubbleModel::empty()
            } else {
                self@.text
            },
    {
        if stacking && (mode == Mode::Thinking || mode == Mode::Working) {
            BubbleText::default()
        } else {
            copy_bubble(&self.text)
        }
    }

    /// Lets a tick pass; returns whether the bubble has to be drawn again.
    pub fn update(
        &mut self,
        snap: &Snapshot,
        source: Option<Source>,
        mode: Mode,
        stacking: bool,
        now: u64,
        dt: u64,
        c: &FlowConfig,
    ) -> (r: bool)
        ensures
            (final(self)@, r) == old(self)@.ticked(snap@, source, mode, stacking, now, dt, *c),
    {
        match mode {
            Mode::Idle | Mode::Offline | Mode::Move => self.silence(),
            Mode::Thinking | Mode::Working => if stacking {
                self.pile(snap, mode, now, dt, c)
            } else {
                self.follow(snap, source, mode, now, dt, c)
            },
            _ => self.tell(snap, source, c),
        }
    }
}

/// At rest the bubble says nothing, whatever was said before.
pub proof fn law_rest_is_silent(
    f: FlowModel,
    snap: SnapModel,
    source: Option<Source>,
    mode: Mode,
    stacking: bool,
    now: u64,
    dt: u64,
    c: FlowConfig,
)
    requires
        mode == Mode::Idle || mode == Mode::Offline || mode == Mode::Move,
    ensures
        f.ticked(snap, source, mode, stacking, now, dt, c).0.text == BubbleModel::empty(),
        f.ticked(snap, source, mode, stacking, now, dt, c).0.cards.len() == 0,
{
}

/// Whatever changes what the bubble says is drawn.
pub proof fn law_change_is_drawn(
    f: FlowModel,
    snap: SnapModel,
    source: Option<Source>,
    mode: Mode,
    stacking: bool,
    now: u64,
    dt: u64,
    c: FlowConfig,
)
    ensures
        ({
            let (n, draw) = f.ticked(snap, source, mode, stacking, now, dt, c);
            n.text != f.text ==> draw
        }),
{
}

/// A session keeps its turn as long as what it says goes on changing: after a
/// change nothing is stale until a whole turn has passed.
pub proof fn law_change_keeps_the_turn(
    f: FlowModel,
    snap: SnapModel,
    source: Option<Source>,
    mode: Mode,
    stacking: bool,
    now: u64,
    dt: u64,
    c: FlowConfig,
    later: u64,
)
    requires
        mode == Mode::Thinking || mode == Mode::Working,
        c.rotate_ms > 0,
        now <= later < now + c.rotate_ms,
        f.ticked(snap, source, mode, stacking, now, dt, c).0.text != f.text,
    ensures
        !is_stale(f.ticked(snap, source, mode, stacking, now, dt, c).0.stale_since, later, c.rotate_ms),
{
}

} // verus!
