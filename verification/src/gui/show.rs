//! What the window shows: which animation, from when on, what is loaded next,
//! which sounds are played, and when anything has to be drawn again.

use vstd::prelude::*;
use vstd::string::*;

use crate::anim::{Animation, Player};
use crate::event::Mode;
use crate::text::{opt_text, own, same_text};

verus! {

/// What is on show.
pub struct Show {
    /// The mode on show.
    pub mode: Mode,
    /// The mode of the state machine.
    pub base_mode: Mode,
    /// The mode whose animation is awaited.
    pub pending: Option<Mode>,
    /// The animation that is being loaded.
    pub loading: Option<String>,
    /// The animation on show.
    pub anim: Option<String>,
    /// A separate animation to repeat has been loaded.
    pub loop_ready: bool,
    /// The first pass is over.
    pub loop_switched: bool,
    /// The mode at the last tick, for sounds.
    pub sound_prev: Mode,
    /// Something has to be drawn again.
    pub dirty: bool,
}

/// Model of a [`Show`].
#[verifier::ext_equal]
pub struct ShowModel {
    pub mode: Mode,
    pub base_mode: Mode,
    pub pending: Option<Mode>,
    pub loading: Option<Seq<char>>,
    pub anim: Option<Seq<char>>,
    pub loop_ready: bool,
    pub loop_switched: bool,
    pub sound_prev: Mode,
    pub dirty: bool,
}

impl View for Show {
    type V = ShowModel;

    open spec fn view(&self) -> ShowModel {
        ShowModel {
            mode: self.mode,
            base_mode: self.base_mode,
            pending: self.pending,
            loading: opt_text(self.loading),
            anim: opt_text(self.anim),
            loop_ready: self.loop_ready,
            loop_switched: self.loop_switched,
            sound_prev: self.sound_prev,
            dirty: self.dirty,
        }
    }
}

/// An animation to load, and the mode that it is for.
pub struct Load {
    pub mode: Mode,
    pub asset: String,
}

/// Model of a [`Load`].
pub struct LoadModel {
    pub mode: Mode,
    pub asset: Seq<char>,
}

/// Model of a load that may not be needed.
pub open spec fn opt_load(l: Option<Load>) -> Option<LoadModel> {
    match l {
        Some(x) => Some(LoadModel { mode: x.mode, asset: x.asset@ }),
        None => None,
    }
}

/// What becomes of the player.
#[derive(Debug, Clone, Copy, PartialEq, Eq, Structural)]
pub enum Play {
    Keep,
    Restart,
    Stop,
}

/// The mode on show: a companion at rest moves while it is dragged, a busy one
/// goes on with what it does.
pub open spec fn effective(base: Mode, dragging: bool) -> Mode {
    if dragging && base == Mode::Idle {
        Mode::Move
    } else {
        base
    }
}

/// The mode on show.
pub fn effective_mode(base: Mode, dragging: bool) -> (r: Mode)
    ensures
        r == effective(base, dragging),
{
    if dragging && base == Mode::Idle {
        Mode::Move
    } else {
        base
    }
}

fn is_named(o: &Option<String>, name: &str) -> (r: bool)
    ensures
        r == (opt_text(*o) == Some(name@)),
{
    match o {
        Some(s) => same_text(s.as_str(), name),
        None => false,
    }
}

impl ShowModel {
    /// The mode whose animation is wanted.
    pub open spec fn target(self) -> Mode {
        match self.pending {
            Some(m) => m,
            None => self.mode,
        }
    }

    /// An animation is asked for, unless it is being loaded already.
    pub open spec fn requested(self, asset: Seq<char>) -> (ShowModel, Option<LoadModel>) {
        if self.loading == Some(asset) {
            (self, None)
        } else {
            (ShowModel { loading: Some(asset), ..self }, Some(LoadModel { mode: self.target(), asset }))
        }
    }

    /// Another mode is to be shown. The old animation stays until the new one
    /// has been loaded.
    pub open spec fn switched(self, m: Mode) -> (ShowModel, Play, Option<LoadModel>) {
        if self.mode == m {
            (self, Play::Keep, None)
        } else {
            let s = ShowModel { mode: m, dirty: true, ..self };
            if self.anim == Some(m.asset_name()) {
                (
                    ShowModel { pending: None, loading: None, ..s },
                    if m == Mode::Offline {
                        Play::Stop
                    } else {
                        Play::Restart
                    },
                    None,
                )
            } else {
                let (t, l) = (ShowModel { pending: Some(m), loop_ready: false, loop_switched: false, ..s }).requested(
                    m.asset_name(),
                );
                (t, Play::Keep, l)
            }
        }
    }

    /// An animation has been loaded for mode `m`; it is shown if it is the one
    /// that is wanted.
    pub open spec fn loaded(self, m: Mode, name: Seq<char>, has_loop: bool) -> (ShowModel, Play) {
        if m == self.target() {
            (
                ShowModel {
                    anim: Some(name),
                    dirty: true,
                    loop_ready: has_loop,
                    loop_switched: false,
                    loading: None,
                    pending: None,
                    ..self
                },
                if self.mode != Mode::Offline {
                    Play::Restart
                } else {
                    Play::Keep
                },
            )
        } else {
            (ShowModel { loading: None, ..self }, Play::Keep)
        }
    }

    /// An animation could not be loaded. Where nothing is on show, the resting
    /// one is loaded instead, so that the companion does not stay invisible.
    pub open spec fn failed(self) -> (ShowModel, Option<LoadModel>) {
        let s = ShowModel { loading: None, ..self };
        if self.anim is None {
            (ShowModel { pending: Some(Mode::Offline), dirty: true, ..s }).requested("idle"@)
        } else {
            (s, None)
        }
    }

    /// An awaited animation is always being loaded.
    pub open spec fn chased(self) -> (ShowModel, Option<LoadModel>) {
        match self.pending {
            Some(p) => if self.loading is None && self.anim != Some(p.asset_name()) {
                self.requested(p.asset_name())
            } else {
                (self, None)
            },
            None => (self, None),
        }
    }

    /// The animation on show is that of the mode, and it moves.
    pub open spec fn plays(self) -> bool {
        self.anim == Some(self.mode.asset_name()) && self.mode != Mode::Offline
    }

    /// Where nothing is on show and nothing is awaited, the mode's animation is
    /// asked for.
    pub open spec fn filled(self) -> (ShowModel, Option<LoadModel>) {
        if self.anim is None && self.mode != Mode::Offline && self.pending is None && self.loading is None {
            self.requested(self.mode.asset_name())
        } else {
            (self, None)
        }
    }

    /// The first pass of the animation is over: from now on the separate
    /// animation is repeated, if there is one.
    pub open spec fn passed(self) -> (ShowModel, bool) {
        if self.loop_switched {
            (self, false)
        } else {
            (ShowModel { loop_switched: true, ..self }, self.loop_ready)
        }
    }
}

impl Show {
    /// Nothing is on show yet; the first tick draws.
    pub fn new() -> (r: Self)
        ensures
            r@ == (ShowModel {
                mode: Mode::Idle,
                base_mode: Mode::Idle,
                pending: None,
                loading: None,
                anim: None,
                loop_ready: false,
                loop_switched: false,
                sound_prev: Mode::Idle,
                dirty: true,
            }),
    {
        Show {
            mode: Mode::Idle,
            base_mode: Mode::Idle,
            pending: None,
            loading: None,
            anim: None,
            loop_ready: false,
            loop_switched: false,
            sound_prev: Mode::Idle,
            dirty: true,
        }
    }

    /// Asks for an animation, unless it is being loaded already.
    pub fn spawn_load(&mut self, asset: &str) -> (r: Option<Load>)
        ensures
            (final(self)@, opt_load(r)) == old(self)@.requested(asset@),
    {
        if is_named(&self.loading, asset) {
            return None;
        }
        self.loading = Some(own(asset));
        let mode = match self.pending {
            Some(m) => m,
            None => self.mode,
        };
        Some(Load { mode, asset: own(asset) })
    }

    /// Switches to another mode.
    pub fn switch_mode(&mut self, m: Mode) -> (r: (Play, Option<Load>))
        ensures
            (final(self)@, r.0, opt_load(r.1)) == old(self)@.switched(m),
    {
        if self.mode == m {
            return (Play::Keep, None);
        }
        self.mode = m;
        self.dirty = true;
        let asset = m.asset();
        if is_named(&self.anim, asset) {
            self.pending = None;
            self.loading = None;
            let play = if m == Mode::Offline {
                Play::Stop
            } else {
                Play::Restart
            };
            return (play, None);
        }
        self.pending = Some(m);
        self.loop_ready = false;
        self.loop_switched = false;
        let load = self.spawn_load(asset);
        (Play::Keep, load)
    }

    /// Takes an animation that has been loaded; returns whether it is shown and
    /// what becomes of the player.
    pub fn take_loaded(&mut self, m: Mode, name: &str, has_loop: bool) -> (r: (bool, Play))
        ensures
            (final(self)@, r.1) == old(self)@.loaded(m, name@, has_loop),
            r.0 == (m == old(self)@.target()),
    {
        let target = match self.pending {
            Some(p) => p,
            None => self.mode,
        };
        if m == target {
            self.anim = Some(own(name));
            self.dirty = true;
            self.loop_ready = has_loop;
            self.loop_switched = false;
            self.loading = None;
            self.pending = None;
            let play = if self.mode != Mode::Offline {
                Play::Restart
            } else {
                Play::Keep
            };
            (true, play)
        } else {
            self.loading = None;
            (false, Play::Keep)
        }
    }

    /// Takes note that an animation could not be loaded.
    pub fn take_error(&mut self) -> (r: Option<Load>)
        ensures
            (final(self)@, opt_load(r)) == old(self)@.failed(),
    {
        self.loading = None;
        if self.anim.is_none() {
            self.pending = Some(Mode::Offline);
            self.dirty = true;
            return self.spawn_load("idle");
        }
        None
    }

    /// Makes sure that an awaited animation is being loaded.
    pub fn chase(&mut self) -> (r: Option<Load>)
        ensures
            (final(self)@, opt_load(r)) == old(self)@.chased(),
    {
        match self.pending {
            Some(p) => if self.loading.is_none() && !is_named(&self.anim, p.asset()) {
                self.spawn_load(p.asset())
            } else {
                None
            },
            None => None,
        }
    }

    /// Whether the animation on show is that of the mode, and moves.
    pub fn is_playing(&self) -> (r: bool)
        ensures
            r == self@.plays(),
    {
        is_named(&self.anim, self.mode.asset()) && self.mode != Mode::Offline
    }

    /// Asks for the mode's animation where nothing is on show.
    pub fn fill(&mut self) -> (r: Option<Load>)
        ensures
            (final(self)@, opt_load(r)) == old(self)@.filled(),
    {
        if self.anim.is_none() && self.mode != Mode::Offline && self.pending.is_none() && self.loading.is_none() {
            self.spawn_load(self.mode.asset())
        } else {
            None
        }
    }

    /// Takes note that the first pass is over; returns whether to go over to the
    /// separate animation.
    pub fn pass_over(&mut self) -> (r: bool)
        ensures
            (final(self)@, r) == old(self)@.passed(),
    {
        if self.loop_switched {
            return false;
        }
        self.loop_switched = true;
        self.loop_ready
    }
}

/// What a tick brings.
pub struct TickIn {
    /// The mode of the state machine.
    pub base: Mode,
    pub dragging: bool,
    /// An animation that has been loaded: for which mode, under which name, and
    /// whether with a separate animation to repeat.
    pub ready: Option<(Mode, String, bool)>,
    /// A load has failed.
    pub error: bool,
}

/// What a tick asks for.
pub struct TickOut {
    /// The mode on show has changed.
    pub changed: bool,
    /// The loaded animation is shown.
    pub accepted: bool,
    /// What becomes of the player, first by the change of mode and then by the
    /// loaded animation.
    pub play: (Play, Play),
    pub loads: Vec<Load>,
}

/// Models of loads.
pub open spec fn loads_of(v: Seq<Load>) -> Seq<LoadModel> {
    v.map_values(|l: Load| LoadModel { mode: l.mode, asset: l.asset@ })
}

/// A list with one more load, if there is one.
pub open spec fn with_load(v: Seq<LoadModel>, l: Option<LoadModel>) -> Seq<LoadModel> {
    match l {
        Some(x) => v.push(x),
        None => v,
    }
}

/// Model of a [`TickOut`].
pub struct OutModel {
    pub changed: bool,
    pub accepted: bool,
    pub play: (Play, Play),
    pub loads: Seq<LoadModel>,
}

/// Model of what has been loaded.
pub open spec fn opt_ready(o: Option<(Mode, String, bool)>) -> Option<(Mode, Seq<char>, bool)> {
    match o {
        Some((m, s, b)) => Some((m, s@, b)),
        None => None,
    }
}

impl ShowModel {
    /// A tick: the mode follows the state machine, what has been loaded is
    /// shown, a failure is made up for, and what is awaited is loaded.
    pub open spec fn ticked(
        self,
        base: Mode,
        dragging: bool,
        ready: Option<(Mode, Seq<char>, bool)>,
        error: bool,
    ) -> (ShowModel, OutModel) {
        let s0 = ShowModel { base_mode: base, ..self };
        let (s1, p1, l1) = s0.switched(effective(base, dragging));
        let (s2, p2) = match ready {
            Some((m, name, has_loop)) => s1.loaded(m, name, has_loop),
            None => (s1, Play::Keep),
        };
        let (s3, l3) = if error {
            s2.failed()
        } else {
            (s2, None)
        };
        let (s4, l4) = s3.chased();
        let (s5, l5) = s4.filled();
        (
            s5,
            OutModel {
                changed: self.mode != effective(base, dragging),
                accepted: ready is Some && (ready->0).0 == s1.target(),
                play: (p1, p2),
                loads: with_load(with_load(with_load(with_load(Seq::empty(), l1), l3), l4), l5),
            },
        )
    }
}

fn add_load(v: &mut Vec<Load>, l: Option<Load>)
    ensures
        loads_of(final(v)@) == with_load(loads_of(old(v)@), opt_load(l)),
{
    match l {
        Some(x) => {
            let ghost before = v@;
            v.push(x);
            assert(loads_of(v@) =~= loads_of(before).push(LoadModel { mode: x.mode, asset: x.asset@ }));
        },
        None => {},
    }
}

impl Show {
    /// Lets a tick pass.
    pub fn tick(&mut self, t: &TickIn) -> (r: TickOut)
        ensures
            ({
                let (s, o) = old(self)@.ticked(t.base, t.dragging, opt_ready(t.ready), t.error);
                &&& final(self)@ == s
                &&& r.changed == o.changed
                &&& r.accepted == o.accepted
                &&& r.play == o.play
                &&& loads_of(r.loads@) == o.loads
            }),
    {
        let mut loads: Vec<Load> = Vec::new();
        assert(loads_of(loads@) =~= Seq::<LoadModel>::empty());
        self.base_mode = t.base;
        let m = effective_mode(t.base, t.dragging);
        let changed = self.mode != m;
        let (p1, l1) = self.switch_mode(m);
        add_load(&mut loads, l1);
        let (accepted, p2) = match &t.ready {
            Some((m, name, has_loop)) => self.take_loaded(*m, name.as_str(), *has_loop),
            None => (false, Play::Keep),
        };
        if t.error {
            let l3 = self.take_error();
            add_load(&mut loads, l3);
        }
        let l4 = self.chase();
        add_load(&mut loads, l4);
        let l5 = self.fill();
        add_load(&mut loads, l5);
        TickOut { changed, accepted, play: (p1, p2), loads }
    }
}

/// After a tick an awaited animation that is not on show is being loaded.
pub proof fn law_pending_is_loading(
    s: ShowModel,
    base: Mode,
    dragging: bool,
    ready: Option<(Mode, Seq<char>, bool)>,
    error: bool,
)
    ensures
        ({
            let n = s.ticked(base, dragging, ready, error).0;
            n.pending is Some && n.anim != Some(n.pending->0.asset_name()) ==> n.loading is Some
        }),
{
}

/// After a tick the mode on show is the one that the state machine is in, or
/// the one of being dragged.
pub proof fn law_show_follows_state(
    s: ShowModel,
    base: Mode,
    dragging: bool,
    ready: Option<(Mode, Seq<char>, bool)>,
    error: bool,
)
    ensures
        s.ticked(base, dragging, ready, error).0.mode == effective(base, dragging),
{
}

/// What is on show stays on show until something else is shown: the window is
/// never blank between two animations.
pub proof fn law_never_blank(
    s: ShowModel,
    base: Mode,
    dragging: bool,
    ready: Option<(Mode, Seq<char>, bool)>,
    error: bool,
)
    requires
        s.anim is Some,
    ensures
        s.ticked(base, dragging, ready, error).0.anim is Some,
{
}

/// A failure with nothing on show makes the resting animation be loaded, and
/// that is shown when it comes.
pub proof fn law_failure_falls_back(s: ShowModel, has_loop: bool)
    requires
        s.anim is None,
    ensures
        ({
            let (t, l) = s.failed();
            &&& l == Some(LoadModel { mode: Mode::Offline, asset: "idle"@ })
            &&& t.loaded(Mode::Offline, "idle"@, has_loop).0.anim == Some("idle"@)
        }),
{
}

/// An animation that is no longer wanted is not shown.
pub proof fn law_stale_load_ignored(s: ShowModel, m: Mode, name: Seq<char>, has_loop: bool)
    requires
        m != s.target(),
    ensures
        s.loaded(m, name, has_loop).0.anim == s.anim,
        s.loaded(m, name, has_loop).1 == Play::Keep,
{
}

/// The separate animation is taken up at most once after an animation has been
/// shown.
pub proof fn law_loop_taken_once(s: ShowModel)
    ensures
        !s.passed().0.passed().1,
{
}

/// The sounds to play: for a success, for a failure, and for something that
/// waits for the user.
pub open spec fn sounds_of(
    enabled: bool,
    done: bool,
    fail: bool,
    mode: Mode,
    prev: Mode,
) -> (bool, bool, bool) {
    (enabled && done, enabled && fail, enabled && mode == Mode::Attention && prev != Mode::Attention)
}

impl Show {
    /// The sounds to play at this tick. Marks that come while sounds are off
    /// are not made up for later.
    pub fn sounds(&mut self, enabled: bool, done: bool, fail: bool, mode: Mode) -> (r: (bool, bool, bool))
        ensures
            r == sounds_of(enabled, done, fail, mode, old(self)@.sound_prev),
            final(self)@ == (ShowModel { sound_prev: mode, ..old(self)@ }),
    {
        let attention = mode == Mode::Attention && self.sound_prev != Mode::Attention;
        self.sound_prev = mode;
        (enabled && done, enabled && fail, enabled && attention)
    }

    /// Whether anything has to be drawn: because something asked for it, an
    /// animation is being faded over, another frame is due, an opacity has
    /// changed, or the window has another size. What was asked for is then
    /// settled.
    pub fn needs_draw(
        &mut self,
        fading_over: bool,
        frame: &Option<(String, usize)>,
        drawn: &Option<(String, usize)>,
        opacity_changed: bool,
        resized: bool,
    ) -> (r: bool)
        ensures
            final(self)@ == (ShowModel { dirty: false, ..old(self)@ }),
            r == (old(self)@.dirty || fading_over || opt_key(*frame) != opt_key(*drawn) || opacity_changed || resized),
    {
        let asked = self.dirty;
        self.dirty = false;
        let same = match (frame, drawn) {
            (Some(a), Some(b)) => same_text(a.0.as_str(), b.0.as_str()) && a.1 == b.1,
            (None, None) => true,
            _ => false,
        };
        asked || fading_over || !same || opacity_changed || resized
    }
}

/// Name and number of a frame.
pub open spec fn opt_key(o: Option<(String, usize)>) -> Option<(Seq<char>, usize)> {
    match o {
        Some((s, i)) => Some((s@, i)),
        None => None,
    }
}

/// Lets the player go on, starting one where there is none; returns whether the
/// first pass is over.
pub fn play_on(
    player: &mut Option<Player>,
    anim: &Animation,
    full_loop: bool,
    tail_ms: u64,
    tail_frames: Option<u32>,
    dt: u64,
) -> (r: bool)
    requires
        anim.valid(),
        anim.durations_ms@.len() > 0,
        forall|i: int| 0 <= i < anim.durations_ms@.len() ==> #[trigger] anim.durations_ms@[i] > 0,
        anim.frames@.len() < usize::MAX,
        match *old(player) {
            Some(p) => p.idx < usize::MAX && p.tail_start < usize::MAX,
            None => true,
        },
    ensures
        (*final(player)) is Some,
        r == ((*final(player))->0.full_passes > 0),
        match *old(player) {
            Some(p) => (*final(player))->0@ == p.schedule(*anim).play(p@, dt as int) && (*final(player))->0.full_loop
                == p.full_loop && (*final(player))->0.tail_start == p.tail_start,
            None => (*final(player))->0.full_loop == full_loop && anim.tail_begins(
                tail_ms,
                tail_frames,
                (*final(player))->0.tail_start as int,
            ) && (*final(player))->0@ == (*final(player))->0.schedule(
                *anim,
            ).play(
                (crate::anim::PlayModel { idx: 0, left: anim.durations_ms@[0] as int, passes: 0 }),
                dt as int,
            ),
        },
{
    let mut p = match player.take() {
        Some(p) => p,
        None => Player::new(anim, full_loop, tail_ms, tail_frames),
    };
    proof {
        let s = p.schedule(*anim);
        let n = anim.durations_ms@.len() as int;
        assert(anim.durations_ms@[n - 1] > 0);
        assert(s.holds(n - 1));
    }
    p.advance(anim, dt);
    let over = p.full_passes > 0;
    *player = Some(p);
    over
}

/// How the companion is drawn.
#[derive(Debug, Clone, Copy, PartialEq, Eq, Structural)]
pub enum Picture {
    /// A frame without color.
    Gray(usize),
    /// A frame faded over from the last animation.
    FadeOver(usize),
    Plain(usize),
}

/// How the companion is drawn: without color while nothing is connected, and at
/// rest then.
pub open spec fn picture_of(mode: Mode, name: Seq<char>, idx: usize, fading_over: bool) -> Picture {
    if mode == Mode::Offline {
        Picture::Gray(
            if name == "idle"@ {
                0
            } else {
                idx
            },
        )
    } else if name == mode.asset_name() && fading_over {
        Picture::FadeOver(idx)
    } else {
        Picture::Plain(idx)
    }
}

/// How the companion is drawn.
pub fn picture(mode: Mode, name: &str, idx: usize, fading_over: bool) -> (r: Picture)
    ensures
        r == picture_of(mode, name@, idx, fading_over),
{
    if mode == Mode::Offline {
        if same_text(name, "idle") {
            Picture::Gray(0)
        } else {
            Picture::Gray(idx)
        }
    } else if fading_over && same_text(name, mode.asset()) {
        Picture::FadeOver(idx)
    } else {
        Picture::Plain(idx)
    }
}

} // verus!
