//! Which animation is on show.

use vstd::prelude::*;
use vstd::string::*;

use crate::event::Mode;
use crate::gui::show::{effective, picture_of, sounds_of, LoadModel, Picture, Play, ShowModel};

verus! {

/// Each mode has an animation of its own, but for offline, which rests.
pub proof fn law_animations()
    ensures
        Mode::Idle.asset_name() == "idle"@,
        Mode::Offline.asset_name() == "idle"@,
        Mode::Attention.asset_name() == "attention"@,
        Mode::Failed.asset_name() == "fail"@,
        Mode::Working.asset_name() == "working"@,
        Mode::Thinking.asset_name() == "think"@,
        Mode::Done.asset_name() == "done"@,
        Mode::Move.asset_name() == "move"@,
{
}

/// A companion that rests moves while it is dragged; any other goes on with what
/// it does.
pub proof fn law_dragging_shows(base: Mode)
    ensures
        effective(base, false) == base,
        effective(Mode::Idle, true) == Mode::Move,
        base != Mode::Idle ==> effective(base, true) == base,
{
}

/// A mode whose animation is not on show has it loaded, and the old one stays
/// until then; a mode whose animation is on show starts it anew.
pub proof fn law_new_mode_is_loaded(s: ShowModel, base: Mode)
    requires
        s.mode != base,
        s.loading is None,
        s.anim is Some,
    ensures
        ({
            let (n, o) = s.ticked(base, false, None, false);
            &&& n.mode == base && o.changed && n.dirty
            &&& n.anim == s.anim
            &&& s.anim != Some(base.asset_name()) ==> o.loads == seq![
                LoadModel { mode: base, asset: base.asset_name() },
            ] && n.pending == Some(base) && n.loading == Some(base.asset_name()) && o.play.0 == Play::Keep
            &&& s.anim == Some(base.asset_name()) ==> o.loads.len() == 0 && n.pending is None && o.play.0 == (if base
                == Mode::Offline {
                Play::Stop
            } else {
                Play::Restart
            })
        }),
{
    let (n, o) = s.ticked(base, false, None, false);
    if s.anim != Some(base.asset_name()) {
        assert(o.loads =~= seq![LoadModel { mode: base, asset: base.asset_name() }]);
    }
}

/// An animation that has been loaded is shown from its start if it is for the
/// mode that is wanted, and is dropped otherwise.
pub proof fn law_loaded_is_shown(s: ShowModel, m: Mode, name: Seq<char>, has_loop: bool)
    ensures
        ({
            let (n, p) = s.loaded(m, name, has_loop);
            let wanted = if s.pending is Some { s.pending->0 } else { s.mode };
            &&& m == wanted ==> n.anim == Some(name) && n.pending is None && n.loading is None && n.loop_ready == has_loop
                && !n.loop_switched && n.dirty && (s.mode != Mode::Offline ==> p == Play::Restart)
            &&& m != wanted ==> n == (ShowModel { loading: None, ..s }) && p == Play::Keep
            &&& n.mode == s.mode && n.base_mode == s.base_mode
        }),
{
}

/// While nothing changes a tick changes nothing and asks for nothing.
pub proof fn law_quiet_tick(s: ShowModel)
    requires
        s.anim == Some(s.mode.asset_name()),
        s.pending is None,
        s.base_mode == s.mode,
        s.mode != Mode::Move,
    ensures
        ({
            let (n, o) = s.ticked(s.base_mode, false, None, false);
            n == s && !o.changed && !o.accepted && o.loads.len() == 0 && o.play == (Play::Keep, Play::Keep)
        }),
{
}

/// The sound of a completion and of a failure is played when it is due, and that
/// of a request once, when it comes; and none while sounds are off.
pub proof fn law_sounds(done: bool, fail: bool, mode: Mode, prev: Mode)
    ensures
        sounds_of(false, done, fail, mode, prev) == (false, false, false),
        sounds_of(true, done, fail, mode, prev).0 == done,
        sounds_of(true, done, fail, mode, prev).1 == fail,
        sounds_of(true, done, fail, Mode::Attention, Mode::Attention).2 == false,
        prev != Mode::Attention ==> sounds_of(true, done, fail, Mode::Attention, prev).2,
        mode != Mode::Attention ==> !sounds_of(true, done, fail, mode, prev).2,
{
}

/// Offline the companion has no color and rests on its first frame; otherwise the
/// frame that is due is shown, faded over where the animation of the mode comes
/// in.
pub proof fn law_picture(mode: Mode, name: Seq<char>, idx: usize, fading: bool)
    ensures
        mode != Mode::Offline && fading && name == mode.asset_name() ==> picture_of(mode, name, idx, fading)
            == Picture::FadeOver(idx),
        mode != Mode::Offline && (!fading || name != mode.asset_name()) ==> picture_of(mode, name, idx, fading) == Picture::Plain(idx),
        picture_of(Mode::Offline, "idle"@, idx, fading) == Picture::Gray(0),
        name != "idle"@ ==> picture_of(Mode::Offline, name, idx, fading) == Picture::Gray(idx),
{
}

} // verus!
