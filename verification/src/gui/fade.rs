//! When the companion fades.

use vstd::prelude::*;
use vstd::string::*;

use crate::event::Mode;
use crate::text::{same_text, texts};

verus! {

/// The name of a mode in small letters.
pub open spec fn mode_word(m: Mode) -> Seq<char> {
    match m {
        Mode::Offline => "offline"@,
        Mode::Attention => "attention"@,
        Mode::Failed => "failed"@,
        Mode::Working => "working"@,
        Mode::Thinking => "thinking"@,
        Mode::Done => "done"@,
        Mode::Idle => "idle"@,
        Mode::Move => "move"@,
    }
}

fn word_of(m: Mode) -> (r: &'static str)
    ensures
        r@ == mode_word(m),
{
    match m {
        Mode::Offline => "offline",
        Mode::Attention => "attention",
        Mode::Failed => "failed",
        Mode::Working => "working",
        Mode::Thinking => "thinking",
        Mode::Done => "done",
        Mode::Idle => "idle",
        Mode::Move => "move",
    }
}

/// A mode is listed, under its own name or that of its animation.
pub open spec fn listed(states: Seq<Seq<char>>, m: Mode) -> bool {
    states.contains(m.asset_name()) || states.contains(mode_word(m))
}

/// Tells whether a mode is among those in which nothing fades.
pub fn fade_disabled(states: &Vec<String>, m: Mode) -> (r: bool)
    ensures
        r == listed(texts(states@), m),
{
    let n: usize = states.len();
    let mut i: usize = 0;
    while i < n
        invariant
            n == states@.len(),
            i <= n,
            forall|k: int|
                0 <= k < i ==> #[trigger] texts(states@)[k] != m.asset_name() && texts(states@)[k] != mode_word(m),
        decreases n - i,
    {
        assert(texts(states@)[i as int] == states@[i as int]@);
        if same_text(states[i].as_str(), m.asset()) || same_text(states[i].as_str(), word_of(m)) {
            return true;
        }
        i += 1;
    }
    false
}

/// What the companion's opacity is made of.
#[derive(Debug, Clone, Copy, PartialEq, Eq, Structural)]
pub struct Veil {
    /// It has been left alone long enough to fade.
    pub faded: bool,
    /// The pointer is over it while clicks pass through.
    pub hovered: bool,
    /// It is tucked away.
    pub tucked: bool,
}

/// What the companion's opacity is made of. `idle_s` are the seconds since
/// anyone touched it.
pub fn update_fade(
    disabled: bool,
    idle_s: u64,
    after_s: u64,
    passes: bool,
    hidden: bool,
    collapsed: bool,
    over: bool,
) -> (r: Veil)
    ensures
        r.faded == (!disabled && idle_s >= after_s),
        r.hovered == (passes && !hidden && !collapsed && over),
        r.tucked == collapsed,
{
    Veil {
        faded: !disabled && idle_s >= after_s,
        hovered: passes && !hidden && !collapsed && over,
        tucked: collapsed,
    }
}

} // verus!
