//! The menu of the tray icon: what stands in it, and what picking an entry
//! means.

use vstd::prelude::*;

use crate::config::ScriptEntryConfig;
use crate::gui::settings::{list_name, listed_name};

verus! {

pub const MENU_QUIT: usize = 1001;

pub const MENU_AVOID_TOGGLE: usize = 1002;

pub const MENU_AUTOHIDE_TOGGLE: usize = 1003;

pub const MENU_ENDPOINTS: usize = 1004;

pub const MENU_AUTOSTART_TOGGLE: usize = 1005;

pub const MENU_STACK_TOGGLE: usize = 1006;

pub const MENU_CLICKTHROUGH_TOGGLE: usize = 1007;

pub const MENU_SOUND_TOGGLE: usize = 1008;

/// The number of the first script's entry.
pub const MENU_SCRIPT_BASE: usize = 1100;

/// What is switched on.
#[derive(Debug, Clone, Copy)]
pub struct MenuState {
    pub avoid: bool,
    pub auto_hide: bool,
    pub autostart: bool,
    pub stack: bool,
    pub click_through: bool,
    pub sound: bool,
}

/// A plain entry.
#[derive(Debug, Clone, Copy)]
pub struct Entry {
    pub id: usize,
    pub label: &'static str,
    pub checked: bool,
}

/// What picking an entry means.
#[derive(Debug, Clone, Copy, PartialEq, Eq, Structural)]
pub enum Pick {
    Quit,
    Avoid,
    AutoHide,
    Endpoints,
    Autostart,
    Stack,
    ClickThrough,
    Sound,
    /// A script is switched on or off.
    Script(usize),
    Nothing,
}

/// What picking an entry means.
pub open spec fn pick_of(id: usize) -> Pick {
    if id == MENU_QUIT {
        Pick::Quit
    } else if id == MENU_AVOID_TOGGLE {
        Pick::Avoid
    } else if id == MENU_AUTOHIDE_TOGGLE {
        Pick::AutoHide
    } else if id == MENU_ENDPOINTS {
        Pick::Endpoints
    } else if id == MENU_AUTOSTART_TOGGLE {
        Pick::Autostart
    } else if id == MENU_STACK_TOGGLE {
        Pick::Stack
    } else if id == MENU_CLICKTHROUGH_TOGGLE {
        Pick::ClickThrough
    } else if id == MENU_SOUND_TOGGLE {
        Pick::Sound
    } else if id >= MENU_SCRIPT_BASE {
        Pick::Script((id - MENU_SCRIPT_BASE) as usize)
    } else {
        Pick::Nothing
    }
}

/// Tells what picking an entry means.
pub fn picked(id: usize) -> (r: Pick)
    ensures
        r == pick_of(id),
{
    if id == MENU_QUIT {
        Pick::Quit
    } else if id == MENU_AVOID_TOGGLE {
        Pick::Avoid
    } else if id == MENU_AUTOHIDE_TOGGLE {
        Pick::AutoHide
    } else if id == MENU_ENDPOINTS {
        Pick::Endpoints
    } else if id == MENU_AUTOSTART_TOGGLE {
        Pick::Autostart
    } else if id == MENU_STACK_TOGGLE {
        Pick::Stack
    } else if id == MENU_CLICKTHROUGH_TOGGLE {
        Pick::ClickThrough
    } else if id == MENU_SOUND_TOGGLE {
        Pick::Sound
    } else if id >= MENU_SCRIPT_BASE {
        Pick::Script(id - MENU_SCRIPT_BASE)
    } else {
        Pick::Nothing
    }
}

/// An entry is the one with the given number, label and mark.
pub open spec fn entry_is(e: Entry, id: usize, label: Seq<char>, checked: bool) -> bool {
    e.id == id && e.label@ == label && e.checked == checked
}

/// The entries above that of the scripts, which show what is switched on.
pub fn toggles(s: MenuState) -> (r: Vec<Entry>)
    ensures
        r@.len() == 6,
        entry_is(r@[0], MENU_AVOID_TOGGLE, "回避模式"@, s.avoid),
        entry_is(r@[1], MENU_AUTOHIDE_TOGGLE, "自动收起"@, s.auto_hide),
        entry_is(r@[2], MENU_STACK_TOGGLE, "多源堆叠显示"@, s.stack),
        entry_is(r@[3], MENU_CLICKTHROUGH_TOGGLE, "鼠标穿透"@, s.click_through),
        entry_is(r@[4], MENU_SOUND_TOGGLE, "提示音"@, s.sound),
        entry_is(r@[5], MENU_AUTOSTART_TOGGLE, "开机自启"@, s.autostart),
{
    let mut v: Vec<Entry> = Vec::new();
    v.push(Entry { id: MENU_AVOID_TOGGLE, label: "回避模式", checked: s.avoid });
    v.push(Entry { id: MENU_AUTOHIDE_TOGGLE, label: "自动收起", checked: s.auto_hide });
    v.push(Entry { id: MENU_STACK_TOGGLE, label: "多源堆叠显示", checked: s.stack });
    v.push(Entry { id: MENU_CLICKTHROUGH_TOGGLE, label: "鼠标穿透", checked: s.click_through });
    v.push(Entry { id: MENU_SOUND_TOGGLE, label: "提示音", checked: s.sound });
    v.push(Entry { id: MENU_AUTOSTART_TOGGLE, label: "开机自启", checked: s.autostart });
    v
}

/// The entries below a line: the settings of the scripts, and the end.
pub fn commands() -> (r: Vec<Entry>)
    ensures
        r@.len() == 2,
        entry_is(r@[0], MENU_ENDPOINTS, "接入口设置…"@, false),
        entry_is(r@[1], MENU_QUIT, "退出"@, false),
{
    let mut v: Vec<Entry> = Vec::new();
    v.push(Entry { id: MENU_ENDPOINTS, label: "接入口设置…", checked: false });
    v.push(Entry { id: MENU_QUIT, label: "退出", checked: false });
    v
}

/// The entries of the scripts: whether each is on, and its name.
pub fn script_menu_entries(scripts: &Vec<ScriptEntryConfig>) -> (r: Vec<(bool, String)>)
    ensures
        r@.len() == scripts@.len(),
        forall|i: int|
            0 <= i < r@.len() ==> (#[trigger] r@[i]).0 == scripts@[i].enabled && r@[i].1@ == listed_name(
                i as nat,
                scripts@[i].name@,
            ),
{
    let n: usize = scripts.len();
    let mut out: Vec<(bool, String)> = Vec::new();
    let mut i: usize = 0;
    while i < n
        invariant
            n == scripts@.len(),
            i == out@.len(),
            i <= n,
            forall|k: int|
                0 <= k < i ==> (#[trigger] out@[k]).0 == scripts@[k].enabled && out@[k].1@ == listed_name(
                    k as nat,
                    scripts@[k].name@,
                ),
        decreases n - i,
    {
        out.push((scripts[i].enabled, list_name(i, scripts[i].name.as_str())));
        i += 1;
    }
    out
}

/// Switches a script on or off, and tells which; a number without a script does
/// nothing.
pub fn toggle_script(scripts: &mut Vec<ScriptEntryConfig>, i: usize) -> (r: Option<bool>)
    ensures
        i >= old(scripts)@.len() ==> r is None && final(scripts)@ == old(scripts)@,
        i < old(scripts)@.len() ==> {
            let e = old(scripts)@[i as int];
            &&& r == Some(!e.enabled)
            &&& final(scripts)@ == old(scripts)@.update(i as int, ScriptEntryConfig { enabled: !e.enabled, ..e })
        },
{
    if i >= scripts.len() {
        return None;
    }
    let on = !scripts[i].enabled;
    scripts[i].enabled = on;
    Some(on)
}

/// Picking the entry of a script means that script, whatever its place.
pub proof fn law_script_entry_picks_it(i: usize)
    requires
        MENU_SCRIPT_BASE + i <= usize::MAX,
    ensures
        pick_of((MENU_SCRIPT_BASE + i) as usize) == Pick::Script(i),
{
}

/// A script that is switched twice is as it was.
pub proof fn law_toggle_twice(e: ScriptEntryConfig)
    ensures
        ({
            let once = ScriptEntryConfig { enabled: !e.enabled, ..e };
            ScriptEntryConfig { enabled: !once.enabled, ..once } == e
        }),
{
}

} // verus!
