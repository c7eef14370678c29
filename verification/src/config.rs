//! Settings that the logic reads: colors and the look of the bubble, scripts,
//! and the windows in which results stay visible.

use vstd::prelude::*;
use vstd::string::*;

use crate::json::{number, string, Json, JsonModel};
use crate::text::{after_prefix, all_hex, chars_of, hex_digit, hex_value, opt_text, own, strip_prefix, trim, trimmed};

verus! {

/// A color.
#[derive(Debug, Clone, Copy, PartialEq, Eq, Structural)]
pub struct Rgb {
    pub r: u8,
    pub g: u8,
    pub b: u8,
}

/// A text without the `#` sign at its front, where it has one.
pub open spec fn without_hash(s: Seq<char>) -> Seq<char> {
    match after_prefix(s, "#"@) {
        Some(rest) => rest,
        None => s,
    }
}

/// The byte that two hexadecimal digits write.
pub open spec fn hex_byte(hi: char, lo: char) -> u8 {
    (hex_digit(hi)->0 * 16 + hex_digit(lo)->0) as u8
}

/// The color that a text of the form `#RRGGBB` names.
pub open spec fn color_in(s: Seq<char>) -> Option<(u8, u8, u8)> {
    let d = without_hash(trimmed(s));
    if d.len() == 6 && all_hex(d) {
        Some((hex_byte(d[0], d[1]), hex_byte(d[2], d[3]), hex_byte(d[4], d[5])))
    } else {
        None
    }
}

/// The color that a text of the form `#RRGGBB` names.
pub open spec fn rgb_in(s: Seq<char>) -> Option<Rgb> {
    match color_in(s) {
        Some((r, g, b)) => Some(Rgb { r, g, b }),
        None => None,
    }
}

fn read_byte(hi: char, lo: char) -> (r: Option<u8>)
    ensures
        match r {
            Some(v) => hex_digit(hi) is Some && hex_digit(lo) is Some && v == hex_byte(hi, lo),
            None => hex_digit(hi) is None || hex_digit(lo) is None,
        },
{
    match (hex_value(hi), hex_value(lo)) {
        (Some(a), Some(b)) => Some(a * 16 + b),
        _ => None,
    }
}

/// Reads a color of the form `#RRGGBB`. Anything else is none, so that callers
/// fall back to a preset.
pub fn parse_hex_color(s: &str) -> (r: Option<(u8, u8, u8)>)
    ensures
        r == color_in(s@),
{
    let t = trim(s);
    let rest = match strip_prefix(t.as_str(), "#") {
        Some(rest) => rest,
        None => t,
    };
    let v = chars_of(rest.as_str());
    let ghost d = v@;
    assert(d == without_hash(trimmed(s@)));
    if v.len() != 6 {
        return None;
    }
    let a = read_byte(v[0], v[1]);
    let b = read_byte(v[2], v[3]);
    let c = read_byte(v[4], v[5]);
    match (a, b, c) {
        (Some(r), Some(g), Some(b)) => {
            proof {
                assert(all_hex(d)) by {
                    assert(hex_digit(d[0]) is Some && hex_digit(d[1]) is Some && hex_digit(d[2]) is Some);
                    assert(hex_digit(d[3]) is Some && hex_digit(d[4]) is Some && hex_digit(d[5]) is Some);
                }
            }
            Some((r, g, b))
        },
        _ => {
            proof {
                assert(!all_hex(d)) by {
                    assert(hex_digit(d[0]) is None || hex_digit(d[1]) is None || hex_digit(d[2]) is None || hex_digit(
                        d[3],
                    ) is None || hex_digit(d[4]) is None || hex_digit(d[5]) is None);
                }
            }
            None
        },
    }
}

impl Rgb {
    /// Reads a color of the form `#RRGGBB`.
    pub fn hex(s: &str) -> (r: Option<Rgb>)
        ensures
            r == rgb_in(s@),
    {
        match parse_hex_color(s) {
            Some((r, g, b)) => Some(Rgb { r, g, b }),
            None => None,
        }
    }
}

/// The accent colors of the states, as texts of the form `#RRGGBB`.
#[derive(Debug, Clone)]
pub struct StateColorsConfig {
    pub thinking: String,
    pub working: String,
    pub done: String,
    pub fail: String,
    pub attention: String,
    pub neutral: String,
}

impl StateColorsConfig {
    /// The six texts, in the order in which a theme lists its colors.
    pub open spec fn texts(self) -> Seq<Seq<char>> {
        seq![self.thinking@, self.working@, self.done@, self.fail@, self.attention@, self.neutral@]
    }
}

impl Default for StateColorsConfig {
    fn default() -> (r: Self)
        ensures
            r.texts() == light_states(),
    {
        StateColorsConfig {
            thinking: own("#7FB4EF"),
            working: own("#4A8FE7"),
            done: own("#E8A33D"),
            fail: own("#E05B4C"),
            attention: own("#F28C3B"),
            neutral: own("#9E9E9E"),
        }
    }
}

/// What a user may change about the look of the bubble. Everything left out
/// comes from the light or the dark preset.
#[derive(Debug, Clone)]
pub struct BubbleThemeConfig {
    pub dark: bool,
    pub acrylic: bool,
    pub fill: Option<String>,
    pub fill_alpha: Option<u8>,
    pub border: Option<String>,
    pub border_alpha: Option<u8>,
    pub divider: Option<String>,
    pub divider_alpha: Option<u8>,
    pub title: Option<String>,
    pub from: Option<String>,
    pub shadow_alpha: Option<u8>,
    pub radius: Option<u32>,
    pub state_colors: Option<StateColorsConfig>,
}

impl Default for BubbleThemeConfig {
    fn default() -> (r: Self)
        ensures
            !r.dark,
            !r.acrylic,
            r.fill is None,
            r.fill_alpha is None,
            r.border is None,
            r.border_alpha is None,
            r.divider is None,
            r.divider_alpha is None,
            r.title is None,
            r.from is None,
            r.shadow_alpha is None,
            r.radius is None,
            r.state_colors is None,
    {
        BubbleThemeConfig {
            dark: false,
            acrylic: false,
            fill: None,
            fill_alpha: None,
            border: None,
            border_alpha: None,
            divider: None,
            divider_alpha: None,
            title: None,
            from: None,
            shadow_alpha: None,
            radius: None,
            state_colors: None,
        }
    }
}

/// The look of the bubble, ready for drawing.
#[derive(Debug, Clone)]
pub struct BubbleTheme {
    pub dark: bool,
    pub acrylic: bool,
    pub fill: Rgb,
    pub fill_alpha: u8,
    pub border: Rgb,
    pub border_alpha: u8,
    pub divider: Rgb,
    pub divider_alpha: u8,
    pub title: Rgb,
    pub from: Rgb,
    pub shadow_alpha: u8,
    pub radius: u32,
    /// Thinking, working, done, fail, attention, neutral.
    pub state: [Rgb; 6],
}

/// A color.
pub open spec fn rgb(r: u8, g: u8, b: u8) -> Rgb {
    Rgb { r, g, b }
}

/// The accent colors of the light preset.
pub open spec fn light_states() -> Seq<Seq<char>> {
    seq!["#7FB4EF"@, "#4A8FE7"@, "#E8A33D"@, "#E05B4C"@, "#F28C3B"@, "#9E9E9E"@]
}

/// The accent colors of the light preset.
pub open spec fn light_state_colors() -> Seq<Rgb> {
    seq![
        rgb(0x7F, 0xB4, 0xEF),
        rgb(0x4A, 0x8F, 0xE7),
        rgb(0xE8, 0xA3, 0x3D),
        rgb(0xE0, 0x5B, 0x4C),
        rgb(0xF2, 0x8C, 0x3B),
        rgb(0x9E, 0x9E, 0x9E),
    ]
}

/// The accent colors of the dark preset.
pub open spec fn dark_state_colors() -> Seq<Rgb> {
    seq![
        rgb(0x9D, 0xC3, 0xF2),
        rgb(0x6F, 0xA8, 0xF0),
        rgb(0xF0, 0xB4, 0x5A),
        rgb(0xF0, 0x6A, 0x5A),
        rgb(0xF5, 0x9B, 0x52),
        rgb(0x8A, 0x8A, 0x8A),
    ]
}

/// A color that a user chose, or the preset where the text names none.
pub open spec fn picked(over: Option<Seq<char>>, preset: Rgb) -> Rgb {
    match over {
        Some(s) => match rgb_in(s) {
            Some(c) => c,
            None => preset,
        },
        None => preset,
    }
}

/// A number that a user chose, or the preset.
pub open spec fn chosen<T>(over: Option<T>, preset: T) -> T {
    match over {
        Some(x) => x,
        None => preset,
    }
}

fn pick(over: &Option<String>, preset: Rgb) -> (r: Rgb)
    ensures
        r == picked(opt_text(*over), preset),
{
    match over {
        Some(s) => match Rgb::hex(s.as_str()) {
            Some(c) => c,
            None => preset,
        },
        None => preset,
    }
}

fn pick_text(over: Option<&str>, preset: Rgb) -> (r: Rgb)
    ensures
        r == picked(
            match over {
                Some(s) => Some(s@),
                None => None,
            },
            preset,
        ),
{
    match over {
        Some(s) => match Rgb::hex(s) {
            Some(c) => c,
            None => preset,
        },
        None => preset,
    }
}

fn choose_u8(over: Option<u8>, preset: u8) -> (r: u8)
    ensures
        r == chosen(over, preset),
{
    match over {
        Some(x) => x,
        None => preset,
    }
}

/// The accent color of state `i` that a user chose, if they chose any.
pub open spec fn state_over(cfg: BubbleThemeConfig, i: int) -> Option<Seq<char>> {
    match cfg.state_colors {
        Some(c) => Some(c.texts()[i]),
        None => None,
    }
}

/// The accent colors of a preset.
pub open spec fn preset_states(dark: bool) -> Seq<Rgb> {
    if dark {
        dark_state_colors()
    } else {
        light_state_colors()
    }
}

fn build_preset_states(dark: bool) -> (r: [Rgb; 6])
    ensures
        r@ == preset_states(dark),
{
    let p: [Rgb; 6] = if dark {
        [
            Rgb { r: 0x9D, g: 0xC3, b: 0xF2 },
            Rgb { r: 0x6F, g: 0xA8, b: 0xF0 },
            Rgb { r: 0xF0, g: 0xB4, b: 0x5A },
            Rgb { r: 0xF0, g: 0x6A, b: 0x5A },
            Rgb { r: 0xF5, g: 0x9B, b: 0x52 },
            Rgb { r: 0x8A, g: 0x8A, b: 0x8A },
        ]
    } else {
        [
            Rgb { r: 0x7F, g: 0xB4, b: 0xEF },
            Rgb { r: 0x4A, g: 0x8F, b: 0xE7 },
            Rgb { r: 0xE8, g: 0xA3, b: 0x3D },
            Rgb { r: 0xE0, g: 0x5B, b: 0x4C },
            Rgb { r: 0xF2, g: 0x8C, b: 0x3B },
            Rgb { r: 0x9E, g: 0x9E, b: 0x9E },
        ]
    };
    assert(p@ =~= preset_states(dark));
    p
}

fn resolve_states(cfg: &BubbleThemeConfig) -> (r: [Rgb; 6])
    ensures
        forall|i: int| 0 <= i < 6 ==> #[trigger] r@[i] == picked(state_over(*cfg, i), preset_states(cfg.dark)[i]),
{
    let p = build_preset_states(cfg.dark);
    match &cfg.state_colors {
        Some(c) => {
            let r: [Rgb; 6] = [
                pick_text(Some(c.thinking.as_str()), p[0]),
                pick_text(Some(c.working.as_str()), p[1]),
                pick_text(Some(c.done.as_str()), p[2]),
                pick_text(Some(c.fail.as_str()), p[3]),
                pick_text(Some(c.attention.as_str()), p[4]),
                pick_text(Some(c.neutral.as_str()), p[5]),
            ];
            proof {
                let t = c.texts();
                assert(t[0] == c.thinking@ && t[1] == c.working@ && t[2] == c.done@);
                assert(t[3] == c.fail@ && t[4] == c.attention@ && t[5] == c.neutral@);
            }
            r
        },
        None => p,
    }
}

impl BubbleTheme {
    /// `self` is the look that a configuration describes: the preset, with what
    /// the user chose in its place. A text that names no color counts as not
    /// chosen.
    pub open spec fn follows(self, cfg: BubbleThemeConfig) -> bool {
        let dark = cfg.dark;
        &&& self.dark == dark
        &&& self.acrylic == cfg.acrylic
        &&& self.fill == picked(opt_text(cfg.fill), if dark { rgb(28, 30, 34) } else { rgb(255, 255, 255) })
        &&& self.fill_alpha == chosen(cfg.fill_alpha, if dark { 170u8 } else { 80u8 })
        &&& self.border == picked(opt_text(cfg.border), if dark { rgb(74, 80, 92) } else { rgb(205, 205, 205) })
        &&& self.border_alpha == chosen(cfg.border_alpha, 190u8)
        &&& self.divider == picked(opt_text(cfg.divider), if dark { rgb(74, 80, 92) } else { rgb(196, 196, 196) })
        &&& self.divider_alpha == chosen(cfg.divider_alpha, if dark { 140u8 } else { 170u8 })
        &&& self.title == picked(opt_text(cfg.title), if dark { rgb(0xE6, 0xE8, 0xEC) } else { rgb(0x26, 0x26, 0x26) })
        &&& self.from == picked(opt_text(cfg.from), if dark { rgb(0x9A, 0xA0, 0xA8) } else { rgb(0x8F, 0x8F, 0x8F) })
        &&& self.shadow_alpha == chosen(cfg.shadow_alpha, if dark { 60u8 } else { 38u8 })
        &&& self.radius == chosen(cfg.radius, 12u32)
        &&& forall|i: int| 0 <= i < 6 ==> #[trigger] self.state@[i] == picked(state_over(cfg, i), preset_states(dark)[i])
    }

    /// Works out the look that a configuration describes.
    pub fn resolve(cfg: &BubbleThemeConfig) -> (r: BubbleTheme)
        ensures
            r.follows(*cfg),
    {
        let dark = cfg.dark;
        let state = resolve_states(cfg);
        let (fill, border, divider, title, from) = if dark {
            (
                Rgb { r: 28, g: 30, b: 34 },
                Rgb { r: 74, g: 80, b: 92 },
                Rgb { r: 74, g: 80, b: 92 },
                Rgb { r: 0xE6, g: 0xE8, b: 0xEC },
                Rgb { r: 0x9A, g: 0xA0, b: 0xA8 },
            )
        } else {
            (
                Rgb { r: 255, g: 255, b: 255 },
                Rgb { r: 205, g: 205, b: 205 },
                Rgb { r: 196, g: 196, b: 196 },
                Rgb { r: 0x26, g: 0x26, b: 0x26 },
                Rgb { r: 0x8F, g: 0x8F, b: 0x8F },
            )
        };
        let (fill_a, divider_a, shadow_a): (u8, u8, u8) = if dark {
            (170, 140, 60)
        } else {
            (80, 170, 38)
        };
        BubbleTheme {
            dark,
            acrylic: cfg.acrylic,
            fill: pick(&cfg.fill, fill),
            fill_alpha: choose_u8(cfg.fill_alpha, fill_a),
            border: pick(&cfg.border, border),
            border_alpha: choose_u8(cfg.border_alpha, 190),
            divider: pick(&cfg.divider, divider),
            divider_alpha: choose_u8(cfg.divider_alpha, divider_a),
            title: pick(&cfg.title, title),
            from: pick(&cfg.from, from),
            shadow_alpha: choose_u8(cfg.shadow_alpha, shadow_a),
            radius: match cfg.radius {
                Some(x) => x,
                None => 12,
            },
            state,
        }
    }
}

impl Default for BubbleTheme {
    fn default() -> (r: Self)
        ensures
            exists|cfg: BubbleThemeConfig|
                #![trigger r.follows(cfg)]
                r.follows(cfg) && !cfg.dark && !cfg.acrylic && cfg.fill is None && cfg.fill_alpha is None
                    && cfg.border is None && cfg.border_alpha is None && cfg.divider is None && cfg.divider_alpha is None
                    && cfg.title is None && cfg.from is None && cfg.shadow_alpha is None && cfg.radius is None
                    && cfg.state_colors is None,
    {
        let cfg = BubbleThemeConfig::default();
        BubbleTheme::resolve(&cfg)
    }
}

/// A text that names no color changes nothing: the preset stays.
pub proof fn law_bad_color_falls_back(s: Seq<char>, preset: Rgb)
    requires
        color_in(s) is None,
    ensures
        picked(Some(s), preset) == picked(None, preset),
{
}

/// How much of a stream stays visible.
#[derive(Debug, Clone)]
pub struct TextConfig {
    pub max_chars: usize,
}

impl Default for TextConfig {
    fn default() -> (r: Self)
        ensures
            r.max_chars == 1200,
    {
        TextConfig { max_chars: 1200 }
    }
}

/// How long results stay visible, in seconds.
#[derive(Debug, Clone)]
pub struct WindowConfig {
    pub done_sec: u64,
    pub fail_sec: u64,
    /// How long a result is shown before anything else.
    pub celebrate_sec: u64,
}

impl Default for WindowConfig {
    fn default() -> (r: Self)
        ensures
            r.done_sec == 0,
            r.fail_sec == 0,
            r.celebrate_sec == 0,
    {
        WindowConfig { done_sec: 0, fail_sec: 0, celebrate_sec: 0 }
    }
}

/// Where the window was last put; nothing where it stands in its corner.
#[derive(Debug, Clone)]
pub struct WindowPosConfig {
    pub x: Option<i32>,
    pub y: Option<i32>,
}

impl Default for WindowPosConfig {
    fn default() -> (r: Self)
        ensures
            r.x is None,
            r.y is None,
    {
        WindowPosConfig { x: None, y: None }
    }
}

/// A script and how to run it.
#[derive(Debug)]
pub struct ScriptEntryConfig {
    pub name: String,
    pub file: String,
    pub poll_ms: u64,
    pub args: Option<Json>,
    pub sandbox: bool,
    pub enabled: bool,
    pub debug: bool,
}

impl Default for ScriptEntryConfig {
    fn default() -> (r: Self)
        ensures
            r.name@.len() == 0,
            r.file@.len() == 0,
            r.poll_ms == 1000,
            r.args is None,
            !r.sandbox,
            r.enabled,
            !r.debug,
    {
        ScriptEntryConfig {
            name: String::new(),
            file: String::new(),
            poll_ms: 1000,
            args: None,
            sandbox: false,
            enabled: true,
            debug: false,
        }
    }
}

/// An entry of a fresh configuration: enabled, unrestricted, polled once a
/// second.
pub open spec fn is_stock(e: ScriptEntryConfig, name: Seq<char>, file: Seq<char>) -> bool {
    e.name@ == name && e.file@ == file && e.poll_ms == 1000 && !e.sandbox && e.enabled && !e.debug
}

/// The scripts of a fresh configuration.
pub fn default_scripts() -> (r: Vec<ScriptEntryConfig>)
    ensures
        r@.len() == 2,
        is_stock(r@[0], "DSH"@, "scripts/dsh.lua"@),
        is_stock(r@[1], "Hermes"@, "scripts/hermes.lua"@),
        r@[0].args is Some && r@[0].args->0 is Obj && r@[0].args->0->Obj_0@.len() == 3,
        r@[0].args->0->Obj_0@[0].0@ == "url"@ && r@[0].args->0->Obj_0@[0].1@ == JsonModel::Str(
            "http://127.0.0.1:3080"@,
        ),
        r@[0].args->0->Obj_0@[1].0@ == "poll_ms"@ && r@[0].args->0->Obj_0@[1].1@ == JsonModel::Num(
            crate::json::num_model(2000),
        ),
        r@[0].args->0->Obj_0@[2].0@ == "history_ms"@ && r@[0].args->0->Obj_0@[2].1@ == JsonModel::Num(
            crate::json::num_model(1000),
        ),
        r@[1].args is Some && r@[1].args->0 is Obj && r@[1].args->0->Obj_0@.len() == 3,
        r@[1].args->0->Obj_0@[0].0@ == "db_path"@ && r@[1].args->0->Obj_0@[0].1@ == JsonModel::Null,
        r@[1].args->0->Obj_0@[1].0@ == "poll_ms_active"@ && r@[1].args->0->Obj_0@[1].1@ == JsonModel::Num(
            crate::json::num_model(1000),
        ),
        r@[1].args->0->Obj_0@[2].0@ == "poll_ms_idle"@ && r@[1].args->0->Obj_0@[2].1@ == JsonModel::Num(
            crate::json::num_model(2000),
        ),
{
    let mut dsh: Vec<(String, Json)> = Vec::new();
    dsh.push((own("url"), string("http://127.0.0.1:3080")));
    dsh.push((own("poll_ms"), number(2000)));
    dsh.push((own("history_ms"), number(1000)));
    let mut hermes: Vec<(String, Json)> = Vec::new();
    hermes.push((own("db_path"), Json::Null));
    hermes.push((own("poll_ms_active"), number(1000)));
    hermes.push((own("poll_ms_idle"), number(2000)));
    let mut out: Vec<ScriptEntryConfig> = Vec::new();
    out.push(
        ScriptEntryConfig {
            name: own("DSH"),
            file: own("scripts/dsh.lua"),
            poll_ms: 1000,
            args: Some(Json::Obj(dsh)),
            sandbox: false,
            enabled: true,
            debug: false,
        },
    );
    out.push(
        ScriptEntryConfig {
            name: own("Hermes"),
            file: own("scripts/hermes.lua"),
            poll_ms: 1000,
            args: Some(Json::Obj(hermes)),
            sandbox: false,
            enabled: true,
            debug: false,
        },
    );
    out
}

/// What follows the user's home in a path that starts with `~`.
pub open spec fn below_home(p: Seq<char>) -> Option<Seq<char>> {
    match after_prefix(p, "~/"@) {
        Some(rest) => Some(rest),
        None => after_prefix(p, "~\\"@),
    }
}

/// What follows the user's home in a path that starts with `~`; nothing for any
/// other path.
pub fn home_rest(p: &str) -> (r: Option<String>)
    ensures
        opt_text(r) == below_home(p@),
{
    match strip_prefix(p, "~/") {
        Some(rest) => Some(rest),
        None => strip_prefix(p, "~\\"),
    }
}

/// Whether a script can be started: it is enabled and names a file.
pub fn starts(e: &ScriptEntryConfig) -> (r: bool)
    ensures
        r == (e.enabled && trimmed(e.file@).len() > 0),
{
    e.enabled && !trim(e.file.as_str()).as_str().is_empty()
}

} // verus!
