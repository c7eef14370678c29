use dshpet::config::{
    default_scripts, home_rest, parse_hex_color, starts, BubbleTheme, BubbleThemeConfig, Rgb, ScriptEntryConfig,
    StateColorsConfig,
};

#[test]
fn hex_color_parse() {
    assert_eq!(parse_hex_color("#FFFFFF"), Some((255, 255, 255)));
    assert_eq!(parse_hex_color("161616"), Some((0x16, 0x16, 0x16)));
    assert_eq!(parse_hex_color("#123456"), Some((0x12, 0x34, 0x56)));
    assert_eq!(parse_hex_color(""), None);
    assert_eq!(parse_hex_color("red"), None);
    assert_eq!(parse_hex_color("#FFFFF"), None);
    assert_eq!(parse_hex_color("#GGGGGG"), None);
}

#[test]
fn bubble_theme_presets_and_overrides() {
    let t = BubbleTheme::resolve(&BubbleThemeConfig::default());
    assert_eq!(t.fill, Rgb { r: 255, g: 255, b: 255 });
    assert_eq!(t.fill_alpha, 80);
    assert_eq!(t.border, Rgb { r: 205, g: 205, b: 205 });
    assert_eq!(t.title, Rgb { r: 0x26, g: 0x26, b: 0x26 });
    assert_eq!(t.from, Rgb { r: 0x8f, g: 0x8f, b: 0x8f });
    assert_eq!(t.shadow_alpha, 38);
    assert_eq!(t.radius, 12);
    assert_eq!(t.state[1], Rgb { r: 0x4A, g: 0x8F, b: 0xE7 });
    let d = BubbleTheme::resolve(&BubbleThemeConfig { dark: true, ..Default::default() });
    assert_eq!(d.fill, Rgb { r: 28, g: 30, b: 34 });
    assert_eq!(d.fill_alpha, 170);
    assert_eq!(d.title, Rgb { r: 0xE6, g: 0xE8, b: 0xEC });
    assert_ne!(t.state[3], d.state[3]);
    let o = BubbleTheme::resolve(&BubbleThemeConfig {
        fill_alpha: Some(200),
        title: Some("#1A2B3C".into()),
        border: Some("#GGGGGG".into()),
        radius: Some(20),
        ..Default::default()
    });
    assert_eq!(o.fill_alpha, 200);
    assert_eq!(o.title, Rgb { r: 0x1A, g: 0x2B, b: 0x3C });
    assert_eq!(o.border, Rgb { r: 205, g: 205, b: 205 });
    assert_eq!(o.radius, 20);
    let o2 = BubbleTheme::resolve(&BubbleThemeConfig {
        state_colors: Some(StateColorsConfig { working: "#FF00FF".into(), ..Default::default() }),
        ..Default::default()
    });
    assert_eq!(o2.state[1], Rgb { r: 255, g: 0, b: 255 });
    assert_eq!(o2.state[0], Rgb { r: 0x7F, g: 0xB4, b: 0xEF });
}

#[test]
fn scripts_of_a_fresh_configuration() {
    let scripts = default_scripts();
    let names: Vec<&str> = scripts.iter().map(|s| s.name.as_str()).collect();
    assert_eq!(names, ["DSH", "Hermes"]);
    assert_eq!(scripts[0].file, "scripts/dsh.lua");
    assert_eq!(scripts[1].file, "scripts/hermes.lua");
    assert!(scripts[0].enabled && scripts[1].enabled);
    let e = ScriptEntryConfig::default();
    assert_eq!(e.poll_ms, 1000);
    assert!(!e.sandbox && !e.debug && e.args.is_none());
}

#[test]
fn a_script_without_a_file_does_not_start() {
    assert!(!starts(&ScriptEntryConfig::default()));
    assert!(starts(&ScriptEntryConfig { file: "a.lua".into(), ..ScriptEntryConfig::default() }));
    assert!(!starts(&ScriptEntryConfig { file: "a.lua".into(), enabled: false, ..ScriptEntryConfig::default() }));
}

#[test]
fn paths_below_the_home() {
    assert_eq!(home_rest("~/x/y").as_deref(), Some("x/y"));
    assert_eq!(home_rest("~\\x").as_deref(), Some("x"));
    assert_eq!(home_rest("/x"), None);
}

#[test]
fn one_hash_sign_is_taken_off() {
    assert_eq!(parse_hex_color("##123456"), None);
    assert_eq!(parse_hex_color(" #0a0B0c "), Some((10, 11, 12)));
    assert_eq!(parse_hex_color("# 12345"), None);
    assert_eq!(Rgb::hex("##123456"), None);
}
