use dshpet::bubble_text::{BubbleText, LiveStream};
use dshpet::config::{BubbleTheme, BubbleThemeConfig, Rgb, ScriptEntryConfig};
use dshpet::event::{LiveText, Mode, Source};
use dshpet::gui::bubble::{Bubble, BubbleSizes, Layout, OverlaySizes, Stroke, TextOverlay};
use dshpet::gui::fit::{Fit, Stage};
use dshpet::gui::flow::{type_on, Flow, FlowConfig};
use dshpet::gui::menu::{commands, picked, script_menu_entries, toggle_script, toggles, MenuState, Pick};
use dshpet::gui::settings::{
    apply_choice, client_height_of, declared_settings, edit_to_value, hint_text, list_name, on_command, row_args, row_tops,
    value_to_edit, Choice, Edit, Press, SettingsSizes,
};
use dshpet::json::{Json, JsonNum};
use dshpet::state::{SessionInfo, Snapshot};

/// Ten pixels for each line, and five characters to a line.
fn height(lines: &[String]) -> u32 {
    lines.iter().map(|l| 10 * ((l.chars().count() as u32 + 4) / 5).max(1)).sum()
}

fn fitted(lines: &[&str], budget: u32, tail: bool, limit: Option<usize>) -> Fit {
    let mut fit = Fit::begin(lines.iter().map(|s| s.to_string()).collect(), budget, tail, limit);
    while let Some(ask) = fit.ask() {
        fit.answer(height(&ask));
    }
    fit
}

#[test]
fn lines_that_fit_stay() {
    assert_eq!(fitted(&["abc", "de"], 20, true, None).lines, vec!["abc", "de"]);
}

#[test]
fn trailing_lines_are_dropped() {
    let fit = fitted(&["a", "b", "c", "d"], 25, true, None);
    assert_eq!(fit.lines, vec!["a", "b", "…"]);
    assert_eq!(fit.height, 25);
    assert_eq!(fitted(&["abcdefghijkl", "b"], 25, true, None).lines, vec!["abcdefghijkl"]);
}

#[test]
fn one_line_keeps_its_newest_characters() {
    let fit = fitted(&["abcdefghijklmnopqrstuvwxyz"], 20, true, None);
    // ten characters fit, nine of them with the dots
    assert_eq!(fit.lines, vec!["…rstuvwxyz"]);
    assert_eq!(fit.stage, Stage::Done);
    let plain = fitted(&["abcdefghijklmnopqrstuvwxyz"], 20, false, None);
    assert_eq!(plain.lines, vec!["abcdefghijklmnopqrstuvwxyz"]);
    assert_eq!(plain.height, 20);
}

#[test]
fn no_more_lines_than_allowed() {
    assert_eq!(fitted(&["a", "b", "c"], 100, false, Some(2)).lines, vec!["a", "b", "…"]);
    assert_eq!(fitted(&["a", "b"], 100, false, Some(0)).lines, vec!["a", "…"]);
}

fn sizes() -> BubbleSizes {
    BubbleSizes::unscaled(12)
}

fn theme() -> BubbleTheme {
    BubbleTheme::resolve(&BubbleThemeConfig::default())
}

fn said(title: &str, from: Option<&str>, lines: &[&str]) -> BubbleText {
    BubbleText {
        title: title.into(),
        from: from.map(|s| s.into()),
        lines: lines.iter().map(|s| s.to_string()).collect(),
    }
}

fn lay_out(b: &mut Bubble, text: BubbleText, pet_w: u32, pet_h: u32) -> bool {
    match b.layout(text, pet_w, pet_h, &sizes()) {
        Layout::Done(changed) => changed,
        Layout::Measure(m) => {
            let from_h = if m.text.from.is_some() { 10 } else { 0 };
            let mut f = m.headed(10, from_h, &sizes());
            while let Some(ask) = f.fit.ask() {
                f.fit.answer(height(&ask));
            }
            b.accept(f);
            true
        }
    }
}

#[test]
fn the_bubble_has_a_size_of_its_own() {
    let mut b = Bubble::hidden(theme());
    assert!(!b.visible());
    assert!(lay_out(&mut b, said("t", Some("DSH"), &["x"]), 800, 600));
    assert!(b.visible());
    assert_eq!((b.w, b.h), (150, 350));
    assert_eq!(b.header_h, 26);
    assert!(!lay_out(&mut b, said("t", Some("DSH"), &["x"]), 800, 600));
    // a smaller companion makes a smaller bubble
    assert!(lay_out(&mut b, said("t", Some("DSH"), &["x"]), 800, 200));
    assert_eq!(b.h, 156);
    assert!(lay_out(&mut b, said("", None, &[]), 800, 200));
    assert_eq!((b.w, b.h), (0, 0));
    assert!(!b.visible());
}

#[test]
fn what_is_drawn_for_a_bubble() {
    let fade: Vec<u8> = (0..=255).collect();
    let mut b = Bubble::hidden(theme());
    lay_out(&mut b, said("t", Some("DSH"), &["x"]), 800, 600);
    let all = b.draw(10, 20, Mode::Done, true, &sizes(), &fade, 40);
    assert_eq!(all.len(), 8);
    assert!(matches!(&all[0], Stroke::Shadow { alpha: 38, .. }));
    assert!(matches!(&all[2], Stroke::Panel { at, radius: 11, alpha: 80, .. }
        if (at.x, at.y, at.w, at.h) == (11, 21, 148, 348)));
    match &all[4] {
        Stroke::Text { lines, single, .. } => {
            assert_eq!(lines, &vec!["From DSH".to_string()]);
            assert!(single);
        }
        _ => panic!("no pill"),
    }
    // a finished task colors its title
    match &all[5] {
        Stroke::Text { color, .. } => assert_eq!(*color, b.theme.state[2]),
        _ => panic!("no title"),
    }
    let back = b.draw(10, 20, Mode::Working, false, &sizes(), &fade, 40);
    assert_eq!(back.len(), 6);
    match &back[5] {
        Stroke::Text { color, .. } => assert_eq!(*color, Rgb { r: 0x26, g: 0x26, b: 0x26 }),
        _ => panic!("no title"),
    }
}

#[test]
fn text_behind_the_companion() {
    let s = OverlaySizes { margin_x: 10, margin_y: 8, slack: 6 };
    let mut o = TextOverlay::none();
    let lines = || vec!["a".to_string(), "b".to_string()];
    let (mut fit, w) = o.layout_if_needed(lines(), 300, 400, 5, &s).unwrap();
    assert_eq!(w, 280);
    while let Some(ask) = fit.ask() {
        fit.answer(height(&ask));
    }
    o.accept(fit, w, 5, 0, 400, &s);
    assert_eq!((o.x, o.y, o.w, o.h), (15, 8, 280, 26));
    assert!(o.layout_if_needed(lines(), 300, 400, 5, &s).is_none());
    assert!(o.layout_if_needed(Vec::new(), 300, 400, 5, &s).is_none());
    assert!(o.lines.is_empty());
}

#[test]
fn typing_keeps_up_and_starts_over() {
    let stream = |len: usize| Some(LiveStream { session_id: "s".into(), kind: 0, len });
    let mut t = None;
    assert_eq!(type_on(&mut t, &stream(100), 10, 1000), Some(10));
    assert_eq!(type_on(&mut t, &stream(100), 10, 500), Some(15));
    // a stream that runs away is caught up with
    assert_eq!(type_on(&mut t, &stream(1000), 10, 100), Some(760));
    assert_eq!(type_on(&mut t, &None, 10, 100), None);
    assert!(t.is_none());
    assert_eq!(type_on(&mut t, &stream(100), 0, 100), None);
}

#[test]
fn what_the_bubble_says_from_tick_to_tick() {
    let c = FlowConfig { rotate_ms: 5000, type_cps: 0, max_chars: 1200 };
    let mut f = Flow::new();
    let mut s = Snapshot { mode: Mode::Working, ..Default::default() };
    s.working.push(SessionInfo {
        session_id: "s1".into(),
        source: Source::Dsh,
        title: "t".into(),
        tool: Some("bash".into()),
        tool_args: None,
        task: None,
        todos: vec![],
        live: LiveText::default(),
    });
    assert!(f.update(&s, Some(Source::Dsh), Mode::Working, false, 0, 16, &c));
    assert_eq!(f.text.title, "正在干活…");
    assert!(!f.update(&s, Some(Source::Dsh), Mode::Working, false, 16, 16, &c));
    // the single bubble gives way to the cards
    assert_eq!(f.single_text(Mode::Working, false).title, "正在干活…");
    assert_eq!(f.single_text(Mode::Working, true).title, "");
    assert_eq!(f.single_text(Mode::Done, true).title, "正在干活…");
}

#[test]
fn a_card_comes_once_a_script_has_been_at_work() {
    let c = FlowConfig { rotate_ms: 5000, type_cps: 0, max_chars: 1200 };
    let mut f = Flow::new();
    let mut s = Snapshot { mode: Mode::Working, ..Default::default() };
    s.working.push(SessionInfo {
        session_id: "script-3-a".into(),
        source: Source::Script(3),
        title: "t".into(),
        tool: Some("bash".into()),
        tool_args: None,
        task: None,
        todos: vec![],
        live: LiveText::default(),
    });
    f.update(&s, None, Mode::Working, true, 0, 16, &c);
    f.update(&s, None, Mode::Working, true, 5000, 16, &c);
    assert_eq!(f.cards.len(), 1);
    assert_eq!((f.cards[0].id, f.cards[0].front, f.cards[0].working), (3, true, true));
    let texts = f.card_texts(&s, 1200);
    assert_eq!(texts[0].title, "正在干活…");
    assert!(f.clear_stack());
    assert!(f.cards.is_empty());
    assert!(!f.clear_stack());
}

#[test]
fn the_menu_of_the_tray() {
    let state =
        MenuState { avoid: true, auto_hide: false, autostart: true, stack: false, click_through: true, sound: false };
    let t = toggles(state);
    assert_eq!(t[0].label, "回避模式");
    assert!(t[0].checked && !t[1].checked);
    assert_eq!(picked(t[5].id), Pick::Autostart);
    assert_eq!(picked(commands()[1].id), Pick::Quit);
    assert_eq!(picked(1103), Pick::Script(3));
    assert_eq!(picked(7), Pick::Nothing);
    let mut scripts = vec![
        ScriptEntryConfig { name: "DSH".into(), ..ScriptEntryConfig::default() },
        ScriptEntryConfig::default(),
    ];
    assert_eq!(script_menu_entries(&scripts), vec![(true, "DSH".to_string()), (true, "脚本 2".to_string())]);
    assert_eq!(toggle_script(&mut scripts, 1), Some(false));
    assert!(!scripts[1].enabled);
    assert_eq!(toggle_script(&mut scripts, 1), Some(true));
    assert_eq!(toggle_script(&mut scripts, 9), None);
}

#[test]
fn arguments_that_a_script_declares() {
    let src = "-- a script\n  --[hannis:set] log | 日志路径 | a.log\r\n--[hannis:set] url\n--[hannis:set]  | x\nlocal a = 1";
    let d = declared_settings(src);
    assert_eq!(d.len(), 2);
    assert_eq!((d[0].key.as_str(), d[0].label.as_str(), d[0].value.as_str()), ("log", "日志路径", "a.log"));
    assert_eq!((d[1].key.as_str(), d[1].label.as_str(), d[1].value.as_str()), ("url", "url", ""));
    // a saved value comes first
    let args = Some(Json::Obj(vec![("url".to_string(), Json::Str("http://x".into()))]));
    let rows = row_args(&args, "a.lua", &d);
    assert_eq!(rows.len(), 2);
    assert_eq!((rows[0].key.as_str(), rows[0].value.as_str()), ("url", "http://x"));
    assert_eq!((rows[1].key.as_str(), rows[1].value.as_str()), ("log", "a.log"));
    let none = Vec::new();
    assert_eq!(row_args(&None, "scripts/MAA.lua", &none)[0].key, "log");
    assert_eq!(row_args(&None, "comfyui.lua", &none)[0].key, "url");
    assert!(row_args(&None, "other.lua", &none).is_empty());
}

#[test]
fn values_in_edit_fields() {
    assert!(edit_to_value("  ", &None).is_none());
    assert!(matches!(edit_to_value(" true ", &None), Some(Json::Bool(true))));
    assert!(matches!(edit_to_value("-42", &None), Some(Json::Num(n)) if n.signed == Some(-42) && n.text == "-42"));
    assert!(matches!(edit_to_value("hello", &None), Some(Json::Str(s)) if s == "hello"));
    let half = JsonNum { unsigned: None, signed: None, truncated: 1, text: "1.5".into() };
    assert!(matches!(edit_to_value("1.5", &Some(half)), Some(Json::Num(n)) if n.text == "1.5"));
    assert_eq!(value_to_edit(&Json::Bool(false)), "false");
    assert_eq!(value_to_edit(&Json::Null), "");
    assert_eq!(list_name(0, ""), "脚本 1");
    assert_eq!(hint_text(true), "已启用 · 点击停用");
}

#[test]
fn what_was_chosen_is_applied() {
    let mut sc = ScriptEntryConfig { name: "A".into(), ..ScriptEntryConfig::default() };
    let edit = |k: &str, t: &str| Edit { key: k.into(), text: t.into(), number: None };
    apply_choice(&mut sc, &Choice { enabled: false, edits: vec![edit("z", "1"), edit("a", "x"), edit("m", "")] });
    assert!(!sc.enabled);
    match &sc.args {
        Some(Json::Obj(v)) => {
            assert_eq!(v.len(), 2);
            assert_eq!((v[0].0.as_str(), v[1].0.as_str()), ("a", "z"));
        }
        _ => panic!("no arguments"),
    }
    apply_choice(&mut sc, &Choice { enabled: true, edits: vec![edit("m", "")] });
    assert!(sc.args.is_none());
}

#[test]
fn buttons_and_rows_of_the_settings() {
    let mut pills = vec![true, false];
    assert_eq!(on_command(1, &mut pills), Press::Save);
    assert_eq!(on_command(2, &mut pills), Press::Cancel);
    assert_eq!(on_command(2101, &mut pills), Press::Flip(1));
    assert_eq!(pills, vec![true, true]);
    assert_eq!(on_command(99, &mut pills), Press::Nothing);
    let s = SettingsSizes::unscaled();
    // one row and two arguments, then one row
    assert_eq!(row_tops(&s, &vec![2, 0]), vec![20, 20 + 3 * 46 + 8, 20 + 3 * 46 + 8 + 46 + 8]);
    assert_eq!(client_height_of(&s, &vec![2, 0]), 4 * 46 + 2 * 8 + 34 + 20);
    assert_eq!(client_height_of(&s, &Vec::new()), 54);
}

#[test]
fn lengths_at_scale_one() {
    let b = sizes();
    assert_eq!((b.min_w, b.max_w, b.max_h, b.margin_y), (150, 150, 350, 44));
    assert_eq!((b.pad_x, b.pad_top, b.pad_bottom), (7, 6, 8));
    assert_eq!((b.least_w, b.least_h, b.least_body), (72, 24, 16));
    assert_eq!((b.pill_gap, b.gap_top, b.divider, b.gap_bottom), (6, 3, 1, 4));
    assert_eq!((b.border, b.radius, b.shadow_blur, b.glass_blur), (1, 12, 20, 14));
    assert_eq!((b.pill_pad, b.pill_extra, b.pill_lift), (8, 4, 2));
    let s = SettingsSizes::unscaled();
    assert_eq!((s.row_h, s.gap, s.group_gap, s.margin), (36, 10, 18, 20));
    assert_eq!((s.label_w, s.client_w, s.pill_w, s.indent), (130, 600, 190, 14));
    assert_eq!((s.hint_w, s.hint_h, s.btn_w, s.btn_h, s.edit_pad), (170, 18, 110, 34, 6));
}
