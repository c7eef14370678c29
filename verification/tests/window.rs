use dshpet::anim::Frame;
use dshpet::event::Mode;
use dshpet::gui::blur::{box_blur_h, box_blur_v, Plane};
use dshpet::gui::canvas::{lay_over, premul, Canvas, Px};
use dshpet::gui::fade::{fade_disabled, update_fade};
use dshpet::gui::icon::{bgra_of, fallback_icon, load_icon};
use dshpet::gui::place::{
    anchored, clamp_inside_screen, cursor_over_pet, is_in_sight, window_size, Front, Rect, Screen,
};
use dshpet::gui::roam::{Around, Dodge, Roam, Tuck};
use dshpet::gui::shapes::{capture_due, frost, text_block, Tint};
use dshpet::gui::show::{effective_mode, picture, Picture, Play, Show, TickIn};

const SCREEN: Screen = Screen { x: 0, y: 0, w: 1920, h: 1080 };

fn around(now: u64) -> Around {
    Around {
        auto_hide: true,
        avoid: true,
        hidden: false,
        resting: true,
        after_sec: 30,
        hover_sec: 1,
        now,
        win: (1500, 800, 300, 250),
        work_bottom: 1040,
        tuck_y: 1000,
        cursor: (0, 0),
        bbox: None,
        overhang: 0,
    }
}

#[test]
fn a_strip_of_the_companion_stays_on_the_screen() {
    assert_eq!(clamp_inside_screen(SCREEN, 200, 0, 250, -5000, -5000), (48 - 200, 48 - 250));
    assert_eq!(clamp_inside_screen(SCREEN, 200, 0, 250, 9000, 9000), (1920 - 48, 1080 - 48));
    assert_eq!(clamp_inside_screen(SCREEN, 200, 0, 250, 10, 20), (10, 20));
}

#[test]
fn the_window_keeps_its_lower_right_corner() {
    assert_eq!(anchored(100, 100, 300, 200, 400, 250), (0, 50));
    assert_eq!(anchored(100, 10, 300, 200, 400, 250), (0, 0));
    assert_eq!(window_size(800, 600, 20), (1000, 600));
}

#[test]
fn a_full_screen_program_is_noticed() {
    let screen = Rect { left: 0, top: 0, right: 1920, bottom: 1080 };
    let mut f = Front {
        own_or_desktop: false,
        class: "Game".into(),
        same_screen: true,
        rect: screen,
        screen,
        has_caption: false,
    };
    assert!(f.check_fullscreen());
    f.has_caption = true;
    assert!(!f.check_fullscreen());
    f.has_caption = false;
    f.class = "WorkerW".into();
    assert!(!f.check_fullscreen());
    assert!(is_in_sight(Rect { left: 10, top: 10, right: 300, bottom: 300 }, SCREEN));
}

#[test]
fn the_cursor_over_the_body() {
    let bbox = Some((10, 20, 30, 40));
    assert!(cursor_over_pet(bbox, 5, (100, 100, 300, 300), (115, 120)));
    assert!(!cursor_over_pet(bbox, 5, (100, 100, 300, 300), (114, 120)));
    assert!(!cursor_over_pet(bbox, 5, (100, 100, 300, 300), (145, 120)));
}

#[test]
fn tucked_away_after_a_while_and_back() {
    let mut r = Roam::new();
    assert_eq!(r.update_collapse(&around(0)), Tuck::Stay);
    assert_eq!(r.update_collapse(&around(29_999)), Tuck::Stay);
    assert_eq!(r.update_collapse(&around(30_000)), Tuck::Away);
    assert!(r.collapsed);
    let mut busy = around(40_000);
    busy.resting = false;
    assert_eq!(r.update_collapse(&busy), Tuck::Back);
    assert!(!r.collapsed);
    assert_eq!(r.slide, Some((1500, 800)));
}

#[test]
fn the_cursor_is_dodged() {
    let mut r = Roam::new();
    assert_eq!(r.update_avoid(&around(0), true, false), Dodge::From(1500, 800));
    // neither near nor far: no jitter
    assert!(matches!(r.update_avoid(&around(10), false, false), Dodge::From(..)));
    assert_eq!(r.update_avoid(&around(20), false, true), Dodge::Home(1500, 800));
}

#[test]
fn a_drag_begins_in_place() {
    let mut r = Roam::new();
    let mut e = around(0);
    e.cursor = (1600, 900);
    r.on_lbutton_down(&e);
    assert!(r.dragging);
    assert_eq!(r.on_mouse_move(&e, SCREEN, 200), Some((1500, 800)));
    e.cursor = (1610, 880);
    assert_eq!(r.on_mouse_move(&e, SCREEN, 200), Some((1510, 780)));
    assert_eq!(r.on_lbutton_up((1510, 780), (None, None)), Some((1510, 780)));
}

#[test]
fn what_is_on_show_follows_the_state() {
    let mut s = Show::new();
    let out = s.tick(&TickIn { base: Mode::Working, dragging: false, ready: None, error: false });
    assert!(out.changed);
    assert_eq!(out.loads.len(), 1);
    assert_eq!(out.loads[0].asset, "working");
    let out = s.tick(&TickIn {
        base: Mode::Working,
        dragging: false,
        ready: Some((Mode::Working, "working".into(), false)),
        error: false,
    });
    assert!(out.accepted);
    assert_eq!(out.play.1, Play::Restart);
    assert!(s.is_playing());
}

#[test]
fn a_failed_load_falls_back_to_idle() {
    let mut s = Show::new();
    s.tick(&TickIn { base: Mode::Working, dragging: false, ready: None, error: false });
    let out = s.tick(&TickIn { base: Mode::Working, dragging: false, ready: None, error: true });
    assert!(out.loads.iter().any(|l| l.asset == "idle"));
    let out = s.tick(&TickIn {
        base: Mode::Working,
        dragging: false,
        ready: Some((Mode::Offline, "idle".into(), false)),
        error: false,
    });
    assert!(out.accepted);
    assert_eq!(s.anim.as_deref(), Some("idle"));
}

#[test]
fn sounds_are_played_once() {
    let mut s = Show::new();
    assert_eq!(s.sounds(true, true, false, Mode::Attention), (true, false, true));
    assert_eq!(s.sounds(true, false, false, Mode::Attention), (false, false, false));
    assert_eq!(s.sounds(false, true, true, Mode::Idle), (false, false, false));
}

#[test]
fn only_an_idle_companion_moves() {
    assert_eq!(effective_mode(Mode::Idle, true), Mode::Move);
    assert_eq!(effective_mode(Mode::Working, true), Mode::Working);
    assert_eq!(picture(Mode::Offline, "idle", 5, false), Picture::Gray(0));
    assert_eq!(picture(Mode::Working, "working", 5, true), Picture::FadeOver(5));
    assert_eq!(picture(Mode::Working, "idle", 5, true), Picture::Plain(5));
}

#[test]
fn pixels_laid_over_each_other() {
    let d = Px { b: 10, g: 20, r: 30, a: 40 };
    assert_eq!(lay_over(Px { b: 0, g: 0, r: 0, a: 0 }, d), d);
    let s = Px { b: 1, g: 2, r: 3, a: 255 };
    assert_eq!(lay_over(s, d), s);
    assert_eq!(premul(255, 128), 128);
    assert_eq!(premul(100, 128), 50);
}

fn even_fade() -> Vec<u8> {
    (0..=255).collect()
}

#[test]
fn a_frame_is_drawn_where_it_is_told() {
    let mut c = Canvas::new(4, 3);
    let f = Frame {
        w: 2,
        h: 1,
        idx: Vec::new(),
        palette: Vec::new(),
        pal_alpha: Vec::new(),
        alpha: Vec::new(),
        rgba: vec![255, 0, 0, 255, 0, 0, 255, 128],
        bbox: None,
    };
    c.draw_frame(&f, 1, 2, &even_fade(), false, 0);
    assert_eq!(c.get(1, 2), Px { b: 0, g: 0, r: 255, a: 255 });
    assert_eq!(c.get(2, 2), Px { b: 128, g: 0, r: 0, a: 128 });
    assert_eq!(c.get(0, 2).a, 0);
    let mut g = Canvas::new(4, 3);
    g.draw_frame(&f, 1, 2, &even_fade(), true, 0);
    assert_eq!(g.get(1, 2), Px { b: 54, g: 54, r: 54, a: 255 });
    let mut cut = Canvas::new(4, 3);
    cut.draw_frame(&f, 1, 2, &even_fade(), false, 1);
    assert_eq!(cut.get(1, 2).a, 0);
}

#[test]
fn a_panel_has_round_corners() {
    let mut c = Canvas::new(20, 20);
    c.fill_round_rect(0, 0, 20, 20, 8, (255, 128, 0), 255);
    assert_eq!(c.get(0, 0).a, 0);
    assert_eq!(c.get(10, 0), Px { b: 0, g: 128, r: 255, a: 255 });
    assert_eq!(c.get(10, 10), Px { b: 0, g: 128, r: 255, a: 255 });
    let mut half = Canvas::new(4, 4);
    half.fill_round_rect(0, 0, 4, 4, 0, (200, 200, 200), 100);
    half.fill_round_rect(0, 0, 4, 4, 0, (200, 200, 200), 100);
    assert_eq!(half.get(1, 1).a, 161);
    assert_eq!(half.get(1, 1).r, 126);
}

#[test]
fn a_blur_takes_the_mean_of_what_is_near() {
    let p = Plane { rows: vec![vec![0, 0, 90, 0, 0]] };
    assert_eq!(box_blur_h(&p, 1).rows[0], vec![0, 30, 30, 30, 0]);
    let q = Plane { rows: vec![vec![0], vec![90], vec![0]] };
    let out = box_blur_v(&q, 1, 1);
    assert_eq!(out.rows, vec![vec![45], vec![30], vec![45]]);
    let even = Plane { rows: vec![vec![7, 7, 7, 7]] };
    assert_eq!(box_blur_h(&even, 2).rows[0], vec![7, 7, 7, 7]);
}

#[test]
fn a_shadow_is_soft_and_black() {
    let mut c = Canvas::new(60, 60);
    c.soft_shadow(20, 20, 20, 20, 4, 0, 0, 8, 200);
    let middle = c.get(30, 30);
    assert_eq!((middle.b, middle.g, middle.r), (0, 0, 0));
    // the round corners take a little of it
    assert_eq!(middle.a, 199);
    let edge = c.get(20, 30).a;
    assert!(edge > 0 && edge < 200);
    assert!(c.get(17, 30).a < edge);
    assert_eq!(c.get(5, 5).a, 0);
    let mut none = Canvas::new(60, 60);
    none.soft_shadow(20, 20, 20, 20, 4, 0, 0, 8, 0);
    assert_eq!(none.get(30, 30).a, 0);
}

#[test]
fn text_is_made_smaller_and_laid_over() {
    let mut cover = Canvas::new(2, 2);
    cover.fill_round_rect(0, 0, 1, 2, 0, (255, 255, 255), 255);
    let mut color = Canvas::new(2, 2);
    color.fill_round_rect(0, 0, 1, 2, 0, (0, 0, 200), 255);
    let block = text_block(&cover, &color, 1, 1);
    assert_eq!(block.get(0, 0), Px { b: 100, g: 0, r: 0, a: 128 });
    let mut c = Canvas::new(2, 2);
    c.composite_block(1, 1, &block, 255);
    assert_eq!(c.get(1, 1), Px { b: 100, g: 0, r: 0, a: 128 });
    assert_eq!(c.get(0, 0).a, 0);
    let mut gone = Canvas::new(2, 2);
    gone.composite_block(1, 1, &block, 0);
    assert_eq!(gone.get(1, 1).a, 0);
}

#[test]
fn glass_shows_what_is_behind_the_window() {
    // the desktop is an even gray of 100, seen through black of alpha 128
    let mut screen = Canvas::new(4, 4);
    screen.fill_round_rect(0, 0, 4, 4, 0, (50, 50, 50), 255);
    let mut last = Canvas::new(4, 4);
    last.fill_round_rect(0, 0, 4, 4, 0, (0, 0, 0), 128);
    let plain = Tint { b: even_fade(), g: even_fade(), r: even_fade() };
    frost(&mut screen, Some((&last, 0, 0)), 4, &plain);
    assert_eq!(screen.get(1, 1), Px { b: 100, g: 100, r: 100, a: 255 });
    let mut c = Canvas::new(10, 10);
    assert!(c.draw_acrylic_fill(2, 2, &screen, 1, 255));
    assert_eq!(c.get(3, 3), Px { b: 100, g: 100, r: 100, a: 255 });
    assert_eq!(c.get(0, 0).a, 0);
    assert!(!c.draw_acrylic_fill(50, 50, &screen, 1, 255));
}

#[test]
fn the_screen_is_not_captured_all_the_time() {
    assert!(capture_due(None, 0));
    assert!(!capture_due(Some(1000), 1149));
    assert!(capture_due(Some(1000), 1150));
}

#[test]
fn modes_that_do_not_fade() {
    let states = vec!["attention".to_string(), "fail".to_string()];
    assert!(fade_disabled(&states, Mode::Attention));
    assert!(fade_disabled(&states, Mode::Failed));
    assert!(!fade_disabled(&states, Mode::Idle));
    assert!(fade_disabled(&vec!["failed".to_string()], Mode::Failed));
    let v = update_fade(false, 5, 5, true, false, false, true);
    assert!(v.faded && v.hovered && !v.tucked);
    let v = update_fade(true, 500, 5, true, false, true, true);
    assert!(!v.faded && !v.hovered && v.tucked);
}

#[test]
fn icons() {
    assert_eq!(bgra_of(&vec![1, 2, 3, 4, 5, 6, 7, 8]), vec![3, 2, 1, 4, 7, 6, 5, 8]);
    let f = fallback_icon();
    let at = |x: usize, y: usize| &f[4 * (16 * y + x)..4 * (16 * y + x) + 4];
    assert_eq!(at(0, 0), &[0, 0, 0, 0]);
    assert_eq!(at(7, 7), &[200, 230, 120, 255]);
    assert_eq!(at(7, 1), &[90, 60, 40, 255]);
    assert!(load_icon(b"no picture").is_none());
    let mut bytes = Vec::new();
    {
        let mut enc = png::Encoder::new(&mut bytes, 2, 2);
        enc.set_color(png::ColorType::Rgba);
        enc.set_depth(png::BitDepth::Eight);
        let mut writer = enc.write_header().unwrap();
        writer.write_image_data(&[10, 20, 30, 255].repeat(4)).unwrap();
    }
    let icon = load_icon(&bytes).unwrap();
    assert_eq!(icon.len(), 32 * 32 * 4);
    assert_eq!(&icon[..4], &[30, 20, 10, 255]);
}

#[test]
fn a_picture_that_is_too_wide_gives_no_icon() {
    let of_width = |w: u32| {
        let mut bytes = Vec::new();
        {
            let mut enc = png::Encoder::new(&mut bytes, w, 1);
            enc.set_color(png::ColorType::Grayscale);
            enc.set_depth(png::BitDepth::One);
            let mut writer = enc.write_header().unwrap();
            writer.write_image_data(&vec![0xff; (w as usize + 7) / 8]).unwrap();
        }
        load_icon(&bytes)
    };
    assert_eq!(of_width(64).unwrap(), vec![255; 4096]);
    assert!(of_width(4_194_305).is_none());
}
