use dshpet::anim::{Animation, Frame, Player};
use dshpet::quantize::{nearest_palette_index, quantize_palette, Tint};
use dshpet::sheet::{load_sheet, Manifest, SheetError};

fn fake_anim(n: usize, d: u32) -> Animation {
    Animation {
        name: "test".into(),
        frames: (0..n)
            .map(|i| Frame {
                w: 4,
                h: 4,
                idx: Vec::new(),
                palette: Vec::new(),
                pal_alpha: Vec::new(),
                alpha: Vec::new(),
                rgba: vec![i as u8; 16],
                bbox: None,
            })
            .collect(),
        durations_ms: vec![d; n],
    }
}

fn grid(width: u32, height: u32, frame_count: usize, frames_per_row: usize) -> Manifest {
    Manifest { width, height, frame_count, frames_per_row }
}

fn png_of(img: &image::RgbaImage) -> Vec<u8> {
    let mut bytes = Vec::new();
    {
        let mut enc = png::Encoder::new(&mut bytes, img.width(), img.height());
        enc.set_color(png::ColorType::Rgba);
        enc.set_depth(png::BitDepth::Eight);
        let mut writer = enc.write_header().unwrap();
        writer.write_image_data(img.as_raw()).unwrap();
    }
    bytes
}

#[test]
fn tail_start_derived_from_ms() {
    let a = fake_anim(10, 100);
    assert_eq!(a.tail_start(300, None), 7);
}

#[test]
fn tail_start_whole_animation() {
    let a = fake_anim(10, 100);
    assert_eq!(a.tail_start(5000, None), 0);
}

#[test]
fn tail_frames_override() {
    let a = fake_anim(10, 100);
    assert_eq!(a.tail_start(300, Some(5)), 5);
    assert_eq!(a.tail_start(300, Some(20)), 0);
}

#[test]
fn non_idle_plays_full_then_tail_loop() {
    let a = fake_anim(10, 100);
    let mut p = Player::new(&a, false, 300, None);
    assert_eq!(p.idx, 0);
    for i in 1..10 {
        assert_eq!(p.advance(&a, 100), i);
    }
    // the next step wraps into the tail
    assert_eq!(p.advance(&a, 100), 7);
    assert_eq!(p.advance(&a, 100), 8);
    assert_eq!(p.advance(&a, 100), 9);
    assert_eq!(p.advance(&a, 100), 7);
}

#[test]
fn idle_loops_full() {
    let a = fake_anim(10, 100);
    let mut p = Player::new(&a, true, 300, None);
    for _ in 0..5 {
        for i in 1..10 {
            assert_eq!(p.advance(&a, 100), i);
        }
        assert_eq!(p.advance(&a, 100), 0);
    }
}

#[test]
fn full_passes_counter_increments_on_tail_wrap() {
    let a = fake_anim(10, 100);
    let mut p = Player::new(&a, false, 300, None);
    for _ in 0..9 {
        p.advance(&a, 100);
    }
    assert_eq!(p.full_passes, 0);
    p.advance(&a, 100);
    assert_eq!(p.full_passes, 1);
    p.advance(&a, 100);
    assert_eq!(p.full_passes, 1);
    let mut full = Player::new(&a, true, 300, None);
    for _ in 0..25 {
        full.advance(&a, 100);
    }
    assert_eq!(full.full_passes, 0);
}

#[test]
fn tail_repeats_are_not_counted() {
    let a = fake_anim(10, 100);
    let mut p = Player::new(&a, false, 300, None);
    for _ in 0..40 {
        p.advance(&a, 100);
    }
    assert_eq!(p.full_passes, 1);
}

#[test]
fn time_in_one_step_or_in_two() {
    let a = fake_anim(10, 100);
    let mut p = Player::new(&a, false, 300, None);
    let mut q = Player::new(&a, false, 300, None);
    p.advance(&a, 1270);
    q.advance(&a, 730);
    q.advance(&a, 540);
    assert_eq!((p.idx, p.remaining_ms), (q.idx, q.remaining_ms));
    assert_eq!(p.idx, 9);
}

#[test]
fn partial_dt_accumulates() {
    let a = fake_anim(10, 100);
    let mut p = Player::new(&a, false, 300, None);
    assert_eq!(p.advance(&a, 30), 0);
    assert_eq!(p.advance(&a, 30), 0);
    assert_eq!(p.advance(&a, 40), 1);
    assert_eq!(p.advance(&a, 10), 1);
    assert_eq!(p.advance(&a, 90), 2);
}

#[test]
fn loop_animation_from_sheet_and_fallback() {
    let img = image::RgbaImage::from_pixel(8, 8, image::Rgba([10, 20, 30, 255]));
    let a = load_sheet("idle", &grid(8, 8, 1, 1), &png_of(&img), 4, 4, 42).expect("loop found");
    assert_eq!(a.name, "idle");
    assert_eq!(a.frame_count(), 1);
    assert_eq!(a.durations_ms, vec![42]);
    // 8x8 scaled by 0.5 -> 4x4 = 16 px
    assert_eq!(a.frame(0).rgba.len(), 16 * 4);
    assert_eq!(&a.frame(0).rgba[..4], &[10, 20, 30, 255]);
}

#[test]
fn sheet_loads_minimal_manifest() {
    let img = image::RgbaImage::from_pixel(8, 4, image::Rgba([1, 2, 3, 200]));
    let bytes = png_of(&img);
    let a = load_sheet("idle", &grid(4, 4, 2, 2), &bytes, 4, 4, 42).expect("load idle sheet");
    assert!(a.frame_count() > 0);
    assert_eq!(a.durations_ms, vec![42; a.frame_count()]);
    let b = load_sheet("idle", &grid(4, 4, 2, 2), &bytes, 4, 4, 100).expect("load idle sheet");
    assert_eq!(b.durations_ms, vec![100; b.frame_count()]);
    let c = load_sheet("idle", &grid(4, 4, 2, 2), &bytes, 4, 4, 42).expect("load idle");
    assert_eq!(c.frame_count(), a.frame_count());
    assert!(load_sheet("no_such_state", &grid(4, 4, 2, 2), &[], 4, 4, 42).is_err());
}

#[test]
fn alpha_bbox_scopes_to_visible_pixels() {
    // 6x4 canvas, opaque pixels only inside rows 1..3, cols 2..4
    let mut rgba = vec![0u8; 6 * 4 * 4];
    for y in 1..3 {
        for x in 2..4 {
            let i = (y * 6 + x) * 4;
            rgba[i] = 255;
            rgba[i + 1] = 0;
            rgba[i + 2] = 0;
            rgba[i + 3] = 255;
        }
    }
    let f = Frame {
        w: 6,
        h: 4,
        idx: Vec::new(),
        palette: Vec::new(),
        pal_alpha: Vec::new(),
        alpha: Vec::new(),
        rgba,
        bbox: None,
    };
    assert_eq!(f.alpha_bbox(), Some((2, 1, 2, 2)));
    // fully transparent frame -> None
    let empty = Frame {
        w: 6,
        h: 4,
        idx: Vec::new(),
        palette: Vec::new(),
        pal_alpha: Vec::new(),
        alpha: Vec::new(),
        rgba: vec![0u8; 6 * 4 * 4],
        bbox: None,
    };
    assert_eq!(empty.alpha_bbox(), None);
    // whole-canvas coverage
    let full = Frame {
        w: 2,
        h: 2,
        idx: Vec::new(),
        palette: Vec::new(),
        pal_alpha: Vec::new(),
        alpha: Vec::new(),
        rgba: vec![0xAA; 2 * 2 * 4],
        bbox: None,
    };
    assert_eq!(full.alpha_bbox(), Some((0, 0, 2, 2)));
    // indexed frames bbox through the per-index alpha table
    let palette = vec![255, 0, 0, 0, 255, 0];
    let pal_alpha = vec![0u8, 255];
    let idx = vec![1u8, 1, 0, 0, 1, 1, 0, 0, 1, 1, 0, 0, 1, 1, 0, 0];
    let f = Frame { w: 4, h: 4, idx, palette, pal_alpha, alpha: Vec::new(), rgba: Vec::new(), bbox: None };
    assert_eq!(f.alpha_bbox(), Some((0, 0, 2, 4)));
    assert_eq!(f.pixel_alpha(5), 255);
    assert_eq!(f.pixel_alpha(2), 0);
}

/// A small paletted PNG with a per-index alpha table gives the pixels that the
/// `image` crate decodes.
#[test]
fn indexed_sheet_matches_rgba_decode() {
    // palette: 0=red, 1=green, 2=blue, 3=white
    let palette: Vec<u8> = vec![255, 0, 0, 0, 255, 0, 0, 0, 255, 255, 255, 255];
    let trns: Vec<u8> = vec![0, 255, 128, 77];
    let cells: [Vec<u8>; 3] = [vec![0, 0, 0, 0], vec![1, 2, 2, 1], vec![3, 3, 3, 3]];
    let mut raw = Vec::new();
    for c in &cells {
        raw.extend_from_slice(c);
    }
    let mut bytes = Vec::new();
    {
        let mut enc = png::Encoder::new(&mut bytes, 6, 2);
        enc.set_color(png::ColorType::Indexed);
        enc.set_depth(png::BitDepth::Eight);
        enc.set_palette(palette.clone());
        enc.set_trns(trns.clone());
        let mut writer = enc.write_header().unwrap();
        writer.write_image_data(&raw).unwrap();
    }
    let anim = load_sheet("test", &grid(2, 2, 3, 3), &bytes, 2, 2, 42).expect("indexed sheet loads");
    assert_eq!(anim.frame_count(), 3);
    assert!(anim.frame(0).rgba.is_empty(), "indexed path must be used at scale 1.0");
    assert_eq!(anim.frame(0).idx.len(), 4);
    assert_eq!(anim.frame(0).palette, palette);
    assert_eq!(anim.frame(0).pal_alpha, trns);

    let ref_img = image::load_from_memory_with_format(&bytes, image::ImageFormat::Png).unwrap().to_rgba8();
    for ci in 0..3usize {
        let f = anim.frame(ci);
        let sx = (ci % 3) * 2;
        let mut expected = Vec::new();
        for row in 0..2usize {
            for col in 0..2usize {
                expected.push(raw[row * 6 + sx + col]);
            }
        }
        assert_eq!(&f.idx, &expected, "cell {ci} index plane");
        for (p, &idx) in expected.iter().enumerate() {
            let (px, py) = (p % 2, p / 2);
            let refpix = ref_img.get_pixel((sx + px) as u32, py as u32).0;
            let pi = idx as usize;
            assert_eq!(
                [f.palette[pi * 3], f.palette[pi * 3 + 1], f.palette[pi * 3 + 2], f.pal_alpha[pi]],
                refpix,
                "cell {ci} pixel {p} must match the RGBA decode"
            );
        }
    }
    assert_eq!(anim.frame(0).alpha_bbox(), Some((0, 1, 2, 1)));
    assert_eq!(anim.frame(2).alpha_bbox(), Some((0, 0, 2, 2)));
}

#[test]
fn rgba_sheet_is_quantized_at_native_scale() {
    let img = image::RgbaImage::from_pixel(4, 4, image::Rgba([10, 20, 30, 255]));
    let a = load_sheet("t", &grid(4, 4, 1, 1), &png_of(&img), 4, 4, 42).expect("rgba sheet loads");
    let f = a.frame(0);
    assert!(f.rgba.is_empty(), "native-scale RGBA sheets must be compacted");
    assert_eq!(f.idx.len(), 16);
    assert_eq!(f.alpha.len(), 16, "per-pixel alpha plane");
    assert_eq!(f.palette.len(), 3, "one unique color -> 1-entry palette");
    assert_eq!(&f.palette[..3], &[10, 20, 30]);
    assert!(f.alpha.iter().all(|&a| a == 255), "alpha stays exact");
    assert_eq!(f.alpha_bbox(), Some((0, 0, 4, 4)));
}

#[test]
fn rgba_sheet_median_cut_stays_bounded_and_alpha_exact() {
    let (w, h) = (64u32, 64u32);
    let mut img = image::RgbaImage::new(w, h);
    for y in 0..h {
        for x in 0..w {
            img.put_pixel(x, y, image::Rgba([x as u8, y as u8, (x + y) as u8, y as u8]));
        }
    }
    let a = load_sheet("g", &grid(64, 64, 1, 1), &png_of(&img), 64, 64, 42).expect("gradient sheet loads");
    let f = a.frame(0);
    assert!(f.rgba.is_empty());
    assert_eq!(f.idx.len(), (w * h) as usize);
    assert_eq!(f.alpha.len(), (w * h) as usize);
    assert!(f.palette.len() / 3 <= 256, "palette bounded: {}", f.palette.len() / 3);
    for (i, p) in img.pixels().enumerate() {
        assert_eq!(f.alpha[i], p.0[3], "alpha must be lossless");
    }
    let entries = f.palette.len() / 3;
    assert!(f.idx.iter().all(|&i| (i as usize) < entries));
}

#[test]
fn sheets_that_cannot_be_loaded() {
    let img = image::RgbaImage::from_pixel(4, 4, image::Rgba([1, 2, 3, 255]));
    let bytes = png_of(&img);
    assert!(matches!(load_sheet("s", &grid(4, 4, 0, 1), &bytes, 4, 4, 42), Err(SheetError::NoFrameCount)));
    assert!(matches!(load_sheet("s", &grid(0, 4, 1, 1), &bytes, 4, 4, 42), Err(SheetError::CellSize(0, 4))));
    assert!(matches!(load_sheet("s", &grid(2, 2, 1, 1), b"not a picture", 1, 1, 42), Err(SheetError::Image(_))));
    assert!(matches!(load_sheet("s", &grid(8, 8, 1, 1), &bytes, 4, 4, 42), Err(SheetError::TooSmall(4, 4, 8, 8))));
}

#[test]
fn a_missing_palette_entry_is_an_error() {
    let mut bytes = Vec::new();
    {
        let mut enc = png::Encoder::new(&mut bytes, 2, 1);
        enc.set_color(png::ColorType::Indexed);
        enc.set_depth(png::BitDepth::Eight);
        enc.set_palette(vec![255, 0, 0]);
        let mut writer = enc.write_header().unwrap();
        writer.write_image_data(&[0, 3]).unwrap();
    }
    assert!(matches!(load_sheet("s", &grid(2, 1, 1, 1), &bytes, 2, 1, 42), Err(SheetError::BadIndex)));
}

#[test]
fn a_frame_without_a_time_gets_one() {
    let img = image::RgbaImage::from_pixel(4, 4, image::Rgba([1, 2, 3, 255]));
    let a = load_sheet("s", &grid(4, 4, 1, 1), &png_of(&img), 4, 4, 0).unwrap();
    assert!(a.durations_ms[0] > 0);
}

#[test]
fn a_palette_has_at_least_one_entry() {
    let tints = vec![Tint { r: 0, g: 10, b: 255, n: 3 }, Tint { r: 100, g: 50, b: 251, n: 1 }];
    assert_eq!(quantize_palette(tints.clone(), 0), vec![25, 20, 254]);
    assert_eq!(quantize_palette(tints.clone(), 1), vec![25, 20, 254]);
    assert_eq!(quantize_palette(tints, 2), vec![0, 10, 255, 100, 50, 251]);
    assert_eq!(quantize_palette(Vec::new(), 4), vec![0, 0, 0]);
}

#[test]
fn the_nearest_entry_of_a_palette() {
    assert_eq!(nearest_palette_index(9, 9, 9, &Vec::new()), 0);
    assert_eq!(nearest_palette_index(9, 9, 9, &vec![0, 0, 0, 10, 10, 10, 8, 8, 8]), 1);
    // beyond 256 entries the index wraps around
    let mut palette = vec![255; 3 * 300];
    palette[3 * 260] = 0;
    assert_eq!(nearest_palette_index(0, 255, 255, &palette), 4);
}

#[test]
fn a_frame_that_stays_needs_no_animation() {
    let mut p = Player::new(&fake_anim(3, 100), true, 0, None);
    let none = fake_anim(0, 0);
    assert_eq!(p.advance(&none, 0), 0);
    assert_eq!(p.remaining_ms, 100);
    assert_eq!(p.advance(&none, 99), 0);
    assert_eq!(p.remaining_ms, 1);
}
