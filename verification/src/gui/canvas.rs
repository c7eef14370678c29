//! The pixels of the window: blue, green, red and alpha, with the colors
//! multiplied by the alpha, and how pictures and shapes are laid over them.

use vstd::prelude::*;

use crate::anim::{Frame, FrameModel};
use crate::gui::place::clamped;

verus! {

/// A pixel.
#[derive(Debug, Clone, Copy, PartialEq, Eq, Structural)]
pub struct Px {
    pub b: u8,
    pub g: u8,
    pub r: u8,
    pub a: u8,
}

/// The pixels of the window, row by row.
pub struct Canvas {
    pub w: u32,
    pub h: u32,
    pub bits: Vec<u8>,
}

/// Where the pixel at column `x` and row `y` begins.
pub open spec fn offset(w: u32, x: int, y: int) -> int {
    4 * (y * w + x)
}

proof fn lemma_offset(w: u32, h: u32, x: int, y: int)
    requires
        0 <= x < w,
        0 <= y < h,
    ensures
        0 <= y * w,
        0 <= offset(w, x, y),
        offset(w, x, y) + 3 < 4 * (w as int * h as int),
{
    assert(0 <= y * w) by (nonlinear_arith)
        requires
            0 <= y,
    ;
    assert(y * w + x < w as int * h as int) by (nonlinear_arith)
        requires
            0 <= x < w,
            0 <= y < h,
    ;
}

proof fn lemma_offset_distinct(w: u32, x: int, y: int, p: int, q: int)
    requires
        0 <= x < w,
        0 <= p < w,
        x != p || y != q,
    ensures
        offset(w, x, y) != offset(w, p, q),
{
    if y < q {
        assert(y * w + w <= q * w) by (nonlinear_arith)
            requires
                y + 1 <= q,
        ;
    } else if q < y {
        assert(q * w + w <= y * w) by (nonlinear_arith)
            requires
                q + 1 <= y,
        ;
    }
}

impl Canvas {
    /// There are four bytes for each pixel.
    pub open spec fn valid(self) -> bool {
        self.bits@.len() == 4 * (self.w as int * self.h as int)
    }

    /// A place on the canvas.
    pub open spec fn on(self, x: int, y: int) -> bool {
        0 <= x < self.w && 0 <= y < self.h
    }

    /// The pixel at column `x` and row `y`.
    pub open spec fn at(self, x: int, y: int) -> Px {
        let o = offset(self.w, x, y);
        Px { b: self.bits@[o], g: self.bits@[o + 1], r: self.bits@[o + 2], a: self.bits@[o + 3] }
    }

    /// A clear canvas of the given size.
    pub fn new(w: u32, h: u32) -> (r: Canvas)
        requires
            4 * (w as int * h as int) <= usize::MAX,
        ensures
            r.valid(),
            r.w == w,
            r.h == h,
            forall|x: int, y: int|
                r.on(x, y) ==> #[trigger] r.at(x, y) == (Px { b: 0, g: 0, r: 0, a: 0 }),
    {
        let mut bits: Vec<u8> = Vec::new();
        proof {
            assert(w as int * h as int <= 0xffff_ffff * 0xffff_ffff) by (nonlinear_arith)
                requires
                    w <= 0xffff_ffff,
                    h <= 0xffff_ffff,
            ;
        }
        let n: u128 = w as u128 * h as u128 * 4;
        let mut i: u128 = 0;
        while i < n
            invariant
                i <= n,
                n == 4 * (w as int * h as int),
                bits@.len() == i,
                forall|k: int| 0 <= k < i ==> bits@[k] == 0,
            decreases n - i,
        {
            bits.push(0);
            i += 1;
        }
        let c = Canvas { w, h, bits };
        proof {
            assert forall|x: int, y: int| c.on(x, y) implies #[trigger] c.at(x, y) == (Px {
                b: 0,
                g: 0,
                r: 0,
                a: 0,
            }) by {
                lemma_offset(w, h, x, y);
            }
        }
        c
    }

    /// The pixel at column `x` and row `y`.
    pub fn get(&self, x: u32, y: u32) -> (r: Px)
        requires
            self.valid(),
            self.on(x as int, y as int),
        ensures
            r == self.at(x as int, y as int),
    {
        proof {
            lemma_offset(self.w, self.h, x as int, y as int);
            assert(self.bits.len() == self.bits@.len());
        }
        let o: usize = (y as usize * self.w as usize + x as usize) * 4;
        Px { b: self.bits[o], g: self.bits[o + 1], r: self.bits[o + 2], a: self.bits[o + 3] }
    }

    fn put(&mut self, x: u32, y: u32, p: Px)
        requires
            old(self).valid(),
            old(self).on(x as int, y as int),
        ensures
            final(self).valid(),
            final(self).w == old(self).w,
            final(self).h == old(self).h,
            forall|c: int, r: int|
                old(self).on(c, r) ==> #[trigger] final(self).at(c, r) == if c == x && r == y {
                    p
                } else {
                    old(self).at(c, r)
                },
    {
        proof {
            lemma_offset(self.w, self.h, x as int, y as int);
            assert(self.bits.len() == self.bits@.len());
        }
        let ghost before = *self;
        let o: usize = (y as usize * self.w as usize + x as usize) * 4;
        self.bits.set(o, p.b);
        self.bits.set(o + 1, p.g);
        self.bits.set(o + 2, p.r);
        self.bits.set(o + 3, p.a);
        proof {
            assert forall|c: int, r: int| before.on(c, r) implies #[trigger] self.at(c, r) == if c == x && r == y {
                p
            } else {
                before.at(c, r)
            } by {
                lemma_offset(self.w, self.h, c, r);
                if c != x || r != y {
                    lemma_offset_distinct(self.w, c, r, x as int, y as int);
                }
            }
        }
    }

    /// Makes every pixel clear.
    pub fn clear(&mut self)
        requires
            old(self).valid(),
        ensures
            final(self).valid(),
            final(self).w == old(self).w,
            final(self).h == old(self).h,
            forall|x: int, y: int|
                final(self).on(x, y) ==> #[trigger] final(self).at(x, y) == (Px { b: 0, g: 0, r: 0, a: 0 }),
    {
        let n: usize = self.bits.len();
        let mut i: usize = 0;
        let ghost before = *self;
        while i < n
            invariant
                i <= n == self.bits@.len(),
                self.w == before.w,
                self.h == before.h,
                self.bits@.len() == before.bits@.len(),
                forall|k: int| 0 <= k < i ==> self.bits@[k] == 0,
            decreases n - i,
        {
            self.bits.set(i, 0);
            i += 1;
        }
        proof {
            assert forall|x: int, y: int| self.on(x, y) implies #[trigger] self.at(x, y) == (Px {
                b: 0,
                g: 0,
                r: 0,
                a: 0,
            }) by {
                lemma_offset(self.w, self.h, x, y);
            }
        }
    }
}

/// A way to change pixels, each by its place and by what it was.
pub trait Brush {
    /// What it needs for the pixel at column `x` and row `y` is there.
    spec fn ready(&self, x: int, y: int) -> bool;

    /// What it makes of the pixel at column `x` and row `y`.
    spec fn shade(&self, x: int, y: int, d: Px) -> Px;

    fn paint(&self, x: i64, y: i64, d: Px) -> (r: Px)
        requires
            self.ready(x as int, y as int),
        ensures
            r == self.shade(x as int, y as int, d),
    ;
}

/// A rectangle of places: from the first edges up to the second ones.
#[derive(Debug, Clone, Copy)]
pub struct Area {
    pub x0: i64,
    pub y0: i64,
    pub x1: i64,
    pub y1: i64,
}

impl Area {
    /// A place in the rectangle.
    pub open spec fn has(self, x: int, y: int) -> bool {
        self.x0 <= x < self.x1 && self.y0 <= y < self.y1
    }
}

/// `b` is `a` with a brush drawn over a rectangle; nothing else has changed.
pub open spec fn painted<B: Brush>(a: Canvas, b: Canvas, area: Area, brush: B) -> bool {
    &&& b.valid()
    &&& b.w == a.w
    &&& b.h == a.h
    &&& forall|x: int, y: int|
        a.on(x, y) ==> #[trigger] b.at(x, y) == if area.has(x, y) {
            brush.shade(x, y, a.at(x, y))
        } else {
            a.at(x, y)
        }
}

fn into_range(v: i64, most: u32) -> (r: u32)
    ensures
        r == clamped(v as int, 0, most as int),
{
    if v < 0 {
        0
    } else if v > most as i64 {
        most
    } else {
        v as u32
    }
}

impl Canvas {
    /// Draws a brush over the part of a rectangle that is on the canvas.
    pub fn paint<B: Brush>(&mut self, area: Area, brush: &B)
        requires
            old(self).valid(),
            forall|x: int, y: int| #![trigger brush.ready(x, y)] old(self).on(x, y) && area.has(x, y) ==> brush.ready(x, y),
        ensures
            painted(*old(self), *final(self), area, *brush),
    {
        let ghost before = *self;
        let x0: u32 = into_range(area.x0, self.w);
        let x1: u32 = into_range(area.x1, self.w);
        let y0: u32 = into_range(area.y0, self.h);
        let y1: u32 = into_range(area.y1, self.h);
        let mut y: u32 = y0;
        while y < y1
            invariant
                y0 <= y,
                y <= y1 || y0 > y1 && y == y0,
                x0 == clamped(area.x0 as int, 0, before.w as int),
                x1 == clamped(area.x1 as int, 0, before.w as int),
                y0 == clamped(area.y0 as int, 0, before.h as int),
                y1 == clamped(area.y1 as int, 0, before.h as int),
                forall|c: int, r: int|
                    #![trigger brush.ready(c, r)]
                    before.on(c, r) && area.has(c, r) ==> brush.ready(c, r),
                self.valid(),
                self.w == before.w,
                self.h == before.h,
                forall|c: int, r: int|
                    before.on(c, r) ==> #[trigger] self.at(c, r) == if area.has(c, r) && r < y {
                        brush.shade(c, r, before.at(c, r))
                    } else {
                        before.at(c, r)
                    },
            decreases y1 - y,
        {
            let mut x: u32 = x0;
            while x < x1
                invariant
                    x0 <= x,
                    x <= x1 || x0 > x1 && x == x0,
                    y0 <= y < y1,
                    x0 == clamped(area.x0 as int, 0, before.w as int),
                    x1 == clamped(area.x1 as int, 0, before.w as int),
                    y0 == clamped(area.y0 as int, 0, before.h as int),
                    y1 == clamped(area.y1 as int, 0, before.h as int),
                    forall|c: int, r: int|
                        #![trigger brush.ready(c, r)]
                        before.on(c, r) && area.has(c, r) ==> brush.ready(c, r),
                    self.valid(),
                    self.w == before.w,
                    self.h == before.h,
                    forall|c: int, r: int|
                        before.on(c, r) ==> #[trigger] self.at(c, r) == if area.has(c, r) && (r < y || r == y && c < x) {
                            brush.shade(c, r, before.at(c, r))
                        } else {
                            before.at(c, r)
                        },
                decreases x1 - x,
            {
                assert(before.on(x as int, y as int) && area.has(x as int, y as int));
                assert(brush.ready(x as int, y as int));
                let d = self.get(x, y);
                let p = brush.paint(x as i64, y as i64, d);
                self.put(x, y, p);
                x += 1;
            }
            y += 1;
        }
    }
}

/// A color with its alpha: the color times the alpha, rounded.
pub open spec fn premultiplied(v: int, a: int) -> int {
    (v * a + 127) / 255
}

/// What is left of a value under something of alpha `a`.
pub open spec fn under(v: int, a: int) -> int {
    (v * (255 - a) + 127) / 255
}

/// Not more than a byte holds.
pub open spec fn capped(v: int) -> u8 {
    if v > 255 {
        255
    } else {
        v as u8
    }
}

pub proof fn lemma_scaled(v: int, a: int)
    requires
        0 <= v <= 255,
        0 <= a <= 255,
    ensures
        0 <= v * a <= 65025,
        0 <= premultiplied(v, a) <= 255,
        0 <= v * (255 - a) <= 65025,
        0 <= under(v, a) <= 255 - a,
{
    assert(0 <= v * a <= 255 * 255) by (nonlinear_arith)
        requires
            0 <= v <= 255,
            0 <= a <= 255,
    ;
    let i = 255 - a;
    assert(0 <= v * i <= 255 * i) by (nonlinear_arith)
        requires
            0 <= v <= 255,
            0 <= i,
    ;
}

/// A color times an alpha, rounded.
pub fn premul(v: u8, a: u8) -> (r: u8)
    ensures
        r == premultiplied(v as int, a as int),
{
    proof {
        lemma_scaled(v as int, a as int);
    }
    ((v as u32 * a as u32 + 127) / 255) as u8
}

fn left_under(v: u8, a: u8) -> (r: u8)
    ensures
        r == under(v as int, a as int),
        r <= 255 - a,
{
    proof {
        lemma_scaled(v as int, a as int);
    }
    ((v as u32 * (255 - a as u32) + 127) / 255) as u8
}

/// A pixel laid over another: its color has been multiplied by its alpha.
pub open spec fn over(s: Px, d: Px) -> Px {
    Px {
        b: capped(s.b + under(d.b as int, s.a as int)),
        g: capped(s.g + under(d.g as int, s.a as int)),
        r: capped(s.r + under(d.r as int, s.a as int)),
        a: capped(s.a + under(d.a as int, s.a as int)),
    }
}

fn sum_capped(a: u8, b: u8) -> (r: u8)
    ensures
        r == capped(a + b),
{
    let s: u32 = a as u32 + b as u32;
    if s > 255 {
        255
    } else {
        s as u8
    }
}

/// Lays a pixel over another.
pub fn lay_over(s: Px, d: Px) -> (r: Px)
    ensures
        r == over(s, d),
{
    Px {
        b: sum_capped(s.b, left_under(d.b, s.a)),
        g: sum_capped(s.g, left_under(d.g, s.a)),
        r: sum_capped(s.r, left_under(d.r, s.a)),
        a: sum_capped(s.a, left_under(d.a, s.a)),
    }
}

/// Laying nothing over a pixel leaves it as it is, bit for bit: the transparent
/// margins of a picture can be passed over.
pub proof fn law_clear_changes_nothing(d: Px)
    ensures
        over(Px { b: 0, g: 0, r: 0, a: 0 }, d) == d,
{
}

/// An opaque pixel hides what is under it.
pub proof fn law_opaque_hides(s: Px, d: Px)
    requires
        s.a == 255,
    ensures
        over(s, d) == s,
{
}

/// Alpha never overflows: what covers and what is left of what it covers make
/// at most a whole.
pub proof fn law_alpha_within_byte(s: Px, d: Px)
    ensures
        over(s, d).a as int == s.a + under(d.a as int, s.a as int),
{
    lemma_scaled(d.a as int, s.a as int);
}

/// The color of a pixel of a frame: red, green, blue.
pub open spec fn color_at(f: FrameModel, off: int) -> (u8, u8, u8) {
    if f.rgba.len() > 0 {
        (f.rgba[4 * off], f.rgba[4 * off + 1], f.rgba[4 * off + 2])
    } else {
        let i = f.idx[off] as int;
        (f.palette[3 * i], f.palette[3 * i + 1], f.palette[3 * i + 2])
    }
}

/// The color of pixel `off` of a frame is there.
pub open spec fn has_color(f: FrameModel, off: int) -> bool {
    if f.rgba.len() > 0 {
        0 <= off && 4 * off + 3 < f.rgba.len()
    } else {
        0 <= off < f.idx.len() && 3 * f.idx[off] + 2 < f.palette.len()
    }
}

/// How bright a color is, for a picture without color.
pub open spec fn brightness(r: int, g: int, b: int) -> int {
    (r * 2126 + g * 7152 + b * 722 + 5000) / 10000
}

/// A pixel of a frame, ready to be laid over another. `fade` gives the alpha
/// that each alpha comes to.
pub open spec fn source_pixel(f: FrameModel, off: int, fade: Seq<u8>, gray: bool) -> Px {
    let (r, g, b) = color_at(f, off);
    let l = brightness(r as int, g as int, b as int);
    let a = fade[f.alpha_at(off) as int];
    Px {
        b: premultiplied(if gray { l } else { b as int }, a as int) as u8,
        g: premultiplied(if gray { l } else { g as int }, a as int) as u8,
        r: premultiplied(if gray { l } else { r as int }, a as int) as u8,
        a,
    }
}

/// A frame laid over the canvas.
pub struct FrameBrush<'a> {
    pub frame: &'a Frame,
    pub x: i32,
    pub y: i32,
    pub fade: &'a Vec<u8>,
    pub gray: bool,
}

impl<'a> FrameBrush<'a> {
    /// The number of the frame's pixel that comes to lie at a place.
    pub open spec fn source(self, x: int, y: int) -> int {
        (y - self.y) * self.frame.w + (x - self.x)
    }
}

impl<'a> Brush for FrameBrush<'a> {
    open spec fn ready(&self, x: int, y: int) -> bool {
        let off = self.source(x, y);
        &&& self.fade@.len() == 256
        &&& 0 <= x - self.x < self.frame.w
        &&& 0 <= y - self.y < self.frame.h
        &&& self.frame@.readable(off)
        &&& has_color(self.frame@, off)
    }

    open spec fn shade(&self, x: int, y: int, d: Px) -> Px {
        over(source_pixel(self.frame@, self.source(x, y), self.fade@, self.gray), d)
    }

    fn paint(&self, x: i64, y: i64, d: Px) -> (r: Px) {
        let f = self.frame;
        let fx: u64 = (x as i128 - self.x as i128) as u64;
        let fy: u64 = (y as i128 - self.y as i128) as u64;
        proof {
            assert(0 <= fy * f.w) by (nonlinear_arith);
            assert(fy * f.w + fx < f.w as int * f.h as int <= 0xffff_ffff * 0xffff_ffff) by (nonlinear_arith)
                requires
                    0 <= fx < f.w,
                    0 <= fy < f.h,
                    f.w <= 0xffff_ffff,
                    f.h <= 0xffff_ffff,
            ;
            assert(f.rgba.len() == f.rgba@.len() && f.idx.len() == f.idx@.len() && f.alpha.len() == f.alpha@.len());
        }
        let off: usize = (fy * f.w as u64 + fx) as usize;
        assert(off == self.source(x as int, y as int));
        let a: u8 = self.fade[f.pixel_alpha(off) as usize];
        let (r, g, b): (u8, u8, u8) = if f.rgba.len() > 0 {
            (f.rgba[4 * off], f.rgba[4 * off + 1], f.rgba[4 * off + 2])
        } else {
            let i: usize = f.idx[off] as usize;
            (f.palette[3 * i], f.palette[3 * i + 1], f.palette[3 * i + 2])
        };
        let l: u8 = ((r as u32 * 2126 + g as u32 * 7152 + b as u32 * 722 + 5000) / 10000) as u8;
        let s = if self.gray {
            let v: u8 = premul(l, a);
            Px { b: v, g: v, r: v, a }
        } else {
            Px { b: premul(b, a), g: premul(g, a), r: premul(r, a), a }
        };
        lay_over(s, d)
    }
}

/// The part of the canvas that a frame at (`x`, `y`) can change: the box of its
/// visible pixels, without the rows that are cut off at the bottom.
pub open spec fn frame_area(bbox: (i32, i32, i32, i32), x: i32, y: i32, h: u32, clip_bottom: i32) -> (int, int, int, int) {
    let (bx, by, bw, bh) = bbox;
    let floor = if h - clip_bottom < 0 { 0 } else { h - clip_bottom };
    let low = y + by + bh;
    (x + bx, y + by, x + bx + bw, if clip_bottom > 0 && low > floor { floor } else { low })
}

/// A box that lies within a frame.
pub open spec fn box_within(b: (i32, i32, i32, i32), w: u32, h: u32) -> bool {
    b.0 >= 0 && b.1 >= 0 && b.2 >= 0 && b.3 >= 0 && b.0 + b.2 <= w && b.1 + b.3 <= h
}

/// All colors of a frame are there.
pub open spec fn colored(f: FrameModel) -> bool {
    forall|off: int| 0 <= off < f.pixels() ==> #[trigger] has_color(f, off) && f.readable(off)
}

/// The box of a frame that is drawn: that of its visible pixels, or all of it
/// where none is visible.
pub open spec fn drawn_box(f: FrameModel) -> (i32, i32, i32, i32) {
    let b = if f.bbox is Some {
        f.bbox
    } else {
        f.tight_bbox()
    };
    match b {
        Some(r) => r,
        None => (0, 0, f.w as i32, f.h as i32),
    }
}

impl Canvas {
    /// Lays a frame over the canvas with its corner at (`x`, `y`). `fade` gives
    /// the alpha that each alpha comes to; `gray` takes the color away; the
    /// lowest `clip_bottom` rows of the canvas stay as they are.
    pub fn draw_frame(&mut self, f: &Frame, x: i32, y: i32, fade: &Vec<u8>, gray: bool, clip_bottom: i32)
        requires
            old(self).valid(),
            fade@.len() == 256,
            f.w <= i32::MAX,
            f.h <= i32::MAX,
            f.w > 0 && f.h > 0 ==> colored(f@) && box_within(drawn_box(f@), f.w, f.h) && (f.bbox is None
                ==> f@.complete()),
        ensures
            f.w == 0 || f.h == 0 ==> *final(self) == *old(self),
            f.w > 0 && f.h > 0 ==> {
                let (x0, y0, x1, y1) = frame_area(drawn_box(f@), x, y, old(self).h, clip_bottom);
                painted(
                    *old(self),
                    *final(self),
                    Area { x0: x0 as i64, y0: y0 as i64, x1: x1 as i64, y1: y1 as i64 },
                    FrameBrush { frame: f, x, y, fade, gray },
                )
            },
    {
        if f.w == 0 || f.h == 0 {
            return;
        }
        let (bx, by, bw, bh): (i32, i32, i32, i32) = match f.alpha_bbox() {
            Some(b) => b,
            None => (0, 0, f.w as i32, f.h as i32),
        };
        let bottom: i64 = self.h as i64 - clip_bottom as i64;
        let floor: i64 = if bottom < 0 {
            0
        } else {
            bottom
        };
        let low: i64 = y as i64 + by as i64 + bh as i64;
        let area = Area {
            x0: x as i64 + bx as i64,
            y0: y as i64 + by as i64,
            x1: x as i64 + bx as i64 + bw as i64,
            y1: if clip_bottom > 0 && low > floor {
                floor
            } else {
                low
            },
        };
        let brush = FrameBrush { frame: f, x, y, fade, gray };
        proof {
            assert forall|c: int, r: int|
                #![trigger brush.ready(c, r)]
                self.on(c, r) && area.has(c, r) implies brush.ready(c, r) by {
                let fx = c - x;
                let fy = r - y;
                assert(0 <= fx < f.w && 0 <= fy < f.h);
                assert(0 <= fy * f.w + fx < f.w as int * f.h as int) by (nonlinear_arith)
                    requires
                        0 <= fx < f.w,
                        0 <= fy < f.h,
                ;
                assert(has_color(f@, brush.source(c, r)));
            }
        }
        self.paint(area, &brush);
    }
}

} // verus!
