//! What is drawn besides the frames: rounded panels, their soft shadows, blocks
//! of text, and glass that shows what is behind the window.

use vstd::prelude::*;

use crate::gui::blur::{blurred, rows_of, soften_plane, Plane};
use crate::gui::canvas::{
    lay_over, lemma_scaled, over, painted, premul, premultiplied, under, Area, Brush, Canvas, Px,
};
use crate::gui::place::clamped;

verus! {

/// A rectangle with round corners: its first column and row, its last ones, and
/// the radius of the corners.
#[derive(Debug, Clone, Copy)]
pub struct Round {
    pub x0: i64,
    pub y0: i64,
    pub x1: i64,
    pub y1: i64,
    pub radius: u32,
}

/// How far a place is from the straight part of an edge.
pub open spec fn beyond(v: int, first: int, last: int, r: int) -> int {
    let lo = first + r;
    let hi = if last - r > lo {
        last - r
    } else {
        lo
    };
    v - clamped(v, lo, hi)
}

impl Round {
    /// A place in the rectangle, which a corner does not cut off. The place is
    /// taken to be within the edges.
    pub open spec fn holds(self, x: int, y: int) -> bool {
        let dx = beyond(x, self.x0 as int, self.x1 as int, self.radius as int);
        let dy = beyond(y, self.y0 as int, self.y1 as int, self.radius as int);
        dx * dx + dy * dy <= self.radius as int * self.radius as int
    }
}

fn beyond_of(v: i64, first: i64, last: i64, r: u32) -> (d: i128)
    ensures
        d == beyond(v as int, first as int, last as int, r as int),
        -0x2_0000_0000_0000_0000 < d < 0x2_0000_0000_0000_0000,
{
    let v: i128 = v as i128;
    let lo: i128 = first as i128 + r as i128;
    let last: i128 = last as i128 - r as i128;
    let hi: i128 = if last > lo {
        last
    } else {
        lo
    };
    if v < lo {
        v - lo
    } else if v > hi {
        v - hi
    } else {
        0
    }
}

impl Round {
    fn inside(&self, x: i64, y: i64) -> (r: bool)
        requires
            -0x1_0000_0000_0000 < self.x0 <= self.x1 < 0x1_0000_0000_0000,
            -0x1_0000_0000_0000 < self.y0 <= self.y1 < 0x1_0000_0000_0000,
            self.x0 <= x <= self.x1,
            self.y0 <= y <= self.y1,
        ensures
            r == self.holds(x as int, y as int),
    {
        let dx: i128 = beyond_of(x, self.x0, self.x1, self.radius);
        let dy: i128 = beyond_of(y, self.y0, self.y1, self.radius);
        let q: i128 = self.radius as i128;
        proof {
            assert(-0x1_0000_0000_0000 < dx < 0x1_0000_0000_0000);
            assert(-0x1_0000_0000_0000 < dy < 0x1_0000_0000_0000);
            assert(0 <= dx * dx < 0x1_0000_0000_0000 * 0x1_0000_0000_0000) by (nonlinear_arith)
                requires
                    -0x1_0000_0000_0000 < dx < 0x1_0000_0000_0000,
            ;
            assert(0 <= dy * dy < 0x1_0000_0000_0000 * 0x1_0000_0000_0000) by (nonlinear_arith)
                requires
                    -0x1_0000_0000_0000 < dy < 0x1_0000_0000_0000,
            ;
            assert(0 <= q * q < 0x1_0000_0000_0000 * 0x1_0000_0000_0000) by (nonlinear_arith)
                requires
                    0 <= q <= 0xffff_ffff,
            ;
        }
        dx * dx + dy * dy <= q * q
    }
}

/// Where no corner is near, a place belongs to the rectangle.
pub proof fn law_corners_only(p: Round, x: int, y: int)
    requires
        p.x0 <= x <= p.x1,
        p.y0 <= y <= p.y1,
        p.x0 + p.radius <= x <= p.x1 - p.radius || p.y0 + p.radius <= y <= p.y1 - p.radius,
        2 * p.radius <= p.x1 - p.x0,
        2 * p.radius <= p.y1 - p.y0,
    ensures
        p.holds(x, y),
{
    let r = p.radius as int;
    let dx = beyond(x, p.x0 as int, p.x1 as int, r);
    let dy = beyond(y, p.y0 as int, p.y1 as int, r);
    assert(dx * dx + dy * dy <= r * r) by (nonlinear_arith)
        requires
            -r <= dx <= r,
            -r <= dy <= r,
            dx == 0 || dy == 0,
    ;
}

/// A color: red, green, blue.
pub type Color = (u8, u8, u8);

/// A plain panel. The alpha of a pixel grows by that of the panel; its color
/// becomes the panel's.
pub struct PanelBrush {
    pub shape: Round,
    pub color: Color,
    pub alpha: u8,
}

/// The alpha of a pixel of alpha `a0` under a panel of alpha `a`.
pub open spec fn joined(a0: int, a: int) -> int {
    a0 + under(a, a0)
}

impl Brush for PanelBrush {
    open spec fn ready(&self, x: int, y: int) -> bool {
        &&& -0x1_0000_0000_0000 < self.shape.x0 <= x <= self.shape.x1 < 0x1_0000_0000_0000
        &&& -0x1_0000_0000_0000 < self.shape.y0 <= y <= self.shape.y1 < 0x1_0000_0000_0000
    }

    open spec fn shade(&self, x: int, y: int, d: Px) -> Px {
        let a = joined(d.a as int, self.alpha as int);
        if self.shape.holds(x, y) && a > 0 {
            Px {
                b: premultiplied(self.color.2 as int, a) as u8,
                g: premultiplied(self.color.1 as int, a) as u8,
                r: premultiplied(self.color.0 as int, a) as u8,
                a: a as u8,
            }
        } else {
            d
        }
    }

    fn paint(&self, x: i64, y: i64, d: Px) -> (r: Px) {
        if self.shape.inside(x, y) {
            proof {
                lemma_scaled(self.alpha as int, d.a as int);
            }
            let a: u8 = (d.a as u32 + (self.alpha as u32 * (255 - d.a as u32) + 127) / 255) as u8;
            if a > 0 {
                let (r, g, b) = self.color;
                return Px { b: premul(b, a), g: premul(g, a), r: premul(r, a), a };
            }
        }
        d
    }
}

/// The places of a rectangle with its corner at (`x`, `y`).
pub open spec fn area_of(x: i32, y: i32, w: u32, h: u32) -> Area {
    Area { x0: x as i64, y0: y as i64, x1: (x + w) as i64, y1: (y + h) as i64 }
}

/// The rounded rectangle with its corner at (`x`, `y`).
pub open spec fn round_of(x: i32, y: i32, w: u32, h: u32, radius: u32) -> Round {
    Round { x0: x as i64, y0: y as i64, x1: (x + w - 1) as i64, y1: (y + h - 1) as i64, radius }
}

impl Canvas {
    /// Draws a plain panel with round corners.
    pub fn fill_round_rect(&mut self, x: i32, y: i32, w: u32, h: u32, radius: u32, color: Color, alpha: u8)
        requires
            old(self).valid(),
        ensures
            painted(
                *old(self),
                *final(self),
                area_of(x, y, w, h),
                PanelBrush { shape: round_of(x, y, w, h, radius), color, alpha },
            ),
    {
        let area = Area { x0: x as i64, y0: y as i64, x1: x as i64 + w as i64, y1: y as i64 + h as i64 };
        let shape = Round { x0: x as i64, y0: y as i64, x1: area.x1 - 1, y1: area.y1 - 1, radius };
        let brush = PanelBrush { shape, color, alpha };
        self.paint(area, &brush);
    }
}

/// The rounded rectangle as a plane: full within it and empty outside.
pub open spec fn mask(shape: Round, w: nat, h: nat) -> Seq<Seq<u8>> {
    Seq::new(
        h,
        |y: int|
            Seq::new(
                w,
                |x: int|
                    if shape.holds(x, y) {
                        255u8
                    } else {
                        0u8
                    },
            ),
    )
}

/// Room round a shadow for what spreads out of it.
pub open spec fn shadow_pad(dx: int, dy: int, blur: int) -> int {
    (if blur > 1 { blur } else { 1 }) + (if dx > 0 { dx } else { 0 }) + (if dy > 0 { dy } else { 0 })
}

/// How far the values of a shadow are mixed.
pub open spec fn shadow_reach(blur: int) -> int {
    if blur / 2 > 1 {
        blur / 2
    } else {
        1
    }
}

/// The rounded rectangle that throws the shadow, in the plane of the shadow.
pub open spec fn shadow_shape(w: u32, h: u32, radius: u32, dx: i32, dy: i32, blur: u32) -> Round {
    let pad = shadow_pad(dx as int, dy as int, blur as int);
    Round {
        x0: (pad + dx) as i64,
        y0: (pad + dy) as i64,
        x1: (pad + dx + w - 1) as i64,
        y1: (pad + dy + h - 1) as i64,
        radius,
    }
}

/// How dark the shadow is at each place of its plane.
pub open spec fn shadow_plane(w: u32, h: u32, radius: u32, dx: i32, dy: i32, blur: u32) -> Seq<Seq<u8>> {
    let pad = shadow_pad(dx as int, dy as int, blur as int);
    blurred(
        mask(shadow_shape(w, h, radius, dx, dy, blur), (w + 2 * pad) as nat, (h + 2 * pad) as nat),
        (w + 2 * pad) as nat,
        shadow_reach(blur as int),
    )
}

/// A black shadow, as dark as a plane says, with the plane's corner at
/// (`x`, `y`).
pub struct ShadowBrush<'a> {
    pub plane: &'a Plane,
    pub x: i64,
    pub y: i64,
    pub alpha: u8,
}

impl<'a> Brush for ShadowBrush<'a> {
    open spec fn ready(&self, x: int, y: int) -> bool {
        &&& 0 <= y - self.y < self.plane@.len()
        &&& 0 <= x - self.x < self.plane@[y - self.y].len()
    }

    open spec fn shade(&self, x: int, y: int, d: Px) -> Px {
        shadowed(self.plane@, x - self.x, y - self.y, self.alpha, d)
    }

    fn paint(&self, x: i64, y: i64, d: Px) -> (r: Px) {
        proof {
            assert(self.plane.rows.len() == self.plane.rows@.len());
            assert(self.plane@[y - self.y] == self.plane.rows@[y - self.y]@);
            assert(self.plane.rows@[y - self.y].len() == self.plane.rows@[y - self.y]@.len());
        }
        let py: usize = (y as i128 - self.y as i128) as usize;
        let px: usize = (x as i128 - self.x as i128) as usize;
        let a: u8 = premul(self.plane.rows[py][px], self.alpha);
        lay_over(Px { b: 0, g: 0, r: 0, a }, d)
    }
}

/// A pixel under a shadow.
pub open spec fn shadowed(plane: Seq<Seq<u8>>, x: int, y: int, alpha: u8, d: Px) -> Px {
    over(Px { b: 0, g: 0, r: 0, a: premultiplied(plane[y][x] as int, alpha as int) as u8 }, d)
}

/// The shadow's plane can be held.
pub open spec fn shadow_fits(w: u32, h: u32, dx: i32, dy: i32, blur: u32) -> bool {
    let pad = shadow_pad(dx as int, dy as int, blur as int);
    w + 2 * pad <= usize::MAX && h + 2 * pad <= usize::MAX
}

/// `b` is `a` with a soft shadow drawn over it.
pub open spec fn shadow_drawn(a: Canvas, b: Canvas, x: int, y: int, plane: Seq<Seq<u8>>, alpha: u8) -> bool {
    &&& b.valid()
    &&& b.w == a.w
    &&& b.h == a.h
    &&& forall|c: int, r: int|
        a.on(c, r) ==> #[trigger] b.at(c, r) == if 0 <= r - y < plane.len() && 0 <= c - x < plane[r - y].len() {
            shadowed(plane, c - x, r - y, alpha, a.at(c, r))
        } else {
            a.at(c, r)
        }
}

fn mask_row(shape: &Round, w: usize, y: usize) -> (row: Vec<u8>)
    requires
        -0x1_0000_0000 < shape.x0 <= shape.x1 < 0x8_0000_0000,
        -0x1_0000_0000 < shape.y0 <= shape.y1 < 0x8_0000_0000,
        w <= 0x8_0000_0000,
        y <= 0x8_0000_0000,
    ensures
        row@ == Seq::new(
            w as nat,
            |x: int|
                if shape.holds(x, y as int) {
                    255u8
                } else {
                    0u8
                },
        ),
{
    let ghost goal = Seq::new(
        w as nat,
        |x: int|
            if shape.holds(x, y as int) {
                255u8
            } else {
                0u8
            },
    );
    let mut row: Vec<u8> = Vec::new();
    let dy: i128 = beyond_of(y as i64, shape.y0, shape.y1, shape.radius);
    let q: i128 = shape.radius as i128;
    let mut x: usize = 0;
    while x < w
        invariant
            -0x1_0000_0000 < shape.x0 <= shape.x1 < 0x8_0000_0000,
            -0x1_0000_0000 < shape.y0 <= shape.y1 < 0x8_0000_0000,
            w <= 0x8_0000_0000,
            y <= 0x8_0000_0000,
            x <= w,
            q == shape.radius,
            dy == beyond(y as int, shape.y0 as int, shape.y1 as int, shape.radius as int),
            row@ =~= goal.take(x as int),
            goal == Seq::new(
                w as nat,
                |x: int|
                    if shape.holds(x, y as int) {
                        255u8
                    } else {
                        0u8
                    },
            ),
        decreases w - x,
    {
        let dx: i128 = beyond_of(x as i64, shape.x0, shape.x1, shape.radius);
        proof {
            assert(-0x10_0000_0000 < dx < 0x10_0000_0000);
            assert(-0x10_0000_0000 < dy < 0x10_0000_0000);
            assert(0 <= dx * dx < 0x10_0000_0000 * 0x10_0000_0000) by (nonlinear_arith)
                requires
                    -0x10_0000_0000 < dx < 0x10_0000_0000,
            ;
            assert(0 <= dy * dy < 0x10_0000_0000 * 0x10_0000_0000) by (nonlinear_arith)
                requires
                    -0x10_0000_0000 < dy < 0x10_0000_0000,
            ;
            assert(0 <= q * q < 0x10_0000_0000 * 0x10_0000_0000) by (nonlinear_arith)
                requires
                    0 <= q <= 0xffff_ffff,
            ;
        }
        let full = dx * dx + dy * dy <= q * q;
        assert(full == shape.holds(x as int, y as int));
        row.push(
            if full {
                255
            } else {
                0
            },
        );
        x += 1;
    }
    assert(row@ =~= goal);
    row
}

impl Canvas {
    /// Draws the soft shadow of a rounded rectangle, which spreads out on every
    /// side.
    pub fn soft_shadow(
        &mut self,
        x: i32,
        y: i32,
        w: u32,
        h: u32,
        radius: u32,
        dx: i32,
        dy: i32,
        blur: u32,
        alpha: u8,
    )
        requires
            old(self).valid(),
            shadow_fits(w, h, dx, dy, blur),
        ensures
            w == 0 || h == 0 || alpha == 0 ==> *final(self) == *old(self),
            w > 0 && h > 0 && alpha > 0 ==> shadow_drawn(
                *old(self),
                *final(self),
                x - shadow_pad(dx as int, dy as int, blur as int),
                y - shadow_pad(dx as int, dy as int, blur as int),
                shadow_plane(w, h, radius, dx, dy, blur),
                alpha,
            ),
    {
        if w == 0 || h == 0 || alpha == 0 {
            return;
        }
        let spread: i64 = if blur > 1 {
            blur as i64
        } else {
            1
        };
        let right: i64 = if dx > 0 {
            dx as i64
        } else {
            0
        };
        let down: i64 = if dy > 0 {
            dy as i64
        } else {
            0
        };
        let pad: i64 = spread + right + down;
        let bw: usize = (w as i64 + 2 * pad) as usize;
        let bh: usize = (h as i64 + 2 * pad) as usize;
        let shape = Round {
            x0: pad + dx as i64,
            y0: pad + dy as i64,
            x1: pad + dx as i64 + w as i64 - 1,
            y1: pad + dy as i64 + h as i64 - 1,
            radius,
        };
        let ghost goal = mask(shape, bw as nat, bh as nat);
        let mut rows: Vec<Vec<u8>> = Vec::new();
        let mut row: usize = 0;
        while row < bh
            invariant
                row <= bh <= 0x8_0000_0000,
                bw <= 0x8_0000_0000,
                -0x1_0000_0000 < shape.x0 <= shape.x1 < 0x8_0000_0000,
                -0x1_0000_0000 < shape.y0 <= shape.y1 < 0x8_0000_0000,
                goal == mask(shape, bw as nat, bh as nat),
                rows_of(rows@) =~= goal.take(row as int),
            decreases bh - row,
        {
            let line = mask_row(&shape, bw, row);
            let ghost before = rows@;
            rows.push(line);
            proof {
                assert(rows_of(rows@) =~= rows_of(before).push(line@));
            }
            row += 1;
        }
        assert(rows_of(rows@) =~= goal);
        let hard = Plane { rows };
        let reach: usize = if blur / 2 > 1 {
            (blur / 2) as usize
        } else {
            1
        };
        let plane = soften_plane(&hard, bw, reach);
        let brush = ShadowBrush { plane: &plane, x: x as i64 - pad, y: y as i64 - pad, alpha };
        let area = Area {
            x0: x as i64 - pad,
            y0: y as i64 - pad,
            x1: x as i64 - pad + bw as i64,
            y1: y as i64 - pad + bh as i64,
        };
        let ghost before = *self;
        self.paint(area, &brush);
        proof {
            assert forall|c: int, r: int| before.on(c, r) implies #[trigger] self.at(c, r) == if 0 <= r - brush.y
                < plane@.len() && 0 <= c - brush.x < plane@[r - brush.y].len() {
                shadowed(plane@, c - brush.x, r - brush.y, alpha, before.at(c, r))
            } else {
                before.at(c, r)
            } by {
                if 0 <= r - brush.y < plane@.len() {
                    assert(plane@[r - brush.y].len() == bw);
                }
            }
        }
    }
}

/// The mean of four values, rounded.
pub open spec fn mean4(a: u8, b: u8, c: u8, d: u8) -> u8 {
    ((a + b + c + d + 2) / 4) as u8
}

fn mean_of(a: u8, b: u8, c: u8, d: u8) -> (r: u8)
    ensures
        r == mean4(a, b, c, d),
{
    ((a as u32 + b as u32 + c as u32 + d as u32 + 2) / 4) as u8
}

/// Text drawn at twice its size, once in white for its coverage and once in its
/// color, both on black, made smaller: every pixel is the mean of four.
pub struct ShrinkBrush<'a> {
    pub cover: &'a Canvas,
    pub color: &'a Canvas,
}

impl<'a> Brush for ShrinkBrush<'a> {
    open spec fn ready(&self, x: int, y: int) -> bool {
        &&& self.cover.valid()
        &&& self.color.valid()
        &&& self.cover.w == self.color.w
        &&& self.cover.h == self.color.h
        &&& 0 <= x
        &&& 0 <= y
        &&& 2 * x + 1 < self.cover.w
        &&& 2 * y + 1 < self.cover.h
    }

    open spec fn shade(&self, x: int, y: int, d: Px) -> Px {
        let (p, q) = (2 * x, 2 * y);
        let c = self.color;
        Px {
            b: mean4(c.at(p, q).b, c.at(p + 1, q).b, c.at(p, q + 1).b, c.at(p + 1, q + 1).b),
            g: mean4(c.at(p, q).g, c.at(p + 1, q).g, c.at(p, q + 1).g, c.at(p + 1, q + 1).g),
            r: mean4(c.at(p, q).r, c.at(p + 1, q).r, c.at(p, q + 1).r, c.at(p + 1, q + 1).r),
            a: mean4(
                self.cover.at(p, q).b,
                self.cover.at(p + 1, q).b,
                self.cover.at(p, q + 1).b,
                self.cover.at(p + 1, q + 1).b,
            ),
        }
    }

    fn paint(&self, x: i64, y: i64, d: Px) -> (r: Px) {
        let p: u32 = (2 * x as i128) as u32;
        let q: u32 = (2 * y as i128) as u32;
        let c00 = self.color.get(p, q);
        let c01 = self.color.get(p + 1, q);
        let c10 = self.color.get(p, q + 1);
        let c11 = self.color.get(p + 1, q + 1);
        Px {
            b: mean_of(c00.b, c01.b, c10.b, c11.b),
            g: mean_of(c00.g, c01.g, c10.g, c11.g),
            r: mean_of(c00.r, c01.r, c10.r, c11.r),
            a: mean_of(
                self.cover.get(p, q).b,
                self.cover.get(p + 1, q).b,
                self.cover.get(p, q + 1).b,
                self.cover.get(p + 1, q + 1).b,
            ),
        }
    }
}

/// The block of text of `w` by `h` pixels: the two drawings, made smaller.
pub fn text_block(cover: &Canvas, color: &Canvas, w: u32, h: u32) -> (r: Canvas)
    requires
        cover.valid(),
        color.valid(),
        cover.w == color.w,
        cover.h == color.h,
        2 * w <= cover.w,
        2 * h <= cover.h,
    ensures
        r.valid(),
        r.w == w,
        r.h == h,
        forall|x: int, y: int|
            r.on(x, y) ==> #[trigger] r.at(x, y) == (ShrinkBrush { cover, color }).shade(
                x,
                y,
                Px { b: 0, g: 0, r: 0, a: 0 },
            ),
{
    proof {
        assert(cover.bits.len() == cover.bits@.len());
        assert(w as int * h as int <= cover.w as int * cover.h as int) by (nonlinear_arith)
            requires
                0 <= w <= cover.w,
                0 <= h <= cover.h,
        ;
    }
    let mut block = Canvas::new(w, h);
    let brush = ShrinkBrush { cover, color };
    block.paint(Area { x0: 0, y0: 0, x1: w as i64, y1: h as i64 }, &brush);
    block
}

/// A block of text with its corner at (`x`, `y`); `scale` of 255 parts of it
/// show.
pub struct BlockBrush<'a> {
    pub block: &'a Canvas,
    pub x: i32,
    pub y: i32,
    pub scale: u8,
}

/// A part of a value, rounded down.
pub open spec fn part(v: u8, scale: u8) -> u8 {
    (v * scale / 255) as u8
}

fn part_of(v: u8, scale: u8) -> (r: u8)
    ensures
        r == part(v, scale),
        r <= v,
{
    proof {
        lemma_scaled(v as int, scale as int);
        assert(v * scale / 255 <= v) by (nonlinear_arith)
            requires
                0 <= scale <= 255,
                0 <= v,
        ;
    }
    (v as u32 * scale as u32 / 255) as u8
}

impl<'a> Brush for BlockBrush<'a> {
    open spec fn ready(&self, x: int, y: int) -> bool {
        self.block.valid() && self.block.on(x - self.x, y - self.y)
    }

    open spec fn shade(&self, x: int, y: int, d: Px) -> Px {
        let s = self.block.at(x - self.x, y - self.y);
        let a = part(s.a, self.scale);
        if a == 0 {
            d
        } else {
            over(Px { b: part(s.b, self.scale), g: part(s.g, self.scale), r: part(s.r, self.scale), a }, d)
        }
    }

    fn paint(&self, x: i64, y: i64, d: Px) -> (r: Px) {
        let s = self.block.get((x as i128 - self.x as i128) as u32, (y as i128 - self.y as i128) as u32);
        let a: u8 = part_of(s.a, self.scale);
        if a == 0 {
            return d;
        }
        lay_over(Px { b: part_of(s.b, self.scale), g: part_of(s.g, self.scale), r: part_of(s.r, self.scale), a }, d)
    }
}

impl Canvas {
    /// Lays a block of text over the canvas.
    pub fn composite_block(&mut self, x: i32, y: i32, block: &Canvas, scale: u8)
        requires
            old(self).valid(),
            block.valid(),
        ensures
            painted(*old(self), *final(self), area_of(x, y, block.w, block.h), BlockBrush { block, x, y, scale }),
    {
        let area = Area { x0: x as i64, y0: y as i64, x1: x as i64 + block.w as i64, y1: y as i64 + block.h as i64 };
        let brush = BlockBrush { block, x, y, scale };
        self.paint(area, &brush);
    }
}

/// Text that does not show leaves the canvas as it is.
pub proof fn law_faded_text_is_gone(block: Canvas, x: i32, y: i32, px: int, py: int, d: Px)
    ensures
        (BlockBrush { block: &block, x, y, scale: 0 }).shade(px, py, d) == d,
{
    let s = block.at(px - x, py - y);
    assert(s.a * 0u8 == 0);
}

/// A picture of the screen lasts this long before it is taken again.
pub const CAPTURE_MS: u64 = 150;

/// The screen is to be captured again.
pub open spec fn stale(last: Option<u64>, now: u64) -> bool {
    last is None || now - last->0 >= CAPTURE_MS
}

/// Tells whether the screen is to be captured again.
pub fn capture_due(last: Option<u64>, now: u64) -> (r: bool)
    ensures
        r == stale(last, now),
{
    match last {
        None => true,
        Some(t) => now >= t && now - t >= CAPTURE_MS,
    }
}

/// What was behind a value `s` on the screen, if a value `p` with alpha `a` was
/// laid over it.
pub open spec fn behind(s: u8, p: u8, a: u8) -> u8 {
    if s < p {
        0
    } else {
        let v = (s - p) * 255 / (255 - a);
        if v > 255 {
            255
        } else {
            v as u8
        }
    }
}

fn behind_of(s: u8, p: u8, a: u8) -> (r: u8)
    requires
        a < 255,
    ensures
        r == behind(s, p, a),
{
    if s < p {
        return 0;
    }
    let v: u32 = (s as u32 - p as u32) * 255 / (255 - a as u32);
    if v > 255 {
        255
    } else {
        v as u8
    }
}

/// Takes the window's own last picture out of a picture of the screen, so that
/// the window does not see itself. (`dx`, `dy`) is added to a place on the
/// screen's picture for the place on the window's.
pub struct UncoverBrush<'a> {
    pub last: &'a Canvas,
    pub dx: i64,
    pub dy: i64,
}

impl<'a> Brush for UncoverBrush<'a> {
    open spec fn ready(&self, x: int, y: int) -> bool {
        self.last.valid()
    }

    open spec fn shade(&self, x: int, y: int, d: Px) -> Px {
        let p = self.last.at(x + self.dx, y + self.dy);
        if self.last.on(x + self.dx, y + self.dy) && 0 < p.a < 254 {
            Px { b: behind(d.b, p.b, p.a), g: behind(d.g, p.g, p.a), r: behind(d.r, p.r, p.a), a: d.a }
        } else {
            d
        }
    }

    fn paint(&self, x: i64, y: i64, d: Px) -> (r: Px) {
        let px: i128 = x as i128 + self.dx as i128;
        let py: i128 = y as i128 + self.dy as i128;
        if px >= 0 && py >= 0 && px < self.last.w as i128 && py < self.last.h as i128 {
            let p = self.last.get(px as u32, py as u32);
            if p.a > 0 && p.a < 254 {
                return Px {
                    b: behind_of(d.b, p.b, p.a),
                    g: behind_of(d.g, p.g, p.a),
                    r: behind_of(d.r, p.r, p.a),
                    a: d.a,
                };
            }
        }
        d
    }
}

/// A place of the screen that the window covered with black of alpha `a` comes
/// back as bright as it was, but for the rounding.
pub proof fn law_uncovers_shade(v: u8, a: u8)
    requires
        0 < a < 254,
    ensures
        ({
            let seen = under(v as int, a as int) as u8;
            let back = behind(seen, 0, a);
            (back - v) * (255 - a) <= 127 && (v - back) * (255 - a) <= 127 + (255 - a)
        }),
{
    lemma_scaled(v as int, a as int);
    let k = 255 - a;
    let seen = under(v as int, a as int);
    let n = v as int * k + 127;
    assert(v as int * (255 - a) == v as int * k);
    let q = seen * 255 / k;
    assert(n - 254 <= seen * 255 <= n);
    assert(k * q <= seen * 255 < k * q + k) by (nonlinear_arith)
        requires
            k > 0,
            q == seen * 255 / k,
    ;
    assert((q - v as int) * k == k * q - v as int * k) by (nonlinear_arith);
    assert((v as int - q) * k == v as int * k - k * q) by (nonlinear_arith);
    if q > 255 {
        assert((255 - v as int) * k <= (q - v as int) * k) by (nonlinear_arith)
            requires
                q > 255,
                k > 0,
        ;
        assert((v as int - 255) * k <= 0) by (nonlinear_arith)
            requires
                v as int <= 255,
                k > 0,
        ;
    }
}

/// One color of a picture as a plane.
pub open spec fn channel(c: Canvas, i: int) -> Seq<Seq<u8>> {
    Seq::new(
        c.h as nat,
        |y: int|
            Seq::new(
                c.w as nat,
                |x: int|
                    if i == 0 {
                        c.at(x, y).b
                    } else if i == 1 {
                        c.at(x, y).g
                    } else {
                        c.at(x, y).r
                    },
            ),
    )
}

fn channel_of(c: &Canvas, i: u8) -> (p: Plane)
    requires
        c.valid(),
    ensures
        p@ == channel(*c, i as int),
{
    let ghost goal = channel(*c, i as int);
    let mut rows: Vec<Vec<u8>> = Vec::new();
    let mut y: u32 = 0;
    while y < c.h
        invariant
            c.valid(),
            y <= c.h,
            goal == channel(*c, i as int),
            rows_of(rows@) =~= goal.take(y as int),
        decreases c.h - y,
    {
        let mut row: Vec<u8> = Vec::new();
        let mut x: u32 = 0;
        while x < c.w
            invariant
                c.valid(),
                y < c.h,
                x <= c.w,
                goal == channel(*c, i as int),
                row@ =~= goal[y as int].take(x as int),
            decreases c.w - x,
        {
            let p = c.get(x, y);
            row.push(
                if i == 0 {
                    p.b
                } else if i == 1 {
                    p.g
                } else {
                    p.r
                },
            );
            x += 1;
        }
        assert(row@ =~= goal[y as int]);
        let ghost before = rows@;
        rows.push(row);
        proof {
            assert(rows_of(rows@) =~= rows_of(before).push(row@));
        }
        y += 1;
    }
    assert(rows_of(rows@) =~= goal);
    Plane { rows }
}

/// How a tint changes blue, green and red: what each value comes to.
pub struct Tint {
    pub b: Vec<u8>,
    pub g: Vec<u8>,
    pub r: Vec<u8>,
}

impl Tint {
    /// There is a value for every value.
    pub open spec fn full(self) -> bool {
        self.b@.len() == 256 && self.g@.len() == 256 && self.r@.len() == 256
    }
}

/// A pixel of glass: soft, tinted and opaque.
pub open spec fn glass_at(c: Canvas, reach: int, tint: Tint, x: int, y: int) -> Px {
    let w = c.w as nat;
    Px {
        b: tint.b@[blurred(channel(c, 0), w, reach)[y][x] as int],
        g: tint.g@[blurred(channel(c, 1), w, reach)[y][x] as int],
        r: tint.r@[blurred(channel(c, 2), w, reach)[y][x] as int],
        a: 255,
    }
}

struct GlassBrush<'a> {
    b: &'a Plane,
    g: &'a Plane,
    r: &'a Plane,
    tint: &'a Tint,
}

impl<'a> Brush for GlassBrush<'a> {
    closed spec fn ready(&self, x: int, y: int) -> bool {
        &&& self.tint.full()
        &&& 0 <= y < self.b@.len() && 0 <= x < self.b@[y].len()
        &&& 0 <= y < self.g@.len() && 0 <= x < self.g@[y].len()
        &&& 0 <= y < self.r@.len() && 0 <= x < self.r@[y].len()
    }

    closed spec fn shade(&self, x: int, y: int, d: Px) -> Px {
        Px {
            b: self.tint.b@[self.b@[y][x] as int],
            g: self.tint.g@[self.g@[y][x] as int],
            r: self.tint.r@[self.r@[y][x] as int],
            a: 255,
        }
    }

    fn paint(&self, x: i64, y: i64, d: Px) -> (r: Px) {
        proof {
            assert(self.b.rows.len() == self.b.rows@.len());
            assert(self.b@[y as int] == self.b.rows@[y as int]@);
            assert(self.g@[y as int] == self.g.rows@[y as int]@);
            assert(self.r@[y as int] == self.r.rows@[y as int]@);
            assert(self.b.rows@[y as int].len() == self.b.rows@[y as int]@.len());
        }
        let px: usize = x as usize;
        let py: usize = y as usize;
        Px {
            b: self.tint.b[self.b.rows[py][px] as usize],
            g: self.tint.g[self.g.rows[py][px] as usize],
            r: self.tint.r[self.r.rows[py][px] as usize],
            a: 255,
        }
    }
}

/// Makes glass of a picture of the screen: takes the window's own last picture
/// out of it, softens each color, and tints it.
pub fn frost(screen: &mut Canvas, last: Option<(&Canvas, i64, i64)>, blur: u32, tint: &Tint)
    requires
        old(screen).valid(),
        tint.full(),
        last is Some ==> (last->0).0.valid(),
    ensures
        final(screen).valid(),
        final(screen).w == old(screen).w,
        final(screen).h == old(screen).h,
        exists|seen: Canvas| #[trigger]
            uncovered(*old(screen), seen, last) && forall|x: int, y: int|
                seen.on(x, y) ==> #[trigger] final(screen).at(x, y) == glass_at(
                    seen,
                    (if blur > 1 { blur as int } else { 1 }) / 2,
                    *tint,
                    x,
                    y,
                ),
{
    let area = Area { x0: 0, y0: 0, x1: screen.w as i64, y1: screen.h as i64 };
    match last {
        Some((c, dx, dy)) => {
            let brush = UncoverBrush { last: c, dx, dy };
            screen.paint(area, &brush);
        },
        None => {},
    }
    let ghost seen = *screen;
    assert(uncovered(*old(screen), seen, last));
    let reach: usize = (if blur > 1 {
        blur
    } else {
        1
    } / 2) as usize;
    let w: usize = screen.w as usize;
    let b = soften_plane(&channel_of(screen, 0), w, reach);
    let g = soften_plane(&channel_of(screen, 1), w, reach);
    let r = soften_plane(&channel_of(screen, 2), w, reach);
    let brush = GlassBrush { b: &b, g: &g, r: &r, tint };
    proof {
        assert forall|x: int, y: int|
            #![trigger brush.ready(x, y)]
            screen.on(x, y) && area.has(x, y) implies brush.ready(x, y) by {
            assert(b@[y].len() == w && g@[y].len() == w && r@[y].len() == w);
        }
    }
    screen.paint(area, &brush);
}

/// `seen` is the picture `screen` without the window's own last picture.
pub open spec fn uncovered(screen: Canvas, seen: Canvas, last: Option<(&Canvas, i64, i64)>) -> bool {
    match last {
        Some((c, dx, dy)) => painted(
            screen,
            seen,
            Area { x0: 0, y0: 0, x1: screen.w as i64, y1: screen.h as i64 },
            UncoverBrush { last: c, dx, dy },
        ),
        None => seen == screen,
    }
}

/// A pane of glass with its corner at (`x`, `y`), within a rounded shape;
/// `alpha` of 255 parts of it show.
pub struct PaneBrush<'a> {
    pub glass: &'a Canvas,
    pub x: i32,
    pub y: i32,
    pub shape: Round,
    pub alpha: u8,
}

impl<'a> Brush for PaneBrush<'a> {
    open spec fn ready(&self, x: int, y: int) -> bool {
        &&& self.glass.valid()
        &&& self.glass.on(x - self.x, y - self.y)
        &&& -0x1_0000_0000_0000 < self.shape.x0 <= x <= self.shape.x1 < 0x1_0000_0000_0000
        &&& -0x1_0000_0000_0000 < self.shape.y0 <= y <= self.shape.y1 < 0x1_0000_0000_0000
    }

    open spec fn shade(&self, x: int, y: int, d: Px) -> Px {
        let s = self.glass.at(x - self.x, y - self.y);
        if self.shape.holds(x, y) {
            over(
                Px {
                    b: premultiplied(s.b as int, self.alpha as int) as u8,
                    g: premultiplied(s.g as int, self.alpha as int) as u8,
                    r: premultiplied(s.r as int, self.alpha as int) as u8,
                    a: self.alpha,
                },
                d,
            )
        } else {
            d
        }
    }

    fn paint(&self, x: i64, y: i64, d: Px) -> (r: Px) {
        if self.shape.inside(x, y) {
            let s = self.glass.get((x as i128 - self.x as i128) as u32, (y as i128 - self.y as i128) as u32);
            let a: u8 = self.alpha;
            lay_over(Px { b: premul(s.b, a), g: premul(s.g, a), r: premul(s.r, a), a }, d)
        } else {
            d
        }
    }
}

/// The part of a rectangle that is on a canvas.
pub open spec fn visible_part(c: Canvas, x: i32, y: i32, w: u32, h: u32) -> (int, int, int, int) {
    (
        if x > 0 { x as int } else { 0 },
        if y > 0 { y as int } else { 0 },
        if x + w < c.w { x + w } else { c.w as int },
        if y + h < c.h { y + h } else { c.h as int },
    )
}

impl Canvas {
    /// Lays a pane of glass over the canvas, with the corners of what can be
    /// seen of it rounded. Tells whether any of it is on the canvas.
    pub fn draw_acrylic_fill(&mut self, x: i32, y: i32, glass: &Canvas, radius: u32, alpha: u8) -> (r: bool)
        requires
            old(self).valid(),
            glass.valid(),
        ensures
            ({
                let (x0, y0, x1, y1) = visible_part(*old(self), x, y, glass.w, glass.h);
                let radius = if radius > 1 { radius } else { 1 };
                &&& r == (x0 < x1 && y0 < y1)
                &&& !r ==> *final(self) == *old(self)
                &&& r ==> painted(
                    *old(self),
                    *final(self),
                    Area { x0: x0 as i64, y0: y0 as i64, x1: x1 as i64, y1: y1 as i64 },
                    PaneBrush {
                        glass,
                        x,
                        y,
                        shape: Round {
                            x0: x0 as i64,
                            y0: y0 as i64,
                            x1: (x1 - 1) as i64,
                            y1: (y1 - 1) as i64,
                            radius,
                        },
                        alpha,
                    },
                )
            }),
    {
        let x0: i64 = if x > 0 {
            x as i64
        } else {
            0
        };
        let y0: i64 = if y > 0 {
            y as i64
        } else {
            0
        };
        let right: i64 = x as i64 + glass.w as i64;
        let low: i64 = y as i64 + glass.h as i64;
        let x1: i64 = if right < self.w as i64 {
            right
        } else {
            self.w as i64
        };
        let y1: i64 = if low < self.h as i64 {
            low
        } else {
            self.h as i64
        };
        if x1 <= x0 || y1 <= y0 {
            return false;
        }
        let radius: u32 = if radius > 1 {
            radius
        } else {
            1
        };
        let shape = Round { x0, y0, x1: x1 - 1, y1: y1 - 1, radius };
        let brush = PaneBrush { glass, x, y, shape, alpha };
        self.paint(Area { x0, y0, x1, y1 }, &brush);
        true
    }
}

} // verus!
