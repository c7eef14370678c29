//! What the pixels become.

use vstd::prelude::*;

use crate::anim::{Frame, FrameModel};
use crate::gui::blur::{blurred, column, mean_near, total};
use crate::gui::canvas::{
    brightness, frame_area, lemma_scaled, over, painted, premultiplied, source_pixel, under, Area, Brush, Canvas,
    FrameBrush, Px,
};
use crate::gui::icon::{fallback_at, swapped};
use crate::gui::shapes::{
    behind, channel, glass_at, mask, part, shadow_drawn, shadow_pad, shadow_plane, shadow_reach, shadow_shape, shadowed, stale,
    visible_part, BlockBrush, PaneBrush, PanelBrush, Round, ShrinkBrush, Tint, UncoverBrush,
};

verus! {

/// `p` is the whole number nearest to `n` parts of 255.
pub open spec fn nearest(p: int, n: int) -> bool {
    -127 <= 255 * p - n <= 127
}

/// A color times an alpha comes to the nearest whole number.
pub proof fn law_scaled_color(v: u8, a: u8)
    ensures
        nearest(premultiplied(v as int, a as int), v * a),
        nearest(under(v as int, a as int), v * (255 - a)),
{
}

/// A pixel laid over another: to each of its values comes what its alpha leaves
/// of the other's, up to the most that a byte holds.
pub proof fn law_laid_over(s: Px, d: Px, k: Px)
    requires
        nearest(k.b as int, d.b * (255 - s.a)),
        nearest(k.g as int, d.g * (255 - s.a)),
        nearest(k.r as int, d.r * (255 - s.a)),
        nearest(k.a as int, d.a * (255 - s.a)),
    ensures
        over(s, d).b == (if s.b + k.b > 255 { 255int } else { s.b + k.b }),
        over(s, d).g == (if s.g + k.g > 255 { 255int } else { s.g + k.g }),
        over(s, d).r == (if s.r + k.r > 255 { 255int } else { s.r + k.r }),
        over(s, d).a == s.a + k.a,
{
    lemma_scaled(d.a as int, s.a as int);
}

/// The pixel of a frame in full color is taken with its own red, green and blue,
/// each times what its own alpha fades to.
pub proof fn law_plain_pixel(f: FrameModel, off: int, fade: Seq<u8>)
    requires
        0 <= off,
        4 * off + 3 < f.rgba.len(),
    ensures
        ({
            let p = source_pixel(f, off, fade, false);
            let a = fade[f.rgba[4 * off + 3] as int];
            &&& p.a == a
            &&& nearest(p.r as int, f.rgba[4 * off] * a)
            &&& nearest(p.g as int, f.rgba[4 * off + 1] * a)
            &&& nearest(p.b as int, f.rgba[4 * off + 2] * a)
        }),
{
    let a = fade[f.rgba[4 * off + 3] as int] as int;
    assert(off * 4 == 4 * off);
    lemma_scaled(f.rgba[4 * off] as int, a);
    lemma_scaled(f.rgba[4 * off + 1] as int, a);
    lemma_scaled(f.rgba[4 * off + 2] as int, a);
}

/// The pixel of a frame with a palette is taken with the color that its number
/// stands for, and with the alpha of its own or else that of its color.
pub proof fn law_indexed_pixel(f: FrameModel, off: int, fade: Seq<u8>)
    requires
        f.rgba.len() == 0,
        0 <= off < f.idx.len(),
        3 * f.idx[off] + 2 < f.palette.len(),
    ensures
        ({
            let p = source_pixel(f, off, fade, false);
            let i = f.idx[off] as int;
            let a = fade[(if f.alpha.len() > 0 { f.alpha[off] } else { f.pal_alpha[i] }) as int];
            &&& p.a == a
            &&& nearest(p.r as int, f.palette[3 * i] * a)
            &&& nearest(p.g as int, f.palette[3 * i + 1] * a)
            &&& nearest(p.b as int, f.palette[3 * i + 2] * a)
        }),
{
    let i = f.idx[off] as int;
    let a = fade[(if f.alpha.len() > 0 { f.alpha[off] } else { f.pal_alpha[i] }) as int] as int;
    lemma_scaled(f.palette[3 * i] as int, a);
    lemma_scaled(f.palette[3 * i + 1] as int, a);
    lemma_scaled(f.palette[3 * i + 2] as int, a);
}

/// Without color, the three values of a pixel are one: its red, green and blue
/// in parts of 2126, 7152 and 722 of ten thousand, rounded, times the alpha.
pub proof fn law_gray_pixel(f: FrameModel, off: int, fade: Seq<u8>, l: int)
    requires
        0 <= off,
        4 * off + 3 < f.rgba.len(),
        -5000 <= 2126 * f.rgba[4 * off] + 7152 * f.rgba[4 * off + 1] + 722 * f.rgba[4 * off + 2] - 10000 * l < 5000,
    ensures
        ({
            let p = source_pixel(f, off, fade, true);
            let a = fade[f.rgba[4 * off + 3] as int];
            &&& p.a == a
            &&& p.r == p.g
            &&& p.g == p.b
            &&& nearest(p.b as int, l * a)
        }),
{
    let a = fade[f.rgba[4 * off + 3] as int] as int;
    assert(off * 4 == 4 * off);
    assert(l == brightness(f.rgba[4 * off] as int, f.rgba[4 * off + 1] as int, f.rgba[4 * off + 2] as int));
    lemma_scaled(l, a);
}

/// Each pixel of a frame that is drawn at (`x`, `y`) comes to lie as far from
/// there as it is from the frame's corner; a place outside of the frame's box,
/// or in the rows that are cut off at the bottom, stays as it was.
pub proof fn law_frame_lands(a: Canvas, b: Canvas, f: &Frame, x: i32, y: i32, fade: &Vec<u8>, gray: bool, clip: i32, at: (
    int,
    int,
))
    requires
        f@.bbox is Some,
        clip >= 0,
        ({
            let (x0, y0, x1, y1) = frame_area(f@.bbox->0, x, y, a.h, clip);
            painted(
                a,
                b,
                Area { x0: x0 as i64, y0: y0 as i64, x1: x1 as i64, y1: y1 as i64 },
                FrameBrush { frame: f, x, y, fade, gray },
            )
        }),
        0 <= at.0 < a.w,
        0 <= at.1 < a.h,
    ensures
        ({
            let (bx, by, bw, bh) = f@.bbox->0;
            let (fx, fy) = (at.0 - x, at.1 - y);
            let inside = bx <= fx < bx + bw && by <= fy < by + bh;
            &&& inside && at.1 < a.h - clip ==> b.at(at.0, at.1) == over(
                source_pixel(f@, fy * f.w + fx, fade@, gray),
                a.at(at.0, at.1),
            )
            &&& !inside || at.1 >= a.h - clip ==> b.at(at.0, at.1) == a.at(at.0, at.1)
        }),
{
    assert(a.on(at.0, at.1));
}

/// Within its edges, only the corners of a rounded rectangle are cut off: a place
/// beyond a corner's middle both ways belongs to the rectangle where it is no
/// farther from that middle than the radius.
pub proof fn law_round_corner(p: Round, x: int, y: int)
    requires
        p.x0 <= x <= p.x1,
        p.y0 <= y <= p.y1,
        2 * p.radius <= p.x1 - p.x0,
        2 * p.radius <= p.y1 - p.y0,
    ensures
        ({
            let r = p.radius as int;
            let near = |cx: int, cy: int| (x - cx) * (x - cx) + (y - cy) * (y - cy) <= r * r;
            &&& x < p.x0 + r && y < p.y0 + r ==> p.holds(x, y) == near(p.x0 + r, p.y0 + r)
            &&& x > p.x1 - r && y < p.y0 + r ==> p.holds(x, y) == near(p.x1 - r, p.y0 + r)
            &&& x < p.x0 + r && y > p.y1 - r ==> p.holds(x, y) == near(p.x0 + r, p.y1 - r)
            &&& x > p.x1 - r && y > p.y1 - r ==> p.holds(x, y) == near(p.x1 - r, p.y1 - r)
        }),
{
}

/// Under a panel the alpha of a pixel grows by the part of the panel's that it
/// leaves, and its color becomes the panel's; a place outside of the shape stays.
pub proof fn law_panel_pixel(p: PanelBrush, x: int, y: int, d: Px, k: int)
    requires
        nearest(k, p.alpha * (255 - d.a)),
    ensures
        ({
            let s = p.shade(x, y, d);
            let (r, g, b) = p.color;
            &&& !p.shape.holds(x, y) ==> s == d
            &&& p.shape.holds(x, y) && d.a + k == 0 ==> s == d
            &&& p.shape.holds(x, y) && d.a + k > 0 ==> {
                &&& s.a == d.a + k
                &&& nearest(s.r as int, r * (d.a + k))
                &&& nearest(s.g as int, g * (d.a + k))
                &&& nearest(s.b as int, b * (d.a + k))
            }
        }),
{
    lemma_scaled(p.alpha as int, d.a as int);
    let (r, g, b) = p.color;
    lemma_scaled(r as int, d.a + k);
    lemma_scaled(g as int, d.a + k);
    lemma_scaled(b as int, d.a + k);
}

/// The plane of a shadow holds the shape that throws it, moved by its offset,
/// with room on every side; the shape is as large as what throws it.
pub proof fn law_shadow_shape(w: u32, h: u32, radius: u32, dx: i32, dy: i32, blur: u32)
    requires
        w > 0,
        h > 0,
        dx >= 0,
        dy >= 0,
    ensures
        ({
            let pad = shadow_pad(dx as int, dy as int, blur as int);
            let s = shadow_shape(w, h, radius, dx, dy, blur);
            &&& pad == dx + dy + (if blur == 0 { 1int } else { blur as int })
            &&& s.radius == radius
            &&& s.x0 == pad + dx
            &&& s.y0 == pad + dy
            &&& s.x1 - s.x0 == w - 1
            &&& s.y1 - s.y0 == h - 1
            &&& shadow_reach(blur as int) == (if blur < 4 { 1 } else { blur as int / 2 })
        }),
{
}

/// The plane that a shadow is made from is full where the shape is, and empty
/// elsewhere.
pub proof fn law_shadow_plane(shape: Round, w: nat, h: nat, x: int, y: int)
    requires
        0 <= x < w,
        0 <= y < h,
    ensures
        mask(shape, w, h).len() == h,
        mask(shape, w, h)[y].len() == w,
        shape.holds(x, y) ==> mask(shape, w, h)[y][x] == 255,
        !shape.holds(x, y) ==> mask(shape, w, h)[y][x] == 0,
{
}

/// A shadow is the softened plane of its shape.
pub proof fn law_shadow_is_soft(w: u32, h: u32, radius: u32, dx: i32, dy: i32, blur: u32, hard: Seq<Seq<u8>>)
    requires
        dx >= 0,
        dy >= 0,
        blur > 0,
        hard.len() == h + 2 * (dx + dy + blur),
        forall|y: int, x: int|
            0 <= y < hard.len() && 0 <= x < w + 2 * (dx + dy + blur) ==> #[trigger] hard[y][x] == (if shadow_shape(
                w,
                h,
                radius,
                dx,
                dy,
                blur,
            ).holds(x, y) {
                255u8
            } else {
                0u8
            }),
        forall|y: int| 0 <= y < hard.len() ==> #[trigger] hard[y].len() == w + 2 * (dx + dy + blur),
    ensures
        shadow_plane(w, h, radius, dx, dy, blur) == blurred(
            hard,
            (w + 2 * (dx + dy + blur)) as nat,
            if blur < 4 { 1 } else { blur as int / 2 },
        ),
{
    let pad = dx + dy + blur;
    let m = mask(shadow_shape(w, h, radius, dx, dy, blur), (w + 2 * pad) as nat, (h + 2 * pad) as nat);
    assert forall|y: int| 0 <= y < hard.len() implies #[trigger] m[y] == hard[y] by {
        assert(m[y] =~= hard[y]);
    }
    assert(m =~= hard);
}

/// A shadow is drawn where its plane lies, and nowhere else.
pub proof fn law_shadow_lands(a: Canvas, b: Canvas, x: int, y: int, plane: Seq<Seq<u8>>, alpha: u8, at: (int, int))
    requires
        shadow_drawn(a, b, x, y, plane, alpha),
        0 <= at.0 < a.w,
        0 <= at.1 < a.h,
    ensures
        ({
            let (c, r) = (at.0 - x, at.1 - y);
            &&& 0 <= r < plane.len() && 0 <= c < plane[r].len() ==> b.at(at.0, at.1) == shadowed(
                plane,
                c,
                r,
                alpha,
                a.at(at.0, at.1),
            )
            &&& r < 0 || r >= plane.len() || c < 0 || c >= plane[r].len() ==> b.at(at.0, at.1) == a.at(at.0, at.1)
        }),
{
    assert(a.on(at.0, at.1));
}

/// A shadow is black: it only takes from what is under it.
pub proof fn law_shadow_darkens(plane: Seq<Seq<u8>>, x: int, y: int, alpha: u8, d: Px, k: u8)
    requires
        nearest(k as int, plane[y][x] * alpha),
    ensures
        ({
            let s = shadowed(plane, x, y, alpha, d);
            &&& nearest(s.b as int, d.b * (255 - k))
            &&& nearest(s.g as int, d.g * (255 - k))
            &&& nearest(s.r as int, d.r * (255 - k))
            &&& nearest(s.a - k, d.a * (255 - k))
        }),
{
    lemma_scaled(plane[y][x] as int, alpha as int);
    lemma_scaled(d.b as int, k as int);
    lemma_scaled(d.g as int, k as int);
    lemma_scaled(d.r as int, k as int);
    lemma_scaled(d.a as int, k as int);
}

/// `m` is the mean of four values, rounded, half upward.
pub open spec fn mean_is(m: u8, a: u8, b: u8, c: u8, d: u8) -> bool {
    4 * m - 2 <= a + b + c + d < 4 * m + 2
}

/// Text made smaller: each pixel is the mean of the four that it stands for; its
/// alpha is that of the coverage.
pub proof fn law_text_is_shrunk(s: ShrinkBrush, x: int, y: int, d: Px)
    ensures
        ({
            let p = s.shade(x, y, d);
            let at = |i: int, j: int| s.color.at(2 * x + i, 2 * y + j);
            let on = |i: int, j: int| s.cover.at(2 * x + i, 2 * y + j).b;
            &&& mean_is(p.b, at(0, 0).b, at(1, 0).b, at(0, 1).b, at(1, 1).b)
            &&& mean_is(p.g, at(0, 0).g, at(1, 0).g, at(0, 1).g, at(1, 1).g)
            &&& mean_is(p.r, at(0, 0).r, at(1, 0).r, at(0, 1).r, at(1, 1).r)
            &&& mean_is(p.a, on(0, 0), on(1, 0), on(0, 1), on(1, 1))
        }),
{
}

/// `p` of `v` is the part that `scale` is of 255, rounded down.
pub open spec fn part_is(p: u8, v: u8, scale: u8) -> bool {
    255 * p <= v * scale < 255 * p + 255
}

/// A block of text is laid over the canvas, each of its values scaled; a place
/// where nothing of it shows stays.
pub proof fn law_text_is_laid(s: BlockBrush, x: int, y: int, d: Px, t: Px)
    requires
        ({
            let p = s.block.at(x - s.x, y - s.y);
            &&& part_is(t.b, p.b, s.scale)
            &&& part_is(t.g, p.g, s.scale)
            &&& part_is(t.r, p.r, s.scale)
            &&& part_is(t.a, p.a, s.scale)
        }),
    ensures
        t.a == 0 ==> s.shade(x, y, d) == d,
        t.a > 0 ==> s.shade(x, y, d) == over(t, d),
{
    let p = s.block.at(x - s.x, y - s.y);
    assert(part(p.b, s.scale) == t.b);
    assert(part(p.g, s.scale) == t.g);
    assert(part(p.r, s.scale) == t.r);
    assert(part(p.a, s.scale) == t.a);
}

/// The screen is captured again after a hundred and fifty milliseconds.
pub proof fn law_capture_is_due(last: u64, now: u64)
    ensures
        stale(None, now),
        stale(Some(last), now) <==> now >= last + 150,
{
}

/// What was behind a value is found so that the alpha in front of it leaves the
/// rest of what is seen: nothing where less is seen than what was in front.
pub proof fn law_behind(s: u8, p: u8, a: u8)
    requires
        a < 255,
    ensures
        ({
            let v = behind(s, p, a) as int;
            let k = 255 - a;
            &&& s < p ==> v == 0
            &&& s >= p ==> v * k <= 255 * (s - p)
            &&& s >= p && v < 255 ==> 255 * (s - p) < (v + 1) * k
        }),
{
    let k = 255 - a;
    if s >= p {
        let n = 255 * (s - p);
        let q = n / k;
        assert((s - p) * 255 == n);
        assert(q * k <= n < (q + 1) * k) by (nonlinear_arith)
            requires
                k > 0,
                q == n / k,
        ;
        if q > 255 {
            assert(255 * k <= q * k) by (nonlinear_arith)
                requires
                    k > 0,
                    q > 255,
            ;
        } else {
            assert(0 <= q) by (nonlinear_arith)
                requires
                    k > 0,
                    n >= 0,
                    q == n / k,
            ;
        }
    }
}

/// The window's own last picture is taken out of the screen's only where it was
/// drawn and could be seen through.
pub proof fn law_own_picture_is_taken_out(u: UncoverBrush, x: int, y: int, d: Px)
    ensures
        ({
            let (px, py) = (x + u.dx, y + u.dy);
            let p = u.last.at(px, py);
            let s = u.shade(x, y, d);
            let drawn = 0 <= px < u.last.w && 0 <= py < u.last.h;
            &&& !drawn || p.a == 0 || p.a >= 254 ==> s == d
            &&& s.a == d.a
            &&& drawn && 0 < p.a < 254 ==> s.b == behind(d.b, p.b, p.a) && s.g == behind(d.g, p.g, p.a) && s.r == behind(
                d.r,
                p.r,
                p.a,
            )
        }),
{
}

/// Sums are taken of every value.
pub proof fn law_total(s: Seq<u8>, v: u8)
    ensures
        total(Seq::<u8>::empty()) == 0,
        total(s.push(v)) == total(s) + v,
{
    assert(s.push(v).drop_last() =~= s);
}

/// Each value becomes the mean, rounded down, of those at most `r` places from
/// it, as far as there are any.
pub proof fn law_mean(line: Seq<u8>, r: int, i: int, from: int, to: int)
    requires
        0 <= r,
        0 <= i < line.len(),
        from == (if i >= r { i - r } else { 0 }),
        to == (if i + r <= line.len() - 1 { i + r + 1 } else { line.len() as int }),
    ensures
        ({
            let m = mean_near(line, r, i);
            (to - from) * m <= total(line.subrange(from, to)) < (to - from) * (m + 1)
        }),
{
    let n = to - from;
    let t = total(line.subrange(from, to));
    assert(n * (t / n) <= t < n * (t / n + 1)) by (nonlinear_arith)
        requires
            n > 0,
    ;
}

/// Every place of `q` is the mean of those near it in its row of `p`.
pub open spec fn rows_mixed(p: Seq<Seq<u8>>, q: Seq<Seq<u8>>, w: nat, r: int) -> bool {
    &&& q.len() == p.len()
    &&& forall|y: int| 0 <= y < q.len() ==> #[trigger] q[y].len() == w
    &&& forall|y: int, x: int| 0 <= y < q.len() && 0 <= x < w ==> #[trigger] q[y][x] == mean_near(p[y], r, x) as u8
}

/// Every place of `q` is the mean of those near it in its column of `p`.
pub open spec fn columns_mixed(p: Seq<Seq<u8>>, q: Seq<Seq<u8>>, w: nat, r: int) -> bool {
    &&& q.len() == p.len()
    &&& forall|y: int| 0 <= y < q.len() ==> #[trigger] q[y].len() == w
    &&& forall|y: int, x: int|
        0 <= y < q.len() && 0 <= x < w ==> #[trigger] q[y][x] == mean_near(Seq::new(p.len(), |k: int| p[k][x]), r, y) as u8
}

/// Softening a plane mixes its rows, then its columns, then its rows and its
/// columns again.
pub proof fn law_softened_twice(
    p: Seq<Seq<u8>>,
    q1: Seq<Seq<u8>>,
    q2: Seq<Seq<u8>>,
    q3: Seq<Seq<u8>>,
    q4: Seq<Seq<u8>>,
    w: nat,
    r: int,
)
    requires
        forall|y: int| 0 <= y < p.len() ==> #[trigger] p[y].len() == w,
        rows_mixed(p, q1, w, r),
        columns_mixed(q1, q2, w, r),
        rows_mixed(q2, q3, w, r),
        columns_mixed(q3, q4, w, r),
    ensures
        blurred(p, w, r) == q4,
{
    lemma_rows(p, q1, w, r);
    lemma_columns(q1, q2, w, r);
    lemma_rows(q2, q3, w, r);
    lemma_columns(q3, q4, w, r);
}

proof fn lemma_rows(p: Seq<Seq<u8>>, q: Seq<Seq<u8>>, w: nat, r: int)
    requires
        forall|y: int| 0 <= y < p.len() ==> #[trigger] p[y].len() == w,
        rows_mixed(p, q, w, r),
    ensures
        crate::gui::blur::blurred_h(p, r) == q,
{
    let b = crate::gui::blur::blurred_h(p, r);
    assert forall|y: int| 0 <= y < p.len() implies #[trigger] b[y] == q[y] by {
        assert(p[y].len() == w && q[y].len() == w);
        assert(b[y] =~= q[y]);
    }
    assert(b =~= q);
}

proof fn lemma_columns(p: Seq<Seq<u8>>, q: Seq<Seq<u8>>, w: nat, r: int)
    requires
        columns_mixed(p, q, w, r),
    ensures
        crate::gui::blur::blurred_v(p, w, r) == q,
{
    let b = crate::gui::blur::blurred_v(p, w, r);
    assert forall|y: int| 0 <= y < p.len() implies #[trigger] b[y] == q[y] by {
        assert(q[y].len() == w);
        assert forall|x: int| 0 <= x < w implies #[trigger] b[y][x] == q[y][x] by {
            assert(column(p, x) =~= Seq::new(p.len(), |k: int| p[k][x]));
        }
        assert(b[y] =~= q[y]);
    }
    assert(b =~= q);
}

/// Glass is opaque, and each of its colors is the tint's value for the softened
/// color of the same name.
pub proof fn law_glass(c: Canvas, reach: int, tint: Tint, x: int, y: int, b: Seq<Seq<u8>>, g: Seq<Seq<u8>>, r: Seq<Seq<u8>>)
    requires
        b == Seq::new(c.h as nat, |j: int| Seq::new(c.w as nat, |i: int| c.at(i, j).b)),
        g == Seq::new(c.h as nat, |j: int| Seq::new(c.w as nat, |i: int| c.at(i, j).g)),
        r == Seq::new(c.h as nat, |j: int| Seq::new(c.w as nat, |i: int| c.at(i, j).r)),
        0 <= x < c.w,
        0 <= y < c.h,
    ensures
        ({
            let p = glass_at(c, reach, tint, x, y);
            let w = c.w as nat;
            &&& p.a == 255
            &&& p.b == tint.b@[blurred(b, w, reach)[y][x] as int]
            &&& p.g == tint.g@[blurred(g, w, reach)[y][x] as int]
            &&& p.r == tint.r@[blurred(r, w, reach)[y][x] as int]
        }),
{
    assert(channel(c, 0) =~= b) by {
        assert forall|j: int| 0 <= j < c.h implies #[trigger] channel(c, 0)[j] == b[j] by {
            assert(channel(c, 0)[j] =~= b[j]);
        }
    }
    assert(channel(c, 1) =~= g) by {
        assert forall|j: int| 0 <= j < c.h implies #[trigger] channel(c, 1)[j] == g[j] by {
            assert(channel(c, 1)[j] =~= g[j]);
        }
    }
    assert(channel(c, 2) =~= r) by {
        assert forall|j: int| 0 <= j < c.h implies #[trigger] channel(c, 2)[j] == r[j] by {
            assert(channel(c, 2)[j] =~= r[j]);
        }
    }
}

/// A pane of glass is laid over the canvas with its alpha, within its shape only.
pub proof fn law_pane_pixel(s: PaneBrush, x: int, y: int, d: Px, t: Px)
    requires
        ({
            let p = s.glass.at(x - s.x, y - s.y);
            &&& nearest(t.b as int, p.b * s.alpha)
            &&& nearest(t.g as int, p.g * s.alpha)
            &&& nearest(t.r as int, p.r * s.alpha)
            &&& t.a == s.alpha
        }),
    ensures
        s.shape.holds(x, y) ==> s.shade(x, y, d) == over(t, d),
        !s.shape.holds(x, y) ==> s.shade(x, y, d) == d,
{
    let p = s.glass.at(x - s.x, y - s.y);
    lemma_scaled(p.b as int, s.alpha as int);
    lemma_scaled(p.g as int, s.alpha as int);
    lemma_scaled(p.r as int, s.alpha as int);
}

/// The visible part of a rectangle is what both it and the canvas hold.
pub proof fn law_visible_part(c: Canvas, x: i32, y: i32, w: u32, h: u32, px: int, py: int)
    ensures
        ({
            let (x0, y0, x1, y1) = visible_part(c, x, y, w, h);
            (x0 <= px < x1 && y0 <= py < y1) <==> (0 <= px < c.w && 0 <= py < c.h && x <= px < x + w && y <= py < y + h)
        }),
{
}

/// The bytes of a pixel change their order from red, green, blue to blue, green,
/// red; its alpha stays last.
pub proof fn law_bytes_are_swapped(rgba: Seq<u8>, p: int)
    requires
        0 <= p,
        4 * p + 3 < rgba.len(),
    ensures
        ({
            let s = swapped(rgba);
            &&& s.len() == rgba.len()
            &&& s[4 * p] == rgba[4 * p + 2]
            &&& s[4 * p + 1] == rgba[4 * p + 1]
            &&& s[4 * p + 2] == rgba[4 * p]
            &&& s[4 * p + 3] == rgba[4 * p + 3]
        }),
{
}

/// The icon that is drawn where there is no picture is a disk about the middle of
/// its sixteen by sixteen pixels, seven pixels in radius: its outermost pixel is
/// a dark ring, its inside green, and all round it clear.
pub proof fn law_fallback_icon(x: int, y: int)
    requires
        0 <= x < 16,
        0 <= y < 16,
    ensures
        ({
            let d = (2 * x - 15) * (2 * x - 15) + (2 * y - 15) * (2 * y - 15);
            let p = fallback_at(x, y);
            &&& d > 14 * 14 <==> p == (0u8, 0u8, 0u8, 0u8)
            &&& 12 * 12 < d <= 14 * 14 <==> p == (90u8, 60u8, 40u8, 255u8)
            &&& d <= 12 * 12 <==> p == (200u8, 230u8, 120u8, 255u8)
        }),
{
}

} // verus!
