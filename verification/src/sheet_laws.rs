//! Which pixels of a sheet the frames of an animation consist of, and how long
//! they are shown.

use vstd::prelude::*;

use crate::anim::{is_tail_start, suffix_ms, FrameModel, PlayModel, Schedule};
use crate::quantize::{law_palette_bounded, lemma_nearest_in, tints_of};
use crate::sheet::{
    block, cell, resized_in, sheet_frames, uniform_ms, Manifest, PixelsModel, PngModel, SheetErrorModel,
};

verus! {

/// How many frames stand in a row of the grid.
pub open spec fn columns(m: Manifest) -> int {
    if m.frames_per_row > 0 {
        m.frames_per_row as int
    } else {
        1
    }
}

/// Where pixel (`x`, `y`) of frame `i` stands in a sheet whose rows are `w`
/// pixels wide: the frames fill the grid row by row.
pub open spec fn place_in_sheet(m: Manifest, w: int, i: int, x: int, y: int) -> int {
    ((i / columns(m)) * m.height + y) * w + (i % columns(m)) * m.width + x
}

/// The grid of all frames lies within a sheet of this size.
pub open spec fn grid_fits(m: Manifest, w: int, h: int) -> bool {
    &&& columns(m) * m.width <= w
    &&& forall|i: int| 0 <= i < m.frame_count ==> (#[trigger] (i / columns(m)) + 1) * m.height <= h
}

/// A pixel of a frame of the grid.
pub open spec fn is_pixel(m: Manifest, i: int, x: int, y: int) -> bool {
    0 <= i < m.frame_count && 0 <= x < m.width && 0 <= y < m.height
}

proof fn lemma_block_at(raw: Seq<u8>, from: int, stride: int, len: int, rows: nat, r: int, c: int)
    requires
        0 <= from,
        0 <= stride,
        0 <= c < len,
        0 <= r < rows,
        from + (rows - 1) * stride + len <= raw.len(),
    ensures
        block(raw, from, stride, len, rows).len() == rows * len,
        block(raw, from, stride, len, rows)[r * len + c] == raw[from + r * stride + c],
    decreases rows,
{
    let k = rows - 1;
    let at = from + k * stride;
    assert(0 <= k * stride) by (nonlinear_arith)
        requires
            stride >= 0,
            k >= 0,
    ;
    let b = block(raw, from, stride, len, k as nat);
    if k > 0 {
        assert((k - 1) * stride <= k * stride) by (nonlinear_arith)
            requires
                stride >= 0,
        ;
        lemma_block_at(raw, from, stride, len, k as nat, if r < k { r } else { 0 }, c);
    } else {
        assert(k * len == 0) by (nonlinear_arith)
            requires
                k == 0,
        ;
    }
    assert(b.len() == k * len);
    assert(rows * len == k * len + len) by (nonlinear_arith)
        requires
            rows == k + 1,
    ;
    if r < k {
        assert(0 <= r * len && r * len + c < k * len) by (nonlinear_arith)
            requires
                0 <= r,
                r + 1 <= k,
                0 <= c < len,
        ;
    } else {
        assert(raw.subrange(at, at + len)[c] == raw[at + c]);
    }
}

/// A grid that fits is within the sheet, frame by frame.
proof fn lemma_grid(m: Manifest, w: u32, h: u32)
    requires
        m.within(w, h),
    ensures
        grid_fits(m, w as int, h as int),
{
    let p = columns(m);
    assert(p == m.per_row());
    assert forall|i: int| 0 <= i < m.frame_count implies (#[trigger] (i / p) + 1) * m.height <= h by {
        let (n, fh, r) = (m.frame_count as int, m.height as int, i / p);
        let rows = (n + p - 1) / p;
        assert(r + 1 <= rows) by (nonlinear_arith)
            requires
                0 <= i < n,
                p >= 1,
                r == i / p,
                rows == (n + p - 1) / p,
        ;
        assert((r + 1) * fh <= rows * fh) by (nonlinear_arith)
            requires
                r + 1 <= rows,
                fh >= 0,
        ;
    }
}

/// A pixel of a frame lies within the sheet.
proof fn lemma_place_bounds(m: Manifest, w: int, h: int, i: int, x: int, y: int)
    requires
        grid_fits(m, w, h),
        is_pixel(m, i, x, y),
    ensures
        0 <= place_in_sheet(m, w, i, x, y) < w * h,
        0 <= (i % columns(m)) * m.width,
        (i % columns(m)) * m.width + m.width <= w,
        0 <= (i / columns(m)) * m.height,
        (i / columns(m)) * m.height + m.height <= h,
{
    let p = columns(m);
    let (c, r) = (i % p, i / p);
    let (fw, fh) = (m.width as int, m.height as int);
    assert((r + 1) * m.height <= h);
    assert(0 <= c < p && 0 <= r) by (nonlinear_arith)
        requires
            0 <= i,
            p >= 1,
            c == i % p,
            r == i / p,
    ;
    assert(0 <= c * fw && c * fw + fw <= p * fw) by (nonlinear_arith)
        requires
            0 <= c < p,
            fw >= 0,
    ;
    assert(0 <= r * fh && r * fh + fh == (r + 1) * fh) by (nonlinear_arith)
        requires
            0 <= r,
            fh >= 0,
    ;
    let (a, b) = (r * fh + y, c * fw + x);
    assert(0 <= a * w + b && a * w + b < w * h) by (nonlinear_arith)
        requires
            0 <= a,
            a + 1 <= h,
            0 <= b < w,
    ;
}

proof fn lemma_cell_at(raw: Seq<u8>, m: Manifest, i: int, w: u32, h: u32, bpp: int, x: int, y: int, b: int)
    requires
        m.within(w, h),
        is_pixel(m, i, x, y),
        bpp == 1 || bpp == 4,
        0 <= b < bpp,
        raw.len() >= w * h * bpp,
    ensures
        cell(raw, m, i, w, bpp).len() == m.height * (m.width * bpp),
        0 <= (y * m.width + x) * bpp + b < cell(raw, m, i, w, bpp).len(),
        cell(raw, m, i, w, bpp)[(y * m.width + x) * bpp + b] == raw[place_in_sheet(m, w as int, i, x, y) * bpp + b],
{
    lemma_grid(m, w, h);
    lemma_place_bounds(m, w as int, h as int, i, x, y);
    let (fw, fh, sw, sh) = (m.width as int, m.height as int, w as int, h as int);
    let (l, t) = (m.left(i), m.top(i));
    assert(l == (i % columns(m)) * m.width);
    assert(t == (i / columns(m)) * m.height);
    let from = (t * sw + l) * bpp;
    let stride = sw * bpp;
    let len = fw * bpp;
    assert(0 <= t * sw) by (nonlinear_arith)
        requires
            0 <= t,
            0 <= sw,
    ;
    let last = t + fh - 1;
    assert(from + (fh - 1) * stride + len == (last * sw + l + fw) * bpp) by (nonlinear_arith)
        requires
            from == (t * sw + l) * bpp,
            stride == sw * bpp,
            len == fw * bpp,
            last == t + fh - 1,
    ;
    assert(last * sw + sw <= sw * sh) by (nonlinear_arith)
        requires
            last + 1 <= sh,
            sw >= 0,
    ;
    assert((last * sw + l + fw) * bpp <= (sw * sh) * bpp) by (nonlinear_arith)
        requires
            last * sw + l + fw <= sw * sh,
            bpp >= 1,
    ;
    assert(w * h * bpp == (sw * sh) * bpp);
    assert(0 <= x * bpp + b < len) by (nonlinear_arith)
        requires
            0 <= x,
            x + 1 <= fw,
            0 <= b < bpp,
            len == fw * bpp,
    ;
    lemma_block_at(raw, from, stride, len, fh as nat, y, x * bpp + b);
    assert(y * len + (x * bpp + b) == (y * fw + x) * bpp + b) by (nonlinear_arith)
        requires
            len == fw * bpp,
    ;
    assert(from + y * stride + (x * bpp + b) == ((t + y) * sw + l + x) * bpp + b) by (nonlinear_arith)
        requires
            from == (t * sw + l) * bpp,
            stride == sw * bpp,
    ;
    assert(0 <= y * len + (x * bpp + b) < fh * len) by (nonlinear_arith)
        requires
            0 <= y,
            y + 1 <= fh,
            0 <= x * bpp + b < len,
    ;
}

/// No two frames share a pixel of the sheet, and no frame uses one twice.
pub proof fn law_cells_are_disjoint(m: Manifest, w: int, i: int, x: int, y: int, j: int, u: int, v: int)
    requires
        columns(m) * m.width <= w,
        is_pixel(m, i, x, y),
        is_pixel(m, j, u, v),
        place_in_sheet(m, w, i, x, y) == place_in_sheet(m, w, j, u, v),
    ensures
        i == j,
        x == u,
        y == v,
{
    let p = columns(m);
    let (fw, fh) = (m.width as int, m.height as int);
    let (c, r, d, s) = (i % p, i / p, j % p, j / p);
    assert(0 <= c < p && 0 <= d < p && i == r * p + c && j == s * p + d) by (nonlinear_arith)
        requires
            p >= 1,
            c == i % p,
            r == i / p,
            d == j % p,
            s == j / p,
    ;
    let (a, b) = (r * fh + y, c * fw + x);
    let (e, f) = (s * fh + v, d * fw + u);
    assert(0 <= b < w && 0 <= f < w) by (nonlinear_arith)
        requires
            0 <= c < p,
            0 <= d < p,
            0 <= x < fw,
            0 <= u < fw,
            p * fw <= w,
            b == c * fw + x,
            f == d * fw + u,
    ;
    lemma_digits(a, b, e, f, w);
    lemma_digits(r, y, s, v, fh);
    lemma_digits(c, x, d, u, fw);
}

/// A number has one quotient and one remainder.
proof fn lemma_digits(a: int, b: int, c: int, d: int, n: int)
    requires
        0 <= b < n,
        0 <= d < n,
        a * n + b == c * n + d,
    ensures
        a == c,
        b == d,
{
    if a < c {
        assert(a * n + n <= c * n) by (nonlinear_arith)
            requires
                a + 1 <= c,
                n > 0,
        ;
    } else if c < a {
        assert(c * n + n <= a * n) by (nonlinear_arith)
            requires
                c + 1 <= a,
                n > 0,
        ;
    }
}

/// A sheet of palette indices keeps its palette, and the alpha of each entry,
/// which is opaque where the sheet says nothing; every frame consists of the
/// indices in its own cell of the grid.
pub proof fn law_indexed_frames(
    info: PngModel,
    pixels: PixelsModel,
    image: Result<PixelsModel, Seq<char>>,
    m: Manifest,
    i: int,
    x: int,
    y: int,
)
    requires
        info.color == 3 && info.depth == 8,
        info.palette is Some,
        m.within(info.width, info.height),
        pixels.raw.len() >= info.width * info.height,
        is_pixel(m, i, x, y),
    ensures
        sheet_frames(Some(info), Some(pixels), image, m, m.width, m.height) matches Ok(v) ==> {
            &&& v.len() == m.frame_count
            &&& v[i].w == m.width && v[i].h == m.height
            &&& v[i].idx.len() == m.width * m.height
            &&& v[i].idx[y * m.width + x] == pixels.raw[place_in_sheet(m, info.width as int, i, x, y)]
            &&& v[i].palette == info.palette->0
            &&& v[i].pal_alpha.len() == info.palette->0.len() / 3
            &&& forall|k: int|
                0 <= k < v[i].pal_alpha.len() ==> #[trigger] v[i].pal_alpha[k] == (if info.trns is Some && k
                    < info.trns->0.len() {
                    info.trns->0[k]
                } else {
                    255
                })
            &&& v[i].alpha.len() == 0 && v[i].rgba.len() == 0
            &&& v[i].pal_alpha.len() > v[i].idx[y * m.width + x]
        },
{
    let raw = pixels.raw;
    let w = info.width;
    lemma_cell_at(raw, m, i, w, info.height, 1, x, y, 0);
    assert(m.height * (m.width * 1) == m.width * m.height) by (nonlinear_arith);
    assert(cell(raw, m, i, w, 1)[y * m.width + x] == raw[place_in_sheet(m, w as int, i, x, y)]);
}

/// A sheet of palette indices is refused exactly where a pixel of a frame names
/// an entry that the palette does not have.
pub proof fn law_bad_index_is_refused(
    info: PngModel,
    pixels: PixelsModel,
    image: Result<PixelsModel, Seq<char>>,
    m: Manifest,
    i: int,
    x: int,
    y: int,
)
    requires
        info.color == 3 && info.depth == 8,
        info.palette is Some,
        m.within(info.width, info.height),
        pixels.raw.len() >= info.width * info.height,
        is_pixel(m, i, x, y),
        pixels.raw[place_in_sheet(m, info.width as int, i, x, y)] >= info.palette->0.len() / 3,
    ensures
        sheet_frames(Some(info), Some(pixels), image, m, m.width, m.height) == Err::<
            Seq<FrameModel>,
            SheetErrorModel,
        >(SheetErrorModel::BadIndex),
{
    let raw = pixels.raw;
    let w = info.width;
    lemma_cell_at(raw, m, i, w, info.height, 1, x, y, 0);
    assert(cell(raw, m, i, w, 1)[y * m.width + x] >= info.palette->0.len() / 3);
}

/// How far a color is from entry `k` of a palette.
pub open spec fn off_by(palette: Seq<u8>, k: int, r: u8, g: u8, b: u8) -> int {
    (palette[3 * k] - r) * (palette[3 * k] - r) + (palette[3 * k + 1] - g) * (palette[3 * k + 1] - g) + (palette[3 * k
        + 2] - b) * (palette[3 * k + 2] - b)
}

/// A sheet of RGBA pixels gets one palette of at most 256 entries for all frames;
/// every pixel keeps its alpha and names the entry nearest to its color, for the
/// pixel of the sheet that stands in the frame's own cell of the grid.
pub proof fn law_reduced_frames(
    info: PngModel,
    pixels: PixelsModel,
    image: Result<PixelsModel, Seq<char>>,
    m: Manifest,
    i: int,
    x: int,
    y: int,
)
    requires
        info.color == 6 && info.depth == 8,
        pixels.width == info.width && pixels.height == info.height,
        m.within(info.width, info.height),
        pixels.raw.len() >= info.width * info.height * 4,
        is_pixel(m, i, x, y),
    ensures
        sheet_frames(Some(info), Some(pixels), image, m, m.width, m.height) is Ok,
        ({
            let v = sheet_frames(Some(info), Some(pixels), image, m, m.width, m.height)->Ok_0;
            let at = 4 * place_in_sheet(m, info.width as int, i, x, y);
            let raw = pixels.raw;
            let (f, o) = (v[i], y * m.width + x);
            &&& v.len() == m.frame_count
            &&& f.w == m.width && f.h == m.height
            &&& f.palette == v[0].palette
            &&& f.palette.len() % 3 == 0 && 3 <= f.palette.len() <= 768
            &&& f.idx.len() == m.width * m.height && f.alpha.len() == m.width * m.height
            &&& f.rgba.len() == 0 && f.pal_alpha.len() == 0
            &&& f.alpha[o] == raw[at + 3]
            &&& f.idx[o] < f.palette.len() / 3
            &&& forall|k: int|
                0 <= k < f.palette.len() / 3 ==> off_by(
                    f.palette,
                    f.idx[o] as int,
                    raw[at],
                    raw[at + 1],
                    raw[at + 2],
                ) <= #[trigger] off_by(f.palette, k, raw[at], raw[at + 1], raw[at + 2])
            &&& forall|k: int|
                0 <= k < f.idx[o] ==> off_by(f.palette, f.idx[o] as int, raw[at], raw[at + 1], raw[at + 2])
                    < #[trigger] off_by(f.palette, k, raw[at], raw[at + 1], raw[at + 2])
        }),
{
    let raw = pixels.raw;
    let w = info.width;
    let n = (info.width * info.height) as nat;
    law_palette_bounded(tints_of(raw, n), 256);
    let palette = crate::quantize::palette_of(tints_of(raw, n), 256);
    let c = cell(raw, m, i, w, 4);
    let o = y * m.width + x;
    lemma_cell_at(raw, m, i, w, info.height, 4, x, y, 0);
    lemma_cell_at(raw, m, i, w, info.height, 4, x, y, 1);
    lemma_cell_at(raw, m, i, w, info.height, 4, x, y, 2);
    lemma_cell_at(raw, m, i, w, info.height, 4, x, y, 3);
    assert(0 <= o < m.width * m.height) by (nonlinear_arith)
        requires
            0 <= x < m.width,
            0 <= y,
            y + 1 <= m.height,
            o == y * m.width + x,
    ;
    lemma_nearest_in(palette, c[4 * o], c[4 * o + 1], c[4 * o + 2]);
    let q = crate::quantize::nearest_in(palette, c[4 * o], c[4 * o + 1], c[4 * o + 2]);
    let at = 4 * place_in_sheet(m, w as int, i, x, y);
    assert forall|k: int| #[trigger]
        off_by(palette, k, raw[at], raw[at + 1], raw[at + 2]) == crate::quantize::distance(
            palette,
            k,
            c[4 * o],
            c[4 * o + 1],
            c[4 * o + 2],
        ) by {}
}

/// The picture `c` is cell `i` of the grid.
pub open spec fn is_cell(c: Seq<u8>, m: Manifest, raw: Seq<u8>, w: int, i: int) -> bool {
    &&& c.len() == 4 * (m.width * m.height)
    &&& forall|x: int, y: int, b: int|
        #![trigger c[4 * (y * m.width + x) + b]]
        0 <= x < m.width && 0 <= y < m.height && 0 <= b < 4 ==> c[4 * (y * m.width + x) + b] == raw[4 * place_in_sheet(
            m,
            w,
            i,
            x,
            y,
        ) + b]
}

/// A sheet without a compact form, or one that is brought to another size, gives
/// frames of RGBA pixels: each is its own cell of the grid, as it is, or resized.
pub proof fn law_plain_frames(
    info: Option<PngModel>,
    pixels: Option<PixelsModel>,
    img: PixelsModel,
    m: Manifest,
    w: u32,
    h: u32,
    i: int,
)
    requires
        info is None || w != m.width || h != m.height,
        m.within(img.width, img.height),
        img.raw.len() >= img.width * img.height * 4,
        0 <= i < m.frame_count,
        m.width > 0,
        m.height > 0,
    ensures
        sheet_frames(info, pixels, Ok(img), m, w, h) is Ok,
        ({
            let v = sheet_frames(info, pixels, Ok(img), m, w, h)->Ok_0;
            &&& v.len() == m.frame_count
            &&& v[i].w == w && v[i].h == h
            &&& v[i].idx.len() == 0 && v[i].palette.len() == 0 && v[i].alpha.len() == 0
            &&& w == m.width && h == m.height ==> is_cell(v[i].rgba, m, img.raw, img.width as int, i)
            &&& w != m.width || h != m.height ==> exists|c: Seq<u8>|
                #![trigger resized_in(c, m.width, m.height, w, h)]
                is_cell(c, m, img.raw, img.width as int, i) && v[i].rgba == resized_in(c, m.width, m.height, w, h)
        }),
{
    let c = cell(img.raw, m, i, img.width, 4);
    lemma_cell_at(img.raw, m, i, img.width, img.height, 4, 0, 0, 0);
    assert(m.height * (m.width * 4) == 4 * (m.width * m.height)) by (nonlinear_arith);
    assert forall|x: int, y: int, b: int|
        #![trigger c[4 * (y * m.width + x) + b]]
        0 <= x < m.width && 0 <= y < m.height && 0 <= b < 4 implies c[4 * (y * m.width + x) + b]
        == img.raw[4 * place_in_sheet(m, img.width as int, i, x, y) + b] by {
        lemma_cell_at(img.raw, m, i, img.width, img.height, 4, x, y, b);
    }
    assert(is_cell(c, m, img.raw, img.width as int, i));
    assert(resized_in(c, m.width, m.height, w, h) == resized_in(c, m.width, m.height, w, h));
}

/// A manifest without frames or with an empty frame is refused before anything
/// is read; a picture that cannot be read is refused with what is said of it; and
/// one that is too small is refused with its size and the size of the grid.
pub proof fn law_bad_sheets_are_refused(
    info: Option<PngModel>,
    pixels: Option<PixelsModel>,
    image: Result<PixelsModel, Seq<char>>,
    m: Manifest,
    w: u32,
    h: u32,
)
    ensures
        ({
            let r = sheet_frames(info, pixels, image, m, w, h);
            &&& m.frame_count == 0 ==> r == Err::<Seq<FrameModel>, SheetErrorModel>(SheetErrorModel::NoFrameCount)
            &&& m.frame_count > 0 && (m.width == 0 || m.height == 0) ==> r == Err::<Seq<FrameModel>, SheetErrorModel>(
                SheetErrorModel::CellSize(m.width, m.height),
            )
            &&& m.frame_count > 0 && m.width > 0 && m.height > 0 && info is None ==> (image matches Err(e) ==> r == Err::<
                Seq<FrameModel>,
                SheetErrorModel,
            >(SheetErrorModel::Image(e)))
            &&& m.frame_count > 0 && m.width > 0 && m.height > 0 && info is None && m.countable() ==> (image matches Ok(
                img,
            ) ==> (columns(m) * m.width > img.width || ((m.frame_count + columns(m) - 1) / columns(m)) * m.height
                > img.height) ==> r == Err::<Seq<FrameModel>, SheetErrorModel>(
                SheetErrorModel::TooSmall(
                    img.width,
                    img.height,
                    (columns(m) * m.width) as u32,
                    (((m.frame_count + columns(m) - 1) / columns(m)) * m.height) as u32,
                ),
            ))
        }),
{
}

/// Every frame is shown for the same time: what was asked for, between one and
/// two thousand milliseconds.
pub proof fn law_durations_are_even(frame_ms: u32, n: nat, i: int)
    requires
        0 <= i < n,
    ensures
        uniform_ms(frame_ms, n).len() == n,
        1 <= uniform_ms(frame_ms, n)[i] <= 2000,
        1 <= frame_ms <= 2000 ==> uniform_ms(frame_ms, n)[i] == frame_ms,
        frame_ms == 0 ==> uniform_ms(frame_ms, n)[i] == 1,
        frame_ms > 2000 ==> uniform_ms(frame_ms, n)[i] == 2000,
{
}

/// A player stays on a frame for as long as the frame lasts, and then goes to the
/// next; behind the last frame it goes on where the repeated part begins, which
/// ends the first pass where passes count.
pub proof fn law_frames_last(s: Schedule, p: PlayModel, dt: int)
    requires
        s.d.len() > 0,
        0 <= s.back_to < s.d.len(),
        forall|k: int| 0 <= k < s.d.len() ==> #[trigger] s.d[k] > 0,
        0 <= p.idx < s.d.len(),
        0 < p.left,
        0 <= dt,
    ensures
        dt < p.left ==> s.play(p, dt) == (PlayModel { left: p.left - dt, ..p }),
        dt == p.left && p.idx + 1 < s.d.len() ==> s.play(p, dt) == (PlayModel {
            idx: p.idx + 1,
            left: s.d[p.idx + 1] as int,
            passes: p.passes,
        }),
        dt == p.left && p.idx + 1 == s.d.len() ==> s.play(p, dt) == (PlayModel {
            idx: s.back_to,
            left: s.d[s.back_to] as int,
            passes: if s.counts && p.passes == 0 { 1 } else { p.passes },
        }),
{
    assert(s.holds(s.d.len() - 1));
    assert(s.play(p, 0) == p);
    if dt == p.left {
        let q = s.next(p);
        assert(s.play(p, dt) == s.play(q, 0));
        assert(s.play(q, 0) == q);
    }
}

/// The tail by time is the shortest one that lasts long enough: it does, unless
/// the whole does not, and without its first frame it does not.
pub proof fn law_tail_is_shortest(d: Seq<u32>, tail_ms: u64, start: int)
    requires
        is_tail_start(d, tail_ms, start),
        d.len() > 0,
    ensures
        0 <= start < d.len(),
        start > 0 ==> suffix_ms(d, start) >= tail_ms,
        start + 1 < d.len() ==> suffix_ms(d, start + 1) < tail_ms,
        suffix_ms(d, d.len() as int) == 0,
        suffix_ms(d, start) == d[start] + suffix_ms(d, start + 1),
{
}

/// A sheet of palette indices whose frames name only entries that there are is
/// taken, whatever stands beside the frames.
pub proof fn law_good_indices_are_taken(
    info: PngModel,
    pixels: PixelsModel,
    image: Result<PixelsModel, Seq<char>>,
    m: Manifest,
)
    requires
        info.color == 3 && info.depth == 8,
        info.palette is Some,
        m.within(info.width, info.height),
        pixels.raw.len() >= info.width * info.height,
        m.frame_count > 0,
        m.width > 0,
        m.height > 0,
        forall|i: int, x: int, y: int|
            is_pixel(m, i, x, y) ==> (#[trigger] pixels.raw[place_in_sheet(m, info.width as int, i, x, y)])
                < info.palette->0.len() / 3,
    ensures
        sheet_frames(Some(info), Some(pixels), image, m, m.width, m.height) is Ok,
{
    let raw = pixels.raw;
    let w = info.width;
    let n = info.palette->0.len() / 3;
    assert forall|i: int, k: int|
        #![trigger cell(raw, m, i, w, 1)[k]]
        0 <= i < m.frame_count && 0 <= k < cell(raw, m, i, w, 1).len() implies cell(raw, m, i, w, 1)[k] < n by {
        let fw = m.width as int;
        let fh = m.height as int;
        lemma_cell_at(raw, m, i, w, info.height, 1, 0, 0, 0);
        let (x, y) = (k % fw, k / fw);
        assert(k == y * fw + x && 0 <= x < fw && 0 <= y) by (nonlinear_arith)
            requires
                fw > 0,
                k >= 0,
                x == k % fw,
                y == k / fw,
        ;
        assert(y < fh) by (nonlinear_arith)
            requires
                k == y * fw + x,
                0 <= x < fw,
                k < fh * (fw * 1),
        ;
        assert(is_pixel(m, i, x, y));
        lemma_cell_at(raw, m, i, w, info.height, 1, x, y, 0);
        assert(cell(raw, m, i, w, 1)[k] == raw[place_in_sheet(m, w as int, i, x, y)]);
    }
}

/// A sheet that has no compact form at its own size is read as a plain picture.
pub proof fn law_other_sheets_are_plain(
    info: PngModel,
    pixels: Option<PixelsModel>,
    image: Result<PixelsModel, Seq<char>>,
    m: Manifest,
)
    requires
        !(info.color == 3 && info.depth == 8) && !(info.color == 6 && info.depth == 8) || pixels is None,
    ensures
        sheet_frames(Some(info), pixels, image, m, m.width, m.height) == sheet_frames(
            None,
            pixels,
            image,
            m,
            m.width,
            m.height,
        ),
{
}

} // verus!
