//! Sprite sheets: a picture that holds the frames of an animation in a grid,
//! and the making of frames from it.

use vstd::prelude::*;

use crate::anim::{frame_ms_safe, Animation, Frame, FrameModel};
use crate::http::bytes_between;
use crate::quantize::{
    is_nearest, law_every_pixel_counted, law_palette_bounded, lemma_nearest_in, nearest_in, nearest_palette_index, palette_of,
    quantize_palette, tints_of, Tally, Tint,
};
use crate::text::own;

verus! {

/// How a sheet is laid out: the size of a frame, how many there are, and how
/// many stand in a row.
#[derive(Debug, Clone, Copy)]
pub struct Manifest {
    pub width: u32,
    pub height: u32,
    pub frame_count: usize,
    pub frames_per_row: usize,
}

impl Manifest {
    /// How many frames stand in a row, at least one.
    pub open spec fn per_row(self) -> int {
        if self.frames_per_row == 0 {
            1
        } else {
            self.frames_per_row as int
        }
    }

    /// How many rows there are.
    pub open spec fn rows(self) -> int {
        (self.frame_count + self.per_row() - 1) / self.per_row()
    }

    /// The sizes of the sheet can be counted.
    pub open spec fn countable(self) -> bool {
        &&& self.per_row() <= u32::MAX
        &&& self.frame_count + self.per_row() - 1 <= u32::MAX
        &&& self.per_row() * self.width <= u32::MAX
        &&& self.rows() * self.height <= u32::MAX
    }

    /// The column at which frame `i` starts.
    pub open spec fn left(self, i: int) -> int {
        (i % self.per_row()) * self.width
    }

    /// The row at which frame `i` starts.
    pub open spec fn top(self, i: int) -> int {
        (i / self.per_row()) * self.height
    }

    /// A picture of the given size holds all frames.
    pub open spec fn within(self, w: u32, h: u32) -> bool {
        self.per_row() * self.width <= w && self.rows() * self.height <= h
    }

    fn per_row_of(&self) -> (r: u32)
        requires
            self.per_row() <= u32::MAX,
        ensures
            r == self.per_row(),
            r > 0,
    {
        if self.frames_per_row == 0 {
            1
        } else {
            self.frames_per_row as u32
        }
    }

    fn rows_of(&self) -> (r: u32)
        requires
            self.countable(),
        ensures
            r == self.rows(),
    {
        let p: u32 = self.per_row_of();
        ((self.frame_count as u64 + p as u64 - 1) / p as u64) as u32
    }

    /// Whether the sizes of the sheet can be counted.
    pub fn is_countable(&self) -> (r: bool)
        ensures
            r == self.countable(),
    {
        let p: u128 = if self.frames_per_row == 0 {
            1
        } else {
            self.frames_per_row as u128
        };
        let n: u128 = self.frame_count as u128 + p - 1;
        let most: u128 = u32::MAX as u128;
        if p > most || n > most {
            return false;
        }
        let w: u128 = self.width as u128;
        let h: u128 = self.height as u128;
        let rows: u128 = n / p;
        proof {
            lemma_small_product(p as int, w as int);
            assert(rows <= most) by (nonlinear_arith)
                requires
                    rows == n / p,
                    n <= most,
                    p >= 1,
            ;
            lemma_small_product(rows as int, h as int);
        }
        p * w <= most && rows * h <= most
    }
}

proof fn lemma_small_product(a: int, b: int)
    by (nonlinear_arith)
    requires
        0 <= a <= 0xffff_ffff,
        0 <= b <= 0xffff_ffff,
    ensures
        0 <= a * b <= 0xffff_fffe_0000_0001,
{
}

/// Frame `i` lies within a picture that holds all frames.
proof fn lemma_cell_within(m: Manifest, i: int, w: u32, h: u32)
    requires
        0 <= i < m.frame_count,
        m.within(w, h),
    ensures
        0 <= m.left(i),
        m.left(i) + m.width <= w,
        0 <= m.top(i),
        m.top(i) + m.height <= h,
{
    let p = m.per_row();
    let n = m.frame_count as int;
    let fw = m.width as int;
    let fh = m.height as int;
    let c = i % p;
    let r = i / p;
    let rows = m.rows();
    assert(0 <= c < p);
    assert(0 <= r && r + 1 <= rows) by (nonlinear_arith)
        requires
            0 <= i < n,
            p >= 1,
            r == i / p,
            rows == (n + p - 1) / p,
    ;
    assert(0 <= c * fw && c * fw + fw <= p * fw) by (nonlinear_arith)
        requires
            0 <= c < p,
            0 <= fw,
    ;
    assert(0 <= r * fh && r * fh + fh <= rows * fh) by (nonlinear_arith)
        requires
            0 <= r,
            r + 1 <= rows,
            0 <= fh,
    ;
}

/// `rows` stretches of `len` bytes, the first at `from` and each `stride` bytes
/// behind the last.
pub open spec fn block(raw: Seq<u8>, from: int, stride: int, len: int, rows: nat) -> Seq<u8>
    decreases rows,
{
    if rows == 0 {
        Seq::empty()
    } else {
        let at = from + (rows - 1) * stride;
        block(raw, from, stride, len, (rows - 1) as nat) + raw.subrange(at, at + len)
    }
}

/// The bytes of frame `i` of a sheet whose rows are `w` pixels of `bpp` bytes.
pub open spec fn cell(raw: Seq<u8>, m: Manifest, i: int, w: u32, bpp: int) -> Seq<u8> {
    block(raw, (m.top(i) * w + m.left(i)) * bpp, w * bpp, m.width * bpp, m.height as nat)
}

proof fn lemma_block_len(raw: Seq<u8>, from: int, stride: int, len: int, rows: nat)
    requires
        0 <= from,
        0 <= stride,
        0 <= len,
        rows > 0 ==> from + (rows - 1) * stride + len <= raw.len(),
    ensures
        block(raw, from, stride, len, rows).len() == len * rows,
    decreases rows,
{
    if rows > 0 {
        let k = (rows - 1) as nat;
        assert(0 <= k * stride) by (nonlinear_arith)
            requires
                stride >= 0,
        ;
        if k > 0 {
            assert((k - 1) * stride <= k * stride) by (nonlinear_arith)
                requires
                    stride >= 0,
            ;
        }
        lemma_block_len(raw, from, stride, len, k);
        assert(len * rows == len * k + len) by (nonlinear_arith)
            requires
                rows == k + 1,
        ;
        let at = from + (rows - 1) * stride;
        assert(raw.subrange(at, at + len).len() == len);
    } else {
        assert(len * rows == 0) by (nonlinear_arith)
            requires
                rows == 0,
        ;
    }
}

/// A frame's bytes lie within the sheet's.
proof fn lemma_cell_fits(raw: Seq<u8>, m: Manifest, i: int, w: u32, h: u32, bpp: int)
    requires
        0 <= i < m.frame_count,
        m.within(w, h),
        bpp == 1 || bpp == 4,
        raw.len() >= w * h * bpp,
    ensures
        0 <= (m.top(i) * w + m.left(i)) * bpp,
        0 <= m.top(i) * w,
        m.height > 0 ==> (m.top(i) * w + m.left(i)) * bpp + (m.height - 1) * (w * bpp) + m.width * bpp <= raw.len(),
        cell(raw, m, i, w, bpp).len() == m.width * bpp * m.height,
        m.height > 0 && m.width > 0 ==> m.top(i) * w + m.left(i) < w * h,
{
    lemma_cell_within(m, i, w, h);
    let (x, y) = (m.left(i), m.top(i));
    let (fw, fh) = (m.width as int, m.height as int);
    let (sw, sh) = (w as int, h as int);
    assert(0 <= y * sw) by (nonlinear_arith)
        requires
            0 <= y,
            0 <= sw,
    ;
    if fh > 0 {
        let last = y + fh - 1;
        assert(last * sw == y * sw + (fh - 1) * sw) by (nonlinear_arith)
            requires
                last == y + fh - 1,
        ;
        assert(last * sw <= sw * sh - sw) by (nonlinear_arith)
            requires
                last + 1 <= sh,
                sw >= 0,
        ;
    }
    if bpp == 4 {
        assert((fh - 1) * (sw * 4) == ((fh - 1) * sw) * 4) by (nonlinear_arith);
    }
    assert(fh > 0 && fw > 0 ==> y * sw + x < sw * sh) by (nonlinear_arith)
        requires
            0 <= y,
            y + fh <= sh,
            0 <= x,
            x + fw <= sw,
    ;
    lemma_block_len(raw, (y * sw + x) * bpp, sw * bpp, fw * bpp, fh as nat);
}

/// Copies the bytes of frame `i` out of a sheet.
fn cut_cell(raw: &Vec<u8>, m: &Manifest, i: usize, w: u32, h: u32, bpp: usize) -> (r: Vec<u8>)
    requires
        i < m.frame_count,
        m.countable(),
        m.within(w, h),
        bpp == 1 || bpp == 4,
        raw@.len() >= w * h * bpp,
        m.width > 0,
        m.height > 0,
    ensures
        r@ == cell(raw@, *m, i as int, w, bpp as int),
        r@.len() == m.width * bpp * m.height,
{
    proof {
        lemma_cell_fits(raw@, *m, i as int, w, h, bpp as int);
        lemma_cell_within(*m, i as int, w, h);
        lemma_small_product(m.top(i as int), w as int);
    }
    let p: usize = m.per_row_of() as usize;
    let n: usize = raw.len();
    let sx: u64 = (i % p) as u64 * m.width as u64;
    let sy: u64 = (i / p) as u64 * m.height as u64;
    assert(sx == m.left(i as int) && sy == m.top(i as int));
    let place: u64 = sy * w as u64 + sx;
    proof {
        let k = m.height as int - 1;
        let stride = w * bpp;
        assert(0 <= k * stride && 0 <= stride) by (nonlinear_arith)
            requires
                k >= 0,
                stride == w * bpp,
        ;
        assert(place <= place * bpp) by (nonlinear_arith)
            requires
                bpp >= 1,
        ;
    }
    let from: usize = place as usize * bpp;
    let len: usize = m.width as usize * bpp;
    let ghost stride = w * bpp;
    let mut out: Vec<u8> = Vec::new();
    let mut row: usize = 0;
    while row < m.height as usize
        invariant
            row <= m.height,
            n == raw@.len(),
            bpp == 1 || bpp == 4,
            stride == w * bpp,
            from + (m.height - 1) * stride + len <= n,
            out@ == block(raw@, from as int, stride, len as int, row as nat),
        decreases m.height - row,
    {
        proof {
            let k = m.height as int - 1;
            assert(0 <= row * stride <= k * stride) by (nonlinear_arith)
                requires
                    0 <= row <= k,
                    stride >= 0,
            ;
            assert(row * (w * bpp) == (row * w) * bpp) by (nonlinear_arith);
            assert(0 <= row * w <= (row * w) * bpp) by (nonlinear_arith)
                requires
                    bpp >= 1,
                    row >= 0,
            ;
        }
        let at: usize = from + row * w as usize * bpp;
        append_from(&mut out, raw, at, len);
        row += 1;
    }
    out
}

fn append_from(out: &mut Vec<u8>, raw: &Vec<u8>, at: usize, len: usize)
    requires
        at + len <= raw@.len(),
    ensures
        final(out)@ == old(out)@ + raw@.subrange(at as int, at + len),
{
    let ghost base = out@;
    let end: usize = raw.len();
    let mut i: usize = 0;
    assert(base + raw@.subrange(at as int, at as int) =~= base);
    while i < len
        invariant
            i <= len,
            at + len <= end == raw@.len(),
            out@ == base + raw@.subrange(at as int, at + i),
        decreases len - i,
    {
        out.push(raw[at + i]);
        assert(base + raw@.subrange(at as int, at + i + 1) =~= (base + raw@.subrange(at as int, at + i)).push(
            raw@[at + i],
        ));
        i += 1;
    }
}

/// What a list of frames holds.
pub open spec fn frames_of(v: Seq<Frame>) -> Seq<FrameModel> {
    v.map_values(|f: Frame| f@)
}

/// A frame that carries the box of its visible pixels.
pub open spec fn boxed(f: FrameModel) -> FrameModel {
    FrameModel { bbox: f.tight_bbox(), ..f }
}

/// Alpha per palette entry: what the picture says, and opaque where it says
/// nothing.
pub open spec fn alpha_table(palette: Seq<u8>, trns: Option<Seq<u8>>) -> Seq<u8> {
    Seq::new(
        palette.len() / 3,
        |i: int| if trns is Some && i < trns->0.len() { trns->0[i] } else { 255u8 },
    )
}

/// Frame `i` of a sheet of palette indices.
pub open spec fn indexed_frame(
    raw: Seq<u8>,
    w: u32,
    palette: Seq<u8>,
    pal_alpha: Seq<u8>,
    m: Manifest,
    i: int,
) -> FrameModel {
    boxed(
        FrameModel {
            w: m.width,
            h: m.height,
            idx: cell(raw, m, i, w, 1),
            palette,
            pal_alpha,
            alpha: Seq::empty(),
            rgba: Seq::empty(),
            bbox: None,
        },
    )
}

/// Every index of the first `n` frames names a palette entry.
pub open spec fn indices_valid(raw: Seq<u8>, w: u32, entries: nat, m: Manifest, n: int) -> bool {
    forall|i: int, k: int|
        #![trigger cell(raw, m, i, w, 1)[k]]
        0 <= i < n && 0 <= k < cell(raw, m, i, w, 1).len() ==> cell(raw, m, i, w, 1)[k] < entries
}

/// Frame `i` of a sheet of RGBA bytes whose colors are reduced to a palette;
/// its alpha is kept as it is.
pub open spec fn reduced_frame(raw: Seq<u8>, w: u32, palette: Seq<u8>, m: Manifest, i: int) -> FrameModel {
    let c = cell(raw, m, i, w, 4);
    let n = (m.width * m.height) as nat;
    boxed(
        FrameModel {
            w: m.width,
            h: m.height,
            idx: Seq::new(n, |p: int| nearest_in(palette, c[4 * p], c[4 * p + 1], c[4 * p + 2])),
            palette,
            pal_alpha: Seq::empty(),
            alpha: Seq::new(n, |p: int| c[4 * p + 3]),
            rgba: Seq::empty(),
            bbox: None,
        },
    )
}

/// Frame `i` of a sheet of RGBA bytes, as it is or brought to another size.
pub open spec fn plain_frame(raw: Seq<u8>, sw: u32, m: Manifest, i: int, w: u32, h: u32) -> FrameModel {
    let c = cell(raw, m, i, sw, 4);
    boxed(
        FrameModel {
            w,
            h,
            idx: Seq::empty(),
            palette: Seq::empty(),
            pal_alpha: Seq::empty(),
            alpha: Seq::empty(),
            rgba: if w == m.width && h == m.height {
                c
            } else {
                resized_in(c, m.width, m.height, w, h)
            },
            bbox: None,
        },
    )
}

/// What `image::imageops::resize` with the triangle filter makes of RGBA bytes.
pub uninterp spec fn resized_in(rgba: Seq<u8>, w: u32, h: u32, nw: u32, nh: u32) -> Seq<u8>;

/// The longest side of a picture that is resized. The filter places its pixels
/// with single-precision numbers, which tell neighbors apart up to here.
pub const LONGEST_SIDE: u32 = 4_194_304;

/// `image::imageops::resize` with the triangle filter: the picture in another
/// size is a function of the picture and the sizes, and has four bytes for each
/// of its pixels. It panics on sides so long that single precision leaves a
/// pixel without a weight; those are left out.
#[verifier::external_body]
pub(crate) fn resize_rgba(rgba: Vec<u8>, w: u32, h: u32, nw: u32, nh: u32) -> (r: Vec<u8>)
    requires
        rgba@.len() == 4 * w * h,
        0 < w <= LONGEST_SIDE,
        0 < h <= LONGEST_SIDE,
        nw <= LONGEST_SIDE,
        nh <= LONGEST_SIDE,
        16 * w * nh <= isize::MAX,
        4 * nw * nh <= isize::MAX,
    ensures
        r@ == resized_in(rgba@, w, h, nw, nh),
        r@.len() == 4 * nw * nh,
{
    let img = image::RgbaImage::from_raw(w, h, rgba).unwrap_or_default();
    image::imageops::resize(&img, nw, nh, image::imageops::FilterType::Triangle).into_raw()
}

/// What the head of a PNG file says.
#[derive(Debug)]
pub struct PngInfo {
    pub width: u32,
    pub height: u32,
    /// The number of the color type: 3 for palette indices, 6 for RGBA.
    pub color: u8,
    /// Bits per sample.
    pub depth: u8,
    pub palette: Option<Vec<u8>>,
    pub trns: Option<Vec<u8>>,
}

/// What a [`PngInfo`] holds.
pub struct PngModel {
    pub width: u32,
    pub height: u32,
    pub color: u8,
    pub depth: u8,
    pub palette: Option<Seq<u8>>,
    pub trns: Option<Seq<u8>>,
}

/// Bytes that may be missing.
pub open spec fn opt_bytes(o: Option<Vec<u8>>) -> Option<Seq<u8>> {
    match o {
        Some(v) => Some(v@),
        None => None,
    }
}

impl View for PngInfo {
    type V = PngModel;

    open spec fn view(&self) -> PngModel {
        PngModel {
            width: self.width,
            height: self.height,
            color: self.color,
            depth: self.depth,
            palette: opt_bytes(self.palette),
            trns: opt_bytes(self.trns),
        }
    }
}

impl PngModel {
    /// Palette indices of one byte each.
    pub open spec fn indexed(self) -> bool {
        self.color == 3 && self.depth == 8
    }

    /// RGBA samples of one byte each.
    pub open spec fn rgba(self) -> bool {
        self.color == 6 && self.depth == 8
    }

    /// How many bytes the pixels take, for the two kinds above.
    pub open spec fn size(self) -> int {
        if self.indexed() {
            self.width * self.height
        } else {
            self.width * self.height * 4
        }
    }
}

/// The pixels of a picture: its size and its bytes.
#[derive(Debug)]
pub struct Pixels {
    pub width: u32,
    pub height: u32,
    pub raw: Vec<u8>,
}

/// What [`Pixels`] hold.
pub struct PixelsModel {
    pub width: u32,
    pub height: u32,
    pub raw: Seq<u8>,
}

impl View for Pixels {
    type V = PixelsModel;

    open spec fn view(&self) -> PixelsModel {
        PixelsModel { width: self.width, height: self.height, raw: self.raw@ }
    }
}

/// What the head of PNG bytes says, as `png::Decoder` reads it.
pub uninterp spec fn png_info_in(bytes: Seq<u8>) -> Option<PngModel>;

/// The pixels of PNG bytes, as `png::Reader` reads them.
pub uninterp spec fn png_pixels_in(bytes: Seq<u8>) -> Option<PixelsModel>;

/// The RGBA pixels of PNG bytes, as the `image` crate reads them, or what is
/// wrong with them.
pub uninterp spec fn image_in(bytes: Seq<u8>) -> Result<PixelsModel, Seq<char>>;

/// What an optional [`PngInfo`] holds.
pub open spec fn opt_info(o: Option<PngInfo>) -> Option<PngModel> {
    match o {
        Some(i) => Some(i@),
        None => None,
    }
}

/// What optional [`Pixels`] hold.
pub open spec fn opt_pixels(o: Option<Pixels>) -> Option<PixelsModel> {
    match o {
        Some(p) => Some(p@),
        None => None,
    }
}

/// `png::Decoder::read_info`: the head of a picture is a function of its bytes.
#[verifier::external_body]
fn png_info(bytes: &[u8]) -> (r: Option<PngInfo>)
    ensures
        opt_info(r) == png_info_in(bytes@),
{
    let reader = png::Decoder::new(std::io::Cursor::new(bytes)).read_info().ok()?;
    let info = reader.info();
    Some(PngInfo {
        width: info.width,
        height: info.height,
        color: info.color_type as u8,
        depth: info.bit_depth as u8,
        palette: info.palette.as_ref().map(|p| p.to_vec()),
        trns: info.trns.as_ref().map(|t| t.to_vec()),
    })
}

/// `png::Reader::next_frame` into a buffer of `output_buffer_size` bytes: the
/// pixels are a function of the bytes. The decoder transforms nothing, so the
/// buffer holds one byte per pixel for indices of eight bits and four for RGBA
/// samples of eight bits.
#[verifier::external_body]
fn png_pixels(bytes: &[u8]) -> (r: Option<Pixels>)
    ensures
        opt_pixels(r) == png_pixels_in(bytes@),
        r is Some ==> png_info_in(bytes@) is Some && (png_info_in(bytes@)->0.indexed() || png_info_in(bytes@)->0.rgba()
            ==> r->0.raw@.len() == png_info_in(bytes@)->0.size()),
{
    let mut reader = png::Decoder::new(std::io::Cursor::new(bytes)).read_info().ok()?;
    let mut raw = vec![0u8; reader.output_buffer_size()?];
    let out = reader.next_frame(&mut raw).ok()?;
    Some(Pixels { width: out.width, height: out.height, raw })
}

/// `image::load_from_memory_with_format` and `to_rgba8`: the RGBA pixels of a
/// picture, or what is wrong with it, are a function of its bytes. A picture
/// has four bytes for each of its pixels.
#[verifier::external_body]
pub(crate) fn image_pixels(bytes: &[u8]) -> (r: Result<Pixels, String>)
    ensures
        match r {
            Ok(p) => image_in(bytes@) == Ok::<PixelsModel, Seq<char>>(p@),
            Err(e) => image_in(bytes@) == Err::<PixelsModel, Seq<char>>(e@),
        },
        r is Ok ==> r->Ok_0.raw@.len() >= r->Ok_0.width * r->Ok_0.height * 4,
{
    match image::load_from_memory_with_format(bytes, image::ImageFormat::Png) {
        Ok(img) => {
            let img = img.to_rgba8();
            Ok(Pixels { width: img.width(), height: img.height(), raw: img.into_raw() })
        },
        Err(e) => Err(e.to_string()),
    }
}

/// What the compact form of a sheet comes to.
pub enum Compact {
    /// The sheet has no compact form.
    No,
    /// A pixel names a palette entry that does not exist.
    BadIndex,
    Frames(Vec<Frame>),
}

/// What a [`Compact`] holds.
pub enum CompactModel {
    No,
    BadIndex,
    Frames(Seq<FrameModel>),
}

impl View for Compact {
    type V = CompactModel;

    open spec fn view(&self) -> CompactModel {
        match *self {
            Compact::No => CompactModel::No,
            Compact::BadIndex => CompactModel::BadIndex,
            Compact::Frames(v) => CompactModel::Frames(frames_of(v@)),
        }
    }
}

/// The compact form of a sheet of palette indices.
pub open spec fn compact_indexed(raw: Seq<u8>, info: PngModel, palette: Seq<u8>, m: Manifest) -> CompactModel {
    let pal_alpha = alpha_table(palette, info.trns);
    if !indices_valid(raw, info.width, pal_alpha.len(), m, m.frame_count as int) {
        CompactModel::BadIndex
    } else {
        CompactModel::Frames(
            Seq::new(
                m.frame_count as nat,
                |i: int| indexed_frame(raw, info.width, palette, pal_alpha, m, i),
            ),
        )
    }
}

/// The compact form of a sheet of RGBA bytes: one palette for all frames.
pub open spec fn compact_rgba(raw: Seq<u8>, info: PngModel, m: Manifest) -> CompactModel {
    let palette = palette_of(tints_of(raw, (info.width * info.height) as nat), 256);
    CompactModel::Frames(Seq::new(m.frame_count as nat, |i: int| reduced_frame(raw, info.width, palette, m, i)))
}

/// The compact form of a sheet, given its head and its pixels. Sheets of
/// palette indices and of RGBA bytes have one, if they hold all frames.
pub open spec fn compact_of(info: Option<PngModel>, pixels: Option<PixelsModel>, m: Manifest) -> CompactModel {
    match info {
        None => CompactModel::No,
        Some(i) => if !m.within(i.width, i.height) {
            CompactModel::No
        } else if i.indexed() {
            match (i.palette, pixels) {
                (Some(palette), Some(p)) => compact_indexed(p.raw, i, palette, m),
                _ => CompactModel::No,
            }
        } else if i.rgba() {
            match pixels {
                Some(p) => if p.width != i.width || p.height != i.height {
                    CompactModel::No
                } else {
                    compact_rgba(p.raw, i, m)
                },
                None => CompactModel::No,
            }
        } else {
            CompactModel::No
        },
    }
}

fn build_alpha_table(palette: &Vec<u8>, trns: &Option<Vec<u8>>) -> (r: Vec<u8>)
    ensures
        r@ == alpha_table(palette@, opt_bytes(*trns)),
{
    let n: usize = palette.len() / 3;
    let mut out: Vec<u8> = Vec::new();
    let mut i: usize = 0;
    let ghost goal = alpha_table(palette@, opt_bytes(*trns));
    while i < n
        invariant
            i <= n == palette@.len() / 3,
            goal == alpha_table(palette@, opt_bytes(*trns)),
            out@ == goal.take(i as int),
        decreases n - i,
    {
        let a: u8 = match trns {
            Some(t) => if i < t.len() {
                t[i]
            } else {
                255
            },
            None => 255,
        };
        out.push(a);
        assert(goal.take(i as int + 1) =~= goal.take(i as int).push(goal[i as int]));
        i += 1;
    }
    assert(goal.take(n as int) =~= goal);
    out
}

fn all_below(v: &Vec<u8>, entries: usize) -> (r: bool)
    ensures
        r == forall|k: int| 0 <= k < v@.len() ==> #[trigger] v@[k] < entries,
{
    let mut i: usize = 0;
    let n: usize = v.len();
    while i < n
        invariant
            i <= n == v@.len(),
            forall|k: int| 0 <= k < i ==> #[trigger] v@[k] < entries,
        decreases n - i,
    {
        if v[i] as usize >= entries {
            return false;
        }
        i += 1;
    }
    true
}

fn copy_bytes(v: &Vec<u8>) -> (r: Vec<u8>)
    ensures
        r@ == v@,
{
    let r = bytes_between(v.as_slice(), 0, v.len());
    assert(r@ =~= v@);
    r
}

/// Gives a frame the box of its visible pixels.
fn with_bbox(f: Frame) -> (r: Frame)
    requires
        f@.complete(),
        f.bbox is None,
    ensures
        r@ == boxed(f@),
{
    let mut g = f;
    g.bbox = g.scan_bbox();
    g
}

fn build_indexed(raw: &Vec<u8>, info: &PngInfo, palette: &Vec<u8>, m: &Manifest) -> (r: Compact)
    requires
        m.countable(),
        m.within(info.width, info.height),
        m.width > 0,
        m.height > 0,
        raw@.len() == info.width * info.height,
    ensures
        r@ == compact_indexed(raw@, info@, palette@, *m),
{
    let pal_alpha = build_alpha_table(palette, &info.trns);
    let entries: usize = pal_alpha.len();
    let w: u32 = info.width;
    let mut frames: Vec<Frame> = Vec::new();
    let mut i: usize = 0;
    let ghost goal = Seq::new(
        m.frame_count as nat,
        |i: int| indexed_frame(raw@, w, palette@, pal_alpha@, *m, i),
    );
    while i < m.frame_count
        invariant
            i <= m.frame_count,
            m.countable(),
            m.within(info.width, info.height),
            m.width > 0,
            m.height > 0,
            w == info.width,
            entries == pal_alpha@.len(),
            raw@.len() == info.width * info.height,
            pal_alpha@ == alpha_table(palette@, info@.trns),
            goal == Seq::new(
                m.frame_count as nat,
                |i: int| indexed_frame(raw@, w, palette@, pal_alpha@, *m, i),
            ),
            indices_valid(raw@, w, entries as nat, *m, i as int),
            frames_of(frames@) == goal.take(i as int),
        decreases m.frame_count - i,
    {
        let idx = cut_cell(raw, m, i, w, info.height, 1);
        if !all_below(&idx, entries) {
            proof {
                let k = choose|k: int| 0 <= k < idx@.len() && !(#[trigger] idx@[k] < entries);
                assert(!(cell(raw@, *m, i as int, w, 1)[k] < entries));
            }
            return Compact::BadIndex;
        }
        let f = Frame {
            w: m.width,
            h: m.height,
            idx,
            palette: copy_bytes(palette),
            pal_alpha: copy_bytes(&pal_alpha),
            alpha: Vec::new(),
            rgba: Vec::new(),
            bbox: None,
        };
        proof {
            assert(f@.complete()) by {
                assert(f@.pixels() == m.width * 1 * m.height);
                assert forall|off: int| 0 <= off < f@.pixels() implies #[trigger] f@.readable(off) by {
                    assert(idx@[off] < entries);
                }
            }
        }
        let ghost before = frames_of(frames@);
        frames.push(with_bbox(f));
        proof {
            assert(f@ =~= (FrameModel {
                w: m.width,
                h: m.height,
                idx: cell(raw@, *m, i as int, w, 1),
                palette: palette@,
                pal_alpha: pal_alpha@,
                alpha: Seq::empty(),
                rgba: Seq::empty(),
                bbox: None,
            }));
            assert(frames_of(frames@) =~= before.push(goal[i as int]));
            assert(goal.take(i as int + 1) =~= goal.take(i as int).push(goal[i as int]));
        }
        i += 1;
    }
    assert(goal.take(i as int) =~= goal);
    Compact::Frames(frames)
}

/// The palette entry for each tint of a picture.
fn build_lookup(tally: &Tally, palette: &Vec<u8>) -> (r: Vec<u8>)
    requires
        palette@.len() % 3 == 0,
    ensures
        r@.len() == tally@.len(),
        forall|i: int|
            0 <= i < tally@.len() ==> #[trigger] r@[i] == nearest_in(
                palette@,
                tally@[i].r,
                tally@[i].g,
                tally@[i].b,
            ),
{
    let tints = tally.tints();
    let mut out: Vec<u8> = Vec::new();
    let mut i: usize = 0;
    let n: usize = tints.len();
    while i < n
        invariant
            i <= n == tints@.len(),
            tints@ == tally@,
            palette@.len() % 3 == 0,
            out@.len() == i,
            forall|j: int|
                0 <= j < i ==> #[trigger] out@[j] == nearest_in(palette@, tally@[j].r, tally@[j].g, tally@[j].b),
        decreases n - i,
    {
        let t: Tint = tints[i];
        out.push(nearest_palette_index(t.r, t.g, t.b, palette));
        i += 1;
    }
    out
}

fn copy_tints(v: &Vec<Tint>) -> (r: Vec<Tint>)
    ensures
        r@ == v@,
{
    let mut out: Vec<Tint> = Vec::new();
    let mut i: usize = 0;
    let n: usize = v.len();
    while i < n
        invariant
            i <= n == v@.len(),
            out@ == v@.take(i as int),
        decreases n - i,
    {
        out.push(v[i]);
        assert(v@.take(i as int + 1) =~= v@.take(i as int).push(v@[i as int]));
        i += 1;
    }
    assert(v@.take(n as int) =~= v@);
    out
}

/// The indices and alphas of a frame's RGBA bytes.
fn reduce_cell(c: &Vec<u8>, tally: &Tally, lookup: &Vec<u8>, palette: &Vec<u8>) -> (r: (Vec<u8>, Vec<u8>))
    requires
        palette@.len() % 3 == 0,
        c@.len() % 4 == 0,
        lookup@.len() == tally@.len(),
        forall|i: int|
            0 <= i < tally@.len() ==> #[trigger] lookup@[i] == nearest_in(
                palette@,
                tally@[i].r,
                tally@[i].g,
                tally@[i].b,
            ),
    ensures
        r.0@ == Seq::new(
            c@.len() / 4,
            |p: int| nearest_in(palette@, c@[4 * p], c@[4 * p + 1], c@[4 * p + 2]),
        ),
        r.1@ == Seq::new(c@.len() / 4, |p: int| c@[4 * p + 3]),
{
    let n: usize = c.len() / 4;
    let len: usize = c.len();
    let mut idx: Vec<u8> = Vec::new();
    let mut alpha: Vec<u8> = Vec::new();
    let mut p: usize = 0;
    while p < n
        invariant
            p <= n,
            4 * n == len == c@.len(),
            palette@.len() % 3 == 0,
            lookup@.len() == tally@.len(),
            forall|i: int|
                0 <= i < tally@.len() ==> #[trigger] lookup@[i] == nearest_in(
                    palette@,
                    tally@[i].r,
                    tally@[i].g,
                    tally@[i].b,
                ),
            idx@.len() == p,
            alpha@.len() == p,
            forall|q: int|
                0 <= q < p ==> #[trigger] idx@[q] == nearest_in(palette@, c@[4 * q], c@[4 * q + 1], c@[4 * q + 2]),
            forall|q: int| 0 <= q < p ==> #[trigger] alpha@[q] == c@[4 * q + 3],
        decreases n - p,
    {
        let (r, g, b) = (c[4 * p], c[4 * p + 1], c[4 * p + 2]);
        let at: usize = tally.place(r, g, b);
        let v: u8 = if at < lookup.len() {
            lookup[at]
        } else {
            nearest_palette_index(r, g, b, palette)
        };
        idx.push(v);
        alpha.push(c[4 * p + 3]);
        p += 1;
    }
    assert(idx@ =~= Seq::new(
        c@.len() / 4,
        |p: int| nearest_in(palette@, c@[4 * p], c@[4 * p + 1], c@[4 * p + 2]),
    ));
    assert(alpha@ =~= Seq::new(c@.len() / 4, |p: int| c@[4 * p + 3]));
    (idx, alpha)
}

fn build_reduced(raw: &Vec<u8>, info: &PngInfo, m: &Manifest) -> (r: Compact)
    requires
        m.countable(),
        m.within(info.width, info.height),
        m.width > 0,
        m.height > 0,
        raw@.len() == info.width * info.height * 4,
    ensures
        r@ == compact_rgba(raw@, info@, *m),
{
    let w: u32 = info.width;
    proof {
        lemma_small_product(w as int, info.height as int);
        law_every_pixel_counted(raw@, (w * info.height) as nat);
        law_palette_bounded(tints_of(raw@, (w * info.height) as nat), 256);
        assert(raw.len() == raw@.len());
    }
    let count: u64 = w as u64 * info.height as u64;
    let tally = Tally::of(raw, count as usize);
    let palette = quantize_palette(copy_tints(tally.tints()), 256);
    let lookup = build_lookup(&tally, &palette);
    let mut frames: Vec<Frame> = Vec::new();
    let mut i: usize = 0;
    let ghost goal = Seq::new(m.frame_count as nat, |i: int| reduced_frame(raw@, w, palette@, *m, i));
    while i < m.frame_count
        invariant
            i <= m.frame_count,
            m.countable(),
            m.within(info.width, info.height),
            m.width > 0,
            m.height > 0,
            w == info.width,
            raw@.len() == info.width * info.height * 4,
            palette@.len() % 3 == 0,
            lookup@.len() == tally@.len(),
            forall|i: int|
                0 <= i < tally@.len() ==> #[trigger] lookup@[i] == nearest_in(
                    palette@,
                    tally@[i].r,
                    tally@[i].g,
                    tally@[i].b,
                ),
            goal == Seq::new(m.frame_count as nat, |i: int| reduced_frame(raw@, w, palette@, *m, i)),
            frames_of(frames@) == goal.take(i as int),
        decreases m.frame_count - i,
    {
        let c = cut_cell(raw, m, i, w, info.height, 4);
        let ghost n = (m.width * m.height) as nat;
        proof {
            assert(m.width * 4 * m.height == 4 * n) by (nonlinear_arith)
                requires
                    n == m.width * m.height,
            ;
            assert(m.width * m.height > 0) by (nonlinear_arith)
                requires
                    m.width > 0,
                    m.height > 0,
            ;
        }
        let (idx, alpha) = reduce_cell(&c, &tally, &lookup, &palette);
        let f = Frame {
            w: m.width,
            h: m.height,
            idx,
            palette: copy_bytes(&palette),
            pal_alpha: Vec::new(),
            alpha,
            rgba: Vec::new(),
            bbox: None,
        };
        proof {
            assert(f@.complete()) by {
                assert(f@.pixels() == n);
                assert forall|off: int| 0 <= off < f@.pixels() implies #[trigger] f@.readable(off) by {
                    assert(off < alpha@.len());
                }
            }
        }
        let ghost before = frames_of(frames@);
        frames.push(with_bbox(f));
        proof {
            let cc = cell(raw@, *m, i as int, w, 4);
            assert(f@ =~= (FrameModel {
                w: m.width,
                h: m.height,
                idx: Seq::new(n, |p: int| nearest_in(palette@, cc[4 * p], cc[4 * p + 1], cc[4 * p + 2])),
                palette: palette@,
                pal_alpha: Seq::empty(),
                alpha: Seq::new(n, |p: int| cc[4 * p + 3]),
                rgba: Seq::empty(),
                bbox: None,
            }));
            assert(frames_of(frames@) =~= before.push(goal[i as int]));
            assert(goal.take(i as int + 1) =~= goal.take(i as int).push(goal[i as int]));
        }
        i += 1;
    }
    assert(goal.take(i as int) =~= goal);
    Compact::Frames(frames)
}

/// Makes the compact form of a sheet out of its head and its pixels.
pub fn compact_frames(info: &Option<PngInfo>, pixels: &Option<Pixels>, m: &Manifest) -> (r: Compact)
    requires
        m.countable(),
        m.width > 0,
        m.height > 0,
        info is Some && pixels is Some && (info->0@.indexed() || info->0@.rgba()) ==> pixels->0.raw@.len()
            == info->0@.size(),
    ensures
        r@ == compact_of(opt_info(*info), opt_pixels(*pixels), *m),
{
    let i = match info {
        Some(i) => i,
        None => {
            return Compact::No;
        },
    };
    if i.width < m.per_row_of() * m.width || i.height < m.rows_of() * m.height {
        return Compact::No;
    }
    if i.color == 3 && i.depth == 8 {
        match (&i.palette, pixels) {
            (Some(palette), Some(p)) => build_indexed(&p.raw, i, palette, m),
            _ => Compact::No,
        }
    } else if i.color == 6 && i.depth == 8 {
        match pixels {
            Some(p) => if p.width != i.width || p.height != i.height {
                Compact::No
            } else {
                build_reduced(&p.raw, i, m)
            },
            None => Compact::No,
        }
    } else {
        Compact::No
    }
}

/// Why a sheet gives no animation.
#[derive(Debug)]
pub enum SheetError {
    /// The manifest does not say how many frames there are.
    NoFrameCount,
    /// A frame has no area.
    CellSize(u32, u32),
    /// A pixel names a palette entry that does not exist.
    BadIndex,
    /// The picture cannot be read.
    Image(String),
    /// The picture is smaller than the grid: its size, and the size needed.
    TooSmall(u32, u32, u32, u32),
}

/// What a [`SheetError`] holds.
pub enum SheetErrorModel {
    NoFrameCount,
    CellSize(u32, u32),
    BadIndex,
    Image(Seq<char>),
    TooSmall(u32, u32, u32, u32),
}

impl View for SheetError {
    type V = SheetErrorModel;

    open spec fn view(&self) -> SheetErrorModel {
        match *self {
            SheetError::NoFrameCount => SheetErrorModel::NoFrameCount,
            SheetError::CellSize(w, h) => SheetErrorModel::CellSize(w, h),
            SheetError::BadIndex => SheetErrorModel::BadIndex,
            SheetError::Image(e) => SheetErrorModel::Image(e@),
            SheetError::TooSmall(a, b, c, d) => SheetErrorModel::TooSmall(a, b, c, d),
        }
    }
}

/// The frames of a sheet of RGBA bytes, each brought to the size `w` by `h`, or
/// why there are none.
pub open spec fn plain_of(img: PixelsModel, m: Manifest, w: u32, h: u32) -> Result<Seq<FrameModel>, SheetErrorModel> {
    if !m.within(img.width, img.height) {
        Err(
            SheetErrorModel::TooSmall(
                img.width,
                img.height,
                (m.per_row() * m.width) as u32,
                (m.rows() * m.height) as u32,
            ),
        )
    } else {
        Ok(Seq::new(m.frame_count as nat, |i: int| plain_frame(img.raw, img.width, m, i, w, h)))
    }
}

/// Pictures of the size `w` by `h` can be made of frames: it is the size that
/// they have, or one that they can be brought to.
pub open spec fn sizable(m: Manifest, w: u32, h: u32) -> bool {
    &&& w > 0
    &&& h > 0
    &&& (w == m.width && h == m.height) || {
        &&& m.width <= LONGEST_SIDE
        &&& m.height <= LONGEST_SIDE
        &&& w <= LONGEST_SIDE
        &&& h <= LONGEST_SIDE
        &&& 16 * m.width * h <= isize::MAX
        &&& 4 * w * h <= isize::MAX
    }
}

/// Makes the frames of a sheet of RGBA bytes.
pub fn plain_frames(img: &Pixels, m: &Manifest, w: u32, h: u32) -> (r: Result<Vec<Frame>, SheetError>)
    requires
        m.countable(),
        m.width > 0,
        m.height > 0,
        img.raw@.len() >= img.width * img.height * 4,
        sizable(*m, w, h),
    ensures
        match r {
            Ok(v) => plain_of(img@, *m, w, h) == Ok::<Seq<FrameModel>, SheetErrorModel>(frames_of(v@)),
            Err(e) => plain_of(img@, *m, w, h) == Err::<Seq<FrameModel>, SheetErrorModel>(e@),
        },
{
    let need_w: u32 = m.per_row_of() * m.width;
    let need_h: u32 = m.rows_of() * m.height;
    if img.width < need_w || img.height < need_h {
        return Err(SheetError::TooSmall(img.width, img.height, need_w, need_h));
    }
    let mut frames: Vec<Frame> = Vec::new();
    let mut i: usize = 0;
    let ghost goal = Seq::new(m.frame_count as nat, |i: int| plain_frame(img.raw@, img.width, *m, i, w, h));
    while i < m.frame_count
        invariant
            i <= m.frame_count,
            m.countable(),
            m.within(img.width, img.height),
            m.width > 0,
            m.height > 0,
            img.raw@.len() >= img.width * img.height * 4,
            sizable(*m, w, h),
            goal == Seq::new(m.frame_count as nat, |i: int| plain_frame(img.raw@, img.width, *m, i, w, h)),
            frames_of(frames@) == goal.take(i as int),
        decreases m.frame_count - i,
    {
        let c = cut_cell(&img.raw, m, i, img.width, img.height, 4);
        proof {
            assert(m.width * 4 * m.height == 4 * m.width * m.height) by (nonlinear_arith);
            assert(4 * w * h == 4 * (w * h)) by (nonlinear_arith);
            assert(w * h > 0) by (nonlinear_arith)
                requires
                    w > 0,
                    h > 0,
            ;
        }
        let rgba = if w == m.width && h == m.height {
            c
        } else {
            resize_rgba(c, m.width, m.height, w, h)
        };
        let f = Frame {
            w,
            h,
            idx: Vec::new(),
            palette: Vec::new(),
            pal_alpha: Vec::new(),
            alpha: Vec::new(),
            rgba,
            bbox: None,
        };
        proof {
            assert(f@.complete()) by {
                assert(f@.pixels() == w * h);
                assert(rgba@.len() == 4 * (w * h));
            }
        }
        let ghost before = frames_of(frames@);
        frames.push(with_bbox(f));
        proof {
            let cc = cell(img.raw@, *m, i as int, img.width, 4);
            assert(f@ =~= (FrameModel {
                w,
                h,
                idx: Seq::empty(),
                palette: Seq::empty(),
                pal_alpha: Seq::empty(),
                alpha: Seq::empty(),
                rgba: if w == m.width && h == m.height {
                    cc
                } else {
                    resized_in(cc, m.width, m.height, w, h)
                },
                bbox: None,
            }));
            assert(frames_of(frames@) =~= before.push(goal[i as int]));
            assert(goal.take(i as int + 1) =~= goal.take(i as int).push(goal[i as int]));
        }
        i += 1;
    }
    assert(goal.take(i as int) =~= goal);
    Ok(frames)
}

/// The frames of a sheet, given what its bytes hold, or why there are none. At
/// its own size a sheet is kept in its compact form if it has one.
pub open spec fn sheet_frames(
    info: Option<PngModel>,
    pixels: Option<PixelsModel>,
    image: Result<PixelsModel, Seq<char>>,
    m: Manifest,
    w: u32,
    h: u32,
) -> Result<Seq<FrameModel>, SheetErrorModel> {
    let compact = if w == m.width && h == m.height {
        compact_of(info, pixels, m)
    } else {
        CompactModel::No
    };
    if m.frame_count == 0 {
        Err(SheetErrorModel::NoFrameCount)
    } else if m.width == 0 || m.height == 0 {
        Err(SheetErrorModel::CellSize(m.width, m.height))
    } else {
        match compact {
            CompactModel::Frames(v) => Ok(v),
            CompactModel::BadIndex => Err(SheetErrorModel::BadIndex),
            CompactModel::No => match image {
                Err(e) => Err(SheetErrorModel::Image(e)),
                Ok(img) => plain_of(img, m, w, h),
            },
        }
    }
}

/// The time per frame, for every frame.
pub open spec fn uniform_ms(frame_ms: u32, n: nat) -> Seq<u32> {
    let ms = if frame_ms < 1 {
        1u32
    } else if frame_ms > 2000 {
        2000u32
    } else {
        frame_ms
    };
    Seq::new(n, |i: int| ms)
}

fn build_durations(frame_ms: u32, n: usize) -> (r: Vec<u32>)
    ensures
        r@ == uniform_ms(frame_ms, n as nat),
{
    let ms: u32 = frame_ms_safe(frame_ms);
    let mut out: Vec<u32> = Vec::new();
    let mut i: usize = 0;
    while i < n
        invariant
            i <= n,
            out@.len() == i,
            forall|j: int| 0 <= j < i ==> out@[j] == ms,
        decreases n - i,
    {
        out.push(ms);
        i += 1;
    }
    assert(out@ =~= uniform_ms(frame_ms, n as nat));
    out
}

/// Makes the animation `state` out of the bytes of its sheet: its frames are
/// cut out of the grid, brought to the size `w` by `h`, and shown for the same
/// time each.
pub fn load_sheet(
    state: &str,
    m: &Manifest,
    bytes: &[u8],
    w: u32,
    h: u32,
    frame_ms: u32,
) -> (r: Result<Animation, SheetError>)
    requires
        m.countable(),
        m.width > 0 && m.height > 0 ==> sizable(*m, w, h),
    ensures
        match r {
            Ok(a) => {
                &&& sheet_frames(png_info_in(bytes@), png_pixels_in(bytes@), image_in(bytes@), *m, w, h) == Ok::<
                    Seq<FrameModel>,
                    SheetErrorModel,
                >(frames_of(a.frames@))
                &&& a.name@ == state@
                &&& a.durations_ms@ == uniform_ms(frame_ms, m.frame_count as nat)
                &&& a.valid()
            },
            Err(e) => sheet_frames(png_info_in(bytes@), png_pixels_in(bytes@), image_in(bytes@), *m, w, h) == Err::<
                Seq<FrameModel>,
                SheetErrorModel,
            >(e@),
        },
{
    if m.frame_count == 0 {
        return Err(SheetError::NoFrameCount);
    }
    if m.width == 0 || m.height == 0 {
        return Err(SheetError::CellSize(m.width, m.height));
    }
    let durations_ms = build_durations(frame_ms, m.frame_count);
    if w == m.width && h == m.height {
        let info = png_info(bytes);
        let pixels = png_pixels(bytes);
        match compact_frames(&info, &pixels, m) {
            Compact::Frames(frames) => {
                assert(frames_of(frames@).len() == m.frame_count);
                return Ok(Animation { name: own(state), frames, durations_ms });
            },
            Compact::BadIndex => {
                return Err(SheetError::BadIndex);
            },
            Compact::No => {},
        }
    }
    let img = match image_pixels(bytes) {
        Ok(p) => p,
        Err(e) => {
            return Err(SheetError::Image(e));
        },
    };
    match plain_frames(&img, m, w, h) {
        Ok(frames) => {
            assert(frames_of(frames@).len() == m.frame_count);
            Ok(Animation { name: own(state), frames, durations_ms })
        },
        Err(e) => Err(e),
    }
}

/// Reducing colors leaves the alpha of every pixel as it was.
pub proof fn law_alpha_stays_exact(raw: Seq<u8>, w: u32, palette: Seq<u8>, m: Manifest, i: int, p: int)
    requires
        0 <= p < m.width * m.height,
    ensures
        reduced_frame(raw, w, palette, m, i).alpha_at(p) == cell(raw, m, i, w, 4)[4 * p + 3],
{
}

/// Every pixel of a frame with reduced colors names an entry of the palette,
/// and none is nearer to its color.
pub proof fn law_reduced_pixels_are_nearest(raw: Seq<u8>, w: u32, palette: Seq<u8>, m: Manifest, i: int, p: int)
    requires
        0 <= p < m.width * m.height,
        3 <= palette.len() <= 768,
    ensures
        ({
            let c = cell(raw, m, i, w, 4);
            is_nearest(
                palette,
                reduced_frame(raw, w, palette, m, i).idx[p] as int,
                c[4 * p],
                c[4 * p + 1],
                c[4 * p + 2],
            )
        }),
{
    let c = cell(raw, m, i, w, 4);
    lemma_nearest_in(palette, c[4 * p], c[4 * p + 1], c[4 * p + 2]);
}

/// The frames of a sheet are as many as its manifest says.
pub proof fn law_frame_count(
    info: Option<PngModel>,
    pixels: Option<PixelsModel>,
    image: Result<PixelsModel, Seq<char>>,
    m: Manifest,
    w: u32,
    h: u32,
)
    ensures
        sheet_frames(info, pixels, image, m, w, h) matches Ok(v) ==> v.len() == m.frame_count && v.len() > 0,
{
}

} // verus!
