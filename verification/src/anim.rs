//! Animations: frames in their compact and plain forms, the box that their
//! visible pixels fill, and the schedule by which frames are shown.

use vstd::prelude::*;

use crate::text::{chars_of, joined, own};

verus! {

/// A picture of an animation, in one of three forms: palette indices with an
/// alpha per palette entry, palette indices with an alpha per pixel, or plain
/// RGBA bytes.
#[derive(Debug, Clone)]
pub struct Frame {
    pub w: u32,
    pub h: u32,
    /// Palette indices, one per pixel.
    pub idx: Vec<u8>,
    /// Palette colors, three bytes per entry.
    pub palette: Vec<u8>,
    /// Alpha per palette entry.
    pub pal_alpha: Vec<u8>,
    /// Alpha per pixel; takes the place of `pal_alpha` where it is not empty.
    pub alpha: Vec<u8>,
    /// RGBA bytes; take the place of all the others where they are not empty.
    pub rgba: Vec<u8>,
    /// The box of the visible pixels, where it is known.
    pub bbox: Option<(i32, i32, i32, i32)>,
}

/// What a [`Frame`] holds.
#[verifier::ext_equal]
pub struct FrameModel {
    pub w: u32,
    pub h: u32,
    pub idx: Seq<u8>,
    pub palette: Seq<u8>,
    pub pal_alpha: Seq<u8>,
    pub alpha: Seq<u8>,
    pub rgba: Seq<u8>,
    pub bbox: Option<(i32, i32, i32, i32)>,
}

impl View for Frame {
    type V = FrameModel;

    open spec fn view(&self) -> FrameModel {
        FrameModel {
            w: self.w,
            h: self.h,
            idx: self.idx@,
            palette: self.palette@,
            pal_alpha: self.pal_alpha@,
            alpha: self.alpha@,
            rgba: self.rgba@,
            bbox: self.bbox,
        }
    }
}

impl FrameModel {
    /// The data for the alpha of pixel `off` is there.
    pub open spec fn readable(self, off: int) -> bool {
        if self.rgba.len() > 0 {
            0 <= off && off * 4 + 3 < self.rgba.len()
        } else if self.alpha.len() > 0 {
            0 <= off < self.alpha.len()
        } else {
            0 <= off < self.idx.len() && self.idx[off] < self.pal_alpha.len()
        }
    }

    /// The alpha of pixel `off`.
    pub open spec fn alpha_at(self, off: int) -> u8 {
        if self.rgba.len() > 0 {
            self.rgba[off * 4 + 3]
        } else if self.alpha.len() > 0 {
            self.alpha[off]
        } else {
            self.pal_alpha[self.idx[off] as int]
        }
    }

    /// How many pixels the frame has.
    pub open spec fn pixels(self) -> int {
        self.w as int * self.h as int
    }

    /// The frame has pixels to look at: its size is positive and the indices of
    /// a compact frame match it.
    pub open spec fn has_pixels(self) -> bool {
        &&& 0 < self.w <= i32::MAX
        &&& 0 < self.h <= i32::MAX
        &&& self.rgba.len() > 0 || self.idx.len() == self.pixels()
    }

    /// The data of every pixel is there, if the frame has pixels to look at.
    pub open spec fn complete(self) -> bool {
        self.has_pixels() ==> forall|off: int| 0 <= off < self.pixels() ==> #[trigger] self.readable(off)
    }

    /// The pixel at column `x` and row `y` can be seen.
    pub open spec fn visible(self, x: int, y: int) -> bool {
        self.has_pixels() && 0 <= x < self.w && 0 <= y < self.h && self.alpha_at(y * self.w + x) != 0
    }

    /// A pixel of column `x` can be seen.
    pub open spec fn column_used(self, x: int) -> bool {
        exists|y: int| #[trigger] self.visible(x, y)
    }

    /// A pixel of row `y` can be seen.
    pub open spec fn row_used(self, y: int) -> bool {
        exists|x: int| #[trigger] self.visible(x, y)
    }

    /// `b` is the smallest box around the visible pixels.
    pub open spec fn is_bbox(self, b: Option<(i32, i32, i32, i32)>) -> bool {
        match b {
            None => forall|x: int, y: int| !#[trigger] self.visible(x, y),
            Some((x0, y0, w, h)) => {
                &&& forall|x: int, y: int| #[trigger]
                    self.visible(x, y) ==> x0 <= x < x0 + w && y0 <= y < y0 + h
                &&& self.column_used(x0 as int)
                &&& self.column_used(x0 + w - 1)
                &&& self.row_used(y0 as int)
                &&& self.row_used(y0 + h - 1)
            },
        }
    }

    /// The smallest box around the visible pixels.
    pub open spec fn tight_bbox(self) -> Option<(i32, i32, i32, i32)> {
        choose|b: Option<(i32, i32, i32, i32)>| self.is_bbox(b)
    }
}

/// There is only one smallest box.
pub proof fn lemma_bbox_unique(f: FrameModel, a: Option<(i32, i32, i32, i32)>, b: Option<(i32, i32, i32, i32)>)
    requires
        f.is_bbox(a),
        f.is_bbox(b),
    ensures
        a == b,
        f.tight_bbox() == a,
{
    lemma_bbox_same(f, a, b);
    lemma_bbox_same(f, a, f.tight_bbox());
}

proof fn lemma_bbox_same(f: FrameModel, a: Option<(i32, i32, i32, i32)>, b: Option<(i32, i32, i32, i32)>)
    requires
        f.is_bbox(a),
        f.is_bbox(b),
    ensures
        a == b,
{
    if a is Some {
        assert(f.column_used((a->0).0 as int));
    }
    if b is Some {
        assert(f.column_used((b->0).0 as int));
    }
    if a is Some && b is Some {
        let (ax, ay, aw, ah) = a->0;
        let (bx, by, bw, bh) = b->0;
        assert(f.column_used(ax + aw - 1));
        assert(f.column_used(bx + bw - 1));
        assert(f.row_used(ay as int));
        assert(f.row_used(by as int));
        assert(f.row_used(ay + ah - 1));
        assert(f.row_used(by + bh - 1));
    }
}

proof fn lemma_area(w: int, h: int)
    by (nonlinear_arith)
    requires
        0 <= w <= 0x7fff_ffff,
        0 <= h <= 0x7fff_ffff,
    ensures
        0 <= w * h <= 0x3fff_ffff_0000_0001,
{
}

proof fn lemma_place(w: int, h: int, x: int, y: int)
    by (nonlinear_arith)
    requires
        0 <= x < w,
        0 <= y < h,
    ensures
        0 <= y * w,
        0 <= y * w + x < w * h,
{
}

impl Frame {
    /// The box around the visible pixels: column, row, width and height. It is
    /// the one that the frame carries, or else is looked for.
    pub fn alpha_bbox(&self) -> (r: Option<(i32, i32, i32, i32)>)
        requires
            self.bbox is None ==> self@.complete(),
        ensures
            r == if self.bbox is Some {
                self.bbox
            } else {
                self@.tight_bbox()
            },
            self.bbox is None ==> self@.is_bbox(r),
    {
        if self.bbox.is_some() {
            return self.bbox;
        }
        self.scan_bbox()
    }

    /// The alpha of the pixel with number `off`, counted row by row.
    pub fn pixel_alpha(&self, off: usize) -> (r: u8)
        requires
            self@.readable(off as int),
        ensures
            r == self@.alpha_at(off as int),
    {
        if self.rgba.len() > 0 {
            self.rgba[off * 4 + 3]
        } else if self.alpha.len() > 0 {
            self.alpha[off]
        } else {
            self.pal_alpha[self.idx[off] as usize]
        }
    }

    /// Looks for the box around the visible pixels.
    pub fn scan_bbox(&self) -> (r: Option<(i32, i32, i32, i32)>)
        requires
            self@.complete(),
        ensures
            r == self@.tight_bbox(),
            self@.is_bbox(r),
    {
        let ghost f = self@;
        if self.w == 0 || self.h == 0 || self.w > 0x7fff_ffff || self.h > 0x7fff_ffff {
            proof {
                lemma_bbox_unique(f, None, None);
            }
            return None;
        }
        let w: i32 = self.w as i32;
        let h: i32 = self.h as i32;
        proof {
            lemma_area(w as int, h as int);
        }
        let n: u64 = (w as u64) * (h as u64);
        assert(n == f.pixels());
        if self.rgba.len() == 0 && self.idx.len() as u64 != n {
            proof {
                lemma_bbox_unique(f, None, None);
            }
            return None;
        }
        assert(f.has_pixels());
        assert(f.rgba.len() == self.rgba.len() && f.alpha.len() == self.alpha.len() && f.idx.len() == self.idx.len());
        let mut min_x: i32 = w;
        let mut min_y: i32 = h;
        let mut max_x: i32 = -1;
        let mut max_y: i32 = -1;
        let mut y: i32 = 0;
        while y < h
            invariant
                f == self@,
                f.complete(),
                f.has_pixels(),
                f.rgba.len() <= usize::MAX,
                f.alpha.len() <= usize::MAX,
                f.idx.len() <= usize::MAX,
                w == self.w,
                h == self.h,
                0 <= y <= h,
                0 <= min_x <= w,
                0 <= min_y <= h,
                -1 <= max_x < w,
                -1 <= max_y < h,
                forall|a: int, b: int|
                    #![trigger f.visible(a, b)]
                    f.visible(a, b) && b < y ==> min_x <= a <= max_x && min_y <= b <= max_y,
                max_x >= 0 ==> {
                    &&& f.column_used(min_x as int)
                    &&& f.column_used(max_x as int)
                    &&& f.row_used(min_y as int)
                    &&& f.row_used(max_y as int)
                    &&& min_x <= max_x
                },
                max_x < 0 ==> min_x == w && min_y == h && max_y < 0,
            decreases h - y,
        {
            let mut x: i32 = 0;
            while x < w
                invariant
                    f == self@,
                    f.complete(),
                    f.has_pixels(),
                    f.rgba.len() <= usize::MAX,
                    f.alpha.len() <= usize::MAX,
                    f.idx.len() <= usize::MAX,
                    w == self.w,
                    h == self.h,
                    0 <= y < h,
                    0 <= x <= w,
                    0 <= min_x <= w,
                    0 <= min_y <= h,
                    -1 <= max_x < w,
                    -1 <= max_y < h,
                    forall|a: int, b: int|
                        #![trigger f.visible(a, b)]
                        f.visible(a, b) && (b < y || b == y && a < x) ==> min_x <= a <= max_x && min_y <= b <= max_y,
                    max_x >= 0 ==> {
                        &&& f.column_used(min_x as int)
                        &&& f.column_used(max_x as int)
                        &&& f.row_used(min_y as int)
                        &&& f.row_used(max_y as int)
                        &&& min_x <= max_x
                    },
                    max_x < 0 ==> min_x == w && min_y == h && max_y < 0,
                decreases w - x,
            {
                proof {
                    lemma_area(w as int, h as int);
                    lemma_place(w as int, h as int, x as int, y as int);
                    assert(f.readable(y * w + x));
                }
                let off: usize = (y as u64 * w as u64 + x as u64) as usize;
                if self.pixel_alpha(off) != 0 {
                    assert(f.visible(x as int, y as int));
                    if x < min_x {
                        min_x = x;
                    }
                    if x > max_x {
                        max_x = x;
                    }
                    if y < min_y {
                        min_y = y;
                    }
                    if y > max_y {
                        max_y = y;
                    }
                }
                x += 1;
            }
            y += 1;
        }
        if max_x < min_x {
            proof {
                assert(f.is_bbox(None));
                lemma_bbox_unique(f, None, None);
            }
            None
        } else {
            let r = Some((min_x, min_y, max_x - min_x + 1, max_y - min_y + 1));
            proof {
                assert(f.is_bbox(r));
                lemma_bbox_unique(f, r, r);
            }
            r
        }
    }
}

/// Frames and how long each of them is shown.
#[derive(Debug)]
pub struct Animation {
    pub name: String,
    pub frames: Vec<Frame>,
    /// Milliseconds per frame.
    pub durations_ms: Vec<u32>,
}

/// How long the frames from `from` on take together.
pub open spec fn suffix_ms(d: Seq<u32>, from: int) -> nat
    decreases d.len() - from,
{
    if from < 0 || from >= d.len() {
        0
    } else {
        d[from] as nat + suffix_ms(d, from + 1)
    }
}

/// `start` is where the last `tail_ms` milliseconds begin: no later frame gives
/// a tail that is long enough. Where even the whole is too short, it is the
/// first frame.
pub open spec fn is_tail_start(d: Seq<u32>, tail_ms: u64, start: int) -> bool {
    &&& forall|i: int| start < i < d.len() ==> #[trigger] suffix_ms(d, i) < tail_ms
    &&& start == 0 || 0 < start < d.len() && suffix_ms(d, start) >= tail_ms
}

impl Animation {
    /// Every frame has a duration.
    pub open spec fn valid(self) -> bool {
        self.frames@.len() == self.durations_ms@.len()
    }

    /// `start` is the first frame of the tail: of the last `tail_frames` frames
    /// where that is given, or else of the last `tail_ms` milliseconds.
    pub open spec fn tail_begins(self, tail_ms: u64, tail_frames: Option<u32>, start: int) -> bool {
        match tail_frames {
            Some(f) => start == if f < self.frames@.len() {
                self.frames@.len() - f
            } else {
                0
            },
            None => is_tail_start(self.durations_ms@, tail_ms, start),
        }
    }

    /// How many frames there are.
    pub fn frame_count(&self) -> (r: usize)
        ensures
            r == self.frames@.len(),
    {
        self.frames.len()
    }

    /// The frame at `idx`, or the last one where there is none.
    pub fn frame(&self, idx: usize) -> (r: &Frame)
        requires
            self.frames@.len() > 0,
        ensures
            *r == self.frames@[if idx < self.frames@.len() { idx as int } else { self.frames@.len() - 1 }],
    {
        let n: usize = self.frames.len();
        if idx < n {
            &self.frames[idx]
        } else {
            &self.frames[n - 1]
        }
    }

    /// How long one pass takes.
    pub fn total_ms(&self) -> (r: u64)
        requires
            suffix_ms(self.durations_ms@, 0) <= u64::MAX,
        ensures
            r == suffix_ms(self.durations_ms@, 0),
    {
        let mut sum: u64 = 0;
        let mut i: usize = self.durations_ms.len();
        while i > 0
            invariant
                i <= self.durations_ms@.len(),
                sum == suffix_ms(self.durations_ms@, i as int),
                suffix_ms(self.durations_ms@, 0) <= u64::MAX,
            decreases i,
        {
            proof {
                lemma_suffix_grows(self.durations_ms@, 0, i as int - 1);
            }
            i -= 1;
            sum += self.durations_ms[i] as u64;
        }
        sum
    }

    /// The first frame of the tail that covers the last `tail_ms` milliseconds,
    /// or the last `tail_frames` frames where that is given.
    pub fn tail_start(&self, tail_ms: u64, tail_frames: Option<u32>) -> (r: usize)
        requires
            self.valid(),
        ensures
            self.tail_begins(tail_ms, tail_frames, r as int),
    {
        let n: usize = self.frames.len();
        if let Some(f) = tail_frames {
            return if (f as u64) < n as u64 {
                n - f as usize
            } else {
                0
            };
        }
        let mut acc: u64 = 0;
        let mut i: usize = n;
        while i > 0
            invariant
                tail_frames is None,
                i <= n == self.durations_ms@.len(),
                acc == suffix_ms(self.durations_ms@, i as int),
                i < n ==> acc < tail_ms,
                i == n ==> acc == 0,
                forall|j: int| i <= j < n ==> #[trigger] suffix_ms(self.durations_ms@, j) < tail_ms,
            decreases i,
        {
            let d: u64 = self.durations_ms[i - 1] as u64;
            assert(suffix_ms(self.durations_ms@, i as int - 1) == d + acc);
            if d >= tail_ms || acc >= tail_ms - d {
                return i - 1;
            }
            acc += d;
            i -= 1;
        }
        0
    }
}

proof fn lemma_suffix_grows(d: Seq<u32>, i: int, j: int)
    requires
        0 <= i <= j <= d.len(),
    ensures
        suffix_ms(d, j) <= suffix_ms(d, i),
    decreases j - i,
{
    if i < j {
        lemma_suffix_grows(d, i + 1, j);
    }
}

/// Keeps the time per frame where playback is possible: from one millisecond to
/// two seconds.
pub fn frame_ms_safe(frame_ms: u32) -> (r: u32)
    ensures
        r == if frame_ms < 1 {
            1
        } else if frame_ms > 2000 {
            2000
        } else {
            frame_ms as int
        },
{
    if frame_ms < 1 {
        1
    } else if frame_ms > 2000 {
        2000
    } else {
        frame_ms
    }
}

/// The two parts of a schedule: the whole animation, and its tail over and over.
#[derive(Debug, Clone, Copy, PartialEq, Eq, Structural)]
pub enum Phase {
    Full,
    TailLoop,
}

/// Shows the frames of an animation: the whole over and over, or the whole once
/// and then its tail over and over.
pub struct Player {
    pub mode_name: String,
    pub full_loop: bool,
    pub tail_start: usize,
    /// Behind the last frame of the tail.
    pub tail_end: usize,
    pub idx: usize,
    pub remaining_ms: u64,
    /// One once the first pass has gone over into the tail, so that the caller
    /// can switch to a separate animation exactly once.
    pub full_passes: u32,
}

/// Where a player stands.
pub struct PlayModel {
    pub idx: int,
    pub left: int,
    pub passes: u32,
}

/// A schedule: how long each frame is shown, where playing goes on behind the
/// last one, and whether that counts as the end of the first pass.
pub struct Schedule {
    pub d: Seq<u32>,
    pub back_to: int,
    pub counts: bool,
}

impl Schedule {
    /// How long the frame at `idx` is shown.
    pub open spec fn shown_ms(self, idx: int) -> int {
        self.d[if idx < self.d.len() { idx } else { self.d.len() - 1 }] as int
    }

    /// A frame of the part that repeats is shown for some time, so that playing
    /// takes time.
    pub open spec fn playable(self) -> bool {
        &&& self.d.len() > 0
        &&& self.back_to >= 0
        &&& exists|k: int| self.holds(k)
    }

    /// Frame `k` repeats and is shown for some time.
    pub open spec fn holds(self, k: int) -> bool {
        0 <= k < self.d.len() && self.d[k] > 0 && (self.back_to <= k || k == self.d.len() - 1 <= self.back_to)
    }

    /// How many frames lie ahead until one is shown for some time, at most.
    pub open spec fn wait(self, p: PlayModel) -> int {
        let k = choose|k: int| self.holds(k);
        let n = self.d.len() as int;
        let gap = if p.idx < n { n - p.idx } else { 1 };
        if p.left > 0 {
            0
        } else if p.idx < k {
            k - p.idx
        } else if self.back_to <= k {
            gap + k - self.back_to
        } else {
            gap
        }
    }

    /// The player goes on to the next frame.
    pub open spec fn next(self, p: PlayModel) -> PlayModel {
        let wraps = p.idx + 1 >= self.d.len();
        let idx = if wraps { self.back_to } else { p.idx + 1 };
        PlayModel {
            idx,
            left: self.shown_ms(idx),
            passes: if wraps && self.counts && p.passes == 0 { 1u32 } else { p.passes },
        }
    }

    /// Where a player stands `dt` milliseconds later.
    pub open spec fn play(self, p: PlayModel, dt: int) -> PlayModel
        decreases dt, self.wait(p),
        when self.playable() && p.left >= 0 && p.idx >= 0 && dt >= 0
    {
        proof {
            self.lemma_wait(p);
        }
        if dt == 0 {
            p
        } else if dt < p.left {
            PlayModel { left: p.left - dt, ..p }
        } else {
            self.play(self.next(p), dt - p.left)
        }
    }

    /// The wait gets shorter with every frame that is passed over.
    pub proof fn lemma_wait(self, p: PlayModel)
        requires
            self.playable(),
            p.left >= 0,
            p.idx >= 0,
        ensures
            self.wait(p) >= 0,
            p.left == 0 ==> 0 <= self.wait(self.next(p)) < self.wait(p),
            self.next(p).left >= 0,
            self.next(p).idx >= 0,
    {
        let k = choose|k: int| self.holds(k);
        assert(self.holds(k));
        let q = self.next(p);
        if q.idx == k {
            assert(q.left > 0);
        }
    }
}

impl View for Player {
    type V = PlayModel;

    open spec fn view(&self) -> PlayModel {
        PlayModel { idx: self.idx as int, left: self.remaining_ms as int, passes: self.full_passes }
    }
}

impl Player {
    /// The schedule by which the player shows `anim`.
    pub open spec fn schedule(self, anim: Animation) -> Schedule {
        Schedule {
            d: anim.durations_ms@,
            back_to: if self.full_loop { 0 } else { self.tail_start as int },
            counts: !self.full_loop,
        }
    }

    /// Starts at the first frame.
    pub fn new(anim: &Animation, full_loop: bool, tail_ms: u64, tail_frames: Option<u32>) -> (r: Self)
        requires
            anim.valid(),
        ensures
            r.mode_name@ == anim.name@,
            r.full_loop == full_loop,
            anim.tail_begins(tail_ms, tail_frames, r.tail_start as int),
            r.tail_end == anim.frames@.len(),
            r@ == (PlayModel {
                idx: 0,
                left: if anim.durations_ms@.len() > 0 { anim.durations_ms@[0] as int } else { 42 },
                passes: 0,
            }),
    {
        let tail_start: usize = anim.tail_start(tail_ms, tail_frames);
        let remaining_ms: u64 = if anim.durations_ms.len() > 0 {
            anim.durations_ms[0] as u64
        } else {
            42
        };
        Player {
            mode_name: anim.name.clone(),
            full_loop,
            tail_start,
            tail_end: anim.frame_count(),
            idx: 0,
            remaining_ms,
            full_passes: 0,
        }
    }

    /// The frame that is shown stays for `dt_ms` milliseconds more.
    pub open spec fn stays(self, dt_ms: u64) -> bool {
        dt_ms == 0 || dt_ms < self.remaining_ms
    }

    /// Lets `dt_ms` milliseconds pass and returns the frame to show.
    pub fn advance(&mut self, anim: &Animation, dt_ms: u64) -> (r: usize)
        requires
            !old(self).stays(dt_ms) ==> {
                &&& anim.valid()
                &&& old(self).schedule(*anim).playable()
                &&& old(self).idx < usize::MAX
                &&& old(self).tail_start < usize::MAX
            },
        ensures
            old(self).stays(dt_ms) ==> final(self)@ == (PlayModel { left: old(self)@.left - dt_ms, ..old(self)@ }),
            old(self).schedule(*anim).playable() ==> final(self)@ == old(self).schedule(*anim).play(
                old(self)@,
                dt_ms as int,
            ),
            r == final(self).idx,
            final(self).mode_name == old(self).mode_name,
            final(self).full_loop == old(self).full_loop,
            final(self).tail_start == old(self).tail_start,
            final(self).tail_end == old(self).tail_end,
            old(self).idx < usize::MAX ==> final(self).idx < usize::MAX,
    {
        if dt_ms == 0 {
            return self.idx;
        }
        if dt_ms < self.remaining_ms {
            self.remaining_ms = self.remaining_ms - dt_ms;
            return self.idx;
        }
        let ghost plan = self.schedule(*anim);
        let ghost start = self@;
        let mut remaining: u64 = dt_ms;
        let n: usize = anim.frame_count();
        while remaining > 0
            invariant
                anim.valid(),
                n == anim.durations_ms@.len(),
                plan == self.schedule(*anim),
                plan.playable(),
                plan.play(start, dt_ms as int) == plan.play(self@, remaining as int),
                self.idx < usize::MAX,
                self.tail_start < usize::MAX,
                self.mode_name == old(self).mode_name,
                self.full_loop == old(self).full_loop,
                self.tail_start == old(self).tail_start,
                self.tail_end == old(self).tail_end,
            decreases remaining, plan.wait(self@),
        {
            if remaining < self.remaining_ms {
                self.remaining_ms = self.remaining_ms - remaining;
                remaining = 0;
            } else {
                proof {
                    plan.lemma_wait(self@);
                }
                let ghost before = self@;
                remaining -= self.remaining_ms;
                self.idx += 1;
                if self.idx >= n {
                    if self.full_loop {
                        self.idx = 0;
                    } else {
                        self.idx = self.tail_start;
                        if self.full_passes == 0 {
                            self.full_passes = 1;
                        }
                    }
                }
                let at: usize = if self.idx < n {
                    self.idx
                } else {
                    n - 1
                };
                self.remaining_ms = anim.durations_ms[at] as u64;
                assert(self@ == plan.next(before));
            }
        }
        self.idx
    }
}

/// A player at the start of a mode.
pub fn restart_player(anim: &Animation, full_loop: bool, tail_ms: u64, tail_frames: Option<u32>) -> (r: Player)
    requires
        anim.valid(),
    ensures
        r.mode_name@ == anim.name@,
        r.full_loop == full_loop,
        anim.tail_begins(tail_ms, tail_frames, r.tail_start as int),
        r.tail_end == anim.frames@.len(),
        r@ == (PlayModel {
            idx: 0,
            left: if anim.durations_ms@.len() > 0 { anim.durations_ms@[0] as int } else { 42 },
            passes: 0,
        }),
{
    Player::new(anim, full_loop, tail_ms, tail_frames)
}

/// Time adds up: letting it pass in two steps comes to the same as in one.
pub proof fn law_time_adds_up(s: Schedule, p: PlayModel, a: int, b: int)
    requires
        s.playable(),
        p.left >= 0,
        p.idx >= 0,
        a >= 0,
        b >= 0,
    ensures
        s.play(p, a + b) == s.play(s.play(p, a), b),
    decreases a, s.wait(p),
{
    s.lemma_wait(p);
    if a > 0 && a >= p.left {
        law_time_adds_up(s, s.next(p), a - p.left, b);
    } else if a > 0 {
        let q = PlayModel { left: p.left - a, ..p };
        assert(s.play(p, a) == q);
        if b > 0 && a + b >= p.left {
            assert(s.next(q) == s.next(p));
            assert(s.play(q, b) == s.play(s.next(q), b - q.left));
        }
    }
}

/// Playing never leaves the animation: with a tail that starts within it, every
/// frame shown is one of its own.
pub proof fn law_frames_exist(s: Schedule, p: PlayModel, dt: int)
    requires
        s.playable(),
        s.back_to < s.d.len(),
        0 <= p.idx < s.d.len(),
        p.left >= 0,
        dt >= 0,
    ensures
        0 <= s.play(p, dt).idx < s.d.len(),
        s.play(p, dt).left >= 0,
    decreases dt, s.wait(p),
{
    s.lemma_wait(p);
    if dt > 0 && dt >= p.left {
        law_frames_exist(s, s.next(p), dt - p.left);
    }
}

/// Once the first pass is over only the tail is shown, and the count of passes
/// stays at one.
pub proof fn law_tail_repeats(s: Schedule, p: PlayModel, dt: int)
    requires
        s.playable(),
        s.back_to < s.d.len(),
        s.back_to <= p.idx < s.d.len(),
        p.left >= 0,
        p.passes == 1,
        dt >= 0,
    ensures
        s.back_to <= s.play(p, dt).idx < s.d.len(),
        s.play(p, dt).passes == 1,
    decreases dt, s.wait(p),
{
    s.lemma_wait(p);
    if dt > 0 && dt >= p.left {
        law_tail_repeats(s, s.next(p), dt - p.left);
    }
}

/// In the first pass frames are shown in order; it is over when the tail begins.
pub proof fn law_first_pass_in_order(s: Schedule, p: PlayModel, dt: int)
    requires
        s.playable(),
        s.counts,
        s.back_to < s.d.len(),
        0 <= p.idx < s.d.len(),
        p.left >= 0,
        p.passes == 0,
        dt >= 0,
    ensures
        s.play(p, dt).passes == 0 ==> p.idx <= s.play(p, dt).idx < s.d.len(),
        s.play(p, dt).passes != 0 ==> s.play(p, dt).passes == 1 && s.back_to <= s.play(p, dt).idx < s.d.len(),
    decreases dt, s.wait(p),
{
    s.lemma_wait(p);
    if dt > 0 && dt >= p.left {
        let q = s.next(p);
        if q.passes == 0 {
            law_first_pass_in_order(s, q, dt - p.left);
        } else {
            law_tail_repeats(s, q, dt - p.left);
        }
    }
}

/// A player that repeats the whole animation never counts a pass.
pub proof fn law_full_loop_counts_nothing(s: Schedule, p: PlayModel, dt: int)
    requires
        s.playable(),
        !s.counts,
        p.idx >= 0,
        p.left >= 0,
        dt >= 0,
    ensures
        s.play(p, dt).passes == p.passes,
    decreases dt, s.wait(p),
{
    s.lemma_wait(p);
    if dt > 0 && dt >= p.left {
        law_full_loop_counts_nothing(s, s.next(p), dt - p.left);
    }
}

/// Where the resources lie: where the caller says, or in `resource` beside the
/// program.
pub open spec fn resource_path(exe_dir: Seq<char>, override_dir: Option<Seq<char>>, sep: char) -> Seq<char> {
    match override_dir {
        Some(p) => p,
        None => if exe_dir.len() == 0 {
            "resource"@
        } else if exe_dir.last() == '/' || exe_dir.last() == sep {
            exe_dir + "resource"@
        } else {
            exe_dir.push(sep) + "resource"@
        },
    }
}

/// Where the resources lie; `sep` stands between the names of a path.
pub fn resource_dir(exe_dir: &str, override_dir: Option<&str>, sep: char) -> (r: String)
    ensures
        r@ == resource_path(
            exe_dir@,
            match override_dir {
                Some(p) => Some(p@),
                None => None,
            },
            sep,
        ),
{
    match override_dir {
        Some(p) => own(p),
        None => {
            let v = chars_of(exe_dir);
            let n: usize = v.len();
            if n == 0 {
                own("resource")
            } else if v[n - 1] == '/' || v[n - 1] == sep {
                joined(exe_dir, "resource")
            } else {
                let mut s = own(exe_dir);
                s.push(sep);
                joined(s.as_str(), "resource")
            }
        },
    }
}

} // verus!
