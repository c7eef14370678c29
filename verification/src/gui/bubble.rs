//! The bubble as a panel: how large it is, how its text is laid out, and what
//! is drawn for it.

use vstd::prelude::*;
use vstd::string::*;

use crate::bubble_text::{BubbleModel, BubbleText};
use crate::config::{BubbleTheme, Rgb};
use crate::event::Mode;
use crate::gui::fit::{begun, Fit};
use crate::gui::flow::same_bubble;
use crate::text::{copy_texts, joined, own, same_lines, texts};

verus! {

/// Lengths on the screen, in pixels: each is scaled with the screen.
#[derive(Debug, Clone, Copy)]
pub struct BubbleSizes {
    pub min_w: u32,
    pub max_w: u32,
    pub max_h: u32,
    /// From the top of the window.
    pub margin_y: u32,
    pub pad_x: u32,
    pub pad_top: u32,
    pub pad_bottom: u32,
    /// The least width and height of the text, and the least height below the
    /// header.
    pub least_w: u32,
    pub least_h: u32,
    pub least_body: u32,
    /// Between the name of the client and the title.
    pub pill_gap: u32,
    pub gap_top: u32,
    pub divider: u32,
    pub gap_bottom: u32,
    pub border: u32,
    pub radius: u32,
    pub shadow_blur: u32,
    pub glass_blur: u32,
    /// Within the pill with the name of the client.
    pub pill_pad: u32,
    pub pill_extra: u32,
    pub pill_lift: u32,
}

/// The size of a bubble, its distance from the top of the window and its
/// margins, at scale one.
pub const MAX_BUBBLE_W: u32 = 150;

pub const MIN_BUBBLE_W: u32 = 150;

pub const MAX_BUBBLE_H: u32 = 350;

pub const BUBBLE_MARGIN_Y: u32 = 44;

pub const PAD_X: u32 = 7;

pub const PAD_TOP: u32 = 6;

pub const PAD_BOTTOM: u32 = 8;

impl BubbleSizes {
    /// The lengths at scale one, with corners of the given radius.
    pub fn unscaled(radius: u32) -> (r: BubbleSizes)
        ensures
            r == (BubbleSizes {
                min_w: MIN_BUBBLE_W,
                max_w: MAX_BUBBLE_W,
                max_h: MAX_BUBBLE_H,
                margin_y: BUBBLE_MARGIN_Y,
                pad_x: PAD_X,
                pad_top: PAD_TOP,
                pad_bottom: PAD_BOTTOM,
                least_w: 72,
                least_h: 24,
                least_body: 16,
                pill_gap: 6,
                gap_top: 3,
                divider: 1,
                gap_bottom: 4,
                border: 1,
                radius,
                shadow_blur: 20,
                glass_blur: 14,
                pill_pad: 8,
                pill_extra: 4,
                pill_lift: 2,
            }),
    {
        BubbleSizes {
            min_w: MIN_BUBBLE_W,
            max_w: MAX_BUBBLE_W,
            max_h: MAX_BUBBLE_H,
            margin_y: BUBBLE_MARGIN_Y,
            pad_x: PAD_X,
            pad_top: PAD_TOP,
            pad_bottom: PAD_BOTTOM,
            least_w: 72,
            least_h: 24,
            least_body: 16,
            pill_gap: 6,
            gap_top: 3,
            divider: 1,
            gap_bottom: 4,
            border: 1,
            radius,
            shadow_blur: 20,
            glass_blur: 14,
            pill_pad: 8,
            pill_extra: 4,
            pill_lift: 2,
        }
    }
}

/// The alpha of the pill with the name of the client.
pub const PILL_ALPHA: u8 = 230;

/// A bubble that has been laid out.
pub struct Bubble {
    pub theme: BubbleTheme,
    pub text: BubbleText,
    pub w: u32,
    pub h: u32,
    /// Height of the header.
    pub header_h: u32,
    /// Height of the row with the name of the client, 0 without one.
    pub from_h: u32,
}

/// What is left of `a` without `b`, at least nothing.
pub open spec fn less(a: int, b: int) -> int {
    if a > b {
        a - b
    } else {
        0
    }
}

/// The larger of two numbers.
pub open spec fn most(a: int, b: int) -> int {
    if a > b {
        a
    } else {
        b
    }
}

fn less_of(a: u32, b: u64) -> (r: u32)
    ensures
        r == less(a as int, b as int),
{
    if a as u64 > b {
        (a as u64 - b) as u32
    } else {
        0
    }
}

fn most_of(a: u32, b: u32) -> (r: u32)
    ensures
        r == most(a as int, b as int),
{
    if a > b {
        a
    } else {
        b
    }
}

/// The size of the bubble beside a companion of `pet_w` by `pet_h`: it never
/// depends on the text, and never reaches below the companion.
pub open spec fn bubble_size(s: BubbleSizes, pet_w: u32, pet_h: u32) -> (int, int) {
    let room = most(pet_w as int, s.min_w as int);
    let below = less(pet_h as int, s.margin_y as int);
    (
        if s.max_w < room { s.max_w as int } else { room },
        if s.max_h < below { s.max_h as int } else { below },
    )
}

/// The width of the text in a bubble.
pub open spec fn text_width(s: BubbleSizes, w: u32) -> int {
    most(less(w as int, 2 * s.pad_x), s.least_w as int)
}

/// The height of the header: the row with the name of the client, if there is
/// one, and the title.
pub open spec fn header_height(s: BubbleSizes, from: bool, title_h: u32, from_h: u32) -> int {
    most(title_h + from_h + (if from { s.pill_gap as int } else { 0 }), 1)
}

/// The height that is left for the lines.
pub open spec fn body_budget(s: BubbleSizes, h: u32, header_h: u32) -> int {
    let text_h = most(less(h as int, s.pad_top + s.pad_bottom), s.least_h as int);
    most(less(text_h, header_h + s.gap_top + s.divider + s.gap_bottom), s.least_body as int)
}

/// What laying out comes to first.
pub enum Layout {
    /// It is done; the flag tells whether anything changed.
    Done(bool),
    /// The text has to be measured.
    Measure(Measure),
}

/// A text that has to be measured, and the size of the bubble for it.
pub struct Measure {
    pub text: BubbleText,
    pub w: u32,
    pub h: u32,
    pub text_w: u32,
}

impl Bubble {
    /// A bubble that shows nothing.
    pub fn hidden(theme: BubbleTheme) -> (r: Bubble)
        ensures
            r.theme == theme,
            r.text@ == BubbleModel::empty(),
            r.w == 0 && r.h == 0 && r.header_h == 0 && r.from_h == 0,
    {
        Bubble {
            theme,
            text: BubbleText::default(),
            w: 0,
            h: 0,
            header_h: 0,
            from_h: 0,
        }
    }

    /// Tells whether there is anything to show.
    pub fn visible(&self) -> (r: bool)
        ensures
            r == (self.text@.title.len() > 0),
    {
        !self.text.title.as_str().is_empty()
    }

    /// Begins to lay out a text. Nothing is done where the text and the size
    /// are the same; a text without a title hides the bubble.
    pub fn layout(&mut self, text: BubbleText, pet_w: u32, pet_h: u32, s: &BubbleSizes) -> (r: Layout)
        ensures
            final(self).theme == old(self).theme,
            ({
                let (w, h) = bubble_size(*s, pet_w, pet_h);
                let same = text@ == old(self).text@ && w == old(self).w && h == old(self).h;
                if same {
                    *final(self) == *old(self) && r == Layout::Done(false)
                } else if text@.title.len() == 0 {
                    &&& final(self).text@ == text@
                    &&& final(self).w == 0 && final(self).h == 0
                    &&& final(self).header_h == 0 && final(self).from_h == 0
                    &&& r == Layout::Done(old(self).text@.title.len() > 0 || old(self).w != 0 || old(self).h != 0)
                } else {
                    &&& *final(self) == *old(self)
                    &&& r is Measure
                    &&& r->Measure_0.text == text
                    &&& r->Measure_0.w == w
                    &&& r->Measure_0.h == h
                    &&& r->Measure_0.text_w == text_width(*s, w as u32)
                }
            }),
    {
        let room: u32 = most_of(pet_w, s.min_w);
        let w: u32 = if s.max_w < room {
            s.max_w
        } else {
            room
        };
        let below: u32 = less_of(pet_h, s.margin_y as u64);
        let h: u32 = if s.max_h < below {
            s.max_h
        } else {
            below
        };
        if same_bubble(&text, &self.text) && w == self.w && h == self.h {
            return Layout::Done(false);
        }
        if text.title.as_str().is_empty() {
            let changed = self.visible() || self.w != 0 || self.h != 0;
            self.text = text;
            self.w = 0;
            self.h = 0;
            self.header_h = 0;
            self.from_h = 0;
            return Layout::Done(changed);
        }
        let text_w: u32 = most_of(less_of(w, 2 * s.pad_x as u64), s.least_w);
        Layout::Measure(Measure { text, w, h, text_w })
    }
}

/// A text that has been measured but for its lines.
pub struct Fitting {
    pub fit: Fit,
    pub title: String,
    pub from: Option<String>,
    pub w: u32,
    pub h: u32,
    pub header_h: u32,
    pub from_h: u32,
}

impl Measure {
    /// Goes on with the heights of the title and of the row with the name of
    /// the client (0 without one): the lines are now to be fitted.
    pub fn headed(self, title_h: u32, from_h: u32, s: &BubbleSizes) -> (r: Fitting)
        requires
            title_h + from_h + s.pill_gap <= u32::MAX,
        ensures
            r.title@ == self.text@.title,
            r.from == self.text.from,
            r.w == self.w,
            r.h == self.h,
            r.from_h == from_h,
            r.header_h == header_height(*s, self.text.from is Some, title_h, from_h),
            r.fit@ == begun(self.text@.lines, body_budget(*s, self.h, r.header_h) as u32, true, None),
            r.fit@.valid(),
    {
        let gap: u32 = if self.text.from.is_some() {
            s.pill_gap
        } else {
            0
        };
        let header_h: u32 = most_of(title_h + from_h + gap, 1);
        let text_h: u32 = most_of(less_of(self.h, s.pad_top as u64 + s.pad_bottom as u64), s.least_h);
        let taken: u64 = header_h as u64 + s.gap_top as u64 + s.divider as u64 + s.gap_bottom as u64;
        let budget: u32 = most_of(less_of(text_h, taken), s.least_body);
        let BubbleText { title, from, lines } = self.text;
        Fitting { fit: Fit::begin(lines, budget, true, None), title, from, w: self.w, h: self.h, header_h, from_h }
    }
}

impl Bubble {
    /// Takes over what has been laid out.
    pub fn accept(&mut self, f: Fitting)
        ensures
            final(self).theme == old(self).theme,
            final(self).text@.title == f.title@,
            final(self).text.from == f.from,
            final(self).text@.lines == f.fit@.lines,
            final(self).w == f.w,
            final(self).h == f.h,
            final(self).header_h == f.header_h,
            final(self).from_h == f.from_h,
    {
        self.text = BubbleText { title: f.title, from: f.from, lines: f.fit.lines };
        self.w = f.w;
        self.h = f.h;
        self.header_h = f.header_h;
        self.from_h = f.from_h;
    }
}

/// The bubble stays above the companion's lower edge, so that it is never cut
/// off by the window.
pub proof fn law_bubble_stays_in_window(s: BubbleSizes, pet_w: u32, pet_h: u32)
    requires
        s.margin_y <= pet_h,
    ensures
        s.margin_y + bubble_size(s, pet_w, pet_h).1 <= pet_h,
{
}

/// A rectangle to draw in.
#[derive(Debug, Clone, Copy, PartialEq, Eq, Structural)]
pub struct Spot {
    pub x: i64,
    pub y: i64,
    pub w: u32,
    pub h: u32,
}

/// A step of drawing.
#[allow(inconsistent_fields)]
pub enum Stroke {
    /// A soft shadow.
    Shadow { at: Spot, radius: u32, blur: u32, alpha: u8 },
    /// A plain panel.
    Panel { at: Spot, radius: u32, color: Rgb, alpha: u8 },
    /// A pane of glass; a plain panel of the given alpha where the screen cannot
    /// be captured.
    Glass { at: Spot, radius: u32, blur: u32, tint: Rgb, otherwise: u8 },
    /// Lines of text; `single` ones are not wrapped.
    Text { at: Spot, lines: Vec<String>, color: Rgb, bold: bool, single: bool },
}

/// Model of a [`Stroke`].
#[allow(inconsistent_fields)]
pub enum StrokeModel {
    Shadow { at: Spot, radius: u32, blur: u32, alpha: u8 },
    Panel { at: Spot, radius: u32, color: Rgb, alpha: u8 },
    Glass { at: Spot, radius: u32, blur: u32, tint: Rgb, otherwise: u8 },
    Text { at: Spot, lines: Seq<Seq<char>>, color: Rgb, bold: bool, single: bool },
}

impl View for Stroke {
    type V = StrokeModel;

    open spec fn view(&self) -> StrokeModel {
        match *self {
            Stroke::Shadow { at, radius, blur, alpha } => StrokeModel::Shadow { at, radius, blur, alpha },
            Stroke::Panel { at, radius, color, alpha } => StrokeModel::Panel { at, radius, color, alpha },
            Stroke::Glass { at, radius, blur, tint, otherwise } => StrokeModel::Glass {
                at,
                radius,
                blur,
                tint,
                otherwise,
            },
            Stroke::Text { at, lines, color, bold, single } => StrokeModel::Text {
                at,
                lines: texts(lines@),
                color,
                bold,
                single,
            },
        }
    }
}

/// The models of some strokes.
pub open spec fn strokes(v: Seq<Stroke>) -> Seq<StrokeModel> {
    v.map_values(|s: Stroke| s@)
}

/// The accent of a state: its place among the colors of a theme.
pub open spec fn accent_at(mode: Mode) -> int {
    match mode {
        Mode::Thinking => 0,
        Mode::Working => 1,
        Mode::Done => 2,
        Mode::Failed => 3,
        Mode::Attention => 4,
        _ => 5,
    }
}

fn state_idx(mode: Mode) -> (r: usize)
    ensures
        r == accent_at(mode),
        r < 6,
{
    match mode {
        Mode::Thinking => 0,
        Mode::Working => 1,
        Mode::Done => 2,
        Mode::Failed => 3,
        Mode::Attention => 4,
        _ => 5,
    }
}

/// A sum that stays within a `u32`.
pub open spec fn sum_capped(a: int, b: int) -> int {
    if a + b > u32::MAX {
        u32::MAX as int
    } else {
        a + b
    }
}

fn capped_sum(a: u32, b: u64) -> (r: u32)
    requires
        b <= 0x2_0000_0000,
    ensures
        r == sum_capped(a as int, b as int),
{
    let t: u64 = a as u64 + b;
    if t > u32::MAX as u64 {
        u32::MAX
    } else {
        t as u32
    }
}

/// The text on the pill.
pub open spec fn pill_label(from: Seq<char>) -> Seq<char> {
    "From "@ + from
}

impl Bubble {
    /// The part within the border.
    pub open spec fn inner(self, x: i32, y: i32, s: BubbleSizes) -> Spot {
        Spot {
            x: (x + s.border) as i64,
            y: (y + s.border) as i64,
            w: less(self.w as int, 2 * s.border) as u32,
            h: less(self.h as int, 2 * s.border) as u32,
        }
    }

    /// The width within the paddings.
    pub open spec fn text_w(self, s: BubbleSizes) -> int {
        less(self.w as int, 2 * s.pad_x)
    }

    /// The shadow, the border and the ground of the bubble.
    pub open spec fn panel(self, x: i32, y: i32, s: BubbleSizes, fade: Seq<u8>) -> Seq<StrokeModel> {
        let all = Spot { x: x as i64, y: y as i64, w: self.w, h: self.h };
        let radius = less(s.radius as int, 1) as u32;
        let alpha = fade[self.theme.fill_alpha as int];
        seq![
            StrokeModel::Shadow {
                at: all,
                radius: s.radius,
                blur: s.shadow_blur,
                alpha: fade[self.theme.shadow_alpha as int],
            },
            StrokeModel::Panel {
                at: all,
                radius: s.radius,
                color: self.theme.border,
                alpha: fade[self.theme.border_alpha as int],
            },
            if self.theme.acrylic {
                StrokeModel::Glass {
                    at: self.inner(x, y, s),
                    radius,
                    blur: s.glass_blur,
                    tint: self.theme.fill,
                    otherwise: alpha,
                }
            } else {
                StrokeModel::Panel { at: self.inner(x, y, s), radius, color: self.theme.fill, alpha }
            },
        ]
    }

    /// The pill with the name of the client, centered. `label_w` is the width of
    /// its text.
    pub open spec fn pill(self, x: i32, y: i32, mode: Mode, s: BubbleSizes, fade: Seq<u8>, label_w: u32) -> Seq<
        StrokeModel,
    > {
        match self.text@.from {
            Some(f) => {
                let w = sum_capped(label_w as int, 2 * s.pill_pad);
                let h = sum_capped(most(self.from_h as int, 1), s.pill_extra as int);
                let px = x + s.pad_x + less(self.text_w(s), w) / 2;
                let py = y + s.pad_top - s.pill_lift;
                seq![
                    StrokeModel::Panel {
                        at: Spot { x: px as i64, y: py as i64, w: w as u32, h: h as u32 },
                        radius: (h / 2) as u32,
                        color: self.theme.state@[accent_at(mode)],
                        alpha: fade[PILL_ALPHA as int],
                    },
                    StrokeModel::Text {
                        at: Spot {
                            x: (px + s.pill_pad) as i64,
                            y: (py + s.pill_lift) as i64,
                            w: sum_capped(less(w, 2 * s.pill_pad), s.pill_extra as int) as u32,
                            h: less(h, s.pill_lift as int) as u32,
                        },
                        lines: seq![pill_label(f)],
                        color: Rgb { r: 255, g: 255, b: 255 },
                        bold: true,
                        single: true,
                    },
                ]
            },
            None => seq![],
        }
    }

    /// The title, below the pill. It has the accent of a state that calls for
    /// attention.
    pub open spec fn heading(self, x: i32, y: i32, mode: Mode, s: BubbleSizes) -> StrokeModel {
        let above = if self.text.from is Some {
            most(self.from_h as int, 1) + s.pill_gap
        } else {
            0
        };
        StrokeModel::Text {
            at: Spot {
                x: (x + s.pad_x) as i64,
                y: (y + s.pad_top + above) as i64,
                w: self.text_w(s) as u32,
                h: most(less(most(self.header_h as int, 1), self.from_h as int), 1) as u32,
            },
            lines: seq![self.text@.title],
            color: if mode is Done || mode is Failed || mode is Attention {
                self.theme.state@[accent_at(mode)]
            } else {
                self.theme.title
            },
            bold: true,
            single: false,
        }
    }

    /// The divider and the lines below it.
    pub open spec fn body(self, x: i32, y: i32, s: BubbleSizes, fade: Seq<u8>) -> Seq<StrokeModel> {
        let header = most(self.header_h as int, 1);
        let top = y + s.pad_top + header + s.gap_top;
        let text_h = less(self.h as int, s.pad_top + s.pad_bottom);
        seq![
            StrokeModel::Panel {
                at: Spot { x: (x + s.pad_x) as i64, y: top as i64, w: self.text_w(s) as u32, h: s.divider },
                radius: 0,
                color: self.theme.divider,
                alpha: fade[self.theme.divider_alpha as int],
            },
            StrokeModel::Text {
                at: Spot {
                    x: (x + s.pad_x) as i64,
                    y: (top + s.divider + s.gap_bottom) as i64,
                    w: self.text_w(s) as u32,
                    h: less(text_h, header + s.gap_top + s.divider + s.gap_bottom) as u32,
                },
                lines: self.text@.lines,
                color: self.theme.title,
                bold: false,
                single: false,
            },
        ]
    }

    /// All that is drawn for the bubble at (`x`, `y`).
    pub open spec fn drawing(
        self,
        x: i32,
        y: i32,
        mode: Mode,
        body: bool,
        s: BubbleSizes,
        fade: Seq<u8>,
        label_w: u32,
    ) -> Seq<StrokeModel> {
        let head = self.panel(x, y, s, fade) + self.pill(x, y, mode, s, fade, label_w);
        let titled = head.push(self.heading(x, y, mode, s));
        if body && self.text@.lines.len() > 0 {
            titled + self.body(x, y, s, fade)
        } else {
            titled
        }
    }

    fn push_panel(&self, out: &mut Vec<Stroke>, x: i32, y: i32, s: &BubbleSizes, fade: &Vec<u8>)
        requires
            fade@.len() == 256,
        ensures
            strokes(final(out)@) == strokes(old(out)@) + self.panel(x, y, *s, fade@),
    {
        let ghost before = strokes(out@);
        let all = Spot { x: x as i64, y: y as i64, w: self.w, h: self.h };
        let inner = Spot {
            x: x as i64 + s.border as i64,
            y: y as i64 + s.border as i64,
            w: less_of(self.w, 2 * s.border as u64),
            h: less_of(self.h, 2 * s.border as u64),
        };
        let radius: u32 = less_of(s.radius, 1);
        let alpha: u8 = fade[self.theme.fill_alpha as usize];
        let a = Stroke::Shadow {
            at: all,
            radius: s.radius,
            blur: s.shadow_blur,
            alpha: fade[self.theme.shadow_alpha as usize],
        };
        let b = Stroke::Panel {
            at: all,
            radius: s.radius,
            color: self.theme.border,
            alpha: fade[self.theme.border_alpha as usize],
        };
        let c = if self.theme.acrylic {
            Stroke::Glass { at: inner, radius, blur: s.glass_blur, tint: self.theme.fill, otherwise: alpha }
        } else {
            Stroke::Panel { at: inner, radius, color: self.theme.fill, alpha }
        };
        out.push(a);
        out.push(b);
        out.push(c);
        proof {
            let goal = self.panel(x, y, *s, fade@);
            assert(goal[0] == a@ && goal[1] == b@ && goal[2] == c@);
            assert(strokes(out@) =~= before + goal);
        }
    }

    fn push_pill(
        &self,
        out: &mut Vec<Stroke>,
        x: i32,
        y: i32,
        mode: Mode,
        s: &BubbleSizes,
        fade: &Vec<u8>,
        label_w: u32,
    )
        requires
            fade@.len() == 256,
        ensures
            strokes(final(out)@) == strokes(old(out)@) + self.pill(x, y, mode, *s, fade@, label_w),
    {
        let ghost before = strokes(out@);
        match &self.text.from {
            Some(f) => {
                let w: u32 = capped_sum(label_w, 2 * s.pill_pad as u64);
                let h: u32 = capped_sum(most_of(self.from_h, 1), s.pill_extra as u64);
                let tw: u32 = less_of(self.w, 2 * s.pad_x as u64);
                let px: i64 = x as i64 + s.pad_x as i64 + (less_of(tw, w as u64) / 2) as i64;
                let py: i64 = y as i64 + s.pad_top as i64 - s.pill_lift as i64;
                let a = Stroke::Panel {
                    at: Spot { x: px, y: py, w, h },
                    radius: h / 2,
                    color: self.theme.state[state_idx(mode)],
                    alpha: fade[PILL_ALPHA as usize],
                };
                let mut lines: Vec<String> = Vec::new();
                lines.push(joined("From ", f.as_str()));
                assert(texts(lines@) =~= seq![pill_label(f@)]);
                let b = Stroke::Text {
                    at: Spot {
                        x: px + s.pill_pad as i64,
                        y: py + s.pill_lift as i64,
                        w: capped_sum(less_of(w, 2 * s.pill_pad as u64), s.pill_extra as u64),
                        h: less_of(h, s.pill_lift as u64),
                    },
                    lines,
                    color: Rgb { r: 255, g: 255, b: 255 },
                    bold: true,
                    single: true,
                };
                out.push(a);
                out.push(b);
                proof {
                    let goal = self.pill(x, y, mode, *s, fade@, label_w);
                    assert(goal[0] == a@);
                    assert(goal[1] == b@);
                    assert(strokes(out@) =~= before + goal);
                }
            },
            None => {
                assert(strokes(out@) =~= before + self.pill(x, y, mode, *s, fade@, label_w));
            },
        }
    }

    fn push_heading(&self, out: &mut Vec<Stroke>, x: i32, y: i32, mode: Mode, s: &BubbleSizes)
        ensures
            strokes(final(out)@) == strokes(old(out)@).push(self.heading(x, y, mode, *s)),
    {
        let ghost before = strokes(out@);
        let above: i64 = if self.text.from.is_some() {
            most_of(self.from_h, 1) as i64 + s.pill_gap as i64
        } else {
            0
        };
        let color = match mode {
            Mode::Done | Mode::Failed | Mode::Attention => self.theme.state[state_idx(mode)],
            _ => self.theme.title,
        };
        let mut lines: Vec<String> = Vec::new();
        lines.push(own(self.text.title.as_str()));
        assert(texts(lines@) =~= seq![self.text@.title]);
        let a = Stroke::Text {
            at: Spot {
                x: x as i64 + s.pad_x as i64,
                y: y as i64 + s.pad_top as i64 + above,
                w: less_of(self.w, 2 * s.pad_x as u64),
                h: most_of(less_of(most_of(self.header_h, 1), self.from_h as u64), 1),
            },
            lines,
            color,
            bold: true,
            single: false,
        };
        out.push(a);
        proof {
            assert(a@ == self.heading(x, y, mode, *s));
            assert(strokes(out@) =~= before.push(a@));
        }
    }

    fn push_body(&self, out: &mut Vec<Stroke>, x: i32, y: i32, s: &BubbleSizes, fade: &Vec<u8>)
        requires
            fade@.len() == 256,
        ensures
            strokes(final(out)@) == strokes(old(out)@) + self.body(x, y, *s, fade@),
    {
        let ghost before = strokes(out@);
        let header: u32 = most_of(self.header_h, 1);
        let top: i64 = y as i64 + s.pad_top as i64 + header as i64 + s.gap_top as i64;
        let tw: u32 = less_of(self.w, 2 * s.pad_x as u64);
        let text_h: u32 = less_of(self.h, s.pad_top as u64 + s.pad_bottom as u64);
        let taken: u64 = header as u64 + s.gap_top as u64 + s.divider as u64 + s.gap_bottom as u64;
        let a = Stroke::Panel {
            at: Spot { x: x as i64 + s.pad_x as i64, y: top, w: tw, h: s.divider },
            radius: 0,
            color: self.theme.divider,
            alpha: fade[self.theme.divider_alpha as usize],
        };
        let lines = copy_texts(&self.text.lines);
        let b = Stroke::Text {
            at: Spot {
                x: x as i64 + s.pad_x as i64,
                y: top + s.divider as i64 + s.gap_bottom as i64,
                w: tw,
                h: less_of(text_h, taken),
            },
            lines,
            color: self.theme.title,
            bold: false,
            single: false,
        };
        out.push(a);
        out.push(b);
        proof {
            let goal = self.body(x, y, *s, fade@);
            assert(goal[0] == a@);
            assert(goal[1] == b@);
            assert(strokes(out@) =~= before + goal);
        }
    }

    /// What is to be drawn for the bubble at (`x`, `y`), first to last. `fade`
    /// gives the alpha that each alpha comes to while the bubble appears;
    /// `label_w` is the width of the pill's text; without `body` only the
    /// header is drawn.
    pub fn draw(
        &self,
        x: i32,
        y: i32,
        mode: Mode,
        body: bool,
        s: &BubbleSizes,
        fade: &Vec<u8>,
        label_w: u32,
    ) -> (r: Vec<Stroke>)
        requires
            fade@.len() == 256,
        ensures
            strokes(r@) == self.drawing(x, y, mode, body, *s, fade@, label_w),
    {
        let mut out: Vec<Stroke> = Vec::new();
        assert(strokes(out@) =~= seq![]);
        self.push_panel(&mut out, x, y, s, fade);
        self.push_pill(&mut out, x, y, mode, s, fade, label_w);
        self.push_heading(&mut out, x, y, mode, s);
        if body && self.text.lines.len() > 0 {
            self.push_body(&mut out, x, y, s, fade);
        }
        proof {
            let p = self.panel(x, y, *s, fade@);
            assert(Seq::<StrokeModel>::empty() + p =~= p);
        }
        out
    }
}

/// A card at the back shows its header and nothing below it: what is drawn for
/// it is the same whatever its lines are.
pub proof fn law_back_cards_show_no_lines(
    a: Bubble,
    b: Bubble,
    x: i32,
    y: i32,
    mode: Mode,
    s: BubbleSizes,
    fade: Seq<u8>,
    label_w: u32,
)
    requires
        a.theme == b.theme,
        a.text@.title == b.text@.title,
        a.text@.from == b.text@.from,
        a.text.from is Some <==> b.text.from is Some,
        a.w == b.w && a.h == b.h && a.header_h == b.header_h && a.from_h == b.from_h,
    ensures
        a.drawing(x, y, mode, false, s, fade, label_w) == b.drawing(x, y, mode, false, s, fade, label_w),
{
}

/// The lines of a message that is laid out behind the companion, and where they
/// stand.
pub struct TextOverlay {
    pub lines: Vec<String>,
    pub x: i64,
    pub y: i64,
    pub w: u32,
    pub h: u32,
    /// What was laid out last: the lines, and the size of the companion.
    pub key_lines: Vec<String>,
    pub key_w: u32,
    pub key_h: u32,
}

/// Lengths for the text behind the companion, scaled with the screen.
#[derive(Debug, Clone, Copy)]
pub struct OverlaySizes {
    pub margin_x: u32,
    pub margin_y: u32,
    pub slack: u32,
}

/// The least width and height of the text behind the companion.
pub const LEAST_OVERLAY_W: u32 = 64;

pub const LEAST_OVERLAY_H: u32 = 32;

/// The width of the text behind the companion.
pub open spec fn overlay_width(s: OverlaySizes, pet_w: u32) -> int {
    most(less(pet_w as int, 2 * s.margin_x), LEAST_OVERLAY_W as int)
}

/// How high the text behind the companion may be.
pub open spec fn overlay_budget(s: OverlaySizes, pet_h: u32) -> int {
    most(less(pet_h as int, 2 * s.margin_y), LEAST_OVERLAY_H as int)
}

impl TextOverlay {
    /// Nothing behind the companion.
    pub fn none() -> (r: TextOverlay)
        ensures
            r.lines@.len() == 0 && r.key_lines@.len() == 0,
            r.x == 0 && r.y == 0 && r.w == 0 && r.h == 0,
            r.key_w == 0 && r.key_h == 0,
    {
        TextOverlay { lines: Vec::new(), x: 0, y: 0, w: 0, h: 0, key_lines: Vec::new(), key_w: 0, key_h: 0 }
    }

    /// Begins to lay out lines over the companion's own box, if anything is
    /// new. What comes back are the lines that have to be fitted to a width,
    /// of which at most `max_lines` are shown.
    pub fn layout_if_needed(
        &mut self,
        lines: Vec<String>,
        pet_w: u32,
        pet_h: u32,
        max_lines: usize,
        s: &OverlaySizes,
    ) -> (r: Option<(Fit, u32)>)
        ensures
            ({
                let same = texts(old(self).key_lines@) == texts(lines@) && old(self).key_w == pet_w && old(self).key_h
                    == pet_h;
                if same {
                    *final(self) == *old(self) && r is None
                } else {
                    &&& texts(final(self).key_lines@) == texts(lines@)
                    &&& final(self).key_w == pet_w && final(self).key_h == pet_h
                    &&& final(self).x == old(self).x && final(self).y == old(self).y
                    &&& if lines@.len() == 0 {
                        &&& final(self).lines@.len() == 0 && final(self).w == 0 && final(self).h == 0
                        &&& r is None
                    } else {
                        &&& final(self).lines == old(self).lines && final(self).w == old(self).w && final(self).h
                            == old(self).h
                        &&& r is Some
                        &&& (r->0).1 == overlay_width(*s, pet_w)
                        &&& (r->0).0@ == begun(
                            texts(lines@),
                            overlay_budget(*s, pet_h) as u32,
                            false,
                            Some(max_lines),
                        )
                        &&& (r->0).0@.valid()
                    }
                }
            }),
    {
        if same_lines(&self.key_lines, &lines) && self.key_w == pet_w && self.key_h == pet_h {
            return None;
        }
        self.key_lines = copy_texts(&lines);
        self.key_w = pet_w;
        self.key_h = pet_h;
        if lines.len() == 0 {
            self.lines = Vec::new();
            self.w = 0;
            self.h = 0;
            return None;
        }
        let text_w: u32 = most_of(less_of(pet_w, 2 * s.margin_x as u64), LEAST_OVERLAY_W);
        let budget: u32 = most_of(less_of(pet_h, 2 * s.margin_y as u64), LEAST_OVERLAY_H);
        Some((Fit::begin(lines, budget, false, Some(max_lines)), text_w))
    }

    /// Takes over fitted lines, for a companion that stands at (`pet_x`,
    /// `pet_y`) in the window.
    pub fn accept(&mut self, fit: Fit, text_w: u32, pet_x: i32, pet_y: i32, pet_h: u32, s: &OverlaySizes)
        ensures
            final(self).lines == fit.lines,
            final(self).x == pet_x + s.margin_x,
            final(self).y == pet_y + s.margin_y,
            final(self).w == text_w,
            final(self).h == ({
                let all = fit.height + s.slack;
                let room = less(pet_h as int, s.margin_y as int);
                if all < room { all } else { room }
            }),
            final(self).key_lines == old(self).key_lines,
            final(self).key_w == old(self).key_w,
            final(self).key_h == old(self).key_h,
    {
        let room: u32 = less_of(pet_h, s.margin_y as u64);
        let all: u64 = fit.height as u64 + s.slack as u64;
        self.h = if all < room as u64 {
            all as u32
        } else {
            room
        };
        self.lines = fit.lines;
        self.x = pet_x as i64 + s.margin_x as i64;
        self.y = pet_y as i64 + s.margin_y as i64;
        self.w = text_w;
    }
}

} // verus!
