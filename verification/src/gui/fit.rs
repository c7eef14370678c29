//! Making lines of text fit a height. How high lines come out is measured
//! outside, so fitting them is a dialogue: it asks for the height of some
//! lines, is answered, and asks again until it is done.

use vstd::prelude::*;
use vstd::string::*;

use crate::text::{chars_of, copy_texts, string_of_range, texts};

verus! {

/// What stands for what was left out.
pub open spec fn dots() -> Seq<char> {
    seq!['…']
}

/// Where the dialogue stands.
#[derive(Debug, Clone, Copy, PartialEq, Eq, Structural)]
pub enum Stage {
    /// All lines are being measured.
    Whole,
    /// The longest end of the one line that fits is being looked for. It is
    /// between the first two numbers, or it is the third.
    Search { lo: usize, hi: usize, keep: usize },
    /// The end that fits is being measured with dots before it.
    Lead { keep: usize },
    /// The lines that are left are being measured.
    Drop,
    /// The lines are measured for the last time, with dots after them.
    Last,
    Done,
}

/// Lines on their way to fit.
pub struct Fit {
    pub lines: Vec<String>,
    pub budget: u32,
    /// A line that does not fit loses its beginning.
    pub tail: bool,
    /// How high the lines come out, in the end.
    pub height: u32,
    pub stage: Stage,
}

/// Model of a [`Stage`].
pub enum StageModel {
    Whole,
    Search { lo: int, hi: int, keep: int },
    Lead { keep: int },
    Drop,
    Last,
    Done,
}

impl View for Stage {
    type V = StageModel;

    open spec fn view(&self) -> StageModel {
        match *self {
            Stage::Whole => StageModel::Whole,
            Stage::Search { lo, hi, keep } => StageModel::Search { lo: lo as int, hi: hi as int, keep: keep as int },
            Stage::Lead { keep } => StageModel::Lead { keep: keep as int },
            Stage::Drop => StageModel::Drop,
            Stage::Last => StageModel::Last,
            Stage::Done => StageModel::Done,
        }
    }
}

/// Model of a [`Fit`].
pub struct FitModel {
    pub lines: Seq<Seq<char>>,
    pub budget: u32,
    pub tail: bool,
    pub height: u32,
    pub stage: StageModel,
}

impl View for Fit {
    type V = FitModel;

    open spec fn view(&self) -> FitModel {
        FitModel {
            lines: texts(self.lines@),
            budget: self.budget,
            tail: self.tail,
            height: self.height,
            stage: self.stage@,
        }
    }
}

/// The last `k` characters.
pub open spec fn ending(s: Seq<char>, k: int) -> Seq<char> {
    s.subrange(s.len() - k, s.len() as int)
}

/// The middle of a range, rounded down.
pub open spec fn middle(lo: int, hi: int) -> int {
    (lo + hi) / 2
}

/// The smaller of a height and a budget.
pub open spec fn within(h: u32, budget: u32) -> u32 {
    if h < budget {
        h
    } else {
        budget
    }
}

impl FitModel {
    /// The search goes on within bounds, and what is measured is there.
    pub open spec fn valid(self) -> bool {
        match self.stage {
            StageModel::Search { lo, hi, keep } => self.lines.len() == 1 && 1 <= lo <= hi <= self.lines[0].len() && 1
                <= keep <= self.lines[0].len(),
            StageModel::Lead { keep } => self.lines.len() == 1 && 1 <= keep < self.lines[0].len(),
            StageModel::Drop => self.lines.len() >= 1,
            _ => true,
        }
    }

    /// The lines whose height is asked for.
    pub open spec fn asked(self) -> Option<Seq<Seq<char>>> {
        match self.stage {
            StageModel::Whole | StageModel::Drop | StageModel::Last => Some(self.lines),
            StageModel::Search { lo, hi, .. } => Some(seq![ending(self.lines[0], middle(lo, hi))]),
            StageModel::Lead { keep } => Some(seq![dots() + ending(self.lines[0], keep)]),
            StageModel::Done => None,
        }
    }

    /// Done, with a height.
    pub open spec fn done(self, h: u32) -> FitModel {
        FitModel { height: within(h, self.budget), stage: StageModel::Done, ..self }
    }

    /// The search goes on, or its result is measured with dots. Where no end
    /// of the line fits, the line stays.
    pub open spec fn searching(self, lo: int, hi: int, keep: int) -> FitModel {
        if lo <= hi {
            FitModel { stage: StageModel::Search { lo, hi, keep }, ..self }
        } else if keep < self.lines[0].len() {
            FitModel { stage: StageModel::Lead { keep }, ..self }
        } else {
            self.done(self.budget)
        }
    }

    /// Lines that are too high lose the last one, if there is more than one.
    pub open spec fn dropping(self, h: u32) -> FitModel {
        if h > self.budget && self.lines.len() > 1 {
            FitModel { lines: self.lines.drop_last(), stage: StageModel::Drop, ..self }
        } else {
            self.done(h)
        }
    }

    /// After an answer.
    pub open spec fn answered(self, h: u32) -> FitModel {
        match self.stage {
            StageModel::Whole => if self.tail && self.lines.len() == 1 && h > self.budget {
                let n = self.lines[0].len() as int;
                self.searching(1, n, n)
            } else {
                self.dropping(h)
            },
            StageModel::Search { lo, hi, keep } => {
                let mid = middle(lo, hi);
                if h <= self.budget {
                    self.searching(mid + 1, hi, mid)
                } else {
                    self.searching(lo, mid - 1, keep)
                }
            },
            StageModel::Lead { keep } => {
                let k = if h > self.budget && keep > 1 {
                    keep - 1
                } else {
                    keep
                };
                FitModel { lines: seq![dots() + ending(self.lines[0], k)], stage: StageModel::Last, ..self }
            },
            StageModel::Drop => if h <= self.budget {
                FitModel { lines: self.lines.push(dots()), stage: StageModel::Last, ..self }
            } else {
                self.dropping(h)
            },
            StageModel::Last => self.done(h),
            StageModel::Done => self,
        }
    }

    /// More than the number of answers that are still needed.
    pub open spec fn left(self) -> nat {
        match self.stage {
            StageModel::Whole => (4 + self.lines.len() + (if self.lines.len() == 1 {
                self.lines[0].len()
            } else {
                0
            })) as nat,
            StageModel::Search { lo, hi, .. } => (4 + hi - lo) as nat,
            StageModel::Lead { .. } => 2,
            StageModel::Drop => (2 + self.lines.len()) as nat,
            StageModel::Last => 1,
            StageModel::Done => 0,
        }
    }
}

/// Lines that are to fit. With a limit, no more lines than that are taken, and
/// dots stand for the others.
pub open spec fn begun(lines: Seq<Seq<char>>, budget: u32, tail: bool, limit: Option<usize>) -> FitModel {
    let most = if limit is Some && limit->0 > 1 {
        limit->0 as int
    } else {
        1
    };
    FitModel {
        lines: if limit is Some && lines.len() > most {
            lines.take(most).push(dots())
        } else {
            lines
        },
        budget,
        tail,
        height: 0,
        stage: StageModel::Whole,
    }
}

fn dotted(s: &Vec<char>, k: usize) -> (r: String)
    requires
        k <= s@.len(),
    ensures
        r@ == dots() + ending(s@, k as int),
{
    let mut out = String::new();
    out.push('…');
    let end = string_of_range(s, s.len() - k, s.len());
    out.append(end.as_str());
    assert(out@ =~= dots() + ending(s@, k as int));
    out
}

fn dots_line() -> (r: String)
    ensures
        r@ == dots(),
{
    let mut out = String::new();
    out.push('…');
    assert(out@ =~= dots());
    out
}

impl Fit {
    /// Starts with some lines.
    pub fn begin(lines: Vec<String>, budget: u32, tail: bool, limit: Option<usize>) -> (r: Fit)
        ensures
            r@ == begun(texts(lines@), budget, tail, limit),
            r@.valid(),
    {
        let mut lines = lines;
        let ghost all = texts(lines@);
        match limit {
            Some(l) => {
                let most: usize = if l > 1 {
                    l
                } else {
                    1
                };
                if lines.len() > most {
                    lines.truncate(most);
                    let ghost before = lines@;
                    lines.push(dots_line());
                    proof {
                        assert(texts(before) =~= all.take(most as int));
                        assert(texts(lines@) =~= texts(before).push(dots()));
                    }
                }
            },
            None => {},
        }
        Fit { lines, budget, tail, height: 0, stage: Stage::Whole }
    }

    /// The lines whose height is needed, until the lines fit.
    pub fn ask(&self) -> (r: Option<Vec<String>>)
        requires
            self@.valid(),
        ensures
            r is Some <==> self@.asked() is Some,
            r is Some ==> texts((r->0)@) == self@.asked()->0,
    {
        proof {
            if self.lines@.len() > 0 {
                assert(texts(self.lines@)[0] == self.lines@[0]@);
            }
        }
        match self.stage {
            Stage::Whole | Stage::Drop | Stage::Last => Some(copy_texts(&self.lines)),
            Stage::Search { lo, hi, .. } => {
                let s = chars_of(self.lines[0].as_str());
                let mid: usize = lo + (hi - lo) / 2;
                let line = string_of_range(&s, s.len() - mid, s.len());
                let mut out: Vec<String> = Vec::new();
                out.push(line);
                assert(texts(out@) =~= self@.asked()->0);
                Some(out)
            },
            Stage::Lead { keep } => {
                let s = chars_of(self.lines[0].as_str());
                let mut out: Vec<String> = Vec::new();
                out.push(dotted(&s, keep));
                assert(texts(out@) =~= self@.asked()->0);
                Some(out)
            },
            Stage::Done => None,
        }
    }

    fn search(&mut self, lo: usize, hi: usize, keep: usize, n: usize)
        requires
            old(self).lines@.len() == 1,
            n == old(self).lines@[0]@.len(),
            1 <= lo,
            hi <= n,
            keep <= n,
            keep >= 1 || n == 0,
        ensures
            final(self)@ == old(self)@.searching(lo as int, hi as int, keep as int),
            final(self)@.valid(),
    {
        assert(texts(self.lines@)[0] == self.lines@[0]@);
        if lo <= hi {
            self.stage = Stage::Search { lo, hi, keep };
        } else if keep < n {
            self.stage = Stage::Lead { keep };
        } else {
            self.height = self.budget;
            self.stage = Stage::Done;
        }
    }

    fn finish(&mut self, h: u32)
        ensures
            final(self)@ == old(self)@.done(h),
            final(self)@.valid(),
    {
        self.height = if h < self.budget {
            h
        } else {
            self.budget
        };
        self.stage = Stage::Done;
    }

    fn shorten(&mut self, h: u32)
        ensures
            final(self)@ == old(self)@.dropping(h),
            final(self)@.valid(),
    {
        if h > self.budget && self.lines.len() > 1 {
            let ghost before = self.lines@;
            let _ = self.lines.pop();
            self.stage = Stage::Drop;
            proof {
                assert(texts(self.lines@) =~= texts(before).drop_last());
            }
        } else {
            self.finish(h);
        }
    }

    /// Takes the height of the lines that were asked for.
    pub fn answer(&mut self, h: u32)
        requires
            old(self)@.valid(),
        ensures
            final(self)@ == old(self)@.answered(h),
            final(self)@.valid(),
    {
        proof {
            if self.lines@.len() > 0 {
                assert(texts(self.lines@)[0] == self.lines@[0]@);
            }
        }
        match self.stage {
            Stage::Whole => {
                if self.tail && self.lines.len() == 1 && h > self.budget {
                    let n: usize = chars_of(self.lines[0].as_str()).len();
                    self.search(1, n, n, n);
                } else {
                    self.shorten(h);
                }
            },
            Stage::Search { lo, hi, keep } => {
                let n: usize = chars_of(self.lines[0].as_str()).len();
                let mid: usize = lo + (hi - lo) / 2;
                if h <= self.budget {
                    if mid < hi {
                        self.search(mid + 1, hi, mid, n);
                    } else {
                        self.search(1, 0, mid, n);
                    }
                } else {
                    self.search(lo, mid - 1, keep, n);
                }
            },
            Stage::Lead { keep } => {
                let s = chars_of(self.lines[0].as_str());
                let k: usize = if h > self.budget && keep > 1 {
                    keep - 1
                } else {
                    keep
                };
                let mut lines: Vec<String> = Vec::new();
                lines.push(dotted(&s, k));
                let ghost goal = seq![dots() + ending(self@.lines[0], k as int)];
                assert(texts(lines@) =~= goal);
                self.lines = lines;
                self.stage = Stage::Last;
            },
            Stage::Drop => {
                if h <= self.budget {
                    let ghost before = self.lines@;
                    self.lines.push(dots_line());
                    self.stage = Stage::Last;
                    proof {
                        assert(texts(self.lines@) =~= texts(before).push(dots()));
                    }
                } else {
                    self.shorten(h);
                }
            },
            Stage::Last => {
                self.finish(h);
            },
            Stage::Done => {},
        }
    }
}

/// The dialogue ends: every answer brings it nearer to its end.
pub proof fn law_fit_ends(m: FitModel, h: u32)
    requires
        m.valid(),
        m.asked() is Some,
    ensures
        m.answered(h).valid(),
        m.answered(h).left() < m.left(),
{
}

/// The whole dialogue, with answers from a measure.
pub open spec fn settled(m: FitModel, measure: spec_fn(Seq<Seq<char>>) -> u32) -> FitModel
    decreases m.left(),
    when m.valid()
{
    if m.asked() is Some {
        settled(m.answered(measure(m.asked()->0)), measure)
    } else {
        m
    }
}

/// Lines that fit are shown as they are.
pub proof fn law_fitting_lines_stay(
    lines: Seq<Seq<char>>,
    budget: u32,
    tail: bool,
    measure: spec_fn(Seq<Seq<char>>) -> u32,
)
    requires
        measure(lines) <= budget,
    ensures
        settled(begun(lines, budget, tail, None), measure).lines == lines,
{
    let m = begun(lines, budget, tail, None);
    let n = m.answered(measure(lines));
    assert(n.stage is Done);
    assert(settled(m, measure) == settled(n, measure));
    assert(settled(n, measure) == n);
}

/// `k` of the lines can be shown: they fit, and with any more of them the rest
/// would not.
pub open spec fn most_that_fit(
    lines: Seq<Seq<char>>,
    k: int,
    budget: u32,
    measure: spec_fn(Seq<Seq<char>>) -> u32,
) -> bool {
    &&& 1 <= k < lines.len()
    &&& measure(lines.take(k)) <= budget
    &&& forall|j: int| k < j <= lines.len() ==> measure(#[trigger] lines.take(j)) > budget
}

proof fn lemma_dropped(m: FitModel, all: Seq<Seq<char>>, measure: spec_fn(Seq<Seq<char>>) -> u32)
    requires
        m.stage is Drop,
        1 <= m.lines.len() < all.len(),
        m.lines == all.take(m.lines.len() as int),
        forall|j: int| m.lines.len() < j <= all.len() ==> measure(#[trigger] all.take(j)) > m.budget,
    ensures
        ({
            let shown = settled(m, measure).lines;
            ||| exists|k: int| #[trigger] most_that_fit(all, k, m.budget, measure) && shown == all.take(k).push(dots())
            ||| shown == all.take(1) && measure(all.take(1)) > m.budget
        }),
    decreases m.lines.len(),
{
    let h = measure(m.lines);
    let n = m.answered(h);
    assert(settled(m, measure) == settled(n, measure));
    if h <= m.budget {
        assert(most_that_fit(all, m.lines.len() as int, m.budget, measure));
        let e = n.answered(measure(n.lines));
        assert(settled(n, measure) == settled(e, measure));
        assert(settled(e, measure) == e);
    } else if m.lines.len() > 1 {
        assert(n.lines =~= all.take(n.lines.len() as int));
        lemma_dropped(n, all, measure);
    } else {
        assert(settled(n, measure) == n);
    }
}

/// Several lines that are too high lose as many at the end as they must, and
/// dots stand for these; the first line stays, even where it does not fit.
pub proof fn law_drops_no_more_than_needed(
    lines: Seq<Seq<char>>,
    budget: u32,
    tail: bool,
    measure: spec_fn(Seq<Seq<char>>) -> u32,
)
    requires
        lines.len() > 1,
        measure(lines) > budget,
    ensures
        ({
            let shown = settled(begun(lines, budget, tail, None), measure).lines;
            ||| exists|k: int| #[trigger] most_that_fit(lines, k, budget, measure) && shown == lines.take(k).push(dots())
            ||| shown == lines.take(1) && measure(lines.take(1)) > budget
        }),
{
    let m = begun(lines, budget, tail, None);
    let n = m.answered(measure(lines));
    assert(settled(m, measure) == settled(n, measure));
    assert(n.lines =~= lines.take(lines.len() - 1));
    assert(lines.take(lines.len() as int) =~= lines);
    lemma_dropped(n, lines, measure);
}

/// A longer end of a line is not lower than a shorter one.
pub open spec fn grows(line: Seq<char>, measure: spec_fn(Seq<Seq<char>>) -> u32) -> bool {
    forall|i: int, j: int|
        1 <= i <= j <= line.len() ==> measure(seq![#[trigger] ending(line, i)]) <= measure(
            seq![#[trigger] ending(line, j)],
        )
}

/// The end of a line that is kept fits, and no longer one does.
pub open spec fn longest_that_fits(
    line: Seq<char>,
    k: int,
    budget: u32,
    measure: spec_fn(Seq<Seq<char>>) -> u32,
) -> bool {
    &&& 1 <= k < line.len()
    &&& measure(seq![ending(line, k)]) <= budget
    &&& forall|j: int| k < j <= line.len() ==> measure(seq![#[trigger] ending(line, j)]) > budget
}

proof fn lemma_lead(m: FitModel, measure: spec_fn(Seq<Seq<char>>) -> u32)
    requires
        m.valid(),
        m.stage is Lead,
    ensures
        ({
            let k = m.stage->Lead_keep;
            let line = m.lines[0];
            let whole = dots() + ending(line, k);
            settled(m, measure).lines == if measure(seq![whole]) > m.budget && k > 1 {
                seq![dots() + ending(line, k - 1)]
            } else {
                seq![whole]
            }
        }),
{
    let n = m.answered(measure(m.asked()->0));
    assert(settled(m, measure) == settled(n, measure));
    let e = n.answered(measure(n.lines));
    assert(settled(n, measure) == settled(e, measure));
    assert(settled(e, measure) == e);
}

proof fn lemma_search(m: FitModel, measure: spec_fn(Seq<Seq<char>>) -> u32)
    requires
        m.valid(),
        m.stage is Search,
        grows(m.lines[0], measure),
        ({
            let (lo, hi, keep) = (m.stage->lo, m.stage->hi, m.stage->Search_keep);
            let line = m.lines[0];
            &&& hi <= line.len()
            &&& measure(seq![ending(line, line.len() as int)]) > m.budget
            &&& forall|j: int| hi < j <= line.len() ==> measure(seq![#[trigger] ending(line, j)]) > m.budget
            &&& if lo == 1 {
                keep == line.len()
            } else {
                keep == lo - 1 && measure(seq![ending(line, keep)]) <= m.budget
            }
        }),
    ensures
        tail_kept(m.lines[0], m.budget, measure, settled(m, measure).lines),
    decreases m.stage->hi - m.stage->lo,
{
    let (lo, hi, keep) = (m.stage->lo, m.stage->hi, m.stage->Search_keep);
    let line = m.lines[0];
    let mid = middle(lo, hi);
    let h = measure(m.asked()->0);
    let n = m.answered(h);
    assert(m.asked()->0 == seq![ending(line, mid)]);
    assert(settled(m, measure) == settled(n, measure));
    if h <= m.budget {
        if mid + 1 <= hi {
            lemma_search(n, measure);
        } else {
            if mid < line.len() {
                assert(longest_that_fits(line, mid, m.budget, measure));
                lemma_lead(n, measure);
            }
        }
    } else {
        assert forall|j: int| mid - 1 < j <= line.len() implies measure(seq![#[trigger] ending(line, j)]) > m.budget by {
            assert(measure(seq![ending(line, mid)]) <= measure(seq![ending(line, j)]));
        }
        if lo <= mid - 1 {
            lemma_search(n, measure);
        } else if keep < line.len() {
            assert(keep == mid - 1);
            assert(longest_that_fits(line, keep, m.budget, measure));
            lemma_lead(n, measure);
        } else {
            assert(settled(n, measure) == n);
            assert(m.lines =~= seq![line]);
            assert(lo == 1 && mid == 1);
        }
    }
}

/// What becomes of a line that is too high: it keeps its newest characters, as
/// many as fit, with dots for the others. Where the dots make it too high, one
/// more character goes; where not even one character fits, the line stays.
pub open spec fn tail_kept(
    line: Seq<char>,
    budget: u32,
    measure: spec_fn(Seq<Seq<char>>) -> u32,
    shown: Seq<Seq<char>>,
) -> bool {
    ||| shown == seq![line] && forall|j: int| 1 <= j <= line.len() ==> measure(seq![#[trigger] ending(line, j)]) > budget
    ||| exists|k: int| #[trigger]
        longest_that_fits(line, k, budget, measure) && shown == if measure(seq![dots() + ending(line, k)]) > budget && k
            > 1 {
            seq![dots() + ending(line, k - 1)]
        } else {
            seq![dots() + ending(line, k)]
        }
}

/// One line that is too high keeps its newest characters.
pub proof fn law_newest_are_kept(line: Seq<char>, budget: u32, measure: spec_fn(Seq<Seq<char>>) -> u32)
    requires
        measure(seq![line]) > budget,
        grows(line, measure),
    ensures
        tail_kept(line, budget, measure, settled(begun(seq![line], budget, true, None), measure).lines),
{
    let m = begun(seq![line], budget, true, None);
    let n = m.answered(measure(seq![line]));
    assert(settled(m, measure) == settled(n, measure));
    assert(ending(line, line.len() as int) =~= line);
    if line.len() > 0 {
        lemma_search(n, measure);
    } else {
        assert(settled(n, measure) == n);
    }
}

} // verus!
