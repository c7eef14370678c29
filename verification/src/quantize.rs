//! Reducing the colors of a picture to a palette by median cut: the colors form
//! one box, which is split over and over where it is widest, and each box gives
//! one entry of the palette.

use std::collections::HashMap;
use vstd::prelude::*;

verus! {

broadcast use vstd::std_specs::hash::group_hash_axioms;

/// A color and how many pixels have it.
#[derive(Debug, Clone, Copy)]
pub struct Tint {
    pub r: u8,
    pub g: u8,
    pub b: u8,
    pub n: u64,
}

impl Tint {
    /// One of the three channels.
    pub open spec fn channel(self, ch: int) -> u8 {
        if ch == 0 {
            self.r
        } else if ch == 1 {
            self.g
        } else {
            self.b
        }
    }

    fn channel_of(&self, ch: usize) -> (r: u8)
        ensures
            r == self.channel(ch as int),
    {
        if ch == 0 {
            self.r
        } else if ch == 1 {
            self.g
        } else {
            self.b
        }
    }

    /// The same color, however many pixels have it.
    pub open spec fn has_color(self, r: u8, g: u8, b: u8) -> bool {
        self.r == r && self.g == g && self.b == b
    }
}

/// The sum of `f` over the tints of a box.
pub open spec fn sum_of(b: Seq<Tint>, f: spec_fn(Tint) -> nat) -> nat
    decreases b.len(),
{
    if b.len() == 0 {
        0
    } else {
        sum_of(b.drop_last(), f) + f(b.last())
    }
}

/// How many pixels a box stands for.
pub open spec fn weight(b: Seq<Tint>) -> nat {
    sum_of(b, |c: Tint| c.n as nat)
}

/// The sum of a channel over the pixels of a box.
pub open spec fn channel_sum(b: Seq<Tint>, ch: int) -> nat {
    sum_of(b, |c: Tint| (c.channel(ch) * c.n) as nat)
}

/// The lowest value of a channel in a box.
pub open spec fn lowest(b: Seq<Tint>, ch: int) -> int
    decreases b.len(),
{
    if b.len() == 0 {
        255
    } else {
        let rest = lowest(b.drop_last(), ch);
        if b.last().channel(ch) < rest {
            b.last().channel(ch) as int
        } else {
            rest
        }
    }
}

/// The highest value of a channel in a box.
pub open spec fn highest(b: Seq<Tint>, ch: int) -> int
    decreases b.len(),
{
    if b.len() == 0 {
        0
    } else {
        let rest = highest(b.drop_last(), ch);
        if b.last().channel(ch) > rest {
            b.last().channel(ch) as int
        } else {
            rest
        }
    }
}

/// How wide a box is in a channel. A box of fewer than two colors has no width.
pub open spec fn width(b: Seq<Tint>, ch: int) -> int {
    if b.len() < 2 {
        0
    } else {
        highest(b, ch) - lowest(b, ch)
    }
}

/// Box `i` in channel `c` comes before box `j` in channel `d`.
pub open spec fn before(i: int, c: int, j: int, d: int) -> bool {
    i < j || i == j && c < d
}

/// A box and a channel of it.
pub open spec fn is_side(boxes: Seq<Seq<Tint>>, i: int, c: int) -> bool {
    0 <= i < boxes.len() && 0 <= c < 3
}

/// Box `i` in channel `c` is the widest there is, and the first of that width.
pub open spec fn is_widest(boxes: Seq<Seq<Tint>>, i: int, c: int) -> bool {
    &&& is_side(boxes, i, c)
    &&& width(boxes[i], c) > 0
    &&& forall|j: int, d: int| #[trigger]
        is_side(boxes, j, d) ==> width(boxes[j], d) <= width(boxes[i], c) && (before(j, d, i, c) ==> width(boxes[j], d)
            < width(boxes[i], c))
}

/// Where to split next, if any box can be split.
pub open spec fn widest(boxes: Seq<Seq<Tint>>) -> Option<(int, int)> {
    if exists|i: int, c: int| is_widest(boxes, i, c) {
        Some(choose|i: int, c: int| is_widest(boxes, i, c))
    } else {
        None
    }
}

/// The tints of a box whose channel has the value `v`.
pub open spec fn with_value(b: Seq<Tint>, ch: int, v: int) -> Seq<Tint> {
    b.filter(|c: Tint| c.channel(ch) == v)
}

/// The tints of a box whose channel is below `v`, by that channel; tints that
/// agree in it keep their order.
pub open spec fn sorted_below(b: Seq<Tint>, ch: int, v: nat) -> Seq<Tint>
    decreases v,
{
    if v == 0 {
        Seq::empty()
    } else {
        sorted_below(b, ch, (v - 1) as nat) + with_value(b, ch, v - 1)
    }
}

/// A box sorted by a channel; tints that agree in it keep their order.
pub open spec fn sorted_by(b: Seq<Tint>, ch: int) -> Seq<Tint> {
    sorted_below(b, ch, 256)
}

/// The first place from `i` on at which half the weight is reached.
pub open spec fn half_from(s: Seq<Tint>, i: int) -> int
    decreases s.len() - i,
{
    if i < 0 || i >= s.len() - 1 || weight(s.take(i + 1)) * 2 >= weight(s) {
        i
    } else {
        half_from(s, i + 1)
    }
}

/// How many tints go to the lower half: those up to the weighted median, but
/// not all of them.
pub open spec fn cut_at(s: Seq<Tint>) -> int {
    let k = half_from(s, 0) + 1;
    if k > s.len() - 1 {
        s.len() - 1
    } else {
        k
    }
}

/// The boxes after box `i` has been split in channel `c`.
pub open spec fn split_box(boxes: Seq<Seq<Tint>>, i: int, c: int) -> Seq<Seq<Tint>> {
    let s = sorted_by(boxes[i], c);
    boxes.remove(i).push(s.take(cut_at(s))).push(s.skip(cut_at(s)))
}

/// The boxes split until there are `max` or none can be split.
pub open spec fn boxes_of(boxes: Seq<Seq<Tint>>, max: nat) -> Seq<Seq<Tint>>
    decreases max - boxes.len(),
{
    if boxes.len() >= max {
        boxes
    } else {
        match widest(boxes) {
            None => boxes,
            Some((i, c)) => if is_side(boxes, i, c) {
                boxes_of(split_box(boxes, i, c), max)
            } else {
                boxes
            },
        }
    }
}

/// The average of a channel over the pixels of a box.
pub open spec fn average(b: Seq<Tint>, ch: int) -> int {
    let n = weight(b);
    channel_sum(b, ch) as int / (if n == 0 { 1 } else { n as int })
}

/// The average colors of boxes.
pub open spec fn averages(boxes: Seq<Seq<Tint>>) -> Seq<u8>
    decreases boxes.len(),
{
    if boxes.len() == 0 {
        Seq::empty()
    } else {
        let b = boxes.last();
        averages(boxes.drop_last()) + seq![average(b, 0) as u8, average(b, 1) as u8, average(b, 2) as u8]
    }
}

/// The palette for a picture of the given tints.
pub open spec fn palette_of(colors: Seq<Tint>, max: nat) -> Seq<u8> {
    averages(boxes_of(seq![colors], max))
}

/// The contents of boxes.
pub open spec fn contents(boxes: Seq<Vec<Tint>>) -> Seq<Seq<Tint>> {
    boxes.map_values(|b: Vec<Tint>| b@)
}

pub proof fn lemma_sum_take(b: Seq<Tint>, f: spec_fn(Tint) -> nat, i: int)
    requires
        0 <= i < b.len(),
    ensures
        sum_of(b.take(i + 1), f) == sum_of(b.take(i), f) + f(b[i]),
{
    assert(b.take(i + 1).drop_last() =~= b.take(i));
    assert(b.take(i + 1).last() == b[i]);
}

proof fn lemma_sum_grows(b: Seq<Tint>, f: spec_fn(Tint) -> nat, i: int)
    requires
        0 <= i <= b.len(),
    ensures
        sum_of(b.take(i), f) <= sum_of(b, f),
    decreases b.len() - i,
{
    if i == b.len() {
        assert(b.take(i) =~= b);
    } else {
        lemma_sum_grows(b, f, i + 1);
        lemma_sum_take(b, f, i);
    }
}

proof fn lemma_sum_add(a: Seq<Tint>, b: Seq<Tint>, f: spec_fn(Tint) -> nat)
    ensures
        sum_of(a + b, f) == sum_of(a, f) + sum_of(b, f),
    decreases b.len(),
{
    if b.len() == 0 {
        assert(a + b =~= a);
    } else {
        assert((a + b).drop_last() =~= a + b.drop_last());
        assert((a + b).last() == b.last());
        lemma_sum_add(a, b.drop_last(), f);
    }
}

/// The sum of `f` over the tints whose channel is below `v`.
spec fn sum_below(b: Seq<Tint>, f: spec_fn(Tint) -> nat, ch: int, v: int) -> nat {
    sum_of(b, |c: Tint| if c.channel(ch) < v { f(c) } else { 0 })
}

proof fn lemma_sum_value(b: Seq<Tint>, f: spec_fn(Tint) -> nat, ch: int, v: int)
    ensures
        sum_below(b, f, ch, v + 1) == sum_below(b, f, ch, v) + sum_of(with_value(b, ch, v), f),
    decreases b.len(),
{
    reveal(Seq::filter);
    if b.len() > 0 {
        lemma_sum_value(b.drop_last(), f, ch, v);
        let rest = with_value(b.drop_last(), ch, v);
        if b.last().channel(ch) == v {
            assert(with_value(b, ch, v) == rest.push(b.last()));
            assert(rest.push(b.last()).drop_last() =~= rest);
        } else {
            assert(with_value(b, ch, v) == rest);
        }
    } else {
        assert(with_value(b, ch, v) =~= Seq::<Tint>::empty());
    }
}

proof fn lemma_sum_sorted_below(b: Seq<Tint>, f: spec_fn(Tint) -> nat, ch: int, v: nat)
    ensures
        sum_of(sorted_below(b, ch, v), f) == sum_below(b, f, ch, v as int),
    decreases v,
{
    if v == 0 {
        lemma_sum_none(b, f, ch);
    } else {
        lemma_sum_sorted_below(b, f, ch, (v - 1) as nat);
        lemma_sum_value(b, f, ch, v - 1);
        lemma_sum_add(sorted_below(b, ch, (v - 1) as nat), with_value(b, ch, v - 1), f);
    }
}

proof fn lemma_sum_none(b: Seq<Tint>, f: spec_fn(Tint) -> nat, ch: int)
    ensures
        sum_below(b, f, ch, 0) == 0,
    decreases b.len(),
{
    if b.len() > 0 {
        lemma_sum_none(b.drop_last(), f, ch);
    }
}

proof fn lemma_sum_all(b: Seq<Tint>, f: spec_fn(Tint) -> nat, ch: int)
    ensures
        sum_below(b, f, ch, 256) == sum_of(b, f),
    decreases b.len(),
{
    if b.len() > 0 {
        lemma_sum_all(b.drop_last(), f, ch);
    }
}

/// Sorting changes no sum.
pub proof fn lemma_sum_sorted(b: Seq<Tint>, f: spec_fn(Tint) -> nat, ch: int)
    ensures
        sum_of(sorted_by(b, ch), f) == sum_of(b, f),
{
    lemma_sum_sorted_below(b, f, ch, 256);
    lemma_sum_all(b, f, ch);
}

proof fn lemma_sum_ones(b: Seq<Tint>)
    ensures
        sum_of(b, |c: Tint| 1nat) == b.len(),
    decreases b.len(),
{
    if b.len() > 0 {
        lemma_sum_ones(b.drop_last());
    }
}

/// Sorting keeps the number of tints.
pub proof fn lemma_sorted_len(b: Seq<Tint>, ch: int)
    ensures
        sorted_by(b, ch).len() == b.len(),
{
    lemma_sum_sorted(b, |c: Tint| 1nat, ch);
    lemma_sum_ones(b);
    lemma_sum_ones(sorted_by(b, ch));
}

fn box_weight(b: &Vec<Tint>) -> (r: u64)
    requires
        weight(b@) <= u64::MAX,
    ensures
        r == weight(b@),
{
    let mut sum: u64 = 0;
    let mut i: usize = 0;
    let n: usize = b.len();
    let ghost f = |c: Tint| c.n as nat;
    assert(b@.take(0) =~= Seq::<Tint>::empty());
    while i < n
        invariant
            i <= n == b@.len(),
            f == (|c: Tint| c.n as nat),
            sum == sum_of(b@.take(i as int), f),
            sum_of(b@, f) <= u64::MAX,
        decreases n - i,
    {
        proof {
            lemma_sum_take(b@, f, i as int);
            lemma_sum_grows(b@, f, i as int + 1);
        }
        sum += b[i].n;
        i += 1;
    }
    assert(b@.take(n as int) =~= b@);
    sum
}

fn box_width(b: &Vec<Tint>, ch: usize) -> (r: i32)
    ensures
        r == width(b@, ch as int),
        r <= 255,
{
    let n: usize = b.len();
    if n < 2 {
        return 0;
    }
    let mut lo: i32 = 255;
    let mut hi: i32 = 0;
    let mut i: usize = 0;
    assert(b@.take(0) =~= Seq::<Tint>::empty());
    while i < n
        invariant
            i <= n == b@.len(),
            0 <= lo <= 255,
            0 <= hi <= 255,
            lo == lowest(b@.take(i as int), ch as int),
            hi == highest(b@.take(i as int), ch as int),
        decreases n - i,
    {
        proof {
            assert(b@.take(i as int + 1).drop_last() =~= b@.take(i as int));
            assert(b@.take(i as int + 1).last() == b@[i as int]);
        }
        let v: i32 = b[i].channel_of(ch) as i32;
        if v < lo {
            lo = v;
        }
        if v > hi {
            hi = v;
        }
        i += 1;
    }
    assert(b@.take(n as int) =~= b@);
    hi - lo
}

proof fn lemma_widest(boxes: Seq<Seq<Tint>>, i: int, c: int)
    requires
        is_widest(boxes, i, c),
    ensures
        widest(boxes) == Some((i, c)),
{
    let (j, d) = widest(boxes)->0;
    assert(is_widest(boxes, j, d));
    assert(is_side(boxes, i, c) && is_side(boxes, j, d));
    assert(before(i, c, j, d) || before(j, d, i, c) || (i == j && c == d));
}

/// Finds where to split next.
fn find_widest(boxes: &Vec<Vec<Tint>>) -> (r: Option<(usize, usize)>)
    ensures
        match r {
            Some((i, c)) => is_widest(contents(boxes@), i as int, c as int),
            None => forall|i: int, c: int| !is_widest(contents(boxes@), i, c),
        },
{
    let ghost m = contents(boxes@);
    let mut best: Option<(usize, usize, i32)> = None;
    let n: usize = boxes.len();
    let mut bi: usize = 0;
    while bi < n
        invariant
            bi <= n == boxes@.len(),
            m == contents(boxes@),
            match best {
                Some((i, c, w)) => {
                    &&& is_side(m, i as int, c as int)
                    &&& w == width(m[i as int], c as int)
                    &&& w > 0
                    &&& forall|j: int, d: int| #[trigger]
                        is_side(m, j, d) && j < bi ==> width(m[j], d) <= w && (before(j, d, i as int, c as int)
                            ==> width(m[j], d) < w)
                },
                None => forall|j: int, d: int| #[trigger] is_side(m, j, d) && j < bi ==> width(m[j], d) <= 0,
            },
            best is Some ==> (best->0).0 < bi,
        decreases n - bi,
    {
        let mut ch: usize = 0;
        while ch < 3
            invariant
                bi < n == boxes@.len(),
                ch <= 3,
                m == contents(boxes@),
                match best {
                    Some((i, c, w)) => {
                        &&& is_side(m, i as int, c as int)
                        &&& w == width(m[i as int], c as int)
                        &&& w > 0
                        &&& forall|j: int, d: int| #[trigger]
                            is_side(m, j, d) && before(j, d, bi as int, ch as int) ==> width(m[j], d) <= w && (before(
                                j,
                                d,
                                i as int,
                                c as int,
                            ) ==> width(m[j], d) < w)
                    },
                    None => forall|j: int, d: int| #[trigger]
                        is_side(m, j, d) && before(j, d, bi as int, ch as int) ==> width(m[j], d) <= 0,
                },
                best is Some ==> before((best->0).0 as int, (best->0).1 as int, bi as int, ch as int),
            decreases 3 - ch,
        {
            let w: i32 = box_width(&boxes[bi], ch);
            assert(m[bi as int] == boxes@[bi as int]@);
            assert(is_side(m, bi as int, ch as int));
            let better = match best {
                Some((_, _, bw)) => w > bw,
                None => w > 0,
            };
            if better {
                best = Some((bi, ch, w));
            }
            ch += 1;
        }
        bi += 1;
    }
    match best {
        Some((i, c, w)) => {
            proof {
                assert forall|j: int, d: int| #[trigger] is_side(m, j, d) implies width(m[j], d) <= width(
                    m[i as int],
                    c as int,
                ) && (before(j, d, i as int, c as int) ==> width(m[j], d) < width(m[i as int], c as int)) by {
                    assert(j < n);
                }
                assert(is_widest(m, i as int, c as int));
            }
            Some((i, c))
        },
        None => {
            proof {
                assert forall|i: int, c: int| !is_widest(m, i, c) by {
                    if is_widest(m, i, c) {
                        assert(is_side(m, i, c));
                        assert(width(m[i], c) <= 0);
                    }
                }
            }
            None
        },
    }
}

/// Sorts a box by a channel.
fn sort_box(b: &Vec<Tint>, ch: usize) -> (r: Vec<Tint>)
    ensures
        r@ == sorted_by(b@, ch as int),
{
    let mut out: Vec<Tint> = Vec::new();
    let mut v: usize = 0;
    let n: usize = b.len();
    while v < 256
        invariant
            v <= 256,
            n == b@.len(),
            out@ == sorted_below(b@, ch as int, v as nat),
        decreases 256 - v,
    {
        let mut i: usize = 0;
        let ghost head = out@;
        let ghost p = |c: Tint| c.channel(ch as int) == v;
        proof {
            reveal(Seq::filter);
            assert(b@.take(0) =~= Seq::<Tint>::empty());
            assert(head + b@.take(0).filter(p) =~= head);
        }
        while i < n
            invariant
                i <= n == b@.len(),
                v < 256,
                p == (|c: Tint| c.channel(ch as int) == v),
                out@ == head + b@.take(i as int).filter(p),
            decreases n - i,
        {
            proof {
                reveal(Seq::filter);
                assert(b@.take(i as int + 1).drop_last() =~= b@.take(i as int));
                assert(b@.take(i as int + 1).last() == b@[i as int]);
            }
            let ghost so_far = b@.take(i as int).filter(p);
            let c: Tint = b[i];
            if c.channel_of(ch) as usize == v {
                out.push(c);
                assert(b@.take(i as int + 1).filter(p) == so_far.push(c));
                assert(out@ =~= head + so_far.push(c));
            } else {
                assert(b@.take(i as int + 1).filter(p) == so_far);
            }
            i += 1;
        }
        proof {
            assert(b@.take(n as int) =~= b@);
            assert(p =~= (|c: Tint| c.channel(ch as int) == v as int));
            assert(b@.filter(p) == with_value(b@, ch as int, v as int));
        }
        v += 1;
    }
    out
}

/// Finds the weighted median.
fn find_cut(s: &Vec<Tint>) -> (r: usize)
    requires
        s@.len() >= 2,
        weight(s@) <= u64::MAX,
    ensures
        r == cut_at(s@),
        1 <= r < s@.len(),
{
    let total: u64 = box_weight(s);
    let n: usize = s.len();
    let mut acc: u64 = 0;
    let mut i: usize = 0;
    let ghost f = |c: Tint| c.n as nat;
    assert(s@.take(0) =~= Seq::<Tint>::empty());
    while i < n - 1
        invariant
            i <= n - 1,
            n == s@.len(),
            n >= 2,
            f == (|c: Tint| c.n as nat),
            total == sum_of(s@, f),
            acc == sum_of(s@.take(i as int), f),
            half_from(s@, 0) == half_from(s@, i as int),
            i < n,
        decreases n - i,
    {
        proof {
            lemma_sum_take(s@, f, i as int);
            lemma_sum_grows(s@, f, i as int + 1);
        }
        acc += s[i].n;
        if acc as u128 * 2 >= total as u128 {
            return i + 1;
        }
        i += 1;
    }
    n - 1
}

/// Copies a part of a box.
fn part_of(s: &Vec<Tint>, from: usize, to: usize) -> (r: Vec<Tint>)
    requires
        from <= to <= s@.len(),
    ensures
        r@ == s@.subrange(from as int, to as int),
{
    let mut out: Vec<Tint> = Vec::new();
    let mut i: usize = from;
    while i < to
        invariant
            from <= i <= to <= s@.len(),
            out@ == s@.subrange(from as int, i as int),
        decreases to - i,
    {
        out.push(s[i]);
        assert(s@.subrange(from as int, i as int + 1) =~= s@.subrange(from as int, i as int).push(s@[i as int]));
        i += 1;
    }
    out
}

proof fn lemma_average_fits(b: Seq<Tint>, ch: int)
    ensures
        0 <= average(b, ch) <= 255,
        channel_sum(b, ch) <= 255 * weight(b),
    decreases b.len(),
{
    if b.len() > 0 {
        lemma_average_fits(b.drop_last(), ch);
        let c = b.last();
        let v: int = c.channel(ch) as int;
        let n: int = c.n as int;
        assert(v * n <= 255 * n) by (nonlinear_arith)
            requires
                0 <= v <= 255,
                0 <= n,
        ;
    }
    let s: int = channel_sum(b, ch) as int;
    let w: int = weight(b) as int;
    if w > 0 {
        assert(0 <= s / w <= 255) by (nonlinear_arith)
            requires
                0 <= s <= 255 * w,
                w > 0,
        ;
    }
}

fn box_average(b: &Vec<Tint>, ch: usize) -> (r: u8)
    requires
        weight(b@) <= u64::MAX,
    ensures
        r == average(b@, ch as int),
{
    let w: u64 = box_weight(b);
    let mut sum: u128 = 0;
    let mut i: usize = 0;
    let n: usize = b.len();
    let ghost f = |c: Tint| (c.channel(ch as int) * c.n) as nat;
    assert(b@.take(0) =~= Seq::<Tint>::empty());
    proof {
        lemma_average_fits(b@, ch as int);
    }
    while i < n
        invariant
            i <= n == b@.len(),
            f == (|c: Tint| (c.channel(ch as int) * c.n) as nat),
            sum == sum_of(b@.take(i as int), f),
            sum_of(b@, f) <= 255 * weight(b@),
            weight(b@) <= u64::MAX,
        decreases n - i,
    {
        let c: Tint = b[i];
        let v: u8 = c.channel_of(ch);
        proof {
            lemma_sum_take(b@, f, i as int);
            lemma_sum_grows(b@, f, i as int + 1);
            let x: int = v as int;
            let y: int = c.n as int;
            assert(0 <= x * y <= 255 * 0x1_0000_0000_0000_0000) by (nonlinear_arith)
                requires
                    0 <= x <= 255,
                    0 <= y <= 0x1_0000_0000_0000_0000,
            ;
        }
        sum += v as u128 * c.n as u128;
        i += 1;
    }
    assert(b@.take(n as int) =~= b@);
    let d: u128 = if w == 0 {
        1
    } else {
        w as u128
    };
    (sum / d) as u8
}

/// Every box stands for at most `most` pixels.
spec fn bounded(boxes: Seq<Seq<Tint>>, most: nat) -> bool {
    forall|i: int| 0 <= i < boxes.len() ==> weight(#[trigger] boxes[i]) <= most
}

proof fn lemma_split_bounded(boxes: Seq<Seq<Tint>>, i: int, c: int, most: nat)
    requires
        is_side(boxes, i, c),
        boxes[i].len() >= 2,
        bounded(boxes, most),
    ensures
        bounded(split_box(boxes, i, c), most),
        split_box(boxes, i, c).len() == boxes.len() + 1,
{
    let f = |c: Tint| c.n as nat;
    let s = sorted_by(boxes[i], c);
    let k = cut_at(s);
    lemma_sorted_len(boxes[i], c);
    lemma_sum_sorted(boxes[i], f, c);
    lemma_half(s, 0);
    assert(s.take(k) + s.skip(k) =~= s);
    lemma_sum_add(s.take(k), s.skip(k), f);
    let r = split_box(boxes, i, c);
    let rest = boxes.remove(i);
    assert forall|j: int| 0 <= j < r.len() implies weight(#[trigger] r[j]) <= most by {
        if j < rest.len() {
            assert(r[j] == rest[j]);
            assert(rest[j] == boxes[if j < i { j } else { j + 1 }]);
        }
    }
}

proof fn lemma_half(s: Seq<Tint>, i: int)
    requires
        0 <= i,
        s.len() >= 2,
        i <= s.len() - 1,
    ensures
        i <= half_from(s, i) <= s.len() - 1,
    decreases s.len() - i,
{
    if i < s.len() - 1 {
        lemma_half(s, i + 1);
    }
}

/// Makes a palette of at most `max` entries for a picture of the given tints:
/// the box that is widest in a channel is split at its weighted median until
/// there are `max` boxes or none is left to split, and each box gives its
/// average color. There is always one box, even where none is asked for.
pub fn quantize_palette(colors: Vec<Tint>, max: usize) -> (r: Vec<u8>)
    requires
        weight(colors@) <= u64::MAX,
    ensures
        r@ == palette_of(colors@, max as nat),
{
    let ghost all = colors@;
    let mut boxes: Vec<Vec<Tint>> = Vec::new();
    boxes.push(colors);
    let ghost goal = boxes_of(seq![all], max as nat);
    proof {
        assert(contents(boxes@) =~= seq![all]);
    }
    let mut done = false;
    while boxes.len() < max && !done
        invariant
            bounded(contents(boxes@), u64::MAX as nat),
            goal == if done {
                contents(boxes@)
            } else {
                boxes_of(contents(boxes@), max as nat)
            },
        decreases max - boxes@.len(), (if done { 0int } else { 1 }),
    {
        let ghost m = contents(boxes@);
        match find_widest(&boxes) {
            None => {
                proof {
                    assert(widest(m) is None);
                }
                done = true;
            },
            Some((bi, ch)) => {
                proof {
                    lemma_widest(m, bi as int, ch as int);
                    lemma_split_bounded(m, bi as int, ch as int, u64::MAX as nat);
                    lemma_sorted_len(m[bi as int], ch as int);
                    lemma_sum_sorted(m[bi as int], |c: Tint| c.n as nat, ch as int);
                    assert(m[bi as int] == boxes@[bi as int]@);
                    assert(weight(m[bi as int]) <= u64::MAX);
                }
                let b = boxes.remove(bi);
                assert(b@ == m[bi as int]);
                let sorted = sort_box(&b, ch);
                let k: usize = find_cut(&sorted);
                let low = part_of(&sorted, 0, k);
                let high = part_of(&sorted, k, sorted.len());
                boxes.push(low);
                boxes.push(high);
                proof {
                    assert(low@ =~= sorted@.take(k as int));
                    assert(high@ =~= sorted@.skip(k as int));
                    assert(contents(boxes@) =~= split_box(m, bi as int, ch as int));
                }
            },
        }
    }
    proof {
        assert(goal == contents(boxes@));
    }
    let mut palette: Vec<u8> = Vec::new();
    let mut i: usize = 0;
    let n: usize = boxes.len();
    assert(goal.take(0) =~= Seq::<Seq<Tint>>::empty());
    while i < n
        invariant
            i <= n == boxes@.len(),
            goal == contents(boxes@),
            bounded(goal, u64::MAX as nat),
            palette@ == averages(goal.take(i as int)),
        decreases n - i,
    {
        proof {
            assert(goal[i as int] == boxes@[i as int]@);
            assert(weight(goal[i as int]) <= u64::MAX);
            assert(goal.take(i as int + 1).drop_last() =~= goal.take(i as int));
            assert(goal.take(i as int + 1).last() == goal[i as int]);
        }
        let ghost before = palette@;
        palette.push(box_average(&boxes[i], 0));
        palette.push(box_average(&boxes[i], 1));
        palette.push(box_average(&boxes[i], 2));
        proof {
            let b = goal[i as int];
            assert(palette@ =~= before + seq![average(b, 0) as u8, average(b, 1) as u8, average(b, 2) as u8]);
        }
        i += 1;
    }
    assert(goal.take(n as int) =~= goal);
    palette
}

proof fn lemma_averages_len(boxes: Seq<Seq<Tint>>)
    ensures
        averages(boxes).len() == 3 * boxes.len(),
    decreases boxes.len(),
{
    if boxes.len() > 0 {
        lemma_averages_len(boxes.drop_last());
    }
}

proof fn lemma_boxes_len(boxes: Seq<Seq<Tint>>, max: nat)
    requires
        0 < boxes.len() <= max,
    ensures
        boxes.len() <= boxes_of(boxes, max).len() <= max,
    decreases max - boxes.len(),
{
    if boxes.len() < max {
        match widest(boxes) {
            None => {},
            Some((i, c)) => {
                if is_side(boxes, i, c) {
                    lemma_boxes_len(split_box(boxes, i, c), max);
                }
            },
        }
    }
}

/// A palette has at least one entry and at most as many as asked for; where none
/// is asked for, it has the one that stands for the whole picture.
pub proof fn law_palette_bounded(colors: Seq<Tint>, max: nat)
    ensures
        palette_of(colors, max).len() % 3 == 0,
        3 <= palette_of(colors, max).len(),
        max > 0 ==> palette_of(colors, max).len() <= 3 * max,
        palette_of(colors, 0) == palette_of(colors, 1),
        palette_of(colors, 0).len() == 3,
{
    if max > 0 {
        lemma_boxes_len(seq![colors], max);
    }
    lemma_averages_len(boxes_of(seq![colors], max));
    lemma_averages_len(seq![colors]);
}

/// A picture of a single color keeps it.
pub proof fn law_single_color_kept(c: Tint, max: nat)
    requires
        c.n > 0,
    ensures
        palette_of(seq![c], max) == seq![c.r, c.g, c.b],
{
    let b = seq![c];
    let boxes = seq![b];
    assert(widest(boxes) is None) by {
        assert forall|i: int, d: int| !is_widest(boxes, i, d) by {
            if is_widest(boxes, i, d) {
                assert(width(boxes[i], d) == 0);
            }
        }
    }
    assert(boxes_of(boxes, max) == boxes);
    assert(b.drop_last() =~= Seq::<Tint>::empty());
    assert(boxes.drop_last() =~= Seq::<Seq<Tint>>::empty());
    assert(averages(boxes.drop_last()) == Seq::<u8>::empty());
    assert(weight(b) == c.n) by {
        let f = |c: Tint| c.n as nat;
        assert(sum_of(b.drop_last(), f) == 0);
    }
    assert forall|ch: int| 0 <= ch < 3 implies average(b, ch) == #[trigger] c.channel(ch) by {
        let f = |c: Tint| (c.channel(ch) * c.n) as nat;
        assert(sum_of(b.drop_last(), f) == 0);
        let v: int = c.channel(ch) as int;
        let n: int = c.n as int;
        assert(v * n / n == v && v * n >= 0) by (nonlinear_arith)
            requires
                n > 0,
                v >= 0,
        ;
    }
    assert(c.channel(0) == c.r && c.channel(1) == c.g && c.channel(2) == c.b);
    assert(averages(boxes) =~= seq![c.r, c.g, c.b]);
}

/// How far entry `i` of a palette is from a color.
pub open spec fn distance(palette: Seq<u8>, i: int, r: u8, g: u8, b: u8) -> int {
    let x = palette[3 * i] - r;
    let y = palette[3 * i + 1] - g;
    let z = palette[3 * i + 2] - b;
    x * x + y * y + z * z
}

/// Entry `i` is the nearest to a color, and the first of those.
pub open spec fn is_nearest(palette: Seq<u8>, i: int, r: u8, g: u8, b: u8) -> bool {
    &&& 0 <= i < palette.len() / 3
    &&& forall|j: int|
        0 <= j < palette.len() / 3 ==> distance(palette, i, r, g, b) <= #[trigger] distance(palette, j, r, g, b)
    &&& forall|j: int| 0 <= j < i ==> distance(palette, i, r, g, b) < #[trigger] distance(palette, j, r, g, b)
}

/// The entry of a palette that stands for a color, counted modulo 256; the first
/// one where the palette is empty.
pub open spec fn nearest_in(palette: Seq<u8>, r: u8, g: u8, b: u8) -> u8 {
    if palette.len() == 0 {
        0
    } else {
        ((choose|i: int| is_nearest(palette, i, r, g, b)) % 256) as u8
    }
}

proof fn lemma_distance_bound(x: int, y: int, z: int)
    by (nonlinear_arith)
    requires
        -255 <= x <= 255,
        -255 <= y <= 255,
        -255 <= z <= 255,
    ensures
        0 <= x * x <= 65025,
        0 <= y * y <= 65025,
        0 <= z * z <= 65025,
{
}

proof fn lemma_nearest_among(palette: Seq<u8>, n: int, r: u8, g: u8, b: u8) -> (i: int)
    requires
        0 < n <= palette.len() / 3,
    ensures
        0 <= i < n,
        forall|j: int| 0 <= j < n ==> distance(palette, i, r, g, b) <= #[trigger] distance(palette, j, r, g, b),
        forall|j: int| 0 <= j < i ==> distance(palette, i, r, g, b) < #[trigger] distance(palette, j, r, g, b),
    decreases n,
{
    if n == 1 {
        0
    } else {
        let k = lemma_nearest_among(palette, n - 1, r, g, b);
        if distance(palette, n - 1, r, g, b) < distance(palette, k, r, g, b) {
            n - 1
        } else {
            k
        }
    }
}

/// A palette has an entry that is nearest to a color.
pub proof fn lemma_nearest_in(palette: Seq<u8>, r: u8, g: u8, b: u8)
    requires
        3 <= palette.len() <= 768,
    ensures
        is_nearest(palette, nearest_in(palette, r, g, b) as int, r, g, b),
{
    let i = lemma_nearest_among(palette, palette.len() as int / 3, r, g, b);
    assert(is_nearest(palette, i, r, g, b));
}

/// Finds the entry of a palette that is nearest to a color.
pub fn nearest_palette_index(r: u8, g: u8, b: u8, palette: &Vec<u8>) -> (i: u8)
    requires
        palette@.len() % 3 == 0,
    ensures
        i == nearest_in(palette@, r, g, b),
        palette@.len() == 0 ==> i == 0,
        0 < palette@.len() <= 768 ==> is_nearest(palette@, i as int, r, g, b),
{
    let n: usize = palette.len() / 3;
    let mut best: usize = 0;
    let mut best_d: i64 = i64::MAX;
    let mut i: usize = 0;
    while i < n
        invariant
            i <= n == palette@.len() / 3,
            n == palette.len() / 3,
            i == 0 ==> best == 0 && best_d == i64::MAX,
            i > 0 ==> best < i && best_d == distance(palette@, best as int, r, g, b),
            forall|j: int| 0 <= j < i ==> best_d <= #[trigger] distance(palette@, j, r, g, b),
            forall|j: int| 0 <= j < best ==> best_d < #[trigger] distance(palette@, j, r, g, b),
        decreases n - i,
    {
        let x: i64 = palette[3 * i] as i64 - r as i64;
        let y: i64 = palette[3 * i + 1] as i64 - g as i64;
        let z: i64 = palette[3 * i + 2] as i64 - b as i64;
        proof {
            lemma_distance_bound(x as int, y as int, z as int);
        }
        let d: i64 = x * x + y * y + z * z;
        assert(d == distance(palette@, i as int, r, g, b));
        if d < best_d {
            best_d = d;
            best = i;
        }
        i += 1;
    }
    proof {
        if n > 0 {
            assert(is_nearest(palette@, best as int, r, g, b));
            let c = choose|k: int| is_nearest(palette@, k, r, g, b);
            assert(is_nearest(palette@, c, r, g, b));
            assert(distance(palette@, c, r, g, b) <= distance(palette@, best as int, r, g, b));
            assert(distance(palette@, best as int, r, g, b) <= distance(palette@, c, r, g, b));
            assert(c == best);
        }
    }
    (best % 256) as u8
}

/// Where a color stands in a list of tints; behind the last one where it does
/// not stand in it.
pub open spec fn place_of(list: Seq<Tint>, r: u8, g: u8, b: u8) -> int
    decreases list.len(),
{
    if list.len() == 0 || list[0].has_color(r, g, b) {
        0
    } else {
        1 + place_of(list.drop_first(), r, g, b)
    }
}

/// A list of tints with one more pixel counted.
pub open spec fn counted(list: Seq<Tint>, r: u8, g: u8, b: u8) -> Seq<Tint> {
    let i = place_of(list, r, g, b);
    if i < list.len() {
        list.update(i, Tint { n: (list[i].n + 1) as u64, ..list[i] })
    } else {
        list.push(Tint { r, g, b, n: 1 })
    }
}

/// The tints of the first `n` pixels of RGBA bytes, in the order in which they
/// first appear.
pub open spec fn tints_of(rgba: Seq<u8>, n: nat) -> Seq<Tint>
    decreases n,
{
    if n == 0 {
        Seq::empty()
    } else {
        counted(tints_of(rgba, (n - 1) as nat), rgba[4 * (n - 1)], rgba[4 * (n - 1) + 1], rgba[4 * (n - 1) + 2])
    }
}

proof fn lemma_place(list: Seq<Tint>, r: u8, g: u8, b: u8)
    ensures
        0 <= place_of(list, r, g, b) <= list.len(),
        place_of(list, r, g, b) < list.len() ==> list[place_of(list, r, g, b)].has_color(r, g, b),
        forall|i: int| 0 <= i < place_of(list, r, g, b) ==> !(#[trigger] list[i]).has_color(r, g, b),
    decreases list.len(),
{
    if list.len() > 0 && !list[0].has_color(r, g, b) {
        let t = list.drop_first();
        lemma_place(t, r, g, b);
        assert forall|i: int| 0 <= i < place_of(list, r, g, b) implies !(#[trigger] list[i]).has_color(r, g, b) by {
            if i > 0 {
                assert(t[i - 1] == list[i]);
            }
        }
    }
}

/// The colors of a list as numbers.
spec fn code(r: u8, g: u8, b: u8) -> int {
    r * 65536 + g * 256 + b
}

/// Every color stands in the list once, and the map says where.
spec fn indexed(list: Seq<Tint>, at: Map<u32, usize>) -> bool {
    &&& forall|i: int, j: int|
        0 <= i < j < list.len() ==> !(#[trigger] list[i]).has_color(
            (#[trigger] list[j]).r,
            list[j].g,
            list[j].b,
        )
    &&& forall|i: int|
        0 <= i < list.len() ==> at.contains_key(code((#[trigger] list[i]).r, list[i].g, list[i].b) as u32) && at[code(
            list[i].r,
            list[i].g,
            list[i].b,
        ) as u32] == i
    &&& forall|k: u32| #[trigger]
        at.contains_key(k) ==> at[k] < list.len() && k == code(
            list[at[k] as int].r,
            list[at[k] as int].g,
            list[at[k] as int].b,
        )
}

fn color_key(r: u8, g: u8, b: u8) -> (k: u32)
    ensures
        k == code(r, g, b),
{
    r as u32 * 65536 + g as u32 * 256 + b as u32
}

proof fn lemma_weight_update(list: Seq<Tint>, i: int, c: Tint)
    requires
        0 <= i < list.len(),
    ensures
        weight(list.update(i, c)) == weight(list) - list[i].n + c.n,
    decreases list.len(),
{
    let u = list.update(i, c);
    if i == list.len() - 1 {
        assert(u.drop_last() =~= list.drop_last());
    } else {
        lemma_weight_update(list.drop_last(), i, c);
        assert(u.drop_last() =~= list.drop_last().update(i, c));
    }
}

proof fn lemma_weight_counted(list: Seq<Tint>, r: u8, g: u8, b: u8)
    requires
        weight(list) < u64::MAX,
    ensures
        weight(counted(list, r, g, b)) == weight(list) + 1,
        place_of(list, r, g, b) < list.len() ==> list[place_of(list, r, g, b)].n < u64::MAX,
{
    let i = place_of(list, r, g, b);
    lemma_place(list, r, g, b);
    if i < list.len() {
        let f = |c: Tint| c.n as nat;
        lemma_sum_take(list, f, i);
        lemma_sum_grows(list, f, i + 1);
        lemma_weight_update(list, i, Tint { n: (list[i].n + 1) as u64, ..list[i] });
    } else {
        let c = Tint { r, g, b, n: 1 };
        assert(list.push(c).drop_last() =~= list);
    }
}

/// A picture's tints stand for all its pixels.
pub proof fn law_every_pixel_counted(rgba: Seq<u8>, n: nat)
    requires
        n <= u64::MAX,
    ensures
        weight(tints_of(rgba, n)) == n,
    decreases n,
{
    if n > 0 {
        law_every_pixel_counted(rgba, (n - 1) as nat);
        lemma_weight_counted(
            tints_of(rgba, (n - 1) as nat),
            rgba[4 * (n - 1)],
            rgba[4 * (n - 1) + 1],
            rgba[4 * (n - 1) + 2],
        );
    }
}

/// The tints of a picture with a way to find each of them.
pub struct Tally {
    list: Vec<Tint>,
    at: HashMap<u32, usize>,
}

impl View for Tally {
    type V = Seq<Tint>;

    closed spec fn view(&self) -> Seq<Tint> {
        self.list@
    }
}

impl Tally {
    #[verifier::type_invariant]
    spec fn wf(self) -> bool {
        indexed(self.list@, self.at@)
    }

    /// Counts the colors of the first `n` pixels of RGBA bytes.
    pub fn of(rgba: &Vec<u8>, n: usize) -> (r: Tally)
        requires
            4 * n <= rgba@.len(),
        ensures
            r@ == tints_of(rgba@, n as nat),
    {
        let mut list: Vec<Tint> = Vec::new();
        let mut at: HashMap<u32, usize> = HashMap::new();
        let mut p: usize = 0;
        let len: usize = rgba.len();
        while p < n
            invariant
                p <= n,
                4 * n <= len == rgba@.len(),
                list@ == tints_of(rgba@, p as nat),
                indexed(list@, at@),
                list@.len() <= p,
            decreases n - p,
        {
            let (r, g, b) = (rgba[4 * p], rgba[4 * p + 1], rgba[4 * p + 2]);
            let key: u32 = color_key(r, g, b);
            let ghost before = list@;
            proof {
                lemma_place(before, r, g, b);
                law_every_pixel_counted(rgba@, p as nat);
                lemma_weight_counted(before, r, g, b);
            }
            let found: Option<usize> = match at.get(&key) {
                Some(i) => Some(*i),
                None => None,
            };
            match found {
                Some(i) => {
                    assert(at@.contains_key(key));
                    assert(before[i as int].has_color(r, g, b));
                    assert(place_of(before, r, g, b) == i) by {
                        let k = place_of(before, r, g, b);
                        if k < i {
                            assert(before[k].has_color(before[i as int].r, before[i as int].g, before[i as int].b));
                        }
                    }
                    let t: Tint = list[i];
                    list.set(i, Tint { r: t.r, g: t.g, b: t.b, n: t.n + 1 });
                    assert(list@ =~= counted(before, r, g, b));
                },
                None => {
                    assert(place_of(before, r, g, b) == before.len()) by {
                        let k = place_of(before, r, g, b);
                        if k < before.len() {
                            assert(at@.contains_key(code(before[k].r, before[k].g, before[k].b) as u32));
                        }
                    }
                    at.insert(key, list.len());
                    list.push(Tint { r, g, b, n: 1 });
                    assert(list@ =~= counted(before, r, g, b));
                },
            }
            p += 1;
        }
        Tally { list, at }
    }

    /// The tints, in the order in which they first appear.
    pub fn tints(&self) -> (r: &Vec<Tint>)
        ensures
            r@ == self@,
    {
        &self.list
    }

    /// Where a color stands in the list.
    pub fn place(&self, r: u8, g: u8, b: u8) -> (i: usize)
        ensures
            i == place_of(self@, r, g, b),
            i <= self@.len(),
            i < self@.len() ==> self@[i as int].has_color(r, g, b),
    {
        proof {
            use_type_invariant(self);
            lemma_place(self.list@, r, g, b);
        }
        let key: u32 = color_key(r, g, b);
        let ghost list = self.list@;
        let ghost k = place_of(list, r, g, b);
        match self.at.get(&key) {
            Some(i) => {
                proof {
                    assert(self.at@.contains_key(key));
                    assert(list[*i as int].has_color(r, g, b));
                    if k < *i {
                        assert(list[k].has_color(list[*i as int].r, list[*i as int].g, list[*i as int].b));
                    }
                }
                *i
            },
            None => {
                proof {
                    if k < list.len() {
                        assert(self.at@.contains_key(code(list[k].r, list[k].g, list[k].b) as u32));
                    }
                }
                self.list.len()
            },
        }
    }
}

} // verus!
