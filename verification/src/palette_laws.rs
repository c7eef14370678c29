//! How a palette is chosen, and how the colors of a picture are counted.

use vstd::prelude::*;

use crate::quantize::{
    average, averages, boxes_of, channel_sum, cut_at, half_from, highest, is_nearest, is_side, is_widest,
    lemma_sorted_len, lowest, place_of, sorted_below, sorted_by, split_box, tints_of, weight, widest,
    width, with_value, Tint,
};
use crate::quantize_laws::lemma_range;

verus! {

/// Red, green or blue of a tint.
pub open spec fn part(t: Tint, c: int) -> int {
    if c == 0 {
        t.r as int
    } else if c == 1 {
        t.g as int
    } else {
        t.b as int
    }
}

/// A box weighs as much as it has pixels, and its sums count each pixel.
pub proof fn law_box_is_weighed(b: Seq<Tint>, t: Tint, c: int)
    ensures
        weight(Seq::empty()) == 0,
        weight(b.push(t)) == weight(b) + t.n,
        channel_sum(Seq::empty(), c) == 0,
        channel_sum(b.push(t), c) == channel_sum(b, c) + part(t, c) * t.n,
{
    assert(b.push(t).drop_last() =~= b);
    assert(t.channel(c) == part(t, c));
    assert(t.channel(c) * t.n >= 0) by (nonlinear_arith)
        requires
            t.channel(c) >= 0,
            t.n >= 0,
    ;
}

proof fn lemma_reached(b: Seq<Tint>, c: int) -> (r: (int, int))
    requires
        b.len() > 0,
    ensures
        0 <= r.0 < b.len(),
        0 <= r.1 < b.len(),
        b[r.0].channel(c) == lowest(b, c),
        b[r.1].channel(c) == highest(b, c),
    decreases b.len(),
{
    let t = b.drop_last();
    let n = b.len() - 1;
    if t.len() == 0 {
        assert(lowest(t, c) == 255 && highest(t, c) == 0);
        (0, 0)
    } else {
        let (i, j) = lemma_reached(t, c);
        assert(t[i] == b[i] && t[j] == b[j]);
        (if b.last().channel(c) < lowest(t, c) {
            n
        } else {
            i
        }, if b.last().channel(c) > highest(t, c) {
            n
        } else {
            j
        })
    }
}

/// A box is as wide as the two of its tints that are farthest apart.
pub proof fn law_box_width(b: Seq<Tint>, c: int)
    ensures
        b.len() < 2 ==> width(b, c) == 0,
        forall|i: int, j: int|
            0 <= i < b.len() && 0 <= j < b.len() ==> part(#[trigger] b[i], c) - part(#[trigger] b[j], c) <= width(b, c),
        b.len() > 0 ==> exists|i: int, j: int|
            0 <= i < b.len() && 0 <= j < b.len() && part(#[trigger] b[i], c) - part(#[trigger] b[j], c) == width(b, c),
{
    assert forall|t: Tint| #[trigger] part(t, c) == t.channel(c) by {}
    assert forall|i: int, j: int| 0 <= i < b.len() && 0 <= j < b.len() implies part(#[trigger] b[i], c) - part(
        #[trigger] b[j],
        c,
    ) <= width(b, c) by {
        lemma_range(b, c, i);
        lemma_range(b, c, j);
    }
    if b.len() > 0 {
        let (i, j) = lemma_reached(b, c);
        if b.len() < 2 {
            assert(part(b[0], c) - part(b[0], c) == width(b, c));
        } else {
            assert(part(b[j], c) - part(b[i], c) == width(b, c));
        }
    }
}

/// Boxes are split, as long as there are fewer than asked for, where one is widest:
/// the first of those, red before green before blue. A box of no width stays.
pub proof fn law_widest_box_is_split(boxes: Seq<Seq<Tint>>, max: nat, i: int, c: int)
    requires
        0 <= i < boxes.len(),
        0 <= c < 3,
    ensures
        boxes.len() >= max ==> boxes_of(boxes, max) == boxes,
        boxes.len() < max && width(boxes[i], c) > 0 && (forall|j: int, d: int|
            0 <= j < boxes.len() && 0 <= d < 3 ==> #[trigger] width(boxes[j], d) <= width(boxes[i], c) && (j < i || (j == i
                && d < c) ==> width(boxes[j], d) < width(boxes[i], c))) ==> boxes_of(boxes, max) == boxes_of(
            split_box(boxes, i, c),
            max,
        ),
        (forall|j: int, d: int| 0 <= j < boxes.len() && 0 <= d < 3 ==> #[trigger] width(boxes[j], d) <= 0) ==> boxes_of(
            boxes,
            max,
        ) == boxes,
{
    if boxes.len() < max {
        if width(boxes[i], c) > 0 && forall|j: int, d: int|
            0 <= j < boxes.len() && 0 <= d < 3 ==> #[trigger] width(boxes[j], d) <= width(boxes[i], c) && (j < i || (j == i
                && d < c) ==> width(boxes[j], d) < width(boxes[i], c)) {
            assert(is_widest(boxes, i, c));
            let (j, d) = widest(boxes)->0;
            assert(is_widest(boxes, j, d));
            assert(is_side(boxes, i, c) && is_side(boxes, j, d));
            assert(width(boxes[j], d) == width(boxes[i], c));
        }
        if forall|j: int, d: int| 0 <= j < boxes.len() && 0 <= d < 3 ==> #[trigger] width(boxes[j], d) <= 0 {
            assert forall|j: int, d: int| !#[trigger] is_widest(boxes, j, d) by {
                if is_widest(boxes, j, d) {
                    assert(width(boxes[j], d) <= 0);
                }
            }
        }
    }
}

proof fn lemma_below(b: Seq<Tint>, c: int, v: nat)
    ensures
        forall|i: int| 0 <= i < sorted_below(b, c, v).len() ==> (#[trigger] sorted_below(b, c, v)[i]).channel(c) < v,
        forall|i: int, j: int|
            0 <= i <= j < sorted_below(b, c, v).len() ==> (#[trigger] sorted_below(b, c, v)[i]).channel(c) <= (
            #[trigger] sorted_below(b, c, v)[j]).channel(c),
    decreases v,
{
    if v > 0 {
        lemma_below(b, c, (v - 1) as nat);
        let low = sorted_below(b, c, (v - 1) as nat);
        let high = with_value(b, c, v - 1);
        let p = |t: Tint| t.channel(c) == v - 1;
        assert forall|i: int| 0 <= i < high.len() implies (#[trigger] high[i]).channel(c) == v - 1 by {
            b.lemma_filter_pred(p, i);
        }
        let s = sorted_below(b, c, v);
        assert forall|i: int| 0 <= i < s.len() implies (#[trigger] s[i]).channel(c) < v && (i >= low.len()
            ==> s[i].channel(c) == v - 1) && (i < low.len() ==> s[i] == low[i]) by {
            if i >= low.len() {
                assert(s[i] == high[i - low.len()]);
            }
        }
    }
}

proof fn lemma_refiltered(b: Seq<Tint>, c: int, v: int, u: int)
    ensures
        with_value(b, c, v).filter(|t: Tint| t.channel(c) == u) == if u == v {
            with_value(b, c, v)
        } else {
            Seq::empty()
        },
    decreases b.len(),
{
    reveal(Seq::filter);
    let p = |t: Tint| t.channel(c) == v;
    let q = |t: Tint| t.channel(c) == u;
    if b.len() > 0 {
        let t = b.drop_last();
        lemma_refiltered(t, c, v, u);
        if p(b.last()) {
            let f = t.filter(p);
            assert(b.filter(p) == f.push(b.last()));
            assert(f.push(b.last()).drop_last() =~= f);
        }
    }
}

proof fn lemma_values_kept(b: Seq<Tint>, c: int, v: nat, u: int)
    requires
        0 <= u,
    ensures
        sorted_below(b, c, v).filter(|t: Tint| t.channel(c) == u) == if u < v {
            with_value(b, c, u)
        } else {
            Seq::empty()
        },
    decreases v,
{
    let q = |t: Tint| t.channel(c) == u;
    if v == 0 {
        reveal(Seq::filter);
        assert(sorted_below(b, c, v).filter(q) =~= Seq::empty());
    } else {
        lemma_values_kept(b, c, (v - 1) as nat, u);
        lemma_refiltered(b, c, v - 1, u);
        let low = sorted_below(b, c, (v - 1) as nat);
        let high = with_value(b, c, v - 1);
        Seq::filter_distributes_over_add(low, high, q);
        assert(low.filter(q) + high.filter(q) =~= if u < v {
            with_value(b, c, u)
        } else {
            Seq::empty()
        });
    }
}

/// A box is sorted by the value that it is split by; tints that agree in it are
/// all kept, in their order.
pub proof fn law_box_is_sorted(b: Seq<Tint>, c: int, v: int)
    requires
        0 <= v < 256,
    ensures
        ({
            let s = sorted_by(b, c);
            &&& s.len() == b.len()
            &&& forall|i: int, j: int| 0 <= i <= j < s.len() ==> part(#[trigger] s[i], c) <= part(#[trigger] s[j], c)
            &&& s.filter(|t: Tint| part(t, c) == v) == b.filter(|t: Tint| part(t, c) == v)
        }),
{
    let s = sorted_by(b, c);
    lemma_sorted_len(b, c);
    lemma_below(b, c, 256);
    lemma_values_kept(b, c, 256, v);
    let p = |t: Tint| t.channel(c) == v;
    let q = |t: Tint| part(t, c) == v;
    assert forall|t: Tint| #[trigger] part(t, c) == t.channel(c) by {}
    assert(p =~= q) by {
        assert forall|t: Tint| #[trigger] p(t) == q(t) by {}
    }
}

proof fn lemma_median(s: Seq<Tint>, i: int)
    requires
        0 <= i <= s.len() - 1,
        i > 0 ==> weight(s.take(i)) * 2 < weight(s),
    ensures
        ({
            let k = half_from(s, i);
            &&& i <= k <= s.len() - 1
            &&& k < s.len() - 1 ==> weight(s.take(k + 1)) * 2 >= weight(s)
            &&& k > 0 ==> weight(s.take(k)) * 2 < weight(s)
        }),
    decreases s.len() - i,
{
    if i < s.len() - 1 && weight(s.take(i + 1)) * 2 < weight(s) {
        lemma_median(s, i + 1);
    }
}

/// Splitting a box puts two in its place behind the others, which together are the
/// sorted box. Neither is empty. The lower one is the shortest that holds half of
/// the pixels, but leaves at least one tint to the upper one.
pub proof fn law_box_is_split(boxes: Seq<Seq<Tint>>, i: int, c: int)
    requires
        0 <= i < boxes.len(),
        0 <= c < 3,
        boxes[i].len() >= 2,
    ensures
        ({
            let after = split_box(boxes, i, c);
            let n = boxes.len() as int;
            let s = sorted_by(boxes[i], c);
            let (low, high) = (after[n - 1], after[n]);
            &&& after.len() == n + 1
            &&& forall|j: int| 0 <= j < i ==> #[trigger] after[j] == boxes[j]
            &&& forall|j: int| i <= j < n - 1 ==> #[trigger] after[j] == boxes[j + 1]
            &&& low + high == s
            &&& low.len() > 0
            &&& high.len() > 0
            &&& high.len() > 1 ==> 2 * weight(low) >= weight(s)
            &&& low.len() > 1 ==> 2 * weight(low.drop_last()) < weight(s)
        }),
{
    let s = sorted_by(boxes[i], c);
    lemma_sorted_len(boxes[i], c);
    lemma_median(s, 0);
    let k = cut_at(s);
    let after = split_box(boxes, i, c);
    let n = boxes.len() as int;
    assert(s.take(k) + s.skip(k) =~= s);
    assert(s.take(k).drop_last() =~= s.take(k - 1));
    if half_from(s, 0) + 1 > s.len() - 1 {
        assert(half_from(s, 0) == s.len() - 1);
        if k > 1 {
            lemma_lighter(s, k - 1);
            assert(s.take(k) == s.take(half_from(s, 0)));
        }
    }
}

proof fn lemma_lighter(s: Seq<Tint>, k: int)
    requires
        0 <= k < s.len(),
    ensures
        weight(s.take(k)) <= weight(s.take(k + 1)),
{
    assert(s.take(k + 1).drop_last() =~= s.take(k));
}

/// A box stands for the mean of its pixels, rounded down; the palette holds red,
/// green and blue of each box in the order of the boxes.
pub proof fn law_box_average(boxes: Seq<Seq<Tint>>, b: Seq<Tint>, c: int)
    ensures
        averages(Seq::empty()).len() == 0,
        averages(boxes.push(b)) == averages(boxes) + seq![average(b, 0) as u8, average(b, 1) as u8, average(b, 2) as u8],
        weight(b) > 0 ==> weight(b) * average(b, c) <= channel_sum(b, c) < weight(b) * (average(b, c) + 1),
{
    assert(boxes.push(b).drop_last() =~= boxes);
    let n = weight(b) as int;
    let t = channel_sum(b, c) as int;
    if n > 0 {
        assert(n * (t / n) <= t < n * (t / n + 1)) by (nonlinear_arith)
            requires
                n > 0,
        ;
    }
}

proof fn lemma_placed(list: Seq<Tint>, r: u8, g: u8, b: u8)
    ensures
        ({
            let p = place_of(list, r, g, b);
            &&& 0 <= p <= list.len()
            &&& p < list.len() ==> list[p].r == r && list[p].g == g && list[p].b == b
            &&& forall|i: int| 0 <= i < p ==> (#[trigger] list[i]).r != r || list[i].g != g || list[i].b != b
        }),
    decreases list.len(),
{
    if list.len() > 0 && !list[0].has_color(r, g, b) {
        let t = list.drop_first();
        lemma_placed(t, r, g, b);
        assert forall|i: int| 0 <= i < place_of(list, r, g, b) implies (#[trigger] list[i]).r != r || list[i].g != g
            || list[i].b != b by {
            if i > 0 {
                assert(t[i - 1] == list[i]);
            }
        }
    }
}

/// A pixel is counted under the first tint of its color; a color that was not seen
/// before is added behind the others.
pub proof fn law_pixel_is_counted(rgba: Seq<u8>, n: nat, i: int)
    requires
        4 * n + 3 < rgba.len(),
    ensures
        ({
            let was = tints_of(rgba, n);
            let now = tints_of(rgba, n + 1);
            let (r, g, b) = (rgba[4 * (n as int)], rgba[4 * (n as int) + 1], rgba[4 * (n as int) + 2]);
            let same = |t: Tint| t.r == r && t.g == g && t.b == b;
            &&& tints_of(rgba, 0).len() == 0
            &&& 0 <= i < was.len() && same(was[i]) && (forall|j: int| 0 <= j < i ==> !same(#[trigger] was[j])) ==> now
                == was.update(i, Tint { r, g, b, n: (was[i].n + 1) as u64 })
            &&& (forall|j: int| 0 <= j < was.len() ==> !same(#[trigger] was[j])) ==> now == was.push(Tint { r, g, b, n: 1 })
        }),
{
    let was = tints_of(rgba, n);
    let (r, g, b) = (rgba[4 * (n as int)], rgba[4 * (n as int) + 1], rgba[4 * (n as int) + 2]);
    lemma_placed(was, r, g, b);
    let p = place_of(was, r, g, b);
    if p < was.len() && 0 <= i < was.len() {
        if i < p {
            assert(was[i].r != r || was[i].g != g || was[i].b != b);
        }
    }
}

/// The nearest entry of a palette is the one at the smallest distance, the first of
/// those; the distance is the sum of the squares of the differences.
pub proof fn law_nearest_entry(palette: Seq<u8>, i: int, r: u8, g: u8, b: u8, j: int)
    requires
        is_nearest(palette, i, r, g, b),
        0 <= j < palette.len() / 3,
    ensures
        ({
            let sq = |x: int| x * x;
            let far = |k: int| sq(palette[3 * k] - r) + sq(palette[3 * k + 1] - g) + sq(palette[3 * k + 2] - b);
            far(i) <= far(j) && (j < i ==> far(i) < far(j))
        }),
{
    assert(crate::quantize::distance(palette, i, r, g, b) <= crate::quantize::distance(palette, j, r, g, b));
}

} // verus!
