//! What reducing the colors of a picture keeps.

use vstd::prelude::*;

use crate::quantize::{
    average, averages, before, boxes_of, cut_at, half_from, highest, is_side, is_widest, lemma_sorted_len,
    lemma_sum_sorted, lowest, palette_of, sorted_by, split_box, sum_of, weight, widest, width, Tint,
};

verus! {

/// No two tints have the same color.
pub open spec fn all_differ(colors: Seq<Tint>) -> bool {
    forall|i: int, j: int|
        0 <= i < j < colors.len() ==> (#[trigger] colors[i]).r != (#[trigger] colors[j]).r || colors[i].g != colors[j].g
            || colors[i].b != colors[j].b
}

/// The sum of `f` over the tints of all boxes.
spec fn total(boxes: Seq<Seq<Tint>>, f: spec_fn(Tint) -> nat) -> nat
    decreases boxes.len(),
{
    if boxes.len() == 0 {
        0
    } else {
        total(boxes.drop_last(), f) + sum_of(boxes.last(), f)
    }
}

spec fn ones() -> spec_fn(Tint) -> nat {
    |c: Tint| 1nat
}

spec fn is_it(t: Tint) -> spec_fn(Tint) -> nat {
    |c: Tint| if c == t { 1nat } else { 0nat }
}

proof fn lemma_sum_ones(b: Seq<Tint>)
    ensures
        sum_of(b, ones()) == b.len(),
    decreases b.len(),
{
    if b.len() > 0 {
        lemma_sum_ones(b.drop_last());
    }
}

proof fn lemma_sum_add(a: Seq<Tint>, b: Seq<Tint>, f: spec_fn(Tint) -> nat)
    ensures
        sum_of(a + b, f) == sum_of(a, f) + sum_of(b, f),
    decreases b.len(),
{
    if b.len() == 0 {
        assert(a + b =~= a);
    } else {
        assert((a + b).drop_last() =~= a + b.drop_last());
        assert((a + b).last() == b.last());
        lemma_sum_add(a, b.drop_last(), f);
    }
}

proof fn lemma_total_remove(boxes: Seq<Seq<Tint>>, i: int, f: spec_fn(Tint) -> nat)
    requires
        0 <= i < boxes.len(),
    ensures
        total(boxes, f) == total(boxes.remove(i), f) + sum_of(boxes[i], f),
    decreases boxes.len(),
{
    let t = boxes.drop_last();
    if i == boxes.len() - 1 {
        assert(boxes.remove(i) =~= t);
    } else {
        lemma_total_remove(t, i, f);
        assert(boxes.remove(i).drop_last() =~= t.remove(i));
        assert(boxes.remove(i).last() == boxes.last());
    }
}

proof fn lemma_total_push(boxes: Seq<Seq<Tint>>, b: Seq<Tint>, f: spec_fn(Tint) -> nat)
    ensures
        total(boxes.push(b), f) == total(boxes, f) + sum_of(b, f),
{
    assert(boxes.push(b).drop_last() =~= boxes);
}

proof fn lemma_half_bounds(s: Seq<Tint>, i: int)
    requires
        0 <= i <= s.len() - 1,
    ensures
        i <= half_from(s, i) <= s.len() - 1,
    decreases s.len() - i,
{
    if i < s.len() - 1 {
        lemma_half_bounds(s, i + 1);
    }
}

/// Every box holds something.
spec fn none_empty(boxes: Seq<Seq<Tint>>) -> bool {
    forall|i: int| 0 <= i < boxes.len() ==> (#[trigger] boxes[i]).len() > 0
}

proof fn lemma_split(boxes: Seq<Seq<Tint>>, i: int, c: int, f: spec_fn(Tint) -> nat)
    requires
        is_side(boxes, i, c),
        boxes[i].len() >= 2,
        none_empty(boxes),
    ensures
        none_empty(split_box(boxes, i, c)),
        split_box(boxes, i, c).len() == boxes.len() + 1,
        total(split_box(boxes, i, c), f) == total(boxes, f),
{
    let s = sorted_by(boxes[i], c);
    let k = cut_at(s);
    lemma_sorted_len(boxes[i], c);
    lemma_half_bounds(s, 0);
    let (a, b) = (s.take(k), s.skip(k));
    let rest = boxes.remove(i);
    lemma_sum_sorted(boxes[i], f, c);
    assert(a + b =~= s);
    lemma_sum_add(a, b, f);
    lemma_total_remove(boxes, i, f);
    lemma_total_push(rest, a, f);
    lemma_total_push(rest.push(a), b, f);
    let n = split_box(boxes, i, c);
    assert forall|j: int| 0 <= j < n.len() implies (#[trigger] n[j]).len() > 0 by {
        if j < rest.len() {
            assert(n[j] == rest[j]);
            assert(rest[j] == if j < i { boxes[j] } else { boxes[j + 1] });
        }
    }
}

proof fn lemma_boxes(boxes: Seq<Seq<Tint>>, max: nat, f: spec_fn(Tint) -> nat)
    requires
        none_empty(boxes),
    ensures
        none_empty(boxes_of(boxes, max)),
        total(boxes_of(boxes, max), f) == total(boxes, f),
        boxes_of(boxes, max).len() >= max || widest(boxes_of(boxes, max)) is None,
    decreases max - boxes.len(),
{
    if boxes.len() < max && widest(boxes) is Some {
        let (i, c) = widest(boxes)->0;
        assert(is_widest(boxes, i, c));
        lemma_split(boxes, i, c, f);
        lemma_boxes(split_box(boxes, i, c), max, f);
    }
}

/// The width of the side with this number.
spec fn side_width(boxes: Seq<Seq<Tint>>, k: int) -> int {
    width(boxes[k / 3], k % 3)
}

proof fn lemma_first_widest(boxes: Seq<Seq<Tint>>, n: int) -> (k: int)
    requires
        0 < n <= 3 * boxes.len(),
    ensures
        0 <= k < n,
        forall|j: int| 0 <= j < n ==> #[trigger] side_width(boxes, j) <= side_width(boxes, k),
        forall|j: int| 0 <= j < k ==> #[trigger] side_width(boxes, j) < side_width(boxes, k),
    decreases n,
{
    if n == 1 {
        0
    } else {
        let k = lemma_first_widest(boxes, n - 1);
        if side_width(boxes, n - 1) > side_width(boxes, k) {
            n - 1
        } else {
            k
        }
    }
}

proof fn lemma_some_widest(boxes: Seq<Seq<Tint>>, i: int, c: int)
    requires
        is_side(boxes, i, c),
        width(boxes[i], c) > 0,
    ensures
        widest(boxes) is Some,
{
    let k = lemma_first_widest(boxes, 3 * boxes.len() as int);
    let (a, b) = (k / 3, k % 3);
    assert(side_width(boxes, 3 * i + c) == width(boxes[i], c)) by {
        assert((3 * i + c) / 3 == i && (3 * i + c) % 3 == c);
    }
    assert(is_side(boxes, a, b));
    assert forall|j: int, d: int| #[trigger] is_side(boxes, j, d) implies width(boxes[j], d) <= width(boxes[a], b) && (
    before(j, d, a, b) ==> width(boxes[j], d) < width(boxes[a], b)) by {
        let q = 3 * j + d;
        assert(q / 3 == j && q % 3 == d);
        assert(side_width(boxes, q) == width(boxes[j], d));
        assert(before(j, d, a, b) ==> q < k);
    }
    assert(is_widest(boxes, a, b));
}

pub(crate) proof fn lemma_range(b: Seq<Tint>, ch: int, i: int)
    requires
        0 <= i < b.len(),
    ensures
        lowest(b, ch) <= b[i].channel(ch) <= highest(b, ch),
    decreases b.len(),
{
    if i < b.len() - 1 {
        lemma_range(b.drop_last(), ch, i);
        assert(b.drop_last()[i] == b[i]);
    }
}

proof fn lemma_has(b: Seq<Tint>, t: Tint)
    ensures
        sum_of(b, is_it(t)) > 0 ==> b.contains(t),
    decreases b.len(),
{
    if b.len() > 0 {
        lemma_has(b.drop_last(), t);
        if b.last() == t {
            assert(b[b.len() - 1] == t);
        } else if sum_of(b, is_it(t)) > 0 {
            let i = choose|i: int| 0 <= i < b.drop_last().len() && b.drop_last()[i] == t;
            assert(b[i] == t);
        }
    }
}

proof fn lemma_counts(b: Seq<Tint>, t: Tint, i: int)
    requires
        0 <= i < b.len(),
        b[i] == t,
    ensures
        sum_of(b, is_it(t)) >= 1,
    decreases b.len(),
{
    if i < b.len() - 1 {
        lemma_counts(b.drop_last(), t, i);
    }
}

proof fn lemma_counts_two(b: Seq<Tint>, t: Tint, i: int, j: int)
    requires
        0 <= i < j < b.len(),
        b[i] == t,
        b[j] == t,
    ensures
        sum_of(b, is_it(t)) >= 2,
    decreases b.len(),
{
    if j < b.len() - 1 {
        lemma_counts_two(b.drop_last(), t, i, j);
    } else {
        lemma_counts(b.drop_last(), t, i);
    }
}

proof fn lemma_at_most_once(colors: Seq<Tint>, t: Tint)
    requires
        all_differ(colors),
    ensures
        sum_of(colors, is_it(t)) <= 1,
    decreases colors.len(),
{
    if colors.len() > 0 {
        let r = colors.drop_last();
        let last = colors.len() - 1;
        assert forall|i: int, j: int| 0 <= i < j < r.len() implies (#[trigger] r[i]).r != (#[trigger] r[j]).r || r[i].g
            != r[j].g || r[i].b != r[j].b by {
            assert(r[i] == colors[i] && r[j] == colors[j]);
        }
        lemma_at_most_once(r, t);
        if colors.last() == t && sum_of(r, is_it(t)) > 0 {
            lemma_has(r, t);
            let i = choose|i: int| 0 <= i < r.len() && r[i] == t;
            assert(colors[i] == t && colors[last] == t);
        }
    }
}

proof fn lemma_box_within(boxes: Seq<Seq<Tint>>, i: int, f: spec_fn(Tint) -> nat)
    requires
        0 <= i < boxes.len(),
    ensures
        sum_of(boxes[i], f) <= total(boxes, f),
{
    lemma_total_remove(boxes, i, f);
}

proof fn lemma_in_some_box(boxes: Seq<Seq<Tint>>, t: Tint)
    requires
        total(boxes, is_it(t)) > 0,
    ensures
        exists|i: int| 0 <= i < boxes.len() && (#[trigger] boxes[i]).contains(t),
    decreases boxes.len(),
{
    if boxes.len() > 0 {
        if sum_of(boxes.last(), is_it(t)) > 0 {
            lemma_has(boxes.last(), t);
            assert(boxes[boxes.len() - 1].contains(t));
        } else {
            let r = boxes.drop_last();
            lemma_in_some_box(r, t);
            let i = choose|i: int| 0 <= i < r.len() && (#[trigger] r[i]).contains(t);
            assert(boxes[i].contains(t));
        }
    }
}

proof fn lemma_total_least(boxes: Seq<Seq<Tint>>)
    requires
        none_empty(boxes),
    ensures
        total(boxes, ones()) >= boxes.len(),
    decreases boxes.len(),
{
    if boxes.len() > 0 {
        let r = boxes.drop_last();
        assert forall|i: int| 0 <= i < r.len() implies (#[trigger] r[i]).len() > 0 by {
            assert(r[i] == boxes[i]);
        }
        lemma_total_least(r);
        lemma_sum_ones(boxes.last());
        assert(boxes[boxes.len() - 1].len() > 0);
    }
}

proof fn lemma_averages_at(boxes: Seq<Seq<Tint>>, k: int)
    requires
        0 <= k < boxes.len(),
    ensures
        averages(boxes).len() == 3 * boxes.len(),
        averages(boxes)[3 * k] == average(boxes[k], 0) as u8,
        averages(boxes)[3 * k + 1] == average(boxes[k], 1) as u8,
        averages(boxes)[3 * k + 2] == average(boxes[k], 2) as u8,
    decreases boxes.len(),
{
    let r = boxes.drop_last();
    if r.len() > 0 {
        lemma_averages_at(r, if k < r.len() { k } else { 0 });
    } else {
        assert(averages(r) =~= Seq::<u8>::empty());
    }
}

proof fn lemma_single_average(c: Tint, ch: int)
    requires
        c.n > 0,
    ensures
        average(seq![c], ch) == c.channel(ch),
{
    let b = seq![c];
    assert(b.drop_last() =~= Seq::<Tint>::empty());
    let f = |c: Tint| c.n as nat;
    let g = |c: Tint| (c.channel(ch) * c.n) as nat;
    assert(sum_of(b.drop_last(), f) == 0 && sum_of(b.drop_last(), g) == 0);
    assert(b.last() == c);
    let v: int = c.channel(ch) as int;
    let n: int = c.n as int;
    assert(v * n / n == v && v * n >= 0) by (nonlinear_arith)
        requires
            n > 0,
            v >= 0,
    ;
}

/// A picture of no more colors than the palette may have keeps every one of them
/// as it is.
pub proof fn law_few_colors_are_kept(colors: Seq<Tint>, max: nat, k: int)
    requires
        all_differ(colors),
        colors.len() <= max,
        0 <= k < colors.len(),
        colors[k].n > 0,
    ensures
        ({
            let p = palette_of(colors, max);
            exists|i: int|
                0 <= i < p.len() / 3 && #[trigger] p[3 * i] == colors[k].r && p[3 * i + 1] == colors[k].g && p[3 * i + 2]
                    == colors[k].b
        }),
{
    let c = colors[k];
    let first = seq![colors];
    let b = boxes_of(first, max);
    assert(none_empty(first));
    assert forall|f: spec_fn(Tint) -> nat| #[trigger] total(first, f) == sum_of(colors, f) by {
        assert(first.drop_last() =~= Seq::<Seq<Tint>>::empty());
        assert(total(first.drop_last(), f) == 0);
    }
    lemma_boxes(first, max, ones());
    lemma_boxes(first, max, is_it(c));
    lemma_sum_ones(colors);
    lemma_total_least(b);
    lemma_counts(colors, c, k);
    lemma_in_some_box(b, c);
    let i = choose|i: int| 0 <= i < b.len() && (#[trigger] b[i]).contains(c);
    let p = choose|p: int| 0 <= p < b[i].len() && b[i][p] == c;
    if b[i].len() >= 2 {
        let q: int = if p == 0 { 1 } else { 0 };
        let d = b[i][q];
        lemma_boxes(first, max, is_it(d));
        lemma_box_within(b, i, is_it(c));
        lemma_box_within(b, i, is_it(d));
        lemma_at_most_once(colors, c);
        if d == c {
            if p < q {
                lemma_counts_two(b[i], c, p, q);
            } else {
                lemma_counts_two(b[i], c, q, p);
            }
        }
        lemma_counts(b[i], d, q);
        lemma_has(colors, d);
        let j = choose|j: int| 0 <= j < colors.len() && colors[j] == d;
        assert(j != k);
        let ch: int = if c.r != d.r {
            0
        } else if c.g != d.g {
            1
        } else {
            2
        };
        if j < k {
            assert(colors[j].r != colors[k].r || colors[j].g != colors[k].g || colors[j].b != colors[k].b);
        } else {
            assert(colors[k].r != colors[j].r || colors[k].g != colors[j].g || colors[k].b != colors[j].b);
        }
        assert(c.channel(ch) != d.channel(ch));
        lemma_range(b[i], ch, p);
        lemma_range(b[i], ch, q);
        assert(is_side(b, i, ch));
        lemma_some_widest(b, i, ch);
        lemma_total_remove(b, i, ones());
        lemma_sum_ones(b[i]);
        let rest = b.remove(i);
        assert forall|m: int| 0 <= m < rest.len() implies (#[trigger] rest[m]).len() > 0 by {
            assert(rest[m] == if m < i { b[m] } else { b[m + 1] });
        }
        lemma_total_least(rest);
    }
    assert(b[i] =~= seq![c]);
    lemma_averages_at(b, i);
    lemma_single_average(c, 0);
    lemma_single_average(c, 1);
    lemma_single_average(c, 2);
    let pal = palette_of(colors, max);
    assert(pal[3 * i] == c.r);
}

} // verus!
