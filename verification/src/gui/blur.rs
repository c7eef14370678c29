//! Softening a plane of values: every value becomes the mean of those near it,
//! along the rows and then along the columns.

use vstd::prelude::*;

verus! {

/// A plane of values, row by row.
pub struct Plane {
    pub rows: Vec<Vec<u8>>,
}

/// The rows of a plane.
pub open spec fn rows_of(rows: Seq<Vec<u8>>) -> Seq<Seq<u8>> {
    rows.map_values(|r: Vec<u8>| r@)
}

impl View for Plane {
    type V = Seq<Seq<u8>>;

    open spec fn view(&self) -> Seq<Seq<u8>> {
        rows_of(self.rows@)
    }
}

/// Every row of a plane is `w` long.
pub open spec fn even(p: Seq<Seq<u8>>, w: nat) -> bool {
    forall|y: int| 0 <= y < p.len() ==> #[trigger] p[y].len() == w
}

/// A column of a plane.
pub open spec fn column(p: Seq<Seq<u8>>, x: int) -> Seq<u8> {
    Seq::new(p.len(), |y: int| p[y][x])
}

/// The sum of some values.
pub open spec fn total(s: Seq<u8>) -> int
    decreases s.len(),
{
    if s.len() == 0 {
        0
    } else {
        total(s.drop_last()) + s.last()
    }
}

proof fn lemma_total_bounds(s: Seq<u8>)
    ensures
        0 <= total(s) <= 255 * s.len(),
    decreases s.len(),
{
    if s.len() > 0 {
        lemma_total_bounds(s.drop_last());
    }
}

proof fn lemma_total_first(s: Seq<u8>)
    requires
        s.len() > 0,
    ensures
        total(s) == s[0] + total(s.drop_first()),
    decreases s.len(),
{
    if s.len() == 1 {
        assert(total(s.drop_last()) == 0);
        assert(total(s.drop_first()) == 0);
    } else {
        lemma_total_first(s.drop_last());
        assert(s.drop_last().drop_first() =~= s.drop_first().drop_last());
        assert(total(s.drop_first()) == total(s.drop_first().drop_last()) + s.last());
    }
}

/// The first place of those near place `i`.
pub open spec fn near_from(i: int, r: int) -> int {
    if i < r {
        0
    } else {
        i - r
    }
}

/// The place after the last of those near place `i`.
pub open spec fn near_to(i: int, r: int, n: int) -> int {
    if i + r + 1 < n {
        i + r + 1
    } else {
        n
    }
}

/// The mean of the values at most `r` places from place `i`.
pub open spec fn mean_near(line: Seq<u8>, r: int, i: int) -> int {
    let from = near_from(i, r);
    let to = near_to(i, r, line.len() as int);
    total(line.subrange(from, to)) / (to - from)
}

/// A line in which every value is the mean of those near it.
pub open spec fn softened(line: Seq<u8>, r: int) -> Seq<u8> {
    Seq::new(line.len(), |i: int| mean_near(line, r, i) as u8)
}

/// A plane with each row softened.
pub open spec fn blurred_h(p: Seq<Seq<u8>>, r: int) -> Seq<Seq<u8>> {
    p.map_values(|row: Seq<u8>| softened(row, r))
}

/// A plane with each column softened.
pub open spec fn blurred_v(p: Seq<Seq<u8>>, w: nat, r: int) -> Seq<Seq<u8>> {
    Seq::new(p.len(), |y: int| Seq::new(w, |x: int| mean_near(column(p, x), r, y) as u8))
}

/// A plane softened twice both ways.
pub open spec fn blurred(p: Seq<Seq<u8>>, w: nat, r: int) -> Seq<Seq<u8>> {
    blurred_v(blurred_h(blurred_v(blurred_h(p, r), w, r), r), w, r)
}

proof fn lemma_mean(line: Seq<u8>, r: int, i: int)
    requires
        0 <= r,
        0 <= i < line.len(),
    ensures
        0 <= near_from(i, r) <= i < near_to(i, r, line.len() as int) <= line.len(),
        0 <= mean_near(line, r, i) <= 255,
{
    let from = near_from(i, r);
    let to = near_to(i, r, line.len() as int);
    let s = line.subrange(from, to);
    lemma_total_bounds(s);
    let t = total(s);
    let n = to - from;
    assert(0 <= t / n <= 255) by (nonlinear_arith)
        requires
            0 <= t <= 255 * n,
            n > 0,
    ;
}

/// A line of equal values stays as it is.
pub proof fn law_even_line_stays(line: Seq<u8>, r: int, v: u8)
    requires
        0 <= r,
        forall|i: int| 0 <= i < line.len() ==> line[i] == v,
    ensures
        softened(line, r) == line,
{
    assert forall|i: int| 0 <= i < line.len() implies softened(line, r)[i] == line[i] by {
        lemma_mean(line, r, i);
        let from = near_from(i, r);
        let to = near_to(i, r, line.len() as int);
        lemma_total_same(line.subrange(from, to), v);
        let n = to - from;
        assert((v as int * n) / n == v as int) by (nonlinear_arith)
            requires
                n > 0,
        ;
    }
    assert(softened(line, r) =~= line);
}

proof fn lemma_total_same(s: Seq<u8>, v: u8)
    requires
        forall|i: int| 0 <= i < s.len() ==> s[i] == v,
    ensures
        total(s) == v as int * s.len(),
    decreases s.len(),
{
    if s.len() > 0 {
        lemma_total_same(s.drop_last(), v);
        let n = s.len() as int;
        assert(v as int * n == v as int * (n - 1) + v) by (nonlinear_arith);
    } else {
        assert(v as int * 0 == 0);
    }
}

/// A value is not touched by one that is more than `r` places away.
pub proof fn law_blur_is_local(a: Seq<u8>, b: Seq<u8>, r: int, i: int)
    requires
        0 <= r,
        0 <= i < a.len(),
        a.len() == b.len(),
        forall|k: int| 0 <= k < a.len() && i - r <= k <= i + r ==> a[k] == b[k],
    ensures
        softened(a, r)[i] == softened(b, r)[i],
{
    lemma_mean(a, r, i);
    let from = near_from(i, r);
    let to = near_to(i, r, a.len() as int);
    assert(a.subrange(from, to) =~= b.subrange(from, to));
}

/// Softens a line.
fn soften(line: &Vec<u8>, r: usize) -> (out: Vec<u8>)
    ensures
        out@ == softened(line@, r as int),
{
    let n: usize = line.len();
    let mut out: Vec<u8> = Vec::new();
    let mut sum: u128 = 0;
    let mut to: usize = 0;
    while to < n && to <= r
        invariant
            n == line@.len(),
            to <= n,
            to <= r + 1,
            sum == total(line@.subrange(0, to as int)),
            sum <= 255 * to,
        decreases n - to,
    {
        proof {
            assert(line@.subrange(0, to + 1).drop_last() =~= line@.subrange(0, to as int));
        }
        sum = sum + line[to] as u128;
        to += 1;
    }
    let mut from: usize = 0;
    let mut i: usize = 0;
    while i < n
        invariant
            n == line@.len(),
            i <= n,
            i < n ==> from == near_from(i as int, r as int) && to == near_to(i as int, r as int, n as int),
            i < n ==> sum == total(line@.subrange(from as int, to as int)),
            out@ =~= softened(line@, r as int).take(i as int),
        decreases n - i,
    {
        proof {
            lemma_mean(line@, r as int, i as int);
            lemma_total_bounds(line@.subrange(from as int, to as int));
        }
        out.push((sum / (to - from) as u128) as u8);
        if i >= r {
            proof {
                lemma_total_first(line@.subrange(from as int, to as int));
                assert(line@.subrange(from as int, to as int).drop_first() =~= line@.subrange(from + 1, to as int));
                lemma_total_bounds(line@.subrange(from + 1, to as int));
            }
            sum = sum - line[from] as u128;
            from += 1;
        }
        if to < n {
            proof {
                assert(line@.subrange(from as int, to + 1).drop_last() =~= line@.subrange(from as int, to as int));
                lemma_total_bounds(line@.subrange(from as int, to as int));
            }
            sum = sum + line[to] as u128;
            to += 1;
        }
        i += 1;
    }
    assert(out@ =~= softened(line@, r as int));
    out
}

/// Softens every row.
pub fn box_blur_h(src: &Plane, r: usize) -> (out: Plane)
    ensures
        out@ == blurred_h(src@, r as int),
{
    let n: usize = src.rows.len();
    let mut rows: Vec<Vec<u8>> = Vec::new();
    let mut y: usize = 0;
    while y < n
        invariant
            n == src.rows@.len(),
            y <= n,
            rows_of(rows@) =~= blurred_h(src@, r as int).take(y as int),
        decreases n - y,
    {
        let row = soften(&src.rows[y], r);
        let ghost before = rows@;
        rows.push(row);
        proof {
            assert(rows_of(rows@) =~= rows_of(before).push(row@));
        }
        y += 1;
    }
    assert(rows_of(rows@) =~= blurred_h(src@, r as int));
    Plane { rows }
}

fn column_of(src: &Plane, w: usize, x: usize) -> (out: Vec<u8>)
    requires
        even(src@, w as nat),
        x < w,
    ensures
        out@ == column(src@, x as int),
{
    let n: usize = src.rows.len();
    let mut out: Vec<u8> = Vec::new();
    let mut y: usize = 0;
    while y < n
        invariant
            n == src.rows@.len(),
            even(src@, w as nat),
            x < w,
            y <= n,
            out@ =~= column(src@, x as int).take(y as int),
        decreases n - y,
    {
        assert(src@[y as int].len() == w);
        out.push(src.rows[y][x]);
        y += 1;
    }
    assert(out@ =~= column(src@, x as int));
    out
}

/// Softens every column.
pub fn box_blur_v(src: &Plane, w: usize, r: usize) -> (out: Plane)
    requires
        even(src@, w as nat),
    ensures
        out@ == blurred_v(src@, w as nat, r as int),
        even(out@, w as nat),
{
    let n: usize = src.rows.len();
    let mut columns: Vec<Vec<u8>> = Vec::new();
    let mut x: usize = 0;
    while x < w
        invariant
            n == src.rows@.len(),
            even(src@, w as nat),
            x <= w,
            columns@.len() == x,
            forall|k: int| 0 <= k < x ==> (#[trigger] columns@[k])@ == softened(column(src@, k), r as int),
        decreases w - x,
    {
        let c = column_of(src, w, x);
        columns.push(soften(&c, r));
        x += 1;
    }
    let ghost goal = blurred_v(src@, w as nat, r as int);
    let mut rows: Vec<Vec<u8>> = Vec::new();
    let mut y: usize = 0;
    while y < n
        invariant
            n == src.rows@.len(),
            y <= n,
            columns@.len() == w,
            forall|k: int| 0 <= k < w ==> (#[trigger] columns@[k])@ == softened(column(src@, k), r as int),
            goal == blurred_v(src@, w as nat, r as int),
            rows_of(rows@) =~= goal.take(y as int),
        decreases n - y,
    {
        let mut row: Vec<u8> = Vec::new();
        let mut x: usize = 0;
        while x < w
            invariant
                n == src.rows@.len(),
                y < n,
                x <= w,
                columns@.len() == w,
                forall|k: int| 0 <= k < w ==> (#[trigger] columns@[k])@ == softened(column(src@, k), r as int),
                goal == blurred_v(src@, w as nat, r as int),
                row@ =~= goal[y as int].take(x as int),
            decreases w - x,
        {
            assert(columns@[x as int]@ == softened(column(src@, x as int), r as int));
            row.push(columns[x][y]);
            x += 1;
        }
        assert(row@ =~= goal[y as int]);
        let ghost before = rows@;
        rows.push(row);
        proof {
            assert(rows_of(rows@) =~= rows_of(before).push(row@));
        }
        y += 1;
    }
    assert(rows_of(rows@) =~= goal);
    Plane { rows }
}

/// Softens a plane twice both ways, which comes near a bell curve.
pub fn soften_plane(src: &Plane, w: usize, r: usize) -> (out: Plane)
    requires
        even(src@, w as nat),
    ensures
        out@ == blurred(src@, w as nat, r as int),
        out@.len() == src@.len(),
        even(out@, w as nat),
{
    let a = box_blur_h(src, r);
    let b = box_blur_v(&a, w, r);
    let c = box_blur_h(&b, r);
    box_blur_v(&c, w, r)
}

} // verus!
