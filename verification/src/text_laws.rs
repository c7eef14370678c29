//! What the functions on texts come to.

use vstd::prelude::*;
use vstd::string::*;

use crate::ordmap::text_lt;
use crate::text::{
    after_prefix, before_first, cut_first, cut_last, decimal, digits_value, has_prefix, has_text, head_of, is_space,
    lemma_before_first, lemma_cut_last, lemma_decimal, lowered, number_in, trim_back, trim_front, trimmed,
};

verus! {

/// Nothing but white space.
pub open spec fn blank(s: Seq<char>) -> bool {
    forall|i: int| 0 <= i < s.len() ==> is_space(#[trigger] s[i])
}

proof fn lemma_trim_front(s: Seq<char>)
    ensures
        ({
            let n = s.len() - trim_front(s).len();
            &&& n >= 0
            &&& trim_front(s) == s.skip(n)
            &&& blank(s.take(n))
            &&& trim_front(s).len() > 0 ==> !is_space(trim_front(s)[0])
        }),
    decreases s.len(),
{
    if s.len() > 0 && is_space(s[0]) {
        let t = s.drop_first();
        lemma_trim_front(t);
        let n = s.len() - trim_front(s).len();
        assert(s.skip(n) =~= t.skip(n - 1));
        assert forall|i: int| 0 <= i < n implies is_space(#[trigger] s.take(n)[i]) by {
            if i > 0 {
                assert(t.take(n - 1)[i - 1] == s[i]);
            }
        }
    } else {
        assert(s.skip(0) =~= s);
    }
}

proof fn lemma_trim_back(s: Seq<char>)
    ensures
        ({
            let n = trim_back(s).len() as int;
            &&& n <= s.len()
            &&& trim_back(s) == s.take(n)
            &&& blank(s.skip(n))
            &&& n > 0 ==> !is_space(trim_back(s).last())
        }),
    decreases s.len(),
{
    if s.len() > 0 && is_space(s.last()) {
        let t = s.drop_last();
        lemma_trim_back(t);
        let n = trim_back(s).len() as int;
        assert(s.take(n) =~= t.take(n));
        assert forall|i: int| 0 <= i < s.len() - n implies is_space(#[trigger] s.skip(n)[i]) by {
            if n + i < t.len() {
                assert(t.skip(n)[i] == s[n + i]);
            }
        }
    } else {
        assert(s.take(s.len() as int) =~= s);
    }
}

/// Trimming takes off white space at both ends, all of it and nothing else.
pub proof fn law_trimming(s: Seq<char>)
    ensures
        exists|a: int, b: int|
            {
                &&& 0 <= a <= b <= s.len()
                &&& trimmed(s) == #[trigger] s.subrange(a, b)
                &&& blank(s.take(a))
                &&& blank(s.skip(b))
            },
        trimmed(s).len() > 0 ==> !is_space(trimmed(s)[0]) && !is_space(trimmed(s).last()),
        is_space(' ') && is_space('\n') && is_space('\t') && is_space('\r'),
        !is_space('a') && !is_space('0') && !is_space('-') && !is_space('#'),
{
    let t = trim_front(s);
    lemma_trim_front(s);
    lemma_trim_back(t);
    let a = s.len() - t.len();
    let b = a + trimmed(s).len();
    assert(trimmed(s) =~= s.subrange(a, b));
    assert forall|i: int| 0 <= i < s.len() - b implies is_space(#[trigger] s.skip(b)[i]) by {
        assert(t.skip(trimmed(s).len() as int)[i] == s[b + i]);
    }
}

/// A number in decimal notation reads as the number, has no sign and no leading
/// zero.
pub proof fn law_decimal(n: u64)
    ensures
        number_in(decimal(n as nat)) == Some(n),
        digits_value(decimal(n as nat)) == n,
        n > 0 ==> decimal(n as nat)[0] != '0',
        decimal(0) == "0"@,
{
    lemma_decimal(n as nat);
    assert(crate::text::is_digit(decimal(n as nat)[0]));
    lemma_no_zero(n as nat);
    reveal_strlit("0");
    assert(decimal(0) =~= "0"@);
}

proof fn lemma_no_zero(n: nat)
    ensures
        decimal(n).len() > 0,
        n > 0 ==> decimal(n)[0] != '0',
    decreases n,
{
    if n >= 10 {
        lemma_no_zero(n / 10);
    }
}

/// A text is cut at the first sign, which is dropped, or not at all where there is
/// none; the parts and the sign make up the text.
pub proof fn law_cut_first(s: Seq<char>, c: char)
    ensures
        cut_first(s, c) is None <==> !s.contains(c),
        cut_first(s, c) matches Some(p) ==> s == p.0.push(c) + p.1 && !p.0.contains(c),
{
    lemma_before_first(s, c);
    let n = before_first(s, c);
    if n < s.len() {
        assert(s[n] == c);
        assert(s =~= s.take(n).push(c) + s.skip(n + 1));
        assert forall|i: int| 0 <= i < n implies s.take(n)[i] != c by {}
    } else {
        assert forall|i: int| 0 <= i < s.len() implies s[i] != c by {}
    }
}

/// A text is cut at the last sign, which is dropped, or not at all where there is
/// none; the parts and the sign make up the text.
pub proof fn law_cut_last(s: Seq<char>, c: char)
    ensures
        cut_last(s, c) is None <==> !s.contains(c),
        cut_last(s, c) matches Some(p) ==> s == p.0.push(c) + p.1 && !p.1.contains(c),
    decreases s.len(),
{
    if s.len() > 0 {
        if s.last() == c {
            assert(s[s.len() - 1] == c);
            assert(s =~= s.drop_last().push(c) + Seq::<char>::empty());
        } else {
            let t = s.drop_last();
            law_cut_last(t, c);
            assert(s.contains(c) <==> t.contains(c)) by {
                if s.contains(c) {
                    let i = choose|i: int| 0 <= i < s.len() && s[i] == c;
                    assert(t[i] == c);
                }
                if t.contains(c) {
                    let i = choose|i: int| 0 <= i < t.len() && t[i] == c;
                    assert(s[i] == c);
                }
            }
            if cut_last(t, c) is Some {
                let p = cut_last(t, c)->0;
                let q = cut_last(s, c)->0;
                assert(s =~= t.push(s.last()));
                assert(t == p.0.push(c) + p.1);
                assert((p.0.push(c) + p.1).push(s.last()) =~= q.0.push(c) + q.1);
                assert forall|i: int| 0 <= i < q.1.len() implies q.1[i] != c by {
                    if i < p.1.len() {
                        assert(p.1.contains(p.1[i]));
                    }
                }
            }
        }
    }
}

/// What follows a prefix makes up the text with it.
pub proof fn law_prefix(s: Seq<char>, p: Seq<char>)
    ensures
        after_prefix(p + s, p) == Some(s),
        after_prefix(s, p) matches Some(t) ==> s == p + t,
        after_prefix(s, p) is Some <==> has_prefix(s, p),
        has_text(p + s, p) && has_text(s + p, p),
{
    assert((p + s).take(p.len() as int) =~= p);
    assert((p + s).skip(p.len() as int) =~= s);
    if has_prefix(s, p) {
        assert(s =~= p + s.skip(p.len() as int));
    }
    assert((p + s).subrange(0, 0int + p.len()) =~= p);
    assert((s + p).subrange(s.len() as int, s.len() as int + p.len()) =~= p);
}

/// Small letters stay, capitals become small, and nothing else changes.
pub proof fn law_lowered(s: Seq<char>)
    ensures
        lowered(s).len() == s.len(),
        lowered(lowered(s)) == lowered(s),
        forall|i: int|
            0 <= i < s.len() ==> if 65 <= #[trigger] s[i] as u32 <= 90 {
                lowered(s)[i] as u32 == s[i] as u32 + 32
            } else {
                lowered(s)[i] == s[i]
            },
{
    assert(lowered(lowered(s)) =~= lowered(s));
}

/// A text that is too long keeps its front and says that more follows.
pub proof fn law_shortening(s: Seq<char>, n: int)
    requires
        n >= 0,
    ensures
        s.len() <= n ==> head_of(s, n) == s,
        s.len() > n ==> head_of(s, n) == s.take(n).push('…'),
{
}

/// Texts are in the order of a dictionary: the first difference decides, and a
/// text comes before those that go on from it.
pub proof fn law_text_order(p: Seq<char>, a: char, b: char, s: Seq<char>, t: Seq<char>)
    ensures
        (a as int) < (b as int) ==> text_lt(p.push(a) + s, p.push(b) + t),
        text_lt(p, p.push(a) + s),
        !text_lt(p.push(a) + s, p),
        !text_lt(p, p),
    decreases p.len(),
{
    let x = p.push(a) + s;
    let y = p.push(b) + t;
    if p.len() == 0 {
        assert(x[0] == a && y[0] == b);
    } else {
        let q = p.drop_first();
        law_text_order(q, a, b, s, t);
        assert(x.drop_first() =~= q.push(a) + s);
        assert(y.drop_first() =~= q.push(b) + t);
        assert(x[0] == p[0] && y[0] == p[0]);
    }
}

} // verus!
