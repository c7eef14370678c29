//! How lines, words and numbers are written and read.

use vstd::prelude::*;
use vstd::string::*;

use crate::http::{clock_key, without_bytes};
use crate::text::{
    all_digits, before_first, cut_first, decimal, digits_value, first_word, hex_digit, hex_in,
    hex_number, hex_of, is_digit, is_space, lemma_before_first, lemma_signed_decimal, lines_in, number_in,
    signed_decimal, signed_in, trim_front, word_len,
};

verus! {

/// A text is read line by line: a line ends with a line feed, before which one
/// carriage return is dropped; the last line need not end.
pub proof fn law_lines_of_a_text(a: Seq<char>, b: Seq<char>)
    requires
        forall|i: int| 0 <= i < a.len() ==> a[i] != '\n',
    ensures
        lines_in(Seq::empty()).len() == 0,
        a.len() > 0 ==> lines_in(a) == seq![a],
        a.len() == 0 || a.last() != '\r' ==> lines_in(a + seq!['\n'] + b) == seq![a] + lines_in(b),
        a.len() > 0 && a.last() == '\r' ==> lines_in(a + seq!['\n'] + b) == seq![a.drop_last()] + lines_in(b),
{
    let s = a + seq!['\n'] + b;
    let n = a.len() as int;
    assert(s[n] == '\n');
    assert forall|i: int| 0 <= i < n implies s[i] != '\n' by {
        assert(s[i] == a[i]);
    }
    crate::text::lemma_first_at(s, '\n', n);
    assert(s.take(n) =~= a);
    assert(s.skip(n + 1) =~= b);
    assert(cut_first(s, '\n') == Some((a, b)));
    if n > 0 {
        lemma_before_first(a, '\n');
        let k = before_first(a, '\n');
        if k < n {
            assert(a[k] == '\n');
        }
        assert(cut_first(a, '\n') is None);
    }
}

proof fn lemma_word(s: Seq<char>)
    ensures
        0 <= word_len(s) <= s.len(),
        forall|i: int| 0 <= i < word_len(s) ==> !is_space(#[trigger] s[i]),
        word_len(s) < s.len() ==> is_space(s[word_len(s)]),
    decreases s.len(),
{
    if s.len() > 0 && !is_space(s[0]) {
        let t = s.drop_first();
        lemma_word(t);
        assert forall|i: int| 0 <= i < word_len(s) implies !is_space(#[trigger] s[i]) by {
            if i > 0 {
                assert(t[i - 1] == s[i]);
            }
        }
    }
}

proof fn lemma_front(s: Seq<char>)
    ensures
        ({
            let n = s.len() - trim_front(s).len();
            &&& 0 <= n
            &&& trim_front(s) == s.skip(n)
            &&& forall|i: int| 0 <= i < n ==> is_space(#[trigger] s[i])
            &&& n < s.len() ==> !is_space(s[n])
        }),
    decreases s.len(),
{
    if s.len() > 0 && is_space(s[0]) {
        let t = s.drop_first();
        lemma_front(t);
        let n = s.len() - trim_front(s).len();
        assert(s.skip(n) =~= t.skip(n - 1));
        assert forall|i: int| 0 <= i < n implies is_space(#[trigger] s[i]) by {
            if i > 0 {
                assert(t[i - 1] == s[i]);
            }
        }
    } else {
        assert(s.skip(0) =~= s);
    }
}

/// The first word of a text stands between the white space at its front and the
/// next white space; all that follows the word is kept.
pub proof fn law_first_word(s: Seq<char>)
    ensures
        ({
            let (w, rest) = first_word(s);
            let n = s.len() - w.len() - rest.len();
            &&& 0 <= n
            &&& s == s.take(n) + w + rest
            &&& forall|i: int| 0 <= i < n ==> is_space(#[trigger] s[i])
            &&& forall|i: int| 0 <= i < w.len() ==> !is_space(#[trigger] w[i])
            &&& rest.len() > 0 ==> is_space(rest[0]) && w.len() > 0
        }),
{
    let t = trim_front(s);
    lemma_front(s);
    lemma_word(t);
    let (w, rest) = first_word(s);
    let n = s.len() - t.len();
    assert(w.len() + rest.len() == t.len());
    assert(s =~= s.take(n) + w + rest);
    if rest.len() > 0 {
        assert(t[0] == s[n]);
    }
}

/// A digit of a number in base sixteen, in small letters.
pub open spec fn digit_is(c: char, d: int) -> bool {
    0 <= d < 10 && c as u32 == 48 + d || 10 <= d < 16 && c as u32 == 97 + (d - 10)
}

/// Each byte is written as two digits in base sixteen, the higher one first.
pub proof fn law_bytes_in_digits(b: Seq<u8>, i: int)
    ensures
        hex_of(b).len() == 2 * b.len(),
        0 <= i < b.len() ==> digit_is(hex_of(b)[2 * i], b[i] as int / 16) && digit_is(hex_of(b)[2 * i + 1], b[i] as int % 16),
    decreases b.len(),
{
    if b.len() > 0 {
        law_bytes_in_digits(b.drop_last(), i);
        assert(hex_of(b.drop_last()).len() == 2 * (b.len() - 1));
    }
}

/// A number with its sign is read back as it was written.
pub proof fn law_signed_number(n: i64)
    ensures
        signed_in(signed_decimal(n as int)) == Some(n),
        n >= 0 ==> signed_decimal(n as int) == decimal(n as nat),
        n < 0 ==> signed_decimal(n as int).len() > 0 && signed_decimal(n as int)[0] == '-' && signed_decimal(n as int).drop_first()
            == decimal((-n) as nat),
{
    lemma_signed_decimal(n);
    if n < 0 {
        reveal_strlit("-");
        assert(signed_decimal(n as int).drop_first() =~= decimal((-n) as nat));
    }
}

/// One of the ten digits.
pub open spec fn numeral(c: char) -> bool {
    48 <= c as u32 <= 57
}

/// A number is read digit by digit; anything else in the text is no number.
pub proof fn law_digits(s: Seq<char>, c: char, i: int)
    ensures
        digits_value(Seq::empty()) == 0,
        numeral(c) ==> digits_value(s.push(c)) == 10 * digits_value(s) + (c as u32 - 48),
        number_in(Seq::empty()) is None,
        0 <= i < s.len() && (i > 0 || s[0] != '+') && !numeral(s[i]) ==> number_in(s) is None,
        s.len() > 0 && (forall|k: int| 0 <= k < s.len() ==> numeral(#[trigger] s[k])) && digits_value(s)
            <= u64::MAX ==> number_in(s) == Some(digits_value(s) as u64),
        digits_value(s) > u64::MAX && (s.len() == 0 || s[0] != '+') ==> number_in(s) is None,
{
    assert(s.push(c).drop_last() =~= s);
    if 0 <= i < s.len() && (i > 0 || s[0] != '+') && !numeral(s[i]) {
        assert(!is_digit(s[i]));
        if s[0] == '+' {
            assert(s.drop_first()[i - 1] == s[i]);
        }
    }
    if s.len() > 0 && (forall|k: int| 0 <= k < s.len() ==> numeral(#[trigger] s[k])) {
        assert(numeral(s[0]));
        assert forall|k: int| 0 <= k < s.len() implies is_digit(#[trigger] s[k]) by {
            assert(numeral(s[k]));
        }
        assert(all_digits(s));
    }
}

/// A number in base sixteen is read digit by digit, in small letters or large.
pub proof fn law_base_sixteen(s: Seq<char>, c: char, i: int)
    ensures
        numeral(c) ==> hex_digit(c) == Some((c as u32 - 48) as nat),
        97 <= c as u32 <= 102 ==> hex_digit(c) == Some((10 + (c as u32 - 97)) as nat),
        65 <= c as u32 <= 70 ==> hex_digit(c) == Some((10 + (c as u32 - 65)) as nat),
        hex_digit(c) is Some ==> numeral(c) || 97 <= c as u32 <= 102 || 65 <= c as u32 <= 70,
        hex_number(Seq::empty()) == 0,
        hex_digit(c) is Some ==> hex_number(s.push(c)) == 16 * hex_number(s) + hex_digit(c)->0,
        hex_in(Seq::empty()) is None,
        0 <= i < s.len() && (i > 0 || s[0] != '+') && hex_digit(s[i]) is None ==> hex_in(s) is None,
        s.len() > 0 && (forall|k: int| 0 <= k < s.len() ==> hex_digit(#[trigger] s[k]) is Some) && hex_number(s)
            <= u64::MAX ==> hex_in(s) == Some(hex_number(s) as u64),
{
    assert(s.push(c).drop_last() =~= s);
    if 0 <= i < s.len() && (i > 0 || s[0] != '+') && hex_digit(s[i]) is None {
        if s[0] == '+' {
            assert(s.drop_first()[i - 1] == s[i]);
        }
    }
    if s.len() > 0 && (forall|k: int| 0 <= k < s.len() ==> hex_digit(#[trigger] s[k]) is Some) {
        assert(hex_digit(s[0]) is Some);
    }
}

/// The lowest bytes of a number are dropped one by one.
pub proof fn law_bytes_of_a_time(t: nat, k: nat)
    ensures
        without_bytes(t, 0) == t,
        without_bytes(t, k + 1) == without_bytes(t, k) / 256,
{
}

/// A key that is made from the time has sixteen bytes: the eight of the time, the
/// lowest first, and then again, each mixed with its place.
pub proof fn law_key_from_time(t: u64, i: int)
    requires
        0 <= i < 8,
    ensures
        clock_key(t).len() == 16,
        clock_key(t)[i] == ((without_bytes(t as nat, i as nat) % 256) as u8) ^ ((31 * i) % 256) as u8,
        clock_key(t)[i + 8] == ((without_bytes(t as nat, i as nat) % 256) as u8) ^ ((31 * (i + 8)) % 256) as u8,
{
}

} // verus!
