//! Strings as sequences of characters: the handful of operations that the
//! state machine and the connectors need, each with an exact contract.

use vstd::prelude::*;
use vstd::string::*;

verus! {

/// `String::push` appends exactly one character.
pub assume_specification[ String::push ](s: &mut String, c: char)
    ensures
        final(s)@ == old(s)@.push(c),
;

/// The code point of `c`.
pub fn code_of(c: char) -> (r: u32)
    ensures
        r as int == c as int,
{
    c as u32
}

/// The characters of `s`, in order.
pub fn chars_of(s: &str) -> (r: Vec<char>)
    ensures
        r@ == s@,
{
    let mut out: Vec<char> = Vec::new();
    for c in it: s.chars()
        invariant
            it.seq() == s@,
            out@ == s@.take(it.index() as int),
    {
        proof {
            let k: int = it.index() as int;
            assert(s@.take(k + 1) =~= s@.take(k).push(s@[k]));
        }
        out.push(c);
    }
    assert(s@.take(s@.len() as int) =~= s@);
    out
}

/// The string made of `v[from..to]`.
pub fn string_of_range(v: &Vec<char>, from: usize, to: usize) -> (r: String)
    requires
        from <= to <= v@.len(),
    ensures
        r@ == v@.subrange(from as int, to as int),
{
    let mut out = String::new();
    let mut i: usize = from;
    while i < to
        invariant
            from <= i <= to <= v@.len(),
            out@ == v@.subrange(from as int, i as int),
        decreases to - i,
    {
        proof {
            assert(v@.subrange(from as int, i as int + 1) =~= v@.subrange(from as int, i as int).push(v@[i as int]));
        }
        out.push(v[i]);
        i += 1;
    }
    out
}

/// Whether two texts hold the same characters.
pub fn same_text(a: &str, b: &str) -> (r: bool)
    ensures
        r == (a@ == b@),
{
    let x = chars_of(a);
    let y = chars_of(b);
    if x.len() != y.len() {
        return false;
    }
    let mut i: usize = 0;
    while i < x.len()
        invariant
            i <= x@.len() == y@.len(),
            x@ == a@,
            y@ == b@,
            forall|j: int| 0 <= j < i ==> x@[j] == y@[j],
        decreases x@.len() - i,
    {
        if x[i] != y[i] {
            return false;
        }
        i += 1;
    }
    assert(a@ =~= b@);
    true
}

/// An optional text as an optional character sequence.
pub open spec fn opt_text(o: Option<String>) -> Option<Seq<char>> {
    match o {
        Some(s) => Some(s@),
        None => None,
    }
}

/// A list of texts as a sequence of character sequences.
pub open spec fn texts(v: Seq<String>) -> Seq<Seq<char>> {
    v.map_values(|s: String| s@)
}

/// Copy of an optional text.
pub fn clone_opt(o: &Option<String>) -> (r: Option<String>)
    ensures
        opt_text(r) == opt_text(*o),
{
    match o {
        Some(s) => Some(s.clone()),
        None => None,
    }
}

/// A copy of a borrowed text.
pub fn own(s: &str) -> (r: String)
    ensures
        r@ == s@,
{
    s.to_owned()
}

/// Appends `b` behind `a`.
pub fn joined(a: &str, b: &str) -> (r: String)
    ensures
        r@ == a@ + b@,
{
    let mut t = a.to_owned();
    t.append(b);
    t
}

/// `s` when it has at most `n` characters, otherwise its first `n` characters
/// followed by an ellipsis.
pub open spec fn head_of(s: Seq<char>, n: int) -> Seq<char> {
    if s.len() <= n {
        s
    } else {
        s.take(n).push('…')
    }
}

/// Shortens a text from the back.
pub fn truncate_chars(s: &str, n: usize) -> (r: String)
    ensures
        r@ == head_of(s@, n as int),
{
    let v = chars_of(s);
    if v.len() <= n {
        s.to_owned()
    } else {
        let mut t = string_of_range(&v, 0, n);
        t.push('…');
        assert(v@.subrange(0, n as int) =~= s@.take(n as int));
        t
    }
}

/// The first `n` characters of a text, or all of it where it has fewer.
pub open spec fn front_of(s: Seq<char>, n: int) -> Seq<char> {
    if s.len() <= n {
        s
    } else {
        s.take(n)
    }
}

/// The first characters of a text.
pub fn first_chars(s: &str, n: usize) -> (r: String)
    ensures
        r@ == front_of(s@, n as int),
{
    let v = chars_of(s);
    if v.len() <= n {
        s.to_owned()
    } else {
        let t = string_of_range(&v, 0, n);
        assert(v@.subrange(0, n as int) =~= s@.take(n as int));
        t
    }
}

/// Unicode white space: the characters that `trim` removes.
pub open spec fn is_space(c: char) -> bool {
    ||| 0x09 <= c as u32 <= 0x0d
    ||| c as u32 == 0x20
    ||| c as u32 == 0x85
    ||| c as u32 == 0xa0
    ||| c as u32 == 0x1680
    ||| 0x2000 <= c as u32 <= 0x200a
    ||| c as u32 == 0x2028
    ||| c as u32 == 0x2029
    ||| c as u32 == 0x202f
    ||| c as u32 == 0x205f
    ||| c as u32 == 0x3000
}

/// Whether `c` is Unicode white space.
pub fn char_is_space(c: char) -> (r: bool)
    ensures
        r == is_space(c),
{
    let u: u32 = c as u32;
    (0x09 <= u && u <= 0x0d) || u == 0x20 || u == 0x85 || u == 0xa0 || u == 0x1680 || (0x2000 <= u
        && u <= 0x200a) || u == 0x2028 || u == 0x2029 || u == 0x202f || u == 0x205f || u == 0x3000
}

/// `s` without the white space at its front.
pub open spec fn trim_front(s: Seq<char>) -> Seq<char>
    decreases s.len(),
{
    if s.len() > 0 && is_space(s[0]) {
        trim_front(s.drop_first())
    } else {
        s
    }
}

/// `s` without the white space at its back.
pub open spec fn trim_back(s: Seq<char>) -> Seq<char>
    decreases s.len(),
{
    if s.len() > 0 && is_space(s.last()) {
        trim_back(s.drop_last())
    } else {
        s
    }
}

/// `s` without the white space at both ends.
pub open spec fn trimmed(s: Seq<char>) -> Seq<char> {
    trim_back(trim_front(s))
}

/// Removes the white space at the front.
pub fn trim_start(s: &str) -> (r: String)
    ensures
        r@ == trim_front(s@),
{
    let v = chars_of(s);
    let mut from: usize = 0;
    assert(v@.subrange(0, v@.len() as int) =~= s@);
    while from < v.len() && char_is_space(v[from])
        invariant
            from <= v@.len(),
            trim_front(s@) == trim_front(v@.subrange(from as int, v@.len() as int)),
        decreases v@.len() - from,
    {
        proof {
            let t = v@.subrange(from as int, v@.len() as int);
            assert(t.drop_first() =~= v@.subrange(from as int + 1, v@.len() as int));
            assert(t[0] == v@[from as int]);
        }
        from += 1;
    }
    let n: usize = v.len();
    proof {
        let t = v@.subrange(from as int, v@.len() as int);
        if from < v@.len() {
            assert(t[0] == v@[from as int]);
        }
    }
    string_of_range(&v, from, n)
}

/// Removes the white space at both ends.
pub fn trim(s: &str) -> (r: String)
    ensures
        r@ == trimmed(s@),
{
    let front = trim_start(s);
    let v = chars_of(front.as_str());
    let mut to: usize = v.len();
    assert(v@.subrange(0, v@.len() as int) =~= front@);
    while to > 0 && char_is_space(v[to - 1])
        invariant
            to <= v@.len(),
            trimmed(s@) == trim_back(v@.subrange(0, to as int)),
        decreases to,
    {
        proof {
            let t = v@.subrange(0, to as int);
            assert(t.drop_last() =~= v@.subrange(0, to as int - 1));
            assert(t.last() == v@[to as int - 1]);
        }
        to -= 1;
    }
    proof {
        let t = v@.subrange(0, to as int);
        if to > 0 {
            assert(t.last() == v@[to as int - 1]);
        }
    }
    string_of_range(&v, 0, to)
}

/// The decimal digit of `d`.
pub open spec fn digit(d: nat) -> char {
    (d + 48) as char
}

/// Decimal notation of `n`.
pub open spec fn decimal(n: nat) -> Seq<char>
    decreases n,
{
    if n < 10 {
        seq![digit(n)]
    } else {
        decimal(n / 10).push(digit(n % 10))
    }
}

/// Decimal notation of a number.
pub fn decimal_of(n: u128) -> (r: String)
    ensures
        r@ == decimal(n as nat),
    decreases n,
{
    let d: u8 = (n % 10) as u8;
    let c: char = (d + 48) as char;
    if n < 10 {
        let mut s = String::new();
        s.push(c);
        assert(s@ =~= seq![digit(n as nat)]);
        s
    } else {
        let mut s = decimal_of(n / 10);
        s.push(c);
        s
    }
}

/// Decimal notation consists of digits and can be read back.
pub proof fn lemma_decimal(n: nat)
    ensures
        decimal(n).len() > 0,
        all_digits(decimal(n)),
        digits_value(decimal(n)) == n,
    decreases n,
{
    let s = decimal(n);
    if n < 10 {
        assert(s.drop_last() =~= Seq::<char>::empty());
        assert(digits_value(s.drop_last()) == 0);
    } else {
        lemma_decimal(n / 10);
        assert(s.drop_last() =~= decimal(n / 10));
        assert(s.last() == digit(n % 10));
        assert forall|i: int| 0 <= i < s.len() implies is_digit(#[trigger] s[i]) by {
            if i < s.len() - 1 {
                assert(s[i] == decimal(n / 10)[i]);
            }
        }
    }
}

/// Whether `s` begins with `p`.
pub open spec fn has_prefix(s: Seq<char>, p: Seq<char>) -> bool {
    p.len() <= s.len() && s.take(p.len() as int) == p
}

/// Whether `s` begins with `p`.
pub fn starts_with(s: &str, p: &str) -> (r: bool)
    ensures
        r == has_prefix(s@, p@),
{
    let x = chars_of(s);
    let y = chars_of(p);
    if y.len() > x.len() {
        return false;
    }
    let mut i: usize = 0;
    while i < y.len()
        invariant
            i <= y@.len() <= x@.len(),
            x@ == s@,
            y@ == p@,
            forall|j: int| 0 <= j < i ==> x@[j] == y@[j],
        decreases y@.len() - i,
    {
        if x[i] != y[i] {
            assert(s@.take(p@.len() as int)[i as int] != p@[i as int]);
            return false;
        }
        i += 1;
    }
    assert(s@.take(p@.len() as int) =~= p@);
    true
}


/// `s` holds `p` somewhere.
pub open spec fn has_text(s: Seq<char>, p: Seq<char>) -> bool {
    exists|i: int| 0 <= i && i + p.len() <= s.len() && #[trigger] s.subrange(i, i + p.len()) == p
}

/// Whether `v` holds `p` at index `i`.
fn stands_at(v: &Vec<char>, p: &Vec<char>, i: usize) -> (r: bool)
    requires
        i + p@.len() <= v@.len(),
    ensures
        r == (v@.subrange(i as int, i + p@.len()) == p@),
{
    let n: usize = v.len();
    let mut j: usize = 0;
    while j < p.len()
        invariant
            j <= p@.len(),
            n == v@.len(),
            i + p@.len() <= n,
            forall|k: int| 0 <= k < j ==> v@[i + k] == #[trigger] p@[k],
        decreases p@.len() - j,
    {
        if v[i + j] != p[j] {
            assert(v@.subrange(i as int, i + p@.len())[j as int] != p@[j as int]);
            return false;
        }
        j += 1;
    }
    assert(v@.subrange(i as int, i + p@.len()) =~= p@);
    true
}

/// Whether `s` holds `p` somewhere.
pub fn contains_text(s: &str, p: &str) -> (r: bool)
    ensures
        r == has_text(s@, p@),
{
    let v = chars_of(s);
    let w = chars_of(p);
    if w.len() > v.len() {
        return false;
    }
    let last: usize = v.len() - w.len();
    let mut i: usize = 0;
    while i <= last
        invariant
            v@ == s@,
            w@ == p@,
            w@.len() <= v@.len(),
            last == v@.len() - w@.len(),
            i <= last + 1,
            forall|j: int| 0 <= j < i ==> #[trigger] s@.subrange(j, j + p@.len()) != p@,
        decreases last + 1 - i,
    {
        if stands_at(&v, &w, i) {
            return true;
        }
        if i == last {
            assert(!has_text(s@, p@)) by {
                if has_text(s@, p@) {
                    let k = choose|k: int| 0 <= k && k + p@.len() <= s@.len() && #[trigger] s@.subrange(k, k + p@.len())
                        == p@;
                    assert(k <= last);
                }
            }
            return false;
        }
        i += 1;
    }
    false
}

/// The lower case of an ASCII letter; anything else stays.
pub open spec fn ascii_lower(c: char) -> char {
    if 65 <= c as u32 <= 90 {
        (c as u32 + 32) as char
    } else {
        c
    }
}

/// `s` with its ASCII letters in lower case.
pub open spec fn lowered(s: Seq<char>) -> Seq<char> {
    s.map_values(|c: char| ascii_lower(c))
}

fn lower_char(c: char) -> (r: char)
    ensures
        r == ascii_lower(c),
{
    let u: u32 = c as u32;
    if 65 <= u && u <= 90 {
        let b: u8 = (u + 32) as u8;
        b as char
    } else {
        c
    }
}

/// The text with its ASCII letters in lower case.
pub fn to_lower(s: &str) -> (r: String)
    ensures
        r@ == lowered(s@),
{
    let v = chars_of(s);
    let mut out = String::new();
    let mut i: usize = 0;
    assert(out@ =~= lowered(s@).take(0));
    while i < v.len()
        invariant
            i <= v@.len(),
            v@ == s@,
            out@ == lowered(s@).take(i as int),
        decreases v@.len() - i,
    {
        proof {
            assert(lowered(s@).take(i as int + 1) =~= lowered(s@).take(i as int).push(ascii_lower(s@[i as int])));
        }
        out.push(lower_char(v[i]));
        i += 1;
    }
    assert(lowered(s@).take(i as int) =~= lowered(s@));
    out
}

/// `c` is a decimal digit.
pub open spec fn is_digit(c: char) -> bool {
    48 <= c as u32 <= 57
}

/// `s` consists of decimal digits.
pub open spec fn all_digits(s: Seq<char>) -> bool {
    forall|i: int| 0 <= i < s.len() ==> is_digit(#[trigger] s[i])
}

/// The number that digits write.
pub open spec fn digits_value(s: Seq<char>) -> nat
    decreases s.len(),
{
    if s.len() == 0 {
        0
    } else {
        digits_value(s.drop_last()) * 10 + (s.last() as u32 - 48) as nat
    }
}

/// The digits of a number in writing; a plus sign may stand before them.
pub open spec fn unsigned_digits(s: Seq<char>) -> Seq<char> {
    if s.len() > 0 && s[0] == '+' {
        s.drop_first()
    } else {
        s
    }
}

/// The unsigned number that a text writes, if it writes one that fits.
pub open spec fn number_in(s: Seq<char>) -> Option<u64> {
    let d = unsigned_digits(s);
    if d.len() > 0 && all_digits(d) && digits_value(d) <= u64::MAX {
        Some(digits_value(d) as u64)
    } else {
        None
    }
}

proof fn lemma_digits_grow(s: Seq<char>, n: int)
    requires
        0 <= n <= s.len(),
    ensures
        digits_value(s.take(n)) <= digits_value(s),
    decreases s.len() - n,
{
    if n == s.len() {
        assert(s.take(n) =~= s);
    } else {
        lemma_digits_grow(s, n + 1);
        assert(s.take(n + 1).drop_last() =~= s.take(n));
    }
}

/// Reads an unsigned number.
pub fn parse_u64(s: &str) -> (r: Option<u64>)
    ensures
        r == number_in(s@),
{
    let v = chars_of(s);
    let from: usize = if v.len() > 0 && v[0] == '+' {
        1
    } else {
        0
    };
    let ghost d = unsigned_digits(s@);
    proof {
        assert(d =~= v@.subrange(from as int, v@.len() as int));
    }
    if from == v.len() {
        return None;
    }
    let mut value: u64 = 0;
    let mut i: usize = from;
    assert(d.take(0) =~= Seq::<char>::empty());
    while i < v.len()
        invariant
            from <= i <= v@.len(),
            d == v@.subrange(from as int, v@.len() as int),
            d == unsigned_digits(s@),
            forall|j: int| 0 <= j < i - from ==> is_digit(#[trigger] d[j]),
            value == digits_value(d.take(i - from)),
        decreases v@.len() - i,
    {
        let c: char = v[i];
        let u: u32 = c as u32;
        assert(c == d[i - from]);
        if u < 48 || u > 57 {
            return None;
        }
        proof {
            assert(d.take(i - from + 1).drop_last() =~= d.take(i - from));
            assert(d.take(i - from + 1).last() == c);
            lemma_digits_grow(d, i - from + 1);
        }
        let digit: u64 = (u - 48) as u64;
        match value.checked_mul(10) {
            None => {
                return None;
            },
            Some(t) => match t.checked_add(digit) {
                None => {
                    return None;
                },
                Some(n) => {
                    value = n;
                },
            },
        }
        i += 1;
    }
    assert(d.take(i - from) =~= d);
    Some(value)
}

/// The text that follows the prefix `p`, where `s` begins with it.
pub open spec fn after_prefix(s: Seq<char>, p: Seq<char>) -> Option<Seq<char>> {
    if has_prefix(s, p) {
        Some(s.skip(p.len() as int))
    } else {
        None
    }
}

/// The text that follows the prefix `p`, where `s` begins with it.
pub fn strip_prefix(s: &str, p: &str) -> (r: Option<String>)
    ensures
        opt_text(r) == after_prefix(s@, p@),
{
    if starts_with(s, p) {
        let v = chars_of(s);
        let n: usize = chars_of(p).len();
        let t = string_of_range(&v, n, v.len());
        assert(t@ =~= s@.skip(p@.len() as int));
        Some(t)
    } else {
        None
    }
}


/// Removes the white space at the back.
pub fn trim_end(s: &str) -> (r: String)
    ensures
        r@ == trim_back(s@),
{
    let v = chars_of(s);
    let mut to: usize = v.len();
    assert(v@.subrange(0, v@.len() as int) =~= s@);
    while to > 0 && char_is_space(v[to - 1])
        invariant
            to <= v@.len(),
            trim_back(s@) == trim_back(v@.subrange(0, to as int)),
        decreases to,
    {
        proof {
            let t = v@.subrange(0, to as int);
            assert(t.drop_last() =~= v@.subrange(0, to as int - 1));
            assert(t.last() == v@[to as int - 1]);
        }
        to -= 1;
    }
    proof {
        let t = v@.subrange(0, to as int);
        if to > 0 {
            assert(t.last() == v@[to as int - 1]);
        }
    }
    string_of_range(&v, 0, to)
}

/// How many characters stand before the first `c`; all of them where there is none.
pub open spec fn before_first(s: Seq<char>, c: char) -> int
    decreases s.len(),
{
    if s.len() == 0 || s[0] == c {
        0
    } else {
        1 + before_first(s.drop_first(), c)
    }
}

/// A text cut at the first `c`, which is dropped; nothing where there is none.
pub open spec fn cut_first(s: Seq<char>, c: char) -> Option<(Seq<char>, Seq<char>)> {
    let n = before_first(s, c);
    if n < s.len() {
        Some((s.take(n), s.skip(n + 1)))
    } else {
        None
    }
}

/// The first `c` stands at `n`, if there is one and none before it.
pub proof fn lemma_first_at(s: Seq<char>, c: char, n: int)
    requires
        0 <= n < s.len(),
        s[n] == c,
        forall|i: int| 0 <= i < n ==> s[i] != c,
    ensures
        before_first(s, c) == n,
{
    lemma_before_first(s, c);
    let m = before_first(s, c);
    if m < n {
        assert(s[m] != c);
    } else if n < m {
        assert(s[n] != c);
    }
}

/// Where the first `c` stands.
pub proof fn lemma_before_first(s: Seq<char>, c: char)
    ensures
        0 <= before_first(s, c) <= s.len(),
        before_first(s, c) < s.len() ==> s[before_first(s, c)] == c,
        forall|i: int| 0 <= i < before_first(s, c) ==> s[i] != c,
    decreases s.len(),
{
    if s.len() > 0 && s[0] != c {
        let t = s.drop_first();
        lemma_before_first(t, c);
        assert forall|i: int| 0 <= i < before_first(s, c) implies s[i] != c by {
            if i > 0 {
                assert(t[i - 1] == s[i]);
            }
        }
    }
}

/// Finds the first `c`.
fn find_first(v: &Vec<char>, c: char) -> (r: usize)
    ensures
        r as int == before_first(v@, c),
        r <= v@.len(),
        r < v@.len() ==> v@[r as int] == c,
        forall|i: int| 0 <= i < r ==> v@[i] != c,
{
    let mut i: usize = 0;
    assert(v@.subrange(0, v@.len() as int) =~= v@);
    while i < v.len() && v[i] != c
        invariant
            i <= v@.len(),
            before_first(v@, c) == i + before_first(v@.subrange(i as int, v@.len() as int), c),
            forall|j: int| 0 <= j < i ==> v@[j] != c,
        decreases v@.len() - i,
    {
        proof {
            let t = v@.subrange(i as int, v@.len() as int);
            assert(t[0] == v@[i as int]);
            assert(t.drop_first() =~= v@.subrange(i as int + 1, v@.len() as int));
        }
        i += 1;
    }
    proof {
        let t = v@.subrange(i as int, v@.len() as int);
        if i < v@.len() {
            assert(t[0] == v@[i as int]);
        }
    }
    i
}

/// Cuts a text at the first `c`.
pub fn split_first(s: &str, c: char) -> (r: Option<(String, String)>)
    ensures
        match r {
            Some(p) => cut_first(s@, c) == Some((p.0@, p.1@)),
            None => cut_first(s@, c) is None,
        },
{
    let v = chars_of(s);
    let n: usize = find_first(&v, c);
    if n < v.len() {
        let a = string_of_range(&v, 0, n);
        let b = string_of_range(&v, n + 1, v.len());
        assert(a@ =~= s@.take(n as int));
        assert(b@ =~= s@.skip(n + 1));
        Some((a, b))
    } else {
        None
    }
}

/// A text cut at the last `c`, which is dropped; nothing where there is none.
pub open spec fn cut_last(s: Seq<char>, c: char) -> Option<(Seq<char>, Seq<char>)>
    decreases s.len(),
{
    if s.len() == 0 {
        None
    } else if s.last() == c {
        Some((s.drop_last(), Seq::empty()))
    } else {
        match cut_last(s.drop_last(), c) {
            Some(p) => Some((p.0, p.1.push(s.last()))),
            None => None,
        }
    }
}

/// What stands before the last `c` is the front of the text.
pub proof fn lemma_cut_front(s: Seq<char>, c: char)
    requires
        cut_last(s, c) is Some,
    ensures
        ({
            let (h, _) = cut_last(s, c)->0;
            h.len() < s.len() && h == s.take(h.len() as int)
        }),
    decreases s.len(),
{
    if s.last() != c {
        lemma_cut_front(s.drop_last(), c);
        let (h, _) = cut_last(s, c)->0;
        assert(s.drop_last().take(h.len() as int) =~= s.take(h.len() as int));
    } else {
        assert(s.drop_last() =~= s.take(s.len() - 1));
    }
}

/// Where `c` is cut off from behind: at `n`, if there is none from there on.
pub proof fn lemma_cut_last(s: Seq<char>, c: char, n: int)
    requires
        0 <= n <= s.len(),
        forall|j: int| n <= j < s.len() ==> s[j] != c,
    ensures
        n == 0 ==> cut_last(s, c) is None,
        n > 0 && s[n - 1] == c ==> cut_last(s, c) == Some((s.take(n - 1), s.skip(n))),
    decreases s.len(),
{
    if s.len() > n {
        let t = s.drop_last();
        assert forall|j: int| n <= j < t.len() implies t[j] != c by {
            assert(t[j] == s[j]);
        }
        lemma_cut_last(t, c, n);
        assert(s.last() == s[s.len() - 1]);
        if n > 0 && s[n - 1] == c {
            assert(t.take(n - 1) =~= s.take(n - 1));
            assert(t.skip(n).push(s.last()) =~= s.skip(n));
        }
    } else if n > 0 && s[n - 1] == c {
        assert(s.drop_last() =~= s.take(n - 1));
        assert(s.skip(n) =~= Seq::<char>::empty());
    }
}

/// Cuts a text at the last `c`.
pub fn split_last(s: &str, c: char) -> (r: Option<(String, String)>)
    ensures
        match r {
            Some(p) => cut_last(s@, c) == Some((p.0@, p.1@)),
            None => cut_last(s@, c) is None,
        },
{
    let v = chars_of(s);
    let mut n: usize = v.len();
    while n > 0 && v[n - 1] != c
        invariant
            n <= v@.len(),
            forall|j: int| n <= j < v@.len() ==> v@[j] != c,
        decreases n,
    {
        n -= 1;
    }
    proof {
        lemma_cut_last(s@, c, n as int);
    }
    if n == 0 {
        None
    } else {
        let a = string_of_range(&v, 0, n - 1);
        let b = string_of_range(&v, n, v.len());
        assert(a@ =~= s@.take(n - 1));
        assert(b@ =~= s@.skip(n as int));
        Some((a, b))
    }
}

/// How many characters stand before the first white space.
pub open spec fn word_len(s: Seq<char>) -> int
    decreases s.len(),
{
    if s.len() == 0 || is_space(s[0]) {
        0
    } else {
        1 + word_len(s.drop_first())
    }
}

/// The first word of a text, and what follows it.
pub open spec fn first_word(s: Seq<char>) -> (Seq<char>, Seq<char>) {
    let t = trim_front(s);
    (t.take(word_len(t)), t.skip(word_len(t)))
}

/// The first word of a text, and what follows it. The word is empty where the
/// text has none.
pub fn split_word(s: &str) -> (r: (String, String))
    ensures
        (r.0@, r.1@) == first_word(s@),
{
    let t = trim_start(s);
    let v = chars_of(t.as_str());
    let mut i: usize = 0;
    assert(v@.subrange(0, v@.len() as int) =~= v@);
    while i < v.len() && !char_is_space(v[i])
        invariant
            i <= v@.len(),
            word_len(v@) == i + word_len(v@.subrange(i as int, v@.len() as int)),
        decreases v@.len() - i,
    {
        proof {
            let u = v@.subrange(i as int, v@.len() as int);
            assert(u[0] == v@[i as int]);
            assert(u.drop_first() =~= v@.subrange(i as int + 1, v@.len() as int));
        }
        i += 1;
    }
    proof {
        let u = v@.subrange(i as int, v@.len() as int);
        if i < v@.len() {
            assert(u[0] == v@[i as int]);
        }
    }
    let a = string_of_range(&v, 0, i);
    let b = string_of_range(&v, i, v.len());
    assert(a@ =~= t@.take(i as int));
    assert(b@ =~= t@.skip(i as int));
    (a, b)
}

/// The value of a hexadecimal digit.
pub open spec fn hex_digit(c: char) -> Option<nat> {
    if 48 <= c as u32 <= 57 {
        Some((c as u32 - 48) as nat)
    } else if 97 <= c as u32 <= 102 {
        Some((c as u32 - 87) as nat)
    } else if 65 <= c as u32 <= 70 {
        Some((c as u32 - 55) as nat)
    } else {
        None
    }
}

/// The value of a hexadecimal digit.
pub fn hex_value(c: char) -> (r: Option<u8>)
    ensures
        match r {
            Some(d) => hex_digit(c) == Some(d as nat) && d < 16,
            None => hex_digit(c) is None,
        },
{
    let u: u32 = c as u32;
    if 48 <= u && u <= 57 {
        Some((u - 48) as u8)
    } else if 97 <= u && u <= 102 {
        Some((u - 87) as u8)
    } else if 65 <= u && u <= 70 {
        Some((u - 55) as u8)
    } else {
        None
    }
}

/// `s` consists of hexadecimal digits.
pub open spec fn all_hex(s: Seq<char>) -> bool {
    forall|i: int| 0 <= i < s.len() ==> hex_digit(#[trigger] s[i]) is Some
}

/// The number that hexadecimal digits write.
pub open spec fn hex_number(s: Seq<char>) -> nat
    decreases s.len(),
{
    if s.len() == 0 {
        0
    } else {
        hex_number(s.drop_last()) * 16 + hex_digit(s.last())->0
    }
}

/// The unsigned number that a text writes in hexadecimal, if it writes one that fits.
pub open spec fn hex_in(s: Seq<char>) -> Option<u64> {
    let d = unsigned_digits(s);
    if d.len() > 0 && all_hex(d) && hex_number(d) <= u64::MAX {
        Some(hex_number(d) as u64)
    } else {
        None
    }
}

proof fn lemma_hex_grows(s: Seq<char>, n: int)
    requires
        0 <= n <= s.len(),
        all_hex(s),
    ensures
        hex_number(s.take(n)) <= hex_number(s),
    decreases s.len() - n,
{
    if n == s.len() {
        assert(s.take(n) =~= s);
    } else {
        lemma_hex_grows(s, n + 1);
        assert(s.take(n + 1).drop_last() =~= s.take(n));
        assert(s.take(n + 1).last() == s[n]);
    }
}

/// Reads an unsigned number in hexadecimal.
pub fn parse_hex(s: &str) -> (r: Option<u64>)
    ensures
        r == hex_in(s@),
{
    let v = chars_of(s);
    let from: usize = if v.len() > 0 && v[0] == '+' {
        1
    } else {
        0
    };
    let ghost d = unsigned_digits(s@);
    proof {
        assert(d =~= v@.subrange(from as int, v@.len() as int));
    }
    if from == v.len() {
        return None;
    }
    let mut value: u64 = 0;
    let mut i: usize = from;
    assert(d.take(0) =~= Seq::<char>::empty());
    while i < v.len()
        invariant
            from <= i <= v@.len(),
            d == v@.subrange(from as int, v@.len() as int),
            d == unsigned_digits(s@),
            forall|j: int| 0 <= j < i - from ==> hex_digit(#[trigger] d[j]) is Some,
            value == hex_number(d.take(i - from)),
        decreases v@.len() - i,
    {
        let c: char = v[i];
        assert(c == d[i - from]);
        let digit: u64 = match hex_value(c) {
            Some(x) => x as u64,
            None => {
                return None;
            },
        };
        proof {
            assert(d.take(i - from + 1).drop_last() =~= d.take(i - from));
            assert(d.take(i - from + 1).last() == c);
            if all_hex(d) {
                lemma_hex_grows(d, i - from + 1);
            }
        }
        match value.checked_mul(16) {
            None => {
                return None;
            },
            Some(t) => match t.checked_add(digit) {
                None => {
                    return None;
                },
                Some(n) => {
                    value = n;
                },
            },
        }
        i += 1;
    }
    assert(d.take(i - from) =~= d);
    Some(value)
}

/// The hexadecimal digit, in lower case, of a number below sixteen.
pub open spec fn hex_char(d: int) -> char {
    if d < 10 {
        (d + 48) as char
    } else {
        (d + 87) as char
    }
}

/// Two hexadecimal digits for each byte.
pub open spec fn hex_of(bytes: Seq<u8>) -> Seq<char>
    decreases bytes.len(),
{
    if bytes.len() == 0 {
        Seq::empty()
    } else {
        hex_of(bytes.drop_last()).push(hex_char(bytes.last() as int / 16)).push(hex_char(bytes.last() as int % 16))
    }
}

fn hex_digit_char(d: u8) -> (r: char)
    requires
        d < 16,
    ensures
        r == hex_char(d as int),
{
    if d < 10 {
        (d + 48) as char
    } else {
        (d + 87) as char
    }
}

/// Writes bytes as hexadecimal digits.
pub fn hex_text(bytes: &[u8]) -> (r: String)
    ensures
        r@ == hex_of(bytes@),
{
    let mut out = String::new();
    let mut i: usize = 0;
    while i < bytes.len()
        invariant
            i <= bytes@.len(),
            out@ == hex_of(bytes@.take(i as int)),
        decreases bytes@.len() - i,
    {
        proof {
            assert(bytes@.take(i as int + 1).drop_last() =~= bytes@.take(i as int));
            assert(bytes@.take(i as int + 1).last() == bytes@[i as int]);
        }
        let b: u8 = bytes[i];
        out.push(hex_digit_char(b / 16));
        out.push(hex_digit_char(b % 16));
        i += 1;
    }
    assert(bytes@.take(i as int) =~= bytes@);
    out
}

/// Decimal notation of a signed number.
pub open spec fn signed_decimal(n: int) -> Seq<char> {
    if n < 0 {
        "-"@ + decimal((-n) as nat)
    } else {
        decimal(n as nat)
    }
}

/// Decimal notation of a signed number.
pub fn signed_decimal_of(n: i64) -> (r: String)
    ensures
        r@ == signed_decimal(n as int),
{
    if n < 0 {
        let m: u128 = (-(n as i128)) as u128;
        joined("-", decimal_of(m).as_str())
    } else {
        decimal_of(n as u128)
    }
}

/// Tells whether two lists hold the same texts.
pub fn same_lines(a: &Vec<String>, b: &Vec<String>) -> (r: bool)
    ensures
        r == (texts(a@) == texts(b@)),
{
    let n: usize = a.len();
    if n != b.len() {
        assert(texts(a@).len() != texts(b@).len());
        return false;
    }
    let mut i: usize = 0;
    while i < n
        invariant
            i <= n,
            n == a@.len(),
            n == b@.len(),
            forall|j: int| 0 <= j < i ==> (#[trigger] a@[j])@ == b@[j]@,
        decreases n - i,
    {
        if !same_text(a[i].as_str(), b[i].as_str()) {
            assert(texts(a@)[i as int] != texts(b@)[i as int]);
            return false;
        }
        i += 1;
    }
    assert(texts(a@) =~= texts(b@));
    true
}

/// A copy of some texts.
pub fn copy_texts(v: &Vec<String>) -> (r: Vec<String>)
    ensures
        texts(r@) == texts(v@),
{
    let n: usize = v.len();
    let mut out: Vec<String> = Vec::new();
    let mut i: usize = 0;
    while i < n
        invariant
            n == v@.len(),
            i <= n,
            texts(out@) =~= texts(v@).take(i as int),
        decreases n - i,
    {
        let ghost before = out@;
        out.push(own(v[i].as_str()));
        proof {
            assert(texts(out@) =~= texts(before).push(v@[i as int]@));
        }
        i += 1;
    }
    assert(texts(out@) =~= texts(v@));
    out
}

/// The lines of a text. A line ends with a line feed, before which a carriage
/// return may stand; the last line need not end.
pub open spec fn lines_in(s: Seq<char>) -> Seq<Seq<char>>
    decreases s.len(),
{
    if s.len() == 0 {
        seq![]
    } else {
        match cut_first(s, '\n') {
            Some((a, b)) => {
                proof {
                    lemma_before_first(s, '\n');
                }
                seq![without_return(a)] + lines_in(b)
            },
            None => seq![s],
        }
    }
}

/// A line without the carriage return at its end.
pub open spec fn without_return(s: Seq<char>) -> Seq<char> {
    if s.len() > 0 && s.last() == '\r' {
        s.drop_last()
    } else {
        s
    }
}

fn cut_return(s: String) -> (r: String)
    ensures
        r@ == without_return(s@),
{
    let v = chars_of(s.as_str());
    let n: usize = v.len();
    if n > 0 && v[n - 1] == '\r' {
        let t = string_of_range(&v, 0, n - 1);
        assert(t@ =~= s@.drop_last());
        t
    } else {
        s
    }
}

/// The lines of a text.
pub fn lines_of(s: &str) -> (r: Vec<String>)
    ensures
        texts(r@) == lines_in(s@),
{
    let mut out: Vec<String> = Vec::new();
    let mut rest = own(s);
    let mut done = false;
    assert(texts(out@) + lines_in(rest@) =~= lines_in(s@));
    while !done
        invariant
            texts(out@) + (if done { seq![] } else { lines_in(rest@) }) == lines_in(s@),
        decreases (if done { 0int } else { rest@.len() as int + 1 }),
    {
        let ghost was = out@;
        if rest.as_str().is_empty() {
            done = true;
            assert(texts(out@) + seq![] =~= texts(was) + lines_in(rest@));
        } else {
            match split_first(rest.as_str(), '\n') {
                Some((a, b)) => {
                    proof {
                        lemma_before_first(rest@, '\n');
                    }
                    let line = cut_return(a);
                    out.push(line);
                    proof {
                        assert(texts(out@) =~= texts(was).push(line@));
                        assert(texts(out@) + lines_in(b@) =~= texts(was) + lines_in(rest@));
                    }
                    rest = b;
                },
                None => {
                    let line = own(rest.as_str());
                    out.push(line);
                    proof {
                        assert(texts(out@) =~= texts(was).push(line@));
                        assert(texts(out@) + seq![] =~= texts(was) + lines_in(rest@));
                    }
                    done = true;
                },
            }
        }
    }
    assert(texts(out@) + seq![] =~= texts(out@));
    out
}

/// The signed number that a text writes, if it writes one that fits.
pub open spec fn signed_in(s: Seq<char>) -> Option<i64> {
    if s.len() > 0 && s[0] == '-' {
        let d = s.drop_first();
        if d.len() > 0 && all_digits(d) && digits_value(d) <= 0x8000_0000_0000_0000 {
            Some((-digits_value(d)) as i64)
        } else {
            None
        }
    } else {
        match number_in(s) {
            Some(n) => if n <= i64::MAX {
                Some(n as i64)
            } else {
                None
            },
            None => None,
        }
    }
}

/// Reads a signed number.
pub fn parse_i64(s: &str) -> (r: Option<i64>)
    ensures
        r == signed_in(s@),
{
    let v = chars_of(s);
    if v.len() > 0 && v[0] == '-' {
        let rest = string_of_range(&v, 1, v.len());
        let ghost d = s@.drop_first();
        assert(rest@ =~= d);
        if v.len() > 1 && v[1] == '+' {
            assert(!is_digit(d[0]));
            return None;
        }
        assert(unsigned_digits(rest@) == d);
        match parse_u64(rest.as_str()) {
            Some(n) => if n <= 0x8000_0000_0000_0000 {
                Some((-(n as i128)) as i64)
            } else {
                None
            },
            None => None,
        }
    } else {
        match parse_u64(s) {
            Some(n) => if n <= i64::MAX as u64 {
                Some(n as i64)
            } else {
                None
            },
            None => None,
        }
    }
}

/// A signed number that has been written can be read back.
pub proof fn lemma_signed_decimal(n: i64)
    ensures
        signed_in(signed_decimal(n as int)) == Some(n),
        signed_decimal(n as int).len() > 0,
        forall|i: int|
            0 <= i < signed_decimal(n as int).len() ==> #[trigger] signed_decimal(n as int)[i] == '-' || is_digit(
                signed_decimal(n as int)[i],
            ),
{
    let s = signed_decimal(n as int);
    if n < 0 {
        reveal_strlit("-");
        let d = decimal((-n) as nat);
        lemma_decimal((-n) as nat);
        assert(s.drop_first() =~= d);
        assert forall|i: int| 0 <= i < s.len() implies #[trigger] s[i] == '-' || is_digit(s[i]) by {
            if i > 0 {
                assert(s[i] == d[i - 1]);
            }
        }
    } else {
        lemma_decimal(n as nat);
        assert(is_digit(s[0]));
        assert(unsigned_digits(s) == s);
    }
}

/// A text without spaces at its ends stays as it is when it is trimmed.
pub proof fn lemma_trimmed_stays(s: Seq<char>)
    requires
        s.len() > 0 ==> !is_space(s[0]) && !is_space(s.last()),
    ensures
        trimmed(s) == s,
{
}

} // verus!
