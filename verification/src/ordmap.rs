//! Ordered maps: a vector of entries whose keys ascend strictly.

use vstd::prelude::*;

use crate::seqs::lemma_take_contains;
use crate::text::{chars_of, code_of, same_text};

verus! {

/// A key with a strict total order on its view.
pub trait Key: View + Sized {
    /// The order.
    spec fn lt(a: Self::V, b: Self::V) -> bool;

    proof fn lt_irreflexive(a: Self::V)
        ensures
            !Self::lt(a, a),
    ;

    proof fn lt_transitive(a: Self::V, b: Self::V, c: Self::V)
        requires
            Self::lt(a, b),
            Self::lt(b, c),
        ensures
            Self::lt(a, c),
    ;

    proof fn lt_total(a: Self::V, b: Self::V)
        ensures
            Self::lt(a, b) || a == b || Self::lt(b, a),
    ;

    fn less(&self, other: &Self) -> (r: bool)
        ensures
            r == Self::lt(self@, other@),
    ;

    fn same(&self, other: &Self) -> (r: bool)
        ensures
            r == (self@ == other@),
    ;

    fn dup(&self) -> (r: Self)
        ensures
            r@ == self@,
    ;
}

/// `a` comes before `b` in the dictionary order of their characters.
pub open spec fn text_lt(a: Seq<char>, b: Seq<char>) -> bool
    decreases a.len(),
{
    if b.len() == 0 {
        false
    } else if a.len() == 0 {
        true
    } else if a[0] != b[0] {
        (a[0] as int) < (b[0] as int)
    } else {
        text_lt(a.drop_first(), b.drop_first())
    }
}

proof fn text_lt_irreflexive(a: Seq<char>)
    ensures
        !text_lt(a, a),
    decreases a.len(),
{
    if a.len() > 0 {
        text_lt_irreflexive(a.drop_first());
    }
}

proof fn text_lt_transitive(a: Seq<char>, b: Seq<char>, c: Seq<char>)
    requires
        text_lt(a, b),
        text_lt(b, c),
    ensures
        text_lt(a, c),
    decreases a.len(),
{
    if a.len() > 0 && a[0] == b[0] && b[0] == c[0] {
        text_lt_transitive(a.drop_first(), b.drop_first(), c.drop_first());
    }
}

proof fn text_lt_total(a: Seq<char>, b: Seq<char>)
    ensures
        text_lt(a, b) || a == b || text_lt(b, a),
    decreases a.len(),
{
    if a.len() == 0 && b.len() == 0 {
        assert(a =~= b);
    } else if a.len() > 0 && b.len() > 0 && a[0] == b[0] {
        text_lt_total(a.drop_first(), b.drop_first());
        if a.drop_first() == b.drop_first() {
            assert(a =~= seq![a[0]] + a.drop_first());
            assert(b =~= seq![b[0]] + b.drop_first());
        }
    }
}

/// Compares two texts in dictionary order.
pub fn text_less(a: &str, b: &str) -> (r: bool)
    ensures
        r == text_lt(a@, b@),
{
    let x = chars_of(a);
    let y = chars_of(b);
    let mut i: usize = 0;
    assert(x@.subrange(0, x@.len() as int) =~= a@);
    assert(y@.subrange(0, y@.len() as int) =~= b@);
    while i < x.len() && i < y.len() && x[i] == y[i]
        invariant
            i <= x@.len(),
            i <= y@.len(),
            x@ == a@,
            y@ == b@,
            text_lt(a@, b@) == text_lt(
                x@.subrange(i as int, x@.len() as int),
                y@.subrange(i as int, y@.len() as int),
            ),
        decreases x@.len() - i,
    {
        proof {
            let s = x@.subrange(i as int, x@.len() as int);
            let t = y@.subrange(i as int, y@.len() as int);
            assert(s.drop_first() =~= x@.subrange(i as int + 1, x@.len() as int));
            assert(t.drop_first() =~= y@.subrange(i as int + 1, y@.len() as int));
            assert(s[0] == t[0]);
        }
        i += 1;
    }
    if i == y.len() {
        return false;
    }
    if i == x.len() {
        return true;
    }
    proof {
        let s = x@.subrange(i as int, x@.len() as int);
        let t = y@.subrange(i as int, y@.len() as int);
        assert(s[0] == x@[i as int]);
        assert(t[0] == y@[i as int]);
    }
    code_of(x[i]) < code_of(y[i])
}

impl Key for String {
    open spec fn lt(a: Seq<char>, b: Seq<char>) -> bool {
        text_lt(a, b)
    }

    proof fn lt_irreflexive(a: Seq<char>) {
        text_lt_irreflexive(a);
    }

    proof fn lt_transitive(a: Seq<char>, b: Seq<char>, c: Seq<char>) {
        text_lt_transitive(a, b, c);
    }

    proof fn lt_total(a: Seq<char>, b: Seq<char>) {
        text_lt_total(a, b);
    }

    fn less(&self, other: &Self) -> (r: bool) {
        text_less(self.as_str(), other.as_str())
    }

    fn same(&self, other: &Self) -> (r: bool) {
        same_text(self.as_str(), other.as_str())
    }

    fn dup(&self) -> (r: Self) {
        self.clone()
    }
}

impl Key for u16 {
    open spec fn lt(a: u16, b: u16) -> bool {
        a < b
    }

    proof fn lt_irreflexive(a: u16) {
    }

    proof fn lt_transitive(a: u16, b: u16, c: u16) {
    }

    proof fn lt_total(a: u16, b: u16) {
    }

    fn less(&self, other: &Self) -> (r: bool) {
        *self < *other
    }

    fn same(&self, other: &Self) -> (r: bool) {
        *self == *other
    }

    fn dup(&self) -> (r: Self) {
        *self
    }
}

/// `ks` ascends strictly.
pub open spec fn ascending<K: Key>(ks: Seq<K::V>) -> bool {
    forall|i: int, j: int| 0 <= i < j < ks.len() ==> K::lt(#[trigger] ks[i], #[trigger] ks[j])
}

/// `ks` lists the members of `d`, in ascending order.
pub open spec fn lists<K: Key>(ks: Seq<K::V>, d: Set<K::V>) -> bool {
    &&& ascending::<K>(ks)
    &&& forall|k: K::V| #[trigger] ks.contains(k) <==> d.contains(k)
}

/// The members of `d` in ascending order.
pub open spec fn ordered<K: Key>(d: Set<K::V>) -> Seq<K::V> {
    choose|ks: Seq<K::V>| lists::<K>(ks, d)
}

/// There is at most one ascending list of the members of a set.
pub proof fn lemma_lists_unique<K: Key>(a: Seq<K::V>, b: Seq<K::V>, d: Set<K::V>)
    requires
        lists::<K>(a, d),
        lists::<K>(b, d),
    ensures
        a == b,
    decreases a.len(),
{
    if a.len() == 0 {
        if b.len() > 0 {
            assert(b.contains(b[0]));
            assert(a.contains(b[0]));
        }
        assert(a =~= b);
    } else {
        assert(a.contains(a.last()));
        assert(b.contains(a.last()));
        assert(b.contains(b.last()));
        assert(a.contains(b.last()));
        let i = choose|i: int| 0 <= i < b.len() && b[i] == a.last();
        let j = choose|j: int| 0 <= j < a.len() && a[j] == b.last();
        if a.last() != b.last() {
            assert(i < b.len() - 1);
            assert(j < a.len() - 1);
            assert(K::lt(b[i], b[b.len() - 1]));
            assert(K::lt(a[j], a[a.len() - 1]));
            K::lt_transitive(a.last(), b.last(), a.last());
            K::lt_irreflexive(a.last());
        }
        let x = a.last();
        let e = d.remove(x);
        assert forall|k: K::V| #[trigger] a.drop_last().contains(k) <==> e.contains(k) by {
            if a.drop_last().contains(k) {
                let p = choose|p: int| 0 <= p < a.len() - 1 && a.drop_last()[p] == k;
                assert(a[p] == k);
                assert(a.contains(k));
                assert(K::lt(a[p], a[a.len() - 1]));
                K::lt_irreflexive(x);
            }
            if e.contains(k) {
                assert(a.contains(k));
                let p = choose|p: int| 0 <= p < a.len() && a[p] == k;
                assert(a.drop_last()[p] == k);
            }
        }
        assert forall|k: K::V| #[trigger] b.drop_last().contains(k) <==> e.contains(k) by {
            if b.drop_last().contains(k) {
                let p = choose|p: int| 0 <= p < b.len() - 1 && b.drop_last()[p] == k;
                assert(b[p] == k);
                assert(b.contains(k));
                assert(K::lt(b[p], b[b.len() - 1]));
                K::lt_irreflexive(x);
            }
            if e.contains(k) {
                assert(b.contains(k));
                let p = choose|p: int| 0 <= p < b.len() && b[p] == k;
                assert(b.drop_last()[p] == k);
            }
        }
        lemma_lists_unique::<K>(a.drop_last(), b.drop_last(), e);
        assert(a =~= a.drop_last().push(x));
        assert(b =~= b.drop_last().push(x));
    }
}

/// An ascending list of the members of a set is the ordered list of that set.
pub proof fn lemma_ordered_is<K: Key>(ks: Seq<K::V>, d: Set<K::V>)
    requires
        lists::<K>(ks, d),
    ensures
        ordered::<K>(d) == ks,
{
    lemma_lists_unique::<K>(ks, ordered::<K>(d), d);
}

/// Every finite set has an ordered list.
pub proof fn lemma_ordered_exists<K: Key>(d: Set<K::V>)
    requires
        d.finite(),
    ensures
        lists::<K>(ordered::<K>(d), d),
    decreases d.len(),
{
    if d.len() == 0 {
        assert(lists::<K>(Seq::<K::V>::empty(), d)) by {
            assert forall|k: K::V| #[trigger] Seq::<K::V>::empty().contains(k) <==> d.contains(k) by {
                assert(d =~= Set::<K::V>::empty());
            }
        }
    } else {
        let x = d.choose();
        let e = d.remove(x);
        lemma_ordered_exists::<K>(e);
        let ks = ordered::<K>(e);
        let p = position::<K>(ks, x);
        lemma_position::<K>(ks, x);
        let r = ks.insert(p, x);
        assert(!ks.contains(x));
        assert forall|i: int, j: int| 0 <= i < j < r.len() implies K::lt(#[trigger] r[i], #[trigger] r[j]) by {
            let i0 = if i < p { i } else { i - 1 };
            let j0 = if j < p { j } else { j - 1 };
            if i == p {
                K::lt_total(x, ks[j0]);
                assert(ks.contains(ks[j0]));
            } else if j == p {
                assert(K::lt(ks[i0], x));
            } else {
                assert(K::lt(ks[i0], ks[j0]));
            }
        }
        assert forall|k: K::V| #[trigger] r.contains(k) <==> d.contains(k) by {
            if r.contains(k) {
                let i = choose|i: int| 0 <= i < r.len() && r[i] == k;
                if i != p {
                    assert(ks.contains(ks[if i < p { i } else { i - 1 }]));
                }
            }
            if d.contains(k) {
                if k == x {
                    assert(r[p] == x);
                } else {
                    assert(ks.contains(k));
                    let i = choose|i: int| 0 <= i < ks.len() && ks[i] == k;
                    assert(r[if i < p { i } else { i + 1 }] == k);
                }
            }
        }
        assert(lists::<K>(r, d));
    }
}

/// Filtering an ordered list of a set orders the filtered set.
pub proof fn lemma_filter_lists<K: Key>(ks: Seq<K::V>, d: Set<K::V>, p: spec_fn(K::V) -> bool, e: Set<K::V>)
    requires
        lists::<K>(ks, d),
        forall|k: K::V| #[trigger] e.contains(k) <==> d.contains(k) && p(k),
    ensures
        lists::<K>(ks.filter(p), e),
        ordered::<K>(e) == ks.filter(p),
{
    let f = ks.filter(p);
    lemma_filter_ascends::<K>(ks, p);
    assert forall|k: K::V| #[trigger] f.contains(k) <==> e.contains(k) by {
        ks.filter_lemma(p);
        if f.contains(k) {
            let i = choose|i: int| 0 <= i < f.len() && f[i] == k;
            assert(p(f[i]));
            assert(ks.contains(f[i]));
        }
        if e.contains(k) {
            assert(ks.contains(k));
            let i = choose|i: int| 0 <= i < ks.len() && ks[i] == k;
            assert(f.contains(ks[i]));
        }
    }
    lemma_ordered_is::<K>(f, e);
}

proof fn lemma_filter_ascends<K: Key>(ks: Seq<K::V>, p: spec_fn(K::V) -> bool)
    requires
        ascending::<K>(ks),
    ensures
        ascending::<K>(ks.filter(p)),
        forall|i: int| 0 <= i < ks.filter(p).len() ==> ks.contains(#[trigger] ks.filter(p)[i]),
    decreases ks.len(),
{
    reveal(Seq::filter);
    if ks.len() > 0 {
        let t = ks.drop_last();
        assert(ascending::<K>(t));
        lemma_filter_ascends::<K>(t, p);
        assert forall|i: int| 0 <= i < ks.filter(p).len() implies ks.contains(#[trigger] ks.filter(p)[i]) by {
            if i < t.filter(p).len() {
                assert(t.contains(t.filter(p)[i]));
                let j = choose|j: int| 0 <= j < t.len() && t[j] == t.filter(p)[i];
                assert(ks[j] == ks.filter(p)[i]);
            } else {
                assert(ks[ks.len() - 1] == ks.filter(p)[i]);
            }
        }
        assert forall|i: int, j: int| 0 <= i < j < ks.filter(p).len() implies K::lt(
            #[trigger] ks.filter(p)[i],
            #[trigger] ks.filter(p)[j],
        ) by {
            assert(t.contains(t.filter(p)[i]));
            let a = choose|a: int| 0 <= a < t.len() && t[a] == t.filter(p)[i];
            if j == t.filter(p).len() {
                assert(K::lt(ks[a], ks[ks.len() - 1]));
            } else {
                assert(K::lt(t.filter(p)[i], t.filter(p)[j]));
            }
        }
    }
}

/// How many of the keys in `ks` come before `x`.
pub open spec fn position<K: Key>(ks: Seq<K::V>, x: K::V) -> int
    decreases ks.len(),
{
    if ks.len() == 0 {
        0
    } else if K::lt(ks.last(), x) {
        ks.len() as int
    } else {
        position::<K>(ks.drop_last(), x)
    }
}

proof fn lemma_position<K: Key>(ks: Seq<K::V>, x: K::V)
    requires
        ascending::<K>(ks),
    ensures
        0 <= position::<K>(ks, x) <= ks.len(),
        forall|i: int| 0 <= i < position::<K>(ks, x) ==> K::lt(#[trigger] ks[i], x),
        forall|i: int| position::<K>(ks, x) <= i < ks.len() ==> !K::lt(#[trigger] ks[i], x),
    decreases ks.len(),
{
    if ks.len() > 0 {
        if K::lt(ks.last(), x) {
            assert forall|i: int| 0 <= i < ks.len() implies K::lt(#[trigger] ks[i], x) by {
                if i < ks.len() - 1 {
                    K::lt_transitive(ks[i], ks[ks.len() - 1], x);
                }
            }
        } else {
            let t = ks.drop_last();
            assert(ascending::<K>(t));
            lemma_position::<K>(t, x);
            assert forall|i: int| 0 <= i < position::<K>(ks, x) implies K::lt(#[trigger] ks[i], x) by {
                assert(ks[i] == t[i]);
            }
            assert forall|i: int| position::<K>(ks, x) <= i < ks.len() implies !K::lt(#[trigger] ks[i], x) by {
                if i < ks.len() - 1 {
                    assert(ks[i] == t[i]);
                }
            }
        }
    }
}

/// A value that can be copied.
pub trait Dup: View + Sized {
    fn dup_value(&self) -> (r: Self)
        ensures
            r@ == self@,
    ;
}

impl Dup for String {
    fn dup_value(&self) -> (r: Self) {
        self.clone()
    }
}

impl Dup for bool {
    fn dup_value(&self) -> (r: Self) {
        *self
    }
}

impl Dup for u64 {
    fn dup_value(&self) -> (r: Self) {
        *self
    }
}

/// A choice of entries.
pub trait Keep<K: Key, V: View> {
    spec fn keep(&self, k: K::V, v: V::V) -> bool;

    fn keeps(&self, k: &K, v: &V) -> (r: bool)
        ensures
            r == self.keep(k@, v@),
    ;
}

/// What is left of `m` when only the entries that satisfy `keep` stay.
pub open spec fn kept<K, T>(m: Map<K, T>, keep: spec_fn(K, T) -> bool) -> Map<K, T> {
    Map::new(|k: K| m.contains_key(k) && keep(k, m[k]), |k: K| m[k])
}

/// A map from keys to values that is walked in key order.
pub struct OrdMap<K: Key, V: View> {
    items: Vec<(K, V)>,
}

/// The keys of a list of entries.
pub closed spec fn keys_of<K: Key, V: View>(s: Seq<(K, V)>) -> Seq<K::V> {
    s.map_values(|e: (K, V)| e.0@)
}

/// The entries whose index is below `s.len()`, as a map.
pub closed spec fn map_of<K: Key, V: View>(s: Seq<(K, V)>) -> Map<K::V, V::V> {
    Map::new(
        |k: K::V| keys_of(s).contains(k),
        |k: K::V| s[keys_of(s).index_of(k)].1@,
    )
}

impl<K: Key, V: View> View for OrdMap<K, V> {
    type V = Map<K::V, V::V>;

    closed spec fn view(&self) -> Map<K::V, V::V> {
        map_of(self.items@)
    }
}

proof fn lemma_map_of<K: Key, V: View>(s: Seq<(K, V)>)
    requires
        ascending::<K>(keys_of(s)),
    ensures
        lists::<K>(keys_of(s), map_of(s).dom()),
        ordered::<K>(map_of(s).dom()) == keys_of(s),
        keys_of(s).len() == s.len(),
        forall|i: int| 0 <= i < s.len() ==> (#[trigger] keys_of(s)[i]) == s[i].0@ && map_of(s).contains_key(s[i].0@)
            && map_of(s)[s[i].0@] == s[i].1@,
        map_of(s).dom().finite(),
        map_of(s).dom().len() == s.len(),
{
    let ks = keys_of(s);
    let m = map_of(s);
    assert forall|i: int| 0 <= i < s.len() implies (#[trigger] ks[i]) == s[i].0@ && m.contains_key(s[i].0@)
        && m[s[i].0@] == s[i].1@ by {
        assert(ks.contains(ks[i]));
        let j = ks.index_of(ks[i]);
        assert(ks[j] == ks[i]);
        K::lt_irreflexive(ks[i]);
        if j < i {
            assert(K::lt(ks[j], ks[i]));
        }
        if i < j {
            assert(K::lt(ks[i], ks[j]));
        }
    }
    assert(lists::<K>(ks, m.dom()));
    lemma_ordered_is::<K>(ks, m.dom());
    assert(ks.no_duplicates()) by {
        assert forall|i: int, j: int| 0 <= i < ks.len() && 0 <= j < ks.len() && i != j implies ks[i] != ks[j] by {
            K::lt_irreflexive(ks[i]);
            if i < j {
                assert(K::lt(ks[i], ks[j]));
            } else {
                assert(K::lt(ks[j], ks[i]));
            }
        }
    }
    ks.unique_seq_to_set();
    assert(ks.to_set() =~= m.dom());
    vstd::seq_lib::seq_to_set_is_finite(ks);
}

impl<K: Key, V: View> OrdMap<K, V> {
    #[verifier::type_invariant]
    spec fn inv(&self) -> bool {
        ascending::<K>(keys_of(self.items@))
    }

    /// The map without entries.
    pub fn new() -> (r: Self)
        ensures
            r@ == Map::<K::V, V::V>::empty(),
    {
        let items: Vec<(K, V)> = Vec::new();
        let r = OrdMap { items };
        assert(r@ =~= Map::<K::V, V::V>::empty());
        r
    }

    /// The number of entries.
    pub fn len(&self) -> (r: usize)
        ensures
            r == self@.dom().len(),
            r == ordered::<K>(self@.dom()).len(),
            self@.dom().finite(),
            lists::<K>(ordered::<K>(self@.dom()), self@.dom()),
    {
        proof {
            use_type_invariant(self);
            lemma_map_of(self.items@);
        }
        self.items.len()
    }

    /// Whether the map has no entry.
    pub fn is_empty(&self) -> (r: bool)
        ensures
            r == (self@ == Map::<K::V, V::V>::empty()),
            r == (self@.dom() == Set::<K::V>::empty()),
            !r ==> self@.dom().len() > 0 && self@.contains_key(ordered::<K>(self@.dom())[0]),
    {
        proof {
            use_type_invariant(self);
            lemma_map_of(self.items@);
            if self.items@.len() == 0 {
                assert(self@ =~= Map::<K::V, V::V>::empty());
                assert(self@.dom() =~= Set::<K::V>::empty());
            } else {
                assert(self@.contains_key(keys_of(self.items@)[0]));
            }
        }
        self.items.len() == 0
    }

    /// The `i`th key in order.
    pub fn key_at(&self, i: usize) -> (r: &K)
        requires
            i < self@.dom().len(),
        ensures
            r@ == ordered::<K>(self@.dom())[i as int],
            self@.contains_key(r@),
    {
        proof {
            use_type_invariant(self);
            lemma_map_of(self.items@);
            assert(keys_of(self.items@)[i as int] == self.items@[i as int].0@);
        }
        &self.items[i].0
    }

    /// The value under the `i`th key in order.
    pub fn value_at(&self, i: usize) -> (r: &V)
        requires
            i < self@.dom().len(),
        ensures
            r@ == self@[ordered::<K>(self@.dom())[i as int]],
            self@.contains_key(ordered::<K>(self@.dom())[i as int]),
    {
        proof {
            use_type_invariant(self);
            lemma_map_of(self.items@);
            assert(keys_of(self.items@)[i as int] == self.items@[i as int].0@);
        }
        &self.items[i].1
    }

    /// Where `k` stands, or would stand, among the keys.
    fn find(&self, k: &K) -> (r: (usize, bool))
        ensures
            r.0 <= self.items@.len(),
            r.1 ==> r.0 < self.items@.len() && self.items@[r.0 as int].0@ == k@,
            r.1 == self@.contains_key(k@),
            forall|i: int| 0 <= i < r.0 ==> K::lt((#[trigger] keys_of(self.items@)[i]), k@),
            !r.1 ==> forall|i: int| r.0 <= i < self.items@.len() ==> K::lt(k@, #[trigger] keys_of(self.items@)[i]),
    {
        let ghost ks = keys_of(self.items@);
        proof {
            use_type_invariant(self);
            lemma_map_of(self.items@);
        }
        let mut i: usize = 0;
        while i < self.items.len() && self.items[i].0.less(k)
            invariant
                i <= self.items@.len(),
                ks == keys_of(self.items@),
                ks.len() == self.items@.len(),
                forall|j: int| 0 <= j < ks.len() ==> (#[trigger] ks[j]) == self.items@[j].0@,
                forall|j: int| 0 <= j < i ==> K::lt((#[trigger] ks[j]), k@),
            decreases self.items@.len() - i,
        {
            proof {
                assert(ks[i as int] == self.items@[i as int].0@);
            }
            i += 1;
        }
        if i < self.items.len() && self.items[i].0.same(k) {
            proof {
                assert(ks[i as int] == k@);
            }
            return (i, true);
        }
        proof {
            assert forall|j: int| i <= j < ks.len() implies K::lt(k@, #[trigger] ks[j]) by {
                assert(ks[i as int] == self.items@[i as int].0@);
                K::lt_total(ks[i as int], k@);
                if i < j {
                    assert(K::lt(ks[i as int], ks[j]));
                    K::lt_transitive(k@, ks[i as int], ks[j]);
                }
            }
            if ks.contains(k@) {
                let j = choose|j: int| 0 <= j < ks.len() && ks[j] == k@;
                K::lt_irreflexive(k@);
                assert(false);
            }
        }
        (i, false)
    }

    /// Whether there is an entry under `k`.
    pub fn contains(&self, k: &K) -> (r: bool)
        ensures
            r == self@.contains_key(k@),
    {
        self.find(k).1
    }

    /// The value under `k`.
    pub fn get(&self, k: &K) -> (r: Option<&V>)
        ensures
            r is Some == self@.contains_key(k@),
            r matches Some(v) ==> v@ == self@[k@],
    {
        let (i, found) = self.find(k);
        if found {
            proof {
                use_type_invariant(self);
                lemma_map_of(self.items@);
                assert(keys_of(self.items@)[i as int] == self.items@[i as int].0@);
            }
            Some(&self.items[i].1)
        } else {
            None
        }
    }

    /// Puts `v` under `k`, in place of what stood there.
    pub fn insert(&mut self, k: K, v: V)
        ensures
            final(self)@ == old(self)@.insert(k@, v@),
    {
        let (i, found) = self.find(&k);
        let ghost old_items = self.items@;
        proof {
            use_type_invariant(&*self);
            lemma_map_of(self.items@);
        }
        let mut items: Vec<(K, V)> = Vec::new();
        std::mem::swap(&mut items, &mut self.items);
        assert(keys_of(self.items@) =~= Seq::<K::V>::empty());
        if found {
            items.set(i, (k, v));
            proof {
                assert(keys_of(old_items)[i as int] == old_items[i as int].0@);
                assert(keys_of(items@) =~= keys_of(old_items));
            }
        } else {
            items.insert(i, (k, v));
            proof {
                let ks = keys_of(old_items);
                let r = keys_of(items@);
                assert(r =~= ks.insert(i as int, k@));
                assert forall|a: int, b: int| 0 <= a < b < r.len() implies K::lt(#[trigger] r[a], #[trigger] r[b]) by {
                    let a0 = if a < i { a } else { a - 1 };
                    let b0 = if b < i { b } else { b - 1 };
                    if a == i {
                        assert(K::lt(k@, ks[b0]));
                    } else if b == i {
                        assert(K::lt(ks[a0], k@));
                    } else {
                        assert(K::lt(ks[a0], ks[b0]));
                    }
                }
            }
        }
        self.items = items;
        proof {
            let s = self.items@;
            lemma_map_of(s);
            lemma_map_of(old_items);
            assert forall|x: K::V| #[trigger] map_of(s).contains_key(x) == map_of(old_items).insert(k@, v@).contains_key(x) by {
                if keys_of(s).contains(x) {
                    let j = choose|j: int| 0 <= j < s.len() && keys_of(s)[j] == x;
                    if j != i {
                        let j0 = if found || j < i { j } else { j - 1 };
                        assert(keys_of(old_items)[j0] == x);
                    }
                }
                if keys_of(old_items).contains(x) {
                    let j = choose|j: int| 0 <= j < old_items.len() && keys_of(old_items)[j] == x;
                    let j1 = if found || j < i { j } else { j + 1 };
                    if found && j == i {
                    } else {
                        assert(keys_of(s)[j1] == x);
                    }
                }
                assert(keys_of(s)[i as int] == k@);
            }
            assert forall|x: K::V| #[trigger] map_of(s).contains_key(x) implies map_of(s)[x] == map_of(old_items).insert(k@, v@)[x] by {
                let j = choose|j: int| 0 <= j < s.len() && keys_of(s)[j] == x;
                assert(map_of(s)[x] == s[j].1@);
                if j != i {
                    let j0 = if found || j < i { j } else { j - 1 };
                    assert(keys_of(old_items)[j0] == x);
                    assert(x != k@) by {
                        assert(keys_of(s)[i as int] == k@);
                        K::lt_irreflexive(x);
                    }
                }
            }
            assert(map_of(s) =~= map_of(old_items).insert(k@, v@));
        }
    }

    /// Takes out the value under `k`, if there is one.
    pub fn remove(&mut self, k: &K) -> (r: Option<V>)
        ensures
            final(self)@ == old(self)@.remove(k@),
            r is Some == old(self)@.contains_key(k@),
            r matches Some(v) ==> v@ == old(self)@[k@],
    {
        let (i, found) = self.find(k);
        if !found {
            proof {
                assert(self@.remove(k@) =~= self@);
            }
            return None;
        }
        let ghost old_items = self.items@;
        proof {
            use_type_invariant(&*self);
            lemma_map_of(self.items@);
        }
        let mut items: Vec<(K, V)> = Vec::new();
        std::mem::swap(&mut items, &mut self.items);
        assert(keys_of(self.items@) =~= Seq::<K::V>::empty());
        let (_, v) = items.remove(i);
        proof {
            let ks = keys_of(old_items);
            let r = keys_of(items@);
            assert(r =~= ks.remove(i as int));
            assert forall|a: int, b: int| 0 <= a < b < r.len() implies K::lt(#[trigger] r[a], #[trigger] r[b]) by {
                let a0 = if a < i { a } else { a + 1 };
                let b0 = if b < i { b } else { b + 1 };
                assert(K::lt(ks[a0], ks[b0]));
            }
        }
        self.items = items;
        proof {
            let s = self.items@;
            lemma_map_of(s);
            assert(keys_of(old_items)[i as int] == k@);
            assert forall|x: K::V| #[trigger] map_of(s).contains_key(x) == map_of(old_items).remove(k@).contains_key(x) by {
                if keys_of(s).contains(x) {
                    let j = choose|j: int| 0 <= j < s.len() && keys_of(s)[j] == x;
                    let j0 = if j < i { j } else { j + 1 };
                    assert(keys_of(old_items)[j0] == x);
                    K::lt_irreflexive(x);
                }
                if keys_of(old_items).contains(x) && x != k@ {
                    let j = choose|j: int| 0 <= j < old_items.len() && keys_of(old_items)[j] == x;
                    let j1 = if j < i { j } else { j - 1 };
                    assert(keys_of(s)[j1] == x);
                }
            }
            assert forall|x: K::V| #[trigger] map_of(s).contains_key(x) implies map_of(s)[x] == map_of(old_items).remove(k@)[x] by {
                let j = choose|j: int| 0 <= j < s.len() && keys_of(s)[j] == x;
                let j0 = if j < i { j } else { j + 1 };
                assert(keys_of(old_items)[j0] == x);
            }
            assert(map_of(s) =~= map_of(old_items).remove(k@));
        }
        Some(v)
    }

    /// Drops every entry that does not satisfy the predicate.
    pub fn retain<P: Keep<K, V>>(&mut self, p: &P)
        ensures
            final(self)@ == kept(old(self)@, |k: K::V, v: V::V| p.keep(k, v)),
    {
        let ghost keep = |k: K::V, v: V::V| p.keep(k, v);
        let ghost m = self@;
        let ghost ks = ordered::<K>(m.dom());
        let n: usize = self.len();
        let mut gone: Vec<K> = Vec::new();
        let mut i: usize = 0;
        while i < n
            invariant
                i <= n,
                n == m.dom().len(),
                n == ks.len(),
                self@ == m,
                ks == ordered::<K>(m.dom()),
                lists::<K>(ks, m.dom()),
                keep == (|k: K::V, v: V::V| p.keep(k, v)),
                forall|j: int| 0 <= j < gone@.len() ==> m.contains_key((#[trigger] gone@[j])@) && !keep(gone@[j]@, m[gone@[j]@]),
                forall|x: K::V| #[trigger] ks.take(i as int).contains(x) && !keep(x, m[x]) ==> exists|j: int|
                    0 <= j < gone@.len() && (#[trigger] gone@[j])@ == x,
            decreases n - i,
        {
            proof {
                lemma_take_contains(ks, i as int);
            }
            let ghost before = gone@;
            if !p.keeps(self.key_at(i), self.value_at(i)) {
                gone.push(self.key_at(i).dup());
                proof {
                    assert(gone@[before.len() as int]@ == ks[i as int]);
                    assert forall|x: K::V| #[trigger] ks.take(i as int + 1).contains(x) && !keep(x, m[x]) implies exists|j: int|
                        0 <= j < gone@.len() && (#[trigger] gone@[j])@ == x by {
                        if ks.take(i as int).contains(x) {
                            let j = choose|j: int| 0 <= j < before.len() && (#[trigger] before[j])@ == x;
                            assert(gone@[j]@ == x);
                        }
                    }
                }
            }
            i += 1;
        }
        proof {
            assert(ks.take(n as int) =~= ks);
        }
        let mut j: usize = 0;
        while j < gone.len()
            invariant
                j <= gone@.len(),
                forall|x: K::V| #[trigger] self@.contains_key(x) <==> m.contains_key(x) && !(exists|p: int|
                    0 <= p < j && (#[trigger] gone@[p])@ == x),
                forall|x: K::V| #[trigger] self@.contains_key(x) ==> self@[x] == m[x],
            decreases gone@.len() - j,
        {
            let ghost before = self@;
            let _ = self.remove(&gone[j]);
            proof {
                let g = gone@[j as int]@;
                assert forall|x: K::V| #[trigger] self@.contains_key(x) <==> m.contains_key(x) && !(exists|p: int|
                    0 <= p < j + 1 && (#[trigger] gone@[p])@ == x) by {
                    assert(self@.contains_key(x) <==> before.contains_key(x) && x != g);
                    assert(gone@[j as int]@ == g);
                }
            }
            j += 1;
        }
        proof {
            assert forall|x: K::V| #[trigger] self@.contains_key(x) <==> kept(m, keep).contains_key(x) by {
                if m.contains_key(x) {
                    assert(ks.contains(x));
                }
            }
            assert(self@ =~= kept(m, keep));
        }
    }
}

impl<K: Key, V: Dup> OrdMap<K, V> {
    /// A copy of the map.
    pub fn copy(&self) -> (r: Self)
        ensures
            r@ == self@,
    {
        let mut out: OrdMap<K, V> = OrdMap::new();
        let n: usize = self.len();
        let mut i: usize = 0;
        let ghost ks = ordered::<K>(self@.dom());
        while i < n
            invariant
                i <= n,
                n == self@.dom().len(),
                n == ks.len(),
                ks == ordered::<K>(self@.dom()),
                forall|k: K::V| #[trigger] out@.contains_key(k) <==> ks.take(i as int).contains(k),
                forall|k: K::V| #[trigger] out@.contains_key(k) ==> out@[k] == self@[k],
            decreases n - i,
        {
            proof {
                lemma_take_contains(ks, i as int);
            }
            out.insert(self.key_at(i).dup(), self.value_at(i).dup_value());
            i += 1;
        }
        proof {
            assert(ks.take(n as int) =~= ks);
            assert forall|k: K::V| #[trigger] out@.contains_key(k) <==> self@.contains_key(k) by {
                assert(ks.contains(k) <==> self@.dom().contains(k));
            }
            assert(out@ =~= self@);
        }
        out
    }
}

impl<K: Key, V: View> Default for OrdMap<K, V> {
    fn default() -> (r: Self)
        ensures
            r@ == Map::<K::V, V::V>::empty(),
    {
        OrdMap::new()
    }
}

} // verus!
