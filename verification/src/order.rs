//! Orders and stable sorting.

use vstd::prelude::*;

use crate::text::chars_of;

verus! {

/// Lexicographic order of texts, by code point.
pub open spec fn lex_le(a: Seq<char>, b: Seq<char>) -> bool
    decreases a.len(),
{
    if a.len() == 0 {
        true
    } else if b.len() == 0 {
        false
    } else if a[0] == b[0] {
        lex_le(a.drop_first(), b.drop_first())
    } else {
        a[0] < b[0]
    }
}

/// Of two texts one is not after the other.
pub proof fn lemma_lex_total(a: Seq<char>, b: Seq<char>)
    ensures
        lex_le(a, b) || lex_le(b, a),
    decreases a.len(),
{
    if a.len() > 0 && b.len() > 0 && a[0] == b[0] {
        lemma_lex_total(a.drop_first(), b.drop_first());
    }
}

/// The order of texts is transitive.
pub proof fn lemma_lex_transitive(a: Seq<char>, b: Seq<char>, c: Seq<char>)
    requires
        lex_le(a, b),
        lex_le(b, c),
    ensures
        lex_le(a, c),
    decreases a.len(),
{
    if a.len() > 0 && b.len() > 0 && c.len() > 0 && a[0] == b[0] && b[0] == c[0] {
        lemma_lex_transitive(a.drop_first(), b.drop_first(), c.drop_first());
    }
}

/// Two texts, neither of which is after the other, are the same.
pub proof fn lemma_lex_antisymmetric(a: Seq<char>, b: Seq<char>)
    requires
        lex_le(a, b),
        lex_le(b, a),
    ensures
        a == b,
    decreases a.len(),
{
    if a.len() > 0 && b.len() > 0 {
        let x = a.drop_first();
        let y = b.drop_first();
        assert(a[0] == b[0]);
        lemma_lex_antisymmetric(x, y);
        assert(a.len() == b.len());
        assert forall|i: int| 0 <= i < a.len() implies a[i] == b[i] by {
            if i > 0 {
                assert(a[i] == x[i - 1]);
                assert(b[i] == y[i - 1]);
            }
        }
    }
    assert(a =~= b);
}

/// Whether `a` is not after `b`.
pub fn text_le(a: &str, b: &str) -> (r: bool)
    ensures
        r == lex_le(a@, b@),
{
    let x = chars_of(a);
    let y = chars_of(b);
    let mut i: usize = 0;
    proof {
        assert(x@.skip(0) == a@);
        assert(y@.skip(0) == b@);
    }
    while i < x.len() && i < y.len()
        invariant
            i <= x@.len(),
            i <= y@.len(),
            lex_le(a@, b@) == lex_le(x@.skip(i as int), y@.skip(i as int)),
        decreases x@.len() - i,
    {
        if x[i] != y[i] {
            return x[i] < y[i];
        }
        proof {
            assert(x@.skip(i as int).drop_first() == x@.skip(i + 1));
            assert(y@.skip(i as int).drop_first() == y@.skip(i + 1));
        }
        i = i + 1;
    }
    i == x.len()
}

/// Values that have a place in an order. Different values may have the same place.
pub trait Ranked: Sized {
    /// Whether `self` is not after `other`.
    spec fn not_after(self, other: Self) -> bool;

    /// Of two values one is not after the other.
    proof fn lemma_total(a: Self, b: Self)
        ensures
            a.not_after(b) || b.not_after(a),
    ;

    /// The order is transitive.
    proof fn lemma_transitive(a: Self, b: Self, c: Self)
        requires
            a.not_after(b),
            b.not_after(c),
        ensures
            a.not_after(c),
    ;

    /// Decides whether `self` is not after `other`.
    fn in_order(&self, other: &Self) -> (r: bool)
        ensures
            r == self.not_after(*other),
    ;
}

/// `s` with `x` behind the last value that is not after it.
pub open spec fn inserted<T: Ranked>(s: Seq<T>, x: T) -> Seq<T>
    decreases s.len(),
{
    if s.len() == 0 || s.last().not_after(x) {
        s.push(x)
    } else {
        inserted(s.drop_last(), x).push(s.last())
    }
}

/// The values of `s` in order; of values with the same place, the one that
/// came first in `s` comes first.
pub open spec fn sorted<T: Ranked>(s: Seq<T>) -> Seq<T>
    decreases s.len(),
{
    if s.len() == 0 {
        s
    } else {
        inserted(sorted(s.drop_last()), s.last())
    }
}

/// Whether no value of `s` is after a later one.
pub open spec fn in_order<T: Ranked>(s: Seq<T>) -> bool {
    forall|i: int, j: int| 0 <= i < j < s.len() ==> s[i].not_after(s[j])
}

/// Whether two values have the same place.
pub open spec fn same_place<T: Ranked>(a: T, b: T) -> bool {
    a.not_after(b) && b.not_after(a)
}

proof fn lemma_inserted<T: Ranked>(s: Seq<T>, x: T)
    requires
        in_order(s),
    ensures
        in_order(inserted(s, x)),
        inserted(s, x).to_multiset() == s.to_multiset().insert(x),
        inserted(s, x).len() == s.len() + 1,
    decreases s.len(),
{
    broadcast use vstd::seq_lib::group_to_multiset_ensures;

    if s.len() == 0 || s.last().not_after(x) {
        assert forall|i: int, j: int| 0 <= i < j < s.push(x).len() implies s.push(x)[i].not_after(
            s.push(x)[j],
        ) by {
            if j == s.len() && i < s.len() - 1 {
                T::lemma_transitive(s[i], s.last(), x);
            }
        }
    } else {
        let front = s.drop_last();
        let inner = inserted(front, x);
        lemma_inserted(front, x);
        T::lemma_total(s.last(), x);
        assert forall|i: int| 0 <= i < inner.len() implies #[trigger] inner[i].not_after(
            s.last(),
        ) by {
            assert(inner.to_multiset().count(inner[i]) > 0) by {
                assert(inner.contains(inner[i]));
            }
            if inner[i] != x {
                assert(front.to_multiset().count(inner[i]) > 0);
                assert(front.contains(inner[i]));
                let k = choose|k: int| 0 <= k < front.len() && front[k] == inner[i];
                assert(s[k].not_after(s[s.len() - 1]));
            }
        }
        assert(s =~= front.push(s.last()));
        assert(s.to_multiset() =~= front.to_multiset().insert(s.last()));
        assert(inserted(s, x).to_multiset() =~= inner.to_multiset().insert(s.last()));
        assert(inserted(s, x).to_multiset() =~= s.to_multiset().insert(x));
    }
}

/// Sorting puts values in order, and neither drops nor adds one.
pub proof fn law_sorted<T: Ranked>(s: Seq<T>)
    ensures
        in_order(sorted(s)),
        sorted(s).to_multiset() == s.to_multiset(),
        sorted(s).len() == s.len(),
    decreases s.len(),
{
    broadcast use vstd::seq_lib::group_to_multiset_ensures;

    if s.len() > 0 {
        law_sorted(s.drop_last());
        lemma_inserted(sorted(s.drop_last()), s.last());
        assert(s =~= s.drop_last().push(s.last()));
    }
}

proof fn lemma_inserted_stable<T: Ranked>(s: Seq<T>, x: T, v: T)
    requires
        in_order(s),
    ensures
        inserted(s, x).filter(|y: T| same_place(y, v)) == s.push(x).filter(
            |y: T| same_place(y, v),
        ),
    decreases s.len(),
{
    let p = |y: T| same_place(y, v);
    reveal_with_fuel(Seq::filter, 3);
    if s.len() > 0 && !s.last().not_after(x) {
        let front = s.drop_last();
        lemma_inserted_stable(front, x, v);
        assert(inserted(s, x).drop_last() =~= inserted(front, x));
        assert(s.push(x).drop_last() =~= s);
        assert(front.push(x).drop_last() =~= front);
        if p(s.last()) && p(x) {
            T::lemma_transitive(s.last(), v, x);
        }
    }
}

/// Sorting is stable: values with the same place keep their order.
pub proof fn law_sorted_stable<T: Ranked>(s: Seq<T>, v: T)
    ensures
        sorted(s).filter(|y: T| same_place(y, v)) == s.filter(|y: T| same_place(y, v)),
    decreases s.len(),
{
    let p = |y: T| same_place(y, v);
    if s.len() > 0 {
        let front = s.drop_last();
        law_sorted(front);
        law_sorted_stable(front, v);
        lemma_inserted_stable(sorted(front), s.last(), v);
        assert(sorted(front).push(s.last()).drop_last() =~= sorted(front));
        reveal(Seq::filter);
    }
}

/// Puts `x` behind the last value that is not after it.
fn insert_in_order<T: Ranked>(v: &mut Vec<T>, x: T)
    ensures
        final(v)@ == inserted(old(v)@, x),
{
    let ghost s = v@;
    let mut k: usize = v.len();
    proof {
        assert(s.take(k as int) == s);
        assert(s.skip(k as int) == Seq::<T>::empty());
    }
    while k > 0 && !v[k - 1].in_order(&x)
        invariant
            k <= s.len(),
            v@ == s,
            inserted(s, x) == inserted(s.take(k as int), x) + s.skip(k as int),
        decreases k,
    {
        proof {
            let t = s.take(k as int);
            assert(t.last() == s[k - 1]);
            assert(t.drop_last() == s.take(k - 1));
            assert(inserted(t, x) == inserted(s.take(k - 1), x).push(s[k - 1]));
            assert(inserted(s.take(k - 1), x).push(s[k - 1]) + s.skip(k as int) == inserted(
                s.take(k - 1),
                x,
            ) + s.skip(k - 1));
        }
        k = k - 1;
    }
    proof {
        let t = s.take(k as int);
        assert(k > 0 ==> t.last() == s[k - 1]);
        assert(inserted(t, x) == t.push(x));
        assert(s.insert(k as int, x) == t.push(x) + s.skip(k as int));
    }
    v.insert(k, x);
}

/// Sorts `v`, keeping the order of values with the same place.
pub fn sort<T: Ranked>(v: Vec<T>) -> (r: Vec<T>)
    ensures
        r@ == sorted(v@),
{
    let mut out: Vec<T> = Vec::new();
    let ghost all = v@;
    for x in it: v
        invariant
            it.seq() == all,
            out@ == sorted(all.take(it.index())),
    {
        proof {
            assert(all.take(it.index() + 1).drop_last() == all.take(it.index()));
        }
        insert_in_order(&mut out, x);
    }
    proof {
        assert(all.take(all.len() as int) == all);
    }
    out
}

/// What a filter keeps was there before, and passes the filter.
pub proof fn lemma_filter_from<T>(s: Seq<T>, p: spec_fn(T) -> bool, k: int)
    requires
        0 <= k < s.filter(p).len(),
    ensures
        s.contains(s.filter(p)[k]),
        p(s.filter(p)[k]),
    decreases s.len(),
{
    reveal(Seq::filter);
    if s.len() > 0 {
        let front = s.drop_last();
        if k < front.filter(p).len() {
            lemma_filter_from(front, p, k);
            let x = front.filter(p)[k];
            let i = choose|i: int| 0 <= i < front.len() && front[i] == x;
            assert(s[i] == x);
        } else {
            assert(s[s.len() - 1] == s.filter(p)[k]);
        }
    }
}

/// Texts are ordered by the first character in which they differ, and a text comes before
/// what it begins.
pub proof fn law_lex(p: Seq<char>, a: char, x: Seq<char>, b: char, y: Seq<char>)
    ensures
        a != b ==> (lex_le(p.push(a) + x, p.push(b) + y) <==> a < b),
        lex_le(p, p + x),
        x.len() > 0 ==> !lex_le(p + x, p),
    decreases p.len(),
{
    if p.len() == 0 {
        assert(p.push(a) + x =~= seq![a] + x);
        assert(p.push(b) + y =~= seq![b] + y);
        assert(p + x =~= x);
    } else {
        law_lex(p.drop_first(), a, x, b, y);
        assert((p.push(a) + x).drop_first() =~= p.drop_first().push(a) + x);
        assert((p.push(b) + y).drop_first() =~= p.drop_first().push(b) + y);
        assert((p + x).drop_first() =~= p.drop_first() + x);
    }
}

} // verus!
