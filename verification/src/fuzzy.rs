//! Fuzzy matching: how well a query fits a text.

use vstd::prelude::*;

use crate::outside;
use crate::text::{self, chars_of};

verus! {

/// How many characters of `s` are passed over when the characters of `q` are looked up in
/// it one after the other, each at the first place behind the one before.
pub open spec fn passed_over(q: Seq<char>, s: Seq<char>) -> Option<nat>
    decreases s.len(),
{
    if q.len() == 0 {
        Some(0)
    } else if s.len() == 0 {
        None
    } else if s[0] == q[0] {
        passed_over(q.skip(1), s.skip(1))
    } else {
        match passed_over(q, s.skip(1)) {
            Some(n) => Some(n + 1),
            None => None,
        }
    }
}

/// How well `q` fits `s`, where less is better: a text that holds the query scores the
/// number of bytes before it, and one that holds its characters one after the other a
/// hundred and the number of characters passed over. Numbers wrap around at 32 bits.
pub open spec fn fuzzy_score(q: Seq<char>, s: Seq<char>) -> Option<u32> {
    match text::first_match(s, q, 0) {
        Some(i) => Some((vstd::utf8::encode_utf8(s.take(i)).len() % 0x1_0000_0000) as u32),
        None => match passed_over(q, s) {
            Some(n) => Some(((100 + n) % 0x1_0000_0000) as u32),
            None => None,
        },
    }
}

/// How well `q` fits `s`, without regard to case.
pub open spec fn fuzzy_fit(q: Seq<char>, s: Seq<char>) -> Option<u32> {
    if q.len() == 0 {
        Some(0)
    } else {
        fuzzy_score(outside::lowercase(q), outside::lowercase(s))
    }
}

/// How well `q` fits `s`, without regard to case; nothing where it does not fit.
pub fn fuzzy(q: &str, s: &str) -> (r: Option<u32>)
    ensures
        r == fuzzy_fit(q@, s@),
{
    if q.is_empty() {
        return Some(0);
    }
    let s_l = outside::to_lowercase(s);
    let q_l = outside::to_lowercase(q);
    fuzzy_match(q_l.as_str(), s_l.as_str())
}

/// The number of bytes of some characters, modulo two to the 32nd power.
fn byte_count(cs: &Vec<char>, n: usize) -> (r: u32)
    requires
        n <= cs@.len(),
    ensures
        r == vstd::utf8::encode_utf8(cs@.take(n as int)).len() % 0x1_0000_0000,
{
    let head = text::string_range(cs, 0, n);
    proof {
        assert(head@ == cs@.take(n as int));
    }
    let len: u64 = head.as_str().as_bytes().len() as u64;
    (len % 0x1_0000_0000) as u32
}

/// How well `q` fits `s`.
pub fn fuzzy_match(q: &str, s: &str) -> (r: Option<u32>)
    ensures
        r == fuzzy_score(q@, s@),
{
    let sc = chars_of(s);
    let qc = chars_of(q);
    if let Some(i) = text::find(&sc, &qc) {
        proof {
            text::lemma_first_match(sc@, qc@, 0);
        }
        return Some(byte_count(&sc, i));
    }
    let mut score: u32 = 100;
    let mut at: usize = 0;
    let ghost mut gone: nat = 0;
    proof {
        assert(qc@.skip(0) == qc@);
        assert(sc@.skip(0) == sc@);
    }
    for k in 0..qc.len()
        invariant
            sc@ == s@,
            qc@ == q@,
            text::first_match(s@, q@, 0) is None,
            at <= sc@.len(),
            score == (100 + gone) % 0x1_0000_0000,
            passed_over(q@, s@) == match passed_over(qc@.skip(k as int), sc@.skip(at as int)) {
                Some(n) => Some(gone + n),
                None => None,
            },
    {
        let ghost want = qc@.skip(k as int);
        proof {
            assert(want[0] == qc@[k as int]);
            assert(want.skip(1) == qc@.skip(k + 1));
        }
        while at < sc.len() && sc[at] != qc[k]
            invariant
                k < qc@.len(),
                want == qc@.skip(k as int),
                want.len() > 0,
                want[0] == qc@[k as int],
                at <= sc@.len(),
                score == (100 + gone) % 0x1_0000_0000,
                passed_over(q@, s@) == match passed_over(want, sc@.skip(at as int)) {
                    Some(n) => Some(gone + n),
                    None => None,
                },
            decreases sc@.len() - at,
        {
            proof {
                let rest = sc@.skip(at as int);
                assert(rest[0] == sc@[at as int]);
                assert(rest.skip(1) == sc@.skip(at + 1));
                gone = gone + 1;
            }
            score = score.wrapping_add(1);
            at = at + 1;
        }
        if at == sc.len() {
            return None;
        }
        proof {
            let rest = sc@.skip(at as int);
            assert(rest[0] == sc@[at as int]);
            assert(rest.skip(1) == sc@.skip(at + 1));
        }
        at = at + 1;
    }
    Some(score)
}

/// Whether the characters of `q` stand in `s` in their order, at the places `at`.
pub open spec fn stands_at(q: Seq<char>, s: Seq<char>, at: Seq<int>) -> bool {
    &&& at.len() == q.len()
    &&& forall|i: int| 0 <= i < at.len() ==> 0 <= #[trigger] at[i] < s.len() && s[at[i]] == q[i]
    &&& forall|i: int, j: int| 0 <= i < j < at.len() ==> at[i] < at[j]
}

/// Whether the characters of `q` stand in `s` in their order.
pub open spec fn subsequence(q: Seq<char>, s: Seq<char>) -> bool {
    exists|at: Seq<int>| stands_at(q, s, at)
}

proof fn lemma_passed_over(q: Seq<char>, s: Seq<char>)
    ensures
        passed_over(q, s) is Some <==> subsequence(q, s),
    decreases s.len(),
{
    if q.len() == 0 {
        assert(stands_at(q, s, Seq::empty()));
    } else if s.len() == 0 {
        if subsequence(q, s) {
            let at = choose|at: Seq<int>| stands_at(q, s, at);
            assert(0 <= at[0] < s.len());
        }
    } else if s[0] == q[0] {
        lemma_passed_over(q.skip(1), s.skip(1));
        if passed_over(q, s) is Some {
            let at = choose|at: Seq<int>| stands_at(q.skip(1), s.skip(1), at);
            let full = seq![0int] + at.map_values(|i: int| i + 1);
            assert forall|i: int| 0 <= i < full.len() implies 0 <= #[trigger] full[i] < s.len()
                && s[full[i]] == q[i] by {
                if i > 0 {
                    assert(0 <= at[i - 1] < s.skip(1).len());
                }
            }
            assert forall|i: int, j: int| 0 <= i < j < full.len() implies full[i] < full[j] by {
                assert(0 <= at[j - 1]);
                if i > 0 {
                    assert(at[i - 1] < at[j - 1]);
                }
            }
            assert(stands_at(q, s, full));
        }
        if subsequence(q, s) {
            let at = choose|at: Seq<int>| stands_at(q, s, at);
            let rest = at.skip(1).map_values(|i: int| i - 1);
            assert forall|i: int| 0 <= i < rest.len() implies 0 <= #[trigger] rest[i]
                < s.skip(1).len() && s.skip(1)[rest[i]] == q.skip(1)[i] by {
                assert(0 <= at[0] < at[i + 1]);
            }
            assert forall|i: int, j: int| 0 <= i < j < rest.len() implies rest[i] < rest[j] by {
                assert(at[i + 1] < at[j + 1]);
            }
            assert(stands_at(q.skip(1), s.skip(1), rest));
        }
    } else {
        lemma_passed_over(q, s.skip(1));
        if passed_over(q, s) is Some {
            let at = choose|at: Seq<int>| stands_at(q, s.skip(1), at);
            let full = at.map_values(|i: int| i + 1);
            assert forall|i: int| 0 <= i < full.len() implies 0 <= #[trigger] full[i] < s.len()
                && s[full[i]] == q[i] by {
                assert(0 <= at[i] < s.skip(1).len());
            }
            assert forall|i: int, j: int| 0 <= i < j < full.len() implies full[i] < full[j] by {
                assert(at[i] < at[j]);
            }
            assert(stands_at(q, s, full));
        }
        if subsequence(q, s) {
            let at = choose|at: Seq<int>| stands_at(q, s, at);
            let rest = at.map_values(|i: int| i - 1);
            assert(at[0] != 0);
            assert forall|i: int| 0 <= i < rest.len() implies 0 <= #[trigger] rest[i]
                < s.skip(1).len() && s.skip(1)[rest[i]] == q[i] by {
                assert(0 <= at[0] && (i > 0 ==> at[0] < at[i]));
                assert(0 <= at[i] < s.len() && s[at[i]] == q[i]);
            }
            assert forall|i: int, j: int| 0 <= i < j < rest.len() implies rest[i] < rest[j] by {
                assert(at[i] < at[j]);
            }
            assert(stands_at(q, s.skip(1), rest));
        }
    }
}

/// A query fits a text exactly if its characters stand in the text in their order.
pub proof fn law_fits_means_subsequence(q: Seq<char>, s: Seq<char>)
    ensures
        fuzzy_score(q, s) is Some <==> subsequence(q, s),
{
    lemma_passed_over(q, s);
    if let Some(i) = text::first_match(s, q, 0) {
        text::lemma_first_match(s, q, 0);
        let at = Seq::new(q.len(), |k: int| i + k);
        assert forall|k: int| 0 <= k < at.len() implies 0 <= #[trigger] at[k] < s.len() && s[at[k]]
            == q[k] by {
            assert(s.subrange(i, i + q.len())[k] == s[i + k]);
        }
        assert(stands_at(q, s, at));
    }
}

/// The empty query fits everything equally well.
pub proof fn law_empty_query_fits_all(s: Seq<char>)
    ensures
        fuzzy_fit(Seq::empty(), s) == Some(0u32),
{
}

/// Whether `q` stands in `s` as a whole, from the `i`th character on.
pub open spec fn whole_at(q: Seq<char>, s: Seq<char>, i: int) -> bool {
    &&& 0 <= i
    &&& i + q.len() <= s.len()
    &&& forall|k: int| 0 <= k < q.len() ==> s[i + k] == #[trigger] q[k]
}

/// Whether the `i`th character is the first from which on `q` stands in `s` as a whole.
pub open spec fn first_whole_at(q: Seq<char>, s: Seq<char>, i: int) -> bool {
    &&& whole_at(q, s, i)
    &&& forall|j: int| 0 <= j < i ==> !#[trigger] whole_at(q, s, j)
}

/// Whether `q` stands nowhere in `s` as a whole.
pub open spec fn nowhere_whole(q: Seq<char>, s: Seq<char>) -> bool {
    forall|j: int| !#[trigger] whole_at(q, s, j)
}

proof fn lemma_whole_is_match(q: Seq<char>, s: Seq<char>, i: int)
    ensures
        whole_at(q, s, i) <==> text::match_at(s, q, i),
{
    if 0 <= i && i + q.len() <= s.len() {
        let part = s.subrange(i, i + q.len());
        if whole_at(q, s, i) {
            assert(part =~= q);
        }
        if part == q {
            assert forall|k: int| 0 <= k < q.len() implies s[i + k] == #[trigger] q[k] by {
                assert(part[k] == s[i + k]);
            }
        }
    }
}

proof fn lemma_first_whole(q: Seq<char>, s: Seq<char>)
    ensures
        forall|i: int| #[trigger] first_whole_at(q, s, i) ==> text::first_match(s, q, 0) == Some(i),
        nowhere_whole(q, s) ==> text::first_match(s, q, 0) is None,
        text::first_match(s, q, 0) matches Some(i) ==> first_whole_at(q, s, i),
{
    text::lemma_first_match(s, q, 0);
    let m = text::first_match(s, q, 0);
    if let Some(i) = m {
        lemma_whole_is_match(q, s, i);
        assert forall|j: int| 0 <= j < i implies !#[trigger] whole_at(q, s, j) by {
            lemma_whole_is_match(q, s, j);
        }
    }
    assert forall|i: int| #[trigger] first_whole_at(q, s, i) implies m == Some(i) by {
        lemma_whole_is_match(q, s, i);
        if let Some(j) = m {
            lemma_whole_is_match(q, s, j);
            assert(whole_at(q, s, j));
            if i < j {
                assert(!text::match_at(s, q, i));
            }
        }
    }
}

/// A text that holds the query as a whole scores the number of bytes before the first place
/// where it does.
pub proof fn law_whole_query_scores_what_stands_before(q: Seq<char>, s: Seq<char>, i: int)
    requires
        q.len() > 0,
        first_whole_at(outside::lowercase(q), outside::lowercase(s), i),
    ensures
        fuzzy_fit(q, s) == Some(
            (vstd::utf8::encode_utf8(outside::lowercase(s).take(i)).len() % 0x1_0000_0000) as u32,
        ),
        fuzzy_score(outside::lowercase(q), outside::lowercase(s)) == fuzzy_fit(q, s),
{
    lemma_first_whole(outside::lowercase(q), outside::lowercase(s));
}

/// The same without regard to how a text gets into lower case.
pub proof fn law_whole_match_scores_what_stands_before(q: Seq<char>, s: Seq<char>, i: int)
    requires
        first_whole_at(q, s, i),
    ensures
        fuzzy_score(q, s) == Some(
            (vstd::utf8::encode_utf8(s.take(i)).len() % 0x1_0000_0000) as u32,
        ),
{
    lemma_first_whole(q, s);
}

/// Whether `at` are the places where the characters of `q` are found in `s` one after the
/// other, each as early as it can be.
pub open spec fn found_early(q: Seq<char>, s: Seq<char>, at: Seq<int>) -> bool {
    &&& stands_at(q, s, at)
    &&& forall|i: int, k: int|
        0 <= i < at.len() && (if i == 0 {
            0
        } else {
            at[i - 1] + 1
        }) <= k < at[i] ==> #[trigger] s[k] != #[trigger] q[i]
}

proof fn lemma_found_early(q: Seq<char>, s: Seq<char>, at: Seq<int>)
    requires
        found_early(q, s, at),
    ensures
        passed_over(q, s) == Some(
            (if q.len() == 0 {
                0
            } else {
                at.last() + 1 - q.len()
            }) as nat,
        ),
        q.len() > 0 ==> at.last() + 1 >= q.len(),
    decreases s.len(),
{
    if q.len() > 0 {
        assert(0 <= at[0] < s.len() && s[at[0]] == q[0]);
        if s[0] == q[0] {
            if at[0] > 0 {
                assert(s[0] != q[0]);
            }
            let rest = Seq::new((at.len() - 1) as nat, |i: int| at[i + 1] - 1);
            let t = s.skip(1);
            let r = q.skip(1);
            assert forall|i: int| 0 <= i < rest.len() implies 0 <= #[trigger] rest[i] < t.len()
                && t[rest[i]] == r[i] by {
                assert(at[0] < at[i + 1]);
                assert(0 <= at[i + 1] < s.len() && s[at[i + 1]] == q[i + 1]);
            }
            assert forall|i: int, j: int| 0 <= i < j < rest.len() implies rest[i] < rest[j] by {
                assert(at[i + 1] < at[j + 1]);
            }
            assert forall|i: int, k: int|
                0 <= i < rest.len() && (if i == 0 {
                    0
                } else {
                    rest[i - 1] + 1
                }) <= k < rest[i] implies #[trigger] t[k] != #[trigger] r[i] by {
                assert(s[k + 1] != q[i + 1]);
            }
            lemma_found_early(r, t, rest);
            if r.len() > 0 {
                assert(rest.last() == at.last() - 1);
            }
        } else {
            assert(at[0] != 0);
            let rest = Seq::new(at.len(), |i: int| at[i] - 1);
            let t = s.skip(1);
            assert forall|i: int| 0 <= i < rest.len() implies 0 <= #[trigger] rest[i] < t.len()
                && t[rest[i]] == q[i] by {
                if i > 0 {
                    assert(at[0] < at[i]);
                }
                assert(0 <= at[i] < s.len() && s[at[i]] == q[i]);
            }
            assert forall|i: int, j: int| 0 <= i < j < rest.len() implies rest[i] < rest[j] by {
                assert(at[i] < at[j]);
            }
            assert forall|i: int, k: int|
                0 <= i < rest.len() && (if i == 0 {
                    0
                } else {
                    rest[i - 1] + 1
                }) <= k < rest[i] implies #[trigger] t[k] != #[trigger] q[i] by {
                assert(s[k + 1] != q[i]);
            }
            lemma_found_early(q, t, rest);
            assert(rest.last() == at.last() - 1);
        }
    }
}

/// A text that holds the characters of the query only scattered scores a hundred and the
/// number of characters that stand between them and before them.
pub proof fn law_scattered_query_scores_the_gaps(q: Seq<char>, s: Seq<char>, at: Seq<int>)
    requires
        q.len() > 0,
        nowhere_whole(q, s),
        found_early(q, s, at),
    ensures
        fuzzy_score(q, s) == Some(((100 + at.last() + 1 - q.len()) % 0x1_0000_0000) as u32),
{
    lemma_first_whole(q, s);
    lemma_found_early(q, s, at);
}

proof fn lemma_passed_over_bound(q: Seq<char>, s: Seq<char>)
    ensures
        passed_over(q, s) matches Some(n) ==> n <= s.len(),
    decreases s.len(),
{
    if q.len() > 0 && s.len() > 0 {
        if s[0] == q[0] {
            lemma_passed_over_bound(q.skip(1), s.skip(1));
        } else {
            lemma_passed_over_bound(q, s.skip(1));
        }
    }
}

/// A text that holds the query within its first hundred bytes fits better than every text
/// that holds its characters only scattered.
pub proof fn law_whole_beats_scattered(q: Seq<char>, a: Seq<char>, b: Seq<char>, i: int)
    requires
        q.len() > 0,
        first_whole_at(outside::lowercase(q), outside::lowercase(a), i),
        vstd::utf8::encode_utf8(outside::lowercase(a).take(i)).len() < 100,
        nowhere_whole(outside::lowercase(q), outside::lowercase(b)),
        outside::lowercase(b).len() < 0xffff_ff00,
    ensures
        fuzzy_fit(q, a) is Some,
        fuzzy_fit(q, b) matches Some(y) ==> fuzzy_fit(q, a)->0 < y,
{
    let l = outside::lowercase(q);
    lemma_first_whole(l, outside::lowercase(a));
    lemma_first_whole(l, outside::lowercase(b));
    lemma_passed_over_bound(l, outside::lowercase(b));
}

/// Of two texts that hold the query the one where less stands before it fits better.
pub proof fn law_earlier_beats_later(
    q: Seq<char>,
    a: Seq<char>,
    b: Seq<char>,
    i: int,
    j: int,
)
    requires
        q.len() > 0,
        first_whole_at(outside::lowercase(q), outside::lowercase(a), i),
        first_whole_at(outside::lowercase(q), outside::lowercase(b), j),
        vstd::utf8::encode_utf8(outside::lowercase(a).take(i)).len()
            < vstd::utf8::encode_utf8(outside::lowercase(b).take(j)).len() < 0x1_0000_0000,
    ensures
        fuzzy_fit(q, a) is Some && fuzzy_fit(q, b) is Some,
        fuzzy_fit(q, a)->0 < fuzzy_fit(q, b)->0,
{
    lemma_first_whole(outside::lowercase(q), outside::lowercase(a));
    lemma_first_whole(outside::lowercase(q), outside::lowercase(b));
}

/// The score of a candidate that holds the query is the number of bytes before it.
pub proof fn law_fuzzy(q: &str, s: &str, i: int, r: Option<u32>)
    requires
        call_ensures(fuzzy, (q, s), r),
        q@.len() > 0,
        first_whole_at(outside::lowercase(q@), outside::lowercase(s@), i),
        vstd::utf8::encode_utf8(outside::lowercase(s@).take(i)).len() < 0x1_0000_0000,
    ensures
        r matches Some(n) && n == vstd::utf8::encode_utf8(outside::lowercase(s@).take(i)).len(),
{
    law_whole_query_scores_what_stands_before(q@, s@, i);
}

/// The same of `fuzzy_match`, which takes case as it is.
pub proof fn law_fuzzy_match(q: &str, s: &str, i: int, r: Option<u32>)
    requires
        call_ensures(fuzzy_match, (q, s), r),
        first_whole_at(q@, s@, i),
        vstd::utf8::encode_utf8(s@.take(i)).len() < 0x1_0000_0000,
    ensures
        r matches Some(n) && n == vstd::utf8::encode_utf8(s@.take(i)).len(),
{
    law_whole_match_scores_what_stands_before(q@, s@, i);
}

} // verus!
