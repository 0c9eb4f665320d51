//! Text: the parts of `str` and `char` that the rest of the library is stated with.

use vstd::prelude::*;

verus! {

/// Appends one character (`String::push` of std).
pub assume_specification[ String::push ](s: &mut String, c: char)
    ensures
        final(s)@ == old(s)@.push(c),
;

/// The contents of a list of strings.
pub open spec fn texts(v: Seq<String>) -> Seq<Seq<char>> {
    v.map_values(|s: String| s@)
}

/// The characters of `s`, in order.
pub fn chars_of(s: &str) -> (r: Vec<char>)
    ensures
        r@ == s@,
{
    let mut v: Vec<char> = Vec::new();
    for c in it: s.chars()
        invariant
            it.seq() == s@,
            v@ == it.seq().take(it.index()),
    {
        v.push(c);
    }
    v
}

/// Splitting before every occurrence of a separator: there is one piece more
/// than there are separators, and the pieces may be empty.
pub open spec fn split_by(s: Seq<char>, sep: spec_fn(char) -> bool) -> Seq<Seq<char>>
    decreases s.len(),
{
    if s.len() == 0 {
        seq![Seq::<char>::empty()]
    } else {
        let front = split_by(s.drop_last(), sep);
        if sep(s.last()) {
            front.push(Seq::<char>::empty())
        } else {
            front.drop_last().push(front.last().push(s.last()))
        }
    }
}

/// A text has at least one piece.
pub proof fn lemma_split_not_empty(s: Seq<char>, sep: spec_fn(char) -> bool)
    ensures
        split_by(s, sep).len() > 0,
    decreases s.len(),
{
    if s.len() > 0 {
        lemma_split_not_empty(s.drop_last(), sep);
    }
}

/// Splits `s` at every `c`.
pub fn split_at_char(s: &str, c: char) -> (r: Vec<String>)
    ensures
        texts(r@) == split_by(s@, |x: char| x == c),
        r@.len() >= 1,
{
    let cs = chars_of(s);
    let ghost sep = |x: char| x == c;
    let mut done: Vec<String> = Vec::new();
    let mut cur = String::new();
    for i in 0..cs.len()
        invariant
            cs@ == s@,
            sep == (|x: char| x == c),
            texts(done@).push(cur@) == split_by(s@.take(i as int), sep),
    {
        proof {
            assert(s@.take(i + 1).drop_last() == s@.take(i as int));
            assert(texts(done@).push(cur@).drop_last() == texts(done@));
        }
        if cs[i] == c {
            let ghost before = done@;
            let ghost piece = cur@;
            done.push(cur);
            proof {
                assert(texts(done@) == texts(before).push(piece));
            }
            cur = String::new();
        } else {
            cur.push(cs[i]);
        }
    }
    proof {
        assert(s@.take(cs@.len() as int) == s@);
    }
    let ghost before = done@;
    let ghost piece = cur@;
    done.push(cur);
    proof {
        assert(texts(done@) == texts(before).push(piece));
    }
    done
}

/// Unicode's `White_Space` property.
pub open spec fn is_space(c: char) -> bool {
    let u = c as u32;
    ||| 0x9 <= u <= 0xd
    ||| u == 0x20
    ||| u == 0x85
    ||| u == 0xa0
    ||| u == 0x1680
    ||| 0x2000 <= u <= 0x200a
    ||| u == 0x2028
    ||| u == 0x2029
    ||| u == 0x202f
    ||| u == 0x205f
    ||| u == 0x3000
}

/// Whether `c` is white space.
pub fn is_whitespace(c: char) -> (r: bool)
    ensures
        r == is_space(c),
{
    let u: u32 = c as u32;
    (0x9 <= u && u <= 0xd) || u == 0x20 || u == 0x85 || u == 0xa0 || u == 0x1680 || (0x2000 <= u
        && u <= 0x200a) || u == 0x2028 || u == 0x2029 || u == 0x202f || u == 0x205f || u == 0x3000
}

/// The words of a text: its maximal runs without white space.
pub open spec fn words(s: Seq<char>) -> Seq<Seq<char>> {
    split_by(s, |c: char| is_space(c)).filter(|p: Seq<char>| p.len() > 0)
}

/// Splits `s` into its words.
pub fn split_whitespace(s: &str) -> (r: Vec<String>)
    ensures
        texts(r@) == words(s@),
{
    let cs = chars_of(s);
    let ghost sep = |c: char| is_space(c);
    let ghost full = |p: Seq<char>| p.len() > 0;
    let mut done: Vec<String> = Vec::new();
    let mut cur = String::new();
    for i in 0..cs.len()
        invariant
            cs@ == s@,
            sep == (|c: char| is_space(c)),
            full == (|p: Seq<char>| p.len() > 0),
            split_by(s@.take(i as int), sep).len() > 0,
            texts(done@) == split_by(s@.take(i as int), sep).drop_last().filter(full),
            cur@ == split_by(s@.take(i as int), sep).last(),
    {
        let ghost pieces = split_by(s@.take(i as int), sep);
        proof {
            assert(s@.take(i + 1).drop_last() == s@.take(i as int));
            assert(pieces.push(Seq::<char>::empty()).drop_last() == pieces);
            assert(pieces.drop_last().push(pieces.last().push(cs@[i as int])).drop_last()
                == pieces.drop_last());
            reveal(Seq::filter);
        }
        if is_whitespace(cs[i]) {
            if !cur.as_str().is_empty() {
                let ghost before = done@;
                done.push(cur);
                proof {
                    assert(texts(done@) == texts(before).push(pieces.last()));
                }
            }
            cur = String::new();
        } else {
            cur.push(cs[i]);
        }
    }
    proof {
        assert(s@.take(cs@.len() as int) == s@);
        reveal(Seq::filter);
    }
    if !cur.as_str().is_empty() {
        let ghost before = done@;
        let ghost piece = cur@;
        done.push(cur);
        proof {
            assert(texts(done@) == texts(before).push(piece));
        }
    }
    done
}

/// `s` without its longest head of characters in `p`.
pub open spec fn skip_while(s: Seq<char>, p: spec_fn(char) -> bool) -> Seq<char>
    decreases s.len(),
{
    if s.len() > 0 && p(s[0]) {
        skip_while(s.drop_first(), p)
    } else {
        s
    }
}

/// `s` without its longest tail of characters in `p`.
pub open spec fn drop_while(s: Seq<char>, p: spec_fn(char) -> bool) -> Seq<char>
    decreases s.len(),
{
    if s.len() > 0 && p(s.last()) {
        drop_while(s.drop_last(), p)
    } else {
        s
    }
}

/// `s` without white space at either end.
pub open spec fn trimmed(s: Seq<char>) -> Seq<char> {
    drop_while(skip_while(s, |c: char| is_space(c)), |c: char| is_space(c))
}

/// `s` without white space at its end.
pub open spec fn trimmed_end(s: Seq<char>) -> Seq<char> {
    drop_while(s, |c: char| is_space(c))
}

/// `s` without characters of `set` at either end.
pub open spec fn trimmed_of(s: Seq<char>, set: Seq<char>) -> Seq<char> {
    drop_while(skip_while(s, |c: char| set.contains(c)), |c: char| set.contains(c))
}

/// `s` without characters of `set` at its end.
pub open spec fn trimmed_end_of(s: Seq<char>, set: Seq<char>) -> Seq<char> {
    drop_while(s, |c: char| set.contains(c))
}

/// The string with the characters of `v` from `from` up to `to`.
pub fn string_range(v: &Vec<char>, from: usize, to: usize) -> (r: String)
    requires
        from <= to <= v@.len(),
    ensures
        r@ == v@.subrange(from as int, to as int),
{
    let mut out = String::new();
    for i in from..to
        invariant
            from <= to <= v@.len(),
            out@ == v@.subrange(from as int, i as int),
    {
        out.push(v[i]);
    }
    out
}

/// Removes white space at both ends.
pub fn trim(s: &str) -> (r: String)
    ensures
        r@ == trimmed(s@),
{
    let cs = chars_of(s);
    let ghost p = |c: char| is_space(c);
    let mut from: usize = 0;
    proof {
        assert(cs@.skip(0) == s@);
    }
    while from < cs.len() && is_whitespace(cs[from])
        invariant
            from <= cs@.len(),
            p == (|c: char| is_space(c)),
            skip_while(cs@.skip(from as int), p) == skip_while(s@, p),
        decreases cs@.len() - from,
    {
        proof {
            assert(cs@.skip(from as int).drop_first() == cs@.skip(from + 1));
        }
        from = from + 1;
    }
    let mut to: usize = cs.len();
    proof {
        assert(cs@.subrange(from as int, to as int) == cs@.skip(from as int));
    }
    while from < to && is_whitespace(cs[to - 1])
        invariant
            from <= to <= cs@.len(),
            p == (|c: char| is_space(c)),
            drop_while(cs@.subrange(from as int, to as int), p) == trimmed(s@),
        decreases to,
    {
        proof {
            assert(cs@.subrange(from as int, to as int).drop_last() == cs@.subrange(
                from as int,
                to - 1,
            ));
        }
        to = to - 1;
    }
    string_range(&cs, from, to)
}

/// Removes white space at the end.
pub fn trim_end(s: &str) -> (r: String)
    ensures
        r@ == trimmed_end(s@),
{
    let cs = chars_of(s);
    let ghost p = |c: char| is_space(c);
    let mut to: usize = cs.len();
    proof {
        assert(cs@.subrange(0, to as int) == s@);
    }
    while 0 < to && is_whitespace(cs[to - 1])
        invariant
            to <= cs@.len(),
            p == (|c: char| is_space(c)),
            drop_while(cs@.subrange(0, to as int), p) == trimmed_end(s@),
        decreases to,
    {
        proof {
            assert(cs@.subrange(0, to as int).drop_last() == cs@.subrange(0, to - 1));
        }
        to = to - 1;
    }
    string_range(&cs, 0, to)
}

/// Whether `c` is one of the characters of `set`.
pub fn one_of(c: char, set: &Vec<char>) -> (r: bool)
    ensures
        r == set@.contains(c),
{
    for i in 0..set.len()
        invariant
            forall|j: int| 0 <= j < i ==> set@[j] != c,
    {
        if set[i] == c {
            return true;
        }
    }
    false
}

/// Removes characters of `set` at both ends.
pub fn trim_matches(s: &str, set: &str) -> (r: String)
    ensures
        r@ == trimmed_of(s@, set@),
{
    let cs = chars_of(s);
    let set_chars = chars_of(set);
    let ghost p = |c: char| set@.contains(c);
    let mut from: usize = 0;
    proof {
        assert(cs@.skip(0) == s@);
    }
    while from < cs.len() && one_of(cs[from], &set_chars)
        invariant
            from <= cs@.len(),
            set_chars@ == set@,
            p == (|c: char| set@.contains(c)),
            skip_while(cs@.skip(from as int), p) == skip_while(s@, p),
        decreases cs@.len() - from,
    {
        proof {
            assert(cs@.skip(from as int).drop_first() == cs@.skip(from + 1));
        }
        from = from + 1;
    }
    let mut to: usize = cs.len();
    proof {
        assert(cs@.subrange(from as int, to as int) == cs@.skip(from as int));
    }
    while from < to && one_of(cs[to - 1], &set_chars)
        invariant
            from <= to <= cs@.len(),
            set_chars@ == set@,
            p == (|c: char| set@.contains(c)),
            drop_while(cs@.subrange(from as int, to as int), p) == trimmed_of(s@, set@),
        decreases to,
    {
        proof {
            assert(cs@.subrange(from as int, to as int).drop_last() == cs@.subrange(
                from as int,
                to - 1,
            ));
        }
        to = to - 1;
    }
    string_range(&cs, from, to)
}

/// Removes characters of `set` at the end.
pub fn trim_end_of(s: &str, set: &str) -> (r: String)
    ensures
        r@ == trimmed_end_of(s@, set@),
{
    let cs = chars_of(s);
    let set_chars = chars_of(set);
    let ghost p = |c: char| set@.contains(c);
    let mut to: usize = cs.len();
    proof {
        assert(cs@.subrange(0, to as int) == s@);
    }
    while 0 < to && one_of(cs[to - 1], &set_chars)
        invariant
            to <= cs@.len(),
            set_chars@ == set@,
            p == (|c: char| set@.contains(c)),
            drop_while(cs@.subrange(0, to as int), p) == trimmed_end_of(s@, set@),
        decreases to,
    {
        proof {
            assert(cs@.subrange(0, to as int).drop_last() == cs@.subrange(0, to - 1));
        }
        to = to - 1;
    }
    string_range(&cs, 0, to)
}

/// Whether two texts are the same.
pub fn str_eq(a: &str, b: &str) -> (r: bool)
    ensures
        r == (a@ == b@),
{
    let x = chars_of(a);
    let y = chars_of(b);
    if x.len() != y.len() {
        return false;
    }
    for i in 0..x.len()
        invariant
            x@ == a@,
            y@ == b@,
            x@.len() == y@.len(),
            forall|j: int| 0 <= j < i ==> x@[j] == y@[j],
    {
        if x[i] != y[i] {
            return false;
        }
    }
    proof {
        assert(x@ =~= y@);
    }
    true
}

/// Whether `s` begins with `p`.
pub fn starts_with(s: &str, p: &str) -> (r: bool)
    ensures
        r == p@.is_prefix_of(s@),
{
    let x = chars_of(s);
    let y = chars_of(p);
    if y.len() > x.len() {
        return false;
    }
    for i in 0..y.len()
        invariant
            x@ == s@,
            y@ == p@,
            y@.len() <= x@.len(),
            forall|j: int| 0 <= j < i ==> x@[j] == y@[j],
    {
        if x[i] != y[i] {
            proof {
                assert(s@.subrange(0, p@.len() as int)[i as int] == x@[i as int]);
            }
            return false;
        }
    }
    true
}

/// Whether `s` ends with `p`.
pub fn ends_with(s: &str, p: &str) -> (r: bool)
    ensures
        r == p@.is_suffix_of(s@),
{
    let x = chars_of(s);
    let y = chars_of(p);
    if y.len() > x.len() {
        return false;
    }
    let off: usize = x.len() - y.len();
    for i in 0..y.len()
        invariant
            x@ == s@,
            y@ == p@,
            y@.len() <= x@.len(),
            off + y.len() == x.len(),
            forall|j: int| 0 <= j < i ==> x@[off + j] == y@[j],
    {
        if x[off + i] != y[i] {
            proof {
                assert(s@.subrange(off as int, s@.len() as int)[i as int] == x@[off + i]);
            }
            return false;
        }
    }
    true
}

/// Whether `p` stands in `s` at position `k`.
pub open spec fn match_at(s: Seq<char>, p: Seq<char>, k: int) -> bool {
    &&& 0 <= k
    &&& k + p.len() <= s.len()
    &&& s.subrange(k, k + p.len()) == p
}

/// The first position at or after `k` where `p` stands in `s`.
pub open spec fn first_match(s: Seq<char>, p: Seq<char>, k: int) -> Option<int>
    decreases s.len() - p.len() + 1 - k,
{
    if k + p.len() > s.len() {
        None
    } else if match_at(s, p, k) {
        Some(k)
    } else {
        first_match(s, p, k + 1)
    }
}

/// Whether `p` stands somewhere in `s`.
pub open spec fn occurs(s: Seq<char>, p: Seq<char>) -> bool {
    exists|k: int| match_at(s, p, k)
}

/// A first position is found exactly where there is one.
pub proof fn lemma_first_match(s: Seq<char>, p: Seq<char>, k: int)
    requires
        0 <= k,
    ensures
        match first_match(s, p, k) {
            Some(i) => k <= i && match_at(s, p, i) && forall|j: int|
                k <= j < i ==> !match_at(s, p, j),
            None => forall|j: int| k <= j ==> !match_at(s, p, j),
        },
    decreases s.len() - p.len() + 1 - k,
{
    if k + p.len() <= s.len() && !match_at(s, p, k) {
        lemma_first_match(s, p, k + 1);
    }
}

fn stands_at(x: &Vec<char>, y: &Vec<char>, k: usize) -> (r: bool)
    requires
        k + y@.len() <= x@.len(),
    ensures
        r == match_at(x@, y@, k as int),
{
    for i in 0..y.len()
        invariant
            k + y.len() <= x.len(),
            forall|j: int| 0 <= j < i ==> x@[k + j] == y@[j],
    {
        if x[k + i] != y[i] {
            proof {
                assert(x@.subrange(k as int, k + y@.len())[i as int] == x@[k + i]);
            }
            return false;
        }
    }
    proof {
        assert(x@.subrange(k as int, k + y@.len()) =~= y@);
    }
    true
}

/// The first position of `p` in `s`, in characters.
pub fn find(s: &Vec<char>, p: &Vec<char>) -> (r: Option<usize>)
    ensures
        match r {
            Some(k) => first_match(s@, p@, 0) == Some(k as int),
            None => first_match(s@, p@, 0) is None,
        },
{
    if p.len() > s.len() {
        return None;
    }
    let last: usize = s.len() - p.len();
    let mut k: usize = 0;
    loop
        invariant
            k <= last,
            last == s@.len() - p@.len(),
            first_match(s@, p@, 0) == first_match(s@, p@, k as int),
        decreases last - k,
    {
        if stands_at(s, p, k) {
            return Some(k);
        }
        if k == last {
            proof {
                reveal_with_fuel(first_match, 2);
            }
            return None;
        }
        k = k + 1;
    }
}

/// Whether `p` stands somewhere in `s`.
pub fn contains(s: &str, p: &str) -> (r: bool)
    ensures
        r == occurs(s@, p@),
{
    let x = chars_of(s);
    let y = chars_of(p);
    proof {
        lemma_first_match(s@, p@, 0);
    }
    match find(&x, &y) {
        Some(_) => true,
        None => false,
    }
}

/// `s` without any number of heads `p`.
pub open spec fn without_heads(s: Seq<char>, p: Seq<char>) -> Seq<char>
    decreases s.len(),
{
    if p.len() > 0 && p.is_prefix_of(s) {
        without_heads(s.skip(p.len() as int), p)
    } else {
        s
    }
}

/// `s` without any number of tails `p`.
pub open spec fn without_tails(s: Seq<char>, p: Seq<char>) -> Seq<char>
    decreases s.len(),
{
    if p.len() > 0 && p.is_suffix_of(s) {
        without_tails(s.take(s.len() - p.len()), p)
    } else {
        s
    }
}

/// `s` without one tail `p`, where it has that tail.
pub open spec fn without_tail(s: Seq<char>, p: Seq<char>) -> Seq<char> {
    if p.is_suffix_of(s) {
        s.take(s.len() - p.len())
    } else {
        s
    }
}

/// Removes `p` from the end of `s` once, if it stands there.
pub fn cut_tail(s: &str, p: &str) -> (r: String)
    ensures
        r@ == without_tail(s@, p@),
{
    if ends_with(s, p) {
        let cs = chars_of(s);
        let n: usize = chars_of(p).len();
        proof {
            assert(cs@.subrange(0, cs@.len() - n) == s@.take(cs@.len() - n));
        }
        string_range(&cs, 0, cs.len() - n)
    } else {
        s.to_owned()
    }
}

/// Removes `p` from the start of `s` as often as it stands there.
pub fn trim_start_matches(s: &str, p: &str) -> (r: String)
    ensures
        r@ == without_heads(s@, p@),
{
    let n: usize = chars_of(p).len();
    let mut cur = s.to_owned();
    if n == 0 {
        return cur;
    }
    while starts_with(cur.as_str(), p)
        invariant
            n == p@.len(),
            n > 0,
            without_heads(cur@, p@) == without_heads(s@, p@),
        decreases cur@.len(),
    {
        let cs = chars_of(cur.as_str());
        proof {
            assert(cs@.subrange(n as int, cs@.len() as int) == cur@.skip(n as int));
        }
        cur = string_range(&cs, n, cs.len());
    }
    cur
}

/// Removes `p` from the end of `s` as often as it stands there.
pub fn trim_end_matches(s: &str, p: &str) -> (r: String)
    ensures
        r@ == without_tails(s@, p@),
{
    let n: usize = chars_of(p).len();
    let mut cur = s.to_owned();
    if n == 0 {
        return cur;
    }
    while ends_with(cur.as_str(), p)
        invariant
            n == p@.len(),
            n > 0,
            without_tails(cur@, p@) == without_tails(s@, p@),
        decreases cur@.len(),
    {
        let cs = chars_of(cur.as_str());
        proof {
            assert(cs@.subrange(0, cs@.len() - n) == cur@.take(cs@.len() - n));
        }
        cur = string_range(&cs, 0, cs.len() - n);
    }
    cur
}

/// A line without the carriage return at its end.
pub open spec fn without_cr(s: Seq<char>) -> Seq<char> {
    if s.len() > 0 && s.last() == '\r' {
        s.drop_last()
    } else {
        s
    }
}

/// The lines of a text. A line ends with a line feed, before which one carriage
/// return is dropped; text after the last line feed is a line if it is not empty.
pub open spec fn lines_of(s: Seq<char>) -> Seq<Seq<char>> {
    let pieces = split_by(s, |c: char| c == '\n');
    let ended = pieces.drop_last().map_values(|p: Seq<char>| without_cr(p));
    if pieces.last().len() == 0 {
        ended
    } else {
        ended.push(pieces.last())
    }
}

fn drop_cr(s: String) -> (r: String)
    ensures
        r@ == without_cr(s@),
{
    let cs = chars_of(s.as_str());
    if cs.len() > 0 && cs[cs.len() - 1] == '\r' {
        proof {
            assert(cs@.subrange(0, cs@.len() - 1) == s@.drop_last());
        }
        string_range(&cs, 0, cs.len() - 1)
    } else {
        s
    }
}

/// Splits `s` into its lines.
pub fn lines(s: &str) -> (r: Vec<String>)
    ensures
        texts(r@) == lines_of(s@),
{
    let mut pieces = split_at_char(s, '\n');
    let ghost all = texts(pieces@);
    let ghost strip = |p: Seq<char>| without_cr(p);
    let n: usize = pieces.len();
    let mut out: Vec<String> = Vec::new();
    for i in 0..n - 1
        invariant
            n >= 1,
            all.len() == n,
            pieces@.len() == n,
            texts(pieces@) == all,
            strip == (|p: Seq<char>| without_cr(p)),
            texts(out@) == all.take(i as int).map_values(strip),
    {
        let ghost before = out@;
        let ghost piece = pieces@[i as int]@;
        proof {
            assert(piece == all[i as int]);
        }
        let line = drop_cr(pieces[i].clone());
        out.push(line);
        proof {
            assert(texts(out@) == texts(before).push(without_cr(piece)));
            assert(all.take(i + 1).map_values(strip) == all.take(i as int).map_values(strip).push(
                without_cr(piece),
            ));
        }
    }
    proof {
        assert(all.take(n - 1) == all.drop_last());
        assert(pieces@.last()@ == all.last());
    }
    let last = pieces.pop();
    match last {
        Some(l) => {
            if !l.as_str().is_empty() {
                let ghost before = out@;
                let ghost piece = l@;
                out.push(l);
                proof {
                    assert(texts(out@) == texts(before).push(piece));
                }
            }
        },
        None => {},
    }
    out
}

/// The first line of a text, empty where there is none.
pub open spec fn first_line_of(s: Seq<char>) -> Seq<char> {
    if lines_of(s).len() == 0 {
        Seq::empty()
    } else {
        lines_of(s)[0]
    }
}

/// The first line of `s`, or an empty string.
pub fn first_line(s: &str) -> (r: String)
    ensures
        r@ == first_line_of(s@),
{
    let ls = lines(s);
    if ls.len() == 0 {
        String::new()
    } else {
        proof {
            assert(texts(ls@)[0] == ls@[0]@);
        }
        ls[0].clone()
    }
}

/// The decimal digit of a number below ten.
pub open spec fn digit(n: nat) -> char {
    ('0' as u32 + n) as char
}

/// A number written in decimal.
pub open spec fn dec(n: nat) -> Seq<char>
    decreases n,
{
    if n < 10 {
        seq![digit(n)]
    } else {
        dec(n / 10).push(digit(n % 10))
    }
}

/// Appends `n` in decimal.
pub fn push_dec(out: &mut String, n: u64)
    ensures
        final(out)@ == old(out)@ + dec(n as nat),
    decreases n,
{
    if n >= 10 {
        push_dec(out, n / 10);
    }
    let d: u8 = (n % 10) as u8;
    out.push((48u8 + d) as char);
}

/// `n` in decimal.
pub fn decimal(n: u64) -> (r: String)
    ensures
        r@ == dec(n as nat),
{
    let mut out = String::new();
    push_dec(&mut out, n);
    out
}

/// A signed number written in decimal.
pub open spec fn dec_signed(n: int) -> Seq<char> {
    if n < 0 {
        seq!['-'] + dec((-n) as nat)
    } else {
        dec(n as nat)
    }
}

/// `n` in decimal, with its sign where it is negative.
pub fn decimal_signed(n: i32) -> (r: String)
    ensures
        r@ == dec_signed(n as int),
{
    let mut out = String::new();
    if n < 0 {
        out.push('-');
        push_dec(&mut out, (-(n as i64)) as u64);
    } else {
        push_dec(&mut out, n as u64);
    }
    out
}

/// `n` spaces.
pub open spec fn spaces(n: nat) -> Seq<char> {
    Seq::new(n, |i: int| ' ')
}

/// How many spaces fill `s` up to `width` characters.
pub open spec fn fill(s: Seq<char>, width: nat) -> Seq<char> {
    spaces(if s.len() < width { (width - s.len()) as nat } else { 0 })
}

fn blank(n: usize) -> (r: String)
    ensures
        r@ == spaces(n as nat),
{
    let mut out = String::new();
    for i in 0..n
        invariant
            out@ == spaces(i as nat),
    {
        out.push(' ');
    }
    out
}

/// `s` with spaces behind it, up to `width` characters.
pub fn pad_right(s: &str, width: usize) -> (r: String)
    ensures
        r@ == s@ + fill(s@, width as nat),
{
    let n: usize = chars_of(s).len();
    let gap = if n < width {
        blank(width - n)
    } else {
        blank(0)
    };
    let mut out = s.to_owned();
    out.append(gap.as_str());
    out
}

/// `s` with spaces before it, up to `width` characters.
pub fn pad_left(s: &str, width: usize) -> (r: String)
    ensures
        r@ == fill(s@, width as nat) + s@,
{
    let n: usize = chars_of(s).len();
    let mut out = if n < width {
        blank(width - n)
    } else {
        blank(0)
    };
    out.append(s);
    out
}

/// The lower case of an ASCII letter; any other character itself.
pub open spec fn ascii_lower(c: char) -> char {
    if 'A' <= c <= 'Z' {
        (c as u32 + 32) as char
    } else {
        c
    }
}

/// `s` with its ASCII letters in lower case.
pub open spec fn ascii_lowered(s: Seq<char>) -> Seq<char> {
    s.map_values(|c: char| ascii_lower(c))
}

/// Lower-cases the ASCII letters of `s`.
pub fn to_ascii_lowercase(s: &str) -> (r: String)
    ensures
        r@ == ascii_lowered(s@),
{
    let cs = chars_of(s);
    let mut out = String::new();
    for i in 0..cs.len()
        invariant
            cs@ == s@,
            out@ == ascii_lowered(s@).take(i as int),
    {
        let c = cs[i];
        if 'A' <= c && c <= 'Z' {
            out.push(((c as u8) + 32) as char);
        } else {
            out.push(c);
        }
    }
    proof {
        assert(ascii_lowered(s@).take(cs@.len() as int) == ascii_lowered(s@));
    }
    out
}

/// `s` with `by` in place of every `c`.
pub open spec fn replaced(s: Seq<char>, c: char, by: Seq<char>) -> Seq<char>
    decreases s.len(),
{
    if s.len() == 0 {
        s
    } else {
        replaced(s.drop_last(), c, by) + (if s.last() == c {
            by
        } else {
            seq![s.last()]
        })
    }
}

/// Puts `by` in place of every `c`.
pub fn replace(s: &str, c: char, by: &str) -> (r: String)
    ensures
        r@ == replaced(s@, c, by@),
{
    let cs = chars_of(s);
    let mut out = String::new();
    for i in 0..cs.len()
        invariant
            cs@ == s@,
            out@ == replaced(s@.take(i as int), c, by@),
    {
        proof {
            assert(s@.take(i + 1).drop_last() == s@.take(i as int));
        }
        if cs[i] == c {
            out.append(by);
        } else {
            out.push(cs[i]);
        }
    }
    proof {
        assert(s@.take(cs@.len() as int) == s@);
    }
    out
}

/// Texts one after the other, with `sep` between each two.
pub open spec fn joined(parts: Seq<Seq<char>>, sep: Seq<char>) -> Seq<char>
    decreases parts.len(),
{
    if parts.len() == 0 {
        Seq::empty()
    } else if parts.len() == 1 {
        parts[0]
    } else {
        joined(parts.drop_last(), sep) + sep + parts.last()
    }
}

/// Joins `parts` with `sep` between each two.
pub fn join(parts: &Vec<String>, sep: &str) -> (r: String)
    ensures
        r@ == joined(texts(parts@), sep@),
{
    let mut out = String::new();
    for i in 0..parts.len()
        invariant
            out@ == joined(texts(parts@).take(i as int), sep@),
    {
        let ghost all = texts(parts@);
        proof {
            assert(all[i as int] == parts@[i as int]@);
            assert(all.take(i + 1).drop_last() == all.take(i as int));
        }
        if i > 0 {
            out.append(sep);
        }
        out.append(parts[i].as_str());
        proof {
            if i == 0 {
                assert(out@ == parts@[0]@);
            }
        }
    }
    proof {
        assert(texts(parts@).take(parts@.len() as int) == texts(parts@));
    }
    out
}

/// A copy of an optional string.
pub fn copy_option(o: &Option<String>) -> (r: Option<String>)
    ensures
        r == *o,
{
    match o {
        Some(s) => Some(s.clone()),
        None => None,
    }
}

/// The text in an optional string.
pub open spec fn text_option(o: Option<String>) -> Option<Seq<char>> {
    match o {
        Some(s) => Some(s@),
        None => None,
    }
}

/// The text in an optional string slice.
pub open spec fn str_option(o: Option<&str>) -> Option<Seq<char>> {
    match o {
        Some(s) => Some(s@),
        None => None,
    }
}

/// The number that some digits stand for, read from the left.
pub open spec fn decimal_value(s: Seq<char>) -> int
    decreases s.len(),
{
    if s.len() == 0 {
        0
    } else {
        10 * decimal_value(s.drop_last()) + (s.last() as u32 - '0' as u32)
    }
}

/// A number that is written in decimal reads back as that number, from digits alone and
/// without a zero in front, so different numbers are written differently.
pub proof fn law_decimal_reads_back(n: nat)
    ensures
        decimal_value(dec(n)) == n,
        dec(n).len() > 0,
        forall|i: int| 0 <= i < dec(n).len() ==> '0' <= #[trigger] dec(n)[i] <= '9',
        n > 0 ==> dec(n)[0] != '0',
    decreases n,
{
    reveal_with_fuel(decimal_value, 2);
    if n < 10 {
        assert(dec(n) =~= seq![digit(n)]);
        assert(dec(n).drop_last() =~= Seq::<char>::empty());
        assert(dec(n).last() == digit(n));
    } else {
        law_decimal_reads_back(n / 10);
        assert(dec(n).drop_last() =~= dec(n / 10));
        assert(dec(n).last() == digit(n % 10));
        assert forall|i: int| 0 <= i < dec(n).len() implies '0' <= #[trigger] dec(n)[i] <= '9' by {
            if i < dec(n / 10).len() {
                assert(dec(n)[i] == dec(n / 10)[i]);
            }
        }
        assert(dec(n)[0] == dec(n / 10)[0]);
    }
}

/// Splitting a text at a separator splits what stands on either side of it.
pub proof fn law_split_at_separator(a: Seq<char>, c: char, b: Seq<char>)
    ensures
        split_by(a.push(c) + b, |x: char| x == c) == split_by(a, |x: char| x == c) + split_by(
            b,
            |x: char| x == c,
        ),
    decreases b.len(),
{
    lemma_split_around(a, c, b, |x: char| x == c);
}

/// A text without the separator is one piece.
pub proof fn law_split_without_separator(s: Seq<char>, c: char)
    requires
        !s.contains(c),
    ensures
        split_by(s, |x: char| x == c) == seq![s],
{
    assert forall|i: int| 0 <= i < s.len() implies !(|x: char| x == c)(#[trigger] s[i]) by {
        assert(s.contains(s[i]));
    }
    lemma_split_whole(s, |x: char| x == c);
}

proof fn lemma_split_around(a: Seq<char>, c: char, b: Seq<char>, sep: spec_fn(char) -> bool)
    requires
        sep(c),
    ensures
        split_by(a.push(c) + b, sep) == split_by(a, sep) + split_by(b, sep),
        split_by(b, sep).len() > 0,
    decreases b.len(),
{
    let t = a.push(c) + b;
    if b.len() == 0 {
        assert(t =~= a.push(c));
        assert(t.drop_last() =~= a);
        assert(split_by(t, sep) =~= split_by(a, sep) + split_by(b, sep));
    } else {
        lemma_split_around(a, c, b.drop_last(), sep);
        assert(t.drop_last() =~= a.push(c) + b.drop_last());
        let x = split_by(a, sep);
        let y = split_by(b.drop_last(), sep);
        if sep(b.last()) {
            assert((x + y).push(Seq::<char>::empty()) =~= x + y.push(Seq::<char>::empty()));
        } else {
            assert((x + y).drop_last() =~= x + y.drop_last());
            assert((x + y).last() == y.last());
            let z = y.last().push(b.last());
            assert((x + y).drop_last().push(z) =~= x + y.drop_last().push(z));
        }
    }
}

proof fn lemma_split_whole(s: Seq<char>, sep: spec_fn(char) -> bool)
    requires
        forall|i: int| 0 <= i < s.len() ==> !sep(#[trigger] s[i]),
    ensures
        split_by(s, sep) == seq![s],
    decreases s.len(),
{
    if s.len() == 0 {
        assert(s =~= Seq::<char>::empty());
    } else {
        let t = s.drop_last();
        lemma_split_whole(t, sep);
        assert(t.push(s.last()) =~= s);
        assert(!sep(s[s.len() - 1]));
        assert(seq![t].drop_last().push(t.push(s.last())) =~= seq![s]);
    }
}

/// White space is what separates words in plain text, and no sign that is printed is.
pub proof fn law_white_space(c: char)
    ensures
        is_space(' ') && is_space('\t') && is_space('\n') && is_space('\r'),
        '!' <= c <= '~' ==> !is_space(c),
{
}

/// The words on either side of white space are the words of the text.
pub proof fn law_words_around_space(a: Seq<char>, c: char, b: Seq<char>)
    requires
        is_space(c),
    ensures
        words(a.push(c) + b) == words(a) + words(b),
{
    let sep = |x: char| is_space(x);
    let keep = |p: Seq<char>| p.len() > 0;
    lemma_split_around(a, c, b, sep);
    Seq::filter_distributes_over_add(split_by(a, sep), split_by(b, sep), keep);
}

/// A text without white space is one word, and an empty one none.
pub proof fn law_one_word(s: Seq<char>)
    requires
        forall|i: int| 0 <= i < s.len() ==> !is_space(#[trigger] s[i]),
    ensures
        words(s) == if s.len() == 0 {
            Seq::<Seq<char>>::empty()
        } else {
            seq![s]
        },
{
    let sep = |x: char| is_space(x);
    let keep = |p: Seq<char>| p.len() > 0;
    assert forall|i: int| 0 <= i < s.len() implies !sep(#[trigger] s[i]) by {
        assert(!is_space(s[i]));
    }
    lemma_split_whole(s, sep);
    reveal_with_fuel(Seq::filter, 2);
    assert(seq![s].drop_last() =~= Seq::<Seq<char>>::empty());
    assert(words(s) =~= if s.len() == 0 {
        Seq::<Seq<char>>::empty()
    } else {
        seq![s]
    });
}

proof fn lemma_skip_while(pre: Seq<char>, s: Seq<char>, p: spec_fn(char) -> bool)
    requires
        forall|i: int| 0 <= i < pre.len() ==> p(#[trigger] pre[i]),
        s.len() > 0 ==> !p(s[0]),
    ensures
        skip_while(pre + s, p) == s,
    decreases pre.len(),
{
    let t = pre + s;
    if pre.len() == 0 {
        assert(t =~= s);
    } else {
        assert(t[0] == pre[0] && p(pre[0]));
        let rest = pre.drop_first();
        assert forall|i: int| 0 <= i < rest.len() implies p(#[trigger] rest[i]) by {
            assert(rest[i] == pre[i + 1]);
        }
        assert(t.drop_first() =~= rest + s);
        lemma_skip_while(rest, s, p);
    }
}

proof fn lemma_drop_while(s: Seq<char>, post: Seq<char>, p: spec_fn(char) -> bool)
    requires
        forall|i: int| 0 <= i < post.len() ==> p(#[trigger] post[i]),
        s.len() > 0 ==> !p(s.last()),
    ensures
        drop_while(s + post, p) == s,
    decreases post.len(),
{
    let t = s + post;
    if post.len() == 0 {
        assert(t =~= s);
    } else {
        assert(t.last() == post.last() && p(post[post.len() - 1]));
        let rest = post.drop_last();
        assert forall|i: int| 0 <= i < rest.len() implies p(#[trigger] rest[i]) by {
            assert(rest[i] == post[i]);
        }
        assert(t.drop_last() =~= s + rest);
        lemma_drop_while(s, rest, p);
    }
}

/// Whether every character of a text is white space.
pub open spec fn all_space(s: Seq<char>) -> bool {
    forall|i: int| 0 <= i < s.len() ==> is_space(#[trigger] s[i])
}

/// Whether every character of a text is one of `set`.
pub open spec fn made_of(s: Seq<char>, set: Seq<char>) -> bool {
    forall|i: int| 0 <= i < s.len() ==> set.contains(#[trigger] s[i])
}

/// Trimming takes white space away at either end and nothing else.
pub proof fn law_trimmed(pre: Seq<char>, core: Seq<char>, post: Seq<char>)
    requires
        all_space(pre),
        all_space(post),
        core.len() > 0 ==> !is_space(core[0]) && !is_space(core.last()),
    ensures
        trimmed(pre + core + post) == core,
        trimmed_end(core + post) == core,
{
    let p = |c: char| is_space(c);
    assert forall|i: int| 0 <= i < pre.len() implies p(#[trigger] pre[i]) by {
        assert(is_space(pre[i]));
    }
    assert forall|i: int| 0 <= i < post.len() implies p(#[trigger] post[i]) by {
        assert(is_space(post[i]));
    }
    lemma_drop_while(core, post, p);
    if core.len() > 0 {
        assert(pre + core + post =~= pre + (core + post));
        lemma_skip_while(pre, core + post, p);
    } else {
        let all = pre + post;
        assert(pre + core + post =~= all + core);
        assert forall|i: int| 0 <= i < all.len() implies p(#[trigger] all[i]) by {
            if i < pre.len() {
                assert(p(pre[i]));
            } else {
                assert(p(post[i - pre.len()]));
            }
        }
        lemma_skip_while(all, core, p);
    }
}

/// Trimming characters of a set takes those away at either end and nothing else.
pub proof fn law_trimmed_of(pre: Seq<char>, core: Seq<char>, post: Seq<char>, set: Seq<char>)
    requires
        made_of(pre, set),
        made_of(post, set),
        core.len() > 0 ==> !set.contains(core[0]) && !set.contains(core.last()),
    ensures
        trimmed_of(pre + core + post, set) == core,
        trimmed_end_of(core + post, set) == core,
{
    let p = |c: char| set.contains(c);
    assert forall|i: int| 0 <= i < pre.len() implies p(#[trigger] pre[i]) by {
        assert(set.contains(pre[i]));
    }
    assert forall|i: int| 0 <= i < post.len() implies p(#[trigger] post[i]) by {
        assert(set.contains(post[i]));
    }
    lemma_drop_while(core, post, p);
    if core.len() > 0 {
        assert(pre + core + post =~= pre + (core + post));
        lemma_skip_while(pre, core + post, p);
    } else {
        let all = pre + post;
        assert(pre + core + post =~= all + core);
        assert forall|i: int| 0 <= i < all.len() implies p(#[trigger] all[i]) by {
            if i < pre.len() {
                assert(p(pre[i]));
            } else {
                assert(p(post[i - pre.len()]));
            }
        }
        lemma_skip_while(all, core, p);
    }
}

/// A line ends at its line feed, before which one carriage return does not count, and the
/// lines behind it are those of the rest.
pub proof fn law_lines(line: Seq<char>, rest: Seq<char>)
    requires
        !line.contains('\n'),
        line.len() > 0 ==> line.last() != '\r',
    ensures
        lines_of(line.push('\n') + rest) == seq![line] + lines_of(rest),
        lines_of(line.push('\r').push('\n') + rest) == seq![line] + lines_of(rest),
        lines_of(line) == if line.len() == 0 {
            Seq::<Seq<char>>::empty()
        } else {
            seq![line]
        },
{
    let sep = |c: char| c == '\n';
    let cut = |p: Seq<char>| without_cr(p);
    let below = split_by(rest, sep);
    lemma_split_not_empty(rest, sep);
    law_split_without_separator(line, '\n');
    let ret = line.push('\r');
    assert(!ret.contains('\n')) by {
        if ret.contains('\n') {
            let i = choose|i: int| 0 <= i < ret.len() && ret[i] == '\n';
            assert(line[i] == '\n');
        }
    }
    law_split_without_separator(ret, '\n');
    law_split_at_separator(line, '\n', rest);
    law_split_at_separator(ret, '\n', rest);
    assert((seq![line] + below).drop_last() =~= seq![line] + below.drop_last());
    assert((seq![ret] + below).drop_last() =~= seq![ret] + below.drop_last());
    assert((seq![line] + below.drop_last()).map_values(cut) =~= seq![line]
        + below.drop_last().map_values(cut));
    assert(ret.drop_last() =~= line);
    assert((seq![ret] + below.drop_last()).map_values(cut) =~= seq![line]
        + below.drop_last().map_values(cut));
    let ended = below.drop_last().map_values(cut);
    assert((seq![line] + ended).push(below.last()) =~= seq![line] + ended.push(below.last()));
    assert((seq![line] + below).last() == below.last());
    assert((seq![ret] + below).last() == below.last());
    assert(seq![line].drop_last().map_values(cut) =~= Seq::<Seq<char>>::empty());
    assert(Seq::<Seq<char>>::empty().push(line) =~= seq![line]);
}

/// The first line of a text is what stands before its first line feed, with which it ends,
/// or the whole text.
pub proof fn law_first_line(line: Seq<char>, rest: Seq<char>)
    requires
        !line.contains('\n'),
        line.len() > 0 ==> line.last() != '\r',
    ensures
        first_line_of(line) == line,
        first_line_of(line.push('\n') + rest) == line,
        first_line_of(line.push('\r').push('\n') + rest) == line,
{
    law_lines(line, rest);
    if line.len() == 0 {
        assert(line =~= Seq::<char>::empty());
    }
}

/// Heads and tails are taken away as often as they stand there, and nothing else is.
pub proof fn law_heads_and_tails(s: Seq<char>, p: Seq<char>)
    requires
        p.len() > 0,
    ensures
        without_heads(p + s, p) == without_heads(s, p),
        without_tails(s + p, p) == without_tails(s, p),
        without_tail(s + p, p) == s,
        !p.is_prefix_of(s) ==> without_heads(s, p) == s,
        !p.is_suffix_of(s) ==> without_tails(s, p) == s && without_tail(s, p) == s,
{
    assert(p.is_prefix_of(p + s));
    assert((p + s).skip(p.len() as int) =~= s);
    assert((s + p).skip((s + p).len() - p.len()) =~= p);
    assert(p.is_suffix_of(s + p));
    assert((s + p).take((s + p).len() - p.len()) =~= s);
}

/// A text that is filled up has the width asked for, and spaces alone are added.
pub proof fn law_filled(s: Seq<char>, width: nat)
    ensures
        s.len() <= width ==> (s + fill(s, width)).len() == width,
        s.len() > width ==> fill(s, width).len() == 0,
        forall|i: int| 0 <= i < fill(s, width).len() ==> #[trigger] fill(s, width)[i] == ' ',
{
}

/// Replacing goes character by character.
pub proof fn law_replaced(a: Seq<char>, b: Seq<char>, c: char, by: Seq<char>)
    ensures
        replaced(a + b, c, by) == replaced(a, c, by) + replaced(b, c, by),
        replaced(seq![c], c, by) == by,
        !a.contains(c) ==> replaced(a, c, by) == a,
    decreases a.len() + b.len(),
{
    reveal_with_fuel(replaced, 2);
    assert(seq![c].drop_last() =~= Seq::<char>::empty());
    assert(replaced(seq![c], c, by) =~= by);
    if b.len() > 0 {
        law_replaced(a, b.drop_last(), c, by);
        assert((a + b).drop_last() =~= a + b.drop_last());
        assert(replaced(a + b, c, by) =~= replaced(a, c, by) + replaced(b, c, by));
    } else {
        assert(a + b =~= a);
        assert(replaced(a + b, c, by) =~= replaced(a, c, by) + replaced(b, c, by));
        if a.len() > 0 && !a.contains(c) {
            let t = a.drop_last();
            assert forall|x: char| t.contains(x) implies a.contains(x) by {
                let i = choose|i: int| 0 <= i < t.len() && t[i] == x;
                assert(a[i] == x);
            }
            law_replaced(t, b, c, by);
            assert(a.contains(a.last()));
            assert(replaced(a, c, by) =~= a);
        }
    }
    if b.len() > 0 && !a.contains(c) {
        law_replaced(a, Seq::empty(), c, by);
    }
}

/// A signed number has a minus in front exactly if it is less than zero, and its digits stand
/// for its amount.
pub proof fn law_signed_reads_back(n: int)
    ensures
        n < 0 ==> dec_signed(n)[0] == '-' && decimal_value(dec_signed(n).skip(1)) == -n,
        n >= 0 ==> decimal_value(dec_signed(n)) == n,
{
    if n < 0 {
        law_decimal_reads_back((-n) as nat);
        assert(dec_signed(n).skip(1) =~= dec((-n) as nat));
    } else {
        law_decimal_reads_back(n as nat);
    }
}

/// Texts that are joined follow each other, with the separator between each two.
pub proof fn law_joined(parts: Seq<Seq<char>>, s: Seq<char>, sep: Seq<char>)
    ensures
        joined(Seq::empty(), sep) == Seq::<char>::empty(),
        joined(seq![s], sep) == s,
        parts.len() > 0 ==> joined(parts.push(s), sep) == joined(parts, sep) + sep + s,
{
    assert(parts.push(s).drop_last() =~= parts);
}

} // verus!
