//! Any path as a text: bytes that are no UTF-8 are written as marks. A mark starts with the
//! character NUL, which no path contains.

use vstd::prelude::*;

use crate::path;
use crate::text;

verus! {

/// A piece of a path: text, and behind it the bytes of one sequence that is no UTF-8, if
/// there is one.
pub struct Chunk {
    pub valid: String,
    pub invalid: Vec<u8>,
}

/// What a text consists of: characters, and marks for the first byte and for a further byte
/// of a sequence that is no UTF-8.
pub enum Unit {
    Plain(Seq<char>),
    First(u8),
    More(u8),
}

/// Whether a character stands for a byte in a mark.
pub open spec fn stands_for_byte(c: char) -> bool {
    0x80 <= c as u32 <= 0xff
}

/// Whether `s` starts with the mark of a first byte.
pub open spec fn starts_first(s: Seq<char>) -> bool {
    s.len() >= 2 && s[0] == '\0' && stands_for_byte(s[1])
}

/// Whether `s` starts with the mark of a further byte.
pub open spec fn starts_more(s: Seq<char>) -> bool {
    s.len() >= 3 && s[0] == '\0' && s[1] == '\0' && stands_for_byte(s[2])
}

/// The units of a text.
pub open spec fn units(s: Seq<char>) -> Seq<Unit>
    decreases s.len(),
{
    if s.len() == 0 {
        Seq::empty()
    } else if starts_first(s) {
        seq![Unit::First(s[1] as u8)] + units(s.skip(2))
    } else if starts_more(s) {
        seq![Unit::More(s[2] as u8)] + units(s.skip(3))
    } else {
        seq![Unit::Plain(s.take(1))] + units(s.skip(1))
    }
}

/// The bytes of a unit.
pub open spec fn unit_bytes(u: Unit) -> Seq<u8> {
    match u {
        Unit::Plain(c) => vstd::utf8::encode_utf8(c),
        Unit::First(b) => seq![b],
        Unit::More(b) => seq![b],
    }
}

/// The bytes of some units.
pub open spec fn all_bytes(us: Seq<Unit>) -> Seq<u8>
    decreases us.len(),
{
    if us.len() == 0 {
        Seq::empty()
    } else {
        all_bytes(us.drop_last()) + unit_bytes(us.last())
    }
}

/// The bytes of the path that a text stands for.
pub open spec fn bytes_of(s: Seq<char>) -> Seq<u8> {
    all_bytes(units(s))
}

/// What is shown of the last of some units: a sequence that is no UTF-8 is shown by one
/// replacement character.
pub open spec fn last_shown(us: Seq<Unit>) -> Seq<char> {
    match us.last() {
        Unit::Plain(c) => c,
        Unit::First(_) => seq!['\u{fffd}'],
        Unit::More(_) => if us.len() >= 2 && !(us[us.len() - 2] is Plain) {
            Seq::empty()
        } else {
            seq!['\u{fffd}']
        },
    }
}

/// What is shown of some units.
pub open spec fn all_shown(us: Seq<Unit>) -> Seq<char>
    decreases us.len(),
{
    if us.len() == 0 {
        Seq::empty()
    } else {
        all_shown(us.drop_last()) + last_shown(us)
    }
}

/// What is shown of the path that a text stands for.
pub open spec fn shown(s: Seq<char>) -> Seq<char> {
    all_shown(units(s))
}

/// The marks of a sequence that is no UTF-8.
pub open spec fn marks(bytes: Seq<u8>) -> Seq<char>
    decreases bytes.len(),
{
    if bytes.len() == 0 {
        Seq::empty()
    } else if bytes.len() == 1 {
        seq!['\0', bytes[0] as char]
    } else {
        marks(bytes.drop_last()) + seq!['\0', '\0', bytes.last() as char]
    }
}

/// The text for a path in pieces.
pub open spec fn text_of(chunks: Seq<Chunk>) -> Seq<char>
    decreases chunks.len(),
{
    if chunks.len() == 0 {
        Seq::empty()
    } else {
        text_of(chunks.drop_last()) + chunks.last().valid@ + marks(chunks.last().invalid@)
    }
}

/// The bytes of a path in pieces.
pub open spec fn chunk_bytes(chunks: Seq<Chunk>) -> Seq<u8>
    decreases chunks.len(),
{
    if chunks.len() == 0 {
        Seq::empty()
    } else {
        chunk_bytes(chunks.drop_last()) + vstd::utf8::encode_utf8(chunks.last().valid@)
            + chunks.last().invalid@
    }
}

/// A path in pieces with a replacement character for each sequence that is no UTF-8.
pub open spec fn chunk_shown(chunks: Seq<Chunk>) -> Seq<char>
    decreases chunks.len(),
{
    if chunks.len() == 0 {
        Seq::empty()
    } else {
        chunk_shown(chunks.drop_last()) + chunks.last().valid@ + if chunks.last().invalid@.len()
            == 0 {
            Seq::empty()
        } else {
            seq!['\u{fffd}']
        }
    }
}

/// Whether these are pieces of a path: there is no NUL, and a byte that is no UTF-8 is none
/// of ASCII.
pub open spec fn of_a_path(chunks: Seq<Chunk>) -> bool {
    forall|i: int|
        0 <= i < chunks.len() ==> !(#[trigger] chunks[i]).valid@.contains('\0') && (forall|k: int|
            0 <= k < chunks[i].invalid@.len() ==> (#[trigger] chunks[i].invalid@[k]) >= 0x80)
}

/// The text for a path in pieces.
pub fn encode(chunks: &Vec<Chunk>) -> (r: String)
    ensures
        r@ == text_of(chunks@),
{
    let mut out = String::new();
    for i in 0..chunks.len()
        invariant
            out@ == text_of(chunks@.take(i as int)),
    {
        proof {
            assert(chunks@.take(i + 1).drop_last() == chunks@.take(i as int));
        }
        out.append(chunks[i].valid.as_str());
        let ghost before = out@;
        let inv = &chunks[i].invalid;
        for k in 0..inv.len()
            invariant
                out@ == before + marks(inv@.take(k as int)),
        {
            proof {
                assert(inv@.take(k + 1).drop_last() == inv@.take(k as int));
            }
            if k > 0 {
                out.push('\0');
            }
            out.push('\0');
            out.push(inv[k] as char);
            proof {
                assert(out@ == before + marks(inv@.take(k + 1)));
            }
        }
        proof {
            assert(inv@.take(inv@.len() as int) == inv@);
        }
    }
    proof {
        assert(chunks@.take(chunks@.len() as int) == chunks@);
    }
    out
}

fn is_byte(c: char) -> (r: bool)
    ensures
        r == stands_for_byte(c),
{
    let n: u32 = c as u32;
    0x80 <= n && n <= 0xff
}

/// What a text starts with.
enum Head {
    Plain,
    First(u8),
    More(u8),
}

/// What the text starts with at `i`.
fn head_at(cs: &Vec<char>, i: usize) -> (r: Head)
    requires
        i < cs@.len(),
    ensures
        ({
            let rest = cs@.skip(i as int);
            match r {
                Head::First(b) => starts_first(rest) && b == rest[1] as u8,
                Head::More(b) => !starts_first(rest) && starts_more(rest) && b == rest[2] as u8,
                Head::Plain => !starts_first(rest) && !starts_more(rest),
            }
        }),
{
    let nul = cs[i] == '\0';
    let left: usize = cs.len() - i;
    if nul && left >= 2 && is_byte(cs[i + 1]) {
        Head::First(cs[i + 1] as u8)
    } else if nul && left >= 3 && cs[i + 1] == '\0' && is_byte(cs[i + 2]) {
        Head::More(cs[i + 2] as u8)
    } else {
        Head::Plain
    }
}

proof fn lemma_step(s: Seq<char>, i: int, done: Seq<Unit>, u: Unit, n: int)
    requires
        0 <= i < s.len(),
        done + units(s.skip(i)) == units(s),
        0 < n <= s.len() - i,
        units(s.skip(i)) == seq![u] + units(s.skip(i).skip(n)),
    ensures
        done.push(u) + units(s.skip(i + n)) == units(s),
        done.push(u).drop_last() == done,
{
    assert(s.skip(i).skip(n) =~= s.skip(i + n));
    assert(done.push(u) + units(s.skip(i + n)) =~= done + (seq![u] + units(s.skip(i + n))));
    assert(done.push(u).drop_last() =~= done);
}

proof fn lemma_end(s: Seq<char>, i: int, done: Seq<Unit>)
    requires
        i == s.len(),
        done + units(s.skip(i)) == units(s),
    ensures
        done == units(s),
{
    assert(done + units(s.skip(i)) =~= done);
}

/// The bytes of the path that a text stands for.
pub fn decode(s: &str) -> (r: Vec<u8>)
    ensures
        r@ == bytes_of(s@),
{
    let cs = text::chars_of(s);
    let mut out: Vec<u8> = Vec::new();
    let mut i: usize = 0;
    let ghost mut done = Seq::<Unit>::empty();
    proof {
        assert(s@.skip(0) == s@);
        assert(done + units(s@) =~= units(s@));
    }
    while i < cs.len()
        invariant
            cs@ == s@,
            i <= cs@.len(),
            done + units(s@.skip(i as int)) == units(s@),
            out@ == all_bytes(done),
        decreases cs@.len() - i,
    {
        match head_at(&cs, i) {
            Head::First(b) => {
                out.push(b);
                proof {
                    lemma_step(s@, i as int, done, Unit::First(b), 2);
                    done = done.push(Unit::First(b));
                }
                i = i + 2;
            },
            Head::More(b) => {
                out.push(b);
                proof {
                    lemma_step(s@, i as int, done, Unit::More(b), 3);
                    done = done.push(Unit::More(b));
                }
                i = i + 3;
            },
            Head::Plain => {
                let mut one = String::new();
                one.push(cs[i]);
                let ghost before = out@;
                let ghost u = Unit::Plain(s@.skip(i as int).take(1));
                proof {
                    assert(one@ =~= s@.skip(i as int).take(1));
                    lemma_step(s@, i as int, done, u, 1);
                    done = done.push(u);
                }
                let bytes = one.as_str().as_bytes();
                for k in 0..bytes.len()
                    invariant
                        out@ == before + bytes@.take(k as int),
                {
                    out.push(bytes[k]);
                    proof {
                        assert(bytes@.take(k + 1) == bytes@.take(k as int).push(bytes@[k as int]));
                    }
                }
                proof {
                    assert(bytes@.take(bytes@.len() as int) == bytes@);
                }
                i = i + 1;
            },
        }
        proof {
            assert(out@ == all_bytes(done));
        }
    }
    proof {
        lemma_end(s@, i as int, done);
    }
    out
}

/// What is shown of the path that a text stands for.
pub fn show(s: &str) -> (r: String)
    ensures
        r@ == shown(s@),
{
    let cs = text::chars_of(s);
    let mut out = String::new();
    let mut marked = false;
    let mut i: usize = 0;
    let ghost mut done = Seq::<Unit>::empty();
    proof {
        assert(s@.skip(0) == s@);
        assert(done + units(s@) =~= units(s@));
    }
    while i < cs.len()
        invariant
            cs@ == s@,
            i <= cs@.len(),
            done + units(s@.skip(i as int)) == units(s@),
            out@ == all_shown(done),
            marked == (done.len() > 0 && !(done.last() is Plain)),
        decreases cs@.len() - i,
    {
        match head_at(&cs, i) {
            Head::First(b) => {
                out.push('\u{fffd}');
                marked = true;
                proof {
                    lemma_step(s@, i as int, done, Unit::First(b), 2);
                    done = done.push(Unit::First(b));
                }
                i = i + 2;
            },
            Head::More(b) => {
                if !marked {
                    out.push('\u{fffd}');
                }
                marked = true;
                proof {
                    lemma_step(s@, i as int, done, Unit::More(b), 3);
                    done = done.push(Unit::More(b));
                }
                i = i + 3;
            },
            Head::Plain => {
                out.push(cs[i]);
                marked = false;
                proof {
                    let u = Unit::Plain(s@.skip(i as int).take(1));
                    lemma_step(s@, i as int, done, u, 1);
                    done = done.push(u);
                }
                i = i + 1;
            },
        }
        proof {
            assert(out@ =~= all_shown(done));
        }
    }
    proof {
        lemma_end(s@, i as int, done);
    }
    out
}

/// Characters as units.
pub open spec fn plain_units(s: Seq<char>) -> Seq<Unit> {
    Seq::new(s.len(), |i: int| Unit::Plain(s.subrange(i, i + 1)))
}

spec fn mark_units(bytes: Seq<u8>) -> Seq<Unit> {
    Seq::new(
        bytes.len(),
        |i: int|
            if i == 0 {
                Unit::First(bytes[i])
            } else {
                Unit::More(bytes[i])
            },
    )
}

proof fn lemma_units_join(a: Seq<char>, b: Seq<char>)
    requires
        a.len() > 0 ==> a.last() != '\0',
    ensures
        units(a + b) == units(a) + units(b),
    decreases a.len(),
{
    let s = a + b;
    if a.len() == 0 {
        assert(s == b);
    } else {
        let n: int = if starts_first(a) {
            2
        } else if starts_more(a) {
            3
        } else {
            1
        };
        assert(s[0] == a[0]);
        if a.len() >= 2 {
            assert(s[1] == a[1]);
        }
        if a.len() >= 3 {
            assert(s[2] == a[2]);
        }
        assert(starts_first(s) == starts_first(a));
        assert(starts_more(s) == starts_more(a));
        assert(s.skip(n) == a.skip(n) + b);
        assert(s.take(1) =~= a.take(1));
        lemma_units_join(a.skip(n), b);
        assert(units(a + b) =~= units(a) + units(b));
    }
}

proof fn lemma_units_of_plain(s: Seq<char>)
    requires
        !s.contains('\0'),
    ensures
        units(s) == plain_units(s),
    decreases s.len(),
{
    if s.len() > 0 {
        assert(s.contains(s[0]));
        assert forall|c: char| s.skip(1).contains(c) implies s.contains(c) by {
            let i = choose|i: int| 0 <= i < s.skip(1).len() && s.skip(1)[i] == c;
            assert(s[i + 1] == c);
        }
        lemma_units_of_plain(s.skip(1));
    }
    lemma_plain_units_front(s);
    assert(units(s) =~= plain_units(s));
}

proof fn lemma_plain_units_front(s: Seq<char>)
    ensures
        s.len() > 0 ==> plain_units(s) == seq![Unit::Plain(s.take(1))] + plain_units(s.skip(1)),
{
    if s.len() > 0 {
        let p = plain_units(s);
        let q = seq![Unit::Plain(s.take(1))] + plain_units(s.skip(1));
        assert forall|i: int| 0 <= i < p.len() implies p[i] == q[i] by {
            if i == 0 {
                assert(s.subrange(0, 1) =~= s.take(1));
            } else {
                assert(s.skip(1).subrange(i - 1, i) =~= s.subrange(i, i + 1));
            }
        }
        assert(p =~= q);
    }
}

proof fn lemma_units_of_marks(bytes: Seq<u8>)
    requires
        forall|k: int| 0 <= k < bytes.len() ==> (#[trigger] bytes[k]) >= 0x80,
    ensures
        units(marks(bytes)) == mark_units(bytes),
        bytes.len() > 0 ==> marks(bytes).len() > 0 && marks(bytes).last() != '\0',
    decreases bytes.len(),
{
    reveal_with_fuel(units, 2);
    if bytes.len() == 0 {
        assert(units(marks(bytes)) =~= mark_units(bytes));
    } else if bytes.len() == 1 {
        let m = marks(bytes);
        assert(bytes[0] >= 0x80);
        assert(starts_first(m));
        assert(m.skip(2) =~= Seq::empty());
        assert(units(m) =~= mark_units(bytes));
    } else {
        let front = marks(bytes.drop_last());
        let last = seq!['\0', '\0', bytes.last() as char];
        assert(bytes[bytes.len() - 1] >= 0x80);
        lemma_units_of_marks(bytes.drop_last());
        lemma_units_join(front, last);
        assert(starts_more(last));
        assert(last.skip(3) =~= Seq::empty());
        assert(units(last) =~= seq![Unit::More(bytes.last())]);
        assert(units(marks(bytes)) =~= mark_units(bytes));
    }
}

proof fn lemma_bytes_join(a: Seq<Unit>, b: Seq<Unit>)
    ensures
        all_bytes(a + b) == all_bytes(a) + all_bytes(b),
    decreases b.len(),
{
    if b.len() == 0 {
        assert(a + b =~= a);
        assert(all_bytes(a + b) =~= all_bytes(a) + all_bytes(b));
    } else {
        lemma_bytes_join(a, b.drop_last());
        assert((a + b).drop_last() =~= a + b.drop_last());
        assert(all_bytes(a + b) =~= all_bytes(a) + all_bytes(b));
    }
}

proof fn lemma_shown_join(a: Seq<Unit>, b: Seq<Unit>)
    requires
        b.len() > 0 ==> !(b[0] is More),
    ensures
        all_shown(a + b) == all_shown(a) + all_shown(b),
    decreases b.len(),
{
    if b.len() == 0 {
        assert(a + b =~= a);
        assert(all_shown(a + b) =~= all_shown(a) + all_shown(b));
    } else {
        lemma_shown_join(a, b.drop_last());
        assert((a + b).drop_last() =~= a + b.drop_last());
        if b.len() >= 2 {
            assert((a + b)[(a + b).len() - 2] == b[b.len() - 2]);
        }
        assert(last_shown(a + b) == last_shown(b));
        assert(all_shown(a + b) =~= all_shown(a) + all_shown(b));
    }
}

proof fn lemma_utf8_join(a: Seq<char>, b: Seq<char>)
    ensures
        vstd::utf8::encode_utf8(a + b) == vstd::utf8::encode_utf8(a) + vstd::utf8::encode_utf8(b),
    decreases a.len(),
{
    if a.len() == 0 {
        assert(a + b =~= b);
        assert(vstd::utf8::encode_utf8(a) =~= Seq::empty());
    } else {
        lemma_utf8_join(a.drop_first(), b);
        assert((a + b).drop_first() =~= a.drop_first() + b);
    }
    assert(vstd::utf8::encode_utf8(a + b) =~= vstd::utf8::encode_utf8(a)
        + vstd::utf8::encode_utf8(b));
}

proof fn lemma_plain_units(s: Seq<char>)
    ensures
        all_bytes(plain_units(s)) == vstd::utf8::encode_utf8(s),
        all_shown(plain_units(s)) == s,
    decreases s.len(),
{
    if s.len() > 0 {
        lemma_plain_units(s.drop_last());
        lemma_utf8_join(s.drop_last(), seq![s.last()]);
        assert(s.drop_last() + seq![s.last()] =~= s);
        let p = plain_units(s).drop_last();
        let q = plain_units(s.drop_last());
        assert forall|i: int| 0 <= i < p.len() implies p[i] == q[i] by {
            assert(s.drop_last().subrange(i, i + 1) =~= s.subrange(i, i + 1));
        }
        assert(p =~= q);
        assert(s.subrange(s.len() - 1, s.len() as int) =~= seq![s.last()]);
    }
    assert(all_bytes(plain_units(s)) =~= vstd::utf8::encode_utf8(s));
    assert(all_shown(plain_units(s)) =~= s);
}

proof fn lemma_mark_units(bytes: Seq<u8>)
    ensures
        all_bytes(mark_units(bytes)) == bytes,
        all_shown(mark_units(bytes)) == if bytes.len() == 0 {
            Seq::empty()
        } else {
            seq!['\u{fffd}']
        },
    decreases bytes.len(),
{
    if bytes.len() > 0 {
        lemma_mark_units(bytes.drop_last());
        assert(mark_units(bytes).drop_last() =~= mark_units(bytes.drop_last()));
    }
    assert(all_bytes(mark_units(bytes)) =~= bytes);
    assert(all_shown(mark_units(bytes)) =~= if bytes.len() == 0 {
        Seq::empty()
    } else {
        seq!['\u{fffd}']
    });
}

/// The text for a path stands for the bytes of that path, whatever they are, and shows them
/// with one replacement character for each sequence that is no UTF-8.
pub proof fn law_path_comes_back(chunks: Seq<Chunk>)
    requires
        of_a_path(chunks),
    ensures
        bytes_of(text_of(chunks)) == chunk_bytes(chunks),
        shown(text_of(chunks)) == chunk_shown(chunks),
        text_of(chunks).len() > 0 ==> text_of(chunks).last() != '\0',
    decreases chunks.len(),
{
    if chunks.len() > 0 {
        let front = chunks.drop_last();
        let c = chunks.last();
        let t = text_of(front);
        assert(of_a_path(front)) by {
            assert forall|i: int| 0 <= i < front.len() implies !(
            #[trigger] front[i]).valid@.contains('\0') && (forall|k: int|
                0 <= k < front[i].invalid@.len() ==> (#[trigger] front[i].invalid@[k]) >= 0x80) by {
                assert(front[i] == chunks[i]);
            }
        }
        law_path_comes_back(front);
        assert(c == chunks[chunks.len() - 1]);
        if c.valid@.len() > 0 {
            assert(c.valid@.contains(c.valid@.last()));
        }
        let v = plain_units(c.valid@);
        let m = mark_units(c.invalid@);
        lemma_units_of_plain(c.valid@);
        lemma_units_of_marks(c.invalid@);
        lemma_units_join(t, c.valid@);
        lemma_units_join(t + c.valid@, marks(c.invalid@));
        lemma_bytes_join(units(t), v);
        lemma_bytes_join(units(t) + v, m);
        lemma_shown_join(units(t), v);
        lemma_shown_join(units(t) + v, m);
        lemma_plain_units(c.valid@);
        lemma_mark_units(c.invalid@);
    }
}

/// A text without a NUL stands for itself.
pub proof fn law_plain_text_is_itself(s: Seq<char>)
    requires
        !s.contains('\0'),
    ensures
        bytes_of(s) == vstd::utf8::encode_utf8(s),
        shown(s) == s,
{
    lemma_units_of_plain(s);
    lemma_plain_units(s);
}

/// Where two texts are joined, the bytes of the two paths are joined.
pub proof fn law_join_joins_bytes(base: Seq<char>, p: Seq<char>)
    requires
        base.len() > 0,
        base.last() != '\0',
        !path::absolute(p),
    ensures
        bytes_of(path::path_joined(base, p)) == bytes_of(base) + if base.last() == '/' {
            Seq::empty()
        } else {
            vstd::utf8::encode_utf8(seq!['/'])
        } + bytes_of(p),
{
    if base.last() == '/' {
        lemma_units_join(base, p);
        lemma_bytes_join(units(base), units(p));
        assert(bytes_of(path::path_joined(base, p)) =~= bytes_of(base) + Seq::empty() + bytes_of(
            p,
        ));
    } else {
        let slash = seq!['/'];
        assert(base.push('/') =~= base + slash);
        assert(!slash.contains('\0'));
        lemma_units_join(base, slash);
        lemma_units_join(base.push('/'), p);
        lemma_bytes_join(units(base), units(slash));
        lemma_bytes_join(units(base.push('/')), units(p));
        law_plain_text_is_itself(slash);
    }
}

proof fn lemma_shown_from(s: Seq<char>)
    ensures
        forall|c: char| c != '\u{fffd}' && #[trigger] shown(s).contains(c) ==> s.contains(c),
        s.len() > 0 ==> shown(s).len() > 0,
        !shown(s).contains('\u{fffd}') ==> shown(s) == s,
    decreases s.len(),
{
    let us = units(s);
    if s.len() == 0 {
        assert(shown(s) =~= s);
    } else {
        assert(us.len() > 0);
        lemma_units_single(s);
        lemma_shown_units(us);
        assert forall|c: char| c != '\u{fffd}' && #[trigger] shown(s).contains(c) implies s.contains(
            c,
        ) by {
            lemma_unit_in_text(s, c);
        }
        if !shown(s).contains('\u{fffd}') {
            lemma_all_plain(s);
        }
    }
}

spec fn has_plain(u: Unit, c: char) -> bool {
    u is Plain && u->Plain_0.contains(c)
}

spec fn plain_in(us: Seq<Unit>, c: char) -> bool {
    exists|k: int| 0 <= k < us.len() && has_plain(#[trigger] us[k], c)
}

/// Whether every character among some units stands alone.
spec fn single(us: Seq<Unit>) -> bool {
    forall|k: int| 0 <= k < us.len() && (#[trigger] us[k]) is Plain ==> us[k]->Plain_0.len() == 1
}

proof fn lemma_units_single(s: Seq<char>)
    ensures
        single(units(s)),
    decreases s.len(),
{
    if s.len() > 0 {
        let n: int = if starts_first(s) {
            2
        } else if starts_more(s) {
            3
        } else {
            1
        };
        lemma_units_single(s.skip(n));
        let us = units(s);
        assert forall|k: int| 0 <= k < us.len() && (
        #[trigger] us[k]) is Plain implies us[k]->Plain_0.len() == 1 by {
            if k > 0 {
                assert(us[k] == units(s.skip(n))[k - 1]);
            }
        }
    }
}

proof fn lemma_shown_units(us: Seq<Unit>)
    requires
        single(us),
    ensures
        forall|c: char|
            c != '\u{fffd}' && #[trigger] all_shown(us).contains(c) ==> plain_in(us, c),
        us.len() > 0 ==> all_shown(us).len() > 0,
        !all_shown(us).contains('\u{fffd}') ==> forall|i: int|
            0 <= i < us.len() ==> (#[trigger] us[i]) is Plain,
    decreases us.len(),
{
    if us.len() > 0 {
        let front = us.drop_last();
        assert(single(front)) by {
            assert forall|k: int| 0 <= k < front.len() && (
            #[trigger] front[k]) is Plain implies front[k]->Plain_0.len() == 1 by {
                assert(front[k] == us[k]);
            }
        }
        lemma_shown_units(front);
        assert(us[us.len() - 1] is Plain ==> us.last()->Plain_0.len() == 1);
        let all = all_shown(us);
        assert forall|c: char| c != '\u{fffd}' && #[trigger] all.contains(c) implies plain_in(
            us,
            c,
        ) by {
            let i = choose|i: int| 0 <= i < all.len() && all[i] == c;
            if i < all_shown(front).len() {
                assert(all_shown(front)[i] == c);
                assert(all_shown(front).contains(c));
                let k = choose|k: int| 0 <= k < front.len() && has_plain(#[trigger] front[k], c);
                assert(has_plain(us[k], c));
            } else {
                let l = last_shown(us);
                assert(l[i - all_shown(front).len()] == c);
                assert(l.contains(c));
                assert(has_plain(us[us.len() - 1], c));
            }
        }
        if !all.contains('\u{fffd}') {
            assert forall|c: char| all_shown(front).contains(c) implies all.contains(c) by {
                let i = choose|i: int| 0 <= i < all_shown(front).len() && all_shown(front)[i] == c;
                assert(all[i] == c);
            }
            assert forall|i: int| 0 <= i < us.len() implies (#[trigger] us[i]) is Plain by {
                if i < front.len() {
                    assert(front[i] is Plain);
                } else if !(us[i] is Plain) {
                    if us.len() >= 2 {
                        assert(front[us.len() - 2] is Plain);
                    }
                    assert(last_shown(us) == seq!['\u{fffd}']);
                    assert(all[all.len() - 1] == '\u{fffd}');
                }
            }
        }
    }
}

proof fn lemma_unit_in_text(s: Seq<char>, c: char)
    requires
        plain_in(units(s), c),
    ensures
        s.contains(c),
    decreases s.len(),
{
    if s.len() > 0 {
        let n: int = if starts_first(s) {
            2
        } else if starts_more(s) {
            3
        } else {
            1
        };
        let us = units(s);
        let i = choose|i: int| 0 <= i < us.len() && has_plain(#[trigger] us[i], c);
        if i == 0 {
            let j = choose|j: int| 0 <= j < s.take(1).len() && s.take(1)[j] == c;
            assert(s[j] == c);
        } else {
            assert(has_plain(units(s.skip(n))[i - 1], c));
            lemma_unit_in_text(s.skip(n), c);
            let k = choose|k: int| 0 <= k < s.skip(n).len() && s.skip(n)[k] == c;
            assert(s[k + n] == c);
        }
    }
}

proof fn lemma_all_plain(s: Seq<char>)
    requires
        forall|i: int| 0 <= i < units(s).len() ==> (#[trigger] units(s)[i]) is Plain,
    ensures
        shown(s) == s,
    decreases s.len(),
{
    lemma_plain_only(s);
    lemma_plain_units(s);
}

proof fn lemma_plain_only(s: Seq<char>)
    requires
        forall|i: int| 0 <= i < units(s).len() ==> (#[trigger] units(s)[i]) is Plain,
    ensures
        units(s) == plain_units(s),
    decreases s.len(),
{
    if s.len() > 0 {
        assert(units(s)[0] is Plain);
        assert forall|i: int| 0 <= i < units(s.skip(1)).len() implies (
        #[trigger] units(s.skip(1))[i]) is Plain by {
            assert(units(s)[i + 1] is Plain);
        }
        lemma_plain_only(s.skip(1));
    }
    lemma_plain_units_front(s);
    assert(units(s) =~= plain_units(s));
}

/// What is shown of a name is a name.
pub proof fn law_shown_name_is_plain(name: Seq<char>)
    requires
        path::plain_name(name),
    ensures
        path::plain_name(shown(name)),
{
    lemma_shown_from(name);
    let s = shown(name);
    if !s.contains('\u{fffd}') {
        assert(s == name);
    } else {
        let i = choose|i: int| 0 <= i < s.len() && s[i] == '\u{fffd}';
        assert(s != seq!['.'] && s != seq!['.', '.']);
    }
}

} // verus!
