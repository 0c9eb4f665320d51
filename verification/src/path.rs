//! Paths as text, by the rules of Unix: `/` separates, and a path is the sequence
//! of its components.

use vstd::prelude::*;

use crate::order::{self, text_le, Ranked};
use crate::text::{self, chars_of, split_at_char, str_eq, string_range};

verus! {

/// One component of a path.
pub enum Component {
    /// The root directory at the start of an absolute path.
    Root,
    /// A `.` at the start of a relative path.
    Current,
    /// A `..`.
    Parent,
    /// A name.
    Normal(String),
}

/// What a component says.
pub enum Part {
    Root,
    Current,
    Parent,
    Normal(Seq<char>),
}

impl View for Component {
    type V = Part;

    open spec fn view(&self) -> Part {
        match self {
            Component::Root => Part::Root,
            Component::Current => Part::Current,
            Component::Parent => Part::Parent,
            Component::Normal(s) => Part::Normal(s@),
        }
    }
}

/// What a list of components says.
pub open spec fn parts_of(v: Seq<Component>) -> Seq<Part> {
    v.map_values(|c: Component| c@)
}

/// Whether a path starts at the root directory.
pub open spec fn absolute(p: Seq<char>) -> bool {
    p.len() > 0 && p[0] == '/'
}

/// Whether a path starts with `.` as a component.
pub open spec fn leading_dot(p: Seq<char>) -> bool {
    p.len() > 0 && p[0] == '.' && (p.len() == 1 || p[1] == '/')
}

/// Whether a piece between separators stands for nothing.
pub open spec fn void_piece(s: Seq<char>) -> bool {
    s.len() == 0 || s == seq!['.']
}

/// What a piece between separators stands for.
pub open spec fn part_of_piece(s: Seq<char>) -> Part {
    if s == seq!['.', '.'] {
        Part::Parent
    } else {
        Part::Normal(s)
    }
}

/// The component that a path starts with before its pieces count.
pub open spec fn head_parts(p: Seq<char>) -> Seq<Part> {
    if absolute(p) {
        seq![Part::Root]
    } else if leading_dot(p) {
        seq![Part::Current]
    } else {
        Seq::empty()
    }
}

/// The components that the pieces of a path stand for.
pub open spec fn body_parts(p: Seq<char>) -> Seq<Part> {
    text::split_by(p, |c: char| c == '/').filter(|s: Seq<char>| !void_piece(s)).map_values(
        |s: Seq<char>| part_of_piece(s),
    )
}

/// The components of a path.
pub open spec fn components_of(p: Seq<char>) -> Seq<Part> {
    head_parts(p) + body_parts(p)
}

/// Whether `p` starts at the root directory.
pub fn is_absolute(p: &str) -> (r: bool)
    ensures
        r == absolute(p@),
{
    let cs = chars_of(p);
    cs.len() > 0 && cs[0] == '/'
}

fn is_void(s: &str) -> (r: bool)
    ensures
        r == void_piece(s@),
{
    let cs = chars_of(s);
    let r = cs.len() == 0 || (cs.len() == 1 && cs[0] == '.');
    proof {
        if r && s@.len() == 1 {
            assert(s@ =~= seq!['.']);
        }
    }
    r
}

fn is_parent(s: &str) -> (r: bool)
    ensures
        r == (s@ == seq!['.', '.']),
{
    let cs = chars_of(s);
    let r = cs.len() == 2 && cs[0] == '.' && cs[1] == '.';
    proof {
        if r {
            assert(s@ =~= seq!['.', '.']);
        }
    }
    r
}

/// The components of `p`.
pub fn components(p: &str) -> (r: Vec<Component>)
    ensures
        parts_of(r@) == components_of(p@),
{
    let cs = chars_of(p);
    let mut out: Vec<Component> = Vec::new();
    if cs.len() > 0 && cs[0] == '/' {
        out.push(Component::Root);
    } else if cs.len() > 0 && cs[0] == '.' && (cs.len() == 1 || cs[1] == '/') {
        out.push(Component::Current);
    }
    proof {
        assert(parts_of(out@) == head_parts(p@));
    }
    let pieces = split_at_char(p, '/');
    let ghost all = text::texts(pieces@);
    let ghost keep = |s: Seq<char>| !void_piece(s);
    let ghost name = |s: Seq<char>| part_of_piece(s);
    for i in 0..pieces.len()
        invariant
            all == text::texts(pieces@),
            keep == (|s: Seq<char>| !void_piece(s)),
            name == (|s: Seq<char>| part_of_piece(s)),
            parts_of(out@) == head_parts(p@) + all.take(i as int).filter(keep).map_values(name),
    {
        let ghost before = out@;
        proof {
            assert(all[i as int] == pieces@[i as int]@);
            assert(all.take(i + 1).drop_last() == all.take(i as int));
            reveal(Seq::filter);
        }
        let piece = &pieces[i];
        if !is_void(piece.as_str()) {
            let c = if is_parent(piece.as_str()) {
                Component::Parent
            } else {
                Component::Normal(piece.clone())
            };
            out.push(c);
            proof {
                assert(parts_of(out@) == parts_of(before).push(part_of_piece(piece@)));
                assert(all.take(i + 1).filter(keep).map_values(name) == all.take(i as int).filter(
                    keep,
                ).map_values(name).push(part_of_piece(piece@)));
            }
        }
    }
    proof {
        assert(all.take(pieces@.len() as int) == all);
    }
    out
}

/// `base` with `p` behind it; an absolute `p` takes the place of `base`.
pub open spec fn path_joined(base: Seq<char>, p: Seq<char>) -> Seq<char> {
    if absolute(p) {
        p
    } else if base.len() == 0 || base.last() == '/' {
        base + p
    } else {
        base.push('/') + p
    }
}

/// Joins two paths.
pub fn join(base: &str, p: &str) -> (r: String)
    ensures
        r@ == path_joined(base@, p@),
{
    if is_absolute(p) {
        return p.to_owned();
    }
    let cs = chars_of(base);
    let mut out = base.to_owned();
    if cs.len() > 0 && cs[cs.len() - 1] != '/' {
        out.push('/');
    }
    out.append(p);
    out
}

/// The name that a path ends with, if its last component is a name.
pub open spec fn last_name(p: Seq<char>) -> Option<Seq<char>> {
    let ps = components_of(p);
    if ps.len() > 0 && ps.last() is Normal {
        Some(ps.last()->Normal_0)
    } else {
        None
    }
}

/// The name that `p` ends with.
pub fn file_name(p: &str) -> (r: Option<String>)
    ensures
        text::text_option(r) == last_name(p@),
{
    let mut cs = components(p);
    proof {
        if cs@.len() > 0 {
            assert(parts_of(cs@).last() == cs@.last()@);
        }
    }
    match cs.pop() {
        Some(Component::Normal(s)) => Some(s),
        _ => None,
    }
}

/// The position of the last dot that has something before it.
pub open spec fn dot_position(name: Seq<char>, k: int) -> Option<int>
    decreases k,
{
    if k <= 0 {
        None
    } else if k < name.len() && name[k] == '.' {
        Some(k)
    } else {
        dot_position(name, k - 1)
    }
}

/// A name up to the last dot that has something before it.
pub open spec fn stem_of(name: Seq<char>) -> Seq<char> {
    match dot_position(name, name.len() as int) {
        Some(k) => name.take(k),
        None => name,
    }
}

/// A name from the last dot on that has something before it; empty where there is none.
pub open spec fn dotted_extension_of(name: Seq<char>) -> Seq<char> {
    match dot_position(name, name.len() as int) {
        Some(k) => name.skip(k),
        None => Seq::empty(),
    }
}

/// A name, cut before its last dot that has something before it.
pub fn split_extension(name: &str) -> (r: (String, String))
    ensures
        r.0@ == stem_of(name@),
        r.1@ == dotted_extension_of(name@),
{
    let cs = chars_of(name);
    let mut k: usize = cs.len();
    while k > 0
        invariant
            k <= cs@.len(),
            cs@ == name@,
            dot_position(name@, name@.len() as int) == dot_position(name@, k as int),
        decreases k,
    {
        if k < cs.len() && cs[k] == '.' {
            proof {
                assert(cs@.subrange(0, k as int) == name@.take(k as int));
                assert(cs@.subrange(k as int, cs@.len() as int) == name@.skip(k as int));
            }
            return (string_range(&cs, 0, k), string_range(&cs, k, cs.len()));
        }
        k = k - 1;
    }
    (name.to_owned(), String::new())
}

fn part_eq(a: &Component, b: &Component) -> (r: bool)
    ensures
        r == (a@ == b@),
{
    match (a, b) {
        (Component::Root, Component::Root) => true,
        (Component::Current, Component::Current) => true,
        (Component::Parent, Component::Parent) => true,
        (Component::Normal(x), Component::Normal(y)) => str_eq(x.as_str(), y.as_str()),
        _ => false,
    }
}

/// Whether the components `b` are the first ones of `a`.
pub fn begins_with(a: &Vec<Component>, b: &Vec<Component>) -> (r: bool)
    ensures
        r == parts_of(b@).is_prefix_of(parts_of(a@)),
{
    if b.len() > a.len() {
        return false;
    }
    let ghost pa = parts_of(a@);
    let ghost pb = parts_of(b@);
    for i in 0..b.len()
        invariant
            pa == parts_of(a@),
            pb == parts_of(b@),
            b@.len() <= a@.len(),
            forall|j: int| 0 <= j < i ==> pa[j] == pb[j],
    {
        if !part_eq(&a[i], &b[i]) {
            proof {
                assert(pa.subrange(0, pb.len() as int)[i as int] == a@[i as int]@);
                assert(pb[i as int] == b@[i as int]@);
            }
            return false;
        }
        proof {
            assert(pa[i as int] == a@[i as int]@);
            assert(pb[i as int] == b@[i as int]@);
        }
    }
    proof {
        assert(pb =~= pa.subrange(0, pb.len() as int));
    }
    true
}

/// Whether two lists of components say the same.
pub fn parts_eq(a: &Vec<Component>, b: &Vec<Component>) -> (r: bool)
    ensures
        r == (parts_of(a@) == parts_of(b@)),
{
    let r = a.len() == b.len() && begins_with(a, b);
    proof {
        if r {
            assert(parts_of(a@).subrange(0, b@.len() as int) =~= parts_of(a@));
        }
        if parts_of(a@) == parts_of(b@) {
            assert(a@.len() == parts_of(a@).len());
            assert(b@.len() == parts_of(b@).len());
            assert(parts_of(a@).subrange(0, b@.len() as int) =~= parts_of(b@));
        }
    }
    r
}

/// Whether two paths have the same components.
pub open spec fn same_path(p: Seq<char>, q: Seq<char>) -> bool {
    components_of(p) == components_of(q)
}

/// Whether `p` and `q` have the same components.
pub fn path_eq(p: &str, q: &str) -> (r: bool)
    ensures
        r == same_path(p@, q@),
{
    parts_eq(&components(p), &components(q))
}

/// Whether `p` is `base` or lies under it.
pub open spec fn lies_under(p: Seq<char>, base: Seq<char>) -> bool {
    components_of(base).is_prefix_of(components_of(p))
}

/// Whether `p` is `base` or lies under it.
pub fn path_starts_with(p: &str, base: &str) -> (r: bool)
    ensures
        r == lies_under(p@, base@),
{
    begins_with(&components(p), &components(base))
}

/// The position of the first separator, or the length where there is none.
pub open spec fn first_slash(s: Seq<char>) -> int
    decreases s.len(),
{
    if s.len() == 0 || s[0] == '/' {
        0
    } else {
        1 + first_slash(s.drop_first())
    }
}

/// The position of the last separator, or -1 where there is none.
pub open spec fn last_slash(s: Seq<char>) -> int
    decreases s.len(),
{
    if s.len() == 0 {
        -1
    } else if s.last() == '/' {
        s.len() - 1
    } else {
        last_slash(s.drop_last())
    }
}

/// The piece that a text starts with.
pub open spec fn first_piece(s: Seq<char>) -> Seq<char> {
    s.take(first_slash(s))
}

/// What follows the first piece and its separator.
pub open spec fn after_piece(s: Seq<char>) -> Seq<char> {
    if first_slash(s) < s.len() {
        s.skip(first_slash(s) + 1)
    } else {
        Seq::empty()
    }
}

/// The piece that a text ends with.
pub open spec fn last_piece(s: Seq<char>) -> Seq<char> {
    s.skip(last_slash(s) + 1)
}

/// What stands before the last piece and its separator.
pub open spec fn before_piece(s: Seq<char>) -> Seq<char> {
    if last_slash(s) >= 0 {
        s.take(last_slash(s))
    } else {
        Seq::empty()
    }
}

proof fn lemma_first_slash(s: Seq<char>)
    ensures
        0 <= first_slash(s) <= s.len(),
        forall|i: int| 0 <= i < first_slash(s) ==> s[i] != '/',
        first_slash(s) < s.len() ==> s[first_slash(s)] == '/',
    decreases s.len(),
{
    if s.len() > 0 && s[0] != '/' {
        let t = s.drop_first();
        lemma_first_slash(t);
        assert forall|i: int| 0 <= i < first_slash(s) implies s[i] != '/' by {
            if i > 0 {
                assert(s[i] == t[i - 1]);
            }
        }
    }
}

proof fn lemma_last_slash(s: Seq<char>)
    ensures
        -1 <= last_slash(s) < s.len(),
        forall|i: int| last_slash(s) < i < s.len() ==> s[i] != '/',
        last_slash(s) >= 0 ==> s[last_slash(s)] == '/',
    decreases s.len(),
{
    if s.len() > 0 && s.last() != '/' {
        let t = s.drop_last();
        lemma_last_slash(t);
        assert forall|i: int| last_slash(s) < i < s.len() implies s[i] != '/' by {
            if i < t.len() {
                assert(s[i] == t[i]);
            }
        }
    }
}

/// `s` without pieces at its start that stand for nothing.
pub open spec fn front_trimmed(s: Seq<char>) -> Seq<char>
    decreases s.len(),
    via front_trimmed_decreases
{
    if s.len() > 0 && void_piece(first_piece(s)) {
        front_trimmed(after_piece(s))
    } else {
        s
    }
}

#[via_fn]
proof fn front_trimmed_decreases(s: Seq<char>) {
    lemma_first_slash(s);
}

/// `s` without pieces at its end that stand for nothing.
pub open spec fn back_trimmed(s: Seq<char>) -> Seq<char>
    decreases s.len(),
    via back_trimmed_decreases
{
    if s.len() > 0 && void_piece(last_piece(s)) {
        back_trimmed(before_piece(s))
    } else {
        s
    }
}

#[via_fn]
proof fn back_trimmed_decreases(s: Seq<char>) {
    lemma_last_slash(s);
}

/// What follows the first `n` components that the pieces of `s` stand for.
pub open spec fn after_parts(s: Seq<char>, n: nat) -> Seq<char>
    decreases s.len(),
    via after_parts_decreases
{
    if n == 0 || s.len() == 0 {
        s
    } else if void_piece(first_piece(s)) {
        after_parts(after_piece(s), n)
    } else {
        after_parts(after_piece(s), (n - 1) as nat)
    }
}

#[via_fn]
proof fn after_parts_decreases(s: Seq<char>, n: nat) {
    lemma_first_slash(s);
}

/// The text of `p` behind its first `n` components.
pub open spec fn rest_of(p: Seq<char>, n: nat) -> Seq<char> {
    let h = head_parts(p).len();
    if n == 0 {
        p.take(h as int) + back_trimmed(p.skip(h as int))
    } else {
        back_trimmed(front_trimmed(after_parts(p.skip(h as int), (n - h) as nat)))
    }
}

/// The text of `p` behind `base`, where `p` is `base` or lies under it.
pub open spec fn path_stripped(p: Seq<char>, base: Seq<char>) -> Option<Seq<char>> {
    if lies_under(p, base) {
        Some(rest_of(p, components_of(base).len()))
    } else {
        None
    }
}

fn piece_end(cs: &Vec<char>, from: usize) -> (r: usize)
    requires
        from <= cs@.len(),
    ensures
        r == from + first_slash(cs@.skip(from as int)),
        from <= r <= cs@.len(),
{
    let ghost s = cs@.skip(from as int);
    let mut i: usize = from;
    proof {
        lemma_first_slash(s);
        assert(s.skip(0) == s);
    }
    while i < cs.len() && cs[i] != '/'
        invariant
            from <= i <= cs@.len(),
            s == cs@.skip(from as int),
            first_slash(s) == (i - from) + first_slash(cs@.skip(i as int)),
        decreases cs@.len() - i,
    {
        proof {
            assert(cs@.skip(i as int).drop_first() == cs@.skip(i + 1));
        }
        i = i + 1;
    }
    i
}

fn void_range(cs: &Vec<char>, from: usize, to: usize) -> (r: bool)
    requires
        from <= to <= cs@.len(),
    ensures
        r == void_piece(cs@.subrange(from as int, to as int)),
{
    let ghost s = cs@.subrange(from as int, to as int);
    let r = from == to || (from + 1 == to && cs[from] == '.');
    proof {
        let dot = seq!['.'];
        assert(s.len() == to - from);
        if from + 1 == to {
            assert(s[0] == cs@[from as int]);
            if cs@[from as int] == '.' {
                assert(s =~= dot);
            } else {
                assert(dot[0] == '.');
            }
        } else {
            assert(dot.len() == 1);
        }
    }
    r
}

fn front_void_end(cs: &Vec<char>, from: usize) -> (r: usize)
    requires
        from <= cs@.len(),
    ensures
        from <= r <= cs@.len(),
        cs@.skip(r as int) == front_trimmed(cs@.skip(from as int)),
{
    let mut i: usize = from;
    while i < cs.len()
        invariant
            from <= i <= cs@.len(),
            front_trimmed(cs@.skip(i as int)) == front_trimmed(cs@.skip(from as int)),
        decreases cs@.len() - i,
    {
        let ghost s = cs@.skip(i as int);
        let e = piece_end(cs, i);
        proof {
            lemma_first_slash(s);
            assert(cs@.subrange(i as int, e as int) == first_piece(s));
        }
        if !void_range(cs, i, e) {
            return i;
        }
        if e < cs.len() {
            proof {
                assert(cs@.skip(e + 1) == after_piece(s));
            }
            i = e + 1;
        } else {
            proof {
                assert(cs@.skip(e as int) == after_piece(s));
            }
            i = e;
        }
    }
    proof {
        assert(cs@.skip(i as int) == Seq::<char>::empty());
    }
    i
}

fn back_void_start(cs: &Vec<char>, from: usize) -> (r: usize)
    requires
        from <= cs@.len(),
    ensures
        from <= r <= cs@.len(),
        cs@.subrange(from as int, r as int) == back_trimmed(cs@.skip(from as int)),
{
    let mut to: usize = cs.len();
    proof {
        assert(cs@.subrange(from as int, to as int) == cs@.skip(from as int));
    }
    while from < to
        invariant
            from <= to <= cs@.len(),
            back_trimmed(cs@.subrange(from as int, to as int)) == back_trimmed(
                cs@.skip(from as int),
            ),
        decreases to,
    {
        let ghost s = cs@.subrange(from as int, to as int);
        let mut b: usize = to;
        proof {
            assert(cs@.subrange(from as int, b as int) == s);
        }
        while from < b && cs[b - 1] != '/'
            invariant
                from <= b <= to <= cs@.len(),
                s == cs@.subrange(from as int, to as int),
                last_slash(s) == last_slash(cs@.subrange(from as int, b as int)),
            decreases b,
        {
            proof {
                assert(cs@.subrange(from as int, b as int).drop_last() == cs@.subrange(
                    from as int,
                    b - 1,
                ));
            }
            b = b - 1;
        }
        proof {
            lemma_last_slash(s);
            assert(last_slash(s) == b - from - 1);
            assert(cs@.subrange(b as int, to as int) == last_piece(s));
        }
        if !void_range(cs, b, to) {
            return to;
        }
        if b > from {
            proof {
                assert(cs@.subrange(from as int, b - 1) == before_piece(s));
            }
            to = b - 1;
        } else {
            proof {
                assert(cs@.subrange(from as int, from as int) == before_piece(s));
            }
            to = from;
        }
    }
    proof {
        assert(cs@.subrange(from as int, to as int) == Seq::<char>::empty());
    }
    to
}

fn parts_end(cs: &Vec<char>, from: usize, n: usize) -> (r: usize)
    requires
        from <= cs@.len(),
    ensures
        from <= r <= cs@.len(),
        cs@.skip(r as int) == after_parts(cs@.skip(from as int), n as nat),
{
    let mut i: usize = from;
    let mut left: usize = n;
    while left > 0 && i < cs.len()
        invariant
            from <= i <= cs@.len(),
            after_parts(cs@.skip(i as int), left as nat) == after_parts(
                cs@.skip(from as int),
                n as nat,
            ),
        decreases cs@.len() - i,
    {
        let ghost s = cs@.skip(i as int);
        let e = piece_end(cs, i);
        proof {
            lemma_first_slash(s);
            assert(cs@.subrange(i as int, e as int) == first_piece(s));
            assert(e < cs@.len() ==> cs@.skip(e + 1) == after_piece(s));
            assert(e == cs@.len() ==> cs@.skip(e as int) == after_piece(s));
        }
        if !void_range(cs, i, e) {
            left = left - 1;
        }
        if e < cs.len() {
            i = e + 1;
        } else {
            i = e;
        }
    }
    i
}

/// The text of `p` behind `base`, where `p` is `base` or lies under it.
pub fn strip_prefix(p: &str, base: &str) -> (r: Option<String>)
    ensures
        text::text_option(r) == path_stripped(p@, base@),
{
    let ps = components(p);
    let bs = components(base);
    if !begins_with(&ps, &bs) {
        return None;
    }
    let cs = chars_of(p);
    let n: usize = bs.len();
    proof {
        assert(parts_of(bs@).len() == n);
        assert(parts_of(bs@) == components_of(base@));
    }
    let h: usize = if cs.len() > 0 && (cs[0] == '/' || (cs[0] == '.' && (cs.len() == 1 || cs[1]
        == '/'))) {
        1
    } else {
        0
    };
    if n == 0 {
        let to = back_void_start(&cs, h);
        proof {
            assert(cs@.subrange(0, to as int) == p@.take(h as int) + cs@.subrange(
                h as int,
                to as int,
            ));
        }
        Some(string_range(&cs, 0, to))
    } else {
        let a = parts_end(&cs, h, n - h);
        let from = front_void_end(&cs, a);
        let to = back_void_start(&cs, from);
        Some(string_range(&cs, from, to))
    }
}

/// The names of components, as a relative path spells them.
pub open spec fn part_text(c: Part) -> Seq<char> {
    match c {
        Part::Root => seq!['/'],
        Part::Current => seq!['.'],
        Part::Parent => seq!['.', '.'],
        Part::Normal(s) => s,
    }
}

/// A path without its first component.
pub open spec fn tail_of(p: Seq<char>) -> Seq<char> {
    let ps = components_of(p);
    if ps.len() == 0 {
        Seq::empty()
    } else {
        text::joined(ps.skip(1).map_values(|c: Part| part_text(c)), seq!['/'])
    }
}

fn component_text(c: &Component) -> (r: String)
    ensures
        r@ == part_text(c@),
{
    let mut out = String::new();
    match c {
        Component::Root => {
            out.push('/');
        },
        Component::Current => {
            out.push('.');
        },
        Component::Parent => {
            out.push('.');
            out.push('.');
        },
        Component::Normal(s) => {
            out.append(s.as_str());
        },
    }
    out
}

/// `p` without its first component; empty where it has no more than one.
pub fn skip_first(p: &str) -> (r: String)
    ensures
        r@ == tail_of(p@),
{
    let cs = components(p);
    let mut names: Vec<String> = Vec::new();
    let ghost spell = |c: Part| part_text(c);
    let ghost all = components_of(p@);
    let mut i: usize = 1;
    while i < cs.len()
        invariant
            1 <= i,
            cs@.len() == 0 || i <= cs@.len(),
            all == parts_of(cs@),
            spell == (|c: Part| part_text(c)),
            cs@.len() > 0 ==> text::texts(names@) == all.subrange(1, i as int).map_values(spell),
            cs@.len() == 0 ==> names@.len() == 0,
        decreases cs@.len() - i,
    {
        let ghost before = names@;
        let n = component_text(&cs[i]);
        names.push(n);
        proof {
            assert(all[i as int] == cs@[i as int]@);
            assert(text::texts(names@) == text::texts(before).push(part_text(all[i as int])));
            assert(all.subrange(1, i + 1).map_values(spell) == all.subrange(
                1,
                i as int,
            ).map_values(spell).push(part_text(all[i as int])));
        }
        i = i + 1;
    }
    proof {
        assert(all.len() == cs@.len());
        if cs@.len() > 0 {
            assert(all.subrange(1, i as int) == all.skip(1));
        } else {
            assert(text::texts(names@) == Seq::<Seq<char>>::empty());
        }
    }
    let mut slash = String::new();
    slash.push('/');
    proof {
        assert(slash@ == seq!['/']);
    }
    text::join(&names, slash.as_str())
}

/// The place of a kind of component among the kinds.
pub open spec fn part_rank(c: Part) -> int {
    match c {
        Part::Root => 0,
        Part::Current => 1,
        Part::Parent => 2,
        Part::Normal(_) => 3,
    }
}

/// The order of components: by kind, and names by their text.
pub open spec fn part_le(a: Part, b: Part) -> bool {
    if a is Normal && b is Normal {
        order::lex_le(a->Normal_0, b->Normal_0)
    } else {
        part_rank(a) <= part_rank(b)
    }
}

/// The order of paths: lexicographic, by components.
pub open spec fn parts_le(a: Seq<Part>, b: Seq<Part>) -> bool
    decreases a.len(),
{
    if a.len() == 0 {
        true
    } else if b.len() == 0 {
        false
    } else if a[0] == b[0] {
        parts_le(a.drop_first(), b.drop_first())
    } else {
        part_le(a[0], b[0])
    }
}

proof fn lemma_part_order(a: Part, b: Part)
    ensures
        part_le(a, b) || part_le(b, a),
        part_le(a, b) && part_le(b, a) ==> a == b,
{
    if a is Normal && b is Normal {
        order::lemma_lex_total(a->Normal_0, b->Normal_0);
        if part_le(a, b) && part_le(b, a) {
            order::lemma_lex_antisymmetric(a->Normal_0, b->Normal_0);
        }
    }
}

proof fn lemma_part_transitive(a: Part, b: Part, c: Part)
    requires
        part_le(a, b),
        part_le(b, c),
    ensures
        part_le(a, c),
{
    if a is Normal && b is Normal && c is Normal {
        order::lemma_lex_transitive(a->Normal_0, b->Normal_0, c->Normal_0);
    }
}

proof fn lemma_parts_total(a: Seq<Part>, b: Seq<Part>)
    ensures
        parts_le(a, b) || parts_le(b, a),
    decreases a.len(),
{
    if a.len() > 0 && b.len() > 0 {
        lemma_part_order(a[0], b[0]);
        if a[0] == b[0] {
            lemma_parts_total(a.drop_first(), b.drop_first());
        }
    }
}

proof fn lemma_parts_transitive(a: Seq<Part>, b: Seq<Part>, c: Seq<Part>)
    requires
        parts_le(a, b),
        parts_le(b, c),
    ensures
        parts_le(a, c),
    decreases a.len(),
{
    if a.len() > 0 && b.len() > 0 && c.len() > 0 {
        lemma_part_order(a[0], b[0]);
        lemma_part_order(b[0], c[0]);
        if a[0] == b[0] && b[0] == c[0] {
            lemma_parts_transitive(a.drop_first(), b.drop_first(), c.drop_first());
        } else if part_le(a[0], b[0]) && part_le(b[0], c[0]) {
            lemma_part_transitive(a[0], b[0], c[0]);
        }
    }
}

/// A path, for sorting: paths are in the order of their components.
pub struct PathKey {
    pub path: String,
}

fn component_in_order(a: &Component, b: &Component) -> (r: bool)
    ensures
        r == part_le(a@, b@),
{
    match (a, b) {
        (Component::Normal(x), Component::Normal(y)) => text_le(x.as_str(), y.as_str()),
        (Component::Root, _) => true,
        (_, Component::Root) => false,
        (Component::Current, _) => true,
        (_, Component::Current) => false,
        (Component::Parent, _) => true,
        (_, Component::Parent) => false,
    }
}

fn parts_in_order(x: &Vec<Component>, y: &Vec<Component>) -> (r: bool)
    ensures
        r == parts_le(parts_of(x@), parts_of(y@)),
{
    let ghost a = parts_of(x@);
    let ghost b = parts_of(y@);
    let mut i: usize = 0;
    proof {
        assert(a.skip(0) == a);
        assert(b.skip(0) == b);
    }
    while i < x.len() && i < y.len()
        invariant
            a == parts_of(x@),
            b == parts_of(y@),
            i <= a.len(),
            i <= b.len(),
            parts_le(a, b) == parts_le(a.skip(i as int), b.skip(i as int)),
        decreases a.len() - i,
    {
        proof {
            assert(a[i as int] == x@[i as int]@);
            assert(b[i as int] == y@[i as int]@);
            assert(a.skip(i as int).drop_first() == a.skip(i + 1));
            assert(b.skip(i as int).drop_first() == b.skip(i + 1));
        }
        if !part_eq(&x[i], &y[i]) {
            return component_in_order(&x[i], &y[i]);
        }
        i = i + 1;
    }
    i == x.len()
}

impl Ranked for PathKey {
    open spec fn not_after(self, other: Self) -> bool {
        parts_le(components_of(self.path@), components_of(other.path@))
    }

    proof fn lemma_total(a: Self, b: Self) {
        lemma_parts_total(components_of(a.path@), components_of(b.path@));
    }

    proof fn lemma_transitive(a: Self, b: Self, c: Self) {
        lemma_parts_transitive(
            components_of(a.path@),
            components_of(b.path@),
            components_of(c.path@),
        );
    }

    fn in_order(&self, other: &Self) -> (r: bool) {
        parts_in_order(&components(self.path.as_str()), &components(other.path.as_str()))
    }
}

/// Whether `name` is one name: a single component, and neither `.` nor `..`.
pub open spec fn plain_name(name: Seq<char>) -> bool {
    &&& !void_piece(name)
    &&& name != seq!['.', '.']
    &&& !name.contains('/')
}

proof fn lemma_split_join(a: Seq<char>, b: Seq<char>)
    ensures
        text::split_by(a.push('/') + b, |c: char| c == '/') == text::split_by(
            a,
            |c: char| c == '/',
        ) + text::split_by(b, |c: char| c == '/'),
        text::split_by(b, |c: char| c == '/').len() > 0,
    decreases b.len(),
{
    let sep = |c: char| c == '/';
    let t = a.push('/') + b;
    if b.len() == 0 {
        assert(t =~= a.push('/'));
        assert(t.drop_last() =~= a);
    } else {
        lemma_split_join(a, b.drop_last());
        assert(t.drop_last() =~= a.push('/') + b.drop_last());
        let x = text::split_by(a, sep);
        let y = text::split_by(b.drop_last(), sep);
        if b.last() == '/' {
            assert((x + y).push(Seq::<char>::empty()) =~= x + y.push(Seq::<char>::empty()));
        } else {
            assert((x + y).drop_last() =~= x + y.drop_last());
            assert((x + y).last() == y.last());
            let z = y.last().push(b.last());
            assert((x + y).drop_last().push(z) =~= x + y.drop_last().push(z));
        }
    }
}

proof fn lemma_split_plain(name: Seq<char>)
    requires
        !name.contains('/'),
    ensures
        text::split_by(name, |c: char| c == '/') == seq![name],
    decreases name.len(),
{
    if name.len() == 0 {
        assert(name =~= Seq::<char>::empty());
    } else {
        let t = name.drop_last();
        assert forall|i: int| 0 <= i < t.len() implies t[i] != '/' by {
            assert(name.contains(name[i]));
        }
        lemma_split_plain(t);
        assert(name.contains(name.last()));
        assert(t.push(name.last()) =~= name);
        assert(seq![t].drop_last().push(t.push(name.last())) =~= seq![name]);
    }
}

/// Joining one name to a path appends one component to it.
pub proof fn law_join_name(base: Seq<char>, name: Seq<char>)
    requires
        base.len() > 0,
        plain_name(name),
    ensures
        components_of(path_joined(base, name)) == components_of(base).push(Part::Normal(name)),
{
    let sep = |c: char| c == '/';
    let keep = |s: Seq<char>| !void_piece(s);
    let spell = |s: Seq<char>| part_of_piece(s);
    assert(name.contains(name[0]));
    lemma_split_plain(name);
    let one = seq![name];
    assert(one.filter(keep) == one) by {
        reveal_with_fuel(Seq::filter, 2);
        assert(one.drop_last() =~= Seq::<Seq<char>>::empty());
        assert(Seq::<Seq<char>>::empty().push(name) =~= one);
    }
    let stem = if base.last() == '/' {
        base.drop_last()
    } else {
        base
    };
    let x = text::split_by(stem, sep);
    assert(path_joined(base, name) =~= stem.push('/') + name);
    lemma_split_join(stem, name);
    Seq::filter_distributes_over_add(x, one, keep);
    assert((x.filter(keep) + one).map_values(spell) =~= x.filter(keep).map_values(spell).push(
        Part::Normal(name),
    ));
    if base.last() == '/' {
        assert(base =~= stem.push('/'));
        assert(text::split_by(base, sep) == x.push(Seq::<char>::empty()));
        assert(x.push(Seq::<char>::empty()).filter(keep) == x.filter(keep)) by {
            reveal(Seq::filter);
            assert(x.push(Seq::<char>::empty()).drop_last() =~= x);
        }
    }
    assert(head_parts(path_joined(base, name)) == head_parts(base));
    assert(components_of(path_joined(base, name)) =~= components_of(base).push(
        Part::Normal(name),
    ));
}

/// What is joined to a path by one name lies under it.
pub proof fn law_join_lies_under(base: Seq<char>, name: Seq<char>)
    requires
        base.len() > 0,
        plain_name(name),
    ensures
        lies_under(path_joined(base, name), base),
        last_name(path_joined(base, name)) == Some(name),
{
    law_join_name(base, name);
    let b = components_of(base);
    assert(b =~= b.push(Part::Normal(name)).subrange(0, b.len() as int));
}

/// A single name is its own last name.
pub proof fn law_name_of_plain_name(name: Seq<char>)
    requires
        plain_name(name),
    ensures
        components_of(name) == seq![Part::Normal(name)],
        last_name(name) == Some(name),
{
    let keep = |s: Seq<char>| !void_piece(s);
    lemma_split_plain(name);
    let one = seq![name];
    assert(one.filter(keep) == one) by {
        reveal_with_fuel(Seq::filter, 2);
        assert(one.drop_last() =~= Seq::<Seq<char>>::empty());
        assert(Seq::<Seq<char>>::empty().push(name) =~= one);
    }
    assert(name.contains(name[0]));
    if leading_dot(name) {
        if name.len() == 1 {
            assert(name =~= seq!['.']);
        } else {
            assert(name.contains(name[1]));
        }
    }
    assert(body_parts(name) =~= seq![Part::Normal(name)]);
    assert(components_of(name) =~= seq![Part::Normal(name)]);
}

proof fn lemma_pieces_without_slash(p: Seq<char>, k: int)
    requires
        0 <= k < text::split_by(p, |c: char| c == '/').len(),
    ensures
        !text::split_by(p, |c: char| c == '/')[k].contains('/'),
    decreases p.len(),
{
    let sep = |c: char| c == '/';
    if p.len() > 0 {
        let front = text::split_by(p.drop_last(), sep);
        if k < front.len() {
            lemma_pieces_without_slash(p.drop_last(), k);
        }
        if p.last() != '/' && k == front.len() - 1 {
            let piece = text::split_by(p, sep)[k];
            assert(piece == front.last().push(p.last()));
            if piece.contains('/') {
                let i = choose|i: int| 0 <= i < piece.len() && piece[i] == '/';
                assert(front.last()[i] == '/');
            }
        }
    }
}

/// The last name of a path is a single name, so that joined to a directory it leads into
/// that directory.
pub proof fn law_last_name_is_plain(p: Seq<char>)
    requires
        last_name(p) is Some,
    ensures
        plain_name(last_name(p)->0),
{
    let keep = |s: Seq<char>| !void_piece(s);
    let pieces = text::split_by(p, |c: char| c == '/');
    let kept = pieces.filter(keep);
    let body = body_parts(p);
    assert(body.len() == kept.len());
    assert(body.len() > 0);
    let piece = kept.last();
    assert(components_of(p).last() == body.last());
    assert(body.last() == part_of_piece(piece));
    order::lemma_filter_from(pieces, keep, kept.len() - 1);
    let k = choose|k: int| 0 <= k < pieces.len() && pieces[k] == piece;
    lemma_pieces_without_slash(p, k);
}

/// Whether some texts are names.
pub open spec fn plain_names(names: Seq<Seq<char>>) -> bool {
    forall|i: int| 0 <= i < names.len() ==> plain_name(#[trigger] names[i])
}

/// The components that some names stand for.
pub open spec fn normal_parts(names: Seq<Seq<char>>) -> Seq<Part> {
    names.map_values(|n: Seq<char>| Part::Normal(n))
}

/// Names that are joined make a path that is not empty and neither starts nor ends with a
/// separator.
pub proof fn lemma_joined_shape(names: Seq<Seq<char>>)
    requires
        plain_names(names),
        names.len() > 0,
    ensures
        text::joined(names, seq!['/']).len() > 0,
        text::joined(names, seq!['/'])[0] != '/',
        text::joined(names, seq!['/']).last() != '/',
    decreases names.len(),
{
    let last = names.last();
    assert(plain_name(names[names.len() - 1]));
    assert(last.contains(last[0]) && last.contains(last.last()));
    if names.len() > 1 {
        let front = names.drop_last();
        assert forall|i: int| 0 <= i < front.len() implies plain_name(#[trigger] front[i]) by {
            assert(front[i] == names[i]);
        }
        lemma_joined_shape(front);
    }
}

/// Names that are joined behind a directory lead down from it, one component for each.
pub proof fn law_join_names(base: Seq<char>, names: Seq<Seq<char>>)
    requires
        base.len() > 0,
        plain_names(names),
        names.len() > 0,
    ensures
        components_of(path_joined(base, text::joined(names, seq!['/']))) == components_of(base)
            + normal_parts(names),
    decreases names.len(),
{
    let all = text::joined(names, seq!['/']);
    let last = names.last();
    assert(plain_name(names[names.len() - 1]));
    assert(last.contains(last[0]));
    lemma_joined_shape(names);
    if names.len() == 1 {
        law_join_name(base, last);
        assert(normal_parts(names) =~= seq![Part::Normal(last)]);
        assert(components_of(base) + seq![Part::Normal(last)] =~= components_of(base).push(
            Part::Normal(last),
        ));
    } else {
        let front = names.drop_last();
        assert forall|i: int| 0 <= i < front.len() implies plain_name(#[trigger] front[i]) by {
            assert(front[i] == names[i]);
        }
        let head = text::joined(front, seq!['/']);
        lemma_joined_shape(front);
        law_join_names(base, front);
        let inner = path_joined(base, head);
        assert(inner.last() == head.last());
        assert(path_joined(inner, last) =~= path_joined(base, all));
        law_join_name(inner, last);
        assert(components_of(base) + normal_parts(names) =~= (components_of(base) + normal_parts(
            front,
        )).push(Part::Normal(last)));
    }
}

/// Names that are joined stand for one component each.
pub proof fn law_joined_names(names: Seq<Seq<char>>)
    requires
        plain_names(names),
        names.len() > 0,
    ensures
        components_of(text::joined(names, seq!['/'])) == normal_parts(names),
    decreases names.len(),
{
    let last = names.last();
    assert(plain_name(names[names.len() - 1]));
    assert(last.contains(last[0]));
    if names.len() == 1 {
        law_name_of_plain_name(last);
        assert(normal_parts(names) =~= seq![Part::Normal(last)]);
    } else {
        let front = names.drop_last();
        assert forall|i: int| 0 <= i < front.len() implies plain_name(#[trigger] front[i]) by {
            assert(front[i] == names[i]);
        }
        let head = text::joined(front, seq!['/']);
        lemma_joined_shape(front);
        law_joined_names(front);
        assert(path_joined(head, last) =~= text::joined(names, seq!['/']));
        law_join_name(head, last);
        assert(normal_parts(names) =~= normal_parts(front).push(Part::Normal(last)));
    }
}

/// A path of names without the first one is the path of the others.
pub proof fn law_tail_of_names(names: Seq<Seq<char>>)
    requires
        plain_names(names),
        names.len() > 0,
    ensures
        tail_of(text::joined(names, seq!['/'])) == text::joined(names.skip(1), seq!['/']),
{
    law_joined_names(names);
    let spell = |c: Part| part_text(c);
    assert(normal_parts(names).skip(1).map_values(spell) =~= names.skip(1));
}

/// Different relative paths make different paths behind one directory.
pub proof fn lemma_join_injective(base: Seq<char>, a: Seq<char>, b: Seq<char>)
    requires
        !absolute(a),
        !absolute(b),
    ensures
        path_joined(base, a) == path_joined(base, b) ==> a == b,
{
    let n = if base.len() == 0 || base.last() == '/' {
        base.len() as int
    } else {
        base.len() as int + 1
    };
    assert(path_joined(base, a).skip(n) =~= a);
    assert(path_joined(base, b).skip(n) =~= b);
}

/// Components without the current directory in front.
pub open spec fn down_parts(ps: Seq<Part>) -> Seq<Part> {
    if ps.len() > 0 && ps[0] is Current {
        ps.skip(1)
    } else {
        ps
    }
}

/// The shortest paths: the empty one has no component, and the root, the current and the
/// parent directory one each.
pub proof fn law_short_paths()
    ensures
        components_of(Seq::empty()) == Seq::<Part>::empty(),
        components_of(seq!['/']) == seq![Part::Root],
        components_of(seq!['.']) == seq![Part::Current],
        components_of(seq!['.', '.']) == seq![Part::Parent],
{
    let keep = |s: Seq<char>| !void_piece(s);
    let none = Seq::<char>::empty();
    text::law_split_without_separator(none, '/');
    text::law_split_without_separator(seq!['.'], '/');
    text::law_split_without_separator(seq!['.', '.'], '/');
    text::law_split_at_separator(none, '/', none);
    assert(none.push('/') + none =~= seq!['/']);
    assert(seq![none] + seq![none] =~= seq![none, none]);
    reveal_with_fuel(Seq::filter, 3);
    assert(seq![none].drop_last() =~= Seq::<Seq<char>>::empty());
    assert(seq![none, none].drop_last() =~= seq![none]);
    assert(seq![seq!['.']].drop_last() =~= Seq::<Seq<char>>::empty());
    assert(seq![seq!['.', '.']].drop_last() =~= Seq::<Seq<char>>::empty());
    assert(components_of(none) =~= Seq::<Part>::empty());
    assert(components_of(seq!['/']) =~= seq![Part::Root]);
    assert(components_of(seq!['.']) =~= seq![Part::Current]);
    assert(components_of(seq!['.', '.']) =~= seq![Part::Parent]);
}

proof fn lemma_body_not_current(p: Seq<char>)
    ensures
        forall|i: int|
            0 <= i < body_parts(p).len() ==> (#[trigger] body_parts(p)[i]) is Parent
                || body_parts(p)[i] is Normal,
        !absolute(p) ==> body_parts(p) == down_parts(components_of(p)),
{
    let b = body_parts(p);
    if leading_dot(p) {
        assert((seq![Part::Current] + b).skip(1) =~= b);
    } else {
        assert(Seq::<Part>::empty() + b =~= b);
    }
}

/// The current directory is no component but the first.
pub proof fn lemma_no_current_inside(p: Seq<char>)
    ensures
        forall|i: int|
            1 <= i < components_of(p).len() ==> !((#[trigger] components_of(p)[i]) is Current),
{
    lemma_body_not_current(p);
    let h = head_parts(p).len() as int;
    assert forall|i: int| 1 <= i < components_of(p).len() implies !(
    (#[trigger] components_of(p)[i]) is Current) by {
        assert(components_of(p)[i] == body_parts(p)[i - h]);
    }
}

proof fn lemma_body_join(a: Seq<char>, b: Seq<char>)
    ensures
        body_parts(a.push('/') + b) == body_parts(a) + body_parts(b),
{
    let sep = |c: char| c == '/';
    let keep = |s: Seq<char>| !void_piece(s);
    let spell = |s: Seq<char>| part_of_piece(s);
    lemma_split_join(a, b);
    let x = text::split_by(a, sep);
    let y = text::split_by(b, sep);
    Seq::filter_distributes_over_add(x, y, keep);
    assert((x.filter(keep) + y.filter(keep)).map_values(spell) =~= x.filter(keep).map_values(spell)
        + y.filter(keep).map_values(spell));
}

/// A relative path behind a directory leads on from there: its components, but for a current
/// directory in front, follow those of the directory. An absolute path stays what it is.
pub proof fn law_join(base: Seq<char>, p: Seq<char>)
    requires
        base.len() > 0,
    ensures
        p.len() > 0 && p[0] == '/' ==> path_joined(base, p) == p,
        p.len() == 0 || p[0] != '/' ==> components_of(path_joined(base, p)) == components_of(base)
            + down_parts(components_of(p)),
{
    if !absolute(p) {
        let joined = path_joined(base, p);
        lemma_body_not_current(p);
        if base.last() == '/' {
            let stem = base.drop_last();
            assert(base =~= stem.push('/') + Seq::<char>::empty());
            assert(joined =~= stem.push('/') + p);
            lemma_body_join(stem, p);
            lemma_body_join(stem, Seq::empty());
            law_short_paths();
            assert(body_parts(Seq::<char>::empty()) =~= Seq::<Part>::empty()) by {
                lemma_body_not_current(Seq::empty());
            }
            assert(body_parts(base) =~= body_parts(stem));
        } else {
            lemma_body_join(base, p);
        }
        assert(joined[0] == base[0]);
        if base.len() > 1 {
            assert(joined[1] == base[1]);
        }
        assert(head_parts(joined) == head_parts(base));
        assert(components_of(joined) =~= components_of(base) + down_parts(components_of(p)));
    }
}

/// A name is cut before its last dot that has something before it, and nothing is lost.
pub proof fn law_stem_and_extension(stem: Seq<char>, ext: Seq<char>)
    requires
        stem.len() > 0,
        !ext.contains('.'),
    ensures
        stem_of(stem.push('.') + ext) == stem,
        dotted_extension_of(stem.push('.') + ext) == seq!['.'] + ext,
{
    let name = stem.push('.') + ext;
    assert(name.skip(stem.len() as int + 1) =~= ext);
    lemma_dot_position(name, stem.len() as int, name.len() as int);
    assert(name.take(stem.len() as int) =~= stem);
    assert(name.skip(stem.len() as int) =~= seq!['.'] + ext);
}

/// A name without a dot behind its first character has no extension.
pub proof fn law_no_extension(name: Seq<char>)
    requires
        forall|i: int| 1 <= i < name.len() ==> #[trigger] name[i] != '.',
    ensures
        stem_of(name) == name,
        dotted_extension_of(name) == Seq::<char>::empty(),
{
    lemma_no_dot(name, name.len() as int);
}

proof fn lemma_dot_position(name: Seq<char>, at: int, k: int)
    requires
        0 < at <= k,
        at < name.len(),
        name[at] == '.',
        !name.skip(at + 1).contains('.'),
    ensures
        dot_position(name, k) == Some(at),
    decreases k,
{
    if k > at {
        if k < name.len() {
            assert(name.skip(at + 1)[k - at - 1] == name[k]);
            assert(name.skip(at + 1).contains(name[k]));
        }
        lemma_dot_position(name, at, k - 1);
    }
}

proof fn lemma_no_dot(name: Seq<char>, k: int)
    requires
        forall|i: int| 1 <= i < name.len() ==> #[trigger] name[i] != '.',
    ensures
        dot_position(name, k) is None,
    decreases k,
{
    if k > 0 {
        lemma_no_dot(name, k - 1);
    }
}

proof fn lemma_body_first(s: Seq<char>)
    ensures
        body_parts(s) == if void_piece(first_piece(s)) {
            body_parts(after_piece(s))
        } else {
            seq![part_of_piece(first_piece(s))] + body_parts(after_piece(s))
        },
{
    let keep = |x: Seq<char>| !void_piece(x);
    let spell = |x: Seq<char>| part_of_piece(x);
    lemma_first_slash(s);
    let n = first_slash(s);
    let f = first_piece(s);
    assert(!f.contains('/')) by {
        if f.contains('/') {
            let i = choose|i: int| 0 <= i < f.len() && f[i] == '/';
            assert(s[i] == '/');
        }
    }
    lemma_split_plain(f);
    reveal_with_fuel(Seq::filter, 2);
    assert(seq![f].drop_last() =~= Seq::<Seq<char>>::empty());
    let one = body_parts(f);
    if void_piece(f) {
        assert(one =~= Seq::<Part>::empty());
    } else {
        assert(one =~= seq![part_of_piece(f)]);
    }
    if n < s.len() {
        assert(s =~= f.push('/') + after_piece(s));
        lemma_body_join(f, after_piece(s));
    } else {
        assert(s =~= f);
        lemma_body_not_current(Seq::empty());
        law_short_paths();
        assert(body_parts(after_piece(s)) =~= Seq::<Part>::empty());
    }
    assert(body_parts(s) =~= if void_piece(f) {
        body_parts(after_piece(s))
    } else {
        seq![part_of_piece(f)] + body_parts(after_piece(s))
    });
}

proof fn lemma_body_last(s: Seq<char>)
    requires
        void_piece(last_piece(s)),
    ensures
        body_parts(s) == body_parts(before_piece(s)),
{
    lemma_last_slash(s);
    let l = last_piece(s);
    assert(!l.contains('/')) by {
        if l.contains('/') {
            let i = choose|i: int| 0 <= i < l.len() && l[i] == '/';
            assert(s[i + last_slash(s) + 1] == '/');
        }
    }
    lemma_split_plain(l);
    reveal_with_fuel(Seq::filter, 2);
    assert(seq![l].drop_last() =~= Seq::<Seq<char>>::empty());
    assert(body_parts(l) =~= Seq::<Part>::empty());
    if last_slash(s) >= 0 {
        assert(s =~= before_piece(s).push('/') + l);
        lemma_body_join(before_piece(s), l);
        assert(body_parts(s) =~= body_parts(before_piece(s)));
    } else {
        assert(s =~= l);
        lemma_body_not_current(Seq::empty());
        law_short_paths();
        assert(body_parts(before_piece(s)) =~= Seq::<Part>::empty());
    }
}

proof fn lemma_front_trimmed(s: Seq<char>)
    ensures
        body_parts(front_trimmed(s)) == body_parts(s),
        front_trimmed(s).len() > 0 ==> !void_piece(first_piece(front_trimmed(s))),
    decreases s.len(),
{
    lemma_first_slash(s);
    if s.len() > 0 && void_piece(first_piece(s)) {
        lemma_body_first(s);
        lemma_front_trimmed(after_piece(s));
    }
}

proof fn lemma_back_trimmed(s: Seq<char>)
    ensures
        body_parts(back_trimmed(s)) == body_parts(s),
        back_trimmed(s).is_prefix_of(s),
        back_trimmed(s).len() > 0 ==> !void_piece(last_piece(back_trimmed(s))),
    decreases s.len(),
{
    lemma_last_slash(s);
    if s.len() > 0 && void_piece(last_piece(s)) {
        lemma_body_last(s);
        lemma_back_trimmed(before_piece(s));
        let r = back_trimmed(s);
        assert(before_piece(s).is_prefix_of(s));
        assert(r =~= s.take(r.len() as int));
    }
}

proof fn lemma_after_parts(s: Seq<char>, n: nat)
    requires
        n <= body_parts(s).len(),
    ensures
        body_parts(after_parts(s, n)) == body_parts(s).skip(n as int),
    decreases s.len(),
{
    lemma_first_slash(s);
    if n == 0 {
        assert(body_parts(s).skip(0) =~= body_parts(s));
    } else if s.len() == 0 {
        lemma_body_not_current(Seq::empty());
        law_short_paths();
        assert(s =~= Seq::<char>::empty());
    } else if void_piece(first_piece(s)) {
        lemma_body_first(s);
        lemma_after_parts(after_piece(s), n);
    } else {
        lemma_body_first(s);
        lemma_after_parts(after_piece(s), (n - 1) as nat);
        assert(body_parts(s).skip(n as int) =~= body_parts(after_piece(s)).skip(n - 1));
    }
}

/// What is left of a path behind a directory it lies under has the components that the path
/// has beyond those of the directory, so joined to the directory it is the path again.
/// Nothing is left exactly of paths that lie elsewhere.
pub proof fn law_stripped(p: Seq<char>, base: Seq<char>)
    requires
        components_of(base).len() > 0,
    ensures
        path_stripped(p, base) is Some <==> components_of(base).is_prefix_of(components_of(p)),
        path_stripped(p, base) matches Some(r) ==> components_of(r) == components_of(p).skip(
            components_of(base).len() as int,
        ) && (r.len() == 0 || r[0] != '/'),
{
    if lies_under(p, base) {
        let n = components_of(base).len();
        let h = head_parts(p).len();
        let s = p.skip(h as int);
        lemma_body_not_current(p);
        // The pieces behind the head stand for the same components as those of the path.
        assert(body_parts(s) == body_parts(p)) by {
            if h == 1 {
                lemma_body_first(p);
                lemma_first_slash(p);
                if absolute(p) {
                    assert(first_slash(p) == 0);
                    assert(first_piece(p) =~= Seq::<char>::empty());
                    assert(after_piece(p) =~= s);
                } else {
                    assert(p[0] == '.');
                    if p.len() == 1 {
                        assert(first_slash(p) == 1);
                        assert(first_piece(p) =~= seq!['.']);
                        assert(after_piece(p) =~= s);
                    } else {
                        assert(p[1] == '/');
                        assert(first_slash(p) == 1);
                        assert(first_piece(p) =~= seq!['.']);
                        lemma_body_first(s);
                        lemma_first_slash(s);
                        assert(s[0] == '/');
                        assert(first_piece(s) =~= Seq::<char>::empty());
                        assert(after_piece(s) =~= after_piece(p));
                    }
                }
            } else {
                assert(s =~= p);
            }
        }
        assert(components_of(p).len() == h + body_parts(p).len());
        let m = (n - h) as nat;
        let x = after_parts(s, m);
        let y = front_trimmed(x);
        let r = back_trimmed(y);
        lemma_after_parts(s, m);
        lemma_front_trimmed(x);
        lemma_back_trimmed(y);
        assert(body_parts(r) == body_parts(p).skip(m as int));
        assert(components_of(p).skip(n as int) =~= body_parts(p).skip(m as int));
        if r.len() > 0 {
            lemma_first_slash(y);
            assert(r[0] == y[0]);
            assert(r[0] != '/') by {
                if y[0] == '/' {
                    assert(first_slash(y) == 0);
                }
            }
            if leading_dot(r) {
                if r.len() == 1 {
                    lemma_last_slash(r);
                    assert(last_piece(r) =~= seq!['.']);
                } else {
                    assert(y[1] == r[1]);
                    assert(first_slash(y) == 1) by {
                        assert(y[1] == '/' && y[0] != '/');
                    }
                    assert(first_piece(y) =~= seq!['.']);
                }
            }
        }
        assert(head_parts(r) =~= Seq::<Part>::empty());
        assert(components_of(r) =~= body_parts(r));
    }
}

/// A path with the root among its first components is absolute.
pub proof fn lemma_root_is_absolute(p: Seq<char>)
    requires
        components_of(p).len() > 0,
        components_of(p)[0] == Part::Root,
    ensures
        p.len() > 0 && p[0] == '/',
{
    lemma_body_not_current(p);
    if !absolute(p) && !leading_dot(p) {
        assert(components_of(p)[0] == body_parts(p)[0]);
    }
}

/// Paths are ordered by the first component in which they differ, and a path comes before
/// what lies under it.
pub proof fn law_path_order(p: Seq<Part>, a: Part, x: Seq<Part>, b: Part, y: Seq<Part>)
    ensures
        a != b ==> (parts_le(p.push(a) + x, p.push(b) + y) <==> part_le(a, b)),
        parts_le(p, p + x),
        x.len() > 0 ==> !parts_le(p + x, p),
    decreases p.len(),
{
    if p.len() == 0 {
        assert(p.push(a) + x =~= seq![a] + x);
        assert(p.push(b) + y =~= seq![b] + y);
        assert(p + x =~= x);
    } else {
        law_path_order(p.drop_first(), a, x, b, y);
        assert((p.push(a) + x).drop_first() =~= p.drop_first().push(a) + x);
        assert((p.push(b) + y).drop_first() =~= p.drop_first().push(b) + y);
        assert((p + x).drop_first() =~= p.drop_first() + x);
    }
}

} // verus!
