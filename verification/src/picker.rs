//! The picker: filtering, moving, choosing, and what it shows.

use vstd::prelude::*;

use crate::fuzzy;
use crate::gather::{self, Cand, CandView, FileMeta, Origin};
use crate::herdr;
use crate::order::{self, Ranked};
use crate::path::{self, PathKey};
use crate::text::{self, chars_of};
use crate::util;

verus! {

/// The state of the picker.
pub struct App {
    /// All candidates.
    pub all: Vec<Cand>,
    /// Those that fit the query, the best first.
    pub shown: Vec<usize>,
    pub query: String,
    /// The place in `shown` that is highlighted.
    pub cursor: usize,
    /// The paths that are chosen.
    pub selected: Vec<String>,
    /// The directory that the picker starts from.
    pub base: String,
    /// The candidate for the query itself, where it fits nothing but is a path.
    pub typed: Option<Cand>,
}

/// A candidate that fits the query.
pub struct Scored {
    pub score: u32,
    pub mtime_ms: u64,
    pub index: usize,
}

impl Ranked for Scored {
    open spec fn not_after(self, other: Self) -> bool {
        self.score < other.score || (self.score == other.score && self.mtime_ms >= other.mtime_ms)
    }

    proof fn lemma_total(a: Self, b: Self) {
    }

    proof fn lemma_transitive(a: Self, b: Self, c: Self) {
    }

    fn in_order(&self, other: &Self) -> (r: bool) {
        self.score < other.score || (self.score == other.score && self.mtime_ms
            >= other.mtime_ms)
    }
}

/// The candidates that have a score.
pub open spec fn scored(all: Seq<Cand>, scores: Seq<Option<u32>>) -> Seq<Scored>
    decreases scores.len(),
{
    if scores.len() == 0 {
        Seq::empty()
    } else {
        let front = scored(all, scores.drop_last());
        let i = scores.len() - 1;
        match scores.last() {
            Some(score) => front.push(
                Scored { score, mtime_ms: all[i].mtime_ms, index: i as usize },
            ),
            None => front,
        }
    }
}

/// The places of the candidates that have a score: the least first, and of those with the
/// same score what was modified last.
pub open spec fn ranking(all: Seq<Cand>, scores: Seq<Option<u32>>) -> Seq<usize> {
    order::sorted(scored(all, scores)).map_values(|s: Scored| s.index)
}

/// How well the candidates fit a query.
pub open spec fn scores_of(all: Seq<Cand>, query: Seq<char>) -> Seq<Option<u32>> {
    all.map_values(|c: Cand| fuzzy::fuzzy_fit(query, c.rel@))
}

/// The candidates in the order in which they are shown, by how well they fit.
pub fn rank(all: &Vec<Cand>, scores: &Vec<Option<u32>>) -> (r: Vec<usize>)
    requires
        scores@.len() == all@.len(),
    ensures
        r@ == ranking(all@, scores@),
{
    let mut found: Vec<Scored> = Vec::new();
    for i in 0..scores.len()
        invariant
            scores@.len() == all@.len(),
            found@ == scored(all@, scores@.take(i as int)),
    {
        proof {
            assert(scores@.take(i + 1).drop_last() == scores@.take(i as int));
        }
        if let Some(score) = scores[i] {
            found.push(Scored { score, mtime_ms: all[i].mtime_ms, index: i });
        }
    }
    proof {
        assert(scores@.take(scores@.len() as int) == scores@);
    }
    let best = order::sort(found);
    let ghost of = |s: Scored| s.index;
    let mut out: Vec<usize> = Vec::new();
    for i in 0..best.len()
        invariant
            of == |s: Scored| s.index,
            out@ == best@.take(i as int).map_values(of),
    {
        out.push(best[i].index);
        proof {
            assert(best@.take(i + 1).map_values(of) == best@.take(i as int).map_values(of).push(
                of(best@[i as int]),
            ));
        }
    }
    proof {
        assert(best@.take(best@.len() as int) == best@);
    }
    out
}

/// Whether `look` has said `m` of the path `p`.
pub open spec fn looked<F: Fn(&str) -> Option<FileMeta>>(
    look: F,
    p: Seq<char>,
    m: Option<FileMeta>,
) -> bool {
    exists|s: &str| s@ == p && #[trigger] call_ensures(look, (s,), m)
}

/// The candidate for a path that was typed, if something lies there.
pub open spec fn typed_cand(base: Seq<char>, p: Seq<char>, m: Option<FileMeta>) -> Option<CandView> {
    match m {
        Some(m) => Some(gather::cand_at(base, p, Origin::Typed, m)),
        None => None,
    }
}

/// What an optional candidate says.
pub open spec fn cand_option(c: Option<Cand>) -> Option<CandView> {
    match c {
        Some(c) => Some(c@),
        None => None,
    }
}

/// The path that a query is, by itself.
pub open spec fn query_path(base: Seq<char>, query: Seq<char>, home: Seq<char>) -> Seq<char> {
    herdr::path_from(base, text::trimmed(text::trimmed(query)), home)
}

/// Whether `typed` is what a query comes to that fits nothing, by what `look` says of it.
pub open spec fn is_typed<F: Fn(&str) -> Option<FileMeta>>(
    base: Seq<char>,
    query: Seq<char>,
    home: Seq<char>,
    look: F,
    typed: Option<Cand>,
) -> bool {
    if text::trimmed(query).len() == 0 {
        typed is None
    } else {
        exists|m: Option<FileMeta>|
            #[trigger] looked(look, query_path(base, query, home), m) && cand_option(typed)
                == typed_cand(base, query_path(base, query, home), m)
    }
}

/// Whether `p` is among some paths, under whatever spelling.
pub open spec fn holds_path(paths: Seq<String>, p: Seq<char>) -> bool {
    exists|i: int| 0 <= i < paths.len() && path::same_path((#[trigger] paths[i])@, p)
}

/// Whether some paths are different.
pub open spec fn paths_differ(paths: Seq<String>) -> bool {
    forall|i: int, j: int|
        0 <= i < j < paths.len() ==> !path::same_path(
            (#[trigger] paths[i])@,
            (#[trigger] paths[j])@,
        )
}

/// The paths in their order.
pub open spec fn in_path_order(paths: Seq<String>) -> Seq<String> {
    order::sorted(paths.map_values(|p: String| PathKey { path: p })).map_values(
        |k: PathKey| k.path,
    )
}

impl App {
    /// Whether the highlight is on a candidate that is shown, as long as one is; and a path
    /// is chosen once at most.
    pub open spec fn wf(self) -> bool {
        &&& forall|i: int| 0 <= i < self.shown@.len() ==> (#[trigger] self.shown@[i]) < self.all@.len()
        &&& if self.shown@.len() == 0 {
            self.cursor == 0
        } else {
            self.cursor < self.shown@.len() && self.typed is None
        }
        &&& paths_differ(self.selected@)
    }

    /// The candidate that is highlighted.
    pub open spec fn highlighted(self) -> Option<Cand> {
        if self.typed is Some {
            self.typed
        } else if self.cursor < self.shown@.len() {
            Some(self.all@[self.shown@[self.cursor as int] as int])
        } else {
            None
        }
    }

    /// What is sent: the chosen paths in their order, or else the highlighted one.
    pub open spec fn aims(self) -> Seq<String> {
        if self.selected@.len() > 0 {
            in_path_order(self.selected@)
        } else {
            match self.highlighted() {
                Some(c) => seq![c.path],
                None => seq![],
            }
        }
    }

    /// A picker without a query that offers `all`; it has to be filtered.
    pub fn new(all: Vec<Cand>, base: String) -> (r: App)
        ensures
            r.wf(),
            r.all@ == all@,
            r.base == base,
            r.query@.len() == 0,
            r.shown@.len() == 0,
            r.selected@.len() == 0,
            r.typed is None,
    {
        App {
            all,
            shown: Vec::new(),
            query: String::new(),
            cursor: 0,
            selected: Vec::new(),
            base,
            typed: None,
        }
    }

    /// Finds out what fits the query, and highlights the best. Where nothing fits, the query
    /// itself may be a path, of which `look` says what lies there.
    pub fn refilter<F: Fn(&str) -> Option<FileMeta>>(&mut self, home: &str, look: F)
        requires
            old(self).wf(),
            forall|s: &str| call_requires(look, (s,)),
        ensures
            final(self).wf(),
            final(self).all@ == old(self).all@,
            final(self).query == old(self).query,
            final(self).selected@ == old(self).selected@,
            final(self).base == old(self).base,
            final(self).cursor == 0,
            final(self).shown@ == ranking(
                old(self).all@,
                scores_of(old(self).all@, old(self).query@),
            ),
            final(self).shown@.len() > 0 ==> final(self).typed is None,
            final(self).shown@.len() == 0 ==> is_typed(
                old(self).base@,
                old(self).query@,
                home@,
                look,
                final(self).typed,
            ),
    {
        let mut scores: Vec<Option<u32>> = Vec::new();
        for i in 0..self.all.len()
            invariant
                *self == *old(self),
                scores@ == scores_of(self.all@, self.query@).take(i as int),
        {
            scores.push(fuzzy::fuzzy(self.query.as_str(), self.all[i].rel.as_str()));
        }
        proof {
            assert(scores@ == scores_of(self.all@, self.query@));
            lemma_ranking_places(self.all@, scores@);
        }
        let shown = rank(&self.all, &scores);
        let mut typed: Option<Cand> = None;
        let token = text::trim(self.query.as_str());
        if shown.len() == 0 && !token.as_str().is_empty() {
            let p = herdr::resolve(
                self.base.as_str(),
                text::trim(token.as_str()).as_str(),
                home,
            );
            let meta = look(p.as_str());
            proof {
                assert(looked(look, query_path(self.base@, self.query@, home@), meta));
            }
            typed = gather::make_cand(self.base.as_str(), p, Origin::Typed, meta);
        }
        self.shown = shown;
        self.typed = typed;
        self.cursor = 0;
    }

    /// The candidate that is highlighted.
    pub fn current(&self) -> (r: Option<Cand>)
        requires
            self.wf(),
        ensures
            r == self.highlighted(),
    {
        if let Some(t) = &self.typed {
            return Some(t.clone());
        }
        if self.cursor < self.shown.len() {
            Some(self.all[self.shown[self.cursor]].clone())
        } else {
            None
        }
    }

    /// What is sent: the chosen paths in their order, or else the highlighted one.
    pub fn targets(&self) -> (r: Vec<String>)
        requires
            self.wf(),
        ensures
            r@ == self.aims(),
    {
        if self.selected.len() > 0 {
            return sort_paths(&self.selected);
        }
        match self.current() {
            Some(c) => vec![c.path],
            None => vec![],
        }
    }
}

/// The paths in their order.
fn sort_paths(paths: &Vec<String>) -> (r: Vec<String>)
    ensures
        r@ == in_path_order(paths@),
{
    let ghost key = |p: String| PathKey { path: p };
    let mut keys: Vec<PathKey> = Vec::new();
    for i in 0..paths.len()
        invariant
            key == (|p: String| PathKey { path: p }),
            keys@ == paths@.take(i as int).map_values(key),
    {
        keys.push(PathKey { path: paths[i].clone() });
        proof {
            assert(paths@.take(i + 1).map_values(key) == paths@.take(i as int).map_values(key).push(
                key(paths@[i as int]),
            ));
        }
    }
    proof {
        assert(paths@.take(paths@.len() as int) == paths@);
    }
    let sorted = order::sort(keys);
    let ghost of = |k: PathKey| k.path;
    let mut out: Vec<String> = Vec::new();
    for i in 0..sorted.len()
        invariant
            of == |k: PathKey| k.path,
            out@ == sorted@.take(i as int).map_values(of),
    {
        out.push(sorted[i].path.clone());
        proof {
            assert(sorted@.take(i + 1).map_values(of) == sorted@.take(i as int).map_values(of).push(
                of(sorted@[i as int]),
            ));
        }
    }
    proof {
        assert(sorted@.take(sorted@.len() as int) == sorted@);
    }
    out
}

proof fn lemma_scored_places(all: Seq<Cand>, scores: Seq<Option<u32>>)
    requires
        scores.len() <= all.len(),
        all.len() <= usize::MAX,
    ensures
        forall|k: int|
            0 <= k < scored(all, scores).len() ==> (#[trigger] scored(all, scores)[k]).index
                < scores.len(),
    decreases scores.len(),
{
    if scores.len() > 0 {
        let front = scored(all, scores.drop_last());
        lemma_scored_places(all, scores.drop_last());
        assert forall|k: int| 0 <= k < scored(all, scores).len() implies (#[trigger] scored(
            all,
            scores,
        )[k]).index < scores.len() by {
            if k < front.len() {
                assert(scored(all, scores)[k] == front[k]);
            }
        }
    }
}

proof fn lemma_ranking_places(all: Seq<Cand>, scores: Seq<Option<u32>>)
    requires
        scores.len() == all.len(),
        all.len() <= usize::MAX,
    ensures
        forall|k: int|
            0 <= k < ranking(all, scores).len() ==> (#[trigger] ranking(all, scores)[k])
                < all.len(),
{
    broadcast use vstd::seq_lib::group_to_multiset_ensures;

    let found = scored(all, scores);
    lemma_scored_places(all, scores);
    order::law_sorted(found);
    assert forall|k: int| 0 <= k < ranking(all, scores).len() implies (#[trigger] ranking(
        all,
        scores,
    )[k]) < all.len() by {
        let s = order::sorted(found)[k];
        assert(order::sorted(found).to_multiset().count(s) > 0);
        assert(found.to_multiset().count(s) > 0);
        assert(found.contains(s));
    }
}

/// A key.
#[derive(Clone, Copy, Debug, PartialEq, Eq)]
pub enum Key {
    Esc,
    Enter,
    Tab,
    Up,
    Down,
    Backspace,
    Char(char),
    Other,
}

/// What is held down with a key.
#[derive(Clone, Copy, Debug, PartialEq, Eq, Structural)]
pub enum Mods {
    /// Not the control key.
    NoControl,
    /// The control key, and nothing else.
    Control,
    /// The control key, and more.
    ControlAndMore,
}

/// What a key press means.
#[derive(Clone, Copy, Debug, PartialEq, Eq)]
pub enum Action {
    /// End without sending.
    Cancel,
    /// Send, if there is anything to send.
    Send,
    /// Choose the highlighted candidate, or give it up, and go to the next.
    Toggle,
    Up,
    Down,
    /// Take the last character from the query.
    Erase,
    /// Empty the query.
    Clear,
    /// Append a character to the query.
    Type(char),
    Nothing,
}

/// What a key press means.
pub open spec fn meaning(key: Key, mods: Mods) -> Action {
    match key {
        Key::Esc => Action::Cancel,
        Key::Enter => Action::Send,
        Key::Tab => Action::Toggle,
        Key::Up => Action::Up,
        Key::Down => Action::Down,
        Key::Backspace => Action::Erase,
        Key::Char(c) => if mods == Mods::NoControl {
            Action::Type(c)
        } else if mods == Mods::ControlAndMore {
            Action::Nothing
        } else if c == 'c' {
            Action::Cancel
        } else if c == 'p' {
            Action::Up
        } else if c == 'n' {
            Action::Down
        } else if c == 'u' {
            Action::Clear
        } else {
            Action::Nothing
        },
        Key::Other => Action::Nothing,
    }
}

/// What a key press means.
pub fn action_for(key: Key, mods: Mods) -> (r: Action)
    ensures
        r == meaning(key, mods),
{
    match key {
        Key::Esc => Action::Cancel,
        Key::Enter => Action::Send,
        Key::Tab => Action::Toggle,
        Key::Up => Action::Up,
        Key::Down => Action::Down,
        Key::Backspace => Action::Erase,
        Key::Char(c) => match mods {
            Mods::NoControl => Action::Type(c),
            Mods::ControlAndMore => Action::Nothing,
            Mods::Control => match c {
                'c' => Action::Cancel,
                'p' => Action::Up,
                'n' => Action::Down,
                'u' => Action::Clear,
                _ => Action::Nothing,
            },
        },
        Key::Other => Action::Nothing,
    }
}

/// What comes of a key press.
pub enum Outcome {
    /// The picker stays open.
    Stay,
    /// The picker ends without sending.
    Cancel,
    /// The picker ends, and these paths are sent.
    Send(Vec<String>),
}

/// Some paths with `p` put in, or taken out if it is among them.
pub open spec fn toggled(paths: Seq<String>, p: String) -> Seq<String> {
    if holds_path(paths, p@) {
        paths.filter(|q: String| !path::same_path(q@, p@))
    } else {
        paths.push(p)
    }
}

/// The query behind an action that changes it.
pub open spec fn edited(query: Seq<char>, a: Action) -> Seq<char> {
    match a {
        Action::Erase => if query.len() > 0 {
            query.drop_last()
        } else {
            query
        },
        Action::Clear => Seq::empty(),
        Action::Type(c) => query.push(c),
        _ => query,
    }
}

/// Whether an action changes the query.
pub open spec fn edits(a: Action) -> bool {
    a is Erase || a is Clear || a is Type
}

/// The highlight behind an action that does not change the query.
pub open spec fn moved(app: App, a: Action) -> int {
    if a is Up {
        if app.cursor > 0 {
            app.cursor - 1
        } else {
            0
        }
    } else if a is Down || (a is Toggle && app.highlighted() is Some) {
        if app.cursor + 1 < app.shown@.len() {
            app.cursor + 1
        } else {
            app.cursor as int
        }
    } else {
        app.cursor as int
    }
}

/// The chosen paths behind an action.
pub open spec fn chosen(app: App, a: Action) -> Seq<String> {
    match a {
        Action::Toggle => match app.highlighted() {
            Some(c) => toggled(app.selected@, c.path),
            None => app.selected@,
        },
        _ => app.selected@,
    }
}

/// Puts `p` in, or takes it out if it is there.
fn toggle_path(paths: &mut Vec<String>, p: String)
    requires
        paths_differ(old(paths)@),
    ensures
        final(paths)@ == toggled(old(paths)@, p),
        paths_differ(final(paths)@),
{
    let ghost keep = |q: String| !path::same_path(q@, p@);
    let mut rest: Vec<String> = Vec::new();
    let mut held = false;
    for i in 0..paths.len()
        invariant
            keep == |q: String| !path::same_path(q@, p@),
            paths@ == old(paths)@,
            rest@ == paths@.take(i as int).filter(keep),
            held == exists|j: int|
                0 <= j < i && path::same_path((#[trigger] paths@[j])@, p@),
    {
        proof {
            assert(paths@.take(i + 1).drop_last() == paths@.take(i as int));
            reveal(Seq::filter);
        }
        if path::path_eq(paths[i].as_str(), p.as_str()) {
            held = true;
        } else {
            rest.push(paths[i].clone());
        }
    }
    proof {
        assert(paths@.take(paths@.len() as int) == paths@);
        lemma_toggled_differ(paths@, p);
    }
    if held {
        *paths = rest;
    } else {
        paths.push(p);
    }
}

proof fn lemma_filter_differ(paths: Seq<String>, keep: spec_fn(String) -> bool)
    requires
        paths_differ(paths),
    ensures
        paths_differ(paths.filter(keep)),
    decreases paths.len(),
{
    reveal(Seq::filter);
    if paths.len() > 0 {
        let front = paths.drop_last();
        assert forall|i: int, j: int| 0 <= i < j < front.len() implies !path::same_path(
            (#[trigger] front[i])@,
            (#[trigger] front[j])@,
        ) by {
            assert(front[i] == paths[i] && front[j] == paths[j]);
        }
        lemma_filter_differ(front, keep);
        let kept = paths.filter(keep);
        let inner = front.filter(keep);
        assert forall|i: int, j: int| 0 <= i < j < kept.len() implies !path::same_path(
            (#[trigger] kept[i])@,
            (#[trigger] kept[j])@,
        ) by {
            assert(kept[i] == inner[i]);
            if j < inner.len() {
                assert(kept[j] == inner[j]);
            } else {
                order::lemma_filter_from(front, keep, i);
                let k = choose|k: int| 0 <= k < front.len() && front[k] == inner[i];
                assert(paths[k] == kept[i]);
                assert(paths[paths.len() - 1] == kept[j]);
            }
        }
    }
}

proof fn lemma_toggled_differ(paths: Seq<String>, p: String)
    requires
        paths_differ(paths),
    ensures
        paths_differ(toggled(paths, p)),
{
    lemma_filter_differ(paths, |q: String| !path::same_path(q@, p@));
    if !holds_path(paths, p@) {
        assert forall|i: int, j: int| 0 <= i < j < paths.push(p).len() implies !path::same_path(
            (#[trigger] paths.push(p)[i])@,
            (#[trigger] paths.push(p)[j])@,
        ) by {
            if j == paths.len() {
                assert(!path::same_path(paths[i]@, p@));
            }
        }
    }
}

impl App {
    /// Does what a key press means.
    pub fn on_action<F: Fn(&str) -> Option<FileMeta>>(
        &mut self,
        a: Action,
        home: &str,
        look: F,
    ) -> (r: Outcome)
        requires
            old(self).wf(),
            forall|s: &str| call_requires(look, (s,)),
        ensures
            final(self).wf(),
            final(self).all@ == old(self).all@,
            final(self).base == old(self).base,
            final(self).selected@ == chosen(*old(self), a),
            final(self).query@ == edited(old(self).query@, a),
            !edits(a) ==> {
                &&& final(self).cursor == moved(*old(self), a)
                &&& final(self).shown@ == old(self).shown@
                &&& final(self).typed == old(self).typed
            },
            edits(a) ==> {
                &&& final(self).cursor == 0
                &&& final(self).shown@ == ranking(
                    old(self).all@,
                    scores_of(old(self).all@, final(self).query@),
                )
                &&& final(self).shown@.len() > 0 ==> final(self).typed is None
                &&& final(self).shown@.len() == 0 ==> is_typed(
                    old(self).base@,
                    final(self).query@,
                    home@,
                    look,
                    final(self).typed,
                )
            },
            match r {
                Outcome::Stay => !(a is Cancel) && (a is Send ==> old(self).aims().len() == 0),
                Outcome::Cancel => a is Cancel,
                Outcome::Send(paths) => a is Send && paths@ == old(self).aims() && paths@.len() > 0,
            },
    {
        match a {
            Action::Cancel => {
                return Outcome::Cancel;
            },
            Action::Send => {
                let t = self.targets();
                if t.len() > 0 {
                    return Outcome::Send(t);
                }
            },
            Action::Toggle => {
                if let Some(c) = self.current() {
                    toggle_path(&mut self.selected, c.path);
                    if self.shown.len() > 0 && self.cursor < self.shown.len() - 1 {
                        self.cursor = self.cursor + 1;
                    }
                }
            },
            Action::Up => {
                if self.cursor > 0 {
                    self.cursor = self.cursor - 1;
                }
            },
            Action::Down => {
                if self.shown.len() > 0 && self.cursor < self.shown.len() - 1 {
                    self.cursor = self.cursor + 1;
                }
            },
            Action::Erase => {
                let cs = chars_of(self.query.as_str());
                if cs.len() > 0 {
                    self.query = text::string_range(&cs, 0, cs.len() - 1);
                    proof {
                        assert(self.query@ == old(self).query@.drop_last());
                    }
                }
                self.refilter(home, look);
            },
            Action::Clear => {
                self.query = String::new();
                proof {
                    assert(self.query@ == Seq::<char>::empty());
                }
                self.refilter(home, look);
            },
            Action::Type(c) => {
                self.query.push(c);
                self.refilter(home, look);
            },
            Action::Nothing => {},
        }
        Outcome::Stay
    }
}

/// The size of a candidate as it is shown.
pub open spec fn size_shown(c: CandView) -> Seq<char> {
    if c.is_dir {
        "dir"@
    } else {
        util::size_text(c.size as nat)
    }
}

fn size_of(c: &Cand) -> (r: String)
    ensures
        r@ == size_shown(c@),
{
    if c.is_dir {
        "dir".to_owned()
    } else {
        util::human_size(c.size)
    }
}

/// A line of the picker, in parts that look different.
pub struct Row {
    pub mark: String,
    pub rel: String,
    pub info: String,
    pub tag: String,
}

/// What a line of the picker says.
pub struct RowView {
    pub mark: Seq<char>,
    pub rel: Seq<char>,
    pub info: Seq<char>,
    pub tag: Seq<char>,
}

impl View for Row {
    type V = RowView;

    open spec fn view(&self) -> RowView {
        RowView { mark: self.mark@, rel: self.rel@, info: self.info@, tag: self.tag@ }
    }
}

/// The line for a candidate with the sign `glyph`, at `now`.
pub open spec fn row_of(c: CandView, chosen: bool, glyph: Seq<char>, now: u64) -> RowView {
    RowView {
        mark: (if chosen {
            "●"@
        } else {
            " "@
        }) + " "@ + glyph + " "@,
        rel: c.rel,
        info: "  "@ + size_shown(c) + "  "@ + util::age_text(now, c.mtime_ms) + "  "@,
        tag: c.origin.tag_text(),
    }
}

/// The line for a candidate with the sign `glyph`, at `now`.
pub fn row_with(c: &Cand, chosen: bool, glyph: &str, now: u64) -> (r: Row)
    ensures
        r@ == row_of(c@, chosen, glyph@, now),
{
    let mut mark = if chosen {
        "●".to_owned()
    } else {
        " ".to_owned()
    };
    mark.append(" ");
    mark.append(glyph);
    mark.append(" ");
    let mut info = "  ".to_owned();
    info.append(size_of(c).as_str());
    info.append("  ");
    info.append(util::age_at(now, c.mtime_ms).as_str());
    info.append("  ");
    proof {
        assert(mark@ == row_of(c@, chosen, glyph@, now).mark);
    }
    Row { mark, rel: c.rel.clone(), info, tag: c.origin.tag().to_owned() }
}

/// The line for a candidate, at `now`.
pub open spec fn row_text(c: CandView, chosen: bool, now: u64) -> RowView {
    row_of(
        c,
        chosen,
        gather::glyph_text(c.is_dir, c.rel, crate::outside::mime_of(c.rel)),
        now,
    )
}

/// The line for a candidate, at `now`.
pub fn row(c: &Cand, chosen: bool, now: u64) -> (r: Row)
    ensures
        r@ == row_text(c@, chosen, now),
{
    row_with(c, chosen, c.glyph(), now)
}

/// What some lines say.
pub open spec fn row_views(v: Seq<Row>) -> Seq<RowView> {
    v.map_values(|r: Row| r@)
}

/// The line for the `i`th candidate of a picker.
pub open spec fn app_row(app: App, i: usize, now: u64) -> RowView {
    let c = app.all@[i as int];
    row_text(c@, holds_path(app.selected@, c.path@), now)
}

/// What the picker says where nothing fits the query.
pub const NO_MATCHES: &'static str = "  no matches — type a path";

impl App {
    /// Whether a path is chosen.
    fn is_chosen(&self, p: &str) -> (r: bool)
        ensures
            r == holds_path(self.selected@, p@),
    {
        for i in 0..self.selected.len()
            invariant
                forall|j: int|
                    0 <= j < i ==> !path::same_path((#[trigger] self.selected@[j])@, p@),
        {
            if path::path_eq(self.selected[i].as_str(), p) {
                return true;
            }
        }
        false
    }

    /// The lines of the picker at `now`: the path that was typed, or what fits the query.
    pub fn rows(&self, now: u64) -> (r: Vec<Row>)
        requires
            self.wf(),
        ensures
            row_views(r@) == match self.typed {
                Some(t) => seq![row_text(t@, false, now)],
                None => self.shown@.map_values(|i: usize| app_row(*self, i, now)),
            },
    {
        let mut out: Vec<Row> = Vec::new();
        if let Some(t) = &self.typed {
            out.push(row(t, false, now));
            proof {
                assert(row_views(out@) == seq![row_text(t@, false, now)]);
            }
            return out;
        }
        let ghost line = |i: usize| app_row(*self, i, now);
        for k in 0..self.shown.len()
            invariant
                self.wf(),
                line == |i: usize| app_row(*self, i, now),
                row_views(out@) == self.shown@.take(k as int).map_values(line),
        {
            let ghost before = out@;
            let c = &self.all[self.shown[k]];
            out.push(row(c, self.is_chosen(c.path.as_str()), now));
            proof {
                assert(row_views(out@) == row_views(before).push(line(self.shown@[k as int])));
                assert(self.shown@.take(k + 1).map_values(line) == self.shown@.take(
                    k as int,
                ).map_values(line).push(line(self.shown@[k as int])));
            }
        }
        proof {
            assert(self.shown@.take(self.shown@.len() as int) == self.shown@);
        }
        out
    }

    /// The line of the picker that is highlighted.
    pub fn highlight(&self) -> (r: Option<usize>)
        ensures
            r == if self.shown@.len() == 0 {
                None
            } else {
                Some(self.cursor)
            },
    {
        if self.shown.len() == 0 {
            None
        } else {
            Some(self.cursor)
        }
    }

    /// What the last line of the picker says.
    pub fn help(&self) -> (r: String)
        ensures
            r@ == if self.selected@.len() > 0 {
                "Enter send "@ + text::dec(self.selected@.len())
                    + " selected  Tab toggle  Esc cancel"@
            } else {
                "Enter send  Tab multi-select  ↑↓ move  Esc cancel"@
            },
    {
        let n = self.selected.len();
        if n > 0 {
            let mut s = "Enter send ".to_owned();
            text::push_dec(&mut s, n as u64);
            s.append(" selected  Tab toggle  Esc cancel");
            s
        } else {
            "Enter send  Tab multi-select  ↑↓ move  Esc cancel".to_owned()
        }
    }

    /// The first line of the picker, in parts that look different.
    pub fn header(&self) -> (r: Vec<String>)
        ensures
            text::texts(r@) == seq!["ferry "@, self.base@, "  › "@, self.query@, "▏"@],
    {
        let r = crate::command::owned(
            &vec!["ferry ", self.base.as_str(), "  › ", self.query.as_str(), "▏"],
        );
        proof {
            assert(text::texts(r@) == seq!["ferry "@, self.base@, "  › "@, self.query@, "▏"@]);
        }
        r
    }
}

/// The line of a plain list for a candidate, at `now`.
pub open spec fn list_text(c: CandView, now: u64) -> Seq<char> {
    c.origin.text() + "\t"@ + c.rel + "\t"@ + size_shown(c) + "\t"@ + util::age_text(
        now,
        c.mtime_ms,
    )
}

fn list_line(c: &Cand, now: u64) -> (r: String)
    ensures
        r@ == list_text(c@, now),
{
    let mut s = c.origin.as_str().to_owned();
    s.append("\t");
    s.append(c.rel.as_str());
    s.append("\t");
    s.append(size_of(c).as_str());
    s.append("\t");
    s.append(util::age_at(now, c.mtime_ms).as_str());
    s
}

/// The lines of a plain list of candidates, at `now`.
pub fn list_lines(base: &str, all: &Vec<Cand>, now: u64) -> (r: Vec<String>)
    ensures
        text::texts(r@) == seq!["base: "@ + base@] + all@.map_values(
            |c: Cand| list_text(c@, now),
        ),
{
    let ghost line = |c: Cand| list_text(c@, now);
    let mut first = "base: ".to_owned();
    first.append(base);
    let mut out: Vec<String> = Vec::new();
    out.push(first);
    proof {
        assert(text::texts(out@) == seq!["base: "@ + base@] + all@.take(0).map_values(line));
    }
    for i in 0..all.len()
        invariant
            line == |c: Cand| list_text(c@, now),
            text::texts(out@) == seq!["base: "@ + base@] + all@.take(i as int).map_values(line),
    {
        let ghost before = out@;
        out.push(list_line(&all[i], now));
        proof {
            assert(text::texts(out@) == text::texts(before).push(line(all@[i as int])));
            assert(all@.take(i + 1).map_values(line) == all@.take(i as int).map_values(line).push(
                line(all@[i as int]),
            ));
        }
    }
    proof {
        assert(all@.take(all@.len() as int) == all@);
    }
    out
}

/// What is said of a path that the picker has sent.
pub fn sent_line(path: &str, id: &str) -> (r: String)
    ensures
        r@ == "queued "@ + path@ + " → "@ + id@,
{
    let mut s = "queued ".to_owned();
    s.append(path);
    s.append(" → ");
    s.append(id);
    s
}

proof fn lemma_scored_contains(all: Seq<Cand>, scores: Seq<Option<u32>>, i: int)
    requires
        0 <= i < scores.len(),
        scores.len() <= all.len(),
        all.len() <= usize::MAX,
        scores[i] is Some,
    ensures
        scored(all, scores).contains(
            (Scored { score: scores[i]->0, mtime_ms: all[i].mtime_ms, index: i as usize }),
        ),
    decreases scores.len(),
{
    let front = scored(all, scores.drop_last());
    let want = Scored { score: scores[i]->0, mtime_ms: all[i].mtime_ms, index: i as usize };
    if i < scores.len() - 1 {
        lemma_scored_contains(all, scores.drop_last(), i);
        let k = choose|k: int| 0 <= k < front.len() && front[k] == want;
        assert(scored(all, scores)[k] == want);
    } else {
        assert(scored(all, scores).last() == want);
    }
}

proof fn lemma_scored_faithful(all: Seq<Cand>, scores: Seq<Option<u32>>, k: int)
    requires
        0 <= k < scored(all, scores).len(),
        scores.len() <= all.len(),
        all.len() <= usize::MAX,
    ensures
        ({
            let x = scored(all, scores)[k];
            x.index < scores.len() && scores[x.index as int] == Some(x.score) && x.mtime_ms
                == all[x.index as int].mtime_ms
        }),
    decreases scores.len(),
{
    let front = scored(all, scores.drop_last());
    if k < front.len() {
        lemma_scored_faithful(all, scores.drop_last(), k);
        assert(scored(all, scores)[k] == front[k]);
    }
}

proof fn lemma_sorted_contains<T: Ranked>(s: Seq<T>, x: T)
    ensures
        s.contains(x) <==> order::sorted(s).contains(x),
{
    broadcast use vstd::seq_lib::group_to_multiset_ensures;

    order::law_sorted(s);
    assert(s.contains(x) <==> s.to_multiset().count(x) > 0);
    assert(order::sorted(s).contains(x) <==> order::sorted(s).to_multiset().count(x) > 0);
}

/// A candidate is shown exactly if it fits the query.
pub proof fn law_shown_if_it_fits(all: Seq<Cand>, scores: Seq<Option<u32>>, i: int)
    requires
        0 <= i < all.len(),
        scores.len() == all.len(),
        all.len() <= usize::MAX,
    ensures
        ranking(all, scores).contains(i as usize) <==> scores[i] is Some,
{
    let found = scored(all, scores);
    let best = order::sorted(found);
    if scores[i] is Some {
        let want = Scored { score: scores[i]->0, mtime_ms: all[i].mtime_ms, index: i as usize };
        lemma_scored_contains(all, scores, i);
        lemma_sorted_contains(found, want);
        let k = choose|k: int| 0 <= k < best.len() && best[k] == want;
        assert(ranking(all, scores)[k] == i as usize);
    }
    if ranking(all, scores).contains(i as usize) {
        let k = choose|k: int|
            0 <= k < ranking(all, scores).len() && ranking(all, scores)[k] == i as usize;
        let x = best[k];
        lemma_sorted_contains(found, x);
        assert(best.contains(x));
        let j = choose|j: int| 0 <= j < found.len() && found[j] == x;
        lemma_scored_faithful(all, scores, j);
    }
}

/// What is shown first fits the query best, and was modified last among what fits it as
/// well.
pub proof fn law_best_is_first(all: Seq<Cand>, scores: Seq<Option<u32>>, i: int)
    requires
        0 <= i < all.len(),
        scores.len() == all.len(),
        all.len() <= usize::MAX,
        scores[i] is Some,
    ensures
        ({
            let r = ranking(all, scores);
            let best = r[0] as int;
            &&& r.len() > 0
            &&& best < all.len()
            &&& scores[best] is Some
            &&& scores[best]->0 <= scores[i]->0
            &&& scores[best] == scores[i] ==> all[best].mtime_ms >= all[i].mtime_ms
        }),
{
    let found = scored(all, scores);
    let best = order::sorted(found);
    let want = Scored { score: scores[i]->0, mtime_ms: all[i].mtime_ms, index: i as usize };
    lemma_scored_contains(all, scores, i);
    lemma_sorted_contains(found, want);
    let k = choose|k: int| 0 <= k < best.len() && best[k] == want;
    order::law_sorted(found);
    if k > 0 {
        assert(best[0].not_after(best[k]));
    }
    let x = best[0];
    assert(best.contains(x));
    lemma_sorted_contains(found, x);
    let j = choose|j: int| 0 <= j < found.len() && found[j] == x;
    lemma_scored_faithful(all, scores, j);
    assert(ranking(all, scores)[0] == x.index);
}

/// Without a query everything is shown, and what was modified last is highlighted.
pub proof fn law_latest_is_highlighted(all: Seq<Cand>, i: int)
    requires
        0 <= i < all.len(),
        all.len() <= usize::MAX,
    ensures
        ({
            let r = ranking(all, scores_of(all, Seq::empty()));
            &&& r.contains(i as usize)
            &&& r.len() > 0
            &&& r[0] < all.len()
            &&& all[r[0] as int].mtime_ms >= all[i].mtime_ms
        }),
{
    let scores = scores_of(all, Seq::empty());
    assert forall|k: int| 0 <= k < all.len() implies scores[k] == Some(0u32) by {
        fuzzy::law_empty_query_fits_all(all[k].rel@);
    }
    law_shown_if_it_fits(all, scores, i);
    law_best_is_first(all, scores, i);
}

/// Choosing a candidate and giving it up again leaves the same paths chosen.
pub proof fn law_toggle_undoes_itself(paths: Seq<String>, p: String, q: Seq<char>)
    ensures
        holds_path(toggled(paths, p), q) <==> (if path::same_path(q, p@) {
            !holds_path(paths, p@)
        } else {
            holds_path(paths, q)
        }),
        holds_path(toggled(toggled(paths, p), p), q) <==> holds_path(paths, q),
{
    lemma_toggled_holds(paths, p, q);
    lemma_toggled_holds(paths, p, p@);
    lemma_toggled_holds(toggled(paths, p), p, q);
    if path::same_path(q, p@) {
        lemma_holds_same(paths, q, p@);
    }
}

proof fn lemma_holds_same(paths: Seq<String>, p: Seq<char>, q: Seq<char>)
    requires
        path::same_path(p, q),
    ensures
        holds_path(paths, p) == holds_path(paths, q),
{
    if holds_path(paths, p) {
        let i = choose|i: int| 0 <= i < paths.len() && path::same_path((#[trigger] paths[i])@, p);
        assert(path::same_path(paths[i]@, q));
    }
    if holds_path(paths, q) {
        let i = choose|i: int| 0 <= i < paths.len() && path::same_path((#[trigger] paths[i])@, q);
        assert(path::same_path(paths[i]@, p));
    }
}

proof fn lemma_toggled_holds(paths: Seq<String>, p: String, q: Seq<char>)
    ensures
        holds_path(toggled(paths, p), q) <==> (if path::same_path(q, p@) {
            !holds_path(paths, p@)
        } else {
            holds_path(paths, q)
        }),
{
    let keep = |x: String| !path::same_path(x@, p@);
    let after = toggled(paths, p);
    if holds_path(paths, p@) {
        lemma_filter_holds(paths, p@, q);
    } else {
        assert(after == paths.push(p));
        if holds_path(after, q) {
            let i = choose|i: int|
                0 <= i < after.len() && path::same_path((#[trigger] after[i])@, q);
            if i < paths.len() {
                assert(path::same_path(paths[i]@, q));
                if path::same_path(q, p@) {
                    assert(path::same_path(paths[i]@, p@));
                }
            }
        }
        if holds_path(paths, q) {
            let i = choose|i: int|
                0 <= i < paths.len() && path::same_path((#[trigger] paths[i])@, q);
            assert(after[i] == paths[i]);
        }
        assert(after[paths.len() as int] == p);
    }
}

proof fn lemma_filter_holds(paths: Seq<String>, p: Seq<char>, q: Seq<char>)
    ensures
        holds_path(paths.filter(|x: String| !path::same_path(x@, p)), q) <==> (!path::same_path(
            q,
            p,
        ) && holds_path(paths, q)),
    decreases paths.len(),
{
    let keep = |x: String| !path::same_path(x@, p);
    reveal(Seq::filter);
    if paths.len() > 0 {
        let front = paths.drop_last();
        let last = paths.last();
        lemma_filter_holds(front, p, q);
        assert(paths == front.push(last));
        lemma_push_holds(front, last, q);
        if keep(last) {
            lemma_push_holds(front.filter(keep), last, q);
        }
    }
}

proof fn lemma_push_holds(paths: Seq<String>, x: String, q: Seq<char>)
    ensures
        holds_path(paths.push(x), q) <==> holds_path(paths, q) || path::same_path(x@, q),
{
    let after = paths.push(x);
    if holds_path(after, q) {
        let i = choose|i: int| 0 <= i < after.len() && path::same_path((#[trigger] after[i])@, q);
        if i < paths.len() {
            assert(path::same_path(paths[i]@, q));
        }
    }
    if holds_path(paths, q) {
        let i = choose|i: int| 0 <= i < paths.len() && path::same_path((#[trigger] paths[i])@, q);
        assert(after[i] == paths[i]);
    }
    if path::same_path(x@, q) {
        assert(after[paths.len() as int] == x);
    }
}

/// What is sent are exactly the chosen paths, in their order.
pub proof fn law_targets_are_chosen(paths: Seq<String>)
    ensures
        in_path_order(paths).len() == paths.len(),
        forall|p: String| in_path_order(paths).contains(p) <==> paths.contains(p),
        forall|i: int, j: int|
            0 <= i < j < paths.len() ==> path::parts_le(
                path::components_of((#[trigger] in_path_order(paths)[i])@),
                path::components_of((#[trigger] in_path_order(paths)[j])@),
            ),
{
    let keys = paths.map_values(|p: String| PathKey { path: p });
    let best = order::sorted(keys);
    order::law_sorted(keys);
    assert forall|p: String| in_path_order(paths).contains(p) <==> paths.contains(p) by {
        let key = PathKey { path: p };
        lemma_sorted_contains(keys, key);
        if paths.contains(p) {
            let i = choose|i: int| 0 <= i < paths.len() && paths[i] == p;
            assert(keys[i] == key);
            let k = choose|k: int| 0 <= k < best.len() && best[k] == key;
            assert(in_path_order(paths)[k] == p);
        }
        if in_path_order(paths).contains(p) {
            let k = choose|k: int|
                0 <= k < in_path_order(paths).len() && in_path_order(paths)[k] == p;
            assert(best[k] == key);
            let i = choose|i: int| 0 <= i < keys.len() && keys[i] == key;
            assert(paths[i] == p);
        }
    }
    assert forall|i: int, j: int| 0 <= i < j < paths.len() implies path::parts_le(
        path::components_of((#[trigger] in_path_order(paths)[i])@),
        path::components_of((#[trigger] in_path_order(paths)[j])@),
    ) by {
        assert(best[i].not_after(best[j]));
    }
}

/// What is shown is in order: of any two candidates the one above fits the query at least as
/// well, and was modified no earlier where both fit it as well.
pub proof fn law_shown_in_order(all: Seq<Cand>, scores: Seq<Option<u32>>, a: int, b: int)
    requires
        scores.len() == all.len(),
        all.len() <= usize::MAX,
        0 <= a < b < ranking(all, scores).len(),
    ensures
        ({
            let x = ranking(all, scores)[a] as int;
            let y = ranking(all, scores)[b] as int;
            &&& x < all.len() && y < all.len()
            &&& scores[x] is Some && scores[y] is Some
            &&& scores[x]->0 <= scores[y]->0
            &&& scores[x] == scores[y] ==> all[x].mtime_ms >= all[y].mtime_ms
        }),
{
    let found = scored(all, scores);
    let best = order::sorted(found);
    order::law_sorted(found);
    assert(best[a].not_after(best[b]));
    assert(best.contains(best[a]) && best.contains(best[b]));
    lemma_sorted_contains(found, best[a]);
    lemma_sorted_contains(found, best[b]);
    let i = choose|i: int| 0 <= i < found.len() && found[i] == best[a];
    let j = choose|j: int| 0 <= j < found.len() && found[j] == best[b];
    lemma_scored_faithful(all, scores, i);
    lemma_scored_faithful(all, scores, j);
}

proof fn lemma_scored_indices(all: Seq<Cand>, scores: Seq<Option<u32>>)
    requires
        scores.len() <= all.len(),
        all.len() <= usize::MAX,
    ensures
        forall|i: int, j: int|
            0 <= i < j < scored(all, scores).len() ==> (#[trigger] scored(all, scores)[i]).index < (
            #[trigger] scored(all, scores)[j]).index,
        forall|i: int|
            0 <= i < scored(all, scores).len() ==> (#[trigger] scored(all, scores)[i]).index
                < scores.len(),
    decreases scores.len(),
{
    if scores.len() > 0 {
        lemma_scored_indices(all, scores.drop_last());
        let front = scored(all, scores.drop_last());
        let now = scored(all, scores);
        assert forall|i: int| 0 <= i < now.len() implies (#[trigger] now[i]).index
            < scores.len() by {
            if i < front.len() {
                assert(now[i] == front[i]);
            }
        }
        assert forall|i: int, j: int| 0 <= i < j < now.len() implies (#[trigger] now[i]).index < (
        #[trigger] now[j]).index by {
            assert(now[i] == front[i]);
            if j < front.len() {
                assert(now[j] == front[j]);
            }
        }
    }
}

/// No candidate is shown twice.
pub proof fn law_shown_once(all: Seq<Cand>, scores: Seq<Option<u32>>, a: int, b: int)
    requires
        scores.len() == all.len(),
        all.len() <= usize::MAX,
        0 <= a < b < ranking(all, scores).len(),
    ensures
        ranking(all, scores)[a] != ranking(all, scores)[b],
{
    broadcast use vstd::seq_lib::group_to_multiset_ensures;

    let found = scored(all, scores);
    let best = order::sorted(found);
    lemma_scored_indices(all, scores);
    order::law_sorted(found);
    assert(found.no_duplicates()) by {
        assert forall|i: int, j: int|
            0 <= i < found.len() && 0 <= j < found.len() && i != j implies found[i] != found[j] by {
            if i < j {
                assert(found[i].index < found[j].index);
            } else {
                assert(found[j].index < found[i].index);
            }
        }
    }
    found.lemma_multiset_has_no_duplicates();
    best.lemma_multiset_has_no_duplicates_conv();
    let x = best[a];
    let y = best[b];
    assert(x != y);
    assert(best.contains(x) && best.contains(y));
    lemma_sorted_contains(found, x);
    lemma_sorted_contains(found, y);
    let i = choose|i: int| 0 <= i < found.len() && found[i] == x;
    let j = choose|j: int| 0 <= j < found.len() && found[j] == y;
    if i < j {
        assert(found[i].index < found[j].index);
    } else {
        assert(found[j].index < found[i].index);
    }
}

/// A candidate that holds the query within its first hundred bytes is shown above every one
/// that holds its characters only scattered.
pub proof fn law_whole_is_shown_above_scattered(
    all: Seq<Cand>,
    query: Seq<char>,
    a: int,
    b: int,
    i: int,
)
    requires
        query.len() > 0,
        all.len() <= usize::MAX,
        0 <= a < ranking(all, scores_of(all, query)).len(),
        0 <= b < ranking(all, scores_of(all, query)).len(),
        ({
            let r = ranking(all, scores_of(all, query));
            let q = crate::outside::lowercase(query);
            let x = crate::outside::lowercase(all[r[a] as int].rel@);
            let y = crate::outside::lowercase(all[r[b] as int].rel@);
            &&& r[a] < all.len() && r[b] < all.len()
            &&& fuzzy::first_whole_at(q, x, i)
            &&& vstd::utf8::encode_utf8(x.take(i)).len() < 100
            &&& fuzzy::nowhere_whole(q, y)
            &&& y.len() < 0xffff_ff00
        }),
    ensures
        a < b,
{
    let scores = scores_of(all, query);
    let r = ranking(all, scores);
    let x = all[r[a] as int].rel@;
    let y = all[r[b] as int].rel@;
    fuzzy::law_whole_beats_scattered(query, x, y, i);
    if a == b {
        assert(fuzzy::whole_at(crate::outside::lowercase(query), crate::outside::lowercase(x), i));
    } else if b < a {
        law_shown_in_order(all, scores, b, a);
    }
}

/// What is typed stands at the end of the query, and erasing takes it back.
pub proof fn law_erasing_undoes_typing(query: Seq<char>, c: char)
    ensures
        edited(query, Action::Type(c)) == query.push(c),
        edited(edited(query, Action::Type(c)), Action::Erase) == query,
        edited(query, Action::Clear).len() == 0,
        edited(Seq::empty(), Action::Erase).len() == 0,
{
    assert(query.push(c).drop_last() =~= query);
}

/// The highlight moves by one line, and stays on the first and on the last.
pub proof fn law_highlight_moves_by_one(app: App)
    requires
        app.wf(),
        app.shown@.len() > 0,
    ensures
        app.cursor > 0 ==> moved(app, Action::Up) == app.cursor - 1,
        app.cursor == 0 ==> moved(app, Action::Up) == 0,
        app.cursor + 1 < app.shown@.len() ==> moved(app, Action::Down) == app.cursor + 1,
        app.cursor + 1 == app.shown@.len() ==> moved(app, Action::Down) == app.cursor,
{
}

/// Where nothing is chosen, what is sent is the highlighted candidate alone.
pub proof fn law_highlighted_is_sent(app: App)
    requires
        app.wf(),
        app.selected@.len() == 0,
        app.shown@.len() > 0,
    ensures
        app.aims() == seq![app.all@[app.shown@[app.cursor as int] as int].path],
{
}

/// A line shows the whole path of a candidate.
pub proof fn law_row_shows_the_path(c: CandView, chosen: bool, now: u64)
    ensures
        row_text(c, chosen, now).rel == c.rel,
{
}

/// A query that fits nothing is taken for a path as the send key would take it, without the
/// white space around it.
pub proof fn law_typed_path(
    base: Seq<char>,
    pre: Seq<char>,
    p: Seq<char>,
    post: Seq<char>,
    home: Seq<char>,
)
    requires
        text::all_space(pre),
        text::all_space(post),
        p.len() > 0,
        !text::is_space(p[0]) && !text::is_space(p.last()),
    ensures
        query_path(base, pre + p + post, home) == herdr::path_from(base, p, home),
{
    let none = Seq::<char>::empty();
    text::law_trimmed(pre, p, post);
    text::law_trimmed(none, p, none);
    assert(none + p + none =~= p);
}

/// A typed path is offered exactly if something lies there, and as that path.
pub proof fn law_typed_candidate(base: Seq<char>, p: Seq<char>, m: FileMeta)
    ensures
        typed_cand(base, p, None) is None,
        typed_cand(base, p, Some(m)) matches Some(c) && c.path == p && c.size == m.size
            && c.mtime_ms == m.mtime_ms && c.is_dir == m.is_dir && c.origin == Origin::Typed,
{
}

/// Choosing changes what is chosen by the highlighted path, and nothing else does.
pub proof fn law_choosing(app: App, a: Action, q: Seq<char>)
    ensures
        !(a is Toggle) ==> chosen(app, a) == app.selected@,
        a is Toggle && app.highlighted() is None ==> chosen(app, a) == app.selected@,
        a is Toggle ==> (app.highlighted() matches Some(c) ==> (holds_path(chosen(app, a), q)
            <==> (if path::same_path(q, c.path@) {
            !holds_path(app.selected@, c.path@)
        } else {
            holds_path(app.selected@, q)
        }))),
{
    if let Some(c) = app.highlighted() {
        law_toggle_undoes_itself(app.selected@, c.path, q);
    }
}

/// A path is among others exactly if one of them has the same components.
pub proof fn law_holds_path(paths: Seq<String>, p: Seq<char>)
    ensures
        holds_path(paths, p) <==> exists|i: int|
            0 <= i < paths.len() && path::components_of((#[trigger] paths[i])@)
                == path::components_of(p),
{
    if holds_path(paths, p) {
        let i = choose|i: int| 0 <= i < paths.len() && path::same_path((#[trigger] paths[i])@, p);
        assert(path::components_of(paths[i]@) == path::components_of(p));
    }
    if exists|i: int|
        0 <= i < paths.len() && path::components_of((#[trigger] paths[i])@) == path::components_of(
            p,
        ) {
        let i = choose|i: int|
            0 <= i < paths.len() && path::components_of((#[trigger] paths[i])@)
                == path::components_of(p);
        assert(path::same_path(paths[i]@, p));
    }
}

/// How well the candidates fit a query is how well their shown paths do, each for itself.
pub proof fn law_scores(all: Seq<Cand>, query: Seq<char>, i: int)
    requires
        0 <= i < all.len(),
    ensures
        scores_of(all, query).len() == all.len(),
        scores_of(all, query)[i] == fuzzy::fuzzy_fit(query, all[i].rel@),
{
}

/// What is said of a path that was sent names it whole, with the id that it got.
pub proof fn law_sent_line(p: &str, id: &str, r: String)
    requires
        call_ensures(sent_line, (p, id), r),
    ensures
        ("queued "@ + p@).is_prefix_of(r@),
        id@.is_suffix_of(r@),
{
    let head = "queued "@ + p@;
    assert(head =~= r@.take(head.len() as int));
    assert(id@ =~= r@.skip(r@.len() - id@.len()));
    assert(r@.subrange(r@.len() - id@.len(), r@.len() as int) =~= id@);
}

/// The picker shows a line for each candidate that fits, with its path, its size unless it is
/// a directory, its age, and a mark if it is chosen.
pub proof fn law_rows(app: &App, now: u64, r: Vec<Row>, k: int)
    requires
        call_ensures(App::rows, (app, now), r),
        app.typed is None,
    ensures
        r@.len() == app.shown@.len(),
        0 <= k < r@.len() ==> {
            let c = app.all@[app.shown@[k] as int];
            &&& r@[k].rel@ == c.rel@
            &&& r@[k].mark@.len() > 0 && (r@[k].mark@[0] == '●' <==> holds_path(
                app.selected@,
                c.path@,
            ))
            &&& !c.is_dir ==> ("  "@ + util::size_text(c.size as nat) + "  "@).is_prefix_of(
                r@[k].info@,
            )
            &&& c.is_dir ==> ("  "@ + "dir"@ + "  "@).is_prefix_of(r@[k].info@)
            &&& (util::age_text(now, c.mtime_ms) + "  "@).is_suffix_of(r@[k].info@)
            &&& r@[k].tag@ == c.origin.tag_text()
        },
{
    assert(row_views(r@).len() == r@.len());
    if 0 <= k < r@.len() {
        let i = app.shown@[k];
        let c = app.all@[i as int];
        assert(row_views(r@)[k] == r@[k]@);
        assert(r@[k]@ == app_row(*app, i, now));
        reveal_strlit("●");
        reveal_strlit(" ");
        assert("●"@.len() == 1 && "●"@[0] == '●' && " "@.len() == 1 && " "@[0] == ' ');
        let info = r@[k].info@;
        let head = "  "@ + size_shown(c@) + "  "@;
        assert(head =~= info.take(head.len() as int));
        let tail = util::age_text(now, c.mtime_ms) + "  "@;
        assert(info.subrange(info.len() - tail.len(), info.len() as int) =~= tail);
    }
}

/// A plain list names its base first, then each candidate with its path, its size unless it
/// is a directory, and its age.
pub proof fn law_list_lines(base: &str, all: &Vec<Cand>, now: u64, r: Vec<String>, i: int)
    requires
        call_ensures(list_lines, (base, all, now), r),
    ensures
        r@.len() == all@.len() + 1,
        r@[0]@ == "base: "@ + base@,
        0 <= i < all@.len() ==> {
            let c = all@[i];
            let line = r@[i + 1]@;
            &&& (c.origin.text() + "\t"@ + c.rel@ + "\t"@).is_prefix_of(line)
            &&& !c.is_dir ==> ("\t"@ + util::size_text(c.size as nat) + "\t"@ + util::age_text(
                now,
                c.mtime_ms,
            )).is_suffix_of(line)
            &&& c.is_dir ==> ("\t"@ + "dir"@ + "\t"@ + util::age_text(
                now,
                c.mtime_ms,
            )).is_suffix_of(line)
        },
{
    let lines = all@.map_values(|c: Cand| list_text(c@, now));
    assert(text::texts(r@).len() == r@.len());
    assert(text::texts(r@)[0] == r@[0]@);
    if 0 <= i < all@.len() {
        let c = all@[i];
        let line = r@[i + 1]@;
        assert(text::texts(r@)[i + 1] == line);
        assert(lines[i] == list_text(c@, now));
        let head = c.origin.text() + "\t"@ + c.rel@ + "\t"@;
        assert(head =~= line.take(head.len() as int));
        let tail = "\t"@ + size_shown(c@) + "\t"@ + util::age_text(now, c.mtime_ms);
        assert(line.subrange(line.len() - tail.len(), line.len() as int) =~= tail);
    }
}

/// A character is typed as it is unless it is pressed with the control key, and with the
/// control key nothing is typed.
pub proof fn law_keys(c: char, key: Key, mods: Mods, r: Action)
    requires
        call_ensures(action_for, (key, mods), r),
    ensures
        key == Key::Char(c) && mods == Mods::NoControl ==> r == Action::Type(c),
        mods != Mods::NoControl ==> !(r is Type),
        r is Type ==> key is Char,
        key is Enter <==> r is Send,
        key is Tab <==> r is Toggle,
        key is Backspace <==> r is Erase,
        key is Up ==> r is Up,
        key is Down ==> r is Down,
        key is Esc ==> r is Cancel,
        r is Up && !(key is Up) ==> key == Key::Char('p') && mods != Mods::NoControl,
        r is Down && !(key is Down) ==> key == Key::Char('n') && mods != Mods::NoControl,
        r is Cancel && !(key is Esc) ==> key == Key::Char('c') && mods != Mods::NoControl,
        r is Clear ==> key == Key::Char('u') && mods != Mods::NoControl,
{
}

} // verus!
