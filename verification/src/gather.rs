//! What the picker offers: paths that are selected, mentioned or recently modified.

use vstd::prelude::*;

use crate::order::{self, Ranked};
use crate::outside;
use crate::path::{self, Component};
use crate::text::{self, str_eq};
use crate::util;

verus! {

/// How many lines of the output of a pane are searched for paths.
pub const OUTPUT_LINES: u32 = 300;

/// How far back a file counts as recently modified, in milliseconds.
pub const RECENT_MS: u64 = 1800000;

/// How deep below its start the search for recently modified files goes.
pub const RECENT_DEPTH: usize = 4;

/// How many recently modified files are collected before the search ends.
pub const RECENT_LIMIT: usize = 5000;

/// How many recently modified files are offered.
pub const RECENT_OFFERED: usize = 500;

/// What a path looks like in the output of a pane.
pub const PATH_PATTERN: &'static str =
    r"(?:~|\.{1,2})?/?[\w@%+=.\-]+(?:/[\w@%+=.\-]+)+|[\w@%+=\-]+\.[A-Za-z0-9]{1,6}";

/// Why a path is offered.
#[derive(Clone, Copy, Debug, PartialEq, Eq, Structural)]
pub enum Origin {
    /// It is selected in the pane.
    Selected,
    /// It is mentioned in the output of the pane.
    Mentioned,
    /// It was recently modified.
    Modified,
    /// It was typed into the picker.
    Typed,
}

impl Origin {
    /// The short name of an origin.
    pub open spec fn text(self) -> Seq<char> {
        match self {
            Origin::Selected => "sel"@,
            Origin::Mentioned => "out"@,
            Origin::Modified => "mtime"@,
            Origin::Typed => "typed"@,
        }
    }

    /// The short name of the origin.
    pub fn as_str(&self) -> (r: &'static str)
        ensures
            r@ == self.text(),
    {
        match self {
            Origin::Selected => "sel",
            Origin::Mentioned => "out",
            Origin::Modified => "mtime",
            Origin::Typed => "typed",
        }
    }

    /// What the picker says of an origin.
    pub open spec fn tag_text(self) -> Seq<char> {
        match self {
            Origin::Selected => "selection"@,
            Origin::Mentioned => "mentioned"@,
            Origin::Modified => ""@,
            Origin::Typed => "typed"@,
        }
    }

    /// What the picker says of the origin.
    pub fn tag(&self) -> (r: &'static str)
        ensures
            r@ == self.tag_text(),
    {
        match self {
            Origin::Selected => "selection",
            Origin::Mentioned => "mentioned",
            Origin::Modified => "",
            Origin::Typed => "typed",
        }
    }
}

/// What is known of a file or a directory.
#[derive(Clone, Copy)]
pub struct FileMeta {
    pub size: u64,
    pub mtime_ms: u64,
    pub is_file: bool,
    pub is_dir: bool,
}

/// A path that has been found, and what is known of what lies there.
pub struct Found {
    pub path: String,
    pub meta: Option<FileMeta>,
}

/// A candidate of the picker.
pub struct Cand {
    pub path: String,
    /// The path as it is shown.
    pub rel: String,
    pub size: u64,
    pub mtime_ms: u64,
    pub is_dir: bool,
    pub origin: Origin,
}

/// What a candidate says.
pub struct CandView {
    pub path: Seq<char>,
    pub rel: Seq<char>,
    pub size: u64,
    pub mtime_ms: u64,
    pub is_dir: bool,
    pub origin: Origin,
}

impl View for Cand {
    type V = CandView;

    open spec fn view(&self) -> CandView {
        CandView {
            path: self.path@,
            rel: self.rel@,
            size: self.size,
            mtime_ms: self.mtime_ms,
            is_dir: self.is_dir,
            origin: self.origin,
        }
    }
}

impl Clone for Cand {
    fn clone(&self) -> (r: Cand)
        ensures
            r == *self,
    {
        Cand {
            path: self.path.clone(),
            rel: self.rel.clone(),
            size: self.size,
            mtime_ms: self.mtime_ms,
            is_dir: self.is_dir,
            origin: self.origin,
        }
    }
}

/// The sign of a candidate with the media type `mime`.
pub open spec fn glyph_text(is_dir: bool, rel: Seq<char>, mime: Seq<char>) -> Seq<char> {
    if is_dir {
        "▸"@
    } else if util::image_mime(mime) {
        "🖼"@
    } else if mime == "application/pdf"@ {
        "📄"@
    } else if ".zip"@.is_suffix_of(rel) || ".tar.gz"@.is_suffix_of(rel) || ".tgz"@.is_suffix_of(
        rel,
    ) {
        "📦"@
    } else {
        " "@
    }
}

/// The sign of a candidate that is shown as `rel` and has the media type `mime`.
pub fn glyph_for(is_dir: bool, rel: &str, mime: &str) -> (r: &'static str)
    ensures
        r@ == glyph_text(is_dir, rel@, mime@),
{
    if is_dir {
        return "▸";
    }
    if util::is_image_mime(mime) {
        "🖼"
    } else if str_eq(mime, "application/pdf") {
        "📄"
    } else if text::ends_with(rel, ".zip") || text::ends_with(rel, ".tar.gz") || text::ends_with(
        rel,
        ".tgz",
    ) {
        "📦"
    } else {
        " "
    }
}

impl Cand {
    /// The sign of the candidate.
    pub fn glyph(&self) -> (r: &'static str)
        ensures
            r@ == glyph_text(self.is_dir, self.rel@, outside::mime_of(self.rel@)),
    {
        let mime = util::mime_for(self.rel.as_str());
        glyph_for(self.is_dir, self.rel.as_str(), mime.as_str())
    }
}

/// A path as it is shown by a picker that starts from `base`.
pub open spec fn shown_path(base: Seq<char>, p: Seq<char>) -> Seq<char> {
    match path::path_stripped(p, base) {
        Some(r) => r,
        None => p,
    }
}

/// The candidate for a path of which `m` is known.
pub open spec fn cand_at(base: Seq<char>, p: Seq<char>, origin: Origin, m: FileMeta) -> CandView {
    CandView {
        path: p,
        rel: shown_path(base, p),
        size: m.size,
        mtime_ms: m.mtime_ms,
        is_dir: m.is_dir,
        origin,
    }
}

/// The candidate for the path `p`, if something lies there.
pub fn make_cand(base: &str, p: String, origin: Origin, meta: Option<FileMeta>) -> (r: Option<Cand>)
    ensures
        match meta {
            Some(m) => r matches Some(c) && c@ == cand_at(base@, p@, origin, m),
            None => r is None,
        },
{
    let m = match meta {
        Some(m) => m,
        None => {
            return None;
        },
    };
    let rel = match path::strip_prefix(p.as_str(), base) {
        Some(r) => r,
        None => p.clone(),
    };
    Some(
        Cand {
            path: p,
            rel,
            size: m.size,
            mtime_ms: m.mtime_ms,
            is_dir: m.is_dir,
            origin,
        },
    )
}

/// A path that is offered, and why.
pub struct Offer {
    pub found: Found,
    pub origin: Origin,
}

/// Whether the `i`th offer is for a path that was not offered before, and not for `base`.
pub open spec fn fresh(base: Seq<char>, offers: Seq<Offer>, i: int) -> bool {
    &&& !path::same_path(offers[i].found.path@, base)
    &&& forall|j: int|
        0 <= j < i ==> !path::same_path(
            (#[trigger] offers[j]).found.path@,
            offers[i].found.path@,
        )
}

/// The candidates that some offers lead to.
pub open spec fn taken_up(base: Seq<char>, offers: Seq<Offer>) -> Seq<CandView>
    decreases offers.len(),
{
    if offers.len() == 0 {
        Seq::empty()
    } else {
        let front = taken_up(base, offers.drop_last());
        let last = offers.last();
        match last.found.meta {
            Some(m) => if fresh(base, offers, offers.len() - 1) {
                front.push(cand_at(base, last.found.path@, last.origin, m))
            } else {
                front
            },
            None => front,
        }
    }
}

/// Some paths, offered for one reason.
pub open spec fn offered(found: Seq<Found>, origin: Origin) -> Seq<Offer> {
    found.map_values(|f: Found| Offer { found: f, origin })
}

/// Whether a file or a directory lies at a path.
pub open spec fn usable(f: Found) -> bool {
    f.meta matches Some(m) && (m.is_file || m.is_dir)
}

/// All offers in their order: what is selected, what is mentioned, the latest mention
/// first, and what was recently modified.
pub open spec fn all_offers(
    selected: Seq<Found>,
    mentioned: Seq<Found>,
    modified: Seq<Found>,
) -> Seq<Offer> {
    offered(selected, Origin::Selected) + offered(
        mentioned.filter(|f: Found| usable(f)).reverse(),
        Origin::Mentioned,
    ) + offered(modified, Origin::Modified)
}

/// What some candidates say.
pub open spec fn cand_views(v: Seq<Cand>) -> Seq<CandView> {
    v.map_values(|c: Cand| c@)
}

fn push_offers(offers: &mut Vec<Offer>, found: Vec<Found>, origin: Origin)
    ensures
        final(offers)@ == old(offers)@ + offered(found@, origin),
{
    let ghost all = found@;
    let ghost before = offers@;
    for f in it: found
        invariant
            it.seq() == all,
            offers@ == before + offered(all, origin).take(it.index() as int),
    {
        offers.push(Offer { found: f, origin });
        proof {
            let i = it.index() as int;
            assert(offered(all, origin).take(i + 1) == offered(all, origin).take(i).push(
                offered(all, origin)[i],
            ));
        }
    }
    proof {
        assert(offered(all, origin).take(all.len() as int) == offered(all, origin));
    }
}

fn usable_reversed(found: Vec<Found>) -> (r: Vec<Found>)
    ensures
        r@ == found@.filter(|f: Found| usable(f)).reverse(),
{
    let ghost all = found@;
    let ghost p = |f: Found| usable(f);
    let mut kept: Vec<Found> = Vec::new();
    for f in it: found
        invariant
            p == |f: Found| usable(f),
            it.seq() == all,
            kept@ == all.take(it.index() as int).filter(p),
    {
        proof {
            let i = it.index() as int;
            assert(all.take(i + 1).drop_last() == all.take(i));
            reveal(Seq::filter);
        }
        let keep = match f.meta {
            Some(m) => m.is_file || m.is_dir,
            None => false,
        };
        if keep {
            kept.push(f);
        }
    }
    proof {
        assert(all.take(all.len() as int) == all);
    }
    let ghost whole = kept@;
    let mut out: Vec<Found> = Vec::new();
    while kept.len() > 0
        invariant
            kept@ == whole.take(kept@.len() as int),
            kept@.len() <= whole.len(),
            out@ == whole.skip(kept@.len() as int).reverse(),
        decreases kept@.len(),
    {
        let ghost n = kept@.len() as int;
        if let Some(f) = kept.pop() {
            out.push(f);
            proof {
                assert(whole.skip(n - 1).reverse() == whole.skip(n).reverse().push(whole[n - 1]));
            }
        }
    }
    proof {
        assert(whole.skip(0) == whole);
    }
    out
}

/// Whether some components are among those that have been seen.
fn is_seen(seen: &Vec<Vec<Component>>, parts: &Vec<Component>) -> (r: bool)
    ensures
        r == exists|j: int|
            0 <= j < seen@.len() && path::parts_of((#[trigger] seen@[j])@) == path::parts_of(
                parts@,
            ),
{
    for j in 0..seen.len()
        invariant
            forall|k: int|
                0 <= k < j ==> path::parts_of((#[trigger] seen@[k])@) != path::parts_of(parts@),
    {
        if path::parts_eq(&seen[j], parts) {
            return true;
        }
    }
    false
}

/// The candidates of the picker: everything that is offered, once, but for `base` itself.
pub fn gather(
    base: &str,
    selected: Vec<Found>,
    mentioned: Vec<Found>,
    modified: Vec<Found>,
) -> (r: Vec<Cand>)
    ensures
        cand_views(r@) == taken_up(base@, all_offers(selected@, mentioned@, modified@)),
{
    let mut offers: Vec<Offer> = Vec::new();
    push_offers(&mut offers, selected, Origin::Selected);
    push_offers(&mut offers, usable_reversed(mentioned), Origin::Mentioned);
    push_offers(&mut offers, modified, Origin::Modified);
    let ghost all = offers@;
    proof {
        assert(all == all_offers(selected@, mentioned@, modified@));
    }
    let base_parts = path::components(base);
    let mut seen: Vec<Vec<Component>> = Vec::new();
    let mut out: Vec<Cand> = Vec::new();
    for offer in it: offers
        invariant
            it.seq() == all,
            path::parts_of(base_parts@) == path::components_of(base@),
            seen@.len() == it.index(),
            forall|j: int|
                0 <= j < seen@.len() ==> path::parts_of((#[trigger] seen@[j])@)
                    == path::components_of(all[j].found.path@),
            cand_views(out@) == taken_up(base@, all.take(it.index() as int)),
    {
        let ghost i = it.index() as int;
        let ghost before = out@;
        let ghost now = all.take(i + 1);
        proof {
            assert(now.drop_last() == all.take(i));
            assert(offer == all[i]);
        }
        let parts = path::components(offer.found.path.as_str());
        let known = path::parts_eq(&parts, &base_parts) || is_seen(&seen, &parts);
        proof {
            assert(known == !fresh(base@, now, i)) by {
                if !fresh(base@, now, i) && !path::same_path(offer.found.path@, base@) {
                    let j = choose|j: int|
                        0 <= j < i && path::same_path(
                            (#[trigger] now[j]).found.path@,
                            now[i].found.path@,
                        );
                    assert(now[j] == all[j]);
                    assert(path::parts_of(seen@[j]@) == path::parts_of(parts@));
                }
                if fresh(base@, now, i) {
                    assert forall|j: int| 0 <= j < seen@.len() implies path::parts_of(
                        (#[trigger] seen@[j])@,
                    ) != path::parts_of(parts@) by {
                        assert(now[j] == all[j]);
                    }
                }
            }
        }
        seen.push(parts);
        if !known {
            if let Some(c) = make_cand(base, offer.found.path, offer.origin, offer.found.meta) {
                out.push(c);
                proof {
                    assert(cand_views(out@) == cand_views(before).push(c@));
                }
            }
        }
    }
    proof {
        assert(all.take(all.len() as int) == all);
    }
    out
}

/// The words of a selection, without the punctuation around them.
pub open spec fn selection_words(s: Seq<char>) -> Seq<Seq<char>> {
    text::words(s).map_values(|w: Seq<char>| text::trimmed_of(w, "\"'`,;:()[]<>"@))
}

/// The words of a selection that may be paths.
pub fn selection_tokens(sel: &str) -> (r: Vec<String>)
    ensures
        text::texts(r@) == selection_words(sel@),
{
    let ghost trim = |w: Seq<char>| text::trimmed_of(w, "\"'`,;:()[]<>"@);
    let words = text::split_whitespace(sel);
    let mut out: Vec<String> = Vec::new();
    for i in 0..words.len()
        invariant
            trim == |w: Seq<char>| text::trimmed_of(w, "\"'`,;:()[]<>"@),
            text::texts(out@) == text::texts(words@).take(i as int).map_values(trim),
    {
        let ghost before = out@;
        let t = text::trim_matches(words[i].as_str(), "\"'`,;:()[]<>");
        out.push(t);
        proof {
            let all = text::texts(words@);
            assert(text::texts(out@) == text::texts(before).push(trim(all[i as int])));
            assert(all.take(i + 1).map_values(trim) == all.take(i as int).map_values(trim).push(
                trim(all[i as int]),
            ));
        }
    }
    proof {
        assert(text::texts(words@).take(words@.len() as int) == text::texts(words@));
    }
    out
}

/// A match of the pattern for paths, without the punctuation behind it.
pub open spec fn bare(m: Seq<char>) -> Seq<char> {
    text::trimmed_end_of(m, ".,;:)"@)
}

/// Whether a match is long enough to be a path, and no link.
pub open spec fn like_path(t: Seq<char>) -> bool {
    vstd::utf8::encode_utf8(t).len() >= 3 && !"http"@.is_prefix_of(t)
}

/// Those matches that may be paths.
pub open spec fn path_words(matches: Seq<Seq<char>>) -> Seq<Seq<char>> {
    matches.map_values(|m: Seq<char>| bare(m)).filter(|t: Seq<char>| like_path(t))
}

/// Those of some matches of the pattern for paths that may be paths.
pub fn path_tokens(matches: &Vec<String>) -> (r: Vec<String>)
    ensures
        text::texts(r@) == path_words(text::texts(matches@)),
{
    let ghost all = text::texts(matches@).map_values(|m: Seq<char>| bare(m));
    let ghost p = |t: Seq<char>| like_path(t);
    let mut out: Vec<String> = Vec::new();
    for i in 0..matches.len()
        invariant
            all == text::texts(matches@).map_values(|m: Seq<char>| bare(m)),
            p == |t: Seq<char>| like_path(t),
            text::texts(out@) == all.take(i as int).filter(p),
    {
        let ghost before = out@;
        proof {
            assert(all.take(i + 1).drop_last() == all.take(i as int));
            reveal(Seq::filter);
            assert(all[i as int] == bare(matches@[i as int]@));
        }
        let t = text::trim_end_of(matches[i].as_str(), ".,;:)");
        if t.as_str().as_bytes().len() >= 3 && !text::starts_with(t.as_str(), "http") {
            out.push(t);
            proof {
                assert(text::texts(out@) == text::texts(before).push(t@));
            }
        }
    }
    proof {
        assert(all.take(all.len() as int) == all);
    }
    out
}

/// What looks like a path in the output of a pane, in the order in which it is mentioned.
pub fn output_tokens(output: &str) -> (r: Vec<String>)
    ensures
        text::texts(r@) == match outside::regex_matches(PATH_PATTERN@, output@) {
            Some(m) => path_words(m),
            None => Seq::empty(),
        },
{
    match outside::regex_find_all(PATH_PATTERN, output) {
        Some(m) => path_tokens(&m),
        None => {
            let out: Vec<String> = Vec::new();
            proof {
                assert(text::texts(out@) == Seq::<Seq<char>>::empty());
            }
            out
        },
    }
}

/// Whether the search for recently modified files goes into what has this name.
pub fn search_enters(name: &str) -> (r: bool)
    ensures
        r == (name@ != "node_modules"@ && name@ != "target"@ && name@ != ".git"@),
{
    !str_eq(name, "node_modules") && !str_eq(name, "target") && !str_eq(name, ".git")
}

/// A file that the search has come to.
pub struct Walked {
    pub path: String,
    pub mtime_ms: u64,
}

impl Ranked for Walked {
    open spec fn not_after(self, other: Self) -> bool {
        self.mtime_ms >= other.mtime_ms
    }

    proof fn lemma_total(a: Self, b: Self) {
    }

    proof fn lemma_transitive(a: Self, b: Self, c: Self) {
    }

    fn in_order(&self, other: &Self) -> (r: bool) {
        self.mtime_ms >= other.mtime_ms
    }
}

/// A search for recently modified files.
pub struct RecentSearch {
    /// What was modified before this time is too old.
    pub cutoff_ms: u64,
    /// What has been collected.
    pub kept: Vec<Walked>,
}

impl RecentSearch {
    /// Starts a search at `now`.
    pub fn new(now: u64) -> (r: RecentSearch)
        ensures
            r.cutoff_ms == if now >= RECENT_MS {
                now - RECENT_MS
            } else {
                0
            },
            r.kept@.len() == 0,
    {
        RecentSearch { cutoff_ms: now.saturating_sub(RECENT_MS), kept: Vec::new() }
    }

    /// The search has come to `path`, `depth` levels below its start. Says whether the
    /// search goes on.
    pub fn see(&mut self, path: String, depth: usize, is_file: bool, mtime_ms: u64) -> (r: bool)
        ensures
            final(self).cutoff_ms == old(self).cutoff_ms,
            final(self).kept@ == if 0 < depth <= RECENT_DEPTH && is_file && mtime_ms
                >= old(self).cutoff_ms {
                old(self).kept@.push((Walked { path, mtime_ms }))
            } else {
                old(self).kept@
            },
            r == (final(self).kept@.len() <= RECENT_LIMIT),
    {
        if depth > 0 && depth <= RECENT_DEPTH && is_file && mtime_ms >= self.cutoff_ms {
            self.kept.push(Walked { path, mtime_ms });
        }
        self.kept.len() <= RECENT_LIMIT
    }

    /// What is offered: what was modified last comes first.
    pub fn finish(self) -> (r: Vec<String>)
        ensures
            r@ == latest_first(self.kept@),
    {
        let ghost of = |w: Walked| w.path;
        let all = order::sort(self.kept);
        let n: usize = if all.len() < RECENT_OFFERED {
            all.len()
        } else {
            RECENT_OFFERED
        };
        let mut out: Vec<String> = Vec::new();
        for i in 0..n
            invariant
                of == |w: Walked| w.path,
                n <= all@.len(),
                out@ == all@.take(i as int).map_values(of),
        {
            out.push(all[i].path.clone());
            proof {
                assert(all@.take(i + 1).map_values(of) == all@.take(i as int).map_values(of).push(
                    of(all@[i as int]),
                ));
            }
        }
        out
    }
}

/// The paths of the files that were modified last, the latest first.
pub open spec fn latest_first(kept: Seq<Walked>) -> Seq<String> {
    let all = order::sorted(kept);
    all.take(
        if all.len() < RECENT_OFFERED {
            all.len() as int
        } else {
            RECENT_OFFERED as int
        },
    ).map_values(|w: Walked| w.path)
}

/// What some offers lead to is offered: every candidate has the path and the origin of an
/// offer.
proof fn lemma_taken_from(base: Seq<char>, offers: Seq<Offer>, k: int) -> (i: int)
    requires
        0 <= k < taken_up(base, offers).len(),
    ensures
        0 <= i < offers.len(),
        taken_up(base, offers)[k].path == offers[i].found.path@,
        taken_up(base, offers)[k].origin == offers[i].origin,
        !path::same_path(offers[i].found.path@, base),
    decreases offers.len(),
{
    let front = taken_up(base, offers.drop_last());
    if k < front.len() {
        lemma_taken_from(base, offers.drop_last(), k)
    } else {
        offers.len() - 1
    }
}

/// No path is offered twice, under whatever spelling, and never the directory that the
/// picker starts from.
pub proof fn law_candidates_differ(base: Seq<char>, offers: Seq<Offer>, a: int, b: int)
    requires
        0 <= a < b < taken_up(base, offers).len(),
    ensures
        !path::same_path(taken_up(base, offers)[a].path, taken_up(base, offers)[b].path),
        !path::same_path(taken_up(base, offers)[a].path, base),
        !path::same_path(taken_up(base, offers)[b].path, base),
    decreases offers.len(),
{
    let front = taken_up(base, offers.drop_last());
    if b < front.len() {
        law_candidates_differ(base, offers.drop_last(), a, b);
    } else {
        let i = lemma_taken_from(base, offers.drop_last(), a);
        let last = offers.len() - 1;
        assert(fresh(base, offers, last));
        assert(offers[i] == offers.drop_last()[i]);
        assert(taken_up(base, offers)[b].path == offers[last].found.path@);
    }
}

/// Whether one origin comes before another.
pub open spec fn origin_rank(o: Origin) -> int {
    match o {
        Origin::Selected => 0,
        Origin::Mentioned => 1,
        Origin::Modified => 2,
        Origin::Typed => 3,
    }
}

proof fn lemma_taken_in_order(base: Seq<char>, offers: Seq<Offer>, a: int, b: int) -> (at: (
    int,
    int,
))
    requires
        0 <= a < b < taken_up(base, offers).len(),
    ensures
        0 <= at.0 < at.1 < offers.len(),
        taken_up(base, offers)[a].origin == offers[at.0].origin,
        taken_up(base, offers)[b].origin == offers[at.1].origin,
    decreases offers.len(),
{
    let front = taken_up(base, offers.drop_last());
    if b < front.len() {
        lemma_taken_in_order(base, offers.drop_last(), a, b)
    } else {
        let i = lemma_taken_from(base, offers.drop_last(), a);
        (i, offers.len() - 1)
    }
}

/// What is selected comes before what is mentioned, and that before what was merely
/// modified.
pub proof fn law_sources_in_order(
    base: Seq<char>,
    selected: Seq<Found>,
    mentioned: Seq<Found>,
    modified: Seq<Found>,
    a: int,
    b: int,
)
    requires
        0 <= a < b < taken_up(base, all_offers(selected, mentioned, modified)).len(),
    ensures
        ({
            let all = taken_up(base, all_offers(selected, mentioned, modified));
            origin_rank(all[a].origin) <= origin_rank(all[b].origin)
        }),
{
    let offers = all_offers(selected, mentioned, modified);
    let at = lemma_taken_in_order(base, offers, a, b);
}

/// The directory that the picker starts from is not offered itself.
pub proof fn law_base_is_not_offered(base: Seq<char>, offers: Seq<Offer>, k: int)
    requires
        0 <= k < taken_up(base, offers).len(),
    ensures
        !path::same_path(taken_up(base, offers)[k].path, base),
{
    let i = lemma_taken_from(base, offers, k);
}

/// Whatever is offered and lies somewhere is a candidate, under one of its spellings.
pub proof fn law_nothing_is_left_out(base: Seq<char>, offers: Seq<Offer>, i: int) -> (k: int)
    requires
        0 <= i < offers.len(),
        forall|j: int| 0 <= j < offers.len() ==> (#[trigger] offers[j]).found.meta is Some,
        !path::same_path(offers[i].found.path@, base),
    ensures
        0 <= k < taken_up(base, offers).len(),
        path::same_path(taken_up(base, offers)[k].path, offers[i].found.path@),
    decreases offers.len(),
{
    let front = offers.drop_last();
    if i < front.len() {
        assert forall|j: int| 0 <= j < front.len() implies (#[trigger] front[j]).found.meta
            is Some by {
            assert(front[j] == offers[j]);
        }
        assert(front[i] == offers[i]);
        law_nothing_is_left_out(base, front, i)
    } else if fresh(base, offers, i) {
        taken_up(base, offers).len() - 1
    } else {
        let j = choose|j: int|
            0 <= j < i && path::same_path(
                (#[trigger] offers[j]).found.path@,
                offers[i].found.path@,
            );
        assert forall|j: int| 0 <= j < front.len() implies (#[trigger] front[j]).found.meta
            is Some by {
            assert(front[j] == offers[j]);
        }
        assert(front[j] == offers[j]);
        law_nothing_is_left_out(base, front, j)
    }
}

/// A candidate says of a path what was found there. Where the path lies under the base, what
/// is shown of it leads from the base to it, and elsewhere the whole path is shown.
pub proof fn law_candidate_says_what_was_found(
    base: Seq<char>,
    p: Seq<char>,
    origin: Origin,
    m: FileMeta,
)
    requires
        base.len() > 0,
        path::components_of(base).len() > 0,
    ensures
        ({
            let c = cand_at(base, p, origin, m);
            &&& c.path == p && c.size == m.size && c.mtime_ms == m.mtime_ms && c.is_dir == m.is_dir
            &&& c.origin == origin
            &&& path::lies_under(p, base) ==> path::same_path(path::path_joined(base, c.rel), p)
            &&& !path::lies_under(p, base) ==> c.rel == p
        }),
{
    path::law_stripped(p, base);
    let b = path::components_of(base);
    let ps = path::components_of(p);
    if let Some(r) = path::path_stripped(p, base) {
        path::law_join(base, r);
        path::lemma_no_current_inside(p);
        let rest = ps.skip(b.len() as int);
        if rest.len() > 0 {
            assert(rest[0] == ps[b.len() as int]);
        }
        assert(path::down_parts(rest) == rest);
        assert(b + rest =~= ps);
    }
}

/// Every candidate is something that was offered.
pub proof fn law_candidates_were_offered(base: Seq<char>, offers: Seq<Offer>, k: int) -> (i: int)
    requires
        0 <= k < taken_up(base, offers).len(),
    ensures
        0 <= i < offers.len(),
        offers[i].found.meta matches Some(m) && taken_up(base, offers)[k] == cand_at(
            base,
            offers[i].found.path@,
            offers[i].origin,
            m,
        ),
    decreases offers.len(),
{
    let front = taken_up(base, offers.drop_last());
    if k < front.len() {
        let i = law_candidates_were_offered(base, offers.drop_last(), k);
        assert(offers.drop_last()[i] == offers[i]);
        i
    } else {
        offers.len() - 1
    }
}

/// The offers are what is selected in its order, what is mentioned from the last mention to
/// the first, as far as a file or a directory lies there, and what was modified in its
/// order.
pub proof fn law_offers(selected: Seq<Found>, mentioned: Seq<Found>, modified: Seq<Found>, f: Found)
    ensures
        all_offers(selected.push(f), mentioned, modified) == offered(selected, Origin::Selected)
            + seq![Offer { found: f, origin: Origin::Selected }] + all_offers(
            Seq::empty(),
            mentioned,
            modified,
        ),
        all_offers(Seq::empty(), mentioned.push(f), modified) == (if f.meta matches Some(m) && (
        m.is_file || m.is_dir) {
            seq![Offer { found: f, origin: Origin::Mentioned }]
        } else {
            Seq::empty()
        }) + all_offers(Seq::empty(), mentioned, modified),
        all_offers(selected, mentioned, modified.push(f)) == all_offers(
            selected,
            mentioned,
            modified,
        ).push((Offer { found: f, origin: Origin::Modified })),
        all_offers(Seq::empty(), Seq::empty(), Seq::empty()) == Seq::<Offer>::empty(),
{
    let keep = |x: Found| usable(x);
    reveal(Seq::filter);
    assert(mentioned.push(f).drop_last() =~= mentioned);
    let kept = mentioned.filter(keep);
    let back = offered(kept.reverse(), Origin::Mentioned);
    if usable(f) {
        assert(mentioned.push(f).filter(keep) == kept.push(f));
        assert(offered(kept.push(f).reverse(), Origin::Mentioned) =~= seq![
            Offer { found: f, origin: Origin::Mentioned },
        ] + back);
    }
    assert(offered(selected.push(f), Origin::Selected) =~= offered(selected, Origin::Selected)
        + seq![Offer { found: f, origin: Origin::Selected }]);
    assert(offered(modified.push(f), Origin::Modified) =~= offered(modified, Origin::Modified).push(
        Offer { found: f, origin: Origin::Modified },
    ));
    assert(offered(Seq::empty(), Origin::Selected) =~= Seq::<Offer>::empty());
    assert(offered(Seq::empty(), Origin::Modified) =~= Seq::<Offer>::empty());
    assert(Seq::<Found>::empty().filter(keep) =~= Seq::<Found>::empty());
    assert(offered(Seq::<Found>::empty().reverse(), Origin::Mentioned) =~= Seq::<Offer>::empty());
    assert(all_offers(selected.push(f), mentioned, modified) =~= offered(
        selected,
        Origin::Selected,
    ) + seq![Offer { found: f, origin: Origin::Selected }] + all_offers(
        Seq::empty(),
        mentioned,
        modified,
    ));
    assert(all_offers(Seq::empty(), mentioned.push(f), modified) =~= (if usable(f) {
        seq![Offer { found: f, origin: Origin::Mentioned }]
    } else {
        Seq::empty()
    }) + all_offers(Seq::empty(), mentioned, modified));
    assert(all_offers(selected, mentioned, modified.push(f)) =~= all_offers(
        selected,
        mentioned,
        modified,
    ).push((Offer { found: f, origin: Origin::Modified })));
    assert(all_offers(Seq::empty(), Seq::empty(), Seq::empty()) =~= Seq::<Offer>::empty());
}

/// A selection is taken apart at white space, word by word.
pub proof fn law_selection_words(a: Seq<char>, c: char, b: Seq<char>)
    requires
        text::is_space(c),
    ensures
        selection_words(a.push(c) + b) == selection_words(a) + selection_words(b),
{
    text::law_words_around_space(a, c, b);
    let f = |w: Seq<char>| text::trimmed_of(w, "\"'`,;:()[]<>"@);
    assert((text::words(a) + text::words(b)).map_values(f) =~= text::words(a).map_values(f)
        + text::words(b).map_values(f));
}

/// A word of a selection is stripped of the punctuation around it and of nothing else.
pub proof fn law_selection_word(pre: Seq<char>, w: Seq<char>, post: Seq<char>)
    requires
        text::made_of(pre, "\"'`,;:()[]<>"@),
        text::made_of(post, "\"'`,;:()[]<>"@),
        w.len() > 0,
        !"\"'`,;:()[]<>"@.contains(w[0]),
        !"\"'`,;:()[]<>"@.contains(w.last()),
        forall|i: int|
            0 <= i < (pre + w + post).len() ==> !text::is_space(#[trigger] (pre + w + post)[i]),
    ensures
        selection_words(pre + w + post) == seq![w],
{
    text::law_one_word(pre + w + post);
    text::law_trimmed_of(pre, w, post, "\"'`,;:()[]<>"@);
    assert(selection_words(pre + w + post) =~= seq![w]);
}

/// Of what looks like a path in the output of a pane everything is tried that has three
/// bytes without the punctuation behind it and is no link, in its order.
pub proof fn law_path_words(matches: Seq<Seq<char>>, w: Seq<char>, post: Seq<char>)
    requires
        text::made_of(post, ".,;:)"@),
        w.len() > 0,
        !".,;:)"@.contains(w[0]),
        !".,;:)"@.contains(w.last()),
    ensures
        path_words(matches.push(w + post)) == if vstd::utf8::encode_utf8(w).len() >= 3
            && !"http"@.is_prefix_of(w) {
            path_words(matches).push(w)
        } else {
            path_words(matches)
        },
        path_words(Seq::empty()) == Seq::<Seq<char>>::empty(),
{
    text::law_trimmed_of(Seq::empty(), w, post, ".,;:)"@);
    let f = |m: Seq<char>| bare(m);
    reveal(Seq::filter);
    let all = matches.push(w + post).map_values(f);
    assert(all =~= matches.map_values(f).push(w));
    assert(all.drop_last() =~= matches.map_values(f));
    assert(Seq::<Seq<char>>::empty().map_values(f) =~= Seq::<Seq<char>>::empty());
}

/// Five hundred recently modified files are offered, or as many as there are, each of them
/// found, the latest first, and none that is left out was modified later.
pub proof fn law_recent_files(kept: Seq<Walked>, i: int, j: int)
    requires
        0 <= i < j < kept.len(),
    ensures
        ({
            let all = order::sorted(kept);
            let got = latest_first(kept);
            &&& got.len() == if kept.len() < 500 {
                kept.len()
            } else {
                500
            }
            &&& all.to_multiset() == kept.to_multiset()
            &&& all[i].mtime_ms >= all[j].mtime_ms
            &&& i < got.len() ==> got[i] == all[i].path
            &&& j < got.len() ==> got[j] == all[j].path
        }),
{
    order::law_sorted(kept);
    assert(order::sorted(kept)[i].not_after(order::sorted(kept)[j]));
}

/// The sign of a candidate tells directories, images, documents and archives apart, by the
/// media type and the end of the name.
pub proof fn law_glyph(c: &Cand, name: Seq<char>, r: &'static str)
    requires
        call_ensures(Cand::glyph, (c,), r),
    ensures
        c.is_dir ==> r@ == "▸"@,
        !c.is_dir && "image/"@.is_prefix_of(outside::mime_of(c.rel@)) ==> r@ == "🖼"@,
        !c.is_dir && !"image/"@.is_prefix_of(outside::mime_of(c.rel@)) && outside::mime_of(c.rel@)
            == "application/pdf"@ ==> r@ == "📄"@,
        !c.is_dir && !"image/"@.is_prefix_of(outside::mime_of(c.rel@)) && outside::mime_of(c.rel@)
            != "application/pdf"@ ==> {
            &&& c.rel@ == name + ".zip"@ ==> r@ == "📦"@
            &&& c.rel@ == name + ".tgz"@ ==> r@ == "📦"@
            &&& c.rel@ == name + ".tar.gz"@ ==> r@ == "📦"@
            &&& !".zip"@.is_suffix_of(c.rel@) && !".tgz"@.is_suffix_of(c.rel@)
                && !".tar.gz"@.is_suffix_of(c.rel@) ==> r@ == " "@
        },
{
    lemma_ends(name, ".zip"@);
    lemma_ends(name, ".tgz"@);
    lemma_ends(name, ".tar.gz"@);
}

proof fn lemma_ends(name: Seq<char>, tail: Seq<char>)
    ensures
        tail.is_suffix_of(name + tail),
{
    let s = name + tail;
    assert(s.subrange(s.len() - tail.len(), s.len() as int) =~= tail);
}

/// What is gathered are the candidates that are taken up, each with all that is known of it.
pub proof fn law_gather(
    base: &str,
    selected: Vec<Found>,
    mentioned: Vec<Found>,
    modified: Vec<Found>,
    r: Vec<Cand>,
    i: int,
)
    requires
        call_ensures(gather, (base, selected, mentioned, modified), r),
    ensures
        ({
            let all = taken_up(base@, all_offers(selected@, mentioned@, modified@));
            &&& r@.len() == all.len()
            &&& 0 <= i < r@.len() ==> {
                &&& r@[i].path@ == all[i].path && r@[i].rel@ == all[i].rel
                &&& r@[i].size == all[i].size && r@[i].mtime_ms == all[i].mtime_ms
                &&& r@[i].is_dir == all[i].is_dir && r@[i].origin == all[i].origin
            }
        }),
{
    assert(cand_views(r@).len() == r@.len());
    if 0 <= i < r@.len() {
        assert(cand_views(r@)[i] == r@[i]@);
    }
}

} // verus!
