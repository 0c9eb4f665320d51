//! The laptop: fetching and delivering items, pushing files, and what the desktop shows.

use vstd::prelude::*;

use crate::command::{command, owned, Command, CommandView};
use crate::error::Error;
use crate::inbox;
use crate::outbox;
use crate::outside;
use crate::path;
use crate::send;
use crate::ssh::{ClientConfig, Remote};
use crate::state::{self, Item, ItemView, Kind};
use crate::text::{self, str_eq};
use crate::util;

verus! {

/// A client: its server, where it puts what it fetches, and whether it opens that.
pub struct Client {
    pub remote: Remote,
    pub dest: String,
    pub open: bool,
}

/// Where files go that are fetched, unless something else is said.
pub open spec fn default_at(download_dir: Option<Seq<char>>, home: Seq<char>) -> Seq<char> {
    path::path_joined(
        match download_dir {
            Some(d) => d,
            None => path::path_joined(home, "Downloads"@),
        },
        "herdr-ferry"@,
    )
}

/// Where files go that are fetched, unless something else is said.
pub fn default_dest(download_dir: Option<&str>, home: &str) -> (r: String)
    ensures
        r@ == default_at(text::str_option(download_dir), home@),
{
    match download_dir {
        Some(d) => path::join(d, "herdr-ferry"),
        None => path::join(path::join(home, "Downloads").as_str(), "herdr-ferry"),
    }
}

/// Where files go: as given, or as the configuration says, or else to the usual place.
pub open spec fn dest_at(
    given: Option<Seq<char>>,
    configured: Option<Seq<char>>,
    download_dir: Option<Seq<char>>,
    home: Seq<char>,
) -> Seq<char> {
    match given {
        Some(d) => util::tilde_expanded(d, home),
        None => match configured {
            Some(d) => util::tilde_expanded(d, home),
            None => default_at(download_dir, home),
        },
    }
}

impl Client {
    /// A client of `remote`.
    pub fn new(
        remote: Remote,
        given: Option<&str>,
        cfg: &ClientConfig,
        download_dir: Option<&str>,
        home: &str,
        open: bool,
    ) -> (r: Client)
        ensures
            r.remote == remote,
            r.open == open,
            r.dest@ == dest_at(
                text::str_option(given),
                text::text_option(cfg.dest),
                text::str_option(download_dir),
                home@,
            ),
    {
        let dest = match given {
            Some(d) => util::expand_tilde(d, home),
            None => match &cfg.dest {
                Some(d) => util::expand_tilde(d.as_str(), home),
                None => default_dest(download_dir, home),
            },
        };
        Client { remote, dest, open }
    }
}

/// The number before the first dot of a version.
pub open spec fn major(v: Seq<char>) -> Seq<char> {
    text::split_by(v, |c: char| c == '.')[0]
}

/// What the first line of a wait means for this side.
pub enum Handshake {
    /// Go on.
    Fine,
    /// Go on, but say this.
    Warn { message: String },
    /// Say this, and end.
    Refuse { message: String },
}

/// The version in the first line of a wait, if it has one.
pub open spec fn announced(header: Seq<char>) -> Option<Seq<char>> {
    if "#herdr-ferry "@.is_prefix_of(header) {
        Some(text::trimmed(header.skip("#herdr-ferry "@.len() as int)))
    } else {
        None
    }
}

fn major_of(v: &str) -> (r: String)
    ensures
        r@ == major(v@),
{
    let parts = text::split_at_char(v, '.');
    proof {
        text::lemma_split_not_empty(v@, |c: char| c == '.');
    }
    parts[0].clone()
}

/// Holds the version that the server announces against `local`: another one is worth a
/// warning, and another major one is refused.
pub fn check_version(header: &str, local: &str) -> (r: Handshake)
    ensures
        match announced(header@) {
            None => r is Fine,
            Some(remote) => if remote == local@ {
                r is Fine
            } else if major(remote) != major(local@) {
                r matches Handshake::Refuse { message } && message@ == "herdr-ferry: remote is "@
                    + remote + ", local is "@ + local@ + " — major mismatch, refusing"@
            } else {
                r matches Handshake::Warn { message } && message@
                    == "herdr-ferry: warning: remote is "@ + remote + ", local is "@ + local@
            },
        },
{
    if !text::starts_with(header, "#herdr-ferry ") {
        return Handshake::Fine;
    }
    let width: usize = text::chars_of("#herdr-ferry ").len();
    let cs = text::chars_of(header);
    let rest = text::string_range(&cs, width, cs.len());
    proof {
        assert(rest@ == header@.skip(width as int));
    }
    let remote = text::trim(rest.as_str());
    if str_eq(remote.as_str(), local) {
        return Handshake::Fine;
    }
    if !str_eq(major_of(remote.as_str()).as_str(), major_of(local).as_str()) {
        let mut m = "herdr-ferry: remote is ".to_owned();
        m.append(remote.as_str());
        m.append(", local is ");
        m.append(local);
        m.append(" — major mismatch, refusing");
        return Handshake::Refuse { message: m };
    }
    let mut m = "herdr-ferry: warning: remote is ".to_owned();
    m.append(remote.as_str());
    m.append(", local is ");
    m.append(local);
    Handshake::Warn { message: m }
}

/// A delivery of everything that is queued, one item after the other.
pub struct Draining {
    /// The items to deliver.
    pub todo: Vec<Item>,
    /// How many of them have been tried.
    pub done: usize,
    /// How many of those have been delivered.
    pub count: usize,
}

/// What a delivery of everything does next.
pub enum DrainStep {
    /// Deliver this item.
    Deliver { item: Item },
    /// Everything has been tried, and so much has been delivered.
    Done { count: usize },
}

/// Starts to deliver the queued items of an outbox, in their order.
pub fn drain(items: &Vec<Item>) -> (r: Draining)
    ensures
        r.wf(),
        r.todo@ == state::queued_ones(items@),
        r.done == 0,
        r.count == 0,
{
    Draining { todo: state::pick_queued(items), done: 0, count: 0 }
}

impl Draining {
    /// Whether no more is counted than has been tried.
    pub open spec fn wf(self) -> bool {
        self.count <= self.done <= self.todo@.len()
    }

    /// Whether `next` is what follows once the item whose turn it is was delivered, or was
    /// not.
    pub open spec fn took(self, ok: bool, next: Draining) -> bool {
        &&& next.todo@ == self.todo@
        &&& next.done == self.done + 1
        &&& next.count == self.count + if ok {
            1int
        } else {
            0
        }
    }

    /// What is to be done next: every item has its turn, also after one that failed.
    pub fn next(&self) -> (r: DrainStep)
        requires
            self.wf(),
        ensures
            match r {
                DrainStep::Deliver { item } => self.done < self.todo@.len() && item
                    == self.todo@[self.done as int],
                DrainStep::Done { count } => self.done == self.todo@.len() && count
                    == self.count,
            },
    {
        if self.done < self.todo.len() {
            DrainStep::Deliver { item: self.todo[self.done].clone() }
        } else {
            DrainStep::Done { count: self.count }
        }
    }

    /// The item that `next` has handed out was delivered, or it was not.
    pub fn delivered(&mut self, ok: bool)
        requires
            old(self).wf(),
            old(self).done < old(self).todo@.len(),
        ensures
            final(self).wf(),
            old(self).took(ok, *final(self)),
    {
        proof {
            assert(self.todo.len() <= usize::MAX);
        }
        self.done = self.done + 1;
        if ok {
            self.count = self.count + 1;
        }
    }
}

/// Whether `states` are those that a delivery of everything goes through, from its start to
/// its end, where the turns end as `oks` says.
pub open spec fn drain_run(states: Seq<Draining>, oks: Seq<bool>) -> bool {
    &&& states.len() == oks.len() + 1
    &&& states[0].done == 0 && states[0].count == 0
    &&& forall|i: int|
        0 <= i < oks.len() ==> states[i].done < states[i].todo@.len() && (#[trigger] states[i]).took(
            oks[i],
            states[i + 1],
        )
    &&& states.last().done == states.last().todo@.len()
}

/// Every queued item is delivered exactly once and in its order, whatever came of those
/// before it, and what is counted in the end are the successes.
pub proof fn law_drain_tries_all(states: Seq<Draining>, oks: Seq<bool>)
    requires
        drain_run(states, oks),
    ensures
        oks.len() == states[0].todo@.len(),
        forall|i: int|
            0 <= i < oks.len() ==> (#[trigger] states[i]).todo@ == states[0].todo@
                && states[i].done == i,
        states.last().count == oks.filter(|ok: bool| ok).len(),
{
    lemma_drain_upto(states, oks, oks.len() as int);
    assert forall|i: int| 0 <= i < oks.len() implies (#[trigger] states[i]).todo@
        == states[0].todo@ && states[i].done == i by {
        lemma_drain_upto(states, oks, i);
    }
    assert(oks.take(oks.len() as int) == oks);
}

proof fn lemma_drain_upto(states: Seq<Draining>, oks: Seq<bool>, n: int)
    requires
        drain_run(states, oks),
        0 <= n <= oks.len(),
    ensures
        states[n].todo@ == states[0].todo@,
        states[n].done == n,
        states[n].count == oks.take(n).filter(|ok: bool| ok).len(),
    decreases n,
{
    reveal(Seq::filter);
    if n > 0 {
        lemma_drain_upto(states, oks, n - 1);
        assert(oks.take(n).drop_last() == oks.take(n - 1));
        assert(states[n - 1].took(oks[n - 1], states[n - 1 + 1]));
    }
}

/// What is said of an item that could not be delivered.
pub fn failure_line(item: &Item, reason: &str) -> (r: String)
    ensures
        r@ == "herdr-ferry: "@ + item.name@ + " ("@ + item.id@ + "): "@ + reason@,
{
    let mut s = "herdr-ferry: ".to_owned();
    s.append(item.name.as_str());
    s.append(" (");
    s.append(item.id.as_str());
    s.append("): ");
    s.append(reason);
    s
}

/// How far the delivery of an item has come.
#[derive(Clone, Copy, Debug, PartialEq, Eq, Structural)]
pub enum Phase {
    /// Claim the item.
    Claim,
    /// Fetch the payload, for the first or for the second time.
    Fetch { attempt: u8 },
    /// Report the item delivered.
    Ack,
    /// Put the payload where it belongs.
    Save,
    /// Nothing is left to do.
    Done,
    /// Discard the payload: it was wrong twice. The item stays claimed.
    Mismatch,
}

/// What has happened in a delivery.
pub enum Event {
    /// The item has been claimed.
    Claimed,
    /// A payload with this digest has been fetched.
    Fetched { digest: Seq<char> },
    /// The item has been reported delivered.
    Acked,
    /// The payload is where it belongs.
    Saved,
}

impl Phase {
    /// Whether an event is what the phase waits for.
    pub open spec fn awaits(self, e: Event) -> bool {
        match self {
            Phase::Claim => e is Claimed,
            Phase::Fetch { .. } => e is Fetched,
            Phase::Ack => e is Acked,
            Phase::Save => e is Saved,
            Phase::Done | Phase::Mismatch => false,
        }
    }

    /// The phase behind an event, for an item with the digest `sha256`.
    pub open spec fn behind(self, e: Event, sha256: Seq<char>) -> Phase {
        match e {
            Event::Claimed => Phase::Fetch { attempt: 1 },
            Event::Fetched { digest } => if digest == sha256 {
                Phase::Ack
            } else if self == (Phase::Fetch { attempt: 1 }) {
                Phase::Fetch { attempt: 2 }
            } else {
                Phase::Mismatch
            },
            Event::Acked => Phase::Save,
            Event::Saved => Phase::Done,
        }
    }
}

/// The phase behind some events; nothing where an event came that nobody waited for.
pub open spec fn phase_behind(events: Seq<Event>, sha256: Seq<char>) -> Option<Phase>
    decreases events.len(),
{
    if events.len() == 0 {
        Some(Phase::Claim)
    } else {
        match phase_behind(events.drop_last(), sha256) {
            Some(p) => if p.awaits(events.last()) {
                Some(p.behind(events.last(), sha256))
            } else {
                None
            },
            None => None,
        }
    }
}

/// A delivery under way.
pub struct Delivery {
    pub item: Item,
    /// The file that the payload is fetched to.
    pub tmp: String,
    pub phase: Phase,
}

/// The arguments that a phase hands to the server.
pub open spec fn phase_args(p: Phase, id: Seq<char>) -> Option<Seq<Seq<char>>> {
    match p {
        Phase::Claim => Some(seq!["outbox-claim"@, id]),
        Phase::Fetch { .. } => Some(seq!["outbox-cat"@, id]),
        Phase::Ack => Some(seq!["outbox-ack"@, id]),
        _ => None,
    }
}

impl Delivery {
    /// Starts the delivery of an item.
    pub fn new(client: &Client, item: Item) -> (r: Delivery)
        ensures
            r.item == item,
            r.tmp@ == path::path_joined(client.dest@, "."@ + item.id@ + ".part"@),
            r.phase == Phase::Claim,
    {
        let mut name = ".".to_owned();
        name.append(item.id.as_str());
        name.append(".part");
        let tmp = path::join(client.dest.as_str(), name.as_str());
        Delivery { item, tmp, phase: Phase::Claim }
    }

    /// The arguments for the server that the phase asks for.
    pub fn args(&self) -> (r: Option<Vec<&str>>)
        ensures
            match r {
                Some(v) => phase_args(self.phase, self.item.id@) == Some(
                    crate::command::strs(v@),
                ),
                None => phase_args(self.phase, self.item.id@) is None,
            },
    {
        let id = self.item.id.as_str();
        match self.phase {
            Phase::Claim => {
                let v = vec!["outbox-claim", id];
                proof {
                    assert(crate::command::strs(v@) == seq!["outbox-claim"@, id@]);
                }
                Some(v)
            },
            Phase::Fetch { .. } => {
                let v = vec!["outbox-cat", id];
                proof {
                    assert(crate::command::strs(v@) == seq!["outbox-cat"@, id@]);
                }
                Some(v)
            },
            Phase::Ack => {
                let v = vec!["outbox-ack", id];
                proof {
                    assert(crate::command::strs(v@) == seq!["outbox-ack"@, id@]);
                }
                Some(v)
            },
            _ => None,
        }
    }

    /// The item has been claimed.
    pub fn claimed(&mut self)
        requires
            old(self).phase.awaits(Event::Claimed),
        ensures
            final(self).item == old(self).item,
            final(self).tmp == old(self).tmp,
            final(self).phase == old(self).phase.behind(
                Event::Claimed,
                old(self).item.sha256@,
            ),
    {
        self.phase = Phase::Fetch { attempt: 1 };
    }

    /// A payload has been fetched that has the digest `digest`.
    pub fn fetched(&mut self, digest: &str)
        requires
            old(self).phase.awaits(Event::Fetched { digest: digest@ }),
        ensures
            final(self).item == old(self).item,
            final(self).tmp == old(self).tmp,
            final(self).phase == old(self).phase.behind(
                (Event::Fetched { digest: digest@ }),
                old(self).item.sha256@,
            ),
    {
        if str_eq(digest, self.item.sha256.as_str()) {
            self.phase = Phase::Ack;
        } else {
            match self.phase {
                Phase::Fetch { attempt: 1 } => {
                    self.phase = Phase::Fetch { attempt: 2 };
                },
                _ => {
                    self.phase = Phase::Mismatch;
                },
            }
        }
    }

    /// The item has been reported delivered.
    pub fn acked(&mut self)
        requires
            old(self).phase.awaits(Event::Acked),
        ensures
            final(self).item == old(self).item,
            final(self).tmp == old(self).tmp,
            final(self).phase == old(self).phase.behind(Event::Acked, old(self).item.sha256@),
    {
        self.phase = Phase::Save;
    }

    /// The payload is where it belongs.
    pub fn saved(&mut self)
        requires
            old(self).phase.awaits(Event::Saved),
        ensures
            final(self).item == old(self).item,
            final(self).tmp == old(self).tmp,
            final(self).phase == old(self).phase.behind(Event::Saved, old(self).item.sha256@),
    {
        self.phase = Phase::Done;
    }

    /// The error of a delivery that has failed for good.
    pub fn failure(&self) -> (r: Option<Error>)
        ensures
            self.phase == Phase::Mismatch ==> r == Some(Error::MismatchTwice),
            self.phase != Phase::Mismatch ==> r is None,
    {
        match self.phase {
            Phase::Mismatch => Some(Error::MismatchTwice),
            _ => None,
        }
    }
}

/// Whether a payload with the digest `digest` has been fetched.
pub open spec fn has_fetched(events: Seq<Event>, digest: Seq<char>) -> bool {
    exists|i: int| 0 <= i < events.len() && #[trigger] events[i] == (Event::Fetched { digest })
}

/// How many payloads have been fetched.
pub open spec fn fetches(events: Seq<Event>) -> nat {
    events.filter(|e: Event| e is Fetched).len()
}

/// Whether the item has been reported delivered.
pub open spec fn has_acked(events: Seq<Event>) -> bool {
    exists|i: int| 0 <= i < events.len() && #[trigger] events[i] is Acked
}

spec fn delivery_shape(events: Seq<Event>, sha256: Seq<char>, p: Phase) -> bool {
    &&& has_acked(events) == (p is Save || p is Done)
    &&& has_fetched(events, sha256) == (p is Ack || p is Save || p is Done)
    &&& match p {
        Phase::Claim => fetches(events) == 0,
        Phase::Fetch { attempt } => 1 <= attempt <= 2 && fetches(events) == attempt - 1,
        Phase::Mismatch => fetches(events) == 2,
        _ => fetches(events) <= 2,
    }
}

proof fn lemma_delivery_shape(events: Seq<Event>, sha256: Seq<char>)
    requires
        phase_behind(events, sha256) is Some,
    ensures
        delivery_shape(events, sha256, phase_behind(events, sha256)->0),
    decreases events.len(),
{
    reveal(Seq::filter);
    if events.len() > 0 {
        let front = events.drop_last();
        let right = Event::Fetched { digest: sha256 };
        lemma_delivery_shape(front, sha256);
        assert(events == front.push(events.last()));
        assert(has_acked(events) == (has_acked(front) || events.last() is Acked)) by {
            if has_acked(front) {
                let i = choose|i: int| 0 <= i < front.len() && #[trigger] front[i] is Acked;
                assert(events[i] is Acked);
            }
            if events.last() is Acked {
                assert(events[events.len() - 1] is Acked);
            }
            if has_acked(events) {
                let i = choose|i: int| 0 <= i < events.len() && #[trigger] events[i] is Acked;
                if i < front.len() {
                    assert(front[i] is Acked);
                }
            }
        }
        assert(has_fetched(events, sha256) == (has_fetched(front, sha256) || events.last()
            == right)) by {
            if has_fetched(front, sha256) {
                let i = choose|i: int| 0 <= i < front.len() && #[trigger] front[i] == right;
                assert(events[i] == right);
            }
            if events.last() == right {
                assert(events[events.len() - 1] == right);
            }
            if has_fetched(events, sha256) {
                let i = choose|i: int| 0 <= i < events.len() && #[trigger] events[i] == right;
                if i < front.len() {
                    assert(front[i] == right);
                }
            }
        }
    }
}

/// A delivery is safe. An item is reported delivered only once a payload with the right
/// digest is there; the payload is put in its place only once the item is reported
/// delivered; at most two payloads are fetched; and an item whose payload was wrong twice
/// is never reported delivered, so that it stays on the server.
pub proof fn law_delivery(events: Seq<Event>, sha256: Seq<char>)
    requires
        phase_behind(events, sha256) is Some,
    ensures
        ({
            let p = phase_behind(events, sha256)->0;
            &&& p is Ack || has_acked(events) ==> has_fetched(events, sha256)
            &&& p is Save || p is Done <==> has_acked(events)
            &&& fetches(events) <= 2
            &&& p matches Phase::Fetch { attempt } ==> fetches(events) == attempt - 1
            &&& p is Mismatch ==> fetches(events) == 2 && !has_acked(events) && !has_fetched(
                events,
                sha256,
            )
        }),
{
    lemma_delivery_shape(events, sha256);
}

/// What is said of an item: its note, or else its name and size.
pub open spec fn body_text(it: ItemView) -> Seq<char> {
    match it.note {
        Some(n) => n,
        None => it.name + " ("@ + util::size_text(it.size) + ")"@,
    }
}

fn body_of(it: &Item) -> (r: String)
    ensures
        r@ == body_text(it@),
{
    match &it.note {
        Some(n) => n.clone(),
        None => {
            let mut s = it.name.clone();
            s.append(" (");
            s.append(util::human_size(it.size).as_str());
            s.append(")");
            s
        },
    }
}

/// Where a payload goes, and what the user is told.
pub enum Saving {
    /// To the clipboard, as text; no file is left.
    Text { title: String, body: String },
    /// Unpacked into the directory `out`.
    Dir { out: String, title: String, body: String },
    /// To the file `dest`, and to the clipboard if it is an image.
    File { dest: String, image: bool, title: String, body: String },
}

/// Whether `d` is the first free place for `name` in `dir`, by what `taken` has said.
pub open spec fn is_free_place<F: Fn(&str) -> bool>(
    dir: Seq<char>,
    name: Seq<char>,
    taken: F,
    d: Seq<char>,
) -> bool {
    exists|k: nat|
        1 <= k <= i32::MAX && d == #[trigger] util::dest_candidate(dir, name, k) && util::said(
            taken,
            d,
            false,
        ) && forall|j: nat|
            1 <= j < k ==> util::said(taken, #[trigger] util::dest_candidate(dir, name, j), true)
}

/// Where the payload of an item goes in the directory `dest`, of which `taken` says what is
/// taken. Nothing comes of it only where every place for a file is taken.
pub fn save<F: Fn(&str) -> bool>(dest: &str, item: &Item, taken: F) -> (r: Option<Saving>)
    requires
        forall|s: &str| call_requires(taken, (s,)),
    ensures
        match r {
            Some(Saving::Text { title, body }) => {
                &&& item.kind == Kind::ClipboardText
                &&& title@ == "Ferry: clipboard text"@
                &&& body@ == body_text(item@)
            },
            Some(Saving::Dir { out, title, body }) => {
                &&& item.kind == Kind::Dir
                &&& is_free_place(dest@, item.name@, taken, out@)
                &&& title@ == "Ferry: directory"@
                &&& body@ == body_text(item@) + " → "@ + out@
            },
            Some(Saving::File { dest: d, image, title, body }) => {
                &&& item.kind == Kind::File || item.kind == Kind::ClipboardImage
                &&& is_free_place(dest@, item.name@, taken, d@)
                &&& image == util::image_mime(item.mime@)
                &&& title@ == if image {
                    "Ferry: image (on clipboard)"@
                } else {
                    "Ferry: file"@
                }
                &&& body@ == body_text(item@)
            },
            None => item.kind != Kind::ClipboardText && util::all_taken(
                dest@,
                item.name@,
                taken,
            ),
        },
{
    let body = body_of(item);
    match item.kind {
        Kind::ClipboardText => Some(
            Saving::Text { title: "Ferry: clipboard text".to_owned(), body },
        ),
        Kind::Dir => match util::unique_dest(dest, item.name.as_str(), taken) {
            Some(out) => {
                let mut said = body;
                said.append(" → ");
                said.append(out.as_str());
                Some(Saving::Dir { out, title: "Ferry: directory".to_owned(), body: said })
            },
            None => None,
        },
        Kind::File | Kind::ClipboardImage => match util::unique_dest(
            dest,
            item.name.as_str(),
            taken,
        ) {
            Some(d) => {
                let image = util::is_image_mime(item.mime.as_str());
                let title = if image {
                    "Ferry: image (on clipboard)".to_owned()
                } else {
                    "Ferry: file".to_owned()
                };
                Some(Saving::File { dest: d, image, title, body })
            },
            None => None,
        },
    }
}

/// The place of a saved payload, if it has one.
pub open spec fn saved_at(s: Saving) -> Option<Seq<char>> {
    match s {
        Saving::Text { .. } => None,
        Saving::Dir { out, .. } => Some(out@),
        Saving::File { dest, .. } => Some(dest@),
    }
}

impl Saving {
    /// The place of the payload, if it has one.
    pub fn place(&self) -> (r: Option<&str>)
        ensures
            text::str_option(r) == saved_at(*self),
    {
        match self {
            Saving::Text { .. } => None,
            Saving::Dir { out, .. } => Some(out.as_str()),
            Saving::File { dest, .. } => Some(dest.as_str()),
        }
    }
}

/// What is opened once a payload is in its place: that place, where the client opens what it
/// fetches.
pub fn to_open<'a>(client: &Client, saved: &'a Saving) -> (r: Option<&'a str>)
    ensures
        text::str_option(r) == if client.open {
            saved_at(*saved)
        } else {
            None
        },
{
    if client.open {
        saved.place()
    } else {
        None
    }
}

/// What is said of an item that has been delivered.
pub fn delivered_line(item: &Item, saved: &Saving) -> (r: String)
    ensures
        r@ == item.id@ + "\t"@ + item.name@ + "\t"@ + match saved_at(*saved) {
            Some(p) => p,
            None => "(clipboard)"@,
        },
{
    let mut s = item.id.clone();
    s.append("\t");
    s.append(item.name.as_str());
    s.append("\t");
    match saved.place() {
        Some(p) => {
            s.append(p);
        },
        None => {
            s.append("(clipboard)");
        },
    }
    s
}

/// Where an entry of the archive of a directory goes that is unpacked into `out`: the
/// first part of its path, which is the name of the directory, is left out. The entry for
/// the directory itself goes nowhere.
pub fn entry_place(out: &str, entry: &str) -> (r: Option<String>)
    ensures
        text::text_option(r) == if path::tail_of(entry@).len() == 0 {
            None
        } else {
            Some(path::path_joined(out@, path::tail_of(entry@)))
        },
{
    let rel = path::skip_first(entry);
    if rel.as_str().is_empty() {
        None
    } else {
        Some(path::join(out, rel.as_str()))
    }
}

/// What is said after everything has been fetched: something only where nothing was there.
pub fn pull(delivered: usize) -> (r: Option<&'static str>)
    ensures
        text::str_option(r) == if delivered == 0 {
            Some("nothing queued"@)
        } else {
            None
        },
{
    if delivered == 0 {
        Some("nothing queued")
    } else {
        None
    }
}

/// How long a watch waits at first after a failure, in seconds.
pub const BACKOFF_MIN_S: u64 = 1;

/// How long a watch waits at most after a failure, in seconds.
pub const BACKOFF_MAX_S: u64 = 30;

/// A client that waits for items again and again.
pub struct Watch {
    /// How long it waits after the next failure, in seconds.
    pub backoff_s: u64,
}

/// What a watch does after a wait.
pub enum WatchStep {
    /// Look at the first line, and fetch what is queued.
    Drain,
    /// Look at the first line, and wait again.
    Again,
    /// Say this, sleep for so many seconds, and wait again.
    Retry { message: String, sleep_s: u64 },
}

/// The next wait after a failure.
pub open spec fn doubled(s: u64) -> u64 {
    if 2 * s <= BACKOFF_MAX_S {
        (2 * s) as u64
    } else {
        BACKOFF_MAX_S
    }
}

/// What a watch says first.
pub fn watching_line(client: &Client) -> (r: String)
    ensures
        r@ == "herdr-ferry: watching "@ + client.remote.alias@ + " → "@ + client.dest@,
{
    let mut s = "herdr-ferry: watching ".to_owned();
    s.append(client.remote.alias.as_str());
    s.append(" → ");
    s.append(client.dest.as_str());
    s
}

/// The arguments for the server with which a watch waits.
pub fn wait_args() -> (r: Vec<&'static str>)
    ensures
        crate::command::strs(r@) == seq!["outbox-wait"@, "--timeout"@, "55"@],
{
    let v = vec!["outbox-wait", "--timeout", "55"];
    proof {
        assert(crate::command::strs(v@) == seq!["outbox-wait"@, "--timeout"@, "55"@]);
    }
    v
}

fn retry_line(what: &str, secs: u64) -> (r: String)
    ensures
        r@ == "herdr-ferry: "@ + what@ + "; retrying in "@ + text::dec(secs as nat) + "s"@,
{
    let mut s = "herdr-ferry: ".to_owned();
    s.append(what);
    s.append("; retrying in ");
    text::push_dec(&mut s, secs);
    s.append("s");
    s
}

impl Watch {
    /// Whether the wait after the next failure is within its bounds.
    pub open spec fn wf(self) -> bool {
        BACKOFF_MIN_S <= self.backoff_s <= BACKOFF_MAX_S
    }

    /// A wait has ended with an exit code. Items or a timeout are no failure.
    pub fn waited(&mut self, code: i32) -> (r: WatchStep)
        requires
            old(self).wf(),
        ensures
            final(self).wf(),
            code == 0 || code == 2 ==> final(self).backoff_s == BACKOFF_MIN_S,
            code != 0 && code != 2 ==> final(self).backoff_s == doubled(old(self).backoff_s),
            match r {
                WatchStep::Drain => code == 0,
                WatchStep::Again => code == 2,
                WatchStep::Retry { message, sleep_s } => {
                    &&& code != 0 && code != 2
                    &&& sleep_s == old(self).backoff_s
                    &&& message@ == "herdr-ferry: "@ + ("ssh/remote exited "@
                        + text::dec_signed(code as int)) + "; retrying in "@ + text::dec(
                        sleep_s as nat,
                    ) + "s"@
                },
            },
    {
        if code == 0 || code == 2 {
            self.backoff_s = BACKOFF_MIN_S;
            if code == 0 {
                return WatchStep::Drain;
            }
            return WatchStep::Again;
        }
        let mut what = "ssh/remote exited ".to_owned();
        what.append(text::decimal_signed(code).as_str());
        self.failed(what.as_str())
    }

    /// A wait has failed for the reason `what`.
    pub fn failed(&mut self, what: &str) -> (r: WatchStep)
        requires
            old(self).wf(),
        ensures
            final(self).wf(),
            final(self).backoff_s == doubled(old(self).backoff_s),
            match r {
                WatchStep::Retry { message, sleep_s } => {
                    &&& sleep_s == old(self).backoff_s
                    &&& message@ == "herdr-ferry: "@ + what@ + "; retrying in "@ + text::dec(
                        sleep_s as nat,
                    ) + "s"@
                },
                _ => false,
            },
    {
        let sleep_s: u64 = self.backoff_s;
        let message = retry_line(what, sleep_s);
        self.backoff_s = if sleep_s * 2 <= BACKOFF_MAX_S {
            sleep_s * 2
        } else {
            BACKOFF_MAX_S
        };
        WatchStep::Retry { message, sleep_s }
    }
}

/// Starts to watch.
pub fn watch() -> (r: Watch)
    ensures
        r.wf(),
        r.backoff_s == backoff_after(0),
{
    Watch { backoff_s: BACKOFF_MIN_S }
}

/// How long a watch waits after `n` failures in a row.
pub open spec fn backoff_after(n: nat) -> u64
    decreases n,
{
    if n == 0 {
        BACKOFF_MIN_S
    } else {
        doubled(backoff_after((n - 1) as nat))
    }
}

/// The wait after a failure doubles from failure to failure, from one second up to thirty.
pub proof fn law_backoff(n: nat)
    ensures
        BACKOFF_MIN_S <= backoff_after(n) <= BACKOFF_MAX_S,
        n <= 4 ==> backoff_after(n) == vstd::arithmetic::power2::pow2(n),
        n >= 5 ==> backoff_after(n) == BACKOFF_MAX_S,
    decreases n,
{
    vstd::arithmetic::power2::lemma2_to64();
    if n > 0 {
        law_backoff((n - 1) as nat);
    }
}

/// A push under way.
pub struct Pushing {
    /// The paths that were given.
    pub paths: Vec<String>,
    /// How many of them have been pushed.
    pub done: usize,
    /// The id of the last one that has been pushed.
    pub last_id: Option<String>,
    /// Whether its path is to be pasted into the focused agent.
    pub paste: bool,
}

/// What a push does next.
pub enum PushStep {
    /// Push what this path leads to.
    Path { raw: String },
    /// Have the server paste the path of the item `id`.
    Paste { id: String },
    /// Nothing is left to do.
    Done,
}

/// Starts a push of some paths.
pub fn push(paths: &Vec<String>, paste: bool) -> (r: Result<Pushing, Error>)
    ensures
        match r {
            Ok(p) => {
                &&& paths@.len() > 0
                &&& p.wf()
                &&& p.paths@ == paths@
                &&& p.done == 0
                &&& p.last_id is None
                &&& p.paste == paste
            },
            Err(Error::NothingToPush) => paths@.len() == 0,
            Err(_) => false,
        },
{
    if paths.len() == 0 {
        return Err(Error::NothingToPush);
    }
    Ok(Pushing { paths: crate::command::copy_texts(paths), done: 0, last_id: None, paste })
}

impl Pushing {
    /// Whether an id is there once something has been pushed, and not before.
    pub open spec fn wf(self) -> bool {
        self.done <= self.paths@.len() && (self.last_id is Some <==> self.done > 0)
    }

    /// What is to be done next.
    pub fn next(&self) -> (r: PushStep)
        requires
            self.wf(),
        ensures
            match r {
                PushStep::Path { raw } => self.done < self.paths@.len() && raw
                    == self.paths@[self.done as int],
                PushStep::Paste { id } => self.done == self.paths@.len() && self.paste
                    && self.last_id == Some(id),
                PushStep::Done => self.done == self.paths@.len() && !(self.paste
                    && self.last_id is Some),
            },
    {
        if self.done < self.paths.len() {
            return PushStep::Path { raw: self.paths[self.done].clone() };
        }
        if self.paste {
            if let Some(id) = &self.last_id {
                return PushStep::Paste { id: id.clone() };
            }
        }
        PushStep::Done
    }

    /// What was asked for by `next` is on the server under `id`.
    pub fn pushed(&mut self, id: String)
        requires
            old(self).wf(),
            old(self).done < old(self).paths@.len(),
        ensures
            final(self).wf(),
            final(self).paths@ == old(self).paths@,
            final(self).done == old(self).done + 1,
            final(self).last_id == Some(id),
            final(self).paste == old(self).paste,
    {
        proof {
            assert(self.paths.len() <= usize::MAX);
        }
        self.done = self.done + 1;
        self.last_id = Some(id);
    }
}

/// The name of what the path `raw` leads to, which is `full` if it exists.
pub fn pushed_name(raw: &str, full: Option<&str>) -> (r: Result<String, Error>)
    ensures
        match r {
            Ok(n) => full matches Some(f) && path::last_name(f@) == Some(n@),
            Err(Error::DoesNotExist { path: p }) => full is None && p@ == raw@,
            Err(Error::BadPath) => full matches Some(f) && path::last_name(f@) is None,
            Err(_) => false,
        },
{
    match full {
        None => Err(Error::DoesNotExist { path: raw.to_owned() }),
        Some(f) => match path::file_name(f) {
            Some(n) => Ok(n),
            None => Err(Error::BadPath),
        },
    }
}

/// The name of the archive of a directory that is pushed, by the number of the process.
pub fn push_file_name(pid: u32) -> (r: String)
    ensures
        r@ == "herdr-ferry-push-"@ + text::dec(pid as nat) + ".tar.gz"@,
{
    let mut s = "herdr-ferry-push-".to_owned();
    text::push_dec(&mut s, pid as u64);
    s.append(".tar.gz");
    s
}

/// The name under which something is pushed.
pub open spec fn pushed_as(name: Seq<char>, is_dir: bool) -> Seq<char> {
    if is_dir {
        name + ".tar.gz"@
    } else {
        name
    }
}

/// The arguments for the server that announce a payload.
pub open spec fn receive_args(
    send_name: Seq<char>,
    is_dir: bool,
    size: nat,
    sha256: Seq<char>,
    mime: Seq<char>,
    note: Option<Seq<char>>,
) -> Seq<Seq<char>> {
    seq![
        "inbox-receive"@,
        "--name"@,
        send_name,
        "--sha256"@,
        sha256,
        "--size"@,
        text::dec(size),
        "--kind"@,
        if is_dir {
            Kind::Dir.text()
        } else {
            Kind::File.text()
        },
        "--mime"@,
        mime,
    ] + match note {
        Some(n) => seq!["--note"@, n],
        None => seq![],
    }
}

/// The arguments for the server that announce the file `name`, or the archive of the
/// directory `name`.
pub fn push_args(
    name: &str,
    is_dir: bool,
    size: u64,
    sha256: &str,
    note: Option<&str>,
) -> (r: Vec<String>)
    ensures
        text::texts(r@) == receive_args(
            pushed_as(name@, is_dir),
            is_dir,
            size as nat,
            sha256@,
            outside::mime_of(pushed_as(name@, is_dir)),
            text::str_option(note),
        ),
{
    let mut send_name = name.to_owned();
    if is_dir {
        send_name.append(".tar.gz");
    }
    let mime = util::mime_for(send_name.as_str());
    announce(send_name.as_str(), is_dir, size, sha256, mime.as_str(), note)
}

/// The arguments for the server that announce a payload with the name `send_name` and the
/// media type `mime`.
pub fn announce(
    send_name: &str,
    is_dir: bool,
    size: u64,
    sha256: &str,
    mime: &str,
    note: Option<&str>,
) -> (r: Vec<String>)
    ensures
        text::texts(r@) == receive_args(
            send_name@,
            is_dir,
            size as nat,
            sha256@,
            mime@,
            text::str_option(note),
        ),
{
    let kind = if is_dir {
        Kind::Dir.as_str()
    } else {
        Kind::File.as_str()
    };
    let size_text = text::decimal(size);
    let mut args = owned(
        &vec![
            "inbox-receive",
            "--name",
            send_name,
            "--sha256",
            sha256,
            "--size",
            size_text.as_str(),
            "--kind",
            kind,
            "--mime",
            mime,
        ],
    );
    let ghost head = text::texts(args@);
    if let Some(n) = note {
        args.push("--note".to_owned());
        args.push(n.to_owned());
        proof {
            assert(text::texts(args@) == head + seq!["--note"@, n@]);
        }
    }
    proof {
        assert(text::texts(args@) == receive_args(
            send_name@,
            is_dir,
            size as nat,
            sha256@,
            mime@,
            text::str_option(note),
        ));
    }
    args
}

/// What is said of something that has been pushed.
pub fn pushed_line(id: &str, name: &str) -> (r: String)
    ensures
        r@ == id@ + "\t"@ + name@,
{
    let mut s = id.to_owned();
    s.append("\t");
    s.append(name);
    s
}

/// The command line that writes text to the clipboard, by the programs that there are.
pub fn set_clipboard_text<F: Fn(&str) -> bool>(macos: bool, have: F) -> (r: Result<Command, Error>)
    requires
        forall|s: &str| call_requires(have, (s,)),
    ensures
        match r {
            Ok(c) => {
                ||| macos && c@ == (CommandView { program: "pbcopy"@, args: seq![] })
                ||| !macos && send::has(have, "wl-copy"@) && c@ == (CommandView {
                    program: "wl-copy"@,
                    args: seq![],
                })
                ||| !macos && send::lacks(have, "wl-copy"@) && send::has(have, "xclip"@) && c@ == (
                CommandView { program: "xclip"@, args: seq!["-selection"@, "clipboard"@] })
            },
            Err(Error::NoClipboardWriter) => !macos && send::lacks(have, "wl-copy"@)
                && send::lacks(have, "xclip"@),
            Err(_) => false,
        },
{
    let c = if macos {
        command("pbcopy", &vec![])
    } else if have("wl-copy") {
        command("wl-copy", &vec![])
    } else if have("xclip") {
        let c = command("xclip", &vec!["-selection", "clipboard"]);
        proof {
            assert(c@.args == seq!["-selection"@, "clipboard"@]);
        }
        return Ok(c);
    } else {
        return Err(Error::NoClipboardWriter);
    };
    proof {
        assert(c@.args == Seq::<Seq<char>>::empty());
    }
    Ok(c)
}

/// What AppleScript calls an image of a media type.
pub open spec fn picture_class(mime: Seq<char>) -> Option<Seq<char>> {
    if mime == "image/png"@ {
        Some("«class PNGf»"@)
    } else if mime == "image/jpeg"@ {
        Some("JPEG picture"@)
    } else if mime == "image/gif"@ {
        Some("GIF picture"@)
    } else if mime == "image/tiff"@ {
        Some("TIFF picture"@)
    } else {
        None
    }
}

/// The script that puts an image on the clipboard of macOS.
pub open spec fn picture_script(path: Seq<char>, class: Seq<char>) -> Seq<char> {
    "set the clipboard to (read (POSIX file \""@ + path + "\") as "@ + class + ")"@
}

fn picture_class_of(mime: &str) -> (r: Option<&'static str>)
    ensures
        text::str_option(r) == picture_class(mime@),
{
    if str_eq(mime, "image/png") {
        Some("«class PNGf»")
    } else if str_eq(mime, "image/jpeg") {
        Some("JPEG picture")
    } else if str_eq(mime, "image/gif") {
        Some("GIF picture")
    } else if str_eq(mime, "image/tiff") {
        Some("TIFF picture")
    } else {
        None
    }
}

/// The command line that puts the image at `path` on the clipboard, by the programs that
/// there are.
pub fn set_clipboard_image<F: Fn(&str) -> bool>(
    path: &str,
    mime: &str,
    macos: bool,
    have: F,
) -> (r: Result<Command, Error>)
    requires
        forall|s: &str| call_requires(have, (s,)),
    ensures
        match r {
            Ok(c) => {
                ||| macos && picture_class(mime@) is Some && c@ == (CommandView {
                    program: "osascript"@,
                    args: seq!["-e"@, picture_script(path@, picture_class(mime@)->0)],
                })
                ||| !macos && send::has(have, "wl-copy"@) && c@ == (CommandView {
                    program: "sh"@,
                    args: seq![
                        "-c"@,
                        "wl-copy -t "@ + util::shell_quoted(mime@) + " < "@ + util::shell_quoted(
                            path@,
                        ),
                    ],
                })
                ||| !macos && send::lacks(have, "wl-copy"@) && send::has(have, "xclip"@) && c@ == (
                CommandView {
                    program: "xclip"@,
                    args: seq!["-selection"@, "clipboard"@, "-t"@, mime@, "-i"@, path@],
                })
            },
            Err(Error::UnsupportedImage { mime: m }) => macos && picture_class(mime@) is None
                && m@ == mime@,
            Err(Error::NoImageWriter) => !macos && send::lacks(have, "wl-copy"@) && send::lacks(
                have,
                "xclip"@,
            ),
            Err(_) => false,
        },
{
    if macos {
        let class = match picture_class_of(mime) {
            Some(c) => c,
            None => {
                return Err(Error::UnsupportedImage { mime: mime.to_owned() });
            },
        };
        let mut script = "set the clipboard to (read (POSIX file \"".to_owned();
        script.append(path);
        script.append("\") as ");
        script.append(class);
        script.append(")");
        let c = command("osascript", &vec!["-e", script.as_str()]);
        proof {
            assert(c@.args == seq!["-e"@, picture_script(path@, class@)]);
        }
        return Ok(c);
    }
    if have("wl-copy") {
        let mut line = "wl-copy -t ".to_owned();
        line.append(util::sh_quote(mime).as_str());
        line.append(" < ");
        line.append(util::sh_quote(path).as_str());
        let c = command("sh", &vec!["-c", line.as_str()]);
        proof {
            assert(c@.args == seq!["-c"@, line@]);
        }
        Ok(c)
    } else if have("xclip") {
        let c = command("xclip", &vec!["-selection", "clipboard", "-t", mime, "-i", path]);
        proof {
            assert(c@.args == seq!["-selection"@, "clipboard"@, "-t"@, mime@, "-i"@, path@]);
        }
        Ok(c)
    } else {
        Err(Error::NoImageWriter)
    }
}

/// A text as it stands between quotes in AppleScript.
pub open spec fn escaped(s: Seq<char>) -> Seq<char> {
    text::replaced(text::replaced(s, '\\', "\\\\"@), '"', "\\\""@)
}

/// How the user is told something: by `first` if it is there and succeeds, otherwise by
/// `fallback`.
pub struct Notice {
    pub first: Option<Command>,
    pub fallback: Option<Command>,
}

/// The arguments of `terminal-notifier`.
pub open spec fn notifier_args(
    title: Seq<char>,
    body: Seq<char>,
    path: Option<Seq<char>>,
) -> Seq<Seq<char>> {
    seq!["-title"@, title, "-message"@, body, "-group"@, "herdr-ferry"@] + match path {
        Some(p) => seq!["-open"@, "file://"@ + p],
        None => seq![],
    }
}

/// The script that shows a notification on macOS.
pub open spec fn notify_script(title: Seq<char>, body: Seq<char>) -> Seq<char> {
    "display notification \""@ + escaped(body) + "\" with title \""@ + escaped(title) + "\""@
}

fn escape(s: &str) -> (r: String)
    ensures
        r@ == escaped(s@),
{
    let once = text::replace(s, '\\', "\\\\");
    text::replace(once.as_str(), '"', "\\\"")
}

/// How the user is told of something that lies at `path`, by the programs that there are.
pub fn notify<F: Fn(&str) -> bool>(
    title: &str,
    body: &str,
    path: Option<&str>,
    macos: bool,
    have: F,
) -> (r: Notice)
    requires
        forall|s: &str| call_requires(have, (s,)),
    ensures
        match r.first {
            Some(c) => macos && send::has(have, "terminal-notifier"@) && c@ == (CommandView {
                program: "terminal-notifier"@,
                args: notifier_args(title@, body@, text::str_option(path)),
            }),
            None => macos ==> send::lacks(have, "terminal-notifier"@),
        },
        match r.fallback {
            Some(c) => {
                ||| macos && c@ == (CommandView {
                    program: "osascript"@,
                    args: seq!["-e"@, notify_script(title@, body@)],
                })
                ||| !macos && send::has(have, "notify-send"@) && c@ == (CommandView {
                    program: "notify-send"@,
                    args: seq!["-a"@, "herdr-ferry"@, title@, body@],
                })
            },
            None => !macos && send::lacks(have, "notify-send"@),
        },
{
    if macos {
        let mut first: Option<Command> = None;
        if have("terminal-notifier") {
            let mut args = owned(
                &vec!["-title", title, "-message", body, "-group", "herdr-ferry"],
            );
            let ghost head = text::texts(args@);
            if let Some(p) = path {
                let mut url = "file://".to_owned();
                url.append(p);
                args.push("-open".to_owned());
                args.push(url);
                proof {
                    assert(text::texts(args@) == head + seq!["-open"@, "file://"@ + p@]);
                }
            }
            proof {
                assert(text::texts(args@) == notifier_args(title@, body@, text::str_option(path)));
            }
            first = Some(Command { program: "terminal-notifier".to_owned(), args });
        }
        let mut script = "display notification \"".to_owned();
        script.append(escape(body).as_str());
        script.append("\" with title \"");
        script.append(escape(title).as_str());
        script.append("\"");
        let c = command("osascript", &vec!["-e", script.as_str()]);
        proof {
            assert(c@.args == seq!["-e"@, notify_script(title@, body@)]);
        }
        return Notice { first, fallback: Some(c) };
    }
    if have("notify-send") {
        let c = command("notify-send", &vec!["-a", "herdr-ferry", title, body]);
        proof {
            assert(c@.args == seq!["-a"@, "herdr-ferry"@, title@, body@]);
        }
        return Notice { first: None, fallback: Some(c) };
    }
    Notice { first: None, fallback: None }
}

/// The command line that opens what lies at `p`.
pub fn open_path(p: &str, macos: bool) -> (r: Command)
    ensures
        r@ == (CommandView {
            program: if macos {
                "open"@
            } else {
                "xdg-open"@
            },
            args: seq![p@],
        }),
{
    let c = if macos {
        command("open", &vec![p])
    } else {
        command("xdg-open", &vec![p])
    };
    proof {
        assert(c@.args == seq![p@]);
    }
    c
}

/// The server accepts what a client announces: the name stays as it is, and the kind is
/// one that it knows.
pub proof fn law_announcement_is_accepted(full: Seq<char>, is_dir: bool)
    requires
        path::last_name(full) is Some,
    ensures
        ({
            let name = pushed_as(path::last_name(full)->0, is_dir);
            path::last_name(name) == Some(name)
        }),
        forall|size: nat, sha256: Seq<char>, mime: Seq<char>, note: Option<Seq<char>>|
            (#[trigger] receive_args(
                pushed_as(path::last_name(full)->0, is_dir),
                is_dir,
                size,
                sha256,
                mime,
                note,
            ))[8] == (if is_dir {
                Kind::Dir
            } else {
                Kind::File
            }).text(),
{
    let base = path::last_name(full)->0;
    let name = pushed_as(base, is_dir);
    path::law_last_name_is_plain(full);
    lemma_archive_name_is_plain(base);
    path::law_name_of_plain_name(name);
}

proof fn lemma_archive_name_is_plain(name: Seq<char>)
    requires
        path::plain_name(name),
    ensures
        path::plain_name(name + ".tar.gz"@),
{
    reveal_strlit(".tar.gz");
    let full = name + ".tar.gz"@;
    assert(full.len() > 2);
    if full.contains('/') {
        let i = choose|i: int| 0 <= i < full.len() && full[i] == '/';
        if i < name.len() {
            assert(name.contains(name[i]));
        }
    }
}

/// A directory that is pushed is found again under its own name, also where that looks like
/// the name of an archive.
pub proof fn law_pushed_dir_keeps_its_name(dir: Seq<char>, name: Seq<char>)
    ensures
        inbox::archive_stem(pushed_as(name, true)) == name,
        inbox::unpacked_at(dir, pushed_as(name, true)) == path::path_joined(
            state::payload_folder(dir, name),
            name,
        ),
{
    reveal_strlit(".tar.gz");
    let full = name + ".tar.gz"@;
    assert(full.skip(full.len() - 7) =~= ".tar.gz"@);
    assert(".tar.gz"@.is_suffix_of(full));
    assert(full.take(full.len() - 7) =~= name);
}

/// Two sides of the same version go on without a word.
pub proof fn law_same_version_is_fine(version: Seq<char>)
    requires
        text::trimmed(version) == version,
    ensures
        announced(outbox::header_text(version)) == Some(version),
{
    let header = outbox::header_text(version);
    assert(header.take("#herdr-ferry "@.len() as int) =~= "#herdr-ferry "@);
    assert(header.skip("#herdr-ferry "@.len() as int) =~= version);
}

/// What AppleScript reads between quotes: a backslash stands for the character behind it,
/// and a quote ends the text.
pub open spec fn script_reads(s: Seq<char>) -> Option<Seq<char>>
    decreases s.len(),
{
    if s.len() == 0 {
        Some(Seq::empty())
    } else if s[0] == '"' || (s[0] == '\\' && s.len() == 1) {
        None
    } else {
        let n: int = if s[0] == '\\' {
            2
        } else {
            1
        };
        match script_reads(s.skip(n)) {
            Some(rest) => Some(seq![s[n - 1]] + rest),
            None => None,
        }
    }
}

proof fn lemma_script_reads_on(a: Seq<char>, b: Seq<char>)
    requires
        script_reads(a) is Some,
        script_reads(b) is Some,
    ensures
        script_reads(a + b) == Some((script_reads(a)->0) + (script_reads(b)->0)),
    decreases a.len(),
{
    if a.len() == 0 {
        assert(a + b =~= b);
        assert(Seq::<char>::empty() + (script_reads(b)->0) =~= script_reads(b)->0);
    } else {
        let n: int = if a[0] == '\\' {
            2
        } else {
            1
        };
        lemma_script_reads_on(a.skip(n), b);
        assert((a + b).skip(n) =~= a.skip(n) + b);
        let x = script_reads(a.skip(n))->0;
        let y = script_reads(b)->0;
        assert(seq![a[n - 1]] + (x + y) =~= (seq![a[n - 1]] + x) + y);
    }
}

proof fn lemma_replaced_add(a: Seq<char>, b: Seq<char>, c: char, by: Seq<char>)
    ensures
        text::replaced(a + b, c, by) == text::replaced(a, c, by) + text::replaced(b, c, by),
    decreases b.len(),
{
    if b.len() == 0 {
        assert(a + b =~= a);
    } else {
        lemma_replaced_add(a, b.drop_last(), c, by);
        assert((a + b).drop_last() =~= a + b.drop_last());
    }
}

/// A notification on macOS shows exactly the text that it was given.
pub proof fn law_script_reads_escaped(s: Seq<char>)
    ensures
        script_reads(escaped(s)) == Some(s),
    decreases s.len(),
{
    reveal_strlit("\\\\");
    reveal_strlit("\\\"");
    if s.len() > 0 {
        let front = s.drop_last();
        let last = s.last();
        law_script_reads_escaped(front);
        assert(s =~= front + seq![last]);
        lemma_replaced_add(front, seq![last], '\\', "\\\\"@);
        lemma_replaced_add(
            text::replaced(front, '\\', "\\\\"@),
            text::replaced(seq![last], '\\', "\\\\"@),
            '"',
            "\\\""@,
        );
        let tail = escaped(seq![last]);
        reveal_with_fuel(text::replaced, 3);
        assert(seq![last].drop_last() =~= Seq::<char>::empty());
        if last == '\\' {
            assert(text::replaced(seq![last], '\\', "\\\\"@) =~= seq!['\\', '\\']);
            assert(seq!['\\', '\\'].drop_last() =~= seq!['\\']);
            assert(seq!['\\'].drop_last() =~= Seq::<char>::empty());
            assert(tail =~= seq!['\\', '\\']);
        } else {
            assert(text::replaced(seq![last], '\\', "\\\\"@) =~= seq![last]);
            if last == '"' {
                assert(tail =~= seq!['\\', '"']);
            } else {
                assert(tail =~= seq![last]);
            }
        }
        reveal_with_fuel(script_reads, 3);
        assert(tail.skip(tail.len() as int) =~= Seq::<char>::empty());
        assert(script_reads(tail) == Some(seq![last])) by {
            assert(seq![last] + Seq::<char>::empty() =~= seq![last]);
        }
        lemma_script_reads_on(escaped(front), tail);
    } else {
        assert(escaped(s) =~= Seq::<char>::empty());
        assert(s =~= Seq::<char>::empty());
    }
}

/// A directory arrives with the same tree: the entry for the path `names` in the directory
/// `name` goes to the path `names` in the directory that it is unpacked into.
pub proof fn law_tree_is_kept(out: Seq<char>, name: Seq<char>, names: Seq<Seq<char>>)
    requires
        out.len() > 0,
        path::plain_name(name),
        path::plain_names(names),
        names.len() > 0,
    ensures
        ({
            let entry = text::joined(seq![name] + names, seq!['/']);
            &&& path::tail_of(entry).len() > 0
            &&& path::components_of(path::path_joined(out, path::tail_of(entry)))
                == path::components_of(out) + path::normal_parts(names)
        }),
{
    let all = seq![name] + names;
    assert forall|i: int| 0 <= i < all.len() implies path::plain_name(#[trigger] all[i]) by {
        if i > 0 {
            assert(path::plain_name(names[i - 1]));
        }
    }
    path::law_tail_of_names(all);
    assert(all.skip(1) =~= names);
    path::law_join_names(out, names);
    path::lemma_joined_shape(names);
}

/// What is announced reads back as what is sent: behind `--name`, `--sha256` and `--mime`
/// stand the name, the digest and the media type as they are, behind `--size` the number of
/// bytes in decimal, behind `--kind` what it is, and behind `--note` the note, if there is
/// one.
pub proof fn law_announcement_reads_back(
    name: Seq<char>,
    is_dir: bool,
    size: nat,
    sha256: Seq<char>,
    mime: Seq<char>,
    note: Option<Seq<char>>,
)
    ensures
        ({
            let args = receive_args(name, is_dir, size, sha256, mime, note);
            &&& args[0] == "inbox-receive"@
            &&& args[1] == "--name"@ && args[2] == name
            &&& args[3] == "--sha256"@ && args[4] == sha256
            &&& args[5] == "--size"@ && text::decimal_value(args[6]) == size
            &&& forall|i: int| 0 <= i < args[6].len() ==> '0' <= #[trigger] args[6][i] <= '9'
            &&& args[7] == "--kind"@ && args[8] == if is_dir {
                "dir"@
            } else {
                "file"@
            }
            &&& args[9] == "--mime"@ && args[10] == mime
            &&& note is None ==> args.len() == 11
            &&& note matches Some(n) ==> args.len() == 13 && args[11] == "--note"@ && args[12] == n
        }),
{
    text::law_decimal_reads_back(size);
}

/// A file is pushed under its own name, and a directory as an archive under its whole name.
pub proof fn law_pushed_name(name: Seq<char>)
    ensures
        pushed_as(name, false) == name,
        pushed_as(name, true) == name + ".tar.gz"@,
        inbox::archive_stem(pushed_as(name, true)) == name,
{
    law_pushed_dir_keeps_its_name(Seq::empty(), name);
}

/// A payload is saved under exactly the name of its item where that is free, and never where
/// something lies already.
pub proof fn law_saved_under_its_name<F: Fn(&str) -> bool>(
    taken: F,
    places: Set<Seq<char>>,
    dir: Seq<char>,
    name: Seq<char>,
    d: Seq<char>,
)
    requires
        forall|s: &str, b: bool| #[trigger]
            call_ensures(taken, (s,), b) ==> b == places.contains(s@),
        is_free_place(dir, name, taken, d),
    ensures
        !places.contains(d),
        !places.contains(path::path_joined(dir, name)) ==> d == path::path_joined(dir, name),
{
    let k = choose|k: nat|
        1 <= k <= i32::MAX && d == #[trigger] util::dest_candidate(dir, name, k) && util::said(
            taken,
            d,
            false,
        ) && forall|j: nat|
            1 <= j < k ==> util::said(taken, #[trigger] util::dest_candidate(dir, name, j), true);
    if !places.contains(path::path_joined(dir, name)) {
        util::law_free_name_is_kept(taken, places, dir, name, k);
    }
}

/// A payload is saved directly in the directory for what is fetched, whatever it is called.
pub proof fn law_saved_in_its_directory<F: Fn(&str) -> bool>(
    taken: F,
    dir: Seq<char>,
    name: Seq<char>,
    d: Seq<char>,
)
    requires
        dir.len() > 0,
        path::plain_name(name),
        is_free_place(dir, name, taken, d),
    ensures
        path::components_of(d).len() == path::components_of(dir).len() + 1,
        path::lies_under(d, dir),
{
    let k = choose|k: nat|
        1 <= k <= i32::MAX && d == #[trigger] util::dest_candidate(dir, name, k) && util::said(
            taken,
            d,
            false,
        ) && forall|j: nat|
            1 <= j < k ==> util::said(taken, #[trigger] util::dest_candidate(dir, name, j), true);
    util::law_place_lies_in_directory(dir, name, k);
}

/// The major version is what stands before the first dot.
pub proof fn law_major(a: Seq<char>, b: Seq<char>)
    requires
        !a.contains('.'),
    ensures
        major(a) == a,
        major(a.push('.') + b) == a,
{
    text::law_split_without_separator(a, '.');
    text::law_split_at_separator(a, '.', b);
}

/// What a version is announced by gives it back, whatever white space stands around it, and
/// any other line announces none.
pub proof fn law_announced_version(pre: Seq<char>, version: Seq<char>, post: Seq<char>)
    requires
        text::all_space(pre),
        text::all_space(post),
        version.len() > 0,
        !text::is_space(version[0]) && !text::is_space(version.last()),
    ensures
        announced("#herdr-ferry "@ + (pre + version + post)) == Some(version),
{
    let head = "#herdr-ferry "@;
    let line = head + (pre + version + post);
    assert(line.take(head.len() as int) =~= head);
    assert(line.skip(head.len() as int) =~= pre + version + post);
    text::law_trimmed(pre, version, post);
}

/// Files go where they are told to, else where the configuration says, with `~` for the home
/// directory in both, and else to `herdr-ferry` in the directory for downloads.
pub proof fn law_destination(
    given: Seq<char>,
    configured: Option<Seq<char>>,
    downloads: Seq<char>,
    home: Seq<char>,
)
    requires
        downloads.len() > 0,
        home.len() > 0,
        path::components_of(given).len() > 0 ==> path::components_of(given)[0]
            != path::Part::Normal(seq!['~']),
    ensures
        dest_at(Some(given), configured, Some(downloads), home) == given,
        dest_at(None, Some(given), Some(downloads), home) == given,
        path::components_of(dest_at(None, None, Some(downloads), home)) == path::components_of(
            downloads,
        ).push(path::Part::Normal("herdr-ferry"@)),
        path::components_of(dest_at(None, None, None, home)) == path::components_of(home).push(
            path::Part::Normal("Downloads"@),
        ).push(path::Part::Normal("herdr-ferry"@)),
{
    util::law_tilde(given, home);
    reveal_strlit("herdr-ferry");
    reveal_strlit("Downloads");
    assert(path::plain_name("herdr-ferry"@)) by {
        assert("herdr-ferry"@[0] == 'h');
        assert forall|i: int| 0 <= i < "herdr-ferry"@.len() implies "herdr-ferry"@[i] != '/' by {}
    }
    assert(path::plain_name("Downloads"@)) by {
        assert("Downloads"@[0] == 'D');
        assert forall|i: int| 0 <= i < "Downloads"@.len() implies "Downloads"@[i] != '/' by {}
    }
    path::law_join_name(downloads, "herdr-ferry"@);
    path::law_join_name(home, "Downloads"@);
    path::law_join_name(path::path_joined(home, "Downloads"@), "herdr-ferry"@);
}

/// A notification says the note of an item, and without one its whole name and its size.
pub proof fn law_body_names_the_item(it: ItemView)
    ensures
        it.note matches Some(n) ==> body_text(it) == n,
        it.note is None ==> it.name.is_prefix_of(body_text(it)) && body_text(it).len()
            == it.name.len() + util::size_text(it.size).len() + 3,
{
    reveal_strlit(" (");
    reveal_strlit(")");
    if it.note is None {
        assert(it.name =~= body_text(it).take(it.name.len() as int));
        assert(" ("@.len() == 2 && ")"@.len() == 1);
    }
}

/// A push arrives: what a client announces of a file the server takes on, under the name of
/// the file, and as many bytes as the file has pass its check.
pub proof fn law_push_arrives(
    name: &str,
    bytes: u64,
    sha256: &str,
    args: Vec<String>,
    st: &state::State,
    got_name: &str,
    got_sha256: &str,
    got_size: u64,
    got_kind: &str,
    mime: Option<String>,
    note: Option<String>,
    x: inbox::Receiving,
    size: Result<(), Error>,
    same: Result<(), Error>,
)
    requires
        call_ensures(push_args, (name, false, bytes, sha256, None::<&str>), args),
        path::plain_name(name@),
        got_name@ == args@[2]@,
        got_sha256@ == args@[4]@,
        got_size == text::decimal_value(args@[6]@),
        got_kind@ == args@[8]@,
        call_ensures(
            inbox::receive,
            (st, got_name, got_sha256, got_size, got_kind, mime, note),
            Ok(x),
        ),
        call_ensures(inbox::Receiving::check_size, (&x, bytes), size),
        call_ensures(inbox::Receiving::check_digest, (&x, sha256), same),
    ensures
        x.item.name@ == name@,
        size is Ok,
        same is Ok,
{
    let mime_text = outside::mime_of(name@);
    law_announcement_reads_back(name@, false, bytes as nat, sha256@, mime_text, None);
    assert(text::texts(args@)[2] == args@[2]@);
    assert(text::texts(args@)[4] == args@[4]@);
    assert(text::texts(args@)[6] == args@[6]@);
    assert(text::texts(args@)[8] == args@[8]@);
    inbox::law_receive(st, got_name, got_sha256, got_size, got_kind, mime, note, Ok(x));
    inbox::law_checks(&x, bytes, sha256, size, same);
}

/// What is pushed is called by its last name.
pub proof fn law_pushed_under_its_name(
    raw: &str,
    full: &str,
    dir: Seq<char>,
    name: Seq<char>,
    r: Result<String, Error>,
)
    requires
        call_ensures(pushed_name, (raw, Some(full)), r),
        dir.len() > 0,
        path::plain_name(name),
        full@ == path::path_joined(dir, name),
    ensures
        r matches Ok(n) && n@ == name,
{
    path::law_join_lies_under(dir, name);
}

/// A file that is fetched is saved under exactly its name where that is free, and an image is
/// put on the clipboard too. Text goes to the clipboard alone.
pub proof fn law_save<F: Fn(&str) -> bool>(
    dest: &str,
    item: &Item,
    taken: F,
    places: Set<Seq<char>>,
    r: Option<Saving>,
)
    requires
        call_ensures(save::<F>, (dest, item, taken), r),
        forall|s: &str, b: bool| #[trigger]
            call_ensures(taken, (s,), b) ==> b == places.contains(s@),
        !places.contains(path::path_joined(dest@, item.name@)),
    ensures
        item.kind == Kind::ClipboardText <==> (r matches Some(s) && s is Text),
        item.kind == Kind::Dir ==> (r matches Some(Saving::Dir { out, .. }) && out@
            == path::path_joined(dest@, item.name@)),
        item.kind == Kind::File || item.kind == Kind::ClipboardImage ==> (r matches Some(
            Saving::File { dest: d, image, .. },
        ) && d@ == path::path_joined(dest@, item.name@) && (image <==> "image/"@.is_prefix_of(
            item.mime@,
        ))),
{
    match r {
        Some(Saving::Dir { out, .. }) => {
            law_saved_under_its_name(taken, places, dest@, item.name@, out@);
        },
        Some(Saving::File { dest: d, .. }) => {
            law_saved_under_its_name(taken, places, dest@, item.name@, d@);
        },
        Some(Saving::Text { .. }) => {},
        None => {
            if item.kind != Kind::ClipboardText {
                assert(util::said(taken, util::dest_candidate(dest@, item.name@, 1), true));
            }
        },
    }
}

/// A server of the same version is fine, one of another major version is refused, and any
/// other one is worth a warning.
pub proof fn law_check_version(
    header: &str,
    local: &str,
    remote: Seq<char>,
    r: Handshake,
)
    requires
        call_ensures(check_version, (header, local), r),
        header@ == "#herdr-ferry "@ + remote,
        remote.len() > 0,
        !text::is_space(remote[0]) && !text::is_space(remote.last()),
    ensures
        r is Fine <==> remote == local@,
        r is Refuse <==> remote != local@ && major(remote) != major(local@),
{
    let none = Seq::<char>::empty();
    law_announced_version(none, remote, none);
    assert(none + remote + none =~= remote);
}

/// A delivery with the digest of its item goes on to be reported, and with any other one it
/// is fetched once more and then given up.
pub proof fn law_only_the_digest_counts(digest: Seq<char>, sha256: Seq<char>)
    ensures
        digest == sha256 ==> (Phase::Fetch { attempt: 1 }).behind(
            Event::Fetched { digest },
            sha256,
        ) == Phase::Ack && (Phase::Fetch { attempt: 2 }).behind(Event::Fetched { digest }, sha256)
            == Phase::Ack,
        digest != sha256 ==> (Phase::Fetch { attempt: 1 }).behind(
            Event::Fetched { digest },
            sha256,
        ) == (Phase::Fetch { attempt: 2 }) && (Phase::Fetch { attempt: 2 }).behind(
            Event::Fetched { digest },
            sha256,
        ) == Phase::Mismatch,
{
}

/// A delivery asks the server for its own item, and for the step that it has come to.
pub proof fn law_delivery_asks_for_its_item(d: &Delivery, r: Option<Vec<&str>>)
    requires
        call_ensures(Delivery::args, (d,), r),
    ensures
        r is Some <==> d.phase is Claim || d.phase is Fetch || d.phase is Ack,
        r matches Some(v) ==> {
            &&& v@.len() == 2 && v@[1]@ == d.item.id@
            &&& d.phase is Claim ==> v@[0]@ == "outbox-claim"@
            &&& d.phase is Fetch ==> v@[0]@ == "outbox-cat"@
            &&& d.phase is Ack ==> v@[0]@ == "outbox-ack"@
        },
{
    if let Some(v) = r {
        let s = crate::command::strs(v@);
        assert(s.len() == v@.len());
        assert(s[0] == v@[0]@ && s[1] == v@[1]@);
    }
}

/// A notification on macOS says the title and the body, whatever is in them.
pub proof fn law_notification_reads_back(title: Seq<char>, body: Seq<char>)
    ensures
        notify_script(title, body) == "display notification \""@ + escaped(body)
            + "\" with title \""@ + escaped(title) + "\""@,
        script_reads(escaped(body)) == Some(body),
        script_reads(escaped(title)) == Some(title),
{
    law_script_reads_escaped(body);
    law_script_reads_escaped(title);
}

/// A notifier is told the title and the body as they are, and opens what was saved.
pub proof fn law_notifier(title: Seq<char>, body: Seq<char>, p: Seq<char>)
    ensures
        notifier_args(title, body, None).len() == 6,
        notifier_args(title, body, None)[1] == title && notifier_args(title, body, None)[3] == body,
        notifier_args(title, body, Some(p)).len() == 8,
        notifier_args(title, body, Some(p))[1] == title,
        notifier_args(title, body, Some(p))[3] == body,
        notifier_args(title, body, Some(p))[7] == "file://"@ + p,
{
}

/// An image is put on the clipboard from the file that it was saved to, with its media type,
/// whatever is in their names.
pub proof fn law_image_to_clipboard<F: Fn(&str) -> bool>(
    p: &str,
    mime: &str,
    have: F,
    programs: Set<Seq<char>>,
    r: Result<Command, Error>,
)
    requires
        call_ensures(set_clipboard_image::<F>, (p, mime, false, have), r),
        forall|s: &str, b: bool| #[trigger]
            call_ensures(have, (s,), b) ==> b == programs.contains(s@),
    ensures
        r is Ok <==> programs.contains("wl-copy"@) || programs.contains("xclip"@),
        programs.contains("wl-copy"@) ==> (r matches Ok(c) && c@.program == "sh"@ && c@.args.len()
            == 2 && c@.args[1] == "wl-copy -t "@ + util::shell_quoted(mime@) + " < "@
            + util::shell_quoted(p@)),
        !programs.contains("wl-copy"@) && programs.contains("xclip"@) ==> (r matches Ok(c)
            && c@.program == "xclip"@ && c@.args.len() == 6 && c@.args[3] == mime@ && c@.args[5]
            == p@),
        util::shell_words(util::shell_quoted(mime@)) == Some(seq![mime@]),
        util::shell_words(util::shell_quoted(p@)) == Some(seq![p@]),
{
    util::law_shell_reads_quoted(mime@);
    util::law_shell_reads_quoted(p@);
}

/// The script for the clipboard of macOS reads the file that it is told.
pub proof fn law_picture_script(p: Seq<char>, class: Seq<char>)
    ensures
        ("set the clipboard to (read (POSIX file \""@ + p + "\") as "@ + class).is_prefix_of(
            picture_script(p, class),
        ),
{
    let head = "set the clipboard to (read (POSIX file \""@ + p + "\") as "@ + class;
    assert(head =~= picture_script(p, class).take(head.len() as int));
}

/// What is opened is the place of what was saved, and only where that is asked for.
pub proof fn law_open(
    client: &Client,
    saved: &Saving,
    r: Option<&str>,
    p: &str,
    macos: bool,
    c: Command,
)
    requires
        call_ensures(to_open, (client, saved), r),
        call_ensures(open_path, (p, macos), c),
    ensures
        !client.open ==> r is None,
        client.open ==> match saved {
            Saving::Text { .. } => r is None,
            Saving::Dir { out, .. } => r matches Some(x) && x@ == out@,
            Saving::File { dest, .. } => r matches Some(x) && x@ == dest@,
        },
        c@.args == seq![p@],
{
}

/// An entry of an archive goes to the same place below the new directory that it had below
/// the old one.
pub proof fn law_entry_place(out: &str, entry: &str, names: Seq<Seq<char>>, r: Option<String>)
    requires
        call_ensures(entry_place, (out, entry), r),
        path::plain_names(names),
        names.len() > 1,
        entry@ == text::joined(names, seq!['/']),
        out@.len() > 0,
    ensures
        r matches Some(p) && path::components_of(p@) == path::components_of(out@)
            + path::normal_parts(names.skip(1)),
{
    path::law_tail_of_names(names);
    let rest = names.skip(1);
    assert forall|i: int| 0 <= i < rest.len() implies path::plain_name(#[trigger] rest[i]) by {
        assert(rest[i] == names[i + 1]);
    }
    path::lemma_joined_shape(rest);
    path::law_join_names(out@, rest);
}

/// What is said of a delivery names the item by its id and whole name, and the place where it
/// lies.
pub proof fn law_delivered_line(item: &Item, saved: &Saving, r: String)
    requires
        call_ensures(delivered_line, (item, saved), r),
    ensures
        (item.id@ + "\t"@ + item.name@ + "\t"@).is_prefix_of(r@),
        saved_at(*saved) matches Some(p) ==> r@ == item.id@ + "\t"@ + item.name@ + "\t"@ + p,
{
    let head = item.id@ + "\t"@ + item.name@ + "\t"@;
    assert(head =~= r@.take(head.len() as int));
}

/// On macOS an image of one of four media types is put on the clipboard from its file, and no
/// other is.
pub proof fn law_image_on_macos<F: Fn(&str) -> bool>(
    p: &str,
    mime: &str,
    have: F,
    r: Result<Command, Error>,
)
    requires
        call_ensures(set_clipboard_image::<F>, (p, mime, true, have), r),
    ensures
        r is Ok <==> mime@ == "image/png"@ || mime@ == "image/jpeg"@ || mime@ == "image/gif"@
            || mime@ == "image/tiff"@,
        r matches Ok(c) ==> c@.program == "osascript"@ && c@.args.len() == 2 && (
        "set the clipboard to (read (POSIX file \""@ + p@).is_prefix_of(c@.args[1]),
{
    if let Ok(c) = r {
        let s = picture_script(p@, picture_class(mime@)->0);
        let head = "set the clipboard to (read (POSIX file \""@ + p@;
        assert(head =~= s.take(head.len() as int));
    }
}

} // verus!
