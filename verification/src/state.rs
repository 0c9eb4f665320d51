//! The queue: items, the rules by which they change, and where they are kept.

use vstd::prelude::*;

use crate::error::Error;
use crate::order::{self, Ranked};
use crate::outside;
use crate::path;
use crate::text::{self, copy_option, str_eq};
use crate::util;

verus! {

/// How long a claim holds, in milliseconds.
pub const CLAIM_TIMEOUT_MS: u64 = 600000;

/// How long a queued item stands for another one with the same digest, in milliseconds.
pub const DEDUPE_WINDOW_MS: u64 = 2000;

/// The most bytes that undelivered items may have together.
pub const OUTBOX_CAP_BYTES: u64 = 2147483648;

/// The most delivered items that are remembered in the outbox.
pub const MAX_ACKED_SIDECARS: usize = 500;

/// What an item carries.
#[derive(Clone, Copy, Debug, PartialEq, Eq, Structural)]
pub enum Kind {
    File,
    Dir,
    ClipboardText,
    ClipboardImage,
}

impl Kind {
    /// The name of a kind.
    pub open spec fn text(self) -> Seq<char> {
        match self {
            Kind::File => "file"@,
            Kind::Dir => "dir"@,
            Kind::ClipboardText => "clipboard-text"@,
            Kind::ClipboardImage => "clipboard-image"@,
        }
    }

    /// The kind with the name `s`.
    pub fn parse(s: &str) -> (r: Result<Kind, Error>)
        ensures
            match r {
                Ok(k) => k.text() == s@,
                Err(Error::UnknownKind { kind }) => kind@ == s@ && forall|k: Kind|
                    #[trigger] k.text() != s@,
                Err(_) => false,
            },
    {
        if str_eq(s, "file") {
            Ok(Kind::File)
        } else if str_eq(s, "dir") {
            Ok(Kind::Dir)
        } else if str_eq(s, "clipboard-text") {
            Ok(Kind::ClipboardText)
        } else if str_eq(s, "clipboard-image") {
            Ok(Kind::ClipboardImage)
        } else {
            Err(Error::UnknownKind { kind: s.to_owned() })
        }
    }

    /// The name of the kind.
    pub fn as_str(&self) -> (r: &'static str)
        ensures
            r@ == self.text(),
    {
        match self {
            Kind::File => "file",
            Kind::Dir => "dir",
            Kind::ClipboardText => "clipboard-text",
            Kind::ClipboardImage => "clipboard-image",
        }
    }
}

/// A kind is known by its name: what `as_str` writes, `parse` reads back.
pub proof fn law_kind_known_by_name(a: Kind, b: Kind)
    requires
        a.text() == b.text(),
    ensures
        a == b,
{
    reveal_strlit("file");
    reveal_strlit("dir");
    reveal_strlit("clipboard-text");
    reveal_strlit("clipboard-image");
    assert("file"@.len() == 4);
    assert("dir"@.len() == 3);
    assert("clipboard-text"@.len() == 14);
    assert("clipboard-image"@.len() == 15);
}

/// How far an item has come.
#[derive(Clone, Copy, Debug, PartialEq, Eq, Structural)]
pub enum ItemState {
    Queued,
    Claimed,
    Acked,
}

impl ItemState {
    /// The name of a state.
    pub open spec fn text(self) -> Seq<char> {
        match self {
            ItemState::Queued => "queued"@,
            ItemState::Claimed => "claimed"@,
            ItemState::Acked => "acked"@,
        }
    }

    /// The name of the state.
    pub fn as_str(&self) -> (r: &'static str)
        ensures
            r@ == self.text(),
    {
        match self {
            ItemState::Queued => "queued",
            ItemState::Claimed => "claimed",
            ItemState::Acked => "acked",
        }
    }
}

/// Where an item came from.
pub struct Source {
    pub pane_id: Option<String>,
    pub workspace_id: Option<String>,
    pub agent: Option<String>,
    pub cwd: Option<String>,
}

/// What is known of where an item came from.
pub struct SourceView {
    pub pane_id: Option<Seq<char>>,
    pub workspace_id: Option<Seq<char>>,
    pub agent: Option<Seq<char>>,
    pub cwd: Option<Seq<char>>,
}

impl View for Source {
    type V = SourceView;

    open spec fn view(&self) -> SourceView {
        SourceView {
            pane_id: text::text_option(self.pane_id),
            workspace_id: text::text_option(self.workspace_id),
            agent: text::text_option(self.agent),
            cwd: text::text_option(self.cwd),
        }
    }
}

/// The origin of which nothing is known.
pub open spec fn no_source() -> SourceView {
    SourceView { pane_id: None, workspace_id: None, agent: None, cwd: None }
}

impl Default for Source {
    fn default() -> (r: Source)
        ensures
            r@ == no_source(),
    {
        Source { pane_id: None, workspace_id: None, agent: None, cwd: None }
    }
}

impl Clone for Source {
    fn clone(&self) -> (r: Source)
        ensures
            r == *self,
    {
        Source {
            pane_id: copy_option(&self.pane_id),
            workspace_id: copy_option(&self.workspace_id),
            agent: copy_option(&self.agent),
            cwd: copy_option(&self.cwd),
        }
    }
}

/// One transfer, without its payload.
pub struct Item {
    pub id: String,
    pub kind: Kind,
    pub name: String,
    pub size: u64,
    pub sha256: String,
    pub mime: String,
    pub note: Option<String>,
    pub source: Source,
    pub created_unix_ms: u64,
    pub state: ItemState,
    pub claimed_unix_ms: Option<u64>,
    /// `outbox` or `inbox` in the history, nothing elsewhere.
    pub direction: Option<String>,
}

/// What an item says.
pub struct ItemView {
    pub id: Seq<char>,
    pub kind: Kind,
    pub name: Seq<char>,
    pub size: nat,
    pub sha256: Seq<char>,
    pub mime: Seq<char>,
    pub note: Option<Seq<char>>,
    pub source: SourceView,
    pub created_unix_ms: u64,
    pub state: ItemState,
    pub claimed_unix_ms: Option<u64>,
    pub direction: Option<Seq<char>>,
}

impl View for Item {
    type V = ItemView;

    open spec fn view(&self) -> ItemView {
        ItemView {
            id: self.id@,
            kind: self.kind,
            name: self.name@,
            size: self.size as nat,
            sha256: self.sha256@,
            mime: self.mime@,
            note: text::text_option(self.note),
            source: self.source@,
            created_unix_ms: self.created_unix_ms,
            state: self.state,
            claimed_unix_ms: self.claimed_unix_ms,
            direction: text::text_option(self.direction),
        }
    }
}

impl Clone for Item {
    fn clone(&self) -> (r: Item)
        ensures
            r == *self,
    {
        Item {
            id: self.id.clone(),
            kind: self.kind,
            name: self.name.clone(),
            size: self.size,
            sha256: self.sha256.clone(),
            mime: self.mime.clone(),
            note: copy_option(&self.note),
            source: self.source.clone(),
            created_unix_ms: self.created_unix_ms,
            state: self.state,
            claimed_unix_ms: self.claimed_unix_ms,
            direction: copy_option(&self.direction),
        }
    }
}

impl Ranked for Item {
    open spec fn not_after(self, other: Self) -> bool {
        order::lex_le(self.id@, other.id@)
    }

    proof fn lemma_total(a: Self, b: Self) {
        order::lemma_lex_total(a.id@, b.id@);
    }

    proof fn lemma_transitive(a: Self, b: Self, c: Self) {
        order::lemma_lex_transitive(a.id@, b.id@, c.id@);
    }

    fn in_order(&self, other: &Self) -> (r: bool) {
        order::text_le(self.id.as_str(), other.id.as_str())
    }
}

/// The item that enters the queue with an id, at a time.
pub open spec fn fresh_item(
    id: Seq<char>,
    now: u64,
    kind: Kind,
    name: Seq<char>,
    size: nat,
    sha256: Seq<char>,
    mime: Seq<char>,
    note: Option<Seq<char>>,
    source: SourceView,
) -> ItemView {
    ItemView {
        id,
        kind,
        name,
        size,
        sha256,
        mime,
        note,
        source,
        created_unix_ms: now,
        state: ItemState::Queued,
        claimed_unix_ms: None,
        direction: None,
    }
}

/// The name of the payload of an item in the outbox.
pub open spec fn payload_name(it: ItemView) -> Seq<char> {
    if it.kind == Kind::Dir {
        it.name + ".tar.gz"@
    } else {
        "payload"@
    }
}

impl Item {
    /// A queued item with a new id, made now.
    pub fn new(
        kind: Kind,
        name: &str,
        size: u64,
        sha256: &str,
        mime: &str,
        note: Option<String>,
        source: Source,
    ) -> (r: Item)
        ensures
            outside::ulid_text(r.id@),
            r@ == fresh_item(
                r.id@,
                r.created_unix_ms,
                kind,
                name@,
                size as nat,
                sha256@,
                mime@,
                text::text_option(note),
                source@,
            ),
    {
        let id = outside::fresh_ulid();
        let now = util::now_ms();
        Item::made(id, now, kind, name, size, sha256, mime, note, source)
    }

    /// A queued item with the id `id`, made at `now`.
    pub fn made(
        id: String,
        now: u64,
        kind: Kind,
        name: &str,
        size: u64,
        sha256: &str,
        mime: &str,
        note: Option<String>,
        source: Source,
    ) -> (r: Item)
        ensures
            r@ == fresh_item(
                id@,
                now,
                kind,
                name@,
                size as nat,
                sha256@,
                mime@,
                text::text_option(note),
                source@,
            ),
    {
        Item {
            id,
            kind,
            name: name.to_owned(),
            size,
            sha256: sha256.to_owned(),
            mime: mime.to_owned(),
            note,
            source,
            created_unix_ms: now,
            state: ItemState::Queued,
            claimed_unix_ms: None,
            direction: None,
        }
    }

    /// The name of the payload in the item's directory in the outbox.
    pub fn outbox_payload_name(&self) -> (r: String)
        ensures
            r@ == payload_name(self@),
    {
        if self.kind == Kind::Dir {
            let mut s = self.name.clone();
            s.append(".tar.gz");
            s
        } else {
            "payload".to_owned()
        }
    }
}

/// The items among what a directory holds, in the order in which they were found.
pub open spec fn readable(found: Seq<Option<Item>>) -> Seq<Item>
    decreases found.len(),
{
    if found.len() == 0 {
        Seq::empty()
    } else {
        let front = readable(found.drop_last());
        match found.last() {
            Some(it) => front.push(it),
            None => front,
        }
    }
}

/// The items among what a directory holds, in the order of their ids.
pub open spec fn listed(found: Seq<Option<Item>>) -> Seq<Item> {
    order::sorted(readable(found))
}

/// How long `then` lies before `now`; nothing where it lies behind it.
pub open spec fn elapsed(now: u64, then: u64) -> int {
    if now > then {
        now - then
    } else {
        0
    }
}

/// When an item was claimed; the start of the era where that is not known.
pub open spec fn claim_time(it: Item) -> u64 {
    match it.claimed_unix_ms {
        Some(t) => t,
        None => 0,
    }
}

/// Whether a claim has run out.
pub open spec fn stale(it: Item, now: u64) -> bool {
    it.state == ItemState::Claimed && elapsed(now, claim_time(it)) > CLAIM_TIMEOUT_MS
}

/// An item that nobody has claimed.
pub open spec fn unclaimed(it: Item) -> Item {
    Item { state: ItemState::Queued, claimed_unix_ms: None, ..it }
}

/// An item at `now`, when a claim that has run out no longer counts.
pub open spec fn recovered(it: Item, now: u64) -> Item {
    if stale(it, now) {
        unclaimed(it)
    } else {
        it
    }
}

/// The items at `now`.
pub open spec fn recovered_all(items: Seq<Item>, now: u64) -> Seq<Item> {
    items.map_values(|it: Item| recovered(it, now))
}

/// The items that are claimed for too long.
pub open spec fn stale_ones(items: Seq<Item>, now: u64) -> Seq<Item> {
    items.filter(|it: Item| stale(it, now))
}

/// The items that wait to be fetched.
pub open spec fn queued_ones(items: Seq<Item>) -> Seq<Item> {
    items.filter(|it: Item| it.state == ItemState::Queued)
}

/// The items that have been delivered.
pub open spec fn acked_ones(items: Seq<Item>) -> Seq<Item> {
    items.filter(|it: Item| it.state == ItemState::Acked)
}

/// How many bytes the items have together that have not been delivered.
pub open spec fn unacked_bytes(items: Seq<Item>) -> nat
    decreases items.len(),
{
    if items.len() == 0 {
        0
    } else {
        unacked_bytes(items.drop_last()) + if items.last().state == ItemState::Acked {
            0
        } else {
            items.last().size as nat
        }
    }
}

/// Whether `it` stands for another item with the digest `sha256` that comes at `now`.
pub open spec fn duplicate(it: Item, sha256: Seq<char>, now: u64) -> bool {
    &&& it.state == ItemState::Queued
    &&& it.sha256@ == sha256
    &&& elapsed(now, it.created_unix_ms) <= DEDUPE_WINDOW_MS
}

/// Whether an item may be claimed at `now`.
pub open spec fn claimable(it: Item, now: u64) -> bool {
    it.state == ItemState::Queued || stale(it, now)
}

/// An item that is claimed at `now`.
pub open spec fn claimed_at(it: Item, now: u64) -> Item {
    Item { state: ItemState::Claimed, claimed_unix_ms: Some(now), ..it }
}

/// An item that is delivered.
pub open spec fn acked(it: Item) -> Item {
    Item { state: ItemState::Acked, ..it }
}

/// The oldest delivered items, as many as there are too many.
pub open spec fn surplus(items: Seq<Item>) -> Seq<Item> {
    let done = acked_ones(items);
    done.take(if done.len() > MAX_ACKED_SIDECARS { done.len() - MAX_ACKED_SIDECARS } else { 0 })
}

/// The last `n` items.
pub open spec fn latest(items: Seq<Item>, n: nat) -> Seq<Item> {
    items.skip(if items.len() > n { items.len() - n } else { 0 })
}

/// Whether a claim of an item has run out at `now`.
fn is_stale(it: &Item, now: u64) -> (r: bool)
    ensures
        r == stale(*it, now),
{
    let since: u64 = match it.claimed_unix_ms {
        Some(t) => now.saturating_sub(t),
        None => now,
    };
    it.state == ItemState::Claimed && since > CLAIM_TIMEOUT_MS
}

/// Those among `found` that are items.
fn read_ones(found: Vec<Option<Item>>) -> (r: Vec<Item>)
    ensures
        r@ == readable(found@),
{
    let mut out: Vec<Item> = Vec::new();
    let ghost all = found@;
    for entry in it: found
        invariant
            it.seq() == all,
            out@ == readable(all.take(it.index() as int)),
    {
        let ghost i = it.index() as int;
        proof {
            assert(all.take(i + 1).drop_last() == all.take(i));
            assert(entry == all[i]);
        }
        match entry {
            Some(item) => {
                out.push(item);
            },
            None => {},
        }
    }
    proof {
        assert(all.take(all.len() as int) == all);
    }
    out
}

/// Those items that wait to be fetched.
pub fn pick_queued(items: &Vec<Item>) -> (r: Vec<Item>)
    ensures
        r@ == queued_ones(items@),
{
    let mut out: Vec<Item> = Vec::new();
    for i in 0..items.len()
        invariant
            out@ == queued_ones(items@.take(i as int)),
    {
        proof {
            assert(items@.take(i + 1).drop_last() == items@.take(i as int));
            reveal(Seq::filter);
        }
        if items[i].state == ItemState::Queued {
            out.push(items[i].clone());
        }
    }
    proof {
        assert(items@.take(items@.len() as int) == items@);
    }
    out
}

/// The outbox, and what has to be written back to it.
pub struct Listing {
    /// The items, in the order of their ids.
    pub items: Vec<Item>,
    /// The items whose claim has run out, as they now are.
    pub reverted: Vec<Item>,
}

/// The files of an item: written to `tmp` and then renamed to `dest`, both in `dir`.
pub struct ItemFiles {
    pub dir: String,
    pub tmp: String,
    pub dest: String,
}

/// What a delivery asks for.
pub enum Ack {
    /// The item has been delivered before: nothing is to be done.
    Already { item: Item },
    /// Remove `payload` if it exists, write `item`, append `entry` to the history,
    /// and forget the oldest delivered items.
    Now { item: Item, payload: String, entry: Item },
}

/// Where the queue is kept.
pub struct State {
    pub root: String,
}

/// The part of the queue that an item is in.
pub open spec fn half_path(root: Seq<char>, outbox: bool) -> Seq<char> {
    path::path_joined(
        root,
        if outbox {
            "outbox"@
        } else {
            "inbox"@
        },
    )
}

/// The directory of an item.
pub open spec fn item_path(root: Seq<char>, outbox: bool, id: Seq<char>) -> Seq<char> {
    path::path_joined(half_path(root, outbox), id)
}

/// Whether a name is one that the description of an item itself is written under.
pub open spec fn sidecar_name(name: Seq<char>) -> bool {
    name == "item.json"@ || name == "item.json.tmp"@
}

/// The directory that a payload called `name` lies in, for the item with the directory
/// `dir`: that directory, or one below it where the name is taken by the description.
pub open spec fn payload_folder(dir: Seq<char>, name: Seq<char>) -> Seq<char> {
    if sidecar_name(name) {
        path::path_joined(dir, "payload"@)
    } else {
        dir
    }
}

/// Where the payload called `name` of an item in the inbox lies.
pub open spec fn inbox_place(root: Seq<char>, id: Seq<char>, name: Seq<char>) -> Seq<char> {
    path::path_joined(payload_folder(item_path(root, false, id), name), name)
}

/// The directory that a payload called `name` lies in, for the item with the directory
/// `dir`.
pub fn folder_for(dir: &str, name: &str) -> (r: String)
    ensures
        r@ == payload_folder(dir@, name@),
{
    if str_eq(name, "item.json") || str_eq(name, "item.json.tmp") {
        path::join(dir, "payload")
    } else {
        dir.to_owned()
    }
}

impl State {
    /// The queue in the directory that the plugin is given, or in `.herdr-ferry` in the
    /// home directory.
    pub fn open(plugin_dir: Option<&str>, home: &str) -> (r: State)
        ensures
            r.root@ == match plugin_dir {
                Some(d) => if d@.len() > 0 {
                    d@
                } else {
                    path::path_joined(home@, ".herdr-ferry"@)
                },
                None => path::path_joined(home@, ".herdr-ferry"@),
            },
    {
        if let Some(d) = plugin_dir {
            if !d.is_empty() {
                return State { root: d.to_owned() };
            }
        }
        State { root: path::join(home, ".herdr-ferry") }
    }

    pub fn outbox_dir(&self) -> (r: String)
        ensures
            r@ == path::path_joined(self.root@, "outbox"@),
    {
        path::join(self.root.as_str(), "outbox")
    }

    pub fn inbox_dir(&self) -> (r: String)
        ensures
            r@ == path::path_joined(self.root@, "inbox"@),
    {
        path::join(self.root.as_str(), "inbox")
    }

    pub fn history_path(&self) -> (r: String)
        ensures
            r@ == path::path_joined(self.root@, "history.jsonl"@),
    {
        path::join(self.root.as_str(), "history.jsonl")
    }

    /// The directory of the item `id` in the outbox or in the inbox.
    pub fn item_dir(&self, outbox: bool, id: &str) -> (r: String)
        ensures
            r@ == item_path(self.root@, outbox, id@),
    {
        if outbox {
            path::join(self.outbox_dir().as_str(), id)
        } else {
            path::join(self.inbox_dir().as_str(), id)
        }
    }

    /// Where an item is written.
    pub fn write_item(&self, outbox: bool, item: &Item) -> (r: ItemFiles)
        ensures
            r.dir@ == item_path(self.root@, outbox, item.id@),
            r.tmp@ == path::path_joined(r.dir@, "item.json.tmp"@),
            r.dest@ == path::path_joined(r.dir@, "item.json"@),
    {
        let dir = self.item_dir(outbox, item.id.as_str());
        let tmp = path::join(dir.as_str(), "item.json.tmp");
        let dest = path::join(dir.as_str(), "item.json");
        ItemFiles { dir, tmp, dest }
    }

    /// Where the item `id` is read from.
    pub fn item_file(&self, outbox: bool, id: &str) -> (r: String)
        ensures
            r@ == path::path_joined(item_path(self.root@, outbox, id@), "item.json"@),
    {
        path::join(self.item_dir(outbox, id).as_str(), "item.json")
    }

    /// The item `id`, where its file was found.
    pub fn read_item(&self, id: &str, found: Option<Item>) -> (r: Result<Item, Error>)
        ensures
            match r {
                Ok(it) => found == Some(it),
                Err(Error::NoSuchItem { id: x }) => found is None && x@ == id@,
                Err(_) => false,
            },
    {
        match found {
            Some(it) => Ok(it),
            None => Err(Error::NoSuchItem { id: id.to_owned() }),
        }
    }

    /// The items of the outbox at `now`: in the order of their ids, and a claim that has
    /// run out no longer counts.
    pub fn list_outbox(&self, found: Vec<Option<Item>>, now: u64) -> (r: Listing)
        ensures
            r.items@ == recovered_all(listed(found@), now),
            r.reverted@ == recovered_all(stale_ones(listed(found@), now), now),
    {
        let all = order::sort(read_ones(found));
        let mut items: Vec<Item> = Vec::new();
        let mut reverted: Vec<Item> = Vec::new();
        for i in 0..all.len()
            invariant
                items@ == recovered_all(all@.take(i as int), now),
                reverted@ == recovered_all(stale_ones(all@.take(i as int), now), now),
        {
            proof {
                assert(all@.take(i + 1).drop_last() == all@.take(i as int));
                reveal(Seq::filter);
                assert(recovered_all(all@.take(i + 1), now) == recovered_all(
                    all@.take(i as int),
                    now,
                ).push(recovered(all@[i as int], now)));
                assert(stale(all@[i as int], now) ==> recovered_all(
                    stale_ones(all@.take(i + 1), now),
                    now,
                ) == recovered_all(stale_ones(all@.take(i as int), now), now).push(
                    recovered(all@[i as int], now),
                ));
            }
            let mut it = all[i].clone();
            if is_stale(&it, now) {
                it.state = ItemState::Queued;
                it.claimed_unix_ms = None;
                reverted.push(it.clone());
            }
            items.push(it);
        }
        proof {
            assert(all@.take(all@.len() as int) == all@);
        }
        Listing { items, reverted }
    }

    /// The items of a listing that wait to be fetched.
    pub fn queued_outbox(&self, listing: &Listing) -> (r: Vec<Item>)
        ensures
            r@ == queued_ones(listing.items@),
    {
        pick_queued(&listing.items)
    }

    /// The items of the inbox, in the order of their ids.
    pub fn list_inbox(&self, found: Vec<Option<Item>>) -> (r: Vec<Item>)
        ensures
            r@ == listed(found@),
    {
        order::sort(read_ones(found))
    }

    /// Where the payload of an item in the outbox lies.
    pub fn outbox_payload(&self, item: &Item) -> (r: String)
        ensures
            r@ == path::path_joined(item_path(self.root@, true, item.id@), payload_name(item@)),
    {
        path::join(
            self.item_dir(true, item.id.as_str()).as_str(),
            item.outbox_payload_name().as_str(),
        )
    }

    /// Where the payload of an item in the inbox lies.
    pub fn inbox_payload(&self, item: &Item) -> (r: String)
        ensures
            r@ == inbox_place(self.root@, item.id@, item.name@),
    {
        let dir = self.item_dir(false, item.id.as_str());
        path::join(folder_for(dir.as_str(), item.name.as_str()).as_str(), item.name.as_str())
    }

    /// Whether the bytes of the listing and `add` more can be counted.
    pub fn countable(&self, listing: &Listing, add: u64) -> (r: bool)
        ensures
            r == (unacked_bytes(listing.items@) + add <= u64::MAX),
    {
        let items = &listing.items;
        let mut sum: u128 = 0;
        for i in 0..items.len()
            invariant
                items@ == listing.items@,
                sum == unacked_bytes(items@.take(i as int)),
                sum <= i * 0x1_0000_0000_0000_0000,
        {
            proof {
                assert(items@.take(i + 1).drop_last() == items@.take(i as int));
                assert(i * 0x1_0000_0000_0000_0000 <= 0x1_0000_0000_0000_0000
                    * 0x1_0000_0000_0000_0000 - 0x1_0000_0000_0000_0000) by (nonlinear_arith)
                    requires
                        0 <= i < 0x1_0000_0000_0000_0000 - 1,
                ;
                assert((i + 1) * 0x1_0000_0000_0000_0000 == i * 0x1_0000_0000_0000_0000
                    + 0x1_0000_0000_0000_0000) by (nonlinear_arith);
            }
            if items[i].state != ItemState::Acked {
                sum = sum + items[i].size as u128;
            }
        }
        proof {
            assert(items@.take(items@.len() as int) == items@);
        }
        sum <= (u64::MAX - add) as u128
    }

    /// How many bytes the undelivered items of a listing have together.
    pub fn outbox_bytes(&self, listing: &Listing) -> (r: u64)
        requires
            unacked_bytes(listing.items@) <= u64::MAX,
        ensures
            r == unacked_bytes(listing.items@),
    {
        let items = &listing.items;
        let mut sum: u64 = 0;
        for i in 0..items.len()
            invariant
                items@ == listing.items@,
                unacked_bytes(items@) <= u64::MAX,
                sum == unacked_bytes(items@.take(i as int)),
        {
            proof {
                assert(items@.take(i + 1).drop_last() == items@.take(i as int));
                lemma_bytes_grow(items@, i + 1);
            }
            if items[i].state != ItemState::Acked {
                sum = sum + items[i].size;
            }
        }
        proof {
            assert(items@.take(items@.len() as int) == items@);
        }
        sum
    }

    /// The first item of a listing that stands for another one with the digest `sha256`
    /// that comes at `now`.
    pub fn find_dedupe(&self, listing: &Listing, sha256: &str, now: u64) -> (r: Option<Item>)
        ensures
            match r {
                Some(it) => exists|i: int|
                    0 <= i < listing.items@.len() && it == #[trigger] listing.items@[i]
                        && duplicate(it, sha256@, now) && forall|j: int|
                        0 <= j < i ==> !duplicate(#[trigger] listing.items@[j], sha256@, now),
                None => forall|j: int|
                    0 <= j < listing.items@.len() ==> !duplicate(
                        #[trigger] listing.items@[j],
                        sha256@,
                        now,
                    ),
            },
    {
        let items = &listing.items;
        for i in 0..items.len()
            invariant
                items@ == listing.items@,
                forall|j: int| 0 <= j < i ==> !duplicate(#[trigger] items@[j], sha256@, now),
        {
            let it = &items[i];
            if it.state == ItemState::Queued && str_eq(it.sha256.as_str(), sha256)
                && now.saturating_sub(it.created_unix_ms) <= DEDUPE_WINDOW_MS {
                return Some(it.clone());
            }
        }
        None
    }

    /// A claim at `now` of the item `id`, where its file was found: the item as it has
    /// to be written.
    pub fn claim(&self, id: &str, found: Option<Item>, now: u64) -> (r: Result<Item, Error>)
        ensures
            match r {
                Ok(it) => found matches Some(was) && claimable(was, now) && it == claimed_at(
                    was,
                    now,
                ),
                Err(Error::NoSuchItem { id: x }) => found is None && x@ == id@,
                Err(Error::AlreadyAcked { id: x }) => found matches Some(was) && was.state
                    == ItemState::Acked && x@ == id@,
                Err(Error::AlreadyClaimed { id: x }) => found matches Some(was) && was.state
                    == ItemState::Claimed && !stale(was, now) && x@ == id@,
                Err(_) => false,
            },
    {
        let mut it = match self.read_item(id, found) {
            Ok(it) => it,
            Err(e) => {
                return Err(e);
            },
        };
        match it.state {
            ItemState::Acked => {
                return Err(Error::AlreadyAcked { id: id.to_owned() });
            },
            ItemState::Claimed => {
                if !is_stale(&it, now) {
                    return Err(Error::AlreadyClaimed { id: id.to_owned() });
                }
            },
            ItemState::Queued => {},
        }
        it.state = ItemState::Claimed;
        it.claimed_unix_ms = Some(now);
        Ok(it)
    }

    /// The delivery of the item `id`, where its file was found.
    pub fn ack(&self, id: &str, found: Option<Item>) -> (r: Result<Ack, Error>)
        ensures
            match r {
                Ok(Ack::Already { item }) => found == Some(item) && item.state == ItemState::Acked,
                Ok(Ack::Now { item, payload, entry }) => {
                    &&& found matches Some(was) && was.state != ItemState::Acked && item == acked(
                        was,
                    )
                    &&& payload@ == path::path_joined(
                        item_path(self.root@, true, item.id@),
                        payload_name(item@),
                    )
                    &&& entry@ == (ItemView { direction: Some("outbox"@), ..item@ })
                },
                Err(Error::NoSuchItem { id: x }) => found is None && x@ == id@,
                Err(_) => false,
            },
    {
        let mut item = match self.read_item(id, found) {
            Ok(it) => it,
            Err(e) => {
                return Err(e);
            },
        };
        if item.state == ItemState::Acked {
            return Ok(Ack::Already { item });
        }
        let payload = self.outbox_payload(&item);
        item.state = ItemState::Acked;
        let entry = self.append_history(&item, "outbox");
        Ok(Ack::Now { item, payload, entry })
    }

    /// The line of the history for an item that went in the given direction.
    pub fn append_history(&self, item: &Item, direction: &str) -> (r: Item)
        ensures
            r@ == (ItemView { direction: Some(direction@), ..item@ }),
    {
        let mut it = item.clone();
        it.direction = Some(direction.to_owned());
        it
    }

    /// The directories of the delivered items that are no longer remembered.
    pub fn prune_outbox(&self, found: Vec<Option<Item>>) -> (r: Vec<String>)
        ensures
            text::texts(r@) == surplus(listed(found@)).map_values(
                |it: Item| item_path(self.root@, true, it.id@),
            ),
    {
        let all = order::sort(read_ones(found));
        let mut done: Vec<Item> = Vec::new();
        for i in 0..all.len()
            invariant
                done@ == acked_ones(all@.take(i as int)),
        {
            proof {
                assert(all@.take(i + 1).drop_last() == all@.take(i as int));
                reveal(Seq::filter);
            }
            if all[i].state == ItemState::Acked {
                done.push(all[i].clone());
            }
        }
        proof {
            assert(all@.take(all@.len() as int) == all@);
        }
        let over: usize = if done.len() > MAX_ACKED_SIDECARS {
            done.len() - MAX_ACKED_SIDECARS
        } else {
            0
        };
        let ghost dir = |it: Item| item_path(self.root@, true, it.id@);
        let mut out: Vec<String> = Vec::new();
        for i in 0..over
            invariant
                over <= done@.len(),
                dir == |it: Item| item_path(self.root@, true, it.id@),
                text::texts(out@) == done@.take(i as int).map_values(dir),
        {
            let ghost before = out@;
            out.push(self.item_dir(true, done[i].id.as_str()));
            proof {
                assert(text::texts(out@) == text::texts(before).push(dir(done@[i as int])));
                assert(done@.take(i + 1).map_values(dir) == done@.take(i as int).map_values(
                    dir,
                ).push(dir(done@[i as int])));
            }
        }
        out
    }

    /// The last `n` transfers of the history whose lines could be read.
    pub fn read_history(&self, found: Vec<Option<Item>>, n: usize) -> (r: Vec<Item>)
        ensures
            r@ == latest(readable(found@), n as nat),
    {
        let all = read_ones(found);
        let first: usize = if all.len() > n {
            all.len() - n
        } else {
            0
        };
        let mut out: Vec<Item> = Vec::new();
        for i in first..all.len()
            invariant
                first <= i <= all@.len(),
                out@ == all@.subrange(first as int, i as int),
        {
            out.push(all[i].clone());
        }
        out
    }

    /// The lines that show the last `n` transfers of the history.
    pub fn print_history(&self, found: Vec<Option<Item>>, n: usize) -> (r: Vec<String>)
        ensures
            text::texts(r@) == history_texts(latest(readable(found@), n as nat)),
    {
        let items = self.read_history(found, n);
        history_lines(&items)
    }
}

proof fn lemma_bytes_grow(items: Seq<Item>, n: int)
    requires
        0 <= n <= items.len(),
    ensures
        unacked_bytes(items.take(n)) <= unacked_bytes(items),
    decreases items.len(),
{
    if n < items.len() {
        lemma_bytes_grow(items.drop_last(), n);
        assert(items.drop_last().take(n) == items.take(n));
    } else {
        assert(items.take(n) == items);
    }
}

/// The line of the history for an item.
pub open spec fn history_text(it: ItemView) -> Seq<char> {
    let direction = match it.direction {
        Some(d) => d,
        None => "?"@,
    };
    let size = util::size_text(it.size);
    let note = match it.note {
        Some(n) => "  — "@ + n,
        None => ""@,
    };
    it.id + "  "@ + direction + text::fill(direction, 6) + " "@ + it.kind.text() + text::fill(
        it.kind.text(),
        15,
    ) + " "@ + text::fill(size, 8) + size + "  "@ + it.name + note
}

/// The lines of the history.
pub open spec fn history_texts(items: Seq<Item>) -> Seq<Seq<char>> {
    if items.len() == 0 {
        seq!["(no transfers yet)"@]
    } else {
        items.map_values(|it: Item| history_text(it@))
    }
}

fn history_line(it: &Item) -> (r: String)
    ensures
        r@ == history_text(it@),
{
    let mut out = it.id.clone();
    out.append("  ");
    match &it.direction {
        Some(d) => {
            out.append(text::pad_right(d.as_str(), 6).as_str());
        },
        None => {
            out.append(text::pad_right("?", 6).as_str());
        },
    }
    out.append(" ");
    out.append(text::pad_right(it.kind.as_str(), 15).as_str());
    out.append(" ");
    out.append(text::pad_left(util::human_size(it.size).as_str(), 8).as_str());
    out.append("  ");
    out.append(it.name.as_str());
    let mut note = String::new();
    match &it.note {
        Some(n) => {
            note.append("  — ");
            note.append(n.as_str());
        },
        None => {
            proof {
                reveal_strlit("");
                assert(note@ == ""@);
            }
        },
    }
    out.append(note.as_str());
    proof {
        assert(out@ == history_text(it@));
    }
    out
}

fn history_lines(items: &Vec<Item>) -> (r: Vec<String>)
    ensures
        text::texts(r@) == history_texts(items@),
{
    if items.len() == 0 {
        return crate::command::owned(&vec!["(no transfers yet)"]);
    }
    let ghost line = |it: Item| history_text(it@);
    let mut out: Vec<String> = Vec::new();
    for i in 0..items.len()
        invariant
            line == |it: Item| history_text(it@),
            text::texts(out@) == items@.take(i as int).map_values(line),
    {
        let ghost before = out@;
        out.push(history_line(&items[i]));
        proof {
            assert(text::texts(out@) == text::texts(before).push(line(items@[i as int])));
            assert(items@.take(i + 1).map_values(line) == items@.take(i as int).map_values(
                line,
            ).push(line(items@[i as int])));
        }
    }
    proof {
        assert(items@.take(items@.len() as int) == items@);
    }
    out
}

/// The line of a list for an item, at `now`.
pub open spec fn item_text(it: ItemView, now: u64) -> Seq<char> {
    it.id + "\t"@ + it.name + "\t"@ + text::dec(it.size) + "\t"@ + it.kind.text() + "\t"@
        + it.state.text() + "\t"@ + util::age_text(now, it.created_unix_ms)
}

/// The lines of a list of items, at `now`.
pub open spec fn item_texts(items: Seq<Item>, now: u64) -> Seq<Seq<char>> {
    if items.len() == 0 {
        seq!["(empty)"@]
    } else {
        items.map_values(|it: Item| item_text(it@, now))
    }
}

fn item_line(it: &Item, now: u64) -> (r: String)
    ensures
        r@ == item_text(it@, now),
{
    let mut out = it.id.clone();
    out.append("\t");
    out.append(it.name.as_str());
    out.append("\t");
    text::push_dec(&mut out, it.size);
    out.append("\t");
    out.append(it.kind.as_str());
    out.append("\t");
    out.append(it.state.as_str());
    out.append("\t");
    out.append(util::age_at(now, it.created_unix_ms).as_str());
    out
}

/// The lines that show a list of items, at `now`.
pub fn print_items(items: &Vec<Item>, now: u64) -> (r: Vec<String>)
    ensures
        text::texts(r@) == item_texts(items@, now),
{
    if items.len() == 0 {
        return crate::command::owned(&vec!["(empty)"]);
    }
    let ghost line = |it: Item| item_text(it@, now);
    let mut out: Vec<String> = Vec::new();
    for i in 0..items.len()
        invariant
            line == |it: Item| item_text(it@, now),
            text::texts(out@) == items@.take(i as int).map_values(line),
    {
        let ghost before = out@;
        out.push(item_line(&items[i], now));
        proof {
            assert(text::texts(out@) == text::texts(before).push(line(items@[i as int])));
            assert(items@.take(i + 1).map_values(line) == items@.take(i as int).map_values(
                line,
            ).push(line(items@[i as int])));
        }
    }
    proof {
        assert(items@.take(items@.len() as int) == items@);
    }
    out
}

/// A claim keeps others out for as long as it holds: until then the item can be
/// claimed by nobody else, and a listing leaves it as it is.
pub proof fn law_claim_excludes(it: Item, t: u64, now: u64)
    requires
        claimable(it, t),
        elapsed(now, t) <= CLAIM_TIMEOUT_MS,
    ensures
        !claimable(claimed_at(it, t), now),
        recovered(claimed_at(it, t), now) == claimed_at(it, t),
        queued_ones(recovered_all(seq![claimed_at(it, t)], now)).len() == 0,
{
    let s = recovered_all(seq![claimed_at(it, t)], now);
    reveal_with_fuel(Seq::filter, 2);
    assert(s == seq![claimed_at(it, t)]);
    assert(s.drop_last() == Seq::<Item>::empty());
}

/// The item of a client that was lost is not lost: once its claim has run out, the item
/// is queued again as it was, and can be claimed.
pub proof fn law_lost_claim_recovers(it: Item, t: u64, now: u64)
    requires
        claimable(it, t),
        now > t + CLAIM_TIMEOUT_MS,
    ensures
        recovered(claimed_at(it, t), now) == unclaimed(it),
        claimable(claimed_at(it, t), now),
        claimable(recovered(claimed_at(it, t), now), now),
{
}

/// An item whose claim has run out is among the queued items of the outbox again.
pub proof fn law_recovered_is_queued(found: Seq<Option<Item>>, i: int, now: u64)
    requires
        0 <= i < found.len(),
        found[i] matches Some(it) && stale(it, now),
    ensures
        queued_ones(recovered_all(listed(found), now)).contains(unclaimed(found[i]->0)),
{
    let it = found[i]->0;
    lemma_listed_contains(found, i);
    let k = choose|k: int| 0 <= k < listed(found).len() && listed(found)[k] == it;
    let all = recovered_all(listed(found), now);
    assert(all[k] == unclaimed(it));
    lemma_filter_keeps(all, |x: Item| x.state == ItemState::Queued, k);
}

/// A listing holds every item that was found.
pub proof fn lemma_listed_contains(found: Seq<Option<Item>>, i: int)
    requires
        0 <= i < found.len(),
        found[i] is Some,
    ensures
        listed(found).contains(found[i]->0),
{
    broadcast use vstd::seq_lib::group_to_multiset_ensures;

    let it = found[i]->0;
    lemma_readable_contains(found, i);
    order::law_sorted(readable(found));
    assert(readable(found).to_multiset().count(it) > 0);
    assert(listed(found).to_multiset().count(it) > 0);
}

proof fn lemma_readable_contains(found: Seq<Option<Item>>, i: int)
    requires
        0 <= i < found.len(),
        found[i] is Some,
    ensures
        readable(found).contains(found[i]->0),
    decreases found.len(),
{
    let front = readable(found.drop_last());
    if i < found.len() - 1 {
        lemma_readable_contains(found.drop_last(), i);
        let k = choose|k: int| 0 <= k < front.len() && front[k] == found[i]->0;
        assert(readable(found)[k] == found[i]->0);
    } else {
        assert(readable(found).last() == found[i]->0);
    }
}

proof fn lemma_filter_keeps<T>(s: Seq<T>, p: spec_fn(T) -> bool, k: int)
    requires
        0 <= k < s.len(),
        p(s[k]),
    ensures
        s.filter(p).contains(s[k]),
    decreases s.len(),
{
    reveal(Seq::filter);
    let front = s.drop_last().filter(p);
    if k < s.len() - 1 {
        lemma_filter_keeps(s.drop_last(), p, k);
        let j = choose|j: int| 0 <= j < front.len() && front[j] == s[k];
        assert(s.filter(p)[j] == s[k]);
    } else {
        assert(s.filter(p).last() == s[k]);
    }
}

/// What can happen to an item of the outbox.
pub enum Step {
    /// A client tries to claim it.
    Claim { now: u64 },
    /// A listing is made.
    List { now: u64 },
    /// A client reports it delivered.
    Ack,
}

/// An item behind a step.
pub open spec fn stepped(it: Item, step: Step) -> Item {
    match step {
        Step::Claim { now } => if claimable(it, now) {
            claimed_at(it, now)
        } else {
            it
        },
        Step::List { now } => recovered(it, now),
        Step::Ack => acked(it),
    }
}

/// An item behind some steps.
pub open spec fn after_steps(it: Item, steps: Seq<Step>) -> Item
    decreases steps.len(),
{
    if steps.len() == 0 {
        it
    } else {
        stepped(after_steps(it, steps.drop_last()), steps.last())
    }
}

/// Delivery is final: a delivered item never changes again, so it is never fetched twice.
pub proof fn law_acked_is_final(it: Item, steps: Seq<Step>)
    requires
        it.state == ItemState::Acked,
    ensures
        after_steps(it, steps) == it,
        forall|now: u64| !claimable(after_steps(it, steps), now),
    decreases steps.len(),
{
    if steps.len() > 0 {
        law_acked_is_final(it, steps.drop_last());
    }
}

/// Whether a step happens while a claim of time `t` holds.
pub open spec fn within_claim(step: Step, t: u64) -> bool {
    match step {
        Step::Claim { now } => elapsed(now, t) <= CLAIM_TIMEOUT_MS,
        Step::List { now } => elapsed(now, t) <= CLAIM_TIMEOUT_MS,
        Step::Ack => true,
    }
}

/// Whoever has claimed an item has it alone: whatever others do while the claim holds, the
/// item stays claimed as it is until it is delivered.
pub proof fn law_claim_holds(it: Item, t: u64, steps: Seq<Step>)
    requires
        forall|i: int| 0 <= i < steps.len() ==> within_claim(#[trigger] steps[i], t),
    ensures
        ({
            let now = after_steps(claimed_at(it, t), steps);
            now == claimed_at(it, t) || now == acked(claimed_at(it, t))
        }),
    decreases steps.len(),
{
    if steps.len() > 0 {
        let front = steps.drop_last();
        assert forall|i: int| 0 <= i < front.len() implies within_claim(#[trigger] front[i], t) by {
            assert(front[i] == steps[i]);
        }
        law_claim_holds(it, t, front);
        assert(within_claim(steps[steps.len() - 1], t));
    }
}

/// Nothing that happens to an item changes what it carries.
pub proof fn law_contents_kept(it: Item, steps: Seq<Step>)
    ensures
        after_steps(it, steps) == (Item {
            state: after_steps(it, steps).state,
            claimed_unix_ms: after_steps(it, steps).claimed_unix_ms,
            ..it
        }),
    decreases steps.len(),
{
    if steps.len() > 0 {
        law_contents_kept(it, steps.drop_last());
    }
}

proof fn lemma_filter_in_order(s: Seq<Item>, p: spec_fn(Item) -> bool)
    requires
        order::in_order(s),
    ensures
        order::in_order(s.filter(p)),
    decreases s.len(),
{
    reveal(Seq::filter);
    if s.len() > 0 {
        let front = s.drop_last();
        lemma_filter_in_order(front, p);
        assert forall|i: int, j: int| 0 <= i < j < s.filter(p).len() implies s.filter(
            p,
        )[i].not_after(s.filter(p)[j]) by {
            order::lemma_filter_from(front, p, i);
            let x = front.filter(p)[i];
            let k = choose|k: int| 0 <= k < front.len() && front[k] == x;
            assert(s[k] == x);
        }
    }
}

/// Pruning forgets delivered items only, leaves no more of them than are remembered, and
/// takes the oldest: no forgotten one has a later id than a remembered one.
pub proof fn law_prune_takes_oldest(found: Seq<Option<Item>>)
    ensures
        ({
            let done = acked_ones(listed(found));
            let gone = surplus(listed(found));
            let kept = done.skip(gone.len() as int);
            &&& forall|i: int| 0 <= i < gone.len() ==> (#[trigger] gone[i]).state == ItemState::Acked
            &&& kept.len() <= MAX_ACKED_SIDECARS
            &&& gone.len() > 0 ==> kept.len() == MAX_ACKED_SIDECARS
            &&& forall|i: int, j: int|
                0 <= i < gone.len() && 0 <= j < kept.len() ==> order::lex_le(
                    (#[trigger] gone[i]).id@,
                    (#[trigger] kept[j]).id@,
                )
        }),
{
    let all = listed(found);
    let p = |it: Item| it.state == ItemState::Acked;
    order::law_sorted(readable(found));
    lemma_filter_in_order(all, p);
    let done = acked_ones(all);
    let gone = surplus(all);
    let kept = done.skip(gone.len() as int);
    assert forall|i: int| 0 <= i < done.len() implies (#[trigger] done[i]).state
        == ItemState::Acked by {
        order::lemma_filter_from(all, p, i);
    }
    assert forall|i: int, j: int| 0 <= i < gone.len() && 0 <= j < kept.len() implies order::lex_le(
        (#[trigger] gone[i]).id@,
        (#[trigger] kept[j]).id@,
    ) by {
        assert(gone[i] == done[i]);
        assert(kept[j] == done[gone.len() + j]);
        assert(done[i].not_after(done[gone.len() + j]));
    }
}

/// A listing shows the items in the order of their ids, which is the order in which they
/// were made.
pub proof fn law_listing_in_order(found: Seq<Option<Item>>, now: u64, i: int, j: int)
    requires
        0 <= i < j < recovered_all(listed(found), now).len(),
    ensures
        order::lex_le(
            recovered_all(listed(found), now)[i].id@,
            recovered_all(listed(found), now)[j].id@,
        ),
{
    order::law_sorted(readable(found));
    let all = listed(found);
    assert(all[i].not_after(all[j]));
}

/// The directory of an item with a proper id lies directly in the outbox or in the inbox.
pub proof fn law_item_dir_is_child(root: Seq<char>, outbox: bool, id: Seq<char>)
    requires
        outside::ulid_text(id),
    ensures
        path::components_of(item_path(root, outbox, id)) == path::components_of(
            half_path(root, outbox),
        ).push(path::Part::Normal(id)),
{
    reveal_strlit("outbox");
    reveal_strlit("inbox");
    lemma_ulid_is_plain(id);
    path::law_join_name(half_path(root, outbox), id);
}

proof fn lemma_half(root: Seq<char>, outbox: bool)
    ensures
        path::components_of(half_path(root, outbox)).len() > 0,
        path::components_of(half_path(root, outbox)).last() == path::Part::Normal(
            if outbox {
                "outbox"@
            } else {
                "inbox"@
            },
        ),
{
    reveal_strlit("outbox");
    reveal_strlit("inbox");
    let name = if outbox {
        "outbox"@
    } else {
        "inbox"@
    };
    assert(path::plain_name(name)) by {
        assert(name[0] != '.');
        assert forall|i: int| 0 <= i < name.len() implies name[i] != '/' by {}
    }
    if root.len() == 0 {
        assert(path::path_joined(root, name) =~= name);
        path::law_name_of_plain_name(name);
    } else {
        path::law_join_name(root, name);
    }
}

/// No two items share a directory, be it in one half of the queue or in both, so a new item
/// overwrites nothing.
pub proof fn law_item_dirs_apart(
    root: Seq<char>,
    outbox: bool,
    a: Seq<char>,
    other_outbox: bool,
    b: Seq<char>,
)
    requires
        outside::ulid_text(a),
        outside::ulid_text(b),
        outbox != other_outbox || a != b,
    ensures
        !path::same_path(item_path(root, outbox, a), item_path(root, other_outbox, b)),
{
    law_item_dir_is_child(root, outbox, a);
    law_item_dir_is_child(root, other_outbox, b);
    lemma_half(root, outbox);
    lemma_half(root, other_outbox);
    reveal_strlit("outbox");
    reveal_strlit("inbox");
    assert("outbox"@.len() == 6 && "inbox"@.len() == 5);
    let x = path::components_of(item_path(root, outbox, a));
    let y = path::components_of(item_path(root, other_outbox, b));
    assert(x.last() == path::Part::Normal(a) && y.last() == path::Part::Normal(b));
    assert(x.drop_last() =~= path::components_of(half_path(root, outbox)));
    assert(y.drop_last() =~= path::components_of(half_path(root, other_outbox)));
}

/// The files that hold items once `item` has been written among `files`: first under a name
/// that nothing is read from, which it then loses again.
pub open spec fn after_write(
    files: Map<Seq<path::Part>, Item>,
    root: Seq<char>,
    outbox: bool,
    item: Item,
) -> Map<Seq<path::Part>, Item> {
    let dir = item_path(root, outbox, item.id@);
    files.remove(path::components_of(path::path_joined(dir, "item.json.tmp"@))).insert(
        path::components_of(path::path_joined(dir, "item.json"@)),
        item,
    )
}

/// What is found where the item `id` is read from.
pub open spec fn found_at(
    files: Map<Seq<path::Part>, Item>,
    root: Seq<char>,
    outbox: bool,
    id: Seq<char>,
) -> Option<Item> {
    let file = path::components_of(path::path_joined(item_path(root, outbox, id), "item.json"@));
    if files.dom().contains(file) {
        Some(files[file])
    } else {
        None
    }
}

/// Reading an item gives back what was last written of it, and writing it leaves what is read
/// of every other item as it was, in the same half of the queue and in the other one. That a
/// file gives back the item that was put into it is up to who encodes and decodes it.
pub proof fn law_read_gives_back_write(
    files: Map<Seq<path::Part>, Item>,
    root: Seq<char>,
    outbox: bool,
    item: Item,
    other_outbox: bool,
    other: Seq<char>,
)
    requires
        outside::ulid_text(item.id@),
        outside::ulid_text(other),
    ensures
        found_at(after_write(files, root, outbox, item), root, outbox, item.id@) == Some(item),
        other_outbox != outbox || other != item.id@ ==> found_at(
            after_write(files, root, outbox, item),
            root,
            other_outbox,
            other,
        ) == found_at(files, root, other_outbox, other),
{
    if other_outbox != outbox || other != item.id@ {
        law_item_dirs_apart(root, outbox, item.id@, other_outbox, other);
        let dir = item_path(root, outbox, item.id@);
        let other_dir = item_path(root, other_outbox, other);
        lemma_sidecars(dir);
        lemma_sidecars(other_dir);
        let x = path::components_of(path::path_joined(dir, "item.json"@));
        let t = path::components_of(path::path_joined(dir, "item.json.tmp"@));
        let y = path::components_of(path::path_joined(other_dir, "item.json"@));
        assert(x.drop_last() =~= path::components_of(dir));
        assert(t.drop_last() =~= path::components_of(dir));
        assert(y.drop_last() =~= path::components_of(other_dir));
    }
}

proof fn lemma_sidecars(dir: Seq<char>)
    requires
        dir.len() > 0,
    ensures
        path::plain_name("item.json"@),
        path::plain_name("item.json.tmp"@),
        path::plain_name("payload"@),
        "item.json"@ != "item.json.tmp"@,
        path::components_of(path::path_joined(dir, "item.json"@)) == path::components_of(dir).push(
            path::Part::Normal("item.json"@),
        ),
        path::components_of(path::path_joined(dir, "item.json.tmp"@)) == path::components_of(
            dir,
        ).push(path::Part::Normal("item.json.tmp"@)),
        path::components_of(path::path_joined(dir, "payload"@)) == path::components_of(dir).push(
            path::Part::Normal("payload"@),
        ),
{
    reveal_strlit("item.json");
    reveal_strlit("item.json.tmp");
    reveal_strlit("payload");
    assert("item.json"@.len() == 9 && "item.json.tmp"@.len() == 13 && "payload"@.len() == 7);
    assert forall|i: int| 0 <= i < "item.json"@.len() implies "item.json"@[i] != '/' by {}
    assert forall|i: int| 0 <= i < "item.json.tmp"@.len() implies "item.json.tmp"@[i] != '/' by {}
    assert forall|i: int| 0 <= i < "payload"@.len() implies "payload"@[i] != '/' by {}
    path::law_join_name(dir, "item.json"@);
    path::law_join_name(dir, "item.json.tmp"@);
    path::law_join_name(dir, "payload"@);
}

/// A payload and the description of its item never have the same place, whatever the
/// payload is called, and it lies in the directory of the item.
pub proof fn law_payload_and_sidecar_apart(dir: Seq<char>, name: Seq<char>)
    requires
        dir.len() > 0,
        path::plain_name(name),
    ensures
        ({
            let place = path::path_joined(payload_folder(dir, name), name);
            &&& !path::same_path(place, path::path_joined(dir, "item.json"@))
            &&& !path::same_path(place, path::path_joined(dir, "item.json.tmp"@))
            &&& path::lies_under(place, dir)
            &&& !sidecar_name(name) ==> path::components_of(place) == path::components_of(
                dir,
            ).push(path::Part::Normal(name))
        }),
{
    lemma_sidecars(dir);
    let folder = payload_folder(dir, name);
    path::law_join_name(folder, name);
    let place = path::components_of(path::path_joined(folder, name));
    let item = path::components_of(path::path_joined(dir, "item.json"@));
    let tmp = path::components_of(path::path_joined(dir, "item.json.tmp"@));
    assert(place.last() == path::Part::Normal(name));
    assert(item.last() == path::Part::Normal("item.json"@));
    assert(tmp.last() == path::Part::Normal("item.json.tmp"@));
    assert(path::components_of(dir).is_prefix_of(place));
}

/// In the outbox, too, a payload and the description of its item never have the same place.
pub proof fn law_outbox_payload_and_sidecar_apart(root: Seq<char>, it: ItemView)
    requires
        outside::ulid_text(it.id),
        path::plain_name(it.name),
    ensures
        ({
            let dir = item_path(root, true, it.id);
            let place = path::path_joined(dir, payload_name(it));
            &&& !path::same_path(place, path::path_joined(dir, "item.json"@))
            &&& !path::same_path(place, path::path_joined(dir, "item.json.tmp"@))
            &&& path::lies_under(place, dir)
        }),
{
    let dir = item_path(root, true, it.id);
    let name = payload_name(it);
    assert(dir.len() > 0);
    reveal_strlit("item.json");
    reveal_strlit("item.json.tmp");
    reveal_strlit("payload");
    reveal_strlit(".tar.gz");
    assert(".tar.gz"@.len() == 7);
    assert(path::plain_name(name)) by {
        lemma_sidecars(dir);
        assert forall|i: int| 0 <= i < name.len() implies name[i] != '/' by {
            if it.kind == Kind::Dir && i < it.name.len() {
                assert(it.name.contains(it.name[i]));
            }
        }
    }
    assert(name.last() == 'z' || name.last() == 'd');
    assert("item.json"@.last() == 'n' && "item.json.tmp"@.last() == 'p');
    law_payload_and_sidecar_apart(dir, name);
}

/// Where a payload is put is never where the description of its item is written, not even
/// for a name that is no plain one.
pub proof fn lemma_place_apart(dir: Seq<char>, name: Seq<char>)
    requires
        dir.len() > 0,
        !path::absolute(name),
    ensures
        path::path_joined(payload_folder(dir, name), name) != path::path_joined(
            dir,
            "item.json"@,
        ),
        path::path_joined(payload_folder(dir, name), name) != path::path_joined(
            dir,
            "item.json.tmp"@,
        ),
{
    lemma_sidecars(dir);
    if sidecar_name(name) {
        law_payload_and_sidecar_apart(dir, name);
    } else {
        assert("item.json"@.contains("item.json"@[0]));
        assert("item.json.tmp"@.contains("item.json.tmp"@[0]));
        path::lemma_join_injective(dir, name, "item.json"@);
        path::lemma_join_injective(dir, name, "item.json.tmp"@);
    }
}

proof fn lemma_ulid_is_plain(id: Seq<char>)
    requires
        outside::ulid_text(id),
    ensures
        path::plain_name(id),
{
    assert(outside::base32_digit(id[0]));
}

/// An item is taken for another one only if both have the same digest: it is queued, has
/// that digest, and was made no more than two seconds ago.
pub proof fn law_duplicates_have_the_same_digest(it: Item, sha256: Seq<char>, now: u64)
    ensures
        duplicate(it, sha256, now) <==> it.state == ItemState::Queued && it.sha256@ == sha256 && now
            <= it.created_unix_ms + 2000,
{
}

/// A claim lasts ten minutes. Until it is over the item can neither be claimed nor is it
/// queued, and from then on it is and can.
pub proof fn law_claim_lasts_ten_minutes(it: Item, t: u64, now: u64)
    requires
        it.state == ItemState::Claimed,
        it.claimed_unix_ms == Some(t),
    ensures
        claimable(it, now) <==> now > t + 10 * 60 * 1000,
        recovered(it, now).state == ItemState::Queued <==> now > t + 10 * 60 * 1000,
        now <= t + 10 * 60 * 1000 ==> recovered(it, now) == it,
        now > t + 10 * 60 * 1000 ==> recovered(it, now) == (Item {
            state: ItemState::Queued,
            claimed_unix_ms: None,
            ..it
        }),
{
}

/// A queued item can be claimed at any time, and a delivered one never. A listing changes
/// neither.
pub proof fn law_claimable_by_state(it: Item, now: u64)
    ensures
        it.state == ItemState::Queued ==> claimable(it, now) && recovered(it, now) == it,
        it.state == ItemState::Acked ==> !claimable(it, now) && recovered(it, now) == it,
{
}

/// A claim notes that it was made and when, a delivery that it was made, and neither
/// changes anything else.
pub proof fn law_claim_and_delivery_are_noted(it: Item, now: u64)
    ensures
        claimed_at(it, now).state == ItemState::Claimed,
        claimed_at(it, now).claimed_unix_ms == Some(now),
        claimed_at(it, now) == (Item {
            state: ItemState::Claimed,
            claimed_unix_ms: Some(now),
            ..it
        }),
        acked(it).state == ItemState::Acked,
        acked(it) == (Item { state: ItemState::Acked, ..it }),
{
}

/// What is held of an item is what was written into it.
pub proof fn law_item_says_its_fields(it: Item)
    ensures
        it@.id == it.id@,
        it@.kind == it.kind,
        it@.name == it.name@,
        it@.size == it.size,
        it@.sha256 == it.sha256@,
        it@.mime == it.mime@,
        it@.note == text::text_option(it.note),
        it@.source == it.source@,
        it@.created_unix_ms == it.created_unix_ms,
        it@.state == it.state,
        it@.claimed_unix_ms == it.claimed_unix_ms,
        it@.direction == text::text_option(it.direction),
{
}

/// A new item is queued, unclaimed, and carries what it was made of.
pub proof fn law_fresh_item(
    id: Seq<char>,
    now: u64,
    kind: Kind,
    name: Seq<char>,
    size: nat,
    sha256: Seq<char>,
    mime: Seq<char>,
    note: Option<Seq<char>>,
    source: SourceView,
)
    ensures
        ({
            let it = fresh_item(id, now, kind, name, size, sha256, mime, note, source);
            &&& it.state == ItemState::Queued && it.claimed_unix_ms is None
            &&& it.direction is None
            &&& it.id == id && it.created_unix_ms == now && it.kind == kind
            &&& it.name == name && it.size == size && it.sha256 == sha256 && it.mime == mime
            &&& it.note == note && it.source == source
        }),
{
}

/// The bytes of two lists of items add up. A delivered item takes up none, and any other one
/// its size.
pub proof fn law_bytes_add_up(a: Seq<Item>, b: Seq<Item>, it: Item)
    ensures
        unacked_bytes(a + b) == unacked_bytes(a) + unacked_bytes(b),
        unacked_bytes(seq![it]) == if it.state == ItemState::Acked {
            0
        } else {
            it.size as nat
        },
        unacked_bytes(Seq::empty()) == 0,
    decreases b.len(),
{
    reveal_with_fuel(unacked_bytes, 2);
    assert(seq![it].drop_last() =~= Seq::<Item>::empty());
    if b.len() == 0 {
        assert(a + b =~= a);
    } else {
        law_bytes_add_up(a, b.drop_last(), it);
        assert((a + b).drop_last() =~= a + b.drop_last());
    }
}

/// What is read of a directory are the items in it, each once and in their order, and what
/// could not be read is left out.
pub proof fn law_readable(found: Seq<Option<Item>>, it: Item)
    ensures
        readable(Seq::empty()) == Seq::<Item>::empty(),
        readable(found.push(Some(it))) == readable(found).push(it),
        readable(found.push(None)) == readable(found),
{
    assert(found.push(Some(it)).drop_last() =~= found);
    assert(found.push(None).drop_last() =~= found);
}

/// A listing holds what was read, every item as often as it was read, and nothing else.
pub proof fn law_listing_holds_what_was_read(found: Seq<Option<Item>>)
    ensures
        listed(found).to_multiset() == readable(found).to_multiset(),
        listed(found).len() == readable(found).len(),
{
    order::law_sorted(readable(found));
}

/// The items that wait are exactly the queued ones, in their order, each once.
pub proof fn law_queued_ones(items: Seq<Item>, it: Item)
    ensures
        queued_ones(Seq::empty()) == Seq::<Item>::empty(),
        queued_ones(items.push(it)) == if it.state == ItemState::Queued {
            queued_ones(items).push(it)
        } else {
            queued_ones(items)
        },
        acked_ones(items.push(it)) == if it.state == ItemState::Acked {
            acked_ones(items).push(it)
        } else {
            acked_ones(items)
        },
{
    reveal(Seq::filter);
    assert(items.push(it).drop_last() =~= items);
}

/// The history that is asked for are the last entries, as many as were asked for or as
/// there are, in their order.
pub proof fn law_latest(items: Seq<Item>, n: nat)
    ensures
        latest(items, n).len() == if n < items.len() {
            n
        } else {
            items.len()
        },
        latest(items, n).is_suffix_of(items),
{
    let k = items.len() - latest(items, n).len();
    assert(latest(items, n) =~= items.skip(k));
    assert(items.subrange(k, items.len() as int) =~= items.skip(k));
}

/// The state directory holds the outbox and the inbox beside each other, under their names.
pub proof fn law_halves(root: Seq<char>)
    requires
        root.len() > 0,
    ensures
        path::components_of(half_path(root, true)) == path::components_of(root).push(
            path::Part::Normal("outbox"@),
        ),
        path::components_of(half_path(root, false)) == path::components_of(root).push(
            path::Part::Normal("inbox"@),
        ),
{
    reveal_strlit("outbox");
    reveal_strlit("inbox");
    assert(path::plain_name("outbox"@)) by {
        assert("outbox"@[0] == 'o');
        assert forall|i: int| 0 <= i < "outbox"@.len() implies "outbox"@[i] != '/' by {}
    }
    assert(path::plain_name("inbox"@)) by {
        assert("inbox"@[0] == 'i');
        assert forall|i: int| 0 <= i < "inbox"@.len() implies "inbox"@[i] != '/' by {}
    }
    path::law_join_name(root, "outbox"@);
    path::law_join_name(root, "inbox"@);
}

/// A payload in the outbox lies in the directory of its item: a directory as an archive under
/// its whole name, and anything else as `payload`.
pub proof fn law_outbox_payload(it: ItemView)
    ensures
        it.kind == Kind::Dir ==> payload_name(it) == it.name + ".tar.gz"@,
        it.kind != Kind::Dir ==> payload_name(it) == "payload"@,
{
}

/// No number, no name of a kind or state, and no age holds a tab.
pub proof fn lemma_no_tab(it: ItemView, now: u64)
    ensures
        !text::dec(it.size).contains('\t'),
        !it.kind.text().contains('\t'),
        !it.state.text().contains('\t'),
        !util::age_text(now, it.created_unix_ms).contains('\t'),
{
    text::law_decimal_reads_back(it.size);
    let d = text::dec(it.size);
    if d.contains('\t') {
        let i = choose|i: int| 0 <= i < d.len() && d[i] == '\t';
        assert('0' <= d[i] <= '9');
    }
    reveal_strlit("file");
    reveal_strlit("dir");
    reveal_strlit("clipboard-text");
    reveal_strlit("clipboard-image");
    reveal_strlit("queued");
    reveal_strlit("claimed");
    reveal_strlit("acked");
    let then_ms = it.created_unix_ms;
    let s: nat = if now >= then_ms {
        ((now - then_ms) / 1000) as nat
    } else {
        0
    };
    let n: nat = if s < 60 {
        s
    } else if s < 3600 {
        s / 60
    } else if s < 86400 {
        s / 3600
    } else {
        s / 86400
    };
    text::law_decimal_reads_back(n);
    let a = util::age_text(now, then_ms);
    assert(a.drop_last() =~= text::dec(n));
    if a.contains('\t') {
        let i = choose|i: int| 0 <= i < a.len() && a[i] == '\t';
        if i < text::dec(n).len() {
            assert(a[i] == text::dec(n)[i]);
        }
    }
}

/// Fields with a tab between each two.
pub open spec fn tabbed(fields: Seq<Seq<char>>) -> Seq<char> {
    text::joined(fields, seq!['\t'])
}

/// Fields without a tab in them are read back from their line.
pub proof fn law_fields_read_back(fields: Seq<Seq<char>>)
    requires
        fields.len() > 0,
        forall|i: int| 0 <= i < fields.len() ==> !(#[trigger] fields[i]).contains('\t'),
    ensures
        text::split_by(tabbed(fields), |c: char| c == '\t') == fields,
    decreases fields.len(),
{
    let last = fields.last();
    assert(!fields[fields.len() - 1].contains('\t'));
    text::law_split_without_separator(last, '\t');
    if fields.len() == 1 {
        assert(seq![last] =~= fields);
    } else {
        let front = fields.drop_last();
        assert forall|i: int| 0 <= i < front.len() implies !(#[trigger] front[i]).contains('\t') by {
            assert(front[i] == fields[i]);
        }
        law_fields_read_back(front);
        text::law_split_at_separator(tabbed(front), '\t', last);
        assert(tabbed(fields) =~= tabbed(front).push('\t') + last);
        assert(front + seq![last] =~= fields);
    }
}

/// The line of a list gives back what it says of an item: its id, name and size, its kind and
/// state by their names, and its age.
pub proof fn law_list_line_reads_back(it: ItemView, now: u64)
    requires
        !it.id.contains('\t'),
        !it.name.contains('\t'),
    ensures
        text::split_by(item_text(it, now), |c: char| c == '\t') == seq![
            it.id,
            it.name,
            text::dec(it.size),
            it.kind.text(),
            it.state.text(),
            util::age_text(now, it.created_unix_ms),
        ],
{
    lemma_no_tab(it, now);
    reveal_strlit("\t");
    assert("\t"@ =~= seq!['\t']);
    let f = seq![
        it.id,
        it.name,
        text::dec(it.size),
        it.kind.text(),
        it.state.text(),
        util::age_text(now, it.created_unix_ms),
    ];
    law_fields_read_back(f);
    reveal_with_fuel(text::joined, 7);
    let d1 = f.drop_last();
    let d2 = d1.drop_last();
    let d3 = d2.drop_last();
    let d4 = d3.drop_last();
    let d5 = d4.drop_last();
    assert(d5[0] == it.id);
    assert(tabbed(d4) == it.id + seq!['\t'] + it.name);
    assert(tabbed(d3) == tabbed(d4) + seq!['\t'] + text::dec(it.size));
    assert(tabbed(d2) == tabbed(d3) + seq!['\t'] + it.kind.text());
    assert(tabbed(d1) == tabbed(d2) + seq!['\t'] + it.state.text());
    assert(tabbed(f) =~= item_text(it, now));
}

/// Claiming succeeds exactly for an item that is queued, or whose claim is older than ten
/// minutes, and gives that item with the new claim noted.
pub proof fn law_claim(st: &State, id: &str, it: Item, now: u64, r: Result<Item, Error>)
    requires
        call_ensures(State::claim, (st, id, Some(it), now), r),
    ensures
        r is Ok <==> {
            ||| it.state == ItemState::Queued
            ||| it.state == ItemState::Claimed && (it.claimed_unix_ms matches Some(t) ==> now > t
                + 10 * 60 * 1000) && (it.claimed_unix_ms is None ==> now > 10 * 60 * 1000)
        },
        r matches Ok(x) ==> x == (Item {
            state: ItemState::Claimed,
            claimed_unix_ms: Some(now),
            ..it
        }),
{
}

/// Of two clients that claim an item within ten minutes only the first one gets it.
pub proof fn law_claimed_once(
    st: &State,
    id: &str,
    it: Item,
    first: u64,
    second: u64,
    x: Item,
    r: Result<Item, Error>,
)
    requires
        call_ensures(State::claim, (st, id, Some(it), first), Ok(x)),
        call_ensures(State::claim, (st, id, Some(x), second), r),
        second <= first + 10 * 60 * 1000,
    ensures
        r is Err,
{
    law_claim(st, id, it, first, Ok(x));
    law_claim(st, id, x, second, r);
}

/// Reporting an item delivered marks it and notes it in the history, and a second report
/// changes nothing. What is removed is its payload.
pub proof fn law_ack(st: &State, id: &str, it: Item, r: Result<Ack, Error>)
    requires
        call_ensures(State::ack, (st, id, Some(it)), r),
    ensures
        it.state == ItemState::Acked ==> r == Ok::<Ack, Error>(Ack::Already { item: it }),
        it.state != ItemState::Acked ==> {
            &&& r matches Ok(Ack::Now { item, payload, entry })
            &&& item == (Item { state: ItemState::Acked, ..it })
            &&& entry@ == (ItemView {
                state: ItemState::Acked,
                direction: Some("outbox"@),
                ..it@
            })
            &&& payload@ == path::path_joined(item_path(st.root@, true, it.id@), payload_name(it@))
        },
{
}

/// What is found for a digest is a queued item with that digest that was made no more than
/// two seconds ago, and nothing is found only where there is none.
pub proof fn law_find_dedupe(
    st: &State,
    listing: &Listing,
    sha256: &str,
    now: u64,
    r: Option<Item>,
)
    requires
        call_ensures(State::find_dedupe, (st, listing, sha256, now), r),
    ensures
        r matches Some(it) ==> listing.items@.contains(it) && it.state == ItemState::Queued
            && it.sha256@ == sha256@ && now <= it.created_unix_ms + 2000,
        r is None ==> forall|i: int|
            0 <= i < listing.items@.len() ==> !((#[trigger] listing.items@[i]).state
                == ItemState::Queued && listing.items@[i].sha256@ == sha256@ && now
                <= listing.items@[i].created_unix_ms + 2000),
{
    if r is None {
        assert forall|i: int| 0 <= i < listing.items@.len() implies !((
        #[trigger] listing.items@[i]).state == ItemState::Queued && listing.items@[i].sha256@
            == sha256@ && now <= listing.items@[i].created_unix_ms + 2000) by {
            law_duplicates_have_the_same_digest(listing.items@[i], sha256@, now);
            assert(!duplicate(listing.items@[i], sha256@, now));
        }
    }
}

/// A listing of the outbox holds every item that was read. An item is as it was, but for a
/// claim that is older than ten minutes.
pub proof fn law_list_outbox(
    st: &State,
    found: Vec<Option<Item>>,
    now: u64,
    r: Listing,
    i: int,
)
    requires
        call_ensures(State::list_outbox, (st, found, now), r),
        0 <= i < found@.len(),
        found@[i] is Some,
    ensures
        r.items@.len() == readable(found@).len(),
        ({
            let it = found@[i]->0;
            if it.state == ItemState::Claimed && (match it.claimed_unix_ms {
                Some(t) => now > t + 10 * 60 * 1000,
                None => now > 10 * 60 * 1000,
            }) {
                r.items@.contains(
                    (Item { state: ItemState::Queued, claimed_unix_ms: None, ..it }),
                )
            } else {
                r.items@.contains(it)
            }
        }),
{
    let it = found@[i]->0;
    order::law_sorted(readable(found@));
    lemma_listed_contains(found@, i);
    let k = choose|k: int| 0 <= k < listed(found@).len() && listed(found@)[k] == it;
    assert(r.items@[k] == recovered(it, now));
}

/// The queued items of a listing are those of its items that are queued.
pub proof fn law_queued_outbox(st: &State, listing: &Listing, r: Vec<Item>, it: Item)
    requires
        call_ensures(State::queued_outbox, (st, listing), r),
    ensures
        r@.contains(it) <==> listing.items@.contains(it) && it.state == ItemState::Queued,
{
    let p = |x: Item| x.state == ItemState::Queued;
    if r@.contains(it) {
        let k = choose|k: int| 0 <= k < r@.len() && r@[k] == it;
        order::lemma_filter_from(listing.items@, p, k);
    }
    if listing.items@.contains(it) && it.state == ItemState::Queued {
        let k = choose|k: int| 0 <= k < listing.items@.len() && listing.items@[k] == it;
        lemma_filter_keeps(listing.items@, p, k);
    }
}

/// An item is written where it is read from, and an item that is there is read as it is.
pub proof fn law_written_where_it_is_read(
    st: &State,
    outbox: bool,
    item: &Item,
    id: &str,
    files: ItemFiles,
    file: String,
    r: Result<Item, Error>,
)
    requires
        call_ensures(State::write_item, (st, outbox, item), files),
        call_ensures(State::item_file, (st, outbox, id), file),
        call_ensures(State::read_item, (st, id, Some(*item)), r),
        id@ == item.id@,
    ensures
        file@ == files.dest@,
        r == Ok::<Item, Error>(*item),
{
}

/// The history that is read are the last entries, as many as were asked for or as could be
/// read.
pub proof fn law_read_history(st: &State, found: Vec<Option<Item>>, n: usize, r: Vec<Item>)
    requires
        call_ensures(State::read_history, (st, found, n), r),
    ensures
        r@.is_suffix_of(readable(found@)),
        r@.len() == if n < readable(found@).len() {
            n as nat
        } else {
            readable(found@).len()
        },
{
    law_latest(readable(found@), n as nat);
}

/// Five hundred delivered items are remembered: of more, the directories of those with the
/// least ids go, and of no others.
pub proof fn law_prune_outbox(st: &State, found: Vec<Option<Item>>, r: Vec<String>)
    requires
        call_ensures(State::prune_outbox, (st, found), r),
    ensures
        ({
            let done = acked_ones(listed(found@));
            &&& r@.len() == if done.len() > 500 {
                (done.len() - 500) as nat
            } else {
                0
            }
            &&& forall|i: int|
                0 <= i < r@.len() ==> (#[trigger] r@[i])@ == item_path(
                    st.root@,
                    true,
                    done[i].id@,
                )
        }),
{
    let gone = surplus(listed(found@));
    let dirs = gone.map_values(|it: Item| item_path(st.root@, true, it.id@));
    assert(text::texts(r@).len() == dirs.len());
    assert forall|i: int| 0 <= i < r@.len() implies (#[trigger] r@[i])@ == item_path(
        st.root@,
        true,
        acked_ones(listed(found@))[i].id@,
    ) by {
        assert(text::texts(r@)[i] == r@[i]@);
        assert(dirs[i] == item_path(st.root@, true, gone[i].id@));
    }
}

/// What a listing has to write again are exactly the items whose claim is older than ten
/// minutes, queued again and otherwise as they were.
pub proof fn law_reverted(st: &State, found: Vec<Option<Item>>, now: u64, r: Listing, it: Item)
    requires
        call_ensures(State::list_outbox, (st, found, now), r),
    ensures
        listed(found@).contains(it) && it.state == ItemState::Claimed && (match it.claimed_unix_ms {
            Some(t) => now > t + 10 * 60 * 1000,
            None => now > 10 * 60 * 1000,
        }) ==> r.reverted@.contains(
            (Item { state: ItemState::Queued, claimed_unix_ms: None, ..it }),
        ),
        r.reverted@.contains(it) ==> it.state == ItemState::Queued && it.claimed_unix_ms is None
            && r.items@.contains(it),
{
    let all = listed(found@);
    let p = |x: Item| stale(x, now);
    let old = all.filter(p);
    if all.contains(it) && stale(it, now) {
        let k = choose|k: int| 0 <= k < all.len() && all[k] == it;
        lemma_filter_keeps(all, p, k);
        let j = choose|j: int| 0 <= j < old.len() && old[j] == it;
        assert(r.reverted@[j] == recovered(it, now));
    }
    if r.reverted@.contains(it) {
        let j = choose|j: int| 0 <= j < r.reverted@.len() && r.reverted@[j] == it;
        order::lemma_filter_from(all, p, j);
        assert(stale(old[j], now));
        let k = choose|k: int| 0 <= k < all.len() && all[k] == old[j];
        assert(r.items@[k] == it);
    }
}

/// A line of the history starts with the id of its item and ends with its whole name and
/// note. What stands between is as wide as it is in every line, unless a field is wider.
pub proof fn law_history_line(it: ItemView)
    ensures
        ({
            let line = history_text(it);
            let note = match it.note {
                Some(n) => "  — "@ + n,
                None => Seq::empty(),
            };
            &&& it.id.is_prefix_of(line)
            &&& (it.name + note).is_suffix_of(line)
            &&& (it.direction matches Some(d) && d.len() <= 6) && util::size_text(it.size).len()
                <= 8 ==> line.len() == it.id.len() + 35 + it.name.len() + note.len()
        }),
{
    let line = history_text(it);
    let note = match it.note {
        Some(n) => "  — "@ + n,
        None => Seq::empty(),
    };
    reveal_strlit("");
    reveal_strlit("  ");
    reveal_strlit(" ");
    reveal_strlit("file");
    reveal_strlit("dir");
    reveal_strlit("clipboard-text");
    reveal_strlit("clipboard-image");
    assert("  "@.len() == 2 && " "@.len() == 1);
    assert(it.kind.text().len() <= 15);
    assert(""@ =~= Seq::<char>::empty());
    assert(it.id =~= line.take(it.id.len() as int));
    let tail = it.name + note;
    assert(tail =~= line.skip(line.len() - tail.len()));
    assert(line.subrange(line.len() - tail.len(), line.len() as int) =~= tail);
}

/// The history shows one line for each of its entries, in their order.
pub proof fn law_history_lines(
    st: &State,
    found: Vec<Option<Item>>,
    n: usize,
    r: Vec<String>,
    i: int,
)
    requires
        call_ensures(State::print_history, (st, found, n), r),
    ensures
        ({
            let all = latest(readable(found@), n as nat);
            &&& all.len() > 0 ==> r@.len() == all.len()
            &&& 0 <= i < all.len() ==> r@[i]@ == history_text(all[i]@)
            &&& all.len() == 0 ==> r@.len() == 1
        }),
{
    let all = latest(readable(found@), n as nat);
    assert(text::texts(r@).len() == r@.len());
    if 0 <= i < all.len() {
        assert(text::texts(r@)[i] == r@[i]@);
        assert(all.map_values(|it: Item| history_text(it@))[i] == history_text(all[i]@));
    }
}

/// A list shows one line for each of its items, in their order.
pub proof fn law_list_lines(items: &Vec<Item>, now: u64, r: Vec<String>, i: int)
    requires
        call_ensures(print_items, (items, now), r),
    ensures
        items@.len() > 0 ==> r@.len() == items@.len(),
        0 <= i < items@.len() ==> r@[i]@ == item_text(items@[i]@, now),
        items@.len() == 0 ==> r@.len() == 1,
{
    assert(text::texts(r@).len() == r@.len());
    if 0 <= i < items@.len() {
        assert(text::texts(r@)[i] == r@[i]@);
        assert(items@.map_values(|it: Item| item_text(it@, now))[i] == item_text(items@[i]@, now));
    }
}

} // verus!
