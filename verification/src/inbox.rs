//! What a client puts into the inbox, and how it reaches an agent.

use vstd::prelude::*;

use crate::command::Command;
use crate::error::Error;
use crate::herdr::{self, Ctx};
use crate::outside;
use crate::path;
use crate::state::{self, Item, ItemState, ItemView, Kind, Source, State};
use crate::text::{self, str_eq};
use crate::util;

verus! {

/// The lines that show the inbox, at `now`.
pub fn list(items: &Vec<Item>, now: u64) -> (r: Vec<String>)
    ensures
        text::texts(r@) == state::item_texts(items@, now),
{
    state::print_items(items, now)
}

/// A payload that is being received.
pub struct Receiving {
    /// The item that it belongs to.
    pub item: Item,
    /// The directory of the item.
    pub dir: String,
    /// The directory that the payload is written in.
    pub folder: String,
    /// The file that the payload is written to.
    pub dest: String,
}

/// The media type that was announced, or else that of the name.
pub open spec fn mime_or_guess(mime: Option<Seq<char>>, name: Seq<char>) -> Seq<char> {
    match mime {
        Some(m) => m,
        None => outside::mime_of(name),
    }
}

/// The name of a directory whose archive is called `name`.
pub open spec fn archive_stem(name: Seq<char>) -> Seq<char> {
    text::without_tail(name, ".tar.gz"@)
}

/// Where a received directory is unpacked to.
pub open spec fn unpacked_at(dir: Seq<char>, name: Seq<char>) -> Seq<char> {
    path::path_joined(state::payload_folder(dir, archive_stem(name)), archive_stem(name))
}

/// Whether a path is none that the description of the item with the directory `dir` is
/// written to.
pub open spec fn spares_sidecar(dir: Seq<char>, p: Seq<char>) -> bool {
    &&& p != path::path_joined(dir, "item.json"@)
    &&& p != path::path_joined(dir, "item.json.tmp"@)
}

/// Takes on a payload that is announced. It gets a directory of its own, and is kept apart
/// from the description of its item.
pub fn receive(
    state: &State,
    name: &str,
    sha256: &str,
    size: u64,
    kind: &str,
    mime: Option<String>,
    note: Option<String>,
) -> (r: Result<Receiving, Error>)
    ensures
        match r {
            Ok(x) => {
                &&& path::last_name(name@) == Some(x.item.name@)
                &&& x.item.kind.text() == kind@
                &&& outside::ulid_text(x.item.id@)
                &&& x.item@ == (ItemView {
                    state: ItemState::Acked,
                    ..state::fresh_item(
                        x.item.id@,
                        x.item.created_unix_ms,
                        x.item.kind,
                        x.item.name@,
                        size as nat,
                        sha256@,
                        mime_or_guess(text::text_option(mime), x.item.name@),
                        text::text_option(note),
                        state::no_source(),
                    )
                })
                &&& x.dir@ == state::item_path(state.root@, false, x.item.id@)
                &&& x.folder@ == state::payload_folder(x.dir@, x.item.name@)
                &&& x.dest@ == state::inbox_place(state.root@, x.item.id@, x.item.name@)
                &&& spares_sidecar(x.dir@, x.dest@)
                &&& spares_sidecar(x.dir@, unpacked_at(x.dir@, x.item.name@))
            },
            Err(Error::BadName) => path::last_name(name@) is None,
            Err(Error::UnknownKind { kind: x }) => path::last_name(name@) is Some && x@ == kind@
                && forall|k: Kind| #[trigger] k.text() != kind@,
            Err(_) => false,
        },
{
    let ghost asked = name;
    let name = match path::file_name(name) {
        Some(n) => n,
        None => {
            return Err(Error::BadName);
        },
    };
    let kind = match Kind::parse(kind) {
        Ok(k) => k,
        Err(e) => {
            return Err(e);
        },
    };
    let mime = match mime {
        Some(m) => m,
        None => util::mime_for(name.as_str()),
    };
    let mut item = Item::new(
        kind,
        name.as_str(),
        size,
        sha256,
        mime.as_str(),
        note,
        Source::default(),
    );
    item.state = ItemState::Acked;
    let dir = state.item_dir(false, item.id.as_str());
    let folder = state::folder_for(dir.as_str(), name.as_str());
    let dest = path::join(folder.as_str(), name.as_str());
    proof {
        assert(dir@.len() > 0);
        path::law_last_name_is_plain(asked@);
        assert(name@.contains(name@[0]));
        lemma_stem_is_relative(name@);
        state::lemma_place_apart(dir@, name@);
        state::lemma_place_apart(dir@, archive_stem(name@));
    }
    Ok(Receiving { item, dir, folder, dest })
}

proof fn lemma_stem_is_relative(name: Seq<char>)
    requires
        !path::absolute(name),
    ensures
        !path::absolute(archive_stem(name)),
{
    assert(archive_stem(name).is_prefix_of(name));
}

impl Receiving {
    /// Refuses a payload of another length than announced.
    pub fn check_size(&self, got: u64) -> (r: Result<(), Error>)
        ensures
            match r {
                Ok(()) => got == self.item.size,
                Err(Error::ShortRead { expected, got: g }) => got != self.item.size && expected
                    == self.item.size && g == got,
                Err(_) => false,
            },
    {
        if got != self.item.size {
            return Err(Error::ShortRead { expected: self.item.size, got });
        }
        Ok(())
    }

    /// Refuses a payload with another digest than announced.
    pub fn check_digest(&self, got: &str) -> (r: Result<(), Error>)
        ensures
            match r {
                Ok(()) => got@ == self.item.sha256@,
                Err(Error::ReceiveMismatch) => got@ != self.item.sha256@,
                Err(_) => false,
            },
    {
        if !str_eq(got, self.item.sha256.as_str()) {
            return Err(Error::ReceiveMismatch);
        }
        Ok(())
    }

    /// Where the archive of a directory unpacks to; nothing for any other payload.
    pub fn unpacked(&self) -> (r: Option<String>)
        ensures
            text::text_option(r) == if self.item.kind == Kind::Dir {
                Some(unpacked_at(self.dir@, self.item.name@))
            } else {
                None
            },
    {
        if self.item.kind == Kind::Dir {
            let stem = text::cut_tail(self.item.name.as_str(), ".tar.gz");
            let folder = state::folder_for(self.dir.as_str(), stem.as_str());
            Some(path::join(folder.as_str(), stem.as_str()))
        } else {
            None
        }
    }

    /// The directory that the archive of a directory is unpacked in; nothing for any other
    /// payload.
    pub fn unpack_in(&self) -> (r: Option<String>)
        ensures
            text::text_option(r) == if self.item.kind == Kind::Dir {
                Some(state::payload_folder(self.dir@, archive_stem(self.item.name@)))
            } else {
                None
            },
    {
        if self.item.kind == Kind::Dir {
            let stem = text::cut_tail(self.item.name.as_str(), ".tar.gz");
            Some(state::folder_for(self.dir.as_str(), stem.as_str()))
        } else {
            None
        }
    }

    /// The item as it has to be written: that of a directory has the name of the directory
    /// that the archive was unpacked to, if there is one.
    pub fn settle(self, unpacked_exists: bool) -> (r: Item)
        requires
            unpacked_exists && self.item.kind == Kind::Dir ==> path::last_name(
                unpacked_at(self.dir@, self.item.name@),
            ) is Some,
        ensures
            r@ == (ItemView {
                name: if unpacked_exists && self.item.kind == Kind::Dir {
                    path::last_name(unpacked_at(self.dir@, self.item.name@))->0
                } else {
                    self.item.name@
                },
                ..self.item@
            }),
    {
        let out = self.unpacked();
        let mut item = self.item;
        if let Some(p) = out {
            if unpacked_exists {
                if let Some(n) = path::file_name(p.as_str()) {
                    item.name = n;
                }
            }
        }
        item
    }
}

/// The item to paste: the item `id`, where its file was found, or else the latest one.
pub fn pick(state: &State, id: Option<&str>, found: Option<Item>, items: &Vec<Item>) -> (r: Result<
    Item,
    Error,
>)
    ensures
        match r {
            Ok(it) => if id is Some {
                found == Some(it)
            } else {
                items@.len() > 0 && it == items@.last()
            },
            Err(Error::NoSuchItem { id: x }) => id matches Some(i) && found is None && x@ == i@,
            Err(Error::InboxEmpty) => id is None && items@.len() == 0,
            Err(_) => false,
        },
{
    match id {
        Some(id) => state.read_item(id, found),
        None => if items.len() == 0 {
            Err(Error::InboxEmpty)
        } else {
            Ok(items[items.len() - 1].clone())
        },
    }
}

/// Whether `pane` is the focused pane, as far as `ask` has been asked for it.
pub open spec fn is_focused<F: Fn(&Command) -> Result<String, Error>>(
    ctx: Ctx,
    ask: F,
    pane: Result<String, Error>,
) -> bool {
    match ctx.pane_id {
        Some(p) => pane == Ok::<String, Error>(p),
        None => exists|a: Result<String, Error>|
            #[trigger] crate::command::answered(ask, herdr::pane_list_line(ctx), a)
                && herdr::pane_verdict(a, pane),
    }
}

/// The command line that inserts the path of an item into the focused pane, and what is
/// said of it. No key is pressed.
pub fn paste<F: Fn(&Command) -> Result<String, Error>>(
    state: &State,
    ctx: &Ctx,
    item: &Item,
    ask: F,
) -> (r: Result<(Command, String), Error>)
    requires
        forall|c: &Command| call_requires(ask, (c,)),
    ensures
        match r {
            Ok((c, line)) => exists|pane: String|
                {
                    let text = state::inbox_place(state.root@, item.id@, item.name@);
                    &&& #[trigger] is_focused(*ctx, ask, Ok(pane))
                    &&& c@ == herdr::herdr_line(
                        *ctx,
                        seq!["pane"@, "send-text"@, pane@, text],
                    )
                    &&& line@ == "pasted "@ + text + " into "@ + pane@
                },
            Err(e) => is_focused(*ctx, ask, Err(e)),
        },
{
    let text = state.inbox_payload(item);
    let pane = match ctx.resolve_pane(ask) {
        Ok(p) => p,
        Err(e) => {
            return Err(e);
        },
    };
    let c = ctx.send_text(pane.as_str(), text.as_str());
    let mut line = "pasted ".to_owned();
    line.append(text.as_str());
    line.append(" into ");
    line.append(pane.as_str());
    proof {
        assert(is_focused(*ctx, ask, Ok(pane)));
    }
    Ok((c, line))
}

/// A received payload lies in the directory of its item, whatever name was announced, and
/// neither it nor the description of the item is written over the other.
pub proof fn law_payload_stays_inside(root: Seq<char>, id: Seq<char>, name: Seq<char>)
    requires
        outside::ulid_text(id),
        path::last_name(name) is Some,
    ensures
        ({
            let dir = state::item_path(root, false, id);
            let file = path::last_name(name)->0;
            let place = state::inbox_place(root, id, file);
            &&& path::lies_under(place, dir)
            &&& !path::same_path(place, path::path_joined(dir, "item.json"@))
            &&& !path::same_path(place, path::path_joined(dir, "item.json.tmp"@))
            &&& !state::sidecar_name(file) ==> path::components_of(place) == path::components_of(
                dir,
            ).push(path::Part::Normal(file))
        }),
{
    let dir = state::item_path(root, false, id);
    assert(dir.len() > 0);
    path::law_last_name_is_plain(name);
    state::law_payload_and_sidecar_apart(dir, path::last_name(name)->0);
}

/// A received directory is found again where it was unpacked, whatever it is called, and
/// neither it nor the description of its item is written over the other.
pub proof fn law_unpacked_is_found(root: Seq<char>, id: Seq<char>, name: Seq<char>)
    requires
        outside::ulid_text(id),
        path::plain_name(archive_stem(name)),
    ensures
        ({
            let dir = state::item_path(root, false, id);
            let out = unpacked_at(dir, name);
            &&& path::last_name(out) == Some(archive_stem(name))
            &&& state::inbox_place(root, id, archive_stem(name)) == out
            &&& !path::same_path(out, path::path_joined(dir, "item.json"@))
            &&& !path::same_path(out, path::path_joined(dir, "item.json.tmp"@))
        }),
{
    let dir = state::item_path(root, false, id);
    let stem = archive_stem(name);
    assert(dir.len() > 0);
    state::law_payload_and_sidecar_apart(dir, stem);
    let folder = state::payload_folder(dir, stem);
    assert(folder.len() > 0) by {
        reveal_strlit("payload");
    }
    path::law_join_name(folder, stem);
    assert(path::components_of(unpacked_at(dir, name)).last() == path::Part::Normal(stem));
}

/// A payload is accepted exactly if as many bytes arrive as were announced, with the digest
/// that was announced.
pub proof fn law_checks(
    x: &Receiving,
    bytes: u64,
    digest: &str,
    size: Result<(), Error>,
    same: Result<(), Error>,
)
    requires
        call_ensures(Receiving::check_size, (x, bytes), size),
        call_ensures(Receiving::check_digest, (x, digest), same),
    ensures
        size is Ok <==> bytes == x.item.size,
        same is Ok <==> digest@ == x.item.sha256@,
{
}

/// What is received is what was announced: under its last name, with its size, digest and
/// note, delivered, and in a file of its own in its own directory in the inbox.
pub proof fn law_receive(
    st: &State,
    name: &str,
    sha256: &str,
    size: u64,
    kind: &str,
    mime: Option<String>,
    note: Option<String>,
    r: Result<Receiving, Error>,
)
    requires
        call_ensures(receive, (st, name, sha256, size, kind, mime, note), r),
        path::plain_name(name@),
        kind@ == "file"@ || kind@ == "dir"@,
    ensures
        r matches Ok(x) && {
            &&& x.item.name@ == name@ && x.item.size == size && x.item.sha256@ == sha256@
            &&& x.item.state == ItemState::Acked
            &&& x.item.kind == Kind::Dir <==> kind@ == "dir"@
            &&& x.item.kind == Kind::File <==> kind@ == "file"@
            &&& text::text_option(x.item.note) == text::text_option(note)
            &&& mime matches Some(m) ==> x.item.mime@ == m@
            &&& path::lies_under(x.dest@, x.dir@)
            &&& path::last_name(x.dest@) == Some(name@)
            &&& !path::same_path(x.dest@, path::path_joined(x.dir@, "item.json"@))
        },
{
    path::law_name_of_plain_name(name@);
    reveal_strlit("file");
    reveal_strlit("dir");
    assert("file"@.len() == 4 && "dir"@.len() == 3);
    assert(Kind::File.text() == "file"@ && Kind::Dir.text() == "dir"@);
    if let Ok(x) = r {
        state::law_item_says_its_fields(x.item);
        if kind@ == "dir"@ {
            state::law_kind_known_by_name(x.item.kind, Kind::Dir);
        } else {
            state::law_kind_known_by_name(x.item.kind, Kind::File);
        }
        law_payload_stays_inside(st.root@, x.item.id@, name@);
        let folder = state::payload_folder(x.dir@, name@);
        assert(x.dir@.len() > 0);
        assert(folder.len() > 0) by {
            reveal_strlit("payload");
        }
        path::law_join_lies_under(folder, name@);
    }
}

/// The item that is pasted is the one that was asked for, or else the latest one.
pub proof fn law_pick(
    st: &State,
    id: &str,
    it: Item,
    items: &Vec<Item>,
    named: Result<Item, Error>,
    last: Result<Item, Error>,
)
    requires
        call_ensures(pick, (st, Some(id), Some(it), items), named),
        call_ensures(pick, (st, None, None, items), last),
    ensures
        named == Ok::<Item, Error>(it),
        items@.len() > 0 ==> last == Ok::<Item, Error>(items@[items@.len() - 1]),
        items@.len() == 0 ==> last is Err,
{
}

/// The directory that an archive holds is named as the archive, without one `.tar.gz` at the
/// end.
pub proof fn law_archive_stem(name: Seq<char>)
    ensures
        archive_stem(name + ".tar.gz"@) == name,
        !".tar.gz"@.is_suffix_of(name) ==> archive_stem(name) == name,
{
    reveal_strlit(".tar.gz");
    assert(".tar.gz"@.len() == 7);
    text::law_heads_and_tails(name, ".tar.gz"@);
}

} // verus!
