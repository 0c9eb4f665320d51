//! Sending: what may go into the outbox, and how it gets there.

use vstd::prelude::*;

use crate::command::{command, Command, CommandView};
use crate::error::Error;
use crate::herdr::{self, Ctx, EnvVars};
use crate::order;
use crate::outside;
use crate::path;
use crate::state::{self, Item, ItemState, Kind, Listing, Source, State};
use crate::state::{DEDUPE_WINDOW_MS, OUTBOX_CAP_BYTES};
use crate::text;
use crate::util;

verus! {

/// How something is sent.
pub struct SendOpts {
    pub note: Option<String>,
    pub clip: bool,
    pub force: bool,
    pub allow_outside_home: bool,
}

/// A send under way.
pub struct Sending {
    /// Whether the clipboard is still to be sent.
    pub clip: bool,
    /// The paths that are still to be sent.
    pub todo: Vec<String>,
    /// How many of `todo` have been sent.
    pub done: usize,
    /// The ids under which they have been queued.
    pub ids: Vec<String>,
}

/// What a send does next.
pub enum SendStep {
    /// Stage the clipboard.
    Clipboard,
    /// Find out what the path `full` leads to, vet that, and stage it.
    Path { full: String },
    /// Report the counts of all workspaces; the items have been queued under `ids`.
    Report { ids: Vec<String> },
}

impl Sending {
    /// Whether the counts fit together.
    pub open spec fn wf(self) -> bool {
        self.done <= self.todo@.len() && if self.clip {
            self.todo@.len() == 0 && self.ids@.len() == 0
        } else {
            self.todo@.len() == 0 || self.ids@.len() == self.done
        }
    }

    /// What is to be done next.
    pub fn next(&self) -> (r: SendStep)
        requires
            self.wf(),
        ensures
            match r {
                SendStep::Clipboard => self.clip,
                SendStep::Path { full } => !self.clip && self.done < self.todo@.len() && full
                    == self.todo@[self.done as int],
                SendStep::Report { ids } => !self.clip && self.done == self.todo@.len() && ids@
                    == self.ids@,
            },
    {
        if self.clip {
            SendStep::Clipboard
        } else if self.done < self.todo.len() {
            SendStep::Path { full: self.todo[self.done].clone() }
        } else {
            SendStep::Report { ids: crate::command::copy_texts(&self.ids) }
        }
    }

    /// What was asked for by `next` has been queued under `id`.
    pub fn staged(&mut self, id: String)
        requires
            old(self).wf(),
            old(self).clip || old(self).done < old(self).todo@.len(),
        ensures
            final(self).wf(),
            !final(self).clip,
            final(self).todo@ == old(self).todo@,
            final(self).done == if old(self).clip {
                old(self).done as int
            } else {
                old(self).done + 1
            },
            final(self).ids@ == old(self).ids@.push(id),
    {
        if self.clip {
            self.clip = false;
        } else {
            proof {
                assert(self.todo.len() <= usize::MAX);
            }
            self.done = self.done + 1;
        }
        self.ids.push(id);
    }
}

/// The paths that are meant, in the order in which they were given.
pub open spec fn meant(paths: Seq<String>, base: Seq<char>, home: Seq<char>) -> Seq<Seq<char>> {
    paths.map_values(|p: String| herdr::path_from(base, p@, home))
}

/// Starts a send: of the clipboard where the options ask for it, otherwise of `paths`,
/// which start from `base` where they are relative.
pub fn send(paths: &Vec<String>, base: &str, home: &str, opts: &SendOpts) -> (r: Result<
    Sending,
    Error,
>)
    ensures
        match r {
            Ok(s) => {
                &&& s.wf()
                &&& s.clip == opts.clip
                &&& s.done == 0
                &&& s.ids@.len() == 0
                &&& text::texts(s.todo@) == if opts.clip {
                    Seq::empty()
                } else {
                    meant(paths@, base@, home@)
                }
                &&& opts.clip || paths@.len() > 0
            },
            Err(Error::NothingToSend) => !opts.clip && paths@.len() == 0,
            Err(_) => false,
        },
{
    let mut todo: Vec<String> = Vec::new();
    if opts.clip {
        proof {
            assert(text::texts(todo@) == Seq::<Seq<char>>::empty());
        }
        return Ok(Sending { clip: true, todo, done: 0, ids: Vec::new() });
    }
    if paths.len() == 0 {
        return Err(Error::NothingToSend);
    }
    for i in 0..paths.len()
        invariant
            text::texts(todo@) == meant(paths@, base@, home@).take(i as int),
    {
        let ghost before = todo@;
        todo.push(herdr::resolve(base, paths[i].as_str(), home));
        proof {
            assert(text::texts(todo@) == text::texts(before).push(
                herdr::path_from(base@, paths@[i as int]@, home@),
            ));
        }
    }
    proof {
        assert(meant(paths@, base@, home@).take(paths@.len() as int) == meant(
            paths@,
            base@,
            home@,
        ));
    }
    Ok(Sending { clip: false, todo, done: 0, ids: Vec::new() })
}

/// The name under which a path is sent.
pub open spec fn sent_name(full: Seq<char>) -> Seq<char> {
    match path::last_name(full) {
        Some(n) => n,
        None => "item"@,
    }
}

/// Vets what `asked` leads to, which is `full` if it exists, and names it. Nothing
/// outside the home directory and nothing on the deny-list of secrets passes,
/// unless the options say so.
pub fn vet(asked: &str, full: Option<&str>, home: &str, opts: &SendOpts) -> (r: Result<
    String,
    Error,
>)
    ensures
        match r {
            Ok(name) => full matches Some(f) && {
                &&& opts.allow_outside_home || path::lies_under(f@, home@)
                &&& opts.force || util::deny_rule(sent_name(f@)) is None
                &&& name@ == sent_name(f@)
            },
            Err(Error::DoesNotExist { path: p }) => full is None && p@ == asked@,
            Err(Error::OutsideHome { path: p }) => full matches Some(f) && p@ == f@
                && !opts.allow_outside_home && !path::lies_under(f@, home@),
            Err(Error::Denied { name, rule }) => full matches Some(f) && {
                &&& opts.allow_outside_home || path::lies_under(f@, home@)
                &&& !opts.force
                &&& name@ == sent_name(f@)
                &&& util::deny_rule(name@) == Some(rule@)
            },
            Err(_) => false,
        },
{
    let full = match full {
        Some(f) => f,
        None => {
            return Err(Error::DoesNotExist { path: asked.to_owned() });
        },
    };
    if !opts.allow_outside_home && !path::path_starts_with(full, home) {
        return Err(Error::OutsideHome { path: full.to_owned() });
    }
    let name = match path::file_name(full) {
        Some(n) => n,
        None => "item".to_owned(),
    };
    if let Some(rule) = util::denied_reason(name.as_str()) {
        if !opts.force {
            return Err(Error::Denied { name, rule: rule.to_owned() });
        }
    }
    Ok(name)
}

/// Refuses `add` more bytes where the undelivered items would then exceed the cap.
pub fn check_cap(state: &State, listing: &Listing, add: u64) -> (r: Result<(), Error>)
    requires
        state::unacked_bytes(listing.items@) + add <= u64::MAX,
    ensures
        match r {
            Ok(()) => state::unacked_bytes(listing.items@) + add <= OUTBOX_CAP_BYTES,
            Err(Error::CapExceeded { used, new }) => {
                &&& state::unacked_bytes(listing.items@) + add > OUTBOX_CAP_BYTES
                &&& used == state::unacked_bytes(listing.items@)
                &&& new == add
            },
            Err(_) => false,
        },
{
    let used = state.outbox_bytes(listing);
    if used + add > OUTBOX_CAP_BYTES {
        return Err(Error::CapExceeded { used, new: add });
    }
    Ok(())
}

/// What comes of an item that is to be queued.
pub enum Finish {
    /// The same contents have just been queued, under `id`.
    Duplicate { id: String },
    /// Make the directory `dir`, put the payload to `payload`, and write `item`.
    Stage { item: Item, dir: String, payload: String },
}

/// Decides over an item that comes at `now`, by what the outbox holds. Where it comes from
/// is found out by `source`, once it is to be queued.
pub fn finish<F: Fn() -> Source>(
    state: &State,
    listing: &Listing,
    item: Item,
    source: F,
    now: u64,
) -> (r: Result<Finish, Error>)
    requires
        no_duplicate(listing.items@, item.sha256@, now) ==> state::unacked_bytes(listing.items@)
            + item.size <= u64::MAX,
        call_requires(source, ()),
    ensures
        match r {
            Ok(Finish::Duplicate { id }) => exists|i: int|
                0 <= i < listing.items@.len() && id == (#[trigger] listing.items@[i]).id
                    && state::duplicate(listing.items@[i], item.sha256@, now) && forall|j: int|
                    0 <= j < i ==> !state::duplicate(
                        #[trigger] listing.items@[j],
                        item.sha256@,
                        now,
                    ),
            Ok(Finish::Stage { item: x, dir, payload }) => {
                &&& no_duplicate(listing.items@, item.sha256@, now)
                &&& state::unacked_bytes(listing.items@) + item.size <= OUTBOX_CAP_BYTES
                &&& call_ensures(source, (), x.source)
                &&& x == (Item { source: x.source, ..item })
                &&& dir@ == state::item_path(state.root@, true, item.id@)
                &&& payload@ == path::path_joined(dir@, state::payload_name(item@))
            },
            Err(Error::CapExceeded { used, new }) => {
                &&& no_duplicate(listing.items@, item.sha256@, now)
                &&& state::unacked_bytes(listing.items@) + item.size > OUTBOX_CAP_BYTES
                &&& used == state::unacked_bytes(listing.items@)
                &&& new == item.size
            },
            Err(_) => false,
        },
{
    if let Some(existing) = state.find_dedupe(listing, item.sha256.as_str(), now) {
        return Ok(Finish::Duplicate { id: existing.id });
    }
    if let Err(e) = check_cap(state, listing, item.size) {
        return Err(e);
    }
    let mut item = item;
    item.source = source();
    let dir = state.item_dir(true, item.id.as_str());
    let payload = state.outbox_payload(&item);
    Ok(Finish::Stage { item, dir, payload })
}

/// Whether no item stands for another one with the digest `sha256` that comes at `now`.
pub open spec fn no_duplicate(items: Seq<Item>, sha256: Seq<char>, now: u64) -> bool {
    forall|j: int| 0 <= j < items.len() ==> !state::duplicate(#[trigger] items[j], sha256, now)
}

/// The item for the file `name`.
pub fn stage_file(name: &str, size: u64, sha256: &str, note: Option<String>) -> (r: Item)
    ensures
        outside::ulid_text(r.id@),
        r@ == state::fresh_item(
            r.id@,
            r.created_unix_ms,
            Kind::File,
            name@,
            size as nat,
            sha256@,
            outside::mime_of(name@),
            text::text_option(note),
            state::no_source(),
        ),
{
    let mime = util::mime_for(name);
    Item::new(Kind::File, name, size, sha256, mime.as_str(), note, Source::default())
}

/// The item for the archive of the directory `name`.
pub fn stage_dir(name: &str, size: u64, sha256: &str, note: Option<String>) -> (r: Item)
    ensures
        outside::ulid_text(r.id@),
        r@ == state::fresh_item(
            r.id@,
            r.created_unix_ms,
            Kind::Dir,
            name@,
            size as nat,
            sha256@,
            "application/gzip"@,
            text::text_option(note),
            state::no_source(),
        ),
{
    Item::new(Kind::Dir, name, size, sha256, "application/gzip", note, Source::default())
}

/// Where the archive of a directory is made before it is queued.
pub open spec fn staging_path(root: Seq<char>, id: Seq<char>) -> Seq<char> {
    path::path_joined(
        path::path_joined(root, "outbox"@),
        ".staging-"@ + id + ".tar.gz"@,
    )
}

/// A new place to make the archive of a directory.
pub fn staging_file(state: &State) -> (r: String)
    ensures
        exists|id: Seq<char>|
            outside::ulid_text(id) && r@ == #[trigger] staging_path(state.root@, id),
{
    let id = outside::fresh_ulid();
    let mut name = ".staging-".to_owned();
    name.append(id.as_str());
    name.append(".tar.gz");
    let r = path::join(state.outbox_dir().as_str(), name.as_str());
    proof {
        assert(r@ == staging_path(state.root@, id@));
    }
    r
}

/// A time in whole seconds.
pub open spec fn stamp_text(now: u64) -> Seq<char> {
    text::dec((now / 1000) as nat)
}

/// `now` in whole seconds.
pub fn stamp_at(now: u64) -> (r: String)
    ensures
        r@ == stamp_text(now),
{
    text::decimal(now / 1000)
}

/// The present time in whole seconds, for a name.
pub fn chrono_stamp() -> (r: String)
    ensures
        exists|now: u64| r@ == #[trigger] stamp_text(now),
{
    let now = util::now_ms();
    stamp_at(now)
}

/// The item for the image `png` from the clipboard.
pub fn stage_image(png: &Vec<u8>, stamp: &str, note: Option<String>) -> (r: Item)
    ensures
        outside::ulid_text(r.id@),
        r@ == state::fresh_item(
            r.id@,
            r.created_unix_ms,
            Kind::ClipboardImage,
            "clipboard-"@ + stamp@ + ".png"@,
            png@.len(),
            util::sha256_hex(png@),
            "image/png"@,
            text::text_option(note),
            state::no_source(),
        ),
{
    let sha = util::sha256_bytes(png.as_slice());
    let mut name = "clipboard-".to_owned();
    name.append(stamp);
    name.append(".png");
    Item::new(
        Kind::ClipboardImage,
        name.as_str(),
        png.len() as u64,
        sha.as_str(),
        "image/png",
        note,
        Source::default(),
    )
}

/// The bytes of a text.
pub open spec fn bytes_of(s: Seq<char>) -> Seq<u8> {
    vstd::utf8::encode_utf8(s)
}

/// The item for `text` from the clipboard, unless it is empty.
pub fn stage_text(text: &str, stamp: &str, note: Option<String>) -> (r: Result<Item, Error>)
    ensures
        match r {
            Ok(it) => {
                &&& text@.len() > 0
                &&& outside::ulid_text(it.id@)
                &&& it@ == state::fresh_item(
                    it.id@,
                    it.created_unix_ms,
                    Kind::ClipboardText,
                    "clipboard-"@ + stamp@ + ".txt"@,
                    bytes_of(text@).len(),
                    util::sha256_hex(bytes_of(text@)),
                    "text/plain"@,
                    text::text_option(note),
                    state::no_source(),
                )
            },
            Err(Error::ClipboardEmpty) => text@.len() == 0,
            Err(_) => false,
        },
{
    if text.is_empty() {
        return Err(Error::ClipboardEmpty);
    }
    let bytes = text.as_bytes();
    let sha = util::sha256_bytes(bytes);
    let mut name = "clipboard-".to_owned();
    name.append(stamp);
    name.append(".txt");
    Ok(
        Item::new(
            Kind::ClipboardText,
            name.as_str(),
            bytes.len() as u64,
            sha.as_str(),
            "text/plain",
            note,
            Source::default(),
        ),
    )
}

/// How far the search for an image on the clipboard has come.
pub enum ImageSearch {
    /// Run the script that saves the image to a file, and read that.
    Script,
    /// Is there `wl-paste`?
    FindWlPaste,
    /// Which types does `wl-paste` offer?
    ListTypes,
    /// What does `wl-paste` hand out?
    WlPaste,
    /// Is there `xclip`?
    FindXclip,
    /// What does `xclip` hand out?
    Xclip,
    /// There is none.
    Nothing,
    /// There is one.
    Image(Vec<u8>),
}

/// What came of a question in the search for an image.
pub enum ImageAnswer {
    /// Whether a program is there.
    Found(bool),
    /// The output of a command, if it succeeded.
    Text(Option<String>),
    /// The output of a command, and whether it succeeded; of the script, the file.
    Bytes(bool, Vec<u8>),
}

/// Where the search for an image on the clipboard starts.
pub fn read_clipboard_image(macos: bool) -> (r: ImageSearch)
    ensures
        r == if macos {
            ImageSearch::Script
        } else {
            ImageSearch::FindWlPaste
        },
{
    if macos {
        ImageSearch::Script
    } else {
        ImageSearch::FindWlPaste
    }
}

/// The script that saves an image on the clipboard of macOS to a file.
pub open spec fn save_script(tmp: Seq<char>) -> Seq<char> {
    "set f to open for access POSIX file \""@ + tmp
        + "\" with write permission\ntry\nwrite (the clipboard as «class PNGf») to f\nend try\nclose access f"@
}

/// The name of the file for an image on the clipboard of macOS, by the number of the
/// process.
pub fn clip_file_name(pid: u32) -> (r: String)
    ensures
        r@ == "herdr-ferry-clip-"@ + text::dec(pid as nat) + ".png"@,
{
    let mut s = "herdr-ferry-clip-".to_owned();
    text::push_dec(&mut s, pid as u64);
    s.append(".png");
    s
}

impl ImageSearch {
    /// Whether an answer is one to the question that the search asks.
    pub open spec fn fits(self, a: ImageAnswer) -> bool {
        match self {
            ImageSearch::FindWlPaste | ImageSearch::FindXclip => a is Found,
            ImageSearch::ListTypes => a is Text,
            ImageSearch::Script | ImageSearch::WlPaste | ImageSearch::Xclip => a is Bytes,
            ImageSearch::Nothing | ImageSearch::Image(_) => false,
        }
    }

    /// What the search goes on with if the clipboard tool at hand gives nothing.
    pub open spec fn otherwise(self) -> ImageSearch {
        match self {
            ImageSearch::FindWlPaste | ImageSearch::ListTypes | ImageSearch::WlPaste =>
                ImageSearch::FindXclip,
            _ => ImageSearch::Nothing,
        }
    }

    /// Whether an answer gives what was asked for.
    pub open spec fn helps(self, a: ImageAnswer) -> bool {
        match a {
            ImageAnswer::Found(b) => b,
            ImageAnswer::Text(t) => t matches Some(s) && text::occurs(s@, "image/png"@),
            ImageAnswer::Bytes(ok, b) => (ok || self is Script) && b@.len() > 0,
        }
    }

    /// What an answer that helps leads to.
    pub open spec fn onward(self, a: ImageAnswer) -> ImageSearch {
        match a {
            ImageAnswer::Found(_) => if self is FindWlPaste {
                ImageSearch::ListTypes
            } else {
                ImageSearch::Xclip
            },
            ImageAnswer::Text(_) => ImageSearch::WlPaste,
            ImageAnswer::Bytes(_, b) => ImageSearch::Image(b),
        }
    }

    /// The command line to run; `tmp` is the file that the script writes.
    pub fn command_line(&self, tmp: &str) -> (r: Option<Command>)
        ensures
            match self {
                ImageSearch::Script => r matches Some(c) && c@ == (CommandView {
                    program: "osascript"@,
                    args: seq!["-e"@, save_script(tmp@)],
                }),
                ImageSearch::ListTypes => r matches Some(c) && c@ == (CommandView {
                    program: "wl-paste"@,
                    args: seq!["-l"@],
                }),
                ImageSearch::WlPaste => r matches Some(c) && c@ == (CommandView {
                    program: "wl-paste"@,
                    args: seq!["-t"@, "image/png"@],
                }),
                ImageSearch::Xclip => r matches Some(c) && c@ == (CommandView {
                    program: "xclip"@,
                    args: seq!["-selection"@, "clipboard"@, "-t"@, "image/png"@, "-o"@],
                }),
                _ => r is None,
            },
    {
        match self {
            ImageSearch::Script => {
                let mut script = "set f to open for access POSIX file \"".to_owned();
                script.append(tmp);
                script.append(
                    "\" with write permission\ntry\nwrite (the clipboard as «class PNGf») to f\nend try\nclose access f",
                );
                let c = command("osascript", &vec!["-e", script.as_str()]);
                proof {
                    assert(c@.args == seq!["-e"@, save_script(tmp@)]);
                }
                Some(c)
            },
            ImageSearch::ListTypes => {
                let c = command("wl-paste", &vec!["-l"]);
                proof {
                    assert(c@.args == seq!["-l"@]);
                }
                Some(c)
            },
            ImageSearch::WlPaste => {
                let c = command("wl-paste", &vec!["-t", "image/png"]);
                proof {
                    assert(c@.args == seq!["-t"@, "image/png"@]);
                }
                Some(c)
            },
            ImageSearch::Xclip => {
                let c = command(
                    "xclip",
                    &vec!["-selection", "clipboard", "-t", "image/png", "-o"],
                );
                proof {
                    assert(c@.args == seq![
                        "-selection"@,
                        "clipboard"@,
                        "-t"@,
                        "image/png"@,
                        "-o"@,
                    ]);
                }
                Some(c)
            },
            _ => None,
        }
    }

    /// The program to look for.
    pub fn program_sought(&self) -> (r: Option<&'static str>)
        ensures
            text::str_option(r) == match self {
                ImageSearch::FindWlPaste => Some("wl-paste"@),
                ImageSearch::FindXclip => Some("xclip"@),
                _ => None,
            },
    {
        match self {
            ImageSearch::FindWlPaste => Some("wl-paste"),
            ImageSearch::FindXclip => Some("xclip"),
            _ => None,
        }
    }

    /// Goes on with an answer.
    pub fn next(self, a: ImageAnswer) -> (r: ImageSearch)
        requires
            self.fits(a),
        ensures
            r == if self.helps(a) {
                self.onward(a)
            } else {
                self.otherwise()
            },
    {
        match self {
            ImageSearch::Script => match a {
                ImageAnswer::Bytes(_, b) => if b.len() > 0 {
                    ImageSearch::Image(b)
                } else {
                    ImageSearch::Nothing
                },
                _ => ImageSearch::Nothing,
            },
            ImageSearch::FindWlPaste => match a {
                ImageAnswer::Found(true) => ImageSearch::ListTypes,
                _ => ImageSearch::FindXclip,
            },
            ImageSearch::ListTypes => match a {
                ImageAnswer::Text(Some(t)) => if text::contains(t.as_str(), "image/png") {
                    ImageSearch::WlPaste
                } else {
                    ImageSearch::FindXclip
                },
                _ => ImageSearch::FindXclip,
            },
            ImageSearch::WlPaste => match a {
                ImageAnswer::Bytes(ok, b) => if ok && b.len() > 0 {
                    ImageSearch::Image(b)
                } else {
                    ImageSearch::FindXclip
                },
                _ => ImageSearch::FindXclip,
            },
            ImageSearch::FindXclip => match a {
                ImageAnswer::Found(true) => ImageSearch::Xclip,
                _ => ImageSearch::Nothing,
            },
            ImageSearch::Xclip => match a {
                ImageAnswer::Bytes(ok, b) => if ok && b.len() > 0 {
                    ImageSearch::Image(b)
                } else {
                    ImageSearch::Nothing
                },
                _ => ImageSearch::Nothing,
            },
            ImageSearch::Nothing => ImageSearch::Nothing,
            ImageSearch::Image(b) => ImageSearch::Image(b),
        }
    }
}

/// Whether `have` has said that there is a program.
pub open spec fn has<F: Fn(&str) -> bool>(have: F, program: Seq<char>) -> bool {
    util::said(have, program, true)
}

/// Whether `have` has said that there is no such program.
pub open spec fn lacks<F: Fn(&str) -> bool>(have: F, program: Seq<char>) -> bool {
    util::said(have, program, false)
}

/// The command line that reads text from the clipboard, by the programs that there are.
pub fn read_clipboard_text<F: Fn(&str) -> bool>(macos: bool, have: F) -> (r: Result<
    Command,
    Error,
>)
    requires
        forall|s: &str| call_requires(have, (s,)),
    ensures
        match r {
            Ok(c) => {
                ||| macos && c@ == (CommandView { program: "pbpaste"@, args: seq![] })
                ||| !macos && has(have, "wl-paste"@) && c@ == (CommandView {
                    program: "wl-paste"@,
                    args: seq!["-n"@],
                })
                ||| !macos && lacks(have, "wl-paste"@) && has(have, "xclip"@) && c@ == (
                CommandView {
                    program: "xclip"@,
                    args: seq!["-selection"@, "clipboard"@, "-o"@],
                })
            },
            Err(Error::NoClipboardReader) => !macos && lacks(have, "wl-paste"@) && lacks(
                have,
                "xclip"@,
            ),
            Err(_) => false,
        },
{
    if macos {
        let c = command("pbpaste", &vec![]);
        proof {
            assert(c@.args == Seq::<Seq<char>>::empty());
        }
        return Ok(c);
    }
    if have("wl-paste") {
        let c = command("wl-paste", &vec!["-n"]);
        proof {
            assert(c@.args == seq!["-n"@]);
        }
        return Ok(c);
    }
    if have("xclip") {
        let c = command("xclip", &vec!["-selection", "clipboard", "-o"]);
        proof {
            assert(c@.args == seq!["-selection"@, "clipboard"@, "-o"@]);
        }
        return Ok(c);
    }
    Err(Error::NoClipboardReader)
}

/// What the user points at: a link that was clicked, or what is selected. An empty link is
/// none.
pub open spec fn candidate(ctx: Ctx, env: EnvVars) -> Option<Seq<char>> {
    match herdr::either(
        herdr::filled(ctx.context.clicked_url),
        herdr::filled(env.herdr_plugin_clicked_url),
    ) {
        Some(u) => Some(text::without_heads(u@, "file://"@)),
        None => text::text_option(herdr::selection(ctx, env)),
    }
}

/// The first line of a text, without white space and quotes around it.
pub open spec fn pointed(s: Seq<char>) -> Seq<char> {
    text::trimmed_of(text::trimmed(text::first_line_of(s)), "\"'`"@)
}

/// What the send key does.
pub enum ContextAction {
    /// Send this path.
    Send { path: String },
    /// Open the picker.
    OpenPicker,
}

/// What the user points at.
fn pointed_at(ctx: &Ctx, env: &EnvVars) -> (r: Option<String>)
    ensures
        text::text_option(r) == candidate(*ctx, *env),
{
    match herdr::filled_copy(&ctx.context.clicked_url) {
        Some(u) => Some(text::trim_start_matches(u.as_str(), "file://")),
        None => match herdr::filled_copy(&env.herdr_plugin_clicked_url) {
            Some(u) => Some(text::trim_start_matches(u.as_str(), "file://")),
            None => ctx.selected_text(env),
        },
    }
}

/// Sends the path that the user points at, if `exists_at` says that it exists; otherwise,
/// and where the user points at nothing, the picker opens.
pub fn send_from_context<F: Fn(&str) -> bool>(
    ctx: &Ctx,
    env: &EnvVars,
    base: &str,
    home: &str,
    exists_at: F,
) -> (r: ContextAction)
    requires
        forall|p: &str| call_requires(exists_at, (p,)),
    ensures
        match candidate(*ctx, *env) {
            Some(c) => {
                let token = text::trimmed(pointed(c));
                let full = herdr::path_from(base@, token, home@);
                if token.len() == 0 {
                    r is OpenPicker
                } else {
                    match r {
                        ContextAction::Send { path: p } => p@ == full && util::said(
                            exists_at,
                            full,
                            true,
                        ),
                        ContextAction::OpenPicker => util::said(exists_at, full, false),
                    }
                }
            },
            None => r is OpenPicker,
        },
{
    if let Some(sel) = pointed_at(ctx, env) {
        let line = text::first_line(sel.as_str());
        let token = text::trim_matches(text::trim(line.as_str()).as_str(), "\"'`");
        if text::trim(token.as_str()).as_str().is_empty() {
            return ContextAction::OpenPicker;
        }
        if let Some(p) = herdr::path_exists_rel(base, token.as_str(), home, exists_at) {
            return ContextAction::Send { path: p };
        }
    }
    ContextAction::OpenPicker
}

/// The options under which the send key and the picker send.
pub fn plain_opts() -> (r: SendOpts)
    ensures
        r == (SendOpts { note: None, clip: false, force: false, allow_outside_home: false }),
{
    SendOpts { note: None, clip: false, force: false, allow_outside_home: false }
}

/// What is said of a path that the send key has sent.
pub fn queued_line(path: &str, ids: &Vec<String>) -> (r: String)
    ensures
        r@ == "queued "@ + path@ + " as "@ + text::joined(text::texts(ids@), ","@),
{
    let mut s = "queued ".to_owned();
    s.append(path);
    s.append(" as ");
    s.append(text::join(ids, ",").as_str());
    s
}

proof fn lemma_bytes_inserted(s: Seq<Item>, x: Item)
    ensures
        state::unacked_bytes(order::inserted(s, x)) == state::unacked_bytes(s.push(x)),
    decreases s.len(),
{
    reveal_with_fuel(state::unacked_bytes, 3);
    assert(s.push(x).drop_last() == s);
    if s.len() > 0 && !order::Ranked::not_after(s.last(), x) {
        let front = s.drop_last();
        lemma_bytes_inserted(front, x);
        assert(front.push(x).drop_last() == front);
        assert(order::inserted(s, x).drop_last() == order::inserted(front, x));
    }
}

proof fn lemma_bytes_sorted(s: Seq<Item>)
    ensures
        state::unacked_bytes(order::sorted(s)) == state::unacked_bytes(s),
    decreases s.len(),
{
    if s.len() > 0 {
        lemma_bytes_sorted(s.drop_last());
        lemma_bytes_inserted(order::sorted(s.drop_last()), s.last());
        let t = order::sorted(s.drop_last());
        assert(t.push(s.last()).drop_last() == t);
    }
}

proof fn lemma_bytes_recovered(s: Seq<Item>, now: u64)
    ensures
        state::unacked_bytes(state::recovered_all(s, now)) == state::unacked_bytes(s),
    decreases s.len(),
{
    if s.len() > 0 {
        lemma_bytes_recovered(s.drop_last(), now);
        assert(state::recovered_all(s, now).drop_last() == state::recovered_all(
            s.drop_last(),
            now,
        ));
    }
}

/// The outbox never exceeds its cap: an item that passes the cap at `now` still leaves
/// every later listing within it.
pub proof fn law_cap_kept(found: Seq<Option<Item>>, item: Item, now: u64, later: u64)
    requires
        state::unacked_bytes(state::recovered_all(state::listed(found), now)) + item.size
            <= OUTBOX_CAP_BYTES,
    ensures
        state::unacked_bytes(
            state::recovered_all(state::listed(found.push(Some(item))), later),
        ) <= OUTBOX_CAP_BYTES,
{
    let more = found.push(Some(item));
    lemma_bytes_recovered(state::listed(found), now);
    lemma_bytes_sorted(state::readable(found));
    lemma_bytes_recovered(state::listed(more), later);
    lemma_bytes_sorted(state::readable(more));
    assert(more.drop_last() == found);
    assert(state::readable(more) == state::readable(found).push(item));
    assert(state::readable(found).push(item).drop_last() == state::readable(found));
}

/// Sending the same contents again right away queues nothing: an item that is still
/// queued and not older than the window stands for them.
pub proof fn law_resend_is_duplicate(found: Seq<Option<Item>>, i: int, now: u64)
    requires
        0 <= i < found.len(),
        found[i] matches Some(it) && it.state == ItemState::Queued && state::elapsed(
            now,
            it.created_unix_ms,
        ) <= DEDUPE_WINDOW_MS,
    ensures
        !no_duplicate(
            state::recovered_all(state::listed(found), now),
            (found[i]->0).sha256@,
            now,
        ),
{
    let it = found[i]->0;
    state::lemma_listed_contains(found, i);
    let all = state::listed(found);
    let k = choose|k: int| 0 <= k < all.len() && all[k] == it;
    assert(state::recovered_all(all, now)[k] == it);
    assert(state::duplicate(it, it.sha256@, now));
}

/// Other contents are never taken for contents that are queued: where no queued item has the
/// digest of a new one, the new one is no duplicate.
pub proof fn law_other_contents_are_no_duplicate(items: Seq<Item>, sha256: Seq<char>, now: u64)
    requires
        forall|i: int|
            0 <= i < items.len() && (#[trigger] items[i]).state == ItemState::Queued
                ==> items[i].sha256@ != sha256,
    ensures
        no_duplicate(items, sha256, now),
{
    assert forall|j: int| 0 <= j < items.len() implies !state::duplicate(
        #[trigger] items[j],
        sha256,
        now,
    ) by {
        state::law_duplicates_have_the_same_digest(items[j], sha256, now);
    }
}

/// The same contents are queued anew once two seconds have passed.
pub proof fn law_old_contents_are_no_duplicate(items: Seq<Item>, sha256: Seq<char>, now: u64)
    requires
        forall|i: int| 0 <= i < items.len() ==> now > (#[trigger] items[i]).created_unix_ms + 2000,
    ensures
        no_duplicate(items, sha256, now),
{
    assert forall|j: int| 0 <= j < items.len() implies !state::duplicate(
        #[trigger] items[j],
        sha256,
        now,
    ) by {
        state::law_duplicates_have_the_same_digest(items[j], sha256, now);
    }
}

/// The cap of the outbox are two GiB, and what counts are the sizes of the items that have
/// not been delivered.
pub proof fn law_cap_counts_undelivered(items: Seq<Item>, done: Item, open: Item)
    requires
        done.state == ItemState::Acked,
        open.state != ItemState::Acked,
    ensures
        OUTBOX_CAP_BYTES == 2 * 1024 * 1024 * 1024,
        state::unacked_bytes(items.push(done)) == state::unacked_bytes(items),
        state::unacked_bytes(items.push(open)) == state::unacked_bytes(items) + open.size,
{
    state::law_bytes_add_up(items, seq![done], done);
    state::law_bytes_add_up(items, seq![open], open);
    assert(items.push(done) =~= items + seq![done]);
    assert(items.push(open) =~= items + seq![open]);
}

/// What is sent is called by the last name of its path, in whatever directory it lies.
pub proof fn law_sent_under_its_name(dir: Seq<char>, name: Seq<char>)
    requires
        dir.len() > 0,
        path::plain_name(name),
    ensures
        sent_name(path::path_joined(dir, name)) == name,
{
    path::law_join_lies_under(dir, name);
}

/// What the user points at is the path on the first line, whatever white space and quotes
/// stand around it, and whatever follows on further lines.
pub proof fn law_pointed_at_path(
    pre: Seq<char>,
    open: Seq<char>,
    p: Seq<char>,
    close: Seq<char>,
    post: Seq<char>,
    rest: Seq<char>,
)
    requires
        text::all_space(pre) && !pre.contains('\n'),
        text::all_space(post) && !post.contains('\n') && !post.contains('\r'),
        text::made_of(open, seq!['"', '\'', '`']),
        text::made_of(close, seq!['"', '\'', '`']),
        p.len() > 0,
        !p.contains('\n'),
        p.last() != '\r',
        !text::is_space(p[0]) && !text::is_space(p.last()),
        !seq!['"', '\'', '`'].contains(p[0]),
        !seq!['"', '\'', '`'].contains(p.last()),
    ensures
        pointed(pre + (open + p + close) + post) == p,
        pointed((pre + (open + p + close) + post).push('\n') + rest) == p,
{
    let quotes = seq!['"', '\'', '`'];
    reveal_strlit("\"'`");
    assert("\"'`"@ =~= quotes);
    let core = open + p + close;
    let line = pre + core + post;
    let n = core.len() - 1;
    assert forall|c: char| quotes.contains(c) implies c != '\n' && c != '\r' && !text::is_space(
        c,
    ) by {
        text::law_white_space(c);
    }
    assert(!text::is_space(core[0])) by {
        if open.len() > 0 {
            assert(core[0] == open[0]);
            assert(quotes.contains(open[0]));
        } else {
            assert(core[0] == p[0]);
        }
    }
    assert(!text::is_space(core.last()) && core.last() != '\r') by {
        if close.len() > 0 {
            assert(core.last() == close[close.len() - 1]);
            assert(quotes.contains(close[close.len() - 1]));
        } else {
            assert(core.last() == p.last());
        }
    }
    assert(!line.contains('\n')) by {
        if line.contains('\n') {
            let i = choose|i: int| 0 <= i < line.len() && line[i] == '\n';
            let a = pre.len() as int;
            let b = a + open.len();
            let c = b + p.len();
            let d = c + close.len();
            if i < a {
                assert(pre.contains(pre[i]));
            } else if i < b {
                assert(line[i] == open[i - a]);
                assert(quotes.contains(open[i - a]));
            } else if i < c {
                assert(line[i] == p[i - b]);
                assert(p.contains(p[i - b]));
            } else if i < d {
                assert(line[i] == close[i - c]);
                assert(quotes.contains(close[i - c]));
            } else {
                assert(line[i] == post[i - d]);
                assert(post.contains(post[i - d]));
            }
        }
    }
    assert(line.last() != '\r') by {
        if post.len() > 0 {
            assert(line.last() == post.last());
            assert(post.contains(post.last()));
        } else {
            assert(line.last() == core.last());
        }
    }
    text::law_first_line(line, rest);
    text::law_trimmed(pre, core, post);
    text::law_trimmed_of(open, p, close, quotes);
}

/// What is vetted is named by its last name. It passes exactly if it lies in the home
/// directory, unless that is waived, and is not on the deny-list, unless that is forced.
pub proof fn law_vet(
    asked: &str,
    full: &str,
    home: &str,
    opts: &SendOpts,
    dir: Seq<char>,
    name: Seq<char>,
    r: Result<String, Error>,
)
    requires
        call_ensures(vet, (asked, Some(full), home, opts), r),
        dir.len() > 0,
        path::plain_name(name),
        full@ == path::path_joined(dir, name),
    ensures
        r is Ok <==> {
            &&& opts.allow_outside_home || path::components_of(home@).is_prefix_of(
                path::components_of(full@),
            )
            &&& opts.force || !(util::starts_like(name, ".env"@) || util::ends_like(name, ".pem"@)
                || util::starts_like(name, "id_"@) || util::ends_like(name, ".key"@) || (
            util::starts_like(name, ".netrc"@) && name.len() == 6) || util::holds_like(
                name,
                "credentials"@,
            ))
        },
        r matches Ok(n) ==> n@ == name,
{
    law_sent_under_its_name(dir, name);
    util::law_deny_list(name);
}

/// An item is queued exactly if no queued item with the same digest is younger than two
/// seconds and the outbox stays within two GiB. It is queued as it is, but for where it
/// comes from.
pub proof fn law_finish<F: Fn() -> Source>(
    st: &State,
    listing: &Listing,
    item: Item,
    source: F,
    now: u64,
    r: Result<Finish, Error>,
)
    requires
        call_ensures(finish::<F>, (st, listing, item, source, now), r),
        forall|i: int|
            0 <= i < listing.items@.len() && (#[trigger] listing.items@[i]).state
                == ItemState::Queued ==> listing.items@[i].sha256@ != item.sha256@ || now
                > listing.items@[i].created_unix_ms + 2000,
    ensures
        state::unacked_bytes(listing.items@) + item.size <= 2 * 1024 * 1024 * 1024 <==> r
            is Ok,
        r matches Ok(f) ==> f matches Finish::Stage { item: x, .. } && x == (Item {
            source: x.source,
            ..item
        }),
{
    assert forall|j: int| 0 <= j < listing.items@.len() implies !state::duplicate(
        #[trigger] listing.items@[j],
        item.sha256@,
        now,
    ) by {
        state::law_duplicates_have_the_same_digest(listing.items@[j], item.sha256@, now);
    }
    assert(no_duplicate(listing.items@, item.sha256@, now));
}

/// An item that stands for a new one has its digest.
pub proof fn law_duplicate_has_the_same_digest<F: Fn() -> Source>(
    st: &State,
    listing: &Listing,
    item: Item,
    source: F,
    now: u64,
    id: String,
)
    requires
        call_ensures(finish::<F>, (st, listing, item, source, now), Ok(Finish::Duplicate { id })),
    ensures
        exists|i: int|
            0 <= i < listing.items@.len() && (#[trigger] listing.items@[i]).id == id
                && listing.items@[i].sha256@ == item.sha256@,
{
    let i = choose|i: int|
        0 <= i < listing.items@.len() && id == (#[trigger] listing.items@[i]).id
            && state::duplicate(listing.items@[i], item.sha256@, now);
    state::law_duplicates_have_the_same_digest(listing.items@[i], item.sha256@, now);
}

/// A send takes up every path that was given, in their order, and starts relative ones from
/// the base.
pub proof fn law_send(
    paths: &Vec<String>,
    base: &str,
    home: &str,
    opts: &SendOpts,
    r: Result<Sending, Error>,
    i: int,
)
    requires
        call_ensures(send, (paths, base, home, opts), r),
        !opts.clip,
        0 <= i < paths@.len(),
        base@.len() > 0,
        home@.len() > 0,
        paths@[i]@.len() == 0 || paths@[i]@[0] != '/',
        path::components_of(paths@[i]@).len() > 0 ==> path::components_of(paths@[i]@)[0]
            != path::Part::Normal(seq!['~']),
    ensures
        r matches Ok(s) && s.todo@.len() == paths@.len() && s.done == 0
            && path::components_of(s.todo@[i]@) == path::components_of(base@) + path::down_parts(
            path::components_of(paths@[i]@),
        ),
{
    herdr::law_relative_path_leads_on(base@, paths@[i]@, home@);
    if let Ok(s) = r {
        assert(text::texts(s.todo@).len() == meant(paths@, base@, home@).len());
        assert(text::texts(s.todo@)[i] == s.todo@[i]@);
        assert(meant(paths@, base@, home@)[i] == herdr::path_from(base@, paths@[i]@, home@));
    }
}

/// The send key sends a path that is selected and exists, resolved against the directory of
/// the pane, whatever follows it on further lines.
pub proof fn law_selected_path_is_sent<F: Fn(&str) -> bool>(
    ctx: &Ctx,
    env: &EnvVars,
    base: &str,
    home: &str,
    exists_at: F,
    places: Set<Seq<char>>,
    p: Seq<char>,
    selected: String,
    r: ContextAction,
)
    requires
        call_ensures(send_from_context::<F>, (ctx, env, base, home, exists_at), r),
        forall|s: &str, b: bool| #[trigger]
            call_ensures(exists_at, (s,), b) ==> b == places.contains(s@),
        ctx.context.clicked_url is None,
        env.herdr_plugin_clicked_url is None,
        ctx.context.selected_text == Some(selected),
        selected@ == p,
        p.len() > 0,
        !p.contains('\n'),
        p.last() != '\r',
        !text::is_space(p[0]) && !text::is_space(p.last()),
        !seq!['"', '\'', '`'].contains(p[0]),
        !seq!['"', '\'', '`'].contains(p.last()),
        places.contains(herdr::path_from(base@, p, home@)),
    ensures
        r matches ContextAction::Send { path: x } && x@ == herdr::path_from(base@, p, home@),
{
    let none = Seq::<char>::empty();
    law_pointed_at_path(none, none, p, none, none, none);
    assert(none + (none + p + none) + none =~= p);
    text::law_trimmed(none, p, none);
    assert(none + p + none =~= p);
}

/// Text from the clipboard is sent with the length and the digest of its bytes, and nothing is
/// sent of an empty one.
pub proof fn law_stage_text(
    t: &str,
    stamp: &str,
    note: Option<String>,
    r: Result<Item, Error>,
)
    requires
        call_ensures(stage_text, (t, stamp, note), r),
    ensures
        r is Ok <==> t@.len() > 0,
        r matches Ok(it) ==> {
            &&& it.kind == Kind::ClipboardText && it.state == ItemState::Queued
            &&& it.size == vstd::utf8::encode_utf8(t@).len()
            &&& it.sha256@ == outside::hex_text(
                outside::sha256_digest(vstd::utf8::encode_utf8(t@)),
            )
            &&& it.name@ == "clipboard-"@ + stamp@ + ".txt"@
            &&& text::text_option(it.note) == text::text_option(note)
        },
{
    if let Ok(it) = r {
        state::law_item_says_its_fields(it);
    }
}

/// An image from the clipboard is sent with the length and the digest of its bytes.
pub proof fn law_stage_image(png: &Vec<u8>, stamp: &str, note: Option<String>, it: Item)
    requires
        call_ensures(stage_image, (png, stamp, note), it),
    ensures
        it.kind == Kind::ClipboardImage && it.state == ItemState::Queued,
        it.size == png@.len(),
        it.sha256@ == outside::hex_text(outside::sha256_digest(png@)),
        it.name@ == "clipboard-"@ + stamp@ + ".png"@,
        it.mime@ == "image/png"@,
        text::text_option(it.note) == text::text_option(note),
{
    state::law_item_says_its_fields(it);
}

/// A file or a directory is sent under its name, with the size and the digest that its payload
/// has.
pub proof fn law_stage(
    name: &str,
    size: u64,
    sha256: &str,
    note: Option<String>,
    file: Item,
    dir: Item,
)
    requires
        call_ensures(stage_file, (name, size, sha256, note), file),
        call_ensures(stage_dir, (name, size, sha256, note), dir),
    ensures
        file.kind == Kind::File && file.name@ == name@ && file.size == size && file.sha256@
            == sha256@ && file.state == ItemState::Queued && text::text_option(file.note)
            == text::text_option(note) && file.mime@ == outside::mime_of(name@),
        dir.kind == Kind::Dir && dir.name@ == name@ && dir.size == size && dir.sha256@ == sha256@
            && dir.state == ItemState::Queued && text::text_option(dir.note) == text::text_option(
            note,
        ),
{
    state::law_item_says_its_fields(file);
    state::law_item_says_its_fields(dir);
}

/// A stamp reads back as the whole seconds that have passed.
pub proof fn law_stamp(now: u64, r: String)
    requires
        call_ensures(stamp_at, (now,), r),
    ensures
        text::decimal_value(r@) * 1000 <= now < (text::decimal_value(r@) + 1) * 1000,
{
    text::law_decimal_reads_back((now / 1000) as nat);
}

/// An archive is made in the outbox, beside the directories of the items, under a name that
/// none of them has.
pub proof fn law_staging(root: Seq<char>, id: Seq<char>)
    requires
        root.len() > 0,
        outside::ulid_text(id),
    ensures
        path::components_of(staging_path(root, id)) == path::components_of(root).push(
            path::Part::Normal("outbox"@),
        ).push(path::Part::Normal(".staging-"@ + id + ".tar.gz"@)),
{
    state::law_halves(root);
    reveal_strlit(".staging-");
    reveal_strlit(".tar.gz");
    let name = ".staging-"@ + id + ".tar.gz"@;
    assert(".staging-"@.len() == 9 && ".tar.gz"@.len() == 7);
    assert(path::plain_name(name)) by {
        if name.contains('/') {
            let i = choose|i: int| 0 <= i < name.len() && name[i] == '/';
            if i < 9 {
                assert(".staging-"@[i] == '/');
            } else if i < 9 + id.len() {
                assert(id[i - 9] == '/');
            } else {
                assert(".tar.gz"@[i - 9 - id.len()] == '/');
            }
        }
    }
    let half = state::half_path(root, true);
    assert(half.len() > 0) by {
        reveal_strlit("outbox");
    }
    path::law_join_name(half, name);
}

/// A link that was clicked counts before what is selected, whole but for the `file://` in
/// front of it.
pub proof fn law_clicked_link_counts_first(ctx: Ctx, env: EnvVars, link: String, p: Seq<char>)
    requires
        link@ == "file://"@ + p,
        !"file://"@.is_prefix_of(p),
    ensures
        ctx.context.clicked_url == Some(link) ==> candidate(ctx, env) == Some(p),
        ctx.context.clicked_url is None && env.herdr_plugin_clicked_url == Some(link)
            ==> candidate(ctx, env) == Some(p),
{
    reveal_strlit("file://");
    assert("file://"@.len() == 7);
    text::law_heads_and_tails(p, "file://"@);
}

/// Where no link was clicked, what is selected counts, as it is.
pub proof fn law_selection_counts(ctx: Ctx, env: EnvVars, selected: String)
    requires
        ctx.context.clicked_url is None,
        env.herdr_plugin_clicked_url is None,
        ctx.context.selected_text == Some(selected),
        text::trimmed(selected@).len() > 0,
    ensures
        candidate(ctx, env) == Some(selected@),
{
}

/// The image that is found on the clipboard is what the program has handed out, byte for byte,
/// and nothing is found in an empty answer.
pub proof fn law_image_is_what_was_read(b: Vec<u8>)
    ensures
        b@.len() > 0 ==> {
            &&& ImageSearch::WlPaste.helps(ImageAnswer::Bytes(true, b))
            &&& ImageSearch::Xclip.helps(ImageAnswer::Bytes(true, b))
            &&& ImageSearch::Script.helps(ImageAnswer::Bytes(true, b))
        },
        b@.len() == 0 ==> {
            &&& !ImageSearch::WlPaste.helps(ImageAnswer::Bytes(true, b))
            &&& !ImageSearch::Xclip.helps(ImageAnswer::Bytes(true, b))
            &&& !ImageSearch::Script.helps(ImageAnswer::Bytes(true, b))
        },
        ImageSearch::WlPaste.onward(ImageAnswer::Bytes(true, b)) == ImageSearch::Image(b),
        ImageSearch::Xclip.onward(ImageAnswer::Bytes(true, b)) == ImageSearch::Image(b),
        ImageSearch::Script.onward(ImageAnswer::Bytes(true, b)) == ImageSearch::Image(b),
{
}

/// The script writes to the file that it is told.
pub proof fn law_script_names_the_file(tmp: Seq<char>)
    ensures
        ("set f to open for access POSIX file \""@ + tmp).is_prefix_of(save_script(tmp)),
{
    let head = "set f to open for access POSIX file \""@ + tmp;
    assert(head =~= save_script(tmp).take(head.len() as int));
}

} // verus!
