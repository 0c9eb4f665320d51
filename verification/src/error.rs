//! What can go wrong, and how it is said.

use vstd::prelude::*;

use crate::state::OUTBOX_CAP_BYTES;
use crate::text;
use crate::util;

verus! {

/// A refusal or a failure.
pub enum Error {
    /// The kind of an item is none of the four.
    UnknownKind { kind: String },
    /// No item has this id.
    NoSuchItem { id: String },
    /// A claim of an item that has been delivered.
    AlreadyAcked { id: String },
    /// A claim of an item that another client is fetching.
    AlreadyClaimed { id: String },
    /// An item whose payload is gone.
    PayloadMissing { id: String },
    /// A send without a path and without the clipboard.
    NothingToSend,
    /// A path that does not exist.
    DoesNotExist { path: String },
    /// A path outside the home directory.
    OutsideHome { path: String },
    /// A name on the deny-list of secrets.
    Denied { name: String, rule: String },
    /// An item that does not fit into the outbox any more.
    CapExceeded { used: u64, new: u64 },
    /// Neither an image nor text on the clipboard.
    ClipboardEmpty,
    /// No program that reads the clipboard.
    NoClipboardReader,
    /// No program that writes text to the clipboard.
    NoClipboardWriter,
    /// No program that writes an image to the clipboard.
    NoImageWriter,
    /// An image type that the macOS clipboard does not take.
    UnsupportedImage { mime: String },
    /// A pushed name without a file name in it.
    BadName,
    /// A path without a file name in it.
    BadPath,
    /// A payload of another length than announced.
    ShortRead { expected: u64, got: u64 },
    /// A pushed payload with another digest than announced.
    ReceiveMismatch,
    /// Nothing in the inbox to paste.
    InboxEmpty,
    /// A payload that arrived twice with a wrong digest.
    MismatchTwice,
    /// A push without a path.
    NothingToPush,
    /// No ssh alias is known.
    NoAlias { config: String },
    /// A remote command that failed.
    RemoteExit { args: Vec<String>, status: String },
    /// No binary on the server.
    RemoteMissing { alias: String },
    /// ssh did not get through.
    SshFailed { alias: String, stderr: String, hint: String },
    /// An answer of Herdr that is not JSON.
    NotJson { args: Vec<String>, reason: String },
    /// Herdr reports no focused pane.
    NoFocusedPane,
    /// A local command that failed.
    CommandFailed { program: String, args: Vec<String>, status: String, stderr: String },
    /// The operating system has failed.
    System { context: String, reason: String },
}

impl Error {
    /// The message of an error.
    pub open spec fn text(self) -> Seq<char> {
        match self {
            Error::UnknownKind { kind } => "unknown kind "@ + kind@,
            Error::NoSuchItem { id } => "no such item "@ + id@,
            Error::AlreadyAcked { id } => id@ + " already acked"@,
            Error::AlreadyClaimed { id } => id@ + " already claimed"@,
            Error::PayloadMissing { id } => "payload missing for "@ + id@ + " (already acked?)"@,
            Error::NothingToSend => "nothing to send: give a path or --clip"@,
            Error::DoesNotExist { path } => path@ + " does not exist"@,
            Error::OutsideHome { path } => path@ + " is outside $HOME; pass --allow-outside-home"@,
            Error::Denied { name, rule } => "refusing to send "@ + name@ + ": matches secrets deny-list ("@ + rule@ + "); pass --force to override"@,
            Error::CapExceeded { used, new } => "outbox cap exceeded: "@ + util::size_text(used as nat) + " queued + "@ + util::size_text(new as nat) + " new > "@ + util::size_text(OUTBOX_CAP_BYTES as nat) + "; run `herdr-ferry pull` on the laptop first"@,
            Error::ClipboardEmpty => "clipboard is empty (no image, no text)"@,
            Error::NoClipboardReader => "no clipboard tool found (pbpaste / wl-paste / xclip)"@,
            Error::NoClipboardWriter => "no clipboard tool (pbcopy / wl-copy / xclip)"@,
            Error::NoImageWriter => "no clipboard tool (wl-copy / xclip)"@,
            Error::UnsupportedImage { mime } => mime@ + " not supported on macOS clipboard"@,
            Error::BadName => "bad name"@,
            Error::BadPath => "bad path"@,
            Error::ShortRead { expected, got } => "short read: expected "@ + text::dec(expected as nat) + " bytes, got "@ + text::dec(got as nat),
            Error::ReceiveMismatch => "sha256 mismatch on receive"@,
            Error::InboxEmpty => "inbox is empty"@,
            Error::MismatchTwice => "sha256 mismatch twice; left claimed on server"@,
            Error::NothingToPush => "nothing to push"@,
            Error::NoAlias { config } => "no ssh alias: pass --alias, set HERDR_FERRY_ALIAS, or write `alias = \"...\"` to "@ + config@,
            Error::RemoteExit { args, status } => "remote `herdr-ferry "@ + text::joined(text::texts(args@), " "@) + "` exited "@ + status@,
            Error::RemoteMissing { alias } => "herdr-ferry not found on `"@ + alias@ + "`: install/link the plugin there, or symlink target/release/herdr-ferry into ~/.local/bin, or set remote_bin in client.toml"@,
            Error::SshFailed { alias, stderr, hint } => "ssh to `"@ + alias@ + "` failed: "@ + stderr@ + hint@,
            Error::NotJson { args, reason } => "herdr "@ + text::joined(text::texts(args@), " "@) + " did not return JSON: "@ + reason@,
            Error::NoFocusedPane => "no focused pane (is Herdr attached?)"@,
            Error::CommandFailed { program, args, status, stderr } => program@ + " "@ + text::joined(text::texts(args@), " "@) + " failed ("@ + status@ + "): "@ + stderr@,
            Error::System { context, reason } => context@ + ": "@ + reason@,
        }
    }

    /// The message.
    pub fn message(&self) -> (r: String)
        ensures
            r@ == self.text(),
    {
        let mut out = String::new();
        match self {
            Error::UnknownKind { kind } => {
                out.append("unknown kind ");
                out.append(kind.as_str());
            },
            Error::NoSuchItem { id } => {
                out.append("no such item ");
                out.append(id.as_str());
            },
            Error::AlreadyAcked { id } => {
                out.append(id.as_str());
                out.append(" already acked");
            },
            Error::AlreadyClaimed { id } => {
                out.append(id.as_str());
                out.append(" already claimed");
            },
            Error::PayloadMissing { id } => {
                out.append("payload missing for ");
                out.append(id.as_str());
                out.append(" (already acked?)");
            },
            Error::NothingToSend => {
                out.append("nothing to send: give a path or --clip");
            },
            Error::DoesNotExist { path } => {
                out.append(path.as_str());
                out.append(" does not exist");
            },
            Error::OutsideHome { path } => {
                out.append(path.as_str());
                out.append(" is outside $HOME; pass --allow-outside-home");
            },
            Error::Denied { name, rule } => {
                out.append("refusing to send ");
                out.append(name.as_str());
                out.append(": matches secrets deny-list (");
                out.append(rule.as_str());
                out.append("); pass --force to override");
            },
            Error::CapExceeded { used, new } => {
                out.append("outbox cap exceeded: ");
                out.append(util::human_size(*used).as_str());
                out.append(" queued + ");
                out.append(util::human_size(*new).as_str());
                out.append(" new > ");
                out.append(util::human_size(OUTBOX_CAP_BYTES).as_str());
                out.append("; run `herdr-ferry pull` on the laptop first");
            },
            Error::ClipboardEmpty => {
                out.append("clipboard is empty (no image, no text)");
            },
            Error::NoClipboardReader => {
                out.append("no clipboard tool found (pbpaste / wl-paste / xclip)");
            },
            Error::NoClipboardWriter => {
                out.append("no clipboard tool (pbcopy / wl-copy / xclip)");
            },
            Error::NoImageWriter => {
                out.append("no clipboard tool (wl-copy / xclip)");
            },
            Error::UnsupportedImage { mime } => {
                out.append(mime.as_str());
                out.append(" not supported on macOS clipboard");
            },
            Error::BadName => {
                out.append("bad name");
            },
            Error::BadPath => {
                out.append("bad path");
            },
            Error::ShortRead { expected, got } => {
                out.append("short read: expected ");
                text::push_dec(&mut out, *expected);
                out.append(" bytes, got ");
                text::push_dec(&mut out, *got);
            },
            Error::ReceiveMismatch => {
                out.append("sha256 mismatch on receive");
            },
            Error::InboxEmpty => {
                out.append("inbox is empty");
            },
            Error::MismatchTwice => {
                out.append("sha256 mismatch twice; left claimed on server");
            },
            Error::NothingToPush => {
                out.append("nothing to push");
            },
            Error::NoAlias { config } => {
                out.append("no ssh alias: pass --alias, set HERDR_FERRY_ALIAS, or write `alias = \"...\"` to ");
                out.append(config.as_str());
            },
            Error::RemoteExit { args, status } => {
                out.append("remote `herdr-ferry ");
                out.append(text::join(args, " ").as_str());
                out.append("` exited ");
                out.append(status.as_str());
            },
            Error::RemoteMissing { alias } => {
                out.append("herdr-ferry not found on `");
                out.append(alias.as_str());
                out.append("`: install/link the plugin there, or symlink target/release/herdr-ferry into ~/.local/bin, or set remote_bin in client.toml");
            },
            Error::SshFailed { alias, stderr, hint } => {
                out.append("ssh to `");
                out.append(alias.as_str());
                out.append("` failed: ");
                out.append(stderr.as_str());
                out.append(hint.as_str());
            },
            Error::NotJson { args, reason } => {
                out.append("herdr ");
                out.append(text::join(args, " ").as_str());
                out.append(" did not return JSON: ");
                out.append(reason.as_str());
            },
            Error::NoFocusedPane => {
                out.append("no focused pane (is Herdr attached?)");
            },
            Error::CommandFailed { program, args, status, stderr } => {
                out.append(program.as_str());
                out.append(" ");
                out.append(text::join(args, " ").as_str());
                out.append(" failed (");
                out.append(status.as_str());
                out.append("): ");
                out.append(stderr.as_str());
            },
            Error::System { context, reason } => {
                out.append(context.as_str());
                out.append(": ");
                out.append(reason.as_str());
            },
        }
        out
    }
}

} // verus!
