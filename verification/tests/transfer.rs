use std::cell::RefCell;

use herdr_ferry::client::{
    announce, check_version, default_dest, delivered_line, drain, entry_place, failure_line,
    notify, open_path, pull, push, push_args, push_file_name, pushed_line, pushed_name, save,
    set_clipboard_image, set_clipboard_text, to_open, wait_args, watch, watching_line, Client,
    Delivery, DrainStep, Handshake, Phase, PushStep, Saving, WatchStep,
};
use herdr_ferry::command::Command;
use herdr_ferry::error::Error;
use herdr_ferry::inbox;
use herdr_ferry::outbox;
use herdr_ferry::ssh::{
    alias_hostname, checked, config_path, configured_host, discover_remote_bin, discovered,
    ClientConfig, Remote, REMOTE_BIN_CANDIDATES,
};
use herdr_ferry::state::{Item, ItemState, Kind, Source, State};
use herdr_ferry::VERSION;

fn some(s: &str) -> Option<String> {
    Some(s.to_string())
}

fn message<T>(r: Result<T, Error>) -> String {
    match r {
        Ok(_) => panic!("an error is expected"),
        Err(e) => e.message(),
    }
}

fn remote() -> Remote {
    Remote { alias: "alfred".to_string(), remote_bin: "/opt/my bin/ferry".to_string() }
}

fn client() -> Client {
    Client::new(remote(), Some("~/in"), &ClientConfig::default(), None, "/home/u", false)
}

fn item(kind: Kind, name: &str, mime: &str) -> Item {
    Item::made("01".to_string(), 0, kind, name, 2048, "aa", mime, None, Source::default())
}

#[test]
fn where_the_configuration_lies() {
    let usual = "/home/u/.config/herdr-ferry/client.toml";
    assert_eq!(config_path(false, Some("/home/u/.config"), "/home/u"), usual);
    assert_eq!(config_path(false, Some("/x"), "/home/u"), "/x/herdr-ferry/client.toml");
    assert_eq!(config_path(false, None, "/home/u"), usual);
    let library = Some("/home/u/Library/Application Support");
    assert_eq!(config_path(true, library, "/home/u"), usual);
    assert_eq!(config_path(true, None, "/home/u"), usual);
    let d = ClientConfig::default();
    assert!(d.alias.is_none() && d.remote_bin.is_none() && d.dest.is_none());
}

#[test]
fn which_server_is_meant() {
    let found = |_: &str| Ok("/found".to_string());
    let lost = |a: &str| Err(Error::RemoteMissing { alias: a.to_string() });
    let cfg = ClientConfig { alias: some("cfg"), remote_bin: None, dest: None };
    let r = Remote::resolve(some("arg"), some("env"), &cfg, "/c", found).ok().unwrap();
    assert_eq!((r.alias.as_str(), r.remote_bin.as_str()), ("arg", "/found"));
    let r = Remote::resolve(None, some("env"), &cfg, "/c", found).ok().unwrap();
    assert_eq!(r.alias, "env");
    let r = Remote::resolve(None, some(""), &cfg, "/c", found).ok().unwrap();
    assert_eq!(r.alias, "cfg");
    let none = ClientConfig::default();
    assert_eq!(
        message(Remote::resolve(None, None, &none, "/c", found)),
        "no ssh alias: pass --alias, set HERDR_FERRY_ALIAS, or write `alias = \"...\"` to /c"
    );
    let fixed = ClientConfig { alias: None, remote_bin: some("/bin/f"), dest: None };
    let r = Remote::resolve(some("arg"), None, &fixed, "/c", lost).ok().unwrap();
    assert_eq!(r.remote_bin, "/bin/f");
    assert_eq!(
        message(Remote::resolve(some("arg"), None, &none, "/c", lost)),
        "herdr-ferry not found on `arg`: install/link the plugin there, or symlink target/release/herdr-ferry into ~/.local/bin, or set remote_bin in client.toml"
    );
}

#[test]
fn the_server_gets_the_words() {
    let c = remote().ssh_cmd(&vec!["inbox-receive", "--note", "it's $5"]);
    assert_eq!(c.program, "ssh");
    assert_eq!(
        c.args,
        vec![
            "-o",
            "BatchMode=yes",
            "alfred",
            "'/opt/my bin/ferry' inbox-receive --note 'it'\\''s $5'"
        ]
    );
    assert_eq!(remote().control_master_active().args, vec!["-O", "check", "alfred"]);
}

#[test]
fn runs_on_the_server() {
    let r = remote();
    let args = vec!["outbox-list", "--json"];
    let asked = RefCell::new(vec![]);
    let out = r.run_ok(&args, |c: &Command| {
        asked.borrow_mut().push(c.args[3].clone());
        Ok((Some(0), "[]\n".to_string()))
    });
    assert_eq!(out.ok().unwrap(), "[]\n");
    assert_eq!(*asked.borrow(), vec!["'/opt/my bin/ferry' outbox-list --json"]);
    let bad = r.run_ok(&args, |_: &Command| Ok((Some(255), String::new())));
    assert_eq!(message(bad), "remote `herdr-ferry outbox-list --json` exited 255");
    let stopped = r.run(&args, |_: &Command| Ok((None, "x".to_string())));
    assert!(matches!(stopped, Ok((-1, s)) if s == "x"));
    let gone = || Error::System { context: "spawn ssh".to_string(), reason: "no".to_string() };
    assert_eq!(message(r.run_ok(&args, |_: &Command| Err(gone()))), "spawn ssh: no");
    assert_eq!(message(checked(&args, Ok((2, String::new())))), "remote `herdr-ferry outbox-list --json` exited 2");
    assert!(r.run_to_writer(&args, true, "").is_ok());
    assert_eq!(
        message(r.run_to_writer(&vec!["outbox-cat", "01"], false, "exit status: 1")),
        "remote `herdr-ferry outbox-cat 01` exited exit status: 1"
    );
    assert_eq!(r.run_from_file(&args, true, "", " ID \n").ok().unwrap(), "ID");
    assert!(r.run_from_file(&args, false, "signal: 9", "ID").is_err());
}

#[test]
fn finding_the_program_on_the_server() {
    let c = discover_remote_bin("alfred");
    assert_eq!(c.args[..3], ["-o", "BatchMode=yes", "alfred"]);
    assert_eq!(c.args[3], REMOTE_BIN_CANDIDATES);
    assert!(REMOTE_BIN_CANDIDATES.starts_with("command -v herdr-ferry 2>/dev/null && exit 0\n"));
    assert!(REMOTE_BIN_CANDIDATES.ends_with("\nexit 3"));
    assert_eq!(discovered("a", Some(0), " /x/f \n", "").ok().unwrap(), "/x/f");
    assert!(matches!(discovered("a", Some(3), "/x", ""), Err(Error::RemoteMissing { .. })));
    assert_eq!(
        message(discovered("a", Some(255), "", "Host key verification failed.\n")),
        "ssh to `a` failed: Host key verification failed. — run `ssh a` once interactively to accept the host key"
    );
    assert_eq!(
        message(discovered("a", Some(255), "", "u@a: Permission denied (publickey).")),
        "ssh to `a` failed: u@a: Permission denied (publickey). — key auth is required (BatchMode); add your key to the server's authorized_keys"
    );
    assert_eq!(message(discovered("a", None, "x", " odd ")), "ssh to `a` failed: odd");
    assert_eq!(message(discovered("a", Some(0), "  ", "")), "ssh to `a` failed: ");
}

#[test]
fn the_host_of_an_alias() {
    let out = "user u\nhostname  box.lan \nport 22\nhostname other\n";
    assert_eq!(configured_host(out).as_deref(), Some("box.lan"));
    assert_eq!(configured_host("user u\n"), None);
    let asked = RefCell::new(vec![]);
    let host = alias_hostname("alfred", |c: &Command| {
        asked.borrow_mut().push(c.args.join(" "));
        Ok(out.to_string())
    });
    assert_eq!(host.as_deref(), Some("box.lan"));
    assert_eq!(*asked.borrow(), vec!["-G alfred"]);
    assert_eq!(alias_hostname("a", |_: &Command| Err(Error::BadPath)), None);
}

#[test]
fn where_files_go() {
    assert_eq!(default_dest(Some("/home/u/DL"), "/home/u"), "/home/u/DL/herdr-ferry");
    assert_eq!(default_dest(None, "/home/u"), "/home/u/Downloads/herdr-ferry");
    assert_eq!(client().dest, "/home/u/in");
    let cfg = ClientConfig { alias: None, remote_bin: None, dest: some("/cfg") };
    assert_eq!(Client::new(remote(), None, &cfg, None, "/h", true).dest, "/cfg");
    let none = ClientConfig::default();
    assert_eq!(Client::new(remote(), None, &none, None, "/h", true).dest, "/h/Downloads/herdr-ferry");
}

#[test]
fn versions_are_held_against_each_other() {
    assert!(matches!(check_version("no header", "1.0.0"), Handshake::Fine));
    assert!(matches!(check_version("#herdr-ferry 1.0.0 ", "1.0.0"), Handshake::Fine));
    match check_version("#herdr-ferry 1.1.0", "1.0.0") {
        Handshake::Warn { message } => {
            assert_eq!(message, "herdr-ferry: warning: remote is 1.1.0, local is 1.0.0")
        }
        _ => panic!("a warning"),
    }
    match check_version("#herdr-ferry 2.0.0", "1.0.0") {
        Handshake::Refuse { message } => assert_eq!(
            message,
            "herdr-ferry: remote is 2.0.0, local is 1.0.0 — major mismatch, refusing"
        ),
        _ => panic!("a refusal"),
    }
    assert!(matches!(check_version(&outbox::header(VERSION), VERSION), Handshake::Fine));
}

#[test]
fn only_queued_items_are_fetched() {
    let mut a = item(Kind::File, "a", "m");
    a.state = ItemState::Claimed;
    let b = item(Kind::File, "b", "m");
    let mut c = item(Kind::File, "c", "m");
    c.state = ItemState::Acked;
    let got = drain(&vec![a, b, c]);
    assert_eq!((got.todo.len(), got.done, got.count), (1, 0, 0));
    assert_eq!(got.todo[0].name, "b");
    assert_eq!(failure_line(&got.todo[0], "no"), "herdr-ferry: b (01): no");
    assert_eq!(pull(0), Some("nothing queued"));
    assert_eq!(pull(1), None);
}

#[test]
fn a_failed_delivery_stops_no_other() {
    let names = ["a", "b", "c"];
    let items: Vec<Item> = names.iter().map(|n| item(Kind::File, n, "m")).collect();
    let mut d = drain(&items);
    for (name, ok) in names.iter().zip([true, false, true]) {
        match d.next() {
            DrainStep::Deliver { item } => assert_eq!(&item.name, name),
            DrainStep::Done { .. } => panic!("{name} is left out"),
        }
        d.delivered(ok);
    }
    assert!(matches!(d.next(), DrainStep::Done { count: 2 }));
    assert!(matches!(drain(&vec![]).next(), DrainStep::Done { count: 0 }));
}

#[test]
fn what_is_opened() {
    let mut c = client();
    let file = save("/home/u/in", &item(Kind::File, "a", "m"), |_: &str| false).unwrap();
    let text = save("/home/u/in", &item(Kind::ClipboardText, "a", "m"), |_: &str| false).unwrap();
    c.open = false;
    assert_eq!(to_open(&c, &file), None);
    c.open = true;
    assert_eq!(to_open(&c, &file), Some("/home/u/in/a"));
    assert_eq!(to_open(&c, &text), None);
}

#[test]
fn a_delivery_checks_before_it_reports() {
    let mut d = Delivery::new(&client(), item(Kind::File, "a", "m"));
    assert_eq!(d.tmp, "/home/u/in/.01.part");
    assert_eq!(d.args().unwrap(), vec!["outbox-claim", "01"]);
    d.claimed();
    assert_eq!(d.args().unwrap(), vec!["outbox-cat", "01"]);
    d.fetched("bb");
    assert_eq!(d.phase, Phase::Fetch { attempt: 2 });
    d.fetched("aa");
    assert_eq!(d.args().unwrap(), vec!["outbox-ack", "01"]);
    d.acked();
    assert_eq!(d.phase, Phase::Save);
    assert!(d.args().is_none());
    d.saved();
    assert_eq!(d.phase, Phase::Done);
    assert!(d.failure().is_none());
}

#[test]
fn a_delivery_gives_up_after_two_wrong_payloads() {
    let mut d = Delivery::new(&client(), item(Kind::File, "a", "m"));
    d.claimed();
    d.fetched("bb");
    d.fetched("cc");
    assert_eq!(d.phase, Phase::Mismatch);
    assert!(d.args().is_none());
    assert_eq!(d.failure().unwrap().message(), "sha256 mismatch twice; left claimed on server");
}

#[test]
fn payloads_are_put_in_their_place() {
    let free = |_: &str| false;
    let one = |p: &str| !p.contains("-2");
    match save("/d", &item(Kind::ClipboardText, "t", "text/plain"), free) {
        Some(Saving::Text { title, body }) => {
            assert_eq!(title, "Ferry: clipboard text");
            assert_eq!(body, "t (2.0K)");
        }
        _ => panic!("text"),
    }
    match save("/d", &item(Kind::Dir, "dist", "application/gzip"), one) {
        Some(Saving::Dir { out, title, body }) => {
            assert_eq!((out.as_str(), title.as_str()), ("/d/dist-2", "Ferry: directory"));
            assert_eq!(body, "dist (2.0K) → /d/dist-2");
        }
        _ => panic!("a directory"),
    }
    let mut pic = item(Kind::File, "a.png", "image/png");
    pic.note = some("look");
    let saved = save("/d", &pic, one).unwrap();
    assert_eq!(delivered_line(&pic, &saved), "01\ta.png\t/d/a-2.png");
    match saved {
        Saving::File { dest, image, title, body } => {
            assert_eq!((dest.as_str(), image), ("/d/a-2.png", true));
            assert_eq!((title.as_str(), body.as_str()), ("Ferry: image (on clipboard)", "look"));
        }
        _ => panic!("a file"),
    }
    match save("/d", &item(Kind::ClipboardImage, "x", "text/x"), free) {
        Some(Saving::File { image, title, .. }) => {
            assert!(!image);
            assert_eq!(title, "Ferry: file");
        }
        _ => panic!("a file"),
    }
    let text = item(Kind::ClipboardText, "t", "text/plain");
    let saved = save("/d", &text, free).unwrap();
    assert_eq!(delivered_line(&text, &saved), "01\tt\t(clipboard)");
}

#[test]
fn archive_entries_lose_their_first_part() {
    assert_eq!(entry_place("/d/dist", "dist/a/b.js").as_deref(), Some("/d/dist/a/b.js"));
    assert_eq!(entry_place("/d/dist", "dist/"), None);
    assert_eq!(entry_place("/d/dist", "dist"), None);
    for rel in ["a", "a/b", "x.y/z/w"] {
        let place = entry_place("/d/dist-2", &format!("dist/{rel}"));
        assert_eq!(place, Some(format!("/d/dist-2/{rel}")));
    }
}

#[test]
fn a_watch_waits_longer_after_each_failure() {
    assert_eq!(wait_args(), vec!["outbox-wait", "--timeout", "55"]);
    assert_eq!(watching_line(&client()), "herdr-ferry: watching alfred → /home/u/in");
    let mut w = watch();
    let mut slept = vec![];
    for _ in 0..7 {
        match w.waited(255) {
            WatchStep::Retry { sleep_s, .. } => slept.push(sleep_s),
            _ => panic!("a failure"),
        }
    }
    assert_eq!(slept, vec![1, 2, 4, 8, 16, 30, 30]);
    assert!(matches!(w.waited(2), WatchStep::Again));
    match w.waited(-1) {
        WatchStep::Retry { message, sleep_s } => {
            assert_eq!(message, "herdr-ferry: ssh/remote exited -1; retrying in 1s");
            assert_eq!(sleep_s, 1);
        }
        _ => panic!("a failure"),
    }
    match w.failed("spawn ssh: no") {
        WatchStep::Retry { message, .. } => {
            assert_eq!(message, "herdr-ferry: spawn ssh: no; retrying in 2s")
        }
        _ => panic!("a failure"),
    }
    assert!(matches!(w.waited(0), WatchStep::Drain));
    assert_eq!(w.backoff_s, 1);
}

#[test]
fn a_push_goes_through_its_paths() {
    assert_eq!(message(push(&vec![], true)), "nothing to push");
    let paths = vec!["a".to_string(), "b".to_string()];
    let mut p = push(&paths, true).ok().unwrap();
    assert!(matches!(p.next(), PushStep::Path { raw } if raw == "a"));
    p.pushed("1".to_string());
    assert!(matches!(p.next(), PushStep::Path { raw } if raw == "b"));
    p.pushed("2".to_string());
    assert!(matches!(p.next(), PushStep::Paste { id } if id == "2"));
    let mut p = push(&paths[..1].to_vec(), false).ok().unwrap();
    p.pushed("1".to_string());
    assert!(matches!(p.next(), PushStep::Done));
}

#[test]
fn what_a_push_announces() {
    assert_eq!(pushed_name("~/x", Some("/home/u/x")).ok().unwrap(), "x");
    assert_eq!(message(pushed_name("~/x", None)), "~/x does not exist");
    assert_eq!(message(pushed_name("/", Some("/"))), "bad path");
    assert_eq!(push_file_name(7), "herdr-ferry-push-7.tar.gz");
    assert_eq!(
        push_args("bug.png", false, 12, "ab", Some("see")),
        vec![
            "inbox-receive", "--name", "bug.png", "--sha256", "ab", "--size", "12", "--kind",
            "file", "--mime", "image/png", "--note", "see"
        ]
    );
    let dir = push_args("dist", true, 12, "ab", None);
    assert_eq!(dir[2], "dist.tar.gz");
    assert_eq!(dir[8], "dir");
    assert_eq!(dir.len(), 11);
    assert_eq!(announce("n", false, 1, "s", "a/b", None)[10], "a/b");
    assert_eq!(pushed_line("ID", "x"), "ID\tx");
}

#[test]
fn what_is_pushed_is_received_under_its_name() {
    let s = State { root: "/s".to_string() };
    for (name, is_dir) in [("bug.png", false), ("dist", true), ("a.b", true), ("x.tar.gz", true)] {
        let a = push_args(name, is_dir, 5, "ab", None);
        let r = inbox::receive(&s, &a[2], &a[4], 5, &a[8], Some(a[10].clone()), None).ok().unwrap();
        assert_eq!(r.item.name, a[2]);
        assert_eq!(r.settle(true).name, name);
    }
    let a = push_args("x.tar.gz", true, 5, "ab", None);
    let r = inbox::receive(&s, &a[2], &a[4], 5, &a[8], None, None).ok().unwrap();
    assert_eq!(r.unpacked().unwrap(), format!("{}/x.tar.gz", r.dir));
    let a = push_args("item.json", true, 5, "ab", None);
    let r = inbox::receive(&s, &a[2], &a[4], 5, &a[8], None, None).ok().unwrap();
    assert_eq!(r.unpack_in().unwrap(), format!("{}/payload", r.dir));
    assert_eq!(r.unpacked().unwrap(), format!("{}/payload/item.json", r.dir));
    let out = r.unpacked().unwrap();
    assert_eq!(s.inbox_payload(&r.settle(true)), out);
}

#[test]
fn writing_to_the_clipboard() {
    let none = |_: &str| false;
    let all = |_: &str| true;
    assert_eq!(set_clipboard_text(true, none).ok().unwrap().program, "pbcopy");
    assert_eq!(set_clipboard_text(false, all).ok().unwrap().program, "wl-copy");
    let c = set_clipboard_text(false, |p: &str| p == "xclip").ok().unwrap();
    assert_eq!(c.args, vec!["-selection", "clipboard"]);
    assert_eq!(message(set_clipboard_text(false, none)), "no clipboard tool (pbcopy / wl-copy / xclip)");
    let c = set_clipboard_image("/a b", "image/png", false, all).ok().unwrap();
    assert_eq!(c.args, vec!["-c", "wl-copy -t image/png < '/a b'"]);
    let c = set_clipboard_image("/a", "image/png", false, |p: &str| p == "xclip").ok().unwrap();
    assert_eq!(c.args, vec!["-selection", "clipboard", "-t", "image/png", "-i", "/a"]);
    assert_eq!(message(set_clipboard_image("/a", "image/png", false, none)), "no clipboard tool (wl-copy / xclip)");
    for (mime, class) in [
        ("image/png", "«class PNGf»"),
        ("image/jpeg", "JPEG picture"),
        ("image/gif", "GIF picture"),
        ("image/tiff", "TIFF picture"),
    ] {
        let c = set_clipboard_image("/a", mime, true, none).ok().unwrap();
        assert_eq!(c.args[1], format!("set the clipboard to (read (POSIX file \"/a\") as {class})"));
    }
    assert_eq!(
        message(set_clipboard_image("/a", "image/webp", true, all)),
        "image/webp not supported on macOS clipboard"
    );
}

#[test]
fn telling_the_user() {
    let none = |_: &str| false;
    let all = |_: &str| true;
    let n = notify("T", "say \"a\\b\"", Some("/p"), true, all);
    let first = n.first.unwrap();
    assert_eq!(first.program, "terminal-notifier");
    assert_eq!(
        first.args,
        vec!["-title", "T", "-message", "say \"a\\b\"", "-group", "herdr-ferry", "-open", "file:///p"]
    );
    assert_eq!(
        n.fallback.unwrap().args[1],
        "display notification \"say \\\"a\\\\b\\\"\" with title \"T\""
    );
    let n = notify("T", "b", None, true, none);
    assert!(n.first.is_none());
    assert_eq!(n.fallback.unwrap().program, "osascript");
    let n = notify("T", "b", None, false, all);
    assert!(n.first.is_none());
    assert_eq!(n.fallback.unwrap().args, vec!["-a", "herdr-ferry", "T", "b"]);
    let n = notify("T", "b", None, false, none);
    assert!(n.first.is_none() && n.fallback.is_none());
    assert_eq!(notify("T", "b", None, true, all).first.unwrap().args.len(), 6);
    assert_eq!(open_path("/p", true).program, "open");
    assert_eq!(open_path("/p", false).args, vec!["/p"]);
    assert_eq!(open_path("/p", false).program, "xdg-open");
}
