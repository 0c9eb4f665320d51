use herdr_ferry::error::Error;
use herdr_ferry::herdr::{Ctx, EnvVars, InvocationContext};
use herdr_ferry::send::{
    check_cap, chrono_stamp, clip_file_name, finish, plain_opts, queued_line, read_clipboard_image,
    read_clipboard_text, send, send_from_context, stage_dir, stage_file, stage_image, stage_text,
    stamp_at, staging_file, vet, ContextAction, Finish, ImageAnswer, ImageSearch, SendOpts,
    SendStep,
};
use herdr_ferry::state::{Item, ItemState, Kind, Listing, Source, State, OUTBOX_CAP_BYTES};
use herdr_ferry::util::sha256_bytes;

const NOW: u64 = 1_724_800_000_000;

fn opts(clip: bool, force: bool, outside: bool) -> SendOpts {
    SendOpts { note: None, clip, force, allow_outside_home: outside }
}

fn strings(v: &[&str]) -> Vec<String> {
    v.iter().map(|s| s.to_string()).collect()
}

fn message<T>(r: Result<T, Error>) -> String {
    match r {
        Ok(_) => panic!("an error is expected"),
        Err(e) => e.message(),
    }
}

fn store() -> State {
    State { root: "/s".to_string() }
}

fn item(id: &str, size: u64, sha: &str) -> Item {
    Item::made(id.to_string(), NOW, Kind::File, "f", size, sha, "m", None, Source::default())
}

fn empty_env() -> EnvVars {
    EnvVars {
        herdr_bin_path: None,
        herdr_env: None,
        herdr_plugin_id: None,
        herdr_pane_id: None,
        herdr_workspace_id: None,
        herdr_plugin_clicked_url: None,
        ferry_pane_id: None,
        ferry_workspace_id: None,
        ferry_cwd: None,
        ferry_agent: None,
        ferry_selected: None,
        current_dir: None,
    }
}

#[test]
fn a_send_needs_a_path_or_the_clipboard() {
    let none: Vec<String> = vec![];
    assert_eq!(
        message(send(&none, "/b", "/h", &opts(false, false, false))),
        "nothing to send: give a path or --clip"
    );
    let mut s = send(&none, "/b", "/h", &opts(true, false, false)).ok().unwrap();
    assert!(matches!(s.next(), SendStep::Clipboard));
    s.staged("ID".to_string());
    assert!(matches!(s.next(), SendStep::Report { ids } if ids == vec!["ID"]));
}

#[test]
fn paths_are_sent_in_their_order() {
    let paths = strings(&["x.txt", "/abs/y", "~/z"]);
    let mut s = send(&paths, "/base", "/home/u", &opts(false, false, false)).ok().unwrap();
    let mut seen = vec![];
    for id in ["A", "B", "C"] {
        match s.next() {
            SendStep::Path { full } => seen.push(full),
            _ => panic!("a path"),
        }
        s.staged(id.to_string());
    }
    assert_eq!(seen, vec!["/base/x.txt", "/abs/y", "/home/u/z"]);
    assert!(matches!(s.next(), SendStep::Report { ids } if ids == vec!["A", "B", "C"]));
}

#[test]
fn what_may_be_sent() {
    let plain = plain_opts();
    assert!(!plain.force && !plain.clip && !plain.allow_outside_home && plain.note.is_none());
    let name = vet("/home/u/a.txt", Some("/home/u/a.txt"), "/home/u", &plain);
    assert_eq!(name.ok().unwrap(), "a.txt");
    assert_eq!(
        message(vet("/home/u/nope", None, "/home/u", &plain)),
        "/home/u/nope does not exist"
    );
    assert_eq!(
        message(vet("/etc/hosts", Some("/etc/hosts"), "/home/u", &plain)),
        "/etc/hosts is outside $HOME; pass --allow-outside-home"
    );
    assert_eq!(
        message(vet("x", Some("/home/user2/x"), "/home/u", &plain)),
        "/home/user2/x is outside $HOME; pass --allow-outside-home"
    );
    let out = vet("/etc/hosts", Some("/etc/hosts"), "/home/u", &opts(false, false, true));
    assert_eq!(out.ok().unwrap(), "hosts");
    assert_eq!(
        message(vet("k", Some("/home/u/.env"), "/home/u", &plain)),
        "refusing to send .env: matches secrets deny-list (.env*); pass --force to override"
    );
    let forced = vet("k", Some("/home/u/.env"), "/home/u", &opts(false, true, false));
    assert_eq!(forced.ok().unwrap(), ".env");
    let root = vet("/", Some("/"), "/home/u", &opts(false, false, true));
    assert_eq!(root.ok().unwrap(), "item");
}

#[test]
fn the_cap_is_kept() {
    let s = store();
    let l = Listing { items: vec![item("1", OUTBOX_CAP_BYTES - 10, "a")], reverted: vec![] };
    assert!(check_cap(&s, &l, 10).is_ok());
    assert_eq!(
        message(check_cap(&s, &l, 11)),
        "outbox cap exceeded: 2.0G queued + 11B new > 2.0G; run `herdr-ferry pull` on the laptop first"
    );
    let staged = match finish(&s, &l, item("2", 10, "b"), Source::default, NOW) {
        Ok(Finish::Stage { item, .. }) => item,
        _ => panic!("it fits"),
    };
    let full = s.list_outbox(vec![Some(l.items[0].clone()), Some(staged)], NOW);
    assert_eq!(s.outbox_bytes(&full), OUTBOX_CAP_BYTES);
    let over = finish(&s, &l, item("2", 11, "b"), Source::default, NOW);
    assert!(matches!(over, Err(Error::CapExceeded { used, new: 11 }) if used == OUTBOX_CAP_BYTES - 10));
}

#[test]
fn the_same_contents_are_queued_once() {
    let s = store();
    let l = Listing { items: vec![item("1", 5, "a")], reverted: vec![] };
    let again = finish(&s, &l, item("2", 5, "a"), Source::default, NOW + 2000);
    assert!(matches!(again, Ok(Finish::Duplicate { id }) if id == "1"));
    let src = || Source { pane_id: None, workspace_id: Some("w".to_string()), agent: None, cwd: None };
    match finish(&s, &l, item("2", 5, "a"), src, NOW + 2001) {
        Ok(Finish::Stage { item, dir, payload }) => {
            assert_eq!(item.source.workspace_id.as_deref(), Some("w"));
            assert_eq!(item.state, ItemState::Queued);
            assert_eq!(dir, "/s/outbox/2");
            assert_eq!(payload, "/s/outbox/2/payload");
        }
        _ => panic!("it is no duplicate any more"),
    }
    let huge = Listing { items: vec![item("1", u64::MAX, "a"), item("3", 5, "b")], reverted: vec![] };
    let again = finish(&s, &huge, item("2", 5, "a"), Source::default, NOW);
    assert!(matches!(again, Ok(Finish::Duplicate { id }) if id == "1"));
}

#[test]
fn items_for_files_and_directories() {
    let f = stage_file("shot.png", 3, "ab", Some("note".to_string()));
    assert_eq!((f.kind, f.mime.as_str(), f.size), (Kind::File, "image/png", 3));
    assert_eq!(f.note.as_deref(), Some("note"));
    let d = stage_dir("dist", 4, "cd", None);
    assert_eq!((d.kind, d.mime.as_str(), d.name.as_str()), (Kind::Dir, "application/gzip", "dist"));
    let t = staging_file(&store());
    assert!(t.starts_with("/s/outbox/.staging-") && t.ends_with(".tar.gz"));
    assert_eq!(t.len(), "/s/outbox/.staging-".len() + 26 + ".tar.gz".len());
}

#[test]
fn items_for_the_clipboard() {
    assert_eq!(stamp_at(1_999), "1");
    assert!(chrono_stamp().parse::<u64>().unwrap() > 1_600_000_000);
    let png = vec![1u8, 2, 3];
    let i = stage_image(&png, "17", None);
    assert_eq!((i.name.as_str(), i.size, i.mime.as_str()), ("clipboard-17.png", 3, "image/png"));
    assert_eq!(i.kind, Kind::ClipboardImage);
    assert_eq!(i.sha256, sha256_bytes(&png));
    let t = stage_text("grüß", "17", None).ok().unwrap();
    assert_eq!((t.name.as_str(), t.size, t.mime.as_str()), ("clipboard-17.txt", 6, "text/plain"));
    assert_eq!(t.kind, Kind::ClipboardText);
    assert_eq!(t.sha256, sha256_bytes("grüß".as_bytes()));
    assert_eq!(message(stage_text("", "17", None)), "clipboard is empty (no image, no text)");
}

#[test]
fn looking_for_an_image_on_linux() {
    let s = read_clipboard_image(false);
    assert_eq!(s.program_sought(), Some("wl-paste"));
    let s = s.next(ImageAnswer::Found(true));
    let c = s.command_line("/tmp/x").unwrap();
    assert_eq!((c.program.as_str(), c.args), ("wl-paste", strings(&["-l"])));
    let s = s.next(ImageAnswer::Text(Some("text/plain\nimage/png".to_string())));
    let c = s.command_line("/tmp/x").unwrap();
    assert_eq!((c.program.as_str(), c.args), ("wl-paste", strings(&["-t", "image/png"])));
    assert!(matches!(s.next(ImageAnswer::Bytes(true, vec![9])), ImageSearch::Image(b) if b == vec![9]));
    let s = ImageSearch::WlPaste.next(ImageAnswer::Bytes(false, vec![9]));
    assert_eq!(s.program_sought(), Some("xclip"));
    assert!(matches!(ImageSearch::ListTypes.next(ImageAnswer::Text(None)), ImageSearch::FindXclip));
    let none = ImageSearch::ListTypes.next(ImageAnswer::Text(Some("text/plain".to_string())));
    assert!(matches!(none, ImageSearch::FindXclip));
    let s = s.next(ImageAnswer::Found(true));
    let c = s.command_line("/tmp/x").unwrap();
    assert_eq!(c.program, "xclip");
    assert_eq!(c.args, strings(&["-selection", "clipboard", "-t", "image/png", "-o"]));
    assert!(matches!(s.next(ImageAnswer::Bytes(true, vec![])), ImageSearch::Nothing));
    assert!(matches!(ImageSearch::FindXclip.next(ImageAnswer::Found(false)), ImageSearch::Nothing));
    assert!(matches!(ImageSearch::FindWlPaste.next(ImageAnswer::Found(false)), ImageSearch::FindXclip));
}

#[test]
fn looking_for_an_image_on_macos() {
    assert_eq!(clip_file_name(42), "herdr-ferry-clip-42.png");
    let s = read_clipboard_image(true);
    let c = s.command_line("/tmp/x.png").unwrap();
    assert_eq!(c.program, "osascript");
    assert_eq!(
        c.args[1],
        "set f to open for access POSIX file \"/tmp/x.png\" with write permission\ntry\nwrite (the clipboard as «class PNGf») to f\nend try\nclose access f"
    );
    assert!(matches!(s.next(ImageAnswer::Bytes(false, vec![1])), ImageSearch::Image(_)));
    let none = read_clipboard_image(true).next(ImageAnswer::Bytes(true, vec![]));
    assert!(matches!(none, ImageSearch::Nothing));
}

#[test]
fn reading_text_from_the_clipboard() {
    let all = |_: &str| true;
    let none = |_: &str| false;
    let c = read_clipboard_text(true, none).ok().unwrap();
    assert_eq!((c.program.as_str(), c.args.len()), ("pbpaste", 0));
    let c = read_clipboard_text(false, all).ok().unwrap();
    assert_eq!((c.program.as_str(), c.args), ("wl-paste", strings(&["-n"])));
    let c = read_clipboard_text(false, |p: &str| p == "xclip").ok().unwrap();
    assert_eq!((c.program.as_str(), c.args), ("xclip", strings(&["-selection", "clipboard", "-o"])));
    assert_eq!(
        message(read_clipboard_text(false, none)),
        "no clipboard tool found (pbpaste / wl-paste / xclip)"
    );
}

#[test]
fn the_send_key() {
    let mut ctx = Ctx::from_env(&empty_env(), None);
    let env = empty_env();
    let there = |p: &str| p == "/b/out/a.png";
    assert!(matches!(send_from_context(&ctx, &env, "/b", "/h", there), ContextAction::OpenPicker));
    ctx.context.selected_text = Some("  `out/a.png`  \nsecond line".to_string());
    let act = send_from_context(&ctx, &env, "/b", "/h", there);
    assert!(matches!(act, ContextAction::Send { path } if path == "/b/out/a.png"));
    let act = send_from_context(&ctx, &env, "/c", "/h", there);
    assert!(matches!(act, ContextAction::OpenPicker));
    ctx.context.clicked_url = Some("file:///b/out/a.png".to_string());
    let act = send_from_context(&ctx, &env, "/c", "/h", there);
    assert!(matches!(act, ContextAction::Send { path } if path == "/b/out/a.png"));
    let mut env = empty_env();
    env.herdr_plugin_clicked_url = Some("file:///b/out/a.png".to_string());
    let ctx = Ctx::from_env(&env, Some(InvocationContext::default()));
    let act = send_from_context(&ctx, &env, "/c", "/h", there);
    assert!(matches!(act, ContextAction::Send { path } if path == "/b/out/a.png"));
    let asked = |p: &str| panic!("asked for {p}");
    let env = empty_env();
    for nothing in ["``\nsecond", "''", "\" \"", "\n/b/out/a.png"] {
        let mut ctx = Ctx::from_env(&env, None);
        ctx.context.selected_text = Some(nothing.to_string());
        let act = send_from_context(&ctx, &env, "/b", "/h", asked);
        assert!(matches!(act, ContextAction::OpenPicker));
    }
    let mut ctx = Ctx::from_env(&env, None);
    ctx.context.clicked_url = Some("file://".to_string());
    let act = send_from_context(&ctx, &env, "/b", "/h", |_: &str| true);
    assert!(matches!(act, ContextAction::OpenPicker));
    let mut env = empty_env();
    env.herdr_plugin_clicked_url = Some(String::new());
    let mut ctx = Ctx::from_env(&env, None);
    ctx.context.clicked_url = Some(String::new());
    ctx.context.selected_text = Some("out/a.png".to_string());
    let act = send_from_context(&ctx, &env, "/b", "/h", there);
    assert!(matches!(act, ContextAction::Send { path } if path == "/b/out/a.png"));
    env.herdr_plugin_clicked_url = Some("file:///b/out/a.png".to_string());
    let act = send_from_context(&ctx, &env, "/c", "/h", there);
    assert!(matches!(act, ContextAction::Send { path } if path == "/b/out/a.png"));
    assert_eq!(queued_line("/b/x", &strings(&["A", "B"])), "queued /b/x as A,B");
}
