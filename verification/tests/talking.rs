use std::cell::RefCell;

use herdr_ferry::command::Command;
use herdr_ferry::error::Error;
use herdr_ferry::herdr::{
    cwd_in, focused_pane, json_answer, listed_workspaces, pane_of, path_exists_rel,
    report_all_tokens, resolve, workspaces_of, Ctx, EnvVars, InvocationContext,
};
use herdr_ferry::inbox;
use herdr_ferry::json::{parse, Json};
use herdr_ferry::state::{Item, ItemState, Kind, Listing, Source, State};

fn env() -> EnvVars {
    EnvVars {
        herdr_bin_path: None,
        herdr_env: None,
        herdr_plugin_id: None,
        herdr_pane_id: None,
        herdr_workspace_id: None,
        herdr_plugin_clicked_url: None,
        ferry_pane_id: None,
        ferry_workspace_id: None,
        ferry_cwd: None,
        ferry_agent: None,
        ferry_selected: None,
        current_dir: Some("/cwd".to_string()),
    }
}

fn some(s: &str) -> Option<String> {
    Some(s.to_string())
}

fn message<T>(r: Result<T, Error>) -> String {
    match r {
        Ok(_) => panic!("an error is expected"),
        Err(e) => e.message(),
    }
}

fn refused() -> Result<String, Error> {
    Err(Error::System { context: "spawn herdr".to_string(), reason: "gone".to_string() })
}

fn spoken(c: &Command) -> String {
    format!("{} {}", c.program, c.args.join(" "))
}

#[test]
fn the_environment_is_read() {
    let c = Ctx::from_env(&env(), None);
    assert_eq!((c.bin.as_str(), c.plugin_id.as_str(), c.under_herdr), ("herdr", "herdr-ferry", false));
    assert_eq!((c.pane_id, c.workspace_id), (None, None));
    let mut e = env();
    e.herdr_bin_path = some("/bin/herdr");
    e.herdr_plugin_id = some("me.ferry");
    e.herdr_pane_id = some("w1:p1");
    e.ferry_pane_id = some("");
    e.herdr_workspace_id = some("w1");
    e.ferry_workspace_id = some("w2");
    let c = Ctx::from_env(&e, None);
    assert_eq!((c.bin.as_str(), c.plugin_id.as_str(), c.under_herdr), ("/bin/herdr", "me.ferry", true));
    assert_eq!(c.pane_id.as_deref(), Some("w1:p1"));
    assert_eq!(c.workspace_id.as_deref(), Some("w2"));
    let mut e = env();
    e.herdr_env = some("1");
    e.herdr_bin_path = some("");
    e.ferry_pane_id = some("p2");
    let mut ic = InvocationContext::default();
    ic.focused_pane_id = some("w9:p9");
    let c = Ctx::from_env(&e, Some(ic));
    assert_eq!((c.bin.as_str(), c.under_herdr), ("herdr", true));
    assert_eq!(c.pane_id.as_deref(), Some("w9:p9"));
}

#[test]
fn json_is_read() {
    let j = parse("{\"a\": [1, true, null, \"x\"], \"b\": {\"c\": false}}").ok().unwrap();
    match j.get("a") {
        Some(Json::List(v)) => {
            assert_eq!(v.len(), 4);
            assert!(matches!(&v[0], Json::Number(n) if n == "1"));
            assert!(matches!(&v[1], Json::Bool(true)));
            assert!(matches!(&v[2], Json::Null));
            assert!(matches!(&v[3], Json::Text(s) if s == "x"));
        }
        _ => panic!("a list"),
    }
    assert!(!j.get("b").unwrap().true_at("c"));
    assert!(j.get("z").is_none());
    assert!(j.list_at("b").is_none());
    assert!(matches!(j.get_or_self("z"), Json::Object(_)));
    assert_eq!(parse("{").err().unwrap(), "EOF while parsing an object at line 1 column 1");
    assert_eq!(parse("").err().unwrap(), "EOF while parsing a value at line 1 column 0");
}

#[test]
fn answers_of_herdr() {
    let args = vec!["x", "y"];
    let inner = json_answer(&args, Ok("{\"result\": {\"k\": \"v\"}}".to_string())).ok().unwrap();
    assert_eq!(inner.text_at("k").as_deref(), Some("v"));
    let bare = json_answer(&args, Ok("{\"k\": \"v\"}".to_string())).ok().unwrap();
    assert_eq!(bare.text_at("k").as_deref(), Some("v"));
    assert_eq!(message(json_answer(&args, Ok("hm".to_string()))), "herdr x y did not return JSON: expected value at line 1 column 1");
    assert_eq!(message(json_answer(&args, refused())), "spawn herdr: gone");
}

#[test]
fn the_focused_pane() {
    let list = "{\"result\":{\"panes\":[{\"pane_id\":\"a\",\"focused\":false},{\"pane_id\":\"b\",\"focused\":true},{\"pane_id\":\"c\",\"focused\":true}]}}";
    assert_eq!(focused_pane(Ok(list.to_string())).ok().unwrap(), "b");
    let told = "{\"panes\":[{\"pane_id\":\"x\"},{\"pane_id\":\"y\",\"focused\":true}]}";
    assert_eq!(pane_of(&parse(told).ok().unwrap()).as_deref(), Some("y"));
    assert_eq!(pane_of(&parse("{\"panes\":[{\"pane_id\":\"x\"}]}").ok().unwrap()), None);
    let pane = parse("{\"cwd\":\"/c\",\"foreground_cwd\":\"/f\"}").ok().unwrap();
    assert_eq!(cwd_in(&pane).as_deref(), Some("/f"));
    assert_eq!(cwd_in(&parse("{\"cwd\":\"/c\"}").ok().unwrap()).as_deref(), Some("/c"));
    assert_eq!(cwd_in(&parse("{}").ok().unwrap()), None);
    let none = "no focused pane (is Herdr attached?)";
    assert_eq!(message(focused_pane(Ok("{\"panes\":[]}".to_string()))), none);
    assert_eq!(message(focused_pane(Ok("[]".to_string()))), none);
    assert_eq!(message(focused_pane(Ok("{\"panes\":[{\"focused\":true}]}".to_string()))), none);
    assert_eq!(message(focused_pane(Ok("?".to_string()))), "herdr pane list did not return JSON: expected value at line 1 column 1");
    let mut c = Ctx::from_env(&env(), None);
    let asked = RefCell::new(vec![]);
    let ask = |cmd: &Command| {
        asked.borrow_mut().push(spoken(cmd));
        Ok(list.to_string())
    };
    assert_eq!(c.resolve_pane(ask).ok().unwrap(), "b");
    assert_eq!(*asked.borrow(), vec!["herdr pane list"]);
    c.pane_id = some("w1:p7");
    assert_eq!(c.resolve_pane(|_: &Command| refused()).ok().unwrap(), "w1:p7");
}

#[test]
fn where_relative_paths_start() {
    let mut e = env();
    let mut c = Ctx::from_env(&e, None);
    let info = |_: &Command| Ok("{\"result\":{\"pane\":{\"foreground_cwd\":\"/fg\",\"cwd\":\"/c\"}}}".to_string());
    let plain = |_: &Command| Ok("{\"cwd\":\"/c\"}".to_string());
    let gone = |_: &Command| refused();
    assert_eq!(c.pane_cwd(&e, info), "/cwd");
    c.under_herdr = true;
    assert_eq!(c.pane_cwd(&e, info), "/cwd");
    c.pane_id = some("w1:p1");
    assert_eq!(c.pane_cwd(&e, info), "/fg");
    assert_eq!(c.pane_cwd(&e, plain), "/c");
    assert_eq!(c.pane_cwd(&e, gone), "/cwd");
    e.current_dir = None;
    assert_eq!(c.pane_cwd(&e, gone), ".");
    e.ferry_cwd = some("/ferry");
    assert_eq!(c.pane_cwd(&e, info), "/ferry");
    c.context.focused_pane_cwd = some("/focus");
    assert_eq!(c.pane_cwd(&e, info), "/focus");
    let asked = RefCell::new(vec![]);
    let mut d = Ctx::from_env(&env(), None);
    d.under_herdr = true;
    d.pane_id = some("w1:p1");
    let p = d.pane_info("w1:p1", |cmd: &Command| {
        asked.borrow_mut().push(spoken(cmd));
        Ok("{\"pane\":{\"agent\":\"x\"}}".to_string())
    });
    assert_eq!(p.ok().unwrap().text_at("agent").as_deref(), Some("x"));
    assert_eq!(*asked.borrow(), vec!["herdr pane get w1:p1"]);
}

#[test]
fn where_an_item_comes_from() {
    let mut e = env();
    e.ferry_agent = some("goose");
    let mut c = Ctx::from_env(&e, None);
    let gone = |_: &Command| refused();
    let s = c.source(&e, gone);
    assert_eq!((s.pane_id, s.workspace_id), (None, None));
    assert_eq!(s.agent.as_deref(), Some("goose"));
    assert_eq!(s.cwd.as_deref(), Some("/cwd"));
    c.pane_id = some("w1:p3");
    c.context.focused_pane_agent = some("aider");
    let s = c.source(&e, gone);
    assert_eq!(s.workspace_id.as_deref(), Some("w1"));
    assert_eq!(s.agent.as_deref(), Some("aider"));
    c.workspace_id = some("w7");
    assert_eq!(c.source(&e, gone).workspace_id.as_deref(), Some("w7"));
    c.workspace_id = None;
    c.pane_id = some("p3");
    assert_eq!(c.source(&e, gone).workspace_id.as_deref(), Some("p3"));
}

#[test]
fn what_herdr_is_told() {
    let c = Ctx::from_env(&env(), None);
    assert_eq!(
        spoken(&c.pane_read("p", 300)),
        "herdr pane read p --source recent-unwrapped --lines 300"
    );
    assert_eq!(c.send_text("p", "/a b").args, vec!["pane", "send-text", "p", "/a b"]);
    assert_eq!(
        spoken(&c.report_token("w1", 2)),
        "herdr workspace report-metadata w1 --source ferry --token ferry=2"
    );
    assert_eq!(
        spoken(&c.report_token("w1", 0)),
        "herdr workspace report-metadata w1 --source ferry --clear-token ferry"
    );
    assert!(c.server_alive(|_: &Command| Ok(String::new())));
    assert!(!c.server_alive(|_: &Command| refused()));
    assert!(c.herdr_json(&vec!["a"], |_: &Command| Ok("1".to_string())).is_ok());
    assert_eq!(spoken(&c.herdr(&vec!["plugin", "list"])), "herdr plugin list");
}

#[test]
fn opening_the_picker() {
    let mut e = env();
    let mut c = Ctx::from_env(&e, None);
    assert_eq!(
        c.open_picker(&e, "/b").args,
        vec![
            "plugin", "pane", "open", "--plugin", "herdr-ferry", "--entrypoint", "picker",
            "--focus", "--env", "FERRY_CWD=/b"
        ]
    );
    c.workspace_id = some("w1");
    c.pane_id = some("w1:p1");
    c.context.focused_pane_agent = some("aider");
    e.ferry_selected = some("  a.png \nb.png");
    assert_eq!(
        c.open_picker(&e, "/b").args[8..],
        [
            "--workspace",
            "w1",
            "--env",
            "FERRY_PANE_ID=w1:p1",
            "--env",
            "FERRY_WORKSPACE_ID=w1",
            "--env",
            "FERRY_CWD=/b",
            "--env",
            "FERRY_AGENT=aider",
            "--env",
            "FERRY_SELECTED=a.png"
        ]
    );
    assert_eq!(c.selected_text(&e).as_deref(), Some("  a.png \nb.png"));
    e.ferry_selected = some(" \n ");
    assert_eq!(c.selected_text(&e), None);
    c.context.selected_text = some("");
    e.ferry_selected = some("x");
    assert_eq!(c.selected_text(&e), None);
}

#[test]
fn workspaces_are_listed() {
    let list = "{\"result\":{\"workspaces\":[{\"workspace_id\":\"w1\"},{\"x\":1},{\"workspace_id\":\"w2\"}]}}";
    assert_eq!(listed_workspaces(Ok(list.to_string())).ok().unwrap(), vec!["w1", "w2"]);
    let told = parse("{\"workspaces\":[{\"workspace_id\":\"b\"},{},{\"workspace_id\":\"a\"}]}").ok().unwrap();
    assert_eq!(workspaces_of(&told), vec!["b", "a"]);
    assert!(workspaces_of(&parse("[]").ok().unwrap()).is_empty());
    assert!(listed_workspaces(Ok("{}".to_string())).ok().unwrap().is_empty());
    assert_eq!(message(listed_workspaces(Ok("x".to_string()))), "herdr workspace list did not return JSON: expected value at line 1 column 1");
    let c = Ctx::from_env(&env(), None);
    assert_eq!(c.workspace_ids(|_: &Command| Ok(list.to_string())).ok().unwrap().len(), 2);
    assert_eq!(message(c.workspace_ids(|_: &Command| refused())), "spawn herdr: gone");
}

fn item(ws: Option<&str>, state: ItemState) -> Item {
    let src = Source { pane_id: None, workspace_id: ws.map(|w| w.to_string()), agent: None, cwd: None };
    let mut it = Item::made("1".to_string(), 0, Kind::File, "f", 1, "s", "m", None, src);
    it.state = state;
    it
}

#[test]
fn counts_beside_the_workspaces() {
    let c = Ctx::from_env(&env(), None);
    let items = vec![
        item(Some("w1"), ItemState::Queued),
        item(Some("w1"), ItemState::Claimed),
        item(Some("w1"), ItemState::Acked),
        item(Some("w2"), ItemState::Acked),
        item(Some("w2"), ItemState::Claimed),
        item(None, ItemState::Queued),
    ];
    let l = Listing { items, reverted: vec![] };
    let ws = vec!["w1".to_string(), "w2".to_string()];
    let said: Vec<String> = report_all_tokens(&l, &c, &ws).iter().map(spoken).collect();
    assert_eq!(
        said,
        vec![
            "herdr workspace report-metadata w1 --source ferry --token ferry=1",
            "herdr workspace report-metadata w2 --source ferry --clear-token ferry",
        ]
    );
    let done = Listing { items: vec![item(Some("w1"), ItemState::Acked)], reverted: vec![] };
    assert!(report_all_tokens(&done, &c, &ws).iter().all(|c| c.args[5] == "--clear-token"));
}

#[test]
fn paths_that_exist() {
    let there = |p: &str| p == "/b/x" || p == "/h/y";
    assert_eq!(path_exists_rel("/b", " x ", "/h", there).as_deref(), Some("/b/x"));
    assert_eq!(path_exists_rel("/b", "~/y", "/h", there).as_deref(), Some("/h/y"));
    assert_eq!(path_exists_rel("/b", "/h/y", "/h", there).as_deref(), Some("/h/y"));
    assert_eq!(path_exists_rel("/b", "z", "/h", there), None);
    assert_eq!(resolve("/b", "c/d", "/h"), "/b/c/d");
}

#[test]
fn a_pushed_file_is_received() {
    let s = State { root: "/s".to_string() };
    let r = inbox::receive(&s, "../evil/bug.png", "ab", 3, "file", None, some("n")).ok().unwrap();
    assert_eq!(r.item.name, "bug.png");
    assert_eq!((r.item.kind, r.item.mime.as_str(), r.item.size), (Kind::File, "image/png", 3));
    assert_eq!(r.item.state, ItemState::Acked);
    assert_eq!(r.item.note.as_deref(), Some("n"));
    assert_eq!(r.dir, format!("/s/inbox/{}", r.item.id));
    assert_eq!(r.dest, format!("/s/inbox/{}/bug.png", r.item.id));
    assert!(r.check_size(3).is_ok());
    assert_eq!(message(r.check_size(2)), "short read: expected 3 bytes, got 2");
    assert!(r.check_digest("ab").is_ok());
    assert_eq!(message(r.check_digest("AB")), "sha256 mismatch on receive");
    assert_eq!(r.unpacked(), None);
    assert_eq!(r.settle(true).name, "bug.png");
    let typed = inbox::receive(&s, "x", "ab", 3, "file", some("a/b"), None).ok().unwrap();
    assert_eq!(typed.item.mime, "a/b");
    assert_eq!(message(inbox::receive(&s, "..", "ab", 3, "file", None, None)), "bad name");
    assert_eq!(message(inbox::receive(&s, "", "ab", 3, "nope", None, None)), "bad name");
    assert_eq!(message(inbox::receive(&s, "x", "ab", 3, "nope", None, None)), "unknown kind nope");
}

#[test]
fn a_payload_spares_the_description_of_its_item() {
    let s = State { root: "/s".to_string() };
    for name in ["item.json", "item.json.tmp"] {
        let r = inbox::receive(&s, name, "ab", 3, "file", None, None).ok().unwrap();
        let files = s.write_item(false, &r.item);
        assert_eq!(r.item.name, name);
        assert_eq!(r.folder, format!("{}/payload", r.dir));
        assert_eq!(r.dest, format!("{}/payload/{name}", r.dir));
        assert!(r.dest != files.dest && r.dest != files.tmp);
        assert_eq!(s.inbox_payload(&r.item), r.dest);
        let dir = inbox::receive(&s, &format!("{name}.tar.gz"), "ab", 3, "dir", None, None);
        let dir = dir.ok().unwrap();
        assert_eq!(dir.dest, format!("{}/{name}.tar.gz", dir.dir));
        assert_eq!(dir.unpack_in().unwrap(), format!("{}/payload", dir.dir));
        assert_eq!(dir.unpacked().unwrap(), format!("{}/payload/{name}", dir.dir));
    }
    let plain = inbox::receive(&s, "Item.json", "ab", 3, "file", None, None).ok().unwrap();
    assert_eq!((plain.folder.clone(), plain.unpack_in()), (plain.dir.clone(), None));
}

#[test]
fn a_pushed_directory_is_unpacked() {
    let s = State { root: "/s".to_string() };
    let get = || inbox::receive(&s, "dist.tar.gz", "ab", 3, "dir", None, None).ok().unwrap();
    let r = get();
    assert_eq!(r.unpacked().unwrap(), format!("{}/dist", r.dir));
    assert_eq!(r.settle(true).name, "dist");
    assert_eq!(get().settle(false).name, "dist.tar.gz");
}

#[test]
fn pasting_inserts_text_only() {
    let s = State { root: "/s".to_string() };
    let items = vec![item(None, ItemState::Acked), {
        let mut it = item(None, ItemState::Acked);
        it.id = "2".to_string();
        it
    }];
    assert_eq!(inbox::pick(&s, None, None, &items).ok().unwrap().id, "2");
    assert_eq!(message(inbox::pick(&s, None, None, &vec![])), "inbox is empty");
    let named = inbox::pick(&s, Some("1"), Some(item(None, ItemState::Acked)), &items);
    assert_eq!(named.ok().unwrap().id, "1");
    assert_eq!(message(inbox::pick(&s, Some("9"), None, &items)), "no such item 9");
    let mut c = Ctx::from_env(&env(), None);
    c.pane_id = some("w1:p1");
    let (cmd, line) = inbox::paste(&s, &c, &items[1], |_: &Command| refused()).ok().unwrap();
    assert_eq!(cmd.args, vec!["pane", "send-text", "w1:p1", "/s/inbox/2/f"]);
    assert_eq!(line, "pasted /s/inbox/2/f into w1:p1");
    c.pane_id = None;
    assert_eq!(message(inbox::paste(&s, &c, &items[1], |_: &Command| refused())), "spawn herdr: gone");
}
