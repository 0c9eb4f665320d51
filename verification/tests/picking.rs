use std::cell::RefCell;

use herdr_ferry::fuzzy::{fuzzy, fuzzy_match};
use herdr_ferry::gather::{
    gather, glyph_for, make_cand, output_tokens, path_tokens, search_enters, selection_tokens,
    Cand, FileMeta, Found, Origin, RecentSearch, RECENT_DEPTH, RECENT_LIMIT, RECENT_MS, RECENT_OFFERED,
};
use herdr_ferry::picker::{
    action_for, list_lines, rank, row, row_with, sent_line, Action, App, Key, Mods, Outcome,
    NO_MATCHES,
};

const NOW: u64 = 1_724_800_000_000;

fn meta(size: u64, mtime_ms: u64, is_dir: bool) -> FileMeta {
    FileMeta { size, mtime_ms, is_file: !is_dir, is_dir }
}

fn found(path: &str) -> Found {
    Found { path: path.to_string(), meta: Some(meta(1, NOW, false)) }
}

fn cand(rel: &str, mtime_ms: u64) -> Cand {
    let p = format!("/b/{rel}");
    make_cand("/b", p, Origin::Modified, Some(meta(2048, mtime_ms, false))).unwrap()
}

fn nowhere(_: &str) -> Option<FileMeta> {
    None
}

fn app(rels: &[(&str, u64)]) -> App {
    let all = rels.iter().map(|(r, m)| cand(r, *m)).collect();
    let mut a = App::new(all, "/b".to_string());
    a.refilter("/h", nowhere);
    a
}

fn shown(a: &App) -> Vec<&str> {
    a.shown.iter().map(|&i| a.all[i].rel.as_str()).collect()
}

#[test]
fn fuzzy_scores() {
    assert_eq!(fuzzy("", "anything"), Some(0));
    assert_eq!(fuzzy("DASH", "out/dash.png"), Some(4));
    assert_eq!(fuzzy("png", "üdash.png"), Some(7));
    assert_eq!(fuzzy("dpg", "dash.png"), Some(105));
    assert_eq!(fuzzy("xyz", "dash.png"), None);
    assert_eq!(fuzzy("gpd", "dash.png"), None);
    assert_eq!(fuzzy("É", "café"), Some(3));
    assert_eq!(fuzzy_match("ac", "abc"), Some(101));
    assert_eq!(fuzzy_match("", "abc"), Some(0));
    assert_eq!(fuzzy_match("abcd", "abc"), None);
}

#[test]
fn fuzzy_agrees_with_a_plain_search() {
    let words = ["", "a", "ab", "ba", "aab", "abc", "cab", "xaybz", "ÄB", "äb", "aÄb", "ß"];
    for q in words {
        for s in words {
            let (ql, sl) = (q.to_lowercase(), s.to_lowercase());
            let expected = if q.is_empty() {
                Some(0)
            } else if let Some(i) = sl.find(&ql) {
                Some(i as u32)
            } else {
                let mut score = 100;
                let mut it = sl.chars();
                let mut hit = true;
                for c in ql.chars() {
                    loop {
                        match it.next() {
                            Some(x) if x == c => break,
                            Some(_) => score += 1,
                            None => {
                                hit = false;
                                break;
                            }
                        }
                    }
                }
                if hit { Some(score) } else { None }
            };
            assert_eq!(fuzzy(q, s), expected, "{q} {s}");
        }
    }
}

#[test]
fn signs_of_candidates() {
    assert_eq!(glyph_for(true, "x.zip", "image/png"), "▸");
    assert_eq!(glyph_for(false, "x", "image/gif"), "🖼");
    assert_eq!(glyph_for(false, "x", "application/pdf"), "📄");
    assert_eq!(glyph_for(false, "x.tgz", "a/b"), "📦");
    assert_eq!(glyph_for(false, "x.tar.gz", "a/b"), "📦");
    assert_eq!(glyph_for(false, "x.zip", "a/b"), "📦");
    assert_eq!(glyph_for(false, "x.txt", "text/plain"), " ");
    assert_eq!(cand("a.png", 0).glyph(), "🖼");
    assert_eq!(cand("a.pdf", 0).glyph(), "📄");
    assert_eq!(cand("a.zip", 0).glyph(), "📦");
    assert_eq!(cand("a.rs", 0).glyph(), " ");
}

#[test]
fn words_that_may_be_paths() {
    assert_eq!(selection_tokens(" 'a/b.txt', (c.rs)  [d]; "), vec!["a/b.txt", "c.rs", "d"]);
    assert!(selection_tokens(" \n").is_empty());
    let text = "Wrote ./out/dash.png, see ~/notes/a.md and report.pdf.\nhttps://x.io/a/b ab a.c (src/main.rs:10)";
    assert_eq!(
        output_tokens(text),
        vec!["./out/dash.png", "~/notes/a.md", "report.pdf", "/x.io/a/b", "a.c", "src/main.rs"]
    );
    assert!(output_tokens("nothing here").is_empty());
    let matches: Vec<String> =
        ["a.b.", "ab", "http/x", "äß", "ä", "x.y);:"].iter().map(|s| s.to_string()).collect();
    assert_eq!(path_tokens(&matches), vec!["a.b", "äß", "x.y"]);
}

#[test]
fn candidates_come_once_and_in_order() {
    let gone = Found { path: "/b/gone".to_string(), meta: None };
    let pipe = Found {
        path: "/b/pipe".to_string(),
        meta: Some(FileMeta { size: 0, mtime_ms: 0, is_file: false, is_dir: false }),
    };
    let all = gather(
        "/b",
        vec![found("/b/sel"), found("/b"), gone],
        vec![found("/b/one"), found("/b/sel"), pipe, found("/b/two")],
        vec![found("/b/./one"), found("/b/three"), found("/b/gone"), found("/elsewhere")],
    );
    let got: Vec<(&str, Origin)> = all.iter().map(|c| (c.rel.as_str(), c.origin)).collect();
    assert_eq!(
        got,
        vec![
            ("sel", Origin::Selected),
            ("two", Origin::Mentioned),
            ("one", Origin::Mentioned),
            ("three", Origin::Modified),
            ("/elsewhere", Origin::Modified),
        ]
    );
}

#[test]
fn candidates_carry_what_is_known() {
    let c = make_cand("/b", "/b/x/y".to_string(), Origin::Typed, Some(meta(7, 9, true))).unwrap();
    assert_eq!((c.path.as_str(), c.rel.as_str()), ("/b/x/y", "x/y"));
    assert_eq!((c.size, c.mtime_ms, c.is_dir, c.origin), (7, 9, true, Origin::Typed));
    assert!(make_cand("/b", "/b/x".to_string(), Origin::Typed, None).is_none());
}

#[test]
fn recently_modified_files() {
    for skipped in ["node_modules", "target", ".git"] {
        assert!(!search_enters(skipped));
    }
    assert!(search_enters("src"));
    assert_eq!(RecentSearch::new(5).cutoff_ms, 0);
    let mut s = RecentSearch::new(NOW);
    let cutoff = NOW - RECENT_MS;
    assert_eq!(s.cutoff_ms, cutoff);
    assert!(s.see("base".to_string(), 0, true, NOW));
    assert!(s.see("dir".to_string(), 1, false, NOW));
    assert!(s.see("old".to_string(), 1, true, cutoff - 1));
    assert!(s.see("b".to_string(), 1, true, cutoff));
    assert!(s.see("a".to_string(), 2, true, NOW));
    assert!(s.see("a2".to_string(), RECENT_DEPTH, true, NOW));
    assert_eq!(RECENT_DEPTH, 4);
    assert!(s.see("deep".to_string(), 5, true, NOW));
    assert_eq!(s.finish(), vec!["a", "a2", "b"]);
}

#[test]
fn the_search_for_recent_files_ends() {
    let mut s = RecentSearch::new(NOW);
    for i in 0..RECENT_LIMIT {
        assert!(s.see(format!("{i}"), 1, true, NOW));
    }
    assert!(!s.see("last".to_string(), 1, true, NOW + 1));
    let got = s.finish();
    assert_eq!(got.len(), RECENT_OFFERED);
    assert_eq!((got[0].as_str(), got[1].as_str()), ("last", "0"));
}

#[test]
fn ranking_by_score_and_age() {
    let all = vec![cand("a", 1), cand("b", 2), cand("c", 3), cand("d", 2)];
    assert_eq!(rank(&all, &vec![Some(5), Some(0), None, Some(0)]), vec![1, 3, 0]);
    assert_eq!(rank(&all, &vec![Some(0), Some(0), Some(0), Some(0)]), vec![2, 1, 3, 0]);
    assert!(rank(&all, &vec![None, None, None, None]).is_empty());
}

#[test]
fn the_latest_file_is_highlighted_at_first() {
    let a = app(&[("old.txt", 1), ("new.txt", 9), ("mid.txt", 5)]);
    assert_eq!(shown(&a), vec!["new.txt", "mid.txt", "old.txt"]);
    assert_eq!(a.current().unwrap().rel, "new.txt");
    assert_eq!(a.highlight(), Some(0));
    assert_eq!(a.targets(), vec!["/b/new.txt"]);
}

#[test]
fn keys_and_their_meaning() {
    assert_eq!(action_for(Key::Esc, Mods::ControlAndMore), Action::Cancel);
    assert_eq!(action_for(Key::Char('c'), Mods::Control), Action::Cancel);
    assert_eq!(action_for(Key::Char('c'), Mods::ControlAndMore), Action::Nothing);
    assert_eq!(action_for(Key::Char('c'), Mods::NoControl), Action::Type('c'));
    assert_eq!(action_for(Key::Char('p'), Mods::Control), Action::Up);
    assert_eq!(action_for(Key::Char('n'), Mods::Control), Action::Down);
    assert_eq!(action_for(Key::Char('u'), Mods::Control), Action::Clear);
    assert_eq!(action_for(Key::Char('x'), Mods::Control), Action::Nothing);
    assert_eq!(action_for(Key::Enter, Mods::NoControl), Action::Send);
    assert_eq!(action_for(Key::Tab, Mods::NoControl), Action::Toggle);
    assert_eq!(action_for(Key::Up, Mods::NoControl), Action::Up);
    assert_eq!(action_for(Key::Down, Mods::NoControl), Action::Down);
    assert_eq!(action_for(Key::Backspace, Mods::Control), Action::Erase);
    assert_eq!(action_for(Key::Other, Mods::NoControl), Action::Nothing);
}

#[test]
fn moving_the_highlight() {
    let mut a = app(&[("a", 3), ("b", 2), ("c", 1)]);
    for (act, at) in [
        (Action::Up, 0),
        (Action::Down, 1),
        (Action::Down, 2),
        (Action::Down, 2),
        (Action::Up, 1),
        (Action::Nothing, 1),
    ] {
        assert!(matches!(a.on_action(act, "/h", nowhere), Outcome::Stay));
        assert_eq!(a.cursor, at);
    }
    let mut none = app(&[]);
    assert!(matches!(none.on_action(Action::Down, "/h", nowhere), Outcome::Stay));
    assert_eq!((none.cursor, none.highlight()), (0, None));
    assert!(none.current().is_none());
    assert!(matches!(none.on_action(Action::Send, "/h", nowhere), Outcome::Stay));
    assert!(matches!(none.on_action(Action::Cancel, "/h", nowhere), Outcome::Cancel));
}

#[test]
fn typing_filters() {
    let mut a = app(&[("dash.png", 1), ("notes.md", 2), ("dist/d.js", 3)]);
    a.on_action(Action::Down, "/h", nowhere);
    for c in ['d', 'a'] {
        a.on_action(Action::Type(c), "/h", nowhere);
    }
    assert_eq!(a.query, "da");
    assert_eq!(shown(&a), vec!["dash.png"]);
    assert_eq!(a.cursor, 0);
    a.on_action(Action::Erase, "/h", nowhere);
    assert_eq!(shown(&a), vec!["dist/d.js", "dash.png", "notes.md"]);
    a.on_action(Action::Type('ü'), "/h", nowhere);
    assert!(a.shown.is_empty());
    a.on_action(Action::Erase, "/h", nowhere);
    assert_eq!(a.query, "d");
    a.on_action(Action::Clear, "/h", nowhere);
    assert_eq!((a.query.as_str(), a.shown.len()), ("", 3));
    a.on_action(Action::Erase, "/h", nowhere);
    assert_eq!(a.query, "");
}

#[test]
fn a_path_may_be_typed() {
    let asked = RefCell::new(vec![]);
    let look = |p: &str| {
        asked.borrow_mut().push(p.to_string());
        if p == "/h/z" { Some(meta(5, 7, false)) } else { None }
    };
    let mut a = app(&[("a", 1)]);
    a.query = " ~/z ".to_string();
    a.refilter("/h", look);
    assert_eq!(*asked.borrow(), vec!["/h/z"]);
    let c = a.current().unwrap();
    assert_eq!((c.path.as_str(), c.origin), ("/h/z", Origin::Typed));
    assert_eq!(a.targets(), vec!["/h/z"]);
    assert_eq!(a.rows(7)[0].tag, "typed");
    assert_eq!(a.highlight(), None);
    a.query = "zz".to_string();
    a.refilter("/h", look);
    assert!(a.typed.is_none() && a.targets().is_empty());
    a.query = "   ".to_string();
    let before = asked.borrow().len();
    a.refilter("/h", look);
    assert_eq!(asked.borrow().len(), before);
}

#[test]
fn choosing_several() {
    let mut a = app(&[("b", 3), ("a", 2), ("a/x", 1)]);
    a.on_action(Action::Toggle, "/h", nowhere);
    assert_eq!(a.cursor, 1);
    a.on_action(Action::Toggle, "/h", nowhere);
    a.on_action(Action::Toggle, "/h", nowhere);
    assert_eq!(a.cursor, 2);
    assert_eq!(a.targets(), vec!["/b/a", "/b/a/x", "/b/b"]);
    assert_eq!(a.help(), "Enter send 3 selected  Tab toggle  Esc cancel");
    a.on_action(Action::Toggle, "/h", nowhere);
    assert_eq!(a.targets(), vec!["/b/a", "/b/b"]);
    match a.on_action(Action::Send, "/h", nowhere) {
        Outcome::Send(paths) => assert_eq!(paths, vec!["/b/a", "/b/b"]),
        _ => panic!("two paths"),
    }
    a.on_action(Action::Toggle, "/h", nowhere);
    assert_eq!(a.targets(), vec!["/b/a", "/b/a/x", "/b/b"]);
}

#[test]
fn what_the_picker_shows() {
    let mut a = app(&[("x.pdf", NOW - 60_000), ("y", NOW - 5_000)]);
    assert_eq!(a.help(), "Enter send  Tab multi-select  ↑↓ move  Esc cancel");
    assert_eq!(a.header(), vec!["ferry ", "/b", "  › ", "", "▏"]);
    a.on_action(Action::Toggle, "/h", nowhere);
    let rows = a.rows(NOW);
    assert_eq!(rows.len(), 2);
    assert_eq!((rows[0].mark.as_str(), rows[0].rel.as_str()), ("●   ", "y"));
    assert_eq!((rows[0].info.as_str(), rows[0].tag.as_str()), ("  2.0K  5s  ", ""));
    assert_eq!(rows[1].mark, "  📄 ");
    assert_eq!(rows[1].info, "  2.0K  1m  ");
    let d = make_cand("/b", "/b/d".to_string(), Origin::Selected, Some(meta(1, NOW, true))).unwrap();
    let r = row(&d, false, NOW);
    assert_eq!((r.mark.as_str(), r.info.as_str(), r.tag.as_str()), ("  ▸ ", "  dir  0s  ", "selection"));
    assert_eq!(row_with(&d, true, "?", NOW).mark, "● ? ");
    assert_eq!(NO_MATCHES, "  no matches — type a path");
    assert_eq!(
        list_lines("/b", &vec![d, cand("f", NOW - 1000)], NOW),
        vec!["base: /b", "sel\td\tdir\t0s", "mtime\tf\t2.0K\t1s"]
    );
    assert_eq!(sent_line("/b/f", "ID"), "queued /b/f → ID");
    assert_eq!(Origin::Mentioned.tag(), "mentioned");
    assert_eq!((Origin::Mentioned.as_str(), Origin::Typed.as_str()), ("out", "typed"));
}
