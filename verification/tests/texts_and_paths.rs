use std::path::{Path, PathBuf};

use herdr_ferry::order::{sort, text_le};
use herdr_ferry::path::{
    components, file_name, is_absolute, join, path_eq, path_starts_with, skip_first,
    split_extension, strip_prefix, Component, PathKey,
};
use herdr_ferry::text;

const TEXTS: [&str; 30] = [
    "",
    " ",
    "a",
    "  a b  ",
    "\t x \n",
    "one\ntwo\n",
    "one\r\ntwo\r\n\r\nthree",
    "\n\n",
    "x\r",
    "\r\n",
    "\u{a0}nbsp\u{3000}",
    "\u{2003}em space\u{85}",
    "\u{200b}zero width",
    "aaa",
    "file://file:///etc",
    "name.tar.tar",
    "ab.tar.gz.tar.gz",
    "\"quoted\"",
    "'`mixed\"",
    "a,b;c:(d)",
    "Grüße, Jürgen",
    "ÀÉÎ",
    "ABC xyz",
    "😀 smile",
    "a:b:c",
    ":",
    "::",
    "no colon",
    "0",
    "\u{1c}separator",
];

const PATHS: [&str; 34] = [
    "",
    "/",
    "//",
    ".",
    "..",
    "./",
    "../",
    "a",
    "a/",
    "/a",
    "/a/b",
    "a/b/c",
    "a//b",
    "a/./b",
    "./a",
    "a/.",
    "a/..",
    "/..",
    "/a/../b",
    "~",
    "~/x",
    "~user/x",
    ".hidden",
    "x.tar.gz",
    "dir/x.tar.gz",
    "noext",
    "trailing.",
    "..double",
    "...",
    "a.b.c",
    "/home/u/.ssh/config",
    "/home/u",
    "/home/user",
    "ü/ß",
];

#[test]
fn trimming_agrees_with_std() {
    for s in TEXTS {
        assert_eq!(text::trim(s), s.trim());
        assert_eq!(text::trim_end(s), s.trim_end());
        assert_eq!(text::trim_matches(s, "\"'`"), s.trim_matches(|c| "\"'`".contains(c)));
        assert_eq!(text::trim_end_of(s, ".,;:)"), s.trim_end_matches(|c| ".,;:)".contains(c)));
        assert_eq!(text::trim_start_matches(s, "file://"), s.trim_start_matches("file://"));
        assert_eq!(text::trim_end_matches(s, ".tar"), s.trim_end_matches(".tar"));
        assert_eq!(text::trim_end_matches(s, ".tar.gz"), s.trim_end_matches(".tar.gz"));
    }
}

#[test]
fn splitting_agrees_with_std() {
    for s in TEXTS {
        assert_eq!(text::lines(s), s.lines().collect::<Vec<&str>>());
        assert_eq!(text::first_line(s), s.lines().next().unwrap_or(""));
        assert_eq!(text::split_whitespace(s), s.split_whitespace().collect::<Vec<&str>>());
        assert_eq!(text::split_at_char(s, ':'), s.split(':').collect::<Vec<&str>>());
    }
}

#[test]
fn searching_agrees_with_std() {
    for s in TEXTS {
        for p in TEXTS {
            assert_eq!(text::contains(s, p), s.contains(p));
            assert_eq!(text::starts_with(s, p), s.starts_with(p));
            assert_eq!(text::ends_with(s, p), s.ends_with(p));
            assert_eq!(text::str_eq(s, p), s == p);
            assert_eq!(text_le(s, p), s <= p);
        }
        assert_eq!(text::to_ascii_lowercase(s), s.to_ascii_lowercase());
        assert_eq!(text::replace(s, 'a', "<>"), s.replace('a', "<>"));
        for c in s.chars() {
            assert_eq!(text::is_whitespace(c), c.is_whitespace());
        }
    }
}

#[test]
fn every_white_space_is_known() {
    for n in 0..0x11_0000u32 {
        if let Some(c) = char::from_u32(n) {
            assert_eq!(text::is_whitespace(c), c.is_whitespace(), "{n:x}");
        }
    }
}

#[test]
fn numbers_and_padding() {
    for n in [0u64, 7, 10, 99, 100, 12345, u64::MAX] {
        assert_eq!(text::decimal(n), n.to_string());
    }
    for n in [0i32, -1, 1, i32::MAX, i32::MIN] {
        assert_eq!(text::decimal_signed(n), n.to_string());
    }
    assert_eq!(text::pad_right("ab", 4), "ab  ");
    assert_eq!(text::pad_right("abcde", 4), "abcde");
    assert_eq!(text::pad_left("ü", 3), "  ü");
    assert_eq!(text::join(&vec!["a".to_string(), "b".to_string()], ", "), "a, b");
    assert_eq!(text::join(&vec![], ", "), "");
}

fn spelled(c: &Component) -> String {
    match c {
        Component::Root => "/".to_string(),
        Component::Current => ".".to_string(),
        Component::Parent => "..".to_string(),
        Component::Normal(s) => format!("N{s}"),
    }
}

fn spelled_std(c: std::path::Component<'_>) -> String {
    match c {
        std::path::Component::RootDir => "/".to_string(),
        std::path::Component::CurDir => ".".to_string(),
        std::path::Component::ParentDir => "..".to_string(),
        std::path::Component::Normal(s) => format!("N{}", s.to_str().unwrap()),
        std::path::Component::Prefix(_) => unreachable!(),
    }
}

#[test]
fn path_parts_agree_with_std() {
    for p in PATHS {
        let q = Path::new(p);
        let ours: Vec<String> = components(p).iter().map(spelled).collect();
        let theirs: Vec<String> = q.components().map(spelled_std).collect();
        assert_eq!(ours, theirs, "{p}");
        assert_eq!(is_absolute(p), q.is_absolute());
        assert_eq!(file_name(p), q.file_name().map(|n| n.to_str().unwrap().to_string()), "{p}");
        if let Some(n) = file_name(p) {
            let (stem, ext) = split_extension(&n);
            assert_eq!(stem, q.file_stem().unwrap().to_str().unwrap(), "{p}");
            let theirs = q.extension().map(|e| format!(".{}", e.to_str().unwrap()));
            assert_eq!(ext, theirs.unwrap_or_default(), "{p}");
        }
        let rest: PathBuf = q.components().skip(1).collect();
        assert_eq!(skip_first(p), rest.to_str().unwrap(), "{p}");
    }
}

#[test]
fn path_pairs_agree_with_std() {
    for p in PATHS {
        for b in PATHS {
            let (q, c) = (Path::new(p), Path::new(b));
            assert_eq!(join(b, p), c.join(q).to_str().unwrap(), "{b} {p}");
            assert_eq!(path_eq(p, b), q == c, "{p} {b}");
            assert_eq!(path_starts_with(p, b), q.starts_with(c), "{p} {b}");
            let theirs = q.strip_prefix(c).ok().map(|r| r.to_str().unwrap().to_string());
            assert_eq!(strip_prefix(p, b), theirs, "{p} {b}");
        }
    }
}

#[test]
fn paths_sort_as_in_std() {
    let ours: Vec<String> =
        sort(PATHS.iter().map(|p| PathKey { path: p.to_string() }).collect::<Vec<PathKey>>())
            .into_iter()
            .map(|k| k.path)
            .collect();
    let mut theirs: Vec<PathBuf> = PATHS.iter().map(PathBuf::from).collect();
    theirs.sort();
    let theirs: Vec<String> = theirs.into_iter().map(|p| p.to_str().unwrap().to_string()).collect();
    assert_eq!(ours, theirs);
}

#[test]
fn joining_a_name_stays_under_the_directory() {
    for base in ["/a", "/a/", "b", "./c"] {
        let full = join(base, "name.txt");
        assert!(path_starts_with(&full, base));
        assert_eq!(components(&full).len(), components(base).len() + 1);
        assert_eq!(file_name(&full), Some("name.txt".to_string()));
    }
    assert_eq!(join("/a", "/etc/passwd"), "/etc/passwd");
}
