use std::cell::RefCell;

use herdr_ferry::command::{Command, Outcome};
use herdr_ferry::error::Error;
use herdr_ferry::util::{
    age_at, denied_reason, expand_tilde, human_age, human_size, is_image_mime, millis_or_zero,
    mime_for, now_ms, os_is_macos, run, sh_quote, sha256_bytes, unique_dest, which, Sha256Stream,
};

fn size_by_floats(n: u64) -> String {
    let units = ["B", "K", "M", "G", "T"];
    let mut v = n as f64;
    let mut i = 0;
    while v >= 1024.0 && i < units.len() - 1 {
        v /= 1024.0;
        i += 1;
    }
    if i == 0 {
        format!("{n}B")
    } else {
        format!("{v:.1}{}", units[i])
    }
}

#[test]
fn sizes_in_words() {
    assert_eq!(human_size(0), "0B");
    assert_eq!(human_size(1023), "1023B");
    assert_eq!(human_size(1024), "1.0K");
    assert_eq!(human_size(1280), "1.2K");
    assert_eq!(human_size(1792), "1.8K");
    assert_eq!(human_size(48213), "47.1K");
    assert_eq!(human_size(2147483648), "2.0G");
    assert_eq!(human_size(u64::MAX), "16777216.0T");
}

#[test]
fn sizes_agree_with_floating_point() {
    for n in 0..70000u64 {
        assert_eq!(human_size(n), size_by_floats(n));
    }
    let mut x: u64 = 0x9e37_79b9_7f4a_7c15;
    for _ in 0..20000 {
        x ^= x << 13;
        x ^= x >> 7;
        x ^= x << 17;
        for shift in [0, 8, 20, 33, 45] {
            let n = x >> shift;
            assert_eq!(human_size(n), size_by_floats(n), "{n}");
        }
    }
    for k in 0..64u32 {
        let p = 1u64 << k;
        for n in [p - 1, p, p.saturating_add(1), p | (p >> 1)] {
            assert_eq!(human_size(n), size_by_floats(n), "{n}");
        }
    }
}

#[test]
fn ages_in_words() {
    let now = 1_000_000_000;
    assert_eq!(age_at(now, now), "0s");
    assert_eq!(age_at(now, now + 5000), "0s");
    assert_eq!(age_at(now, now - 59_999), "59s");
    assert_eq!(age_at(now, now - 60_000), "1m");
    assert_eq!(age_at(now, now - 3_599_999), "59m");
    assert_eq!(age_at(now, now - 3_600_000), "1h");
    assert_eq!(age_at(now, now - 86_399_999), "23h");
    assert_eq!(age_at(now, now - 86_400_000), "1d");
    assert_eq!(human_age(0), age_at(now_ms(), 0));
}

#[test]
fn clock_readings() {
    assert_eq!(millis_or_zero(None), 0);
    assert_eq!(millis_or_zero(Some(17)), 17);
    assert_eq!(millis_or_zero(Some((1u128 << 64) + 3)), 3);
    // some time after this was written
    assert!(now_ms() > 1_600_000_000_000);
}

#[test]
fn digests() {
    assert_eq!(
        sha256_bytes(b"abc"),
        "ba7816bf8f01cfea414140de5dae2223b00361a396177a9cb410ff61f20015ad"
    );
    assert_eq!(
        sha256_bytes(b""),
        "e3b0c44298fc1c149afbf4c8996fb92427ae41e4649b934ca495991b7852b855"
    );
    let mut s = Sha256Stream::new();
    s.update(b"a");
    s.update(b"");
    s.update(b"bc");
    assert_eq!(s.finish(), sha256_bytes(b"abc"));
    assert_eq!(Sha256Stream::new().finish(), sha256_bytes(b""));
}

#[test]
fn tilde_is_the_home_directory() {
    assert_eq!(expand_tilde("~", "/home/u"), "/home/u/");
    assert_eq!(expand_tilde("~/a/b", "/home/u"), "/home/u/a/b");
    assert_eq!(expand_tilde("~user", "/home/u"), "~user");
    assert_eq!(expand_tilde("/a/~", "/home/u"), "/a/~");
    assert_eq!(expand_tilde("", "/home/u"), "");
    for p in ["~", "~/", "~/x", "~/./x", "~/x/", "x/~", "~x"] {
        let q = std::path::Path::new(p);
        let theirs = match q.strip_prefix("~") {
            Ok(rest) => std::path::Path::new("/h").join(rest),
            Err(_) => q.to_path_buf(),
        };
        assert_eq!(expand_tilde(p, "/h"), theirs.to_str().unwrap(), "{p}");
    }
}

#[test]
fn secrets_are_denied() {
    assert_eq!(denied_reason(".env"), Some(".env*"));
    assert_eq!(denied_reason(".env.local"), Some(".env*"));
    assert_eq!(denied_reason("server.pem"), Some("*.pem"));
    assert_eq!(denied_reason("id_rsa"), Some("id_* (ssh key)"));
    assert_eq!(denied_reason("id_ed25519.pub"), Some("id_* (ssh key)"));
    assert_eq!(denied_reason("tls.key"), Some("*.key"));
    assert_eq!(denied_reason(".netrc"), Some(".netrc"));
    assert_eq!(denied_reason("aws-credentials.json"), Some("*credentials*"));
    assert_eq!(denied_reason("report.pdf"), None);
    assert_eq!(denied_reason("my.env"), None);
    assert_eq!(denied_reason("netrc"), None);
}

#[test]
fn secrets_are_denied_in_any_case() {
    assert_eq!(denied_reason(".ENV"), Some(".env*"));
    assert_eq!(denied_reason("Server.PEM"), Some("*.pem"));
    assert_eq!(denied_reason("ID_RSA"), Some("id_* (ssh key)"));
    assert_eq!(denied_reason("Credentials"), Some("*credentials*"));
}

#[test]
fn quoting_for_the_shell() {
    assert_eq!(sh_quote("plain-name_1.2/3:4=5@6%7+8,9"), "plain-name_1.2/3:4=5@6%7+8,9");
    assert_eq!(sh_quote(""), "''");
    assert_eq!(sh_quote("two words"), "'two words'");
    assert_eq!(sh_quote("it's"), "'it'\\''s'");
    assert_eq!(sh_quote("$HOME"), "'$HOME'");
    assert_eq!(sh_quote("ü"), "'ü'");
}

#[test]
fn looking_for_a_program() {
    let c = which("wl-copy");
    assert_eq!(c.program, "sh");
    assert_eq!(c.args, vec!["-c", "command -v wl-copy >/dev/null 2>&1"]);
    assert_eq!(which("a b").args[1], "command -v 'a b' >/dev/null 2>&1");
}

#[test]
fn outcome_of_a_command() {
    let c = Command { program: "ssh".to_string(), args: vec!["-G".to_string(), "a".to_string()] };
    let good = Outcome {
        success: true,
        status: "exit status: 0".to_string(),
        stdout: "  out \n\n".to_string(),
        stderr: "noise".to_string(),
    };
    assert!(matches!(run(&c, &good), Ok(s) if s == "  out"));
    let bad = Outcome {
        success: false,
        status: "exit status: 255".to_string(),
        stdout: String::new(),
        stderr: "  no route \n".to_string(),
    };
    match run(&c, &bad) {
        Err(e) => {
            assert!(matches!(&e, Error::CommandFailed { .. }));
            assert_eq!(e.message(), "ssh -G a failed (exit status: 255): no route");
        }
        Ok(_) => panic!("a failure"),
    }
}

#[test]
fn media_types() {
    assert_eq!(mime_for("shot.png"), "image/png");
    assert_eq!(mime_for("SHOT.PNG"), "image/png");
    assert_eq!(mime_for("report.pdf"), "application/pdf");
    assert_eq!(mime_for("page.html"), "text/html");
    assert_eq!(mime_for("Makefile"), "application/octet-stream");
    assert_eq!(mime_for(".hidden"), "application/octet-stream");
    assert_eq!(mime_for("x.unheard-of"), "application/octet-stream");
    assert!(is_image_mime("image/png"));
    assert!(!is_image_mime("imagepng"));
    assert!(!is_image_mime("text/plain"));
}

#[test]
fn operating_systems() {
    assert!(os_is_macos("macos"));
    assert!(!os_is_macos("linux"));
}

#[test]
fn collisions_get_a_number() {
    let none = |_: &str| false;
    assert_eq!(unique_dest("/d", "a.txt", none).unwrap(), "/d/a.txt");
    let taken = |p: &str| ["/d/a.txt", "/d/a-2.txt"].contains(&p);
    assert_eq!(unique_dest("/d", "a.txt", taken).unwrap(), "/d/a-3.txt");
    let one = |p: &str| !p.contains("-2");
    assert_eq!(unique_dest("/d", "x.tar.gz", one).unwrap(), "/d/x-2.tar.gz");
    assert_eq!(unique_dest("/d", "x.tar.tar.gz", one).unwrap(), "/d/x-2.tar.gz");
    assert_eq!(unique_dest("/d", "x.gz", one).unwrap(), "/d/x-2.gz");
    assert_eq!(unique_dest("/d", "noext", one).unwrap(), "/d/noext-2");
    assert_eq!(unique_dest("/d", ".hidden", one).unwrap(), "/d/.hidden-2");
    assert_eq!(unique_dest("/d", "a.b.c", one).unwrap(), "/d/a.b-2.c");
    assert_eq!(unique_dest("/d", "..", one).unwrap(), "/d/..-2");
}

#[test]
fn a_taken_place_is_never_used() {
    let asked: RefCell<Vec<String>> = RefCell::new(Vec::new());
    let taken = |p: &str| {
        asked.borrow_mut().push(p.to_string());
        asked.borrow().len() < 12
    };
    let d = unique_dest("/d", "f", taken).unwrap();
    assert_eq!(d, "/d/f-12");
    assert_eq!(asked.borrow().last().unwrap(), "/d/f-12");
}
