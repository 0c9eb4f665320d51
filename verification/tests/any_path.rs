use herdr_ferry::path::{file_name, join};
use herdr_ferry::raw::{decode, encode, show, Chunk};

fn text_of(bytes: &[u8]) -> String {
    let chunks = bytes
        .utf8_chunks()
        .map(|c| Chunk { valid: c.valid().to_string(), invalid: c.invalid().to_vec() })
        .collect();
    encode(&chunks)
}

#[test]
fn every_path_comes_back() {
    let paths: Vec<&[u8]> = vec![
        b"",
        b"/home/u/a.png",
        "/home/\u{e9}/\u{1f600}.txt".as_bytes(),
        b"/home/\xff\xfe/a",
        b"\xe2\x82",
        b"a\xe2\x82b\xf0\x9f\x98",
        b"\xc3\xa9\xe9",
        b"/x/\x80\x80\x80",
    ];
    for p in paths {
        assert_eq!(decode(&text_of(p)), p);
        assert_eq!(show(&text_of(p)), String::from_utf8_lossy(p));
    }
}

#[test]
fn plain_paths_stand_for_themselves() {
    for p in ["", "/a/b", "\u{e9}t\u{e9}", "\u{fffd}", "a b\n"] {
        assert_eq!(text_of(p.as_bytes()), p);
        assert_eq!(show(p), p);
        assert_eq!(decode(p), p.as_bytes());
    }
}

#[test]
fn joined_paths_join_their_bytes() {
    let base = text_of(b"/s\xff");
    let p = join(&base, &text_of(b"n\xe9.txt"));
    assert_eq!(decode(&p), b"/s\xff/n\xe9.txt");
    assert_eq!(show(&p), "/s\u{fffd}/n\u{fffd}.txt");
    assert_eq!(decode(&file_name(&p).unwrap()), b"n\xe9.txt");
    assert_eq!(decode("a\0"), b"a\0");
    assert_eq!(decode("\0b"), b"\0b");
    assert_eq!(show("\0\0\u{80}"), "\u{fffd}");
}
