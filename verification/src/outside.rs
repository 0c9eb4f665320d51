//! Calls into other crates and into the parts of std that have no contract of their
//! own. Nothing in this file is proved: each item says what it takes for granted.

use vstd::prelude::*;

use crate::path;

verus! {

/// The SHA-256 digest of a message.
pub uninterp spec fn sha256_digest(message: Seq<u8>) -> Seq<u8>;

/// `Sha256::digest` of sha2: the digest of `b`, 32 bytes that depend on `b` alone.
#[verifier::external_body]
pub(crate) fn digest_bytes(b: &[u8]) -> (r: Vec<u8>)
    ensures
        r@ == sha256_digest(b@),
        r@.len() == 32,
{
    <sha2::Sha256 as sha2::Digest>::digest(b).to_vec()
}

/// The bytes that have gone into a SHA-256 hasher of sha2.
#[verifier::external_body]
pub struct HashedBytes {
    hasher: sha2::Sha256,
}

/// The bytes that a hasher has taken so far.
pub uninterp spec fn hashed_bytes(h: HashedBytes) -> Seq<u8>;

/// `Sha256::new` of sha2: a hasher that has taken nothing.
#[verifier::external_body]
pub(crate) fn hasher_new() -> (r: HashedBytes)
    ensures
        hashed_bytes(r) == Seq::<u8>::empty(),
{
    HashedBytes { hasher: <sha2::Sha256 as sha2::Digest>::new() }
}

/// `Sha256::update` of sha2: the hasher takes `b` behind what it has.
#[verifier::external_body]
pub(crate) fn hasher_update(h: &mut HashedBytes, b: &[u8])
    ensures
        hashed_bytes(*final(h)) == hashed_bytes(*old(h)) + b@,
{
    sha2::Digest::update(&mut h.hasher, b)
}

/// `Sha256::finalize` of sha2: the digest of what the hasher has taken.
#[verifier::external_body]
pub(crate) fn hasher_finalize(h: HashedBytes) -> (r: Vec<u8>)
    ensures
        r@ == sha256_digest(hashed_bytes(h)),
        r@.len() == 32,
{
    sha2::Digest::finalize(h.hasher).to_vec()
}

/// The lower-case hexadecimal digit of a number below sixteen.
pub open spec fn hex_digit(n: int) -> char {
    if n < 10 {
        ('0' as u32 + n) as char
    } else {
        ('a' as u32 + (n - 10)) as char
    }
}

/// Two hexadecimal digits for each byte, the upper half first.
pub open spec fn hex_text(b: Seq<u8>) -> Seq<char> {
    Seq::new(
        2 * b.len(),
        |i: int|
            if i % 2 == 0 {
                hex_digit(b[i / 2] as int / 16)
            } else {
                hex_digit(b[i / 2] as int % 16)
            },
    )
}

/// `hex::encode`: two lower-case digits for each byte.
#[verifier::external_body]
pub(crate) fn hex_encode(b: &Vec<u8>) -> (r: String)
    ensures
        r@ == hex_text(b@),
{
    hex::encode(b)
}

/// The media type that a file name stands for.
pub uninterp spec fn mime_of(name: Seq<char>) -> Seq<char>;

/// `mime_guess::from_path`, of whose guesses the first counts, written without
/// parameters: it depends on the name alone, and is the type of unknown bytes
/// where the name has no extension.
#[verifier::external_body]
pub(crate) fn guess_mime(name: &str) -> (r: String)
    ensures
        r@ == mime_of(name@),
        (match path::last_name(name@) {
            Some(n) => path::dotted_extension_of(n).len() == 0,
            None => true,
        }) ==> r@ == "application/octet-stream"@,
{
    mime_guess::from_path(name).first_or_octet_stream().essence_str().to_string()
}

/// Whether a character is a digit of Crockford's base 32.
pub open spec fn base32_digit(c: char) -> bool {
    ||| '0' <= c <= '9'
    ||| 'A' <= c <= 'Z' && c != 'I' && c != 'L' && c != 'O' && c != 'U'
}

/// Whether a text has the form of a ULID: 26 digits of base 32.
pub open spec fn ulid_text(s: Seq<char>) -> bool {
    s.len() == 26 && forall|i: int| 0 <= i < s.len() ==> base32_digit(s[i])
}

/// `Ulid::new` of ulid, written as text: 26 digits of base 32, drawn from the
/// clock and from chance, so that nothing ties two of them together.
#[verifier::external_body]
pub(crate) fn fresh_ulid() -> (r: String)
    ensures
        ulid_text(r@),
{
    ulid::Ulid::new().to_string()
}

/// The matches of a regular expression in a text, from left to right and without
/// overlap; none where the pattern is not a regular expression.
pub uninterp spec fn regex_matches(pattern: Seq<char>, text: Seq<char>) -> Option<Seq<Seq<char>>>;

/// `Regex::new` and `Regex::find_iter` of regex: the texts of all matches, which
/// depend on the pattern and the text alone.
#[verifier::external_body]
pub(crate) fn regex_find_all(pattern: &str, text: &str) -> (r: Option<Vec<String>>)
    ensures
        match r {
            Some(v) => regex_matches(pattern@, text@) == Some(crate::text::texts(v@)),
            None => regex_matches(pattern@, text@) is None,
        },
{
    let re = regex::Regex::new(pattern).ok()?;
    Some(re.find_iter(text).map(|m| m.as_str().to_string()).collect())
}

/// A text in lower case, by Unicode.
pub uninterp spec fn lowercase(s: Seq<char>) -> Seq<char>;

/// `str::to_lowercase` of std, which depends on the text alone.
#[verifier::external_body]
pub(crate) fn to_lowercase(s: &str) -> (r: String)
    ensures
        r@ == lowercase(s@),
{
    s.to_lowercase()
}

/// A reading of the system clock.
#[verifier::external_type_specification]
#[verifier::external_body]
pub struct ExSystemTime(std::time::SystemTime);

/// `SystemTime::now` of std. Nothing is promised of the reading.
#[verifier::external_body]
pub(crate) fn clock_now() -> (r: std::time::SystemTime) {
    std::time::SystemTime::now()
}

/// `SystemTime::duration_since` of std, from the start of the Unix era: nothing for
/// a reading before it. Nothing else is promised.
#[verifier::external_body]
pub(crate) fn since_epoch(t: std::time::SystemTime) -> (r: Option<std::time::Duration>) {
    t.duration_since(std::time::UNIX_EPOCH).ok()
}

/// `Duration::as_millis` of std. Nothing is promised of the number.
#[verifier::external_body]
pub(crate) fn whole_millis(d: std::time::Duration) -> (r: u128) {
    d.as_millis()
}

} // verus!
