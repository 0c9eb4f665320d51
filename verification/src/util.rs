//! Sizes and ages in words, quoting for the shell, the deny-list of secrets, digests,
//! and where a received file goes.

use vstd::prelude::*;

use crate::command::{copy_texts, Command, Outcome};
use crate::error::Error;
use crate::outside::{self, HashedBytes};
use crate::path;
use crate::text::{self, chars_of, str_eq};

verus! {

/// The number of milliseconds that a span reported by the clock stands for, and zero
/// where the clock stands before the start of the era. The number is cut to 64 bits.
pub fn millis_or_zero(span: Option<u128>) -> (r: u64)
    ensures
        match span {
            Some(ms) => r == ms as u64,
            None => r == 0,
        },
{
    match span {
        Some(ms) => #[verifier::truncate]
        (ms as u64),
        None => 0,
    }
}

/// Milliseconds since the start of the Unix era, as the system clock has it. Nothing
/// is promised of the number.
pub fn now_ms() -> (r: u64) {
    let span = match outside::since_epoch(outside::clock_now()) {
        Some(d) => Some(outside::whole_millis(d)),
        None => None,
    };
    millis_or_zero(span)
}

/// The SHA-256 digest of a message, in hexadecimal.
pub open spec fn sha256_hex(message: Seq<u8>) -> Seq<char> {
    outside::hex_text(outside::sha256_digest(message))
}

/// The SHA-256 digest of `b`, in hexadecimal.
pub fn sha256_bytes(b: &[u8]) -> (r: String)
    ensures
        r@ == sha256_hex(b@),
        r@.len() == 64,
{
    let d = outside::digest_bytes(b);
    outside::hex_encode(&d)
}

/// The SHA-256 digest of a message that comes piece by piece.
pub struct Sha256Stream {
    taken: HashedBytes,
}

impl View for Sha256Stream {
    type V = Seq<u8>;

    closed spec fn view(&self) -> Seq<u8> {
        outside::hashed_bytes(self.taken)
    }
}

impl Sha256Stream {
    /// A digest of nothing yet.
    pub fn new() -> (r: Sha256Stream)
        ensures
            r@ == Seq::<u8>::empty(),
    {
        Sha256Stream { taken: outside::hasher_new() }
    }

    /// Takes the next piece of the message.
    pub fn update(&mut self, piece: &[u8])
        ensures
            final(self)@ == old(self)@ + piece@,
    {
        outside::hasher_update(&mut self.taken, piece);
    }

    /// The digest of the whole message, in hexadecimal.
    pub fn finish(self) -> (r: String)
        ensures
            r@ == sha256_hex(self@),
            r@.len() == 64,
    {
        let d = outside::hasher_finalize(self.taken);
        outside::hex_encode(&d)
    }
}

/// `a / b`, rounded to the nearest whole number; of two that are equally near, the
/// even one.
pub open spec fn round_half_even(a: nat, b: nat) -> nat {
    let q = a / b;
    let r = a % b;
    if 2 * r > b || (2 * r == b && q % 2 == 1) {
        q + 1
    } else {
        q
    }
}

fn rounded_quotient(a: u128, b: u128) -> (r: u128)
    requires
        0 < b < 0x1_0000_0000_0000_0000,
        a < 0x1_0000_0000_0000_0000_0000_0000,
    ensures
        r == round_half_even(a as nat, b as nat),
        r <= a / b + 1,
{
    let q: u128 = a / b;
    let m: u128 = a % b;
    if 2 * m > b || (2 * m == b && q % 2 == 1) {
        proof {
            assert(q <= a) by (nonlinear_arith)
                requires
                    q == a / b,
                    b > 0,
            ;
        }
        q + 1
    } else {
        q
    }
}

/// The distance of the doubles around a number below 2^64.
pub open spec fn double_step(n: nat) -> nat
    decreases n,
{
    if n < 0x20_0000_0000_0000 {
        1
    } else {
        2 * double_step(n / 2)
    }
}

/// The double that is nearest to a whole number.
pub open spec fn as_double(n: nat) -> nat {
    round_half_even(n, double_step(n)) * double_step(n)
}

/// The unit in which a size is written: bytes, or 1024 bytes to the power given.
pub open spec fn size_unit(d: nat) -> nat {
    if d < 0x400 {
        0
    } else if d < 0x10_0000 {
        1
    } else if d < 0x4000_0000 {
        2
    } else if d < 0x100_0000_0000 {
        3
    } else {
        4
    }
}

/// How many bytes a unit has.
pub open spec fn unit_bytes(u: nat) -> nat {
    if u == 0 {
        1
    } else if u == 1 {
        0x400
    } else if u == 2 {
        0x10_0000
    } else if u == 3 {
        0x4000_0000
    } else {
        0x100_0000_0000
    }
}

/// The letter of a unit.
pub open spec fn unit_letter(u: nat) -> char {
    if u == 0 {
        'B'
    } else if u == 1 {
        'K'
    } else if u == 2 {
        'M'
    } else if u == 3 {
        'G'
    } else {
        'T'
    }
}

/// A size in words: whole bytes below 1024, otherwise the largest unit up to `T`, with
/// one decimal of the size as a double.
pub open spec fn size_text(n: nat) -> Seq<char> {
    let d = as_double(n);
    let u = size_unit(d);
    if u == 0 {
        text::dec(n).push('B')
    } else {
        let tenths = round_half_even(10 * d, unit_bytes(u));
        text::dec(tenths / 10).push('.').push(text::digit(tenths % 10)).push(unit_letter(u))
    }
}

fn step_of(n: u64) -> (r: u64)
    ensures
        r == double_step(n as nat),
        1 <= r < 0x1000,
        r == 1 || n >= r * 0x10_0000_0000_0000,
        n < r * 0x20_0000_0000_0000,
    decreases n,
{
    if n < 0x20_0000_0000_0000 {
        1
    } else {
        2 * step_of(n / 2)
    }
}

/// `n` bytes, in words.
pub fn human_size(n: u64) -> (r: String)
    ensures
        r@ == size_text(n as nat),
{
    let step: u64 = step_of(n);
    let q: u128 = rounded_quotient(n as u128, step as u128);
    proof {
        assert(n / step < 0x20_0000_0000_0000) by (nonlinear_arith)
            requires
                n < step * 0x20_0000_0000_0000,
                step > 0,
        ;
        assert(q * step <= 0x20_0000_0000_0000 * 0x1000) by (nonlinear_arith)
            requires
                q <= 0x20_0000_0000_0000,
                step < 0x1000,
        ;
        assert(round_half_even(n as nat, 1) == n);
    }
    let d: u128 = q * (step as u128);
    let mut out = String::new();
    if d < 0x400 {
        text::push_dec(&mut out, n);
        out.push('B');
        return out;
    }
    let unit: u128 = if d < 0x10_0000 {
        0x400
    } else if d < 0x4000_0000 {
        0x10_0000
    } else if d < 0x100_0000_0000 {
        0x4000_0000
    } else {
        0x100_0000_0000
    };
    let letter: char = if d < 0x10_0000 {
        'K'
    } else if d < 0x4000_0000 {
        'M'
    } else if d < 0x100_0000_0000 {
        'G'
    } else {
        'T'
    };
    let tenths: u128 = rounded_quotient(10 * d, unit);
    proof {
        let a = 10 * d;
        assert(a / (unit as int) <= a / 0x400) by (nonlinear_arith)
            requires
                unit >= 0x400,
                a >= 0,
        ;
    }
    text::push_dec(&mut out, (tenths / 10) as u64);
    out.push('.');
    text::push_dec(&mut out, (tenths % 10) as u64);
    out.push(letter);
    out
}

/// A span in words: the largest whole unit among seconds, minutes, hours and days.
pub open spec fn age_text(now: u64, then_ms: u64) -> Seq<char> {
    let s: nat = if now >= then_ms {
        ((now - then_ms) / 1000) as nat
    } else {
        0
    };
    if s < 60 {
        text::dec(s).push('s')
    } else if s < 3600 {
        text::dec(s / 60).push('m')
    } else if s < 86400 {
        text::dec(s / 3600).push('h')
    } else {
        text::dec(s / 86400).push('d')
    }
}

/// How long `unix_ms` lies before `now`, in words.
pub fn age_at(now: u64, unix_ms: u64) -> (r: String)
    ensures
        r@ == age_text(now, unix_ms),
{
    let s: u64 = now.saturating_sub(unix_ms) / 1000;
    let mut out = String::new();
    if s < 60 {
        text::push_dec(&mut out, s);
        out.push('s');
    } else if s < 3600 {
        text::push_dec(&mut out, s / 60);
        out.push('m');
    } else if s < 86400 {
        text::push_dec(&mut out, s / 3600);
        out.push('h');
    } else {
        text::push_dec(&mut out, s / 86400);
        out.push('d');
    }
    out
}

/// How long ago `unix_ms` is, in words, by the system clock.
pub fn human_age(unix_ms: u64) -> (r: String)
    ensures
        exists|now: u64| r@ == #[trigger] age_text(now, unix_ms),
{
    let now = now_ms();
    age_at(now, unix_ms)
}

/// `p` with the home directory in place of a `~` that it starts with.
pub open spec fn tilde_expanded(p: Seq<char>, home: Seq<char>) -> Seq<char> {
    match path::path_stripped(p, "~"@) {
        Some(rest) => path::path_joined(home, rest),
        None => p,
    }
}

/// Puts the home directory in place of a `~` that `p` starts with.
pub fn expand_tilde(p: &str, home: &str) -> (r: String)
    ensures
        r@ == tilde_expanded(p@, home@),
{
    match path::strip_prefix(p, "~") {
        Some(rest) => path::join(home, rest.as_str()),
        None => p.to_owned(),
    }
}

/// The rule of the deny-list that a file name falls under.
pub open spec fn deny_rule(name: Seq<char>) -> Option<Seq<char>> {
    let lower = text::ascii_lowered(name);
    if ".env"@.is_prefix_of(lower) {
        Some(".env*"@)
    } else if ".pem"@.is_suffix_of(lower) {
        Some("*.pem"@)
    } else if "id_"@.is_prefix_of(lower) {
        Some("id_* (ssh key)"@)
    } else if ".key"@.is_suffix_of(lower) {
        Some("*.key"@)
    } else if lower == ".netrc"@ {
        Some(".netrc"@)
    } else if text::occurs(lower, "credentials"@) {
        Some("*credentials*"@)
    } else {
        None
    }
}

/// The rule of the deny-list of secrets that `name` falls under, in upper or lower case.
pub fn denied_reason(name: &str) -> (r: Option<&'static str>)
    ensures
        text::str_option(r) == deny_rule(name@),
{
    let lower = text::to_ascii_lowercase(name);
    if text::starts_with(lower.as_str(), ".env") {
        return Some(".env*");
    }
    if text::ends_with(lower.as_str(), ".pem") {
        return Some("*.pem");
    }
    if text::starts_with(lower.as_str(), "id_") {
        return Some("id_* (ssh key)");
    }
    if text::ends_with(lower.as_str(), ".key") {
        return Some("*.key");
    }
    if str_eq(lower.as_str(), ".netrc") {
        return Some(".netrc");
    }
    if text::contains(lower.as_str(), "credentials") {
        return Some("*credentials*");
    }
    None
}

/// Upper and lower case count the same on the deny-list.
pub proof fn law_deny_ignores_case(a: Seq<char>, b: Seq<char>)
    requires
        text::ascii_lowered(a) == text::ascii_lowered(b),
    ensures
        deny_rule(a) == deny_rule(b),
{
}

/// Whether the shell takes a character for itself outside quotes.
pub open spec fn shell_plain(c: char) -> bool {
    ||| '0' <= c <= '9'
    ||| 'A' <= c <= 'Z'
    ||| 'a' <= c <= 'z'
    ||| c == '-'
    ||| c == '_'
    ||| c == '.'
    ||| c == '/'
    ||| c == ':'
    ||| c == '='
    ||| c == '@'
    ||| c == '%'
    ||| c == '+'
    ||| c == ','
}

/// A word for the shell: itself where it is not empty and every character is plain,
/// otherwise in single quotes, with `'\''` for a quote.
pub open spec fn shell_quoted(s: Seq<char>) -> Seq<char> {
    if s.len() > 0 && forall|i: int| 0 <= i < s.len() ==> shell_plain(s[i]) {
        s
    } else {
        seq!['\''] + text::replaced(s, '\'', seq!['\'', '\\', '\'', '\'']) + seq!['\'']
    }
}

fn is_shell_plain(c: char) -> (r: bool)
    ensures
        r == shell_plain(c),
{
    ('0' <= c && c <= '9') || ('A' <= c && c <= 'Z') || ('a' <= c && c <= 'z') || c == '-' || c
        == '_' || c == '.' || c == '/' || c == ':' || c == '=' || c == '@' || c == '%' || c == '+'
        || c == ','
}

/// Quotes `s` so that the shell reads it as one word.
pub fn sh_quote(s: &str) -> (r: String)
    ensures
        r@ == shell_quoted(s@),
{
    let cs = chars_of(s);
    let mut plain = cs.len() > 0;
    let mut i: usize = 0;
    while i < cs.len() && plain
        invariant
            cs@ == s@,
            i <= cs@.len(),
            plain ==> cs@.len() > 0 && forall|j: int| 0 <= j < i ==> shell_plain(s@[j]),
            !plain ==> cs@.len() == 0 || exists|j: int| 0 <= j < s@.len() && !shell_plain(s@[j]),
        decreases cs@.len() - i,
    {
        plain = is_shell_plain(cs[i]);
        i = i + 1;
    }
    if plain {
        return s.to_owned();
    }
    proof {
        reveal_strlit("'\\''");
        assert("'\\''"@ =~= seq!['\'', '\\', '\'', '\'']);
    }
    let inner = text::replace(s, '\'', "'\\''");
    let mut out = String::new();
    out.push('\'');
    proof {
        assert(out@ =~= seq!['\'']);
    }
    out.append(inner.as_str());
    out.push('\'');
    out
}

/// Where the shell stands in reading a line.
pub struct ShellReader {
    /// The words that are complete.
    pub words: Seq<Seq<char>>,
    /// The word that has been started.
    pub word: Option<Seq<char>>,
    /// Inside single quotes.
    pub quoted: bool,
    /// Behind a backslash.
    pub escaped: bool,
    /// A character with another meaning has been met.
    pub special: bool,
}

impl ShellReader {
    /// Before the line.
    pub open spec fn start() -> ShellReader {
        ShellReader {
            words: Seq::empty(),
            word: None,
            quoted: false,
            escaped: false,
            special: false,
        }
    }

    /// The word that has been started, or an empty one.
    pub open spec fn started(self) -> Seq<char> {
        match self.word {
            Some(w) => w,
            None => Seq::empty(),
        }
    }

    /// After one more character.
    pub open spec fn step(self, c: char) -> ShellReader {
        if self.quoted && c == '\'' {
            ShellReader { quoted: false, ..self }
        } else if self.quoted {
            ShellReader { word: Some(self.started().push(c)), ..self }
        } else if self.escaped {
            ShellReader { word: Some(self.started().push(c)), escaped: false, ..self }
        } else if c == '\'' {
            ShellReader { word: Some(self.started()), quoted: true, ..self }
        } else if c == '\\' {
            ShellReader { word: Some(self.started()), escaped: true, ..self }
        } else if c == ' ' {
            match self.word {
                Some(w) => ShellReader { words: self.words.push(w), word: None, ..self },
                None => self,
            }
        } else if shell_plain(c) {
            ShellReader { word: Some(self.started().push(c)), ..self }
        } else {
            ShellReader { special: true, ..self }
        }
    }

    /// After a text.
    pub open spec fn read(self, s: Seq<char>) -> ShellReader
        decreases s.len(),
    {
        if s.len() == 0 {
            self
        } else {
            self.read(s.drop_last()).step(s.last())
        }
    }
}

/// The words that the shell reads in a line; nothing where it ends inside a quote or
/// holds a character with another meaning.
pub open spec fn shell_words(line: Seq<char>) -> Option<Seq<Seq<char>>> {
    let end = ShellReader::start().read(line);
    if end.special || end.quoted || end.escaped {
        None
    } else {
        match end.word {
            Some(w) => Some(end.words.push(w)),
            None => Some(end.words),
        }
    }
}

proof fn lemma_read_append(st: ShellReader, a: Seq<char>, b: Seq<char>)
    ensures
        st.read(a + b) == st.read(a).read(b),
    decreases b.len(),
{
    if b.len() == 0 {
        assert(a + b =~= a);
    } else {
        lemma_read_append(st, a, b.drop_last());
        assert((a + b).drop_last() =~= a + b.drop_last());
    }
}

proof fn lemma_read_plain(st: ShellReader, s: Seq<char>)
    requires
        !st.quoted,
        !st.escaped,
        forall|i: int| 0 <= i < s.len() ==> shell_plain(s[i]),
    ensures
        s.len() > 0 ==> st.read(s) == (ShellReader { word: Some(st.started() + s), ..st }),
    decreases s.len(),
{
    if s.len() > 0 {
        let t = s.drop_last();
        assert forall|i: int| 0 <= i < t.len() implies shell_plain(t[i]) by {
            assert(t[i] == s[i]);
        }
        lemma_read_plain(st, t);
        assert(shell_plain(s[s.len() - 1]));
        if t.len() == 0 {
            assert(st.read(t) == st);
            assert(st.started().push(s.last()) =~= st.started() + s);
        } else {
            assert((st.started() + t).push(s.last()) =~= st.started() + s);
        }
    }
}

proof fn lemma_read_in_quotes(st: ShellReader, s: Seq<char>)
    requires
        st.quoted,
        !st.escaped,
        st.word is Some,
    ensures
        st.read(text::replaced(s, '\'', seq!['\'', '\\', '\'', '\''])) == (ShellReader {
            word: Some(st.started() + s),
            ..st
        }),
    decreases s.len(),
{
    let by = seq!['\'', '\\', '\'', '\''];
    if s.len() == 0 {
        assert(st.started() + s =~= st.started());
    } else {
        let t = s.drop_last();
        lemma_read_in_quotes(st, t);
        let front = text::replaced(t, '\'', by);
        let mid = st.read(front);
        assert((st.started() + t).push(s.last()) =~= st.started() + s);
        if s.last() == '\'' {
            lemma_read_append(st, front, by);
            assert(by.drop_last() =~= seq!['\'', '\\', '\'']);
            assert(by.drop_last().drop_last() =~= seq!['\'', '\\']);
            assert(by.drop_last().drop_last().drop_last() =~= seq!['\'']);
            assert(by.drop_last().drop_last().drop_last().drop_last() =~= Seq::<char>::empty());
            reveal_with_fuel(ShellReader::read, 5);
            assert(mid.read(by) == mid.step('\'').step('\\').step('\'').step('\''));
        } else {
            let one = seq![s.last()];
            lemma_read_append(st, front, one);
            assert(one.drop_last() =~= Seq::<char>::empty());
            reveal_with_fuel(ShellReader::read, 2);
            assert(mid.read(one) == mid.step(s.last()));
        }
    }
}

proof fn lemma_read_quoted(st: ShellReader, s: Seq<char>)
    requires
        !st.quoted,
        !st.escaped,
        st.word is None,
    ensures
        st.read(shell_quoted(s)) == (ShellReader { word: Some(s), ..st }),
{
    if s.len() > 0 && forall|i: int| 0 <= i < s.len() ==> shell_plain(s[i]) {
        lemma_read_plain(st, s);
        assert(Seq::<char>::empty() + s =~= s);
    } else {
        let q = seq!['\''];
        let inner = text::replaced(s, '\'', seq!['\'', '\\', '\'', '\'']);
        assert(q.drop_last() =~= Seq::<char>::empty());
        lemma_read_append(st, q + inner, q);
        lemma_read_append(st, q, inner);
        reveal_with_fuel(ShellReader::read, 2);
        let opened = st.read(q);
        assert(opened == st.step('\''));
        lemma_read_in_quotes(opened, s);
        assert(Seq::<char>::empty() + s =~= s);
        let full = opened.read(inner);
        assert(full.read(q) == full.step('\''));
    }
}

/// The shell reads a quoted text as one word, and that word is the text.
pub proof fn law_shell_reads_quoted(s: Seq<char>)
    ensures
        shell_words(shell_quoted(s)) == Some(seq![s]),
{
    lemma_read_quoted(ShellReader::start(), s);
    assert(Seq::<Seq<char>>::empty().push(s) =~= seq![s]);
}

/// Words for the shell, one after the other.
pub open spec fn shell_line(words: Seq<Seq<char>>) -> Seq<char> {
    text::joined(words.map_values(|w: Seq<char>| shell_quoted(w)), seq![' '])
}

proof fn lemma_read_line(words: Seq<Seq<char>>)
    requires
        words.len() > 0,
    ensures
        ShellReader::start().read(shell_line(words)) == (ShellReader {
            words: words.drop_last(),
            word: Some(words.last()),
            ..ShellReader::start()
        }),
    decreases words.len(),
{
    let quote = |w: Seq<char>| shell_quoted(w);
    let all = words.map_values(quote);
    let st = ShellReader::start();
    if words.len() == 1 {
        lemma_read_quoted(st, words[0]);
        assert(words.drop_last() =~= Seq::<Seq<char>>::empty());
        assert(all[0] == shell_quoted(words[0]));
    } else {
        let front = words.drop_last();
        lemma_read_line(front);
        assert(all.drop_last() =~= front.map_values(quote));
        assert(all.last() == shell_quoted(words.last()));
        let gap = seq![' '];
        let line = shell_line(front);
        lemma_read_append(st, line + gap, shell_quoted(words.last()));
        lemma_read_append(st, line, gap);
        assert(gap.drop_last() =~= Seq::<char>::empty());
        reveal_with_fuel(ShellReader::read, 2);
        let mid = st.read(line);
        assert(mid.read(gap) == mid.step(' '));
        assert(front.drop_last().push(front.last()) =~= front);
        lemma_read_quoted(mid.read(gap), words.last());
    }
}

/// The shell reads a line of quoted words as exactly those words.
pub proof fn law_shell_reads_line(words: Seq<Seq<char>>)
    requires
        words.len() > 0,
    ensures
        shell_words(shell_line(words)) == Some(words),
{
    lemma_read_line(words);
    assert(words.drop_last().push(words.last()) =~= words);
}

/// Whether the operating system of this name is macOS.
pub fn os_is_macos(os: &str) -> (r: bool)
    ensures
        r == (os@ == "macos"@),
{
    str_eq(os, "macos")
}

/// The shell command that finds out whether `bin` is a program.
pub fn which(bin: &str) -> (r: Command)
    ensures
        r.program@ == "sh"@,
        text::texts(r.args@) == seq![
            "-c"@,
            "command -v "@ + shell_quoted(bin@) + " >/dev/null 2>&1"@,
        ],
{
    let mut line = "command -v ".to_owned();
    let word = sh_quote(bin);
    line.append(word.as_str());
    line.append(" >/dev/null 2>&1");
    crate::command::command("sh", &vec!["-c", line.as_str()])
}

/// What a command that ran gives: its output without white space at the end where it
/// succeeded, otherwise an error that carries what it complained about.
pub fn run(cmd: &Command, out: &Outcome) -> (r: Result<String, Error>)
    ensures
        match r {
            Ok(s) => out.success && s@ == text::trimmed_end(out.stdout@),
            Err(Error::CommandFailed { program, args, status, stderr }) => {
                &&& !out.success
                &&& program@ == cmd.program@
                &&& args@ == cmd.args@
                &&& status@ == out.status@
                &&& stderr@ == text::trimmed(out.stderr@)
            },
            Err(_) => false,
        },
{
    if !out.success {
        return Err(
            Error::CommandFailed {
                program: cmd.program.clone(),
                args: copy_texts(&cmd.args),
                status: out.status.clone(),
                stderr: text::trim(out.stderr.as_str()),
            },
        );
    }
    Ok(text::trim_end(out.stdout.as_str()))
}

/// The media type that the name `name` stands for.
pub fn mime_for(name: &str) -> (r: String)
    ensures
        r@ == outside::mime_of(name@),
{
    outside::guess_mime(name)
}

/// Whether a media type is that of an image.
pub open spec fn image_mime(m: Seq<char>) -> bool {
    "image/"@.is_prefix_of(m)
}

/// Whether `m` is the media type of an image.
pub fn is_image_mime(m: &str) -> (r: bool)
    ensures
        r == image_mime(m@),
{
    text::starts_with(m, "image/")
}

/// A name cut in two, so that a number fits between: before its extension, where
/// `.tar.gz` is one extension.
pub open spec fn numbered_parts(name: Seq<char>) -> (Seq<char>, Seq<char>) {
    let (stem, ext) = match path::last_name(name) {
        Some(n) => (path::stem_of(n), path::dotted_extension_of(n)),
        None => (name, Seq::empty()),
    };
    if ".tar"@.is_suffix_of(stem) && ext == ".gz"@ {
        (text::without_tails(stem, ".tar"@), ".tar.gz"@)
    } else {
        (stem, ext)
    }
}

/// The `k`th place that is tried for a file: the name itself first, then with `-2`,
/// `-3` and so on before its extension.
pub open spec fn dest_candidate(dir: Seq<char>, name: Seq<char>, k: nat) -> Seq<char> {
    let (stem, ext) = numbered_parts(name);
    path::path_joined(
        dir,
        if k <= 1 {
            name
        } else {
            stem.push('-') + text::dec(k) + ext
        },
    )
}

/// Whether `f` has said `b` of a path.
pub open spec fn said<F: Fn(&str) -> bool>(f: F, p: Seq<char>, b: bool) -> bool {
    exists|s: &str| s@ == p && #[trigger] call_ensures(f, (s,), b)
}

/// Whether `taken` has said of every place for `name` in `dir`, the first among them, that
/// it is taken.
pub open spec fn all_taken<F: Fn(&str) -> bool>(dir: Seq<char>, name: Seq<char>, taken: F) -> bool {
    &&& said(taken, dest_candidate(dir, name, 1), true)
    &&& forall|j: nat|
        1 <= j <= i32::MAX ==> said(taken, #[trigger] dest_candidate(dir, name, j), true)
}

/// The first place for `name` in `dir` of which `taken` says that it is free.
/// Nothing is found where every number up to `i32::MAX` is taken.
pub fn unique_dest<F: Fn(&str) -> bool>(dir: &str, name: &str, taken: F) -> (r: Option<String>)
    requires
        forall|s: &str| call_requires(taken, (s,)),
    ensures
        match r {
            Some(d) => exists|k: nat|
                1 <= k <= i32::MAX && d@ == #[trigger] dest_candidate(dir@, name@, k) && said(
                    taken,
                    d@,
                    false,
                ) && forall|j: nat|
                    1 <= j < k ==> said(taken, #[trigger] dest_candidate(dir@, name@, j), true),
            None => all_taken(dir@, name@, taken),
        },
{
    let first = path::join(dir, name);
    if !taken(first.as_str()) {
        proof {
            assert(first@ == dest_candidate(dir@, name@, 1));
        }
        return Some(first);
    }
    proof {
        assert(said(taken, dest_candidate(dir@, name@, 1), true));
    }
    let (stem0, ext0) = match path::file_name(name) {
        Some(n) => path::split_extension(n.as_str()),
        None => (name.to_owned(), String::new()),
    };
    let (stem, ext) = if text::ends_with(stem0.as_str(), ".tar") && str_eq(ext0.as_str(), ".gz") {
        (text::trim_end_matches(stem0.as_str(), ".tar"), ".tar.gz".to_owned())
    } else {
        (stem0, ext0)
    };
    proof {
        assert((stem@, ext@) == numbered_parts(name@));
    }
    let mut i: u64 = 2;
    while i <= 2147483647
        invariant
            2 <= i <= 2147483648,
            forall|s: &str| call_requires(taken, (s,)),
            (stem@, ext@) == numbered_parts(name@),
            forall|j: nat|
                1 <= j < i ==> said(taken, #[trigger] dest_candidate(dir@, name@, j), true),
        decreases 2147483648 - i,
    {
        let mut cand = stem.clone();
        cand.push('-');
        text::push_dec(&mut cand, i);
        cand.append(ext.as_str());
        let full = path::join(dir, cand.as_str());
        proof {
            assert(full@ == dest_candidate(dir@, name@, i as nat));
        }
        if !taken(full.as_str()) {
            return Some(full);
        }
        proof {
            assert(said(taken, dest_candidate(dir@, name@, i as nat), true));
        }
        i = i + 1;
    }
    None
}

/// A file never goes to a place that is taken.
pub proof fn law_unique_dest_is_free<F: Fn(&str) -> bool>(
    taken: F,
    places: Set<Seq<char>>,
    d: Seq<char>,
)
    requires
        forall|s: &str, b: bool| #[trigger]
            call_ensures(taken, (s,), b) ==> b == places.contains(s@),
        said(taken, d, false),
    ensures
        !places.contains(d),
{
}

/// The first place that is tried for a file is the directory and exactly the name, however
/// long it is.
pub proof fn law_first_place_is_the_name(dir: Seq<char>, name: Seq<char>)
    requires
        dir.len() > 0,
        path::plain_name(name),
    ensures
        path::components_of(dest_candidate(dir, name, 1)) == path::components_of(dir).push(
            path::Part::Normal(name),
        ),
        dest_candidate(dir, name, 1) == path::path_joined(dir, name),
{
    path::law_join_name(dir, name);
}

proof fn lemma_numbered_name_is_plain(stem: Seq<char>, k: nat, ext: Seq<char>)
    requires
        !stem.contains('/'),
        !ext.contains('/'),
    ensures
        path::plain_name(stem.push('-') + text::dec(k) + ext),
{
    let n = stem.push('-') + text::dec(k) + ext;
    text::law_decimal_reads_back(k);
    assert(n[stem.len() as int] == '-');
    assert(!n.contains('/')) by {
        if n.contains('/') {
            let i = choose|i: int| 0 <= i < n.len() && n[i] == '/';
            if i < stem.len() {
                assert(stem.contains(stem[i]));
            } else if i > stem.len() && i < stem.len() + 1 + text::dec(k).len() {
                assert(n[i] == text::dec(k)[i - stem.len() - 1]);
                assert('0' <= text::dec(k)[i - stem.len() - 1] <= '9');
            } else if i > stem.len() {
                assert(n[i] == ext[i - stem.len() - 1 - text::dec(k).len()]);
                assert(ext.contains(n[i]));
            }
        }
    }
    assert(n.len() >= stem.len() + 2);
    if n == seq!['.', '.'] {
        assert(stem.len() == 0);
        assert(n[0] == '.');
    }
}

proof fn lemma_parts_without_slash(a: Seq<char>, b: Seq<char>)
    requires
        !(a + b).contains('/'),
    ensures
        !a.contains('/'),
        !b.contains('/'),
{
    if a.contains('/') {
        let i = choose|i: int| 0 <= i < a.len() && a[i] == '/';
        assert((a + b)[i] == '/');
    }
    if b.contains('/') {
        let i = choose|i: int| 0 <= i < b.len() && b[i] == '/';
        assert((a + b)[i + a.len()] == '/');
    }
}

/// A numbered place keeps the whole stem and the extension of the name, with the number
/// between them.
pub proof fn law_numbered_place_keeps_extension(
    dir: Seq<char>,
    stem: Seq<char>,
    ext: Seq<char>,
    k: nat,
)
    requires
        dir.len() > 0,
        stem.len() > 0,
        path::plain_name(stem.push('.') + ext),
        !ext.contains('.'),
        !(".tar"@.is_suffix_of(stem) && ext == "gz"@),
        k >= 2,
    ensures
        path::components_of(dest_candidate(dir, stem.push('.') + ext, k)) == path::components_of(
            dir,
        ).push(path::Part::Normal(stem.push('-') + text::dec(k) + (seq!['.'] + ext))),
{
    let name = stem.push('.') + ext;
    let dotted = seq!['.'] + ext;
    path::law_name_of_plain_name(name);
    path::law_stem_and_extension(stem, ext);
    reveal_strlit(".gz");
    reveal_strlit("gz");
    if dotted == ".gz"@ {
        assert(ext =~= dotted.skip(1));
        assert(".gz"@.skip(1) =~= "gz"@);
    }
    assert(name =~= stem + dotted);
    lemma_parts_without_slash(stem, dotted);
    lemma_numbered_name_is_plain(stem, k, dotted);
    path::law_join_name(dir, stem.push('-') + text::dec(k) + dotted);
}

/// A numbered place for a name without an extension has the number behind the whole name.
pub proof fn law_numbered_place_keeps_name(dir: Seq<char>, name: Seq<char>, k: nat)
    requires
        dir.len() > 0,
        path::plain_name(name),
        forall|i: int| 1 <= i < name.len() ==> #[trigger] name[i] != '.',
        k >= 2,
    ensures
        path::components_of(dest_candidate(dir, name, k)) == path::components_of(dir).push(
            path::Part::Normal(name.push('-') + text::dec(k)),
        ),
{
    let none = Seq::<char>::empty();
    path::law_name_of_plain_name(name);
    path::law_no_extension(name);
    reveal_strlit(".gz");
    assert(".gz"@.len() == 3);
    lemma_numbered_name_is_plain(name, k, none);
    assert(name.push('-') + text::dec(k) + none =~= name.push('-') + text::dec(k));
    path::law_join_name(dir, name.push('-') + text::dec(k));
}

/// A numbered place for an archive has the number before both parts of its extension.
pub proof fn law_numbered_place_keeps_archive(dir: Seq<char>, stem: Seq<char>, k: nat)
    requires
        dir.len() > 0,
        !stem.contains('/'),
        !".tar"@.is_suffix_of(stem),
        k >= 2,
    ensures
        path::components_of(dest_candidate(dir, stem + ".tar.gz"@, k)) == path::components_of(
            dir,
        ).push(path::Part::Normal(stem.push('-') + text::dec(k) + ".tar.gz"@)),
{
    reveal_strlit(".tar.gz");
    reveal_strlit(".tar");
    reveal_strlit(".gz");
    reveal_strlit("gz");
    let name = stem + ".tar.gz"@;
    let front = stem + ".tar"@;
    assert(".tar.gz"@ =~= ".tar"@ + ".gz"@);
    assert(name =~= front.push('.') + "gz"@);
    assert(seq!['.'] + "gz"@ =~= ".gz"@);
    assert(!".tar.gz"@.contains('/'));
    assert(path::plain_name(name)) by {
        assert(name.len() >= 7);
        if name.contains('/') {
            let i = choose|i: int| 0 <= i < name.len() && name[i] == '/';
            if i < stem.len() {
                assert(stem.contains(stem[i]));
            } else {
                assert(".tar.gz"@.contains(".tar.gz"@[i - stem.len()]));
            }
        }
    }
    path::law_name_of_plain_name(name);
    assert(!"gz"@.contains('.'));
    path::law_stem_and_extension(front, "gz"@);
    text::law_heads_and_tails(stem, ".tar"@);
    assert(front.skip(front.len() - 4) =~= ".tar"@);
    assert(".tar"@.is_suffix_of(front));
    lemma_numbered_name_is_plain(stem, k, ".tar.gz"@);
    path::law_join_name(dir, stem.push('-') + text::dec(k) + ".tar.gz"@);
}

/// Where the name itself is free, a file goes there.
pub proof fn law_free_name_is_kept<F: Fn(&str) -> bool>(
    taken: F,
    places: Set<Seq<char>>,
    dir: Seq<char>,
    name: Seq<char>,
    k: nat,
)
    requires
        forall|s: &str, b: bool| #[trigger]
            call_ensures(taken, (s,), b) ==> b == places.contains(s@),
        !places.contains(path::path_joined(dir, name)),
        k >= 1,
        forall|j: nat| 1 <= j < k ==> said(taken, #[trigger] dest_candidate(dir, name, j), true),
    ensures
        dest_candidate(dir, name, k) == path::path_joined(dir, name),
{
    if k > 1 {
        assert(said(taken, dest_candidate(dir, name, 1), true));
    }
}

/// Two places for a file are different.
pub proof fn law_places_differ(dir: Seq<char>, name: Seq<char>, j: nat, k: nat)
    requires
        dir.len() > 0,
        path::plain_name(name),
        2 <= j < k,
    ensures
        dest_candidate(dir, name, j) != dest_candidate(dir, name, k),
{
    let (stem, ext) = numbered_parts(name);
    let a = stem.push('-') + text::dec(j) + ext;
    let b = stem.push('-') + text::dec(k) + ext;
    text::law_decimal_reads_back(j);
    text::law_decimal_reads_back(k);
    if a == b {
        let n = stem.len() as int + 1;
        assert(a.len() == b.len());
        assert(a.subrange(n, n + text::dec(j).len()) =~= text::dec(j));
        assert(b.subrange(n, n + text::dec(k).len()) =~= text::dec(k));
    }
    assert(!path::absolute(a) && !path::absolute(b)) by {
        path::law_name_of_plain_name(name);
        lemma_stem_without_slash(name);
        if stem.len() > 0 {
            assert(a[0] == stem[0] && b[0] == stem[0]);
            assert(stem.contains(stem[0]));
        } else {
            assert(a[0] == '-' && b[0] == '-');
        }
    }
    path::lemma_join_injective(dir, a, b);
}

proof fn lemma_stem_without_slash(name: Seq<char>)
    requires
        path::plain_name(name),
        path::last_name(name) == Some(name),
    ensures
        !numbered_parts(name).0.contains('/'),
{
    let stem = path::stem_of(name);
    lemma_dot_in_name(name, name.len() as int);
    assert(stem.is_prefix_of(name));
    lemma_tails_prefix(stem, ".tar"@);
    let short = numbered_parts(name).0;
    assert(short.is_prefix_of(stem));
    if short.contains('/') {
        let i = choose|i: int| 0 <= i < short.len() && short[i] == '/';
        assert(name[i] == '/');
        assert(name.contains('/'));
    }
}

proof fn lemma_dot_in_name(name: Seq<char>, k: int)
    ensures
        path::dot_position(name, k) matches Some(i) ==> 0 < i < name.len(),
    decreases k,
{
    if k > 0 && !(k < name.len() && name[k] == '.') {
        lemma_dot_in_name(name, k - 1);
    }
}

proof fn lemma_tails_prefix(s: Seq<char>, p: Seq<char>)
    ensures
        text::without_tails(s, p).is_prefix_of(s),
    decreases s.len(),
{
    if p.len() > 0 && p.is_suffix_of(s) {
        let t = s.take(s.len() - p.len());
        lemma_tails_prefix(t, p);
        let r = text::without_tails(s, p);
        assert(r =~= s.take(r.len() as int));
    }
}

/// A path that starts with `~` leads on from the home directory, and any other path stays
/// as it is.
pub proof fn law_tilde(p: Seq<char>, home: Seq<char>)
    requires
        home.len() > 0,
    ensures
        ({
            let ps = path::components_of(p);
            if ps.len() > 0 && ps[0] == path::Part::Normal(seq!['~']) {
                path::components_of(tilde_expanded(p, home)) == path::components_of(home) + ps.skip(
                    1,
                )
            } else {
                tilde_expanded(p, home) == p
            }
        }),
{
    reveal_strlit("~");
    let tilde = seq!['~'];
    assert("~"@ =~= tilde);
    path::law_name_of_plain_name(tilde);
    let ps = path::components_of(p);
    path::law_stripped(p, tilde);
    let one = seq![path::Part::Normal(tilde)];
    assert(one.is_prefix_of(ps) <==> ps.len() > 0 && ps[0] == path::Part::Normal(tilde)) by {
        if ps.len() > 0 && ps[0] == path::Part::Normal(tilde) {
            assert(one =~= ps.subrange(0, 1));
        }
    }
    if let Some(r) = path::path_stripped(p, tilde) {
        path::law_join(home, r);
        assert(path::components_of(r) == ps.skip(1));
        path::lemma_no_current_inside(p);
        if ps.skip(1).len() > 0 {
            assert(ps.skip(1)[0] == ps[1]);
        }
    }
}

/// Whether a character is another one, or that one in upper case.
pub open spec fn same_letter(a: char, b: char) -> bool {
    a == b || ('A' <= a <= 'Z' && a as u32 + 32 == b as u32)
}

/// Whether `name` starts with `p`, where case does not matter.
pub open spec fn starts_like(name: Seq<char>, p: Seq<char>) -> bool {
    &&& p.len() <= name.len()
    &&& forall|i: int| 0 <= i < p.len() ==> same_letter(#[trigger] name[i], p[i])
}

/// Whether `name` ends with `p`, where case does not matter.
pub open spec fn ends_like(name: Seq<char>, p: Seq<char>) -> bool {
    p.len() <= name.len() && starts_like(name.skip(name.len() - p.len()), p)
}

/// Whether `p` stands in `name`, where case does not matter.
pub open spec fn holds_like(name: Seq<char>, p: Seq<char>) -> bool {
    exists|i: int| 0 <= i <= name.len() && starts_like(#[trigger] name.skip(i), p)
}

/// Whether a text has no letter in upper case.
pub open spec fn lower_case(p: Seq<char>) -> bool {
    forall|i: int| 0 <= i < p.len() ==> !('A' <= #[trigger] p[i] <= 'Z')
}

proof fn lemma_same_letter(a: char, b: char)
    requires
        same_letter(a, b),
        !('A' <= b <= 'Z'),
    ensures
        text::ascii_lower(a) == b,
{
}

proof fn lemma_starts_like(name: Seq<char>, p: Seq<char>)
    requires
        lower_case(p),
    ensures
        starts_like(name, p) <==> p.is_prefix_of(text::ascii_lowered(name)),
{
    let l = text::ascii_lowered(name);
    if starts_like(name, p) {
        assert forall|i: int| 0 <= i < p.len() implies l.subrange(0, p.len() as int)[i] == p[i] by {
            assert(same_letter(name[i], p[i]));
            assert(l[i] == text::ascii_lower(name[i]));
            assert(!('A' <= p[i] <= 'Z'));
            lemma_same_letter(name[i], p[i]);
        }
        assert(p =~= l.subrange(0, p.len() as int));
    }
    if p.is_prefix_of(l) {
        assert forall|i: int| 0 <= i < p.len() implies same_letter(#[trigger] name[i], p[i]) by {
            assert(l.subrange(0, p.len() as int)[i] == p[i]);
            assert(l[i] == text::ascii_lower(name[i]));
        }
    }
}

proof fn lemma_ends_like(name: Seq<char>, p: Seq<char>)
    requires
        lower_case(p),
    ensures
        ends_like(name, p) <==> p.is_suffix_of(text::ascii_lowered(name)),
{
    if p.len() <= name.len() {
        let k = name.len() - p.len();
        let l = text::ascii_lowered(name);
        lemma_starts_like(name.skip(k), p);
        assert(text::ascii_lowered(name.skip(k)) =~= l.skip(k));
        assert(l.skip(k).subrange(0, p.len() as int) =~= l.skip(k));
        assert(l.subrange(k, l.len() as int) =~= l.skip(k));
    }
}

proof fn lemma_holds_like(name: Seq<char>, p: Seq<char>)
    requires
        lower_case(p),
    ensures
        holds_like(name, p) <==> text::occurs(text::ascii_lowered(name), p),
{
    let l = text::ascii_lowered(name);
    if holds_like(name, p) {
        let i = choose|i: int| 0 <= i <= name.len() && starts_like(#[trigger] name.skip(i), p);
        lemma_starts_like(name.skip(i), p);
        assert(text::ascii_lowered(name.skip(i)) =~= l.skip(i));
        assert(l.subrange(i, i + p.len()) =~= l.skip(i).subrange(0, p.len() as int));
        assert(text::match_at(l, p, i));
    }
    if text::occurs(l, p) {
        let i = choose|i: int| text::match_at(l, p, i);
        lemma_starts_like(name.skip(i), p);
        assert(text::ascii_lowered(name.skip(i)) =~= l.skip(i));
        assert(l.subrange(i, i + p.len()) =~= l.skip(i).subrange(0, p.len() as int));
        assert(p.is_prefix_of(l.skip(i)));
        assert(starts_like(name.skip(i), p));
    }
}

/// A name is on the deny-list of secrets exactly if it looks like one of them: `.env*`,
/// `*.pem`, `id_*`, `*.key`, `.netrc` and `*credentials*`, in whatever case.
pub proof fn law_deny_list(name: Seq<char>)
    ensures
        deny_rule(name) is Some <==> {
            ||| starts_like(name, ".env"@)
            ||| ends_like(name, ".pem"@)
            ||| starts_like(name, "id_"@)
            ||| ends_like(name, ".key"@)
            ||| starts_like(name, ".netrc"@) && name.len() == 6
            ||| holds_like(name, "credentials"@)
        },
{
    reveal_strlit(".env");
    reveal_strlit(".pem");
    reveal_strlit("id_");
    reveal_strlit(".key");
    reveal_strlit(".netrc");
    reveal_strlit("credentials");
    assert(lower_case(".env"@));
    assert(lower_case(".pem"@));
    assert(lower_case("id_"@));
    assert(lower_case(".key"@));
    assert(lower_case(".netrc"@));
    assert(lower_case("credentials"@));
    assert(".netrc"@.len() == 6);
    lemma_starts_like(name, ".env"@);
    lemma_ends_like(name, ".pem"@);
    lemma_starts_like(name, "id_"@);
    lemma_ends_like(name, ".key"@);
    lemma_starts_like(name, ".netrc"@);
    lemma_holds_like(name, "credentials"@);
    let l = text::ascii_lowered(name);
    if name.len() == 6 {
        assert(l.subrange(0, 6) =~= l);
    }
    if l == ".netrc"@ {
        assert(l.subrange(0, 6) =~= ".netrc"@);
        assert(".netrc"@.is_prefix_of(l));
    }
}

/// How many seconds a unit of an age has.
pub open spec fn age_unit(letter: char) -> nat {
    if letter == 's' {
        1
    } else if letter == 'm' {
        60
    } else if letter == 'h' {
        60 * 60
    } else {
        24 * 60 * 60
    }
}

/// An age is a number and a unit: it says how many whole units have passed, in the largest
/// unit of which one has, and seconds below a minute.
pub proof fn law_age(now: u64, then_ms: u64)
    ensures
        ({
            let t = age_text(now, then_ms);
            let passed = if now >= then_ms {
                (now - then_ms) as int
            } else {
                0
            };
            let n = text::decimal_value(t.drop_last());
            let u = age_unit(t.last());
            &&& t.len() > 1
            &&& t.last() == 's' || t.last() == 'm' || t.last() == 'h' || t.last() == 'd'
            &&& n * u * 1000 <= passed < (n + 1) * u * 1000
            &&& t.last() == 's' ==> n < 60
            &&& t.last() == 'm' ==> 1 <= n < 60
            &&& t.last() == 'h' ==> 1 <= n < 24
            &&& t.last() == 'd' ==> 1 <= n
        }),
{
    let t = age_text(now, then_ms);
    let s: nat = if now >= then_ms {
        ((now - then_ms) / 1000) as nat
    } else {
        0
    };
    let n: nat = if s < 60 {
        s
    } else if s < 3600 {
        s / 60
    } else if s < 86400 {
        s / 3600
    } else {
        s / 86400
    };
    text::law_decimal_reads_back(n);
    assert(t.drop_last() =~= text::dec(n));
    assert(text::decimal_value(t.drop_last()) == n);
    let u = age_unit(t.last());
    if s < 60 {
        assert(u == 1);
    } else if s < 3600 {
        assert(u == 60);
    } else if s < 86400 {
        assert(u == 3600);
    } else {
        assert(u == 86400);
    }
    assert(n * u <= s < (n + 1) * u);
    assert(n * u * 1000 <= s * 1000 && (s + 1) * 1000 <= (n + 1) * u * 1000) by (nonlinear_arith)
        requires
            n * u <= s < (n + 1) * u,
    ;
}

/// How many bytes the unit with a letter has.
pub open spec fn letter_bytes(letter: char) -> int {
    if letter == 'K' {
        1024
    } else if letter == 'M' {
        0x10_0000
    } else if letter == 'G' {
        0x4000_0000
    } else if letter == 'T' {
        0x100_0000_0000
    } else {
        1
    }
}

proof fn lemma_rounded(a: nat, b: nat)
    requires
        b > 0,
    ensures
        -(b as int) <= 2 * (round_half_even(a, b) * b - a) <= b,
{
    let q = a / b;
    let r = a % b;
    assert(a == q * b + r && 0 <= r < b) by (nonlinear_arith)
        requires
            b > 0,
            q == a / b,
            r == a % b,
    ;
    assert((q + 1) * b == q * b + b) by (nonlinear_arith);
}

/// A size below 1024 is written as it is. A larger one is written in the largest unit up to
/// `T` of which there is a whole one, to the nearest tenth. Beyond two to the 53rd power the
/// size is that of the nearest double.
pub proof fn law_size(n: nat)
    requires
        n < 0x20_0000_0000_0000,
    ensures
        ({
            let t = size_text(n);
            let unit = letter_bytes(t.last());
            let tenths = 10 * text::decimal_value(t.take(t.len() - 3)) + text::decimal_value(
                t.subrange(t.len() - 2, t.len() - 1),
            );
            if n < 1024 {
                t.last() == 'B' && text::decimal_value(t.drop_last()) == n
            } else {
                &&& t.len() > 3 && t[t.len() - 3] == '.'
                &&& t.last() == 'K' || t.last() == 'M' || t.last() == 'G' || t.last() == 'T'
                &&& unit <= n
                &&& t.last() != 'T' ==> n < 1024 * unit
                &&& -unit <= 2 * (tenths * unit - 10 * n) <= unit
            }
        }),
{
    let t = size_text(n);
    assert(double_step(n) == 1);
    assert(as_double(n) == n) by {
        assert(n / 1 == n && n % 1 == 0);
    }
    if n < 1024 {
        text::law_decimal_reads_back(n);
        assert(t.drop_last() =~= text::dec(n));
    } else {
        let u = size_unit(n);
        let b = unit_bytes(u);
        let tenths = round_half_even(10 * n, b);
        lemma_rounded(10 * n, b);
        text::law_decimal_reads_back(tenths / 10);
        text::law_decimal_reads_back(tenths % 10);
        let whole = text::dec(tenths / 10);
        assert(t =~= whole + seq!['.', text::digit(tenths % 10), unit_letter(u)]);
        assert(t.take(t.len() - 3) =~= whole);
        assert(t.subrange(t.len() - 2, t.len() - 1) =~= text::dec(tenths % 10));
        assert(letter_bytes(t.last()) == b);
        assert(10 * (tenths / 10) + tenths % 10 == tenths);
    }
}

proof fn lemma_numbered_parts_without_slash(name: Seq<char>)
    requires
        path::plain_name(name),
    ensures
        !numbered_parts(name).0.contains('/'),
        !numbered_parts(name).1.contains('/'),
{
    path::law_name_of_plain_name(name);
    lemma_stem_without_slash(name);
    reveal_strlit(".tar.gz");
    assert(!".tar.gz"@.contains('/'));
    let ext = path::dotted_extension_of(name);
    lemma_dot_in_name(name, name.len() as int);
    if ext.contains('/') {
        let i = choose|i: int| 0 <= i < ext.len() && ext[i] == '/';
        let k = path::dot_position(name, name.len() as int)->0;
        assert(name[i + k] == '/');
        assert(name.contains('/'));
    }
}

/// Every place for a file lies directly in the directory.
pub proof fn law_place_lies_in_directory(dir: Seq<char>, name: Seq<char>, k: nat)
    requires
        dir.len() > 0,
        path::plain_name(name),
    ensures
        path::components_of(dest_candidate(dir, name, k)).len() == path::components_of(dir).len()
            + 1,
        path::lies_under(dest_candidate(dir, name, k), dir),
{
    let (stem, ext) = numbered_parts(name);
    lemma_numbered_parts_without_slash(name);
    let n = if k <= 1 {
        name
    } else {
        stem.push('-') + text::dec(k) + ext
    };
    if k > 1 {
        lemma_numbered_name_is_plain(stem, k, ext);
    }
    path::law_join_name(dir, n);
    path::law_join_lies_under(dir, n);
}

/// A file goes to the directory and exactly its name where that is free, and never to a place
/// that is taken.
pub proof fn law_unique_dest<F: Fn(&str) -> bool>(
    dir: &str,
    name: &str,
    taken: F,
    places: Set<Seq<char>>,
    r: Option<String>,
)
    requires
        call_ensures(unique_dest::<F>, (dir, name, taken), r),
        forall|s: &str, b: bool| #[trigger]
            call_ensures(taken, (s,), b) ==> b == places.contains(s@),
    ensures
        r matches Some(d) ==> !places.contains(d@),
        !places.contains(path::path_joined(dir@, name@)) ==> (r matches Some(d) && d@
            == path::path_joined(dir@, name@)),
{
    match r {
        Some(d) => {
            let k = choose|k: nat|
                1 <= k <= i32::MAX && d@ == #[trigger] dest_candidate(dir@, name@, k) && said(
                    taken,
                    d@,
                    false,
                ) && forall|j: nat|
                    1 <= j < k ==> said(taken, #[trigger] dest_candidate(dir@, name@, j), true);
            if !places.contains(path::path_joined(dir@, name@)) {
                law_free_name_is_kept(taken, places, dir@, name@, k);
            }
        },
        None => {
            assert(said(taken, dest_candidate(dir@, name@, 1), true));
        },
    }
}

/// A name has a reason to be denied exactly if it looks like a secret.
pub proof fn law_denied_reason(name: &str, r: Option<&'static str>)
    requires
        call_ensures(denied_reason, (name,), r),
    ensures
        r is Some <==> {
            ||| starts_like(name@, ".env"@)
            ||| ends_like(name@, ".pem"@)
            ||| starts_like(name@, "id_"@)
            ||| ends_like(name@, ".key"@)
            ||| starts_like(name@, ".netrc"@) && name@.len() == 6
            ||| holds_like(name@, "credentials"@)
        },
{
    law_deny_list(name@);
}

/// A word that is quoted is read back by the shell as that one word.
pub proof fn law_sh_quote(s: &str, r: String)
    requires
        call_ensures(sh_quote, (s,), r),
    ensures
        shell_words(r@) == Some(seq![s@]),
{
    law_shell_reads_quoted(s@);
}

/// The number that a hexadecimal digit stands for.
pub open spec fn hex_value(c: char) -> int {
    if '0' <= c <= '9' {
        c as u32 - '0' as u32
    } else {
        c as u32 - 'a' as u32 + 10
    }
}

/// A digest is written with two digits for each of its bytes, which read back as the byte.
pub proof fn law_sha256_hex(message: Seq<u8>, i: int)
    requires
        0 <= i < outside::sha256_digest(message).len(),
    ensures
        sha256_hex(message).len() == 2 * outside::sha256_digest(message).len(),
        16 * hex_value(sha256_hex(message)[2 * i]) + hex_value(sha256_hex(message)[2 * i + 1])
            == outside::sha256_digest(message)[i],
{
    let b = outside::sha256_digest(message)[i] as int;
    assert((2 * i) / 2 == i && (2 * i + 1) / 2 == i);
    assert((2 * i) % 2 == 0 && (2 * i + 1) % 2 == 1);
    assert(16 * (b / 16) + b % 16 == b);
    lemma_hex_digit(b / 16);
    lemma_hex_digit(b % 16);
}

proof fn lemma_hex_digit(n: int)
    requires
        0 <= n < 16,
    ensures
        hex_value(outside::hex_digit(n)) == n,
{
}

/// A digest of bytes is that of all of them.
pub proof fn law_sha256_bytes(b: &[u8], r: String)
    requires
        call_ensures(sha256_bytes, (b,), r),
    ensures
        r@ == outside::hex_text(outside::sha256_digest(b@)),
{
}

/// A command that fails hands on what it complained about, and one that succeeds its output
/// without white space at the end.
pub proof fn law_run(
    cmd: &Command,
    out: &Outcome,
    core: Seq<char>,
    post: Seq<char>,
    r: Result<String, Error>,
)
    requires
        call_ensures(run, (cmd, out), r),
        out.stdout@ == core + post,
        text::all_space(post),
        core.len() > 0,
        !text::is_space(core[0]) && !text::is_space(core.last()),
    ensures
        r is Ok <==> out.success,
        r matches Ok(s) ==> s@ == core,
{
    text::law_trimmed(Seq::empty(), core, post);
}

} // verus!
