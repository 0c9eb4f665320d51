//! Whether everything is there that the ferry needs.

use vstd::prelude::*;

use crate::ssh::ClientConfig;
use crate::text::{self, copy_option, str_eq};

verus! {

/// Which programs there are.
pub struct Tools {
    pub herdr_ferry: bool,
    pub pbpaste: bool,
    pub wl_paste: bool,
    pub xclip: bool,
    pub ssh: bool,
    pub pbcopy: bool,
    pub osascript: bool,
    pub wl_copy: bool,
    pub notify_send: bool,
    pub terminal_notifier: bool,
}

/// What is known of the server that an alias leads to.
pub enum RemoteFacts {
    /// It could not be found, for this reason.
    Lost { reason: String },
    /// It was found.
    Found {
        remote_bin: String,
        /// What the program there says of its version, if it could be run.
        version: Option<String>,
        /// Whether a shared connection is open.
        shared: bool,
    },
}

/// What is known of the alias of the server.
pub struct AliasFacts {
    pub alias: String,
    /// The host that it leads to.
    pub host: Option<String>,
    pub remote: RemoteFacts,
}

/// What has been found out about this machine.
pub struct Facts {
    pub version: String,
    pub os: String,
    pub macos: bool,
    pub state_root: String,
    pub state_exists: bool,
    pub herdr_bin: String,
    /// What Herdr says of its version, if it could be run.
    pub herdr_version: Option<String>,
    pub server_alive: bool,
    /// Where this program lies.
    pub self_path: Option<String>,
    pub tools: Tools,
    pub config_path: String,
    pub alias: Option<AliasFacts>,
}

/// The outcome of a check.
pub struct Check {
    pub ok: bool,
    pub what: String,
    pub detail: String,
}

/// What the outcome of a check says.
pub struct CheckView {
    pub ok: bool,
    pub what: Seq<char>,
    pub detail: Seq<char>,
}

impl View for Check {
    type V = CheckView;

    open spec fn view(&self) -> CheckView {
        CheckView { ok: self.ok, what: self.what@, detail: self.detail@ }
    }
}

/// What some outcomes say.
pub open spec fn check_views(v: Seq<Check>) -> Seq<CheckView> {
    v.map_values(|c: Check| c@)
}

/// The line for the outcome of a check.
pub open spec fn check_text(c: CheckView) -> Seq<char> {
    (if c.ok {
        "✓"@
    } else {
        "✗"@
    }) + " "@ + c.what + text::fill(c.what, 28) + " "@ + c.detail
}

/// How many checks have failed.
pub open spec fn failures(v: Seq<CheckView>) -> nat {
    v.filter(|c: CheckView| !c.ok).len()
}

/// The alias to check: as given, or as the environment says, or else as the configuration
/// says.
pub fn alias_to_check(given: Option<String>, env_alias: Option<String>, cfg: &ClientConfig) -> (r:
    Option<String>)
    ensures
        r == match given {
            Some(a) => Some(a),
            None => match env_alias {
                Some(a) => Some(a),
                None => cfg.alias,
            },
        },
{
    match given {
        Some(a) => Some(a),
        None => match env_alias {
            Some(a) => Some(a),
            None => copy_option(&cfg.alias),
        },
    }
}

/// The checks of the server side.
pub open spec fn server_checks(f: Facts) -> Seq<CheckView> {
    seq![
        CheckView { ok: f.state_exists, what: "state dir"@, detail: f.state_root@ },
        CheckView {
            ok: f.herdr_version is Some,
            what: "herdr binary"@,
            detail: match f.herdr_version {
                Some(v) => v@,
                None => f.herdr_bin@ + " not runnable — fine on a client-only laptop"@,
            },
        },
    ] + (if f.herdr_version is Some {
        seq![
            CheckView {
                ok: f.server_alive,
                what: "herdr server"@,
                detail: if f.server_alive {
                    "responding"@
                } else {
                    "not running (start herdr)"@
                },
            },
        ]
    } else {
        seq![]
    }) + seq![
        CheckView {
            ok: f.tools.herdr_ferry,
            what: "herdr-ferry on PATH"@,
            detail: if f.tools.herdr_ferry {
                "ok (clients can find it over ssh)"@
            } else {
                "add "@ + (match f.self_path {
                    Some(p) => p@,
                    None => Seq::empty(),
                }) + " to PATH or symlink it"@
            },
        },
        CheckView {
            ok: f.tools.pbpaste || f.tools.wl_paste || f.tools.xclip,
            what: "clipboard read"@,
            detail: "pbpaste / wl-paste / xclip (for send --clip)"@,
        },
    ]
}

/// What is said of the alias of the server.
pub open spec fn alias_detail(a: AliasFacts) -> Seq<char> {
    match a.host {
        Some(h) => if h@ == a.alias@ {
            a.alias@ + " (plain hostname, not a ~/.ssh/config alias — fine)"@
        } else {
            a.alias@ + " → "@ + h@
        },
        None => a.alias@ + ": ssh cannot resolve it (typo, or missing from ~/.ssh/config)"@,
    }
}

/// The version in what a program says of it.
pub open spec fn version_in(s: Seq<char>) -> Seq<char> {
    text::without_heads(text::trimmed(s), "herdr-ferry "@)
}

/// The checks of the server that an alias leads to.
pub open spec fn remote_checks(r: RemoteFacts, local: Seq<char>) -> Seq<CheckView> {
    match r {
        RemoteFacts::Lost { reason } => seq![
            CheckView { ok: false, what: "remote herdr-ferry"@, detail: reason@ },
        ],
        RemoteFacts::Found { remote_bin, version, shared } => seq![
            CheckView { ok: true, what: "remote herdr-ferry"@, detail: remote_bin@ },
            match version {
                Some(v) => CheckView {
                    ok: version_in(v@) == local,
                    what: "remote version"@,
                    detail: version_in(v@) + " (local "@ + local + ")"@,
                },
                None => CheckView {
                    ok: false,
                    what: "remote version"@,
                    detail: "could not run remote binary"@,
                },
            },
            CheckView {
                ok: shared,
                what: "ssh ControlMaster"@,
                detail: if shared {
                    "active"@
                } else {
                    "not active — add `ControlMaster auto` + `ControlPersist 10m` to the alias for ~0ms polls"@
                },
            },
        ],
    }
}

/// The checks of the alias of the server.
pub open spec fn alias_checks(f: Facts) -> Seq<CheckView> {
    match f.alias {
        None => seq![
            CheckView {
                ok: false,
                what: "ssh alias"@,
                detail: "none: pass --alias, set HERDR_FERRY_ALIAS, or write alias = \"...\" to "@
                    + f.config_path@,
            },
        ],
        Some(a) => seq![
            CheckView { ok: a.host is Some, what: "ssh alias"@, detail: alias_detail(a) },
        ] + remote_checks(a.remote, f.version@),
    }
}

/// The checks of the client side.
pub open spec fn client_checks(f: Facts) -> Seq<CheckView> {
    seq![CheckView { ok: f.tools.ssh, what: "ssh"@, detail: ""@ }] + alias_checks(f) + seq![
        CheckView {
            ok: if f.macos {
                f.tools.pbcopy && f.tools.osascript
            } else {
                f.tools.wl_copy || f.tools.xclip
            },
            what: "clipboard write"@,
            detail: if f.macos {
                "pbcopy + osascript"@
            } else {
                "wl-copy / xclip"@
            },
        },
        CheckView {
            ok: if f.macos {
                f.tools.osascript
            } else {
                f.tools.notify_send
            },
            what: "notifications"@,
            detail: if f.macos {
                if f.tools.terminal_notifier {
                    "terminal-notifier (clickable)"@
                } else {
                    "osascript (install terminal-notifier for clickable toasts)"@
                }
            } else {
                "notify-send"@
            },
        },
    ]
}

/// The lines of a report.
pub open spec fn report_texts(f: Facts) -> Seq<Seq<char>> {
    let bad = failures(server_checks(f) + client_checks(f));
    seq!["herdr-ferry "@ + f.version@ + " on "@ + f.os@, ""@, "server side"@]
        + server_checks(f).map_values(|c: CheckView| check_text(c)) + seq![""@, "client side"@]
        + client_checks(f).map_values(|c: CheckView| check_text(c)) + seq![
        ""@,
        if bad == 0 {
            "all good"@
        } else {
            text::dec(bad) + " problem(s)"@
        },
    ]
}

fn check(ok: bool, what: &str, detail: &str) -> (r: Check)
    ensures
        r@ == (CheckView { ok, what: what@, detail: detail@ }),
{
    Check { ok, what: what.to_owned(), detail: detail.to_owned() }
}

fn check_line(c: &Check) -> (r: String)
    ensures
        r@ == check_text(c@),
{
    let mut s = if c.ok {
        "✓".to_owned()
    } else {
        "✗".to_owned()
    };
    s.append(" ");
    s.append(text::pad_right(c.what.as_str(), 28).as_str());
    s.append(" ");
    s.append(c.detail.as_str());
    proof {
        assert(s@ == check_text(c@));
    }
    s
}

fn push_check(v: &mut Vec<Check>, ok: bool, what: &str, detail: &str)
    ensures
        check_views(final(v)@) == check_views(old(v)@).push(
            (CheckView { ok, what: what@, detail: detail@ }),
        ),
{
    v.push(check(ok, what, detail));
    proof {
        assert(check_views(v@) == check_views(old(v)@).push(
            (CheckView { ok, what: what@, detail: detail@ }),
        ));
    }
}

fn check_server(f: &Facts) -> (r: Vec<Check>)
    ensures
        check_views(r@) == server_checks(*f),
{
    let mut v: Vec<Check> = Vec::new();
    push_check(&mut v, f.state_exists, "state dir", f.state_root.as_str());
    match &f.herdr_version {
        Some(says) => {
            push_check(&mut v, true, "herdr binary", says.as_str());
            let detail = if f.server_alive {
                "responding"
            } else {
                "not running (start herdr)"
            };
            push_check(&mut v, f.server_alive, "herdr server", detail);
        },
        None => {
            let mut detail = f.herdr_bin.clone();
            detail.append(" not runnable — fine on a client-only laptop");
            push_check(&mut v, false, "herdr binary", detail.as_str());
        },
    }
    if f.tools.herdr_ferry {
        push_check(&mut v, true, "herdr-ferry on PATH", "ok (clients can find it over ssh)");
    } else {
        let mut detail = "add ".to_owned();
        match &f.self_path {
            Some(p) => {
                detail.append(p.as_str());
            },
            None => {},
        }
        detail.append(" to PATH or symlink it");
        push_check(&mut v, false, "herdr-ferry on PATH", detail.as_str());
    }
    let reader = f.tools.pbpaste || f.tools.wl_paste || f.tools.xclip;
    push_check(&mut v, reader, "clipboard read", "pbpaste / wl-paste / xclip (for send --clip)");
    proof {
        assert(check_views(v@) == server_checks(*f));
    }
    v
}

fn alias_says(a: &AliasFacts) -> (r: String)
    ensures
        r@ == alias_detail(*a),
{
    let mut s = a.alias.clone();
    match &a.host {
        Some(h) => {
            if str_eq(h.as_str(), a.alias.as_str()) {
                s.append(" (plain hostname, not a ~/.ssh/config alias — fine)");
            } else {
                s.append(" → ");
                s.append(h.as_str());
            }
        },
        None => {
            s.append(": ssh cannot resolve it (typo, or missing from ~/.ssh/config)");
        },
    }
    s
}

fn check_remote(v: &mut Vec<Check>, remote: &RemoteFacts, local: &str)
    ensures
        check_views(final(v)@) == check_views(old(v)@) + remote_checks(*remote, local@),
{
    let ghost before = check_views(v@);
    match remote {
        RemoteFacts::Lost { reason } => {
            push_check(v, false, "remote herdr-ferry", reason.as_str());
        },
        RemoteFacts::Found { remote_bin, version, shared } => {
            push_check(v, true, "remote herdr-ferry", remote_bin.as_str());
            match version {
                Some(says) => {
                    let there = text::trim_start_matches(
                        text::trim(says.as_str()).as_str(),
                        "herdr-ferry ",
                    );
                    let mut detail = there.clone();
                    detail.append(" (local ");
                    detail.append(local);
                    detail.append(")");
                    push_check(
                        v,
                        str_eq(there.as_str(), local),
                        "remote version",
                        detail.as_str(),
                    );
                },
                None => {
                    push_check(v, false, "remote version", "could not run remote binary");
                },
            }
            let detail = if *shared {
                "active"
            } else {
                "not active — add `ControlMaster auto` + `ControlPersist 10m` to the alias for ~0ms polls"
            };
            push_check(v, *shared, "ssh ControlMaster", detail);
        },
    }
    proof {
        assert(check_views(v@) == before + remote_checks(*remote, local@));
    }
}

fn check_client(f: &Facts) -> (r: Vec<Check>)
    ensures
        check_views(r@) == client_checks(*f),
{
    let mut v: Vec<Check> = Vec::new();
    push_check(&mut v, f.tools.ssh, "ssh", "");
    match &f.alias {
        None => {
            let mut detail =
                "none: pass --alias, set HERDR_FERRY_ALIAS, or write alias = \"...\" to ".to_owned();
            detail.append(f.config_path.as_str());
            push_check(&mut v, false, "ssh alias", detail.as_str());
        },
        Some(a) => {
            push_check(&mut v, a.host.is_some(), "ssh alias", alias_says(a).as_str());
            check_remote(&mut v, &a.remote, f.version.as_str());
        },
    }
    let writer = if f.macos {
        f.tools.pbcopy && f.tools.osascript
    } else {
        f.tools.wl_copy || f.tools.xclip
    };
    let writer_detail = if f.macos {
        "pbcopy + osascript"
    } else {
        "wl-copy / xclip"
    };
    push_check(&mut v, writer, "clipboard write", writer_detail);
    let notifier = if f.macos {
        f.tools.osascript
    } else {
        f.tools.notify_send
    };
    let notifier_detail = if f.macos {
        if f.tools.terminal_notifier {
            "terminal-notifier (clickable)"
        } else {
            "osascript (install terminal-notifier for clickable toasts)"
        }
    } else {
        "notify-send"
    };
    push_check(&mut v, notifier, "notifications", notifier_detail);
    proof {
        assert(check_views(v@) == client_checks(*f));
    }
    v
}

/// Appends the lines for some checks, and counts those that have failed.
fn push_lines(lines: &mut Vec<String>, checks: &Vec<Check>) -> (bad: usize)
    ensures
        text::texts(final(lines)@) == text::texts(old(lines)@) + check_views(checks@).map_values(
            |c: CheckView| check_text(c),
        ),
        bad == failures(check_views(checks@)),
        bad <= checks@.len(),
{
    let ghost line = |c: CheckView| check_text(c);
    let ghost views = check_views(checks@);
    let ghost before = text::texts(lines@);
    let mut bad: usize = 0;
    for i in 0..checks.len()
        invariant
            line == |c: CheckView| check_text(c),
            views == check_views(checks@),
            text::texts(lines@) == before + views.take(i as int).map_values(line),
            bad == failures(views.take(i as int)),
            bad <= i,
    {
        let ghost so_far = lines@;
        lines.push(check_line(&checks[i]));
        proof {
            assert(text::texts(lines@) == text::texts(so_far).push(line(views[i as int])));
            assert(views.take(i + 1).map_values(line) == views.take(i as int).map_values(
                line,
            ).push(line(views[i as int])));
            assert(views.take(i + 1).drop_last() == views.take(i as int));
            reveal(Seq::filter);
        }
        if !checks[i].ok {
            bad = bad + 1;
        }
    }
    proof {
        assert(views.take(checks@.len() as int) == views);
    }
    bad
}

proof fn lemma_failures_add(a: Seq<CheckView>, b: Seq<CheckView>)
    ensures
        failures(a + b) == failures(a) + failures(b),
    decreases b.len(),
{
    reveal(Seq::filter);
    if b.len() == 0 {
        assert(a + b == a);
    } else {
        lemma_failures_add(a, b.drop_last());
        assert((a + b).drop_last() == a + b.drop_last());
    }
}

fn push_text(lines: &mut Vec<String>, s: &str)
    ensures
        text::texts(final(lines)@) == text::texts(old(lines)@).push(s@),
{
    lines.push(s.to_owned());
    proof {
        assert(text::texts(lines@) == text::texts(old(lines)@).push(s@));
    }
}

/// The report on what has been found out, and the exit code: success where no check has
/// failed.
pub fn run(f: &Facts) -> (r: (Vec<String>, u8))
    ensures
        text::texts(r.0@) == report_texts(*f),
        r.1 == if failures(server_checks(*f) + client_checks(*f)) == 0 {
            0u8
        } else {
            1u8
        },
{
    let server = check_server(f);
    let client = check_client(f);
    let mut title = "herdr-ferry ".to_owned();
    title.append(f.version.as_str());
    title.append(" on ");
    title.append(f.os.as_str());
    let mut lines: Vec<String> = Vec::new();
    push_text(&mut lines, title.as_str());
    push_text(&mut lines, "");
    push_text(&mut lines, "server side");
    let bad_server = push_lines(&mut lines, &server);
    push_text(&mut lines, "");
    push_text(&mut lines, "client side");
    let bad_client = push_lines(&mut lines, &client);
    push_text(&mut lines, "");
    let bad: u64 = bad_server as u64 + bad_client as u64;
    proof {
        lemma_failures_add(server_checks(*f), client_checks(*f));
    }
    if bad == 0 {
        push_text(&mut lines, "all good");
        proof {
            assert(text::texts(lines@) == report_texts(*f));
        }
        (lines, 0)
    } else {
        let mut last = text::decimal(bad);
        last.append(" problem(s)");
        push_text(&mut lines, last.as_str());
        proof {
            assert(text::texts(lines@) == report_texts(*f));
        }
        (lines, 1)
    }
}

proof fn lemma_no_failures(v: Seq<CheckView>)
    ensures
        failures(v) == 0 <==> forall|i: int| 0 <= i < v.len() ==> (#[trigger] v[i]).ok,
    decreases v.len(),
{
    reveal(Seq::filter);
    if v.len() > 0 {
        let front = v.drop_last();
        lemma_no_failures(front);
        if failures(v) == 0 {
            assert forall|i: int| 0 <= i < v.len() implies (#[trigger] v[i]).ok by {
                if i < front.len() {
                    assert(front[i].ok);
                }
            }
        }
        if forall|i: int| 0 <= i < v.len() ==> (#[trigger] v[i]).ok {
            assert forall|i: int| 0 <= i < front.len() implies (#[trigger] front[i]).ok by {
                assert(v[i].ok);
            }
            assert(v[v.len() - 1].ok);
        }
    }
}

/// The report ends with success exactly where every check succeeds.
pub proof fn law_success_means_all_good(f: Facts)
    ensures
        failures(server_checks(f) + client_checks(f)) == 0 <==> (forall|i: int|
            0 <= i < server_checks(f).len() ==> (#[trigger] server_checks(f)[i]).ok) && (forall|
            i: int,
        |
            0 <= i < client_checks(f).len() ==> (#[trigger] client_checks(f)[i]).ok),
{
    lemma_failures_add(server_checks(f), client_checks(f));
    lemma_no_failures(server_checks(f));
    lemma_no_failures(client_checks(f));
}

/// The report ends with success exactly where nothing is missing: on the server side the state
/// directory, Herdr and its server, the program on the path and something that reads the
/// clipboard; on the client side ssh, an alias that resolves and leads to the same version
/// over a shared connection, and what writes the clipboard and notifies.
pub proof fn law_report(f: &Facts, r: (Vec<String>, u8))
    requires
        call_ensures(run, (f,), r),
    ensures
        r.1 == 0 <==> {
            &&& f.state_exists && f.herdr_version is Some && f.server_alive
            &&& f.tools.herdr_ferry
            &&& f.tools.pbpaste || f.tools.wl_paste || f.tools.xclip
            &&& f.tools.ssh
            &&& f.alias matches Some(a) && a.host is Some && (a.remote matches RemoteFacts::Found {
                version,
                shared,
                ..
            } && shared && (version matches Some(v) && version_in(v@) == f.version@))
            &&& f.macos ==> f.tools.pbcopy && f.tools.osascript
            &&& !f.macos ==> (f.tools.wl_copy || f.tools.xclip) && f.tools.notify_send
        },
        r.1 == 0 || r.1 == 1,
{
    law_success_means_all_good(*f);
    let s = server_checks(*f);
    let c = client_checks(*f);
    if r.1 == 0 {
        assert(s[0].ok && s[1].ok);
        assert(s[2].ok && s[3].ok && s[4].ok);
        assert(c[0].ok && c[1].ok && c[2].ok);
        if let Some(a) = f.alias {
            match a.remote {
                RemoteFacts::Lost { reason } => {
                    assert(!c[2].ok);
                },
                RemoteFacts::Found { remote_bin, version, shared } => {
                    assert(c[3].ok && c[4].ok && c[5].ok && c[6].ok);
                },
            }
        } else {
            assert(!c[1].ok);
        }
    }
}

} // verus!
