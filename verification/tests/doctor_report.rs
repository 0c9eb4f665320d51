use herdr_ferry::doctor::{alias_to_check, run, AliasFacts, Facts, RemoteFacts, Tools};
use herdr_ferry::error::Error;
use herdr_ferry::ssh::ClientConfig;

fn tools(all: bool) -> Tools {
    Tools {
        herdr_ferry: all,
        pbpaste: all,
        wl_paste: all,
        xclip: all,
        ssh: all,
        pbcopy: all,
        osascript: all,
        wl_copy: all,
        notify_send: all,
        terminal_notifier: all,
    }
}

fn facts(good: bool) -> Facts {
    Facts {
        version: "0.1.0".to_string(),
        os: "linux".to_string(),
        macos: false,
        state_root: "/s".to_string(),
        state_exists: good,
        herdr_bin: "herdr".to_string(),
        herdr_version: if good { Some("herdr 0.8.2".to_string()) } else { None },
        server_alive: good,
        self_path: Some("/bin/hf".to_string()),
        tools: tools(good),
        config_path: "/c".to_string(),
        alias: if good {
            Some(AliasFacts {
                alias: "alfred".to_string(),
                host: Some("box.lan".to_string()),
                remote: RemoteFacts::Found {
                    remote_bin: "/r/hf".to_string(),
                    version: Some("herdr-ferry 0.1.0\n".to_string()),
                    shared: true,
                },
            })
        } else {
            None
        },
    }
}

#[test]
fn a_healthy_machine() {
    let (lines, code) = run(&facts(true));
    assert_eq!(code, 0);
    assert_eq!(
        lines,
        vec![
            "herdr-ferry 0.1.0 on linux",
            "",
            "server side",
            "✓ state dir                    /s",
            "✓ herdr binary                 herdr 0.8.2",
            "✓ herdr server                 responding",
            "✓ herdr-ferry on PATH          ok (clients can find it over ssh)",
            "✓ clipboard read               pbpaste / wl-paste / xclip (for send --clip)",
            "",
            "client side",
            "✓ ssh                          ",
            "✓ ssh alias                    alfred → box.lan",
            "✓ remote herdr-ferry           /r/hf",
            "✓ remote version               0.1.0 (local 0.1.0)",
            "✓ ssh ControlMaster            active",
            "✓ clipboard write              wl-copy / xclip",
            "✓ notifications                notify-send",
            "",
            "all good",
        ]
    );
}

#[test]
fn everything_is_missing() {
    let (lines, code) = run(&facts(false));
    assert_eq!(code, 1);
    assert_eq!(
        lines,
        vec![
            "herdr-ferry 0.1.0 on linux",
            "",
            "server side",
            "✗ state dir                    /s",
            "✗ herdr binary                 herdr not runnable — fine on a client-only laptop",
            "✗ herdr-ferry on PATH          add /bin/hf to PATH or symlink it",
            "✗ clipboard read               pbpaste / wl-paste / xclip (for send --clip)",
            "",
            "client side",
            "✗ ssh                          ",
            "✗ ssh alias                    none: pass --alias, set HERDR_FERRY_ALIAS, or write alias = \"...\" to /c",
            "✗ clipboard write              wl-copy / xclip",
            "✗ notifications                notify-send",
            "",
            "8 problem(s)",
        ]
    );
}

#[test]
fn single_problems() {
    let mut f = facts(true);
    f.macos = true;
    f.tools.terminal_notifier = false;
    f.server_alive = false;
    f.alias = Some(AliasFacts {
        alias: "box".to_string(),
        host: Some("box".to_string()),
        remote: RemoteFacts::Found { remote_bin: "/r".to_string(), version: None, shared: false },
    });
    let (lines, code) = run(&f);
    assert_eq!(code, 1);
    assert_eq!(lines[5], "✗ herdr server                 not running (start herdr)");
    assert_eq!(
        lines[11..],
        [
            "✓ ssh alias                    box (plain hostname, not a ~/.ssh/config alias — fine)",
            "✓ remote herdr-ferry           /r",
            "✗ remote version               could not run remote binary",
            "✗ ssh ControlMaster            not active — add `ControlMaster auto` + `ControlPersist 10m` to the alias for ~0ms polls",
            "✓ clipboard write              pbcopy + osascript",
            "✓ notifications                osascript (install terminal-notifier for clickable toasts)",
            "",
            "3 problem(s)",
        ]
    );
    f.alias = Some(AliasFacts {
        alias: "typo".to_string(),
        host: None,
        remote: RemoteFacts::Lost { reason: "ssh to `typo` failed: ".to_string() },
    });
    f.self_path = None;
    f.tools.herdr_ferry = false;
    let (lines, _) = run(&f);
    assert_eq!(lines[6], "✗ herdr-ferry on PATH          add  to PATH or symlink it");
    assert_eq!(
        lines[11..13],
        [
            "✗ ssh alias                    typo: ssh cannot resolve it (typo, or missing from ~/.ssh/config)",
            "✗ remote herdr-ferry           ssh to `typo` failed: ",
        ]
    );
    f.alias = Some(AliasFacts {
        alias: "a".to_string(),
        host: Some("b".to_string()),
        remote: RemoteFacts::Found {
            remote_bin: "/r".to_string(),
            version: Some("0.2.0".to_string()),
            shared: true,
        },
    });
    assert_eq!(run(&f).0[13], "✗ remote version               0.2.0 (local 0.1.0)");
}

#[test]
fn the_alias_to_check() {
    let cfg = ClientConfig { alias: Some("c".to_string()), remote_bin: None, dest: None };
    let s = |x: &str| Some(x.to_string());
    assert_eq!(alias_to_check(s("a"), s("b"), &cfg), s("a"));
    assert_eq!(alias_to_check(None, s(""), &cfg), s(""));
    assert_eq!(alias_to_check(None, None, &cfg), s("c"));
}

#[test]
fn messages_of_the_remaining_errors() {
    let payload = Error::PayloadMissing { id: "01".to_string() };
    assert_eq!(payload.message(), "payload missing for 01 (already acked?)");
    let system = Error::System { context: "create /x".to_string(), reason: "denied".to_string() };
    assert_eq!(system.message(), "create /x: denied");
}
