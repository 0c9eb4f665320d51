//! The way to the server: everything goes through `ssh` and the user's own configuration.

use vstd::prelude::*;

use crate::command::{self, owned, Command, CommandView};
use crate::error::Error;
use crate::path;
use crate::text::{self, copy_option};
use crate::util;

verus! {

/// What the configuration file of a client says.
pub struct ClientConfig {
    pub alias: Option<String>,
    pub remote_bin: Option<String>,
    pub dest: Option<String>,
}

impl Default for ClientConfig {
    fn default() -> (r: ClientConfig)
        ensures
            r == (ClientConfig { alias: None, remote_bin: None, dest: None }),
    {
        ClientConfig { alias: None, remote_bin: None, dest: None }
    }
}

/// Where the configuration file of a client lies: in `.config` in the home directory on
/// macOS, and elsewhere in the user's directory for such files, if that is known.
pub open spec fn config_at(
    macos: bool,
    config_dir: Option<Seq<char>>,
    home: Seq<char>,
) -> Seq<char> {
    match config_dir {
        Some(d) if !macos => path::path_joined(
            path::path_joined(d, "herdr-ferry"@),
            "client.toml"@,
        ),
        _ => path::path_joined(home, ".config/herdr-ferry/client.toml"@),
    }
}

/// The configuration file of a client.
pub fn config_path(macos: bool, config_dir: Option<&str>, home: &str) -> (r: String)
    ensures
        r@ == config_at(macos, text::str_option(config_dir), home@),
{
    if macos {
        return path::join(home, ".config/herdr-ferry/client.toml");
    }
    match config_dir {
        Some(d) => path::join(path::join(d, "herdr-ferry").as_str(), "client.toml"),
        None => path::join(home, ".config/herdr-ferry/client.toml"),
    }
}

/// Looks for the program on the server: on the path, in the usual places, and where Herdr
/// keeps its plugins.
pub const REMOTE_BIN_CANDIDATES: &'static str = r#"command -v herdr-ferry 2>/dev/null && exit 0
for p in "$HOME/.local/bin/herdr-ferry" "$HOME/.cargo/bin/herdr-ferry" "$HOME/.herdr-ferry/bin/herdr-ferry" "$HOME"/.config/herdr/plugins/github/*herdr-ferry*/target/release/herdr-ferry; do
  [ -x "$p" ] && { echo "$p"; exit 0; }
done
H=$(command -v herdr || ls "$HOME/.local/bin/herdr" "$HOME/.cargo/bin/herdr" /opt/homebrew/bin/herdr /usr/local/bin/herdr 2>/dev/null | head -1)
[ -n "$H" ] && root=$("$H" plugin list --json 2>/dev/null | tr ',' '\n' | grep -A1 '"plugin_id":"herdr-ferry"' | grep -o '"plugin_root":"[^"]*"' | head -1 | cut -d'"' -f4)
[ -n "$root" ] && [ -x "$root/target/release/herdr-ferry" ] && { echo "$root/target/release/herdr-ferry"; exit 0; }
exit 3"#;

/// The server, and the program on it.
pub struct Remote {
    pub alias: String,
    pub remote_bin: String,
}

/// The alias that is given, or that of the environment unless it is empty, or that of the
/// configuration.
pub open spec fn chosen_alias(
    given: Option<String>,
    env_alias: Option<String>,
    cfg: ClientConfig,
) -> Option<String> {
    match given {
        Some(a) => Some(a),
        None => match env_alias {
            Some(e) => if e@.len() > 0 {
                Some(e)
            } else {
                cfg.alias
            },
            None => cfg.alias,
        },
    }
}

/// Whether `discover` has answered the alias `alias` with `a`.
pub open spec fn discovered_as<F: Fn(&str) -> Result<String, Error>>(
    discover: F,
    alias: Seq<char>,
    a: Result<String, Error>,
) -> bool {
    exists|s: &str| s@ == alias && #[trigger] call_ensures(discover, (s,), a)
}

/// The line that the shell on the server gets.
pub open spec fn remote_line(remote: Remote, args: Seq<Seq<char>>) -> Seq<char> {
    util::shell_line(seq![remote.remote_bin@] + args)
}

/// The command line that runs the program on the server.
pub open spec fn ssh_line(remote: Remote, args: Seq<Seq<char>>) -> CommandView {
    CommandView {
        program: "ssh"@,
        args: seq!["-o"@, "BatchMode=yes"@, remote.alias@, remote_line(remote, args)],
    }
}

/// Whether `run` has run the command line `c` with the outcome `a`: an exit code, unless the
/// process was stopped, and an output.
pub open spec fn ran<F: Fn(&Command) -> Result<(Option<i32>, String), Error>>(
    run: F,
    c: CommandView,
    a: Result<(Option<i32>, String), Error>,
) -> bool {
    exists|cmd: &Command| cmd@ == c && #[trigger] call_ensures(run, (cmd,), a)
}

/// What a run of the program on the server comes to.
pub open spec fn run_verdict(
    args: Seq<Seq<char>>,
    a: Result<(i32, String), Error>,
    r: Result<String, Error>,
) -> bool {
    match a {
        Err(e) => r == Err::<String, Error>(e),
        Ok((code, out)) => if code == 0 {
            r == Ok::<String, Error>(out)
        } else {
            r matches Err(Error::RemoteExit { args: x, status }) && text::texts(x@) == args
                && status@ == text::dec_signed(code as int)
        },
    }
}

/// An outcome with a number for the exit code: less than nothing for a process that was
/// stopped.
pub open spec fn numbered(a: Result<(Option<i32>, String), Error>) -> Result<
    (i32, String),
    Error,
> {
    match a {
        Ok((Some(c), out)) => Ok((c, out)),
        Ok((None, out)) => Ok((-1i32, out)),
        Err(e) => Err(e),
    }
}

/// The output of a run with the arguments `args`, unless it failed.
pub fn checked(args: &Vec<&str>, a: Result<(i32, String), Error>) -> (r: Result<String, Error>)
    ensures
        run_verdict(command::strs(args@), a, r),
{
    match a {
        Err(e) => Err(e),
        Ok((code, out)) => if code != 0 {
            Err(Error::RemoteExit { args: owned(args), status: text::decimal_signed(code) })
        } else {
            Ok(out)
        },
    }
}

impl Remote {
    /// The server that is meant; the program on it is found by `discover` unless the
    /// configuration names it.
    pub fn resolve<F: Fn(&str) -> Result<String, Error>>(
        given: Option<String>,
        env_alias: Option<String>,
        cfg: &ClientConfig,
        config: &str,
        discover: F,
    ) -> (r: Result<Remote, Error>)
        requires
            forall|s: &str| call_requires(discover, (s,)),
        ensures
            match chosen_alias(given, env_alias, *cfg) {
                None => r matches Err(Error::NoAlias { config: c }) && c@ == config@,
                Some(alias) => match cfg.remote_bin {
                    Some(b) => r == Ok::<Remote, Error>(Remote { alias, remote_bin: b }),
                    None => match r {
                        Ok(remote) => remote.alias == alias && discovered_as(
                            discover,
                            alias@,
                            Ok(remote.remote_bin),
                        ),
                        Err(e) => discovered_as(discover, alias@, Err(e)),
                    },
                },
            },
    {
        let alias = match given {
            Some(a) => Some(a),
            None => match env_alias {
                Some(e) => if e.as_str().is_empty() {
                    copy_option(&cfg.alias)
                } else {
                    Some(e)
                },
                None => copy_option(&cfg.alias),
            },
        };
        let alias = match alias {
            Some(a) => a,
            None => {
                return Err(Error::NoAlias { config: config.to_owned() });
            },
        };
        match &cfg.remote_bin {
            Some(b) => Ok(Remote { alias, remote_bin: b.clone() }),
            None => match discover(alias.as_str()) {
                Ok(b) => Ok(Remote { alias, remote_bin: b }),
                Err(e) => Err(e),
            },
        }
    }

    /// The command line that runs the program on the server with the arguments `args`.
    pub fn ssh_cmd(&self, args: &Vec<&str>) -> (r: Command)
        ensures
            r@ == ssh_line(*self, command::strs(args@)),
    {
        let ghost words = seq![self.remote_bin@] + command::strs(args@);
        let ghost quoted = words.map_values(|w: Seq<char>| util::shell_quoted(w));
        let mut parts: Vec<String> = Vec::new();
        parts.push(util::sh_quote(self.remote_bin.as_str()));
        proof {
            assert(text::texts(parts@) == quoted.take(1));
        }
        for i in 0..args.len()
            invariant
                words == seq![self.remote_bin@] + command::strs(args@),
                quoted == words.map_values(|w: Seq<char>| util::shell_quoted(w)),
                text::texts(parts@) == quoted.take(i + 1),
        {
            let ghost before = parts@;
            parts.push(util::sh_quote(args[i]));
            proof {
                assert(words[i + 1] == args@[i as int]@);
                assert(text::texts(parts@) == text::texts(before).push(
                    util::shell_quoted(args@[i as int]@),
                ));
                assert(quoted.take(i + 2) == quoted.take(i + 1).push(quoted[i + 1]));
            }
        }
        proof {
            assert(quoted.take(quoted.len() as int) == quoted);
        }
        let line = text::join(&parts, " ");
        proof {
            reveal_strlit(" ");
            assert(" "@ == seq![' ']);
            assert(line@ == util::shell_line(words));
        }
        let c = command::command(
            "ssh",
            &vec!["-o", "BatchMode=yes", self.alias.as_str(), line.as_str()],
        );
        proof {
            assert(c@.args == ssh_line(*self, command::strs(args@)).args);
        }
        c
    }

    /// Runs the program on the server: its exit code and its output.
    pub fn run<F: Fn(&Command) -> Result<(Option<i32>, String), Error>>(
        &self,
        args: &Vec<&str>,
        run: F,
    ) -> (r: Result<(i32, String), Error>)
        requires
            forall|c: &Command| call_requires(run, (c,)),
        ensures
            exists|a: Result<(Option<i32>, String), Error>|
                #[trigger] ran(run, ssh_line(*self, command::strs(args@)), a) && r == numbered(a),
    {
        let cmd = self.ssh_cmd(args);
        let a = run(&cmd);
        proof {
            assert(ran(run, ssh_line(*self, command::strs(args@)), a));
        }
        match a {
            Ok((Some(code), out)) => Ok((code, out)),
            Ok((None, out)) => Ok((-1, out)),
            Err(e) => Err(e),
        }
    }

    /// Runs the program on the server: its output; a failure there is an error.
    pub fn run_ok<F: Fn(&Command) -> Result<(Option<i32>, String), Error>>(
        &self,
        args: &Vec<&str>,
        run: F,
    ) -> (r: Result<String, Error>)
        requires
            forall|c: &Command| call_requires(run, (c,)),
        ensures
            exists|a: Result<(Option<i32>, String), Error>|
                #[trigger] ran(run, ssh_line(*self, command::strs(args@)), a) && run_verdict(
                    command::strs(args@),
                    numbered(a),
                    r,
                ),
    {
        let a = self.run(args, run);
        checked(args, a)
    }

    /// What a run comes to whose output has been streamed elsewhere.
    pub fn run_to_writer(&self, args: &Vec<&str>, success: bool, status: &str) -> (r: Result<
        (),
        Error,
    >)
        ensures
            match r {
                Ok(()) => success,
                Err(Error::RemoteExit { args: x, status: s }) => !success && text::texts(x@)
                    == command::strs(args@) && s@ == status@,
                Err(_) => false,
            },
    {
        if !success {
            return Err(Error::RemoteExit { args: owned(args), status: status.to_owned() });
        }
        Ok(())
    }

    /// What a run comes to into which a file has been streamed: its output, without white
    /// space around it.
    pub fn run_from_file(
        &self,
        args: &Vec<&str>,
        success: bool,
        status: &str,
        stdout: &str,
    ) -> (r: Result<String, Error>)
        ensures
            match r {
                Ok(s) => success && s@ == text::trimmed(stdout@),
                Err(Error::RemoteExit { args: x, status: s }) => !success && text::texts(x@)
                    == command::strs(args@) && s@ == status@,
                Err(_) => false,
            },
    {
        match self.run_to_writer(args, success, status) {
            Ok(()) => Ok(text::trim(stdout)),
            Err(e) => Err(e),
        }
    }

    /// The command line that asks whether a shared connection is open.
    pub fn control_master_active(&self) -> (r: Command)
        ensures
            r@ == (CommandView { program: "ssh"@, args: seq!["-O"@, "check"@, self.alias@] }),
    {
        let c = command::command("ssh", &vec!["-O", "check", self.alias.as_str()]);
        proof {
            assert(c@.args == seq!["-O"@, "check"@, self.alias@]);
        }
        c
    }
}

/// The program on the server gets exactly the arguments that it was given, whatever is in
/// them.
pub proof fn law_remote_gets_words(remote: Remote, args: Seq<Seq<char>>)
    ensures
        util::shell_words(ssh_line(remote, args).args[3]) == Some(
            seq![remote.remote_bin@] + args,
        ),
{
    util::law_shell_reads_line(seq![remote.remote_bin@] + args);
}

/// The command line that looks for the program on the server.
pub fn discover_remote_bin(alias: &str) -> (r: Command)
    ensures
        r@ == (CommandView {
            program: "ssh"@,
            args: seq!["-o"@, "BatchMode=yes"@, alias@, REMOTE_BIN_CANDIDATES@],
        }),
{
    let c = command::command("ssh", &vec!["-o", "BatchMode=yes", alias, REMOTE_BIN_CANDIDATES]);
    proof {
        assert(c@.args == seq!["-o"@, "BatchMode=yes"@, alias@, REMOTE_BIN_CANDIDATES@]);
    }
    c
}

/// What helps against a failure of ssh that complains of `stderr`.
pub open spec fn ssh_hint(alias: Seq<char>, stderr: Seq<char>) -> Seq<char> {
    if text::occurs(stderr, "Host key verification failed"@) {
        " — run `ssh "@ + alias + "` once interactively to accept the host key"@
    } else if text::occurs(stderr, "Permission denied"@) {
        " — key auth is required (BatchMode); add your key to the server's authorized_keys"@
    } else {
        Seq::empty()
    }
}

/// What the search for the program on the server has come to.
pub fn discovered(alias: &str, code: Option<i32>, stdout: &str, stderr: &str) -> (r: Result<
    String,
    Error,
>)
    ensures
        match r {
            Ok(p) => code == Some(0i32) && p@ == text::trimmed(stdout@) && p@.len() > 0,
            Err(Error::RemoteMissing { alias: a }) => code == Some(3i32) && a@ == alias@,
            Err(Error::SshFailed { alias: a, stderr: e, hint }) => {
                &&& code != Some(3i32)
                &&& code == Some(0i32) ==> text::trimmed(stdout@).len() == 0
                &&& a@ == alias@
                &&& e@ == text::trimmed(stderr@)
                &&& hint@ == ssh_hint(alias@, e@)
            },
            Err(_) => false,
        },
{
    let found = text::trim(stdout);
    let code: i32 = match code {
        Some(c) => c,
        None => 1,
    };
    if code == 0 && !found.as_str().is_empty() {
        return Ok(found);
    }
    if code == 3 {
        return Err(Error::RemoteMissing { alias: alias.to_owned() });
    }
    let err = text::trim(stderr);
    let mut hint = String::new();
    if text::contains(err.as_str(), "Host key verification failed") {
        hint.append(" — run `ssh ");
        hint.append(alias);
        hint.append("` once interactively to accept the host key");
    } else if text::contains(err.as_str(), "Permission denied") {
        hint.append(
            " — key auth is required (BatchMode); add your key to the server's authorized_keys",
        );
    }
    Err(Error::SshFailed { alias: alias.to_owned(), stderr: err, hint })
}

/// The command line that shows the configuration of an alias.
pub open spec fn alias_line(alias: Seq<char>) -> CommandView {
    CommandView { program: "ssh"@, args: seq!["-G"@, alias] }
}

/// The host name in some lines of configuration, from the `k`th on.
pub open spec fn hostname_in(lines: Seq<Seq<char>>, k: int) -> Option<Seq<char>>
    decreases lines.len() - k,
{
    if k < 0 || k >= lines.len() {
        None
    } else if "hostname "@.is_prefix_of(lines[k]) {
        Some(text::trimmed(lines[k].skip("hostname "@.len() as int)))
    } else {
        hostname_in(lines, k + 1)
    }
}

/// The host that an alias leads to; nothing where ssh does not say.
pub fn alias_hostname<F: Fn(&Command) -> Result<String, Error>>(alias: &str, ask: F) -> (r: Option<
    String,
>)
    requires
        forall|c: &Command| call_requires(ask, (c,)),
    ensures
        exists|a: Result<String, Error>|
            #[trigger] command::answered(ask, alias_line(alias@), a) && text::text_option(r)
                == match a {
                Ok(out) => hostname_in(text::lines_of(out@), 0),
                Err(_) => None,
            },
{
    let c = command::command("ssh", &vec!["-G", alias]);
    let a = ask(&c);
    proof {
        assert(c@.args == seq!["-G"@, alias@]);
        assert(command::answered(ask, alias_line(alias@), a));
    }
    match a {
        Ok(out) => configured_host(out.as_str()),
        Err(_) => None,
    }
}

/// The host that an alias leads to, by what `ssh -G` has printed.
pub fn configured_host(output: &str) -> (r: Option<String>)
    ensures
        text::text_option(r) == hostname_in(text::lines_of(output@), 0),
{
    let lines = text::lines(output);
    let ghost all = text::lines_of(output@);
    let width: usize = text::chars_of("hostname ").len();
    for i in 0..lines.len()
        invariant
            width == "hostname "@.len(),
            all == text::lines_of(output@),
            all == text::texts(lines@),
            hostname_in(all, 0) == hostname_in(all, i as int),
    {
        let line = lines[i].as_str();
        proof {
            assert(all[i as int] == line@);
        }
        if text::starts_with(line, "hostname ") {
            let cs = text::chars_of(line);
            let rest = text::string_range(&cs, width, cs.len());
            proof {
                assert(rest@ == line@.skip(width as int));
            }
            return Some(text::trim(rest.as_str()));
        }
    }
    None
}

/// The command line goes to the alias of the server, and never asks for a password.
pub proof fn law_ssh_goes_to_alias(remote: Remote, args: Seq<Seq<char>>)
    ensures
        ssh_line(remote, args).program == "ssh"@,
        ssh_line(remote, args).args.len() == 4,
        ssh_line(remote, args).args[0] == "-o"@,
        ssh_line(remote, args).args[1] == "BatchMode=yes"@,
        ssh_line(remote, args).args[2] == remote.alias@,
{
}

/// An alias that is given counts before that of the environment, and that before that of
/// the configuration.
pub proof fn law_alias_order(a: String, e: String, env_alias: Option<String>, cfg: ClientConfig)
    ensures
        chosen_alias(Some(a), env_alias, cfg) == Some(a),
        e@.len() > 0 ==> chosen_alias(None, Some(e), cfg) == Some(e),
        e@.len() == 0 ==> chosen_alias(None, Some(e), cfg) == cfg.alias,
        chosen_alias(None, None, cfg) == cfg.alias,
{
}

/// The host name is what the first line says that starts with its key.
pub proof fn law_hostname(lines: Seq<Seq<char>>, i: int, host: Seq<char>)
    requires
        0 <= i < lines.len(),
        lines[i] == "hostname "@ + host,
        forall|j: int| 0 <= j < i ==> !"hostname "@.is_prefix_of(#[trigger] lines[j]),
        host.len() > 0,
        !text::is_space(host[0]) && !text::is_space(host.last()),
    ensures
        hostname_in(lines, 0) == Some(host),
{
    let none = Seq::<char>::empty();
    text::law_trimmed(none, host, none);
    assert(none + host + none =~= host);
    lemma_hostname(lines, 0, i, host);
}

proof fn lemma_hostname(lines: Seq<Seq<char>>, k: int, i: int, host: Seq<char>)
    requires
        0 <= k <= i < lines.len(),
        lines[i] == "hostname "@ + host,
        forall|j: int| 0 <= j < i ==> !"hostname "@.is_prefix_of(#[trigger] lines[j]),
        text::trimmed(host) == host,
    ensures
        hostname_in(lines, k) == Some(host),
    decreases i - k,
{
    let key = "hostname "@;
    if k < i {
        assert(!key.is_prefix_of(lines[k]));
        lemma_hostname(lines, k + 1, i, host);
    } else {
        assert(lines[i].take(key.len() as int) =~= key);
        assert(lines[i].skip(key.len() as int) =~= host);
    }
}

/// The configuration of a client lies in `herdr-ferry` in the directory for such files, and
/// in `.config` in the home directory on macOS or where that directory is not known.
pub proof fn law_configuration(dir: Seq<char>, home: Seq<char>)
    requires
        dir.len() > 0,
        home.len() > 0,
    ensures
        path::components_of(config_at(false, Some(dir), home)) == path::components_of(dir).push(
            path::Part::Normal("herdr-ferry"@),
        ).push(path::Part::Normal("client.toml"@)),
        path::components_of(config_at(true, Some(dir), home)) == path::components_of(home).push(
            path::Part::Normal(".config"@),
        ).push(path::Part::Normal("herdr-ferry"@)).push(path::Part::Normal("client.toml"@)),
        config_at(false, None, home) == config_at(true, Some(dir), home),
        config_at(true, None, home) == config_at(true, Some(dir), home),
{
    reveal_strlit("herdr-ferry");
    reveal_strlit("client.toml");
    reveal_strlit(".config");
    reveal_strlit(".config/herdr-ferry/client.toml");
    assert(path::plain_name("herdr-ferry"@)) by {
        assert("herdr-ferry"@[0] == 'h');
        assert forall|i: int| 0 <= i < "herdr-ferry"@.len() implies "herdr-ferry"@[i] != '/' by {}
    }
    assert(path::plain_name("client.toml"@)) by {
        assert("client.toml"@[0] == 'c');
        assert forall|i: int| 0 <= i < "client.toml"@.len() implies "client.toml"@[i] != '/' by {}
    }
    assert(path::plain_name(".config"@)) by {
        assert(".config"@.len() == 7);
        assert forall|i: int| 0 <= i < ".config"@.len() implies ".config"@[i] != '/' by {}
    }
    path::law_join_name(dir, "herdr-ferry"@);
    path::law_join_name(path::path_joined(dir, "herdr-ferry"@), "client.toml"@);
    let names = seq![".config"@, "herdr-ferry"@, "client.toml"@];
    path::law_join_names(home, names);
    reveal_with_fuel(text::joined, 4);
    let d1 = names.drop_last();
    let d2 = d1.drop_last();
    assert(d2[0] == ".config"@);
    assert(text::joined(d1, seq!['/']) == ".config"@ + seq!['/'] + "herdr-ferry"@);
    assert(text::joined(names, seq!['/']) =~= ".config/herdr-ferry/client.toml"@);
    assert(path::components_of(home) + path::normal_parts(names) =~= path::components_of(home).push(
        path::Part::Normal(".config"@),
    ).push(path::Part::Normal("herdr-ferry"@)).push(path::Part::Normal("client.toml"@)));
}

/// A command line for the server goes to its alias, and the shell there reads the program and
/// exactly the arguments.
pub proof fn law_ssh_cmd(remote: &Remote, args: &Vec<&str>, r: Command)
    requires
        call_ensures(Remote::ssh_cmd, (remote, args), r),
    ensures
        r@.program == "ssh"@ && r@.args.len() == 4 && r@.args[2] == remote.alias@,
        util::shell_words(r@.args[3]) == Some(
            seq![remote.remote_bin@] + command::strs(args@),
        ),
{
    law_remote_gets_words(*remote, command::strs(args@));
}

/// A run on the server succeeds exactly with exit code zero, and then gives its output.
pub proof fn law_checked(
    args: &Vec<&str>,
    code: i32,
    out: String,
    r: Result<String, Error>,
)
    requires
        call_ensures(checked, (args, Ok((code, out))), r),
    ensures
        code == 0 ==> r == Ok::<String, Error>(out),
        code != 0 ==> (r matches Err(Error::RemoteExit { status, .. }) && status@
            == text::dec_signed(code as int)),
{
}

/// The program on the server is what the search says, without white space around it.
pub proof fn law_discovered(
    alias: &str,
    stdout: &str,
    stderr: &str,
    core: Seq<char>,
    post: Seq<char>,
    r: Result<String, Error>,
)
    requires
        call_ensures(discovered, (alias, Some(0i32), stdout, stderr), r),
        stdout@ == core + post,
        text::all_space(post),
        core.len() > 0,
        !text::is_space(core[0]) && !text::is_space(core.last()),
    ensures
        r matches Ok(p) && p@ == core,
{
    let none = Seq::<char>::empty();
    text::law_trimmed(none, core, post);
    assert(none + core + post =~= stdout@);
}

/// The hint against a host key that is not known names the alias.
pub proof fn law_hint_names_the_alias(alias: Seq<char>, stderr: Seq<char>)
    requires
        text::occurs(stderr, "Host key verification failed"@),
    ensures
        (" — run `ssh "@ + alias).is_prefix_of(ssh_hint(alias, stderr)),
{
    let head = " — run `ssh "@ + alias;
    assert(head =~= ssh_hint(alias, stderr).take(head.len() as int));
}

/// What a run on the server gives is the code and the output of that run, and a run without a
/// code counts as a failure.
pub proof fn law_run<F: Fn(&Command) -> Result<(Option<i32>, String), Error>>(
    remote: &Remote,
    args: &Vec<&str>,
    run: F,
    a: Result<(Option<i32>, String), Error>,
    r: Result<(i32, String), Error>,
    ok: Result<String, Error>,
)
    requires
        call_ensures(Remote::run::<F>, (remote, args, run), r),
        call_ensures(Remote::run_ok::<F>, (remote, args, run), ok),
        forall|c: &Command, b: Result<(Option<i32>, String), Error>| #[trigger]
            call_ensures(run, (c,), b) ==> b == a,
    ensures
        a matches Err(e) ==> r == Err::<(i32, String), Error>(e) && ok == Err::<String, Error>(e),
        a matches Ok((Some(code), out)) ==> r == Ok::<(i32, String), Error>((code, out)) && (code
            == 0 ==> ok == Ok::<String, Error>(out)) && (code != 0 ==> ok is Err),
        a matches Ok((None, out)) ==> (r matches Ok((code, o)) && code != 0 && o == out)
            && ok is Err,
{
}

/// The host of an alias is what `ssh -G` prints for that alias.
pub proof fn law_alias_hostname<F: Fn(&Command) -> Result<String, Error>>(
    alias: &str,
    ask: F,
    out: String,
    i: int,
    host: Seq<char>,
    r: Option<String>,
)
    requires
        call_ensures(alias_hostname::<F>, (alias, ask), r),
        forall|c: &Command, a: Result<String, Error>| #[trigger]
            call_ensures(ask, (c,), a) && c@.program == "ssh"@ && c@.args =~= seq!["-G"@, alias@]
                ==> a == Ok::<String, Error>(out),
        0 <= i < text::lines_of(out@).len(),
        text::lines_of(out@)[i] == "hostname "@ + host,
        forall|j: int|
            0 <= j < i ==> !"hostname "@.is_prefix_of(#[trigger] text::lines_of(out@)[j]),
        host.len() > 0,
        !text::is_space(host[0]) && !text::is_space(host.last()),
    ensures
        r matches Some(h) && h@ == host,
{
    law_hostname(text::lines_of(out@), i, host);
}

} // verus!
