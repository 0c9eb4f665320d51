//! Talking to Herdr: what its environment says, which command lines ask it, and what
//! its answers mean.

use vstd::prelude::*;

use crate::command::{self, owned, Command, CommandView};
use crate::error::Error;
use crate::json::{self, Json, JsonView};
use crate::path;
use crate::state::{Item, ItemState, Listing, Source};
use crate::text::{self, copy_option, str_eq};
use crate::util;

verus! {

/// The context in which Herdr has called the plugin.
pub struct InvocationContext {
    pub workspace_id: Option<String>,
    pub workspace_cwd: Option<String>,
    pub tab_id: Option<String>,
    pub focused_pane_id: Option<String>,
    pub focused_pane_cwd: Option<String>,
    pub focused_pane_agent: Option<String>,
    pub selected_text: Option<String>,
    pub clicked_url: Option<String>,
    pub invocation_source: Option<String>,
}

/// The context of which nothing is known.
pub open spec fn no_context() -> InvocationContext {
    InvocationContext {
        workspace_id: None,
        workspace_cwd: None,
        tab_id: None,
        focused_pane_id: None,
        focused_pane_cwd: None,
        focused_pane_agent: None,
        selected_text: None,
        clicked_url: None,
        invocation_source: None,
    }
}

impl Default for InvocationContext {
    fn default() -> (r: InvocationContext)
        ensures
            r == no_context(),
    {
        InvocationContext {
            workspace_id: None,
            workspace_cwd: None,
            tab_id: None,
            focused_pane_id: None,
            focused_pane_cwd: None,
            focused_pane_agent: None,
            selected_text: None,
            clicked_url: None,
            invocation_source: None,
        }
    }
}

/// The environment of the process, as far as it is read.
pub struct EnvVars {
    pub herdr_bin_path: Option<String>,
    pub herdr_env: Option<String>,
    pub herdr_plugin_id: Option<String>,
    pub herdr_pane_id: Option<String>,
    pub herdr_workspace_id: Option<String>,
    pub herdr_plugin_clicked_url: Option<String>,
    pub ferry_pane_id: Option<String>,
    pub ferry_workspace_id: Option<String>,
    pub ferry_cwd: Option<String>,
    pub ferry_agent: Option<String>,
    pub ferry_selected: Option<String>,
    /// The working directory, where there is one.
    pub current_dir: Option<String>,
}

/// A variable that is set and not empty.
pub open spec fn filled(v: Option<String>) -> Option<String> {
    match v {
        Some(s) => if s@.len() > 0 {
            v
        } else {
            None
        },
        None => None,
    }
}

/// `a` where it is there, otherwise `b`.
pub open spec fn either(a: Option<String>, b: Option<String>) -> Option<String> {
    if a is Some {
        a
    } else {
        b
    }
}

pub(crate) fn filled_copy(v: &Option<String>) -> (r: Option<String>)
    ensures
        r == filled(*v),
{
    match v {
        Some(s) => if s.as_str().is_empty() {
            None
        } else {
            Some(s.clone())
        },
        None => None,
    }
}

fn first_of(a: Option<String>, b: Option<String>) -> (r: Option<String>)
    ensures
        r == either(a, b),
{
    match a {
        Some(s) => Some(s),
        None => b,
    }
}

impl EnvVars {
    /// The working directory of the process.
    pub fn process_cwd(&self) -> (r: String)
        ensures
            r@ == process_cwd(*self),
    {
        match &self.current_dir {
            Some(c) => c.clone(),
            None => ".".to_owned(),
        }
    }
}

/// How Herdr is reached, and from where it has been called.
pub struct Ctx {
    pub bin: String,
    pub under_herdr: bool,
    pub plugin_id: String,
    pub context: InvocationContext,
    pub pane_id: Option<String>,
    pub workspace_id: Option<String>,
}

/// The text of an optional string, or `d`.
pub open spec fn text_or(o: Option<String>, d: Seq<char>) -> Seq<char> {
    match o {
        Some(s) => s@,
        None => d,
    }
}

/// The pane that has the focus, among the panes that Herdr lists.
pub open spec fn focused_in(panes: Seq<JsonView>) -> Option<JsonView>
    decreases panes.len(),
{
    if panes.len() == 0 {
        None
    } else if panes[0].true_at("focused"@) {
        Some(panes[0])
    } else {
        focused_in(panes.skip(1))
    }
}

/// The id of the focused pane in Herdr's list of panes.
pub open spec fn focused_pane_of(v: JsonView) -> Option<Seq<char>> {
    match focused_in(v.list_at("panes"@)) {
        Some(p) => p.text_at("pane_id"@),
        None => None,
    }
}

/// The working directory in Herdr's description of a pane.
pub open spec fn cwd_of(v: JsonView) -> Option<Seq<char>> {
    cwd_told(v.get_or_self("pane"@))
}

/// The working directory that a description of a pane tells: that of the program in it, or
/// else that of the pane.
pub open spec fn cwd_told(pane: JsonView) -> Option<Seq<char>> {
    match pane.text_at("foreground_cwd"@) {
        Some(c) => Some(c),
        None => pane.text_at("cwd"@),
    }
}

/// The ids in a list of workspaces; what has none is left out.
pub open spec fn ids_in(list: Seq<JsonView>) -> Seq<Seq<char>>
    decreases list.len(),
{
    if list.len() == 0 {
        Seq::empty()
    } else {
        let front = ids_in(list.drop_last());
        match list.last().text_at("workspace_id"@) {
            Some(id) => front.push(id),
            None => front,
        }
    }
}

/// What Herdr's answer to a command line comes to: the `result` in it, where it has one.
pub open spec fn json_verdict(
    args: Seq<Seq<char>>,
    a: Result<String, Error>,
    r: Result<Json, Error>,
) -> bool {
    match a {
        Err(e) => r == Err::<Json, Error>(e),
        Ok(s) => match json::json_parse(s@) {
            Ok(v) => r matches Ok(j) && j@ == v.get_or_self("result"@),
            Err(e) => r matches Err(Error::NotJson { args: x, reason }) && text::texts(x@) == args
                && reason@ == e,
        },
    }
}

/// What Herdr's list of panes comes to.
pub open spec fn pane_verdict(a: Result<String, Error>, r: Result<String, Error>) -> bool {
    match a {
        Err(e) => r == Err::<String, Error>(e),
        Ok(s) => match json::json_parse(s@) {
            Ok(v) => match focused_pane_of(v.get_or_self("result"@)) {
                Some(id) => r matches Ok(x) && x@ == id,
                None => r matches Err(Error::NoFocusedPane),
            },
            Err(e) => r matches Err(Error::NotJson { args, reason }) && text::texts(args@) == seq![
                "pane"@,
                "list"@,
            ] && reason@ == e,
        },
    }
}

/// What Herdr's description of a pane comes to.
pub open spec fn info_verdict(
    pane: Seq<char>,
    a: Result<String, Error>,
    r: Result<Json, Error>,
) -> bool {
    match a {
        Err(e) => r == Err::<Json, Error>(e),
        Ok(s) => match json::json_parse(s@) {
            Ok(v) => r matches Ok(j) && j@ == v.get_or_self("result"@).get_or_self("pane"@),
            Err(e) => r matches Err(Error::NotJson { args, reason }) && text::texts(args@) == seq![
                "pane"@,
                "get"@,
                pane,
            ] && reason@ == e,
        },
    }
}

/// What Herdr's list of workspaces comes to.
pub open spec fn workspaces_verdict(
    a: Result<String, Error>,
    r: Result<Vec<String>, Error>,
) -> bool {
    match a {
        Err(e) => r == Err::<Vec<String>, Error>(e),
        Ok(s) => match json::json_parse(s@) {
            Ok(v) => r matches Ok(ids) && text::texts(ids@) == ids_in(
                v.get_or_self("result"@).list_at("workspaces"@),
            ),
            Err(e) => r matches Err(Error::NotJson { args, reason }) && text::texts(args@) == seq![
                "workspace"@,
                "list"@,
            ] && reason@ == e,
        },
    }
}

/// The working directory in an answer that describes a pane.
pub open spec fn answered_cwd(a: Result<String, Error>) -> Option<Seq<char>> {
    match a {
        Ok(s) => match json::json_parse(s@) {
            Ok(v) => cwd_of(v.get_or_self("result"@)),
            Err(_) => None,
        },
        Err(_) => None,
    }
}

/// The working directory of the process.
pub open spec fn process_cwd(env: EnvVars) -> Seq<char> {
    text_or(env.current_dir, "."@)
}

/// The working directory in an answer that describes a pane, or else that of the process.
pub open spec fn cwd_after(a: Result<String, Error>, env: EnvVars) -> Seq<char> {
    match answered_cwd(a) {
        Some(x) => x,
        None => process_cwd(env),
    }
}

/// The command line that asks Herdr.
pub open spec fn herdr_line(ctx: Ctx, args: Seq<Seq<char>>) -> CommandView {
    CommandView { program: ctx.bin@, args }
}

/// The command line that lists the workspaces.
pub open spec fn workspace_list_line(ctx: Ctx) -> CommandView {
    herdr_line(ctx, seq!["workspace"@, "list"@])
}

/// The command line that lists the panes.
pub open spec fn pane_list_line(ctx: Ctx) -> CommandView {
    herdr_line(ctx, seq!["pane"@, "list"@])
}

/// The command line that describes a pane.
pub open spec fn pane_get_line(ctx: Ctx, pane: Seq<char>) -> CommandView {
    herdr_line(ctx, seq!["pane"@, "get"@, pane])
}

/// Whether `c` is the directory that relative paths start from: that of the focused pane,
/// as the context, the environment or Herdr says, or else that of the process.
pub open spec fn is_pane_cwd<F: Fn(&Command) -> Result<String, Error>>(
    ctx: Ctx,
    env: EnvVars,
    ask: F,
    c: Seq<char>,
) -> bool {
    if ctx.context.focused_pane_cwd is Some {
        c == text_or(ctx.context.focused_pane_cwd, Seq::empty())
    } else if filled(env.ferry_cwd) is Some {
        c == text_or(env.ferry_cwd, Seq::empty())
    } else if ctx.under_herdr && ctx.pane_id is Some {
        exists|a: Result<String, Error>|
            #[trigger] command::answered(
                ask,
                pane_get_line(ctx, text_or(ctx.pane_id, Seq::empty())),
                a,
            ) && c == cwd_after(a, env)
    } else {
        c == process_cwd(env)
    }
}

/// The text before the first colon.
pub open spec fn before_colon(s: Seq<char>) -> Seq<char> {
    text::split_by(s, |c: char| c == ':')[0]
}

/// What is selected in the pane, by the context or by the environment, unless it is blank.
pub open spec fn selection(ctx: Ctx, env: EnvVars) -> Option<String> {
    match either(ctx.context.selected_text, env.ferry_selected) {
        Some(s) => if text::trimmed(s@).len() > 0 {
            Some(s)
        } else {
            None
        },
        None => None,
    }
}

/// An option and its value in front of the arguments that follow, where there is a value.
pub open spec fn option_args(flag: Seq<char>, head: Seq<char>, v: Option<String>) -> Seq<
    Seq<char>,
> {
    match v {
        Some(s) => seq![flag, head + s@],
        None => Seq::empty(),
    }
}

/// The arguments that open the picker.
pub open spec fn picker_args(ctx: Ctx, env: EnvVars, cwd: Seq<char>) -> Seq<Seq<char>> {
    seq![
        "plugin"@,
        "pane"@,
        "open"@,
        "--plugin"@,
        ctx.plugin_id@,
        "--entrypoint"@,
        "picker"@,
        "--focus"@,
    ] + option_args("--workspace"@, Seq::empty(), ctx.workspace_id) + option_args(
        "--env"@,
        "FERRY_PANE_ID="@,
        ctx.pane_id,
    ) + option_args("--env"@, "FERRY_WORKSPACE_ID="@, ctx.workspace_id) + seq![
        "--env"@,
        "FERRY_CWD="@ + cwd,
    ] + option_args("--env"@, "FERRY_AGENT="@, ctx.context.focused_pane_agent) + match selection(
        ctx,
        env,
    ) {
        Some(s) => seq![
            "--env"@,
            "FERRY_SELECTED="@ + text::trimmed(text::first_line_of(s@)),
        ],
        None => Seq::empty(),
    }
}

/// Appends an option and its value, where there is a value.
fn push_option(args: &mut Vec<String>, flag: &str, head: &str, v: &Option<String>)
    ensures
        text::texts(final(args)@) == text::texts(old(args)@) + option_args(flag@, head@, *v),
{
    match v {
        Some(s) => {
            push_pair(args, flag, head, s.as_str());
        },
        None => {
            proof {
                assert(text::texts(args@) + Seq::<Seq<char>>::empty() == text::texts(args@));
            }
        },
    }
}

fn push_pair(args: &mut Vec<String>, flag: &str, head: &str, v: &str)
    ensures
        text::texts(final(args)@) == text::texts(old(args)@) + seq![flag@, head@ + v@],
{
    let mut value = head.to_owned();
    value.append(v);
    args.push(flag.to_owned());
    args.push(value);
    proof {
        assert(text::texts(args@) == text::texts(old(args)@) + seq![flag@, head@ + v@]);
    }
}

impl Ctx {
    /// What the environment says, and the context that Herdr has handed over if it could
    /// be read.
    pub fn from_env(env: &EnvVars, context: Option<InvocationContext>) -> (r: Ctx)
        ensures
            r.bin@ == text_or(filled(env.herdr_bin_path), "herdr"@),
            r.under_herdr == (filled(env.herdr_env) is Some || filled(env.herdr_bin_path) is Some),
            r.plugin_id@ == text_or(filled(env.herdr_plugin_id), "herdr-ferry"@),
            r.context == match context {
                Some(c) => c,
                None => no_context(),
            },
            r.pane_id == either(
                r.context.focused_pane_id,
                either(filled(env.ferry_pane_id), filled(env.herdr_pane_id)),
            ),
            r.workspace_id == either(
                r.context.workspace_id,
                either(filled(env.ferry_workspace_id), filled(env.herdr_workspace_id)),
            ),
    {
        let bin_path = filled_copy(&env.herdr_bin_path);
        let under_herdr = filled_copy(&env.herdr_env).is_some() || bin_path.is_some();
        let bin = match bin_path {
            Some(b) => b,
            None => "herdr".to_owned(),
        };
        let plugin_id = match filled_copy(&env.herdr_plugin_id) {
            Some(p) => p,
            None => "herdr-ferry".to_owned(),
        };
        let context = match context {
            Some(c) => c,
            None => InvocationContext::default(),
        };
        let pane_id = first_of(
            copy_option(&context.focused_pane_id),
            first_of(filled_copy(&env.ferry_pane_id), filled_copy(&env.herdr_pane_id)),
        );
        let workspace_id = first_of(
            copy_option(&context.workspace_id),
            first_of(filled_copy(&env.ferry_workspace_id), filled_copy(&env.herdr_workspace_id)),
        );
        Ctx { bin, under_herdr, plugin_id, context, pane_id, workspace_id }
    }

    /// The command line that hands `args` to Herdr.
    pub fn herdr(&self, args: &Vec<&str>) -> (r: Command)
        ensures
            r@ == herdr_line(*self, command::strs(args@)),
    {
        command::command(self.bin.as_str(), args)
    }

    /// What Herdr answers to `args`.
    pub fn herdr_json<F: Fn(&Command) -> Result<String, Error>>(
        &self,
        args: &Vec<&str>,
        ask: F,
    ) -> (r: Result<Json, Error>)
        requires
            forall|c: &Command| call_requires(ask, (c,)),
        ensures
            exists|a: Result<String, Error>|
                #[trigger] command::answered(ask, herdr_line(*self, command::strs(args@)), a)
                    && json_verdict(command::strs(args@), a, r),
    {
        let cmd = self.herdr(args);
        let a = ask(&cmd);
        proof {
            assert(command::answered(ask, herdr_line(*self, command::strs(args@)), a));
        }
        json_answer(args, a)
    }

    /// Whether Herdr can be reached: it is asked for its workspaces.
    pub fn server_alive<F: Fn(&Command) -> Result<String, Error>>(&self, ask: F) -> (r: bool)
        requires
            forall|c: &Command| call_requires(ask, (c,)),
        ensures
            exists|a: Result<String, Error>|
                #[trigger] command::answered(
                    ask,
                    workspace_list_line(*self),
                    a,
                ) && r == a is Ok,
    {
        let cmd = self.herdr(&vec!["workspace", "list"]);
        let a = ask(&cmd);
        proof {
            assert(cmd@.args == seq!["workspace"@, "list"@]);
            assert(command::answered(ask, workspace_list_line(*self), a));
        }
        a.is_ok()
    }

    /// What is selected in the pane, unless it is blank.
    pub fn selected_text(&self, env: &EnvVars) -> (r: Option<String>)
        ensures
            r == selection(*self, *env),
    {
        let picked = first_of(
            copy_option(&self.context.selected_text),
            copy_option(&env.ferry_selected),
        );
        match picked {
            Some(s) => if text::trim(s.as_str()).as_str().is_empty() {
                None
            } else {
                Some(s)
            },
            None => None,
        }
    }

    /// The focused pane: as the context or the environment says, or else as Herdr lists it.
    pub fn resolve_pane<F: Fn(&Command) -> Result<String, Error>>(&self, ask: F) -> (r: Result<
        String,
        Error,
    >)
        requires
            forall|c: &Command| call_requires(ask, (c,)),
        ensures
            match self.pane_id {
                Some(p) => r == Ok::<String, Error>(p),
                None => exists|a: Result<String, Error>|
                    #[trigger] command::answered(
                        ask,
                        pane_list_line(*self),
                        a,
                    ) && pane_verdict(a, r),
            },
    {
        if let Some(p) = &self.pane_id {
            return Ok(p.clone());
        }
        let cmd = self.herdr(&vec!["pane", "list"]);
        let a = ask(&cmd);
        proof {
            assert(cmd@.args == seq!["pane"@, "list"@]);
            assert(command::answered(ask, pane_list_line(*self), a));
        }
        focused_pane(a)
    }

    /// What Herdr says of a pane.
    pub fn pane_info<F: Fn(&Command) -> Result<String, Error>>(&self, pane: &str, ask: F) -> (r:
        Result<Json, Error>)
        requires
            forall|c: &Command| call_requires(ask, (c,)),
        ensures
            exists|a: Result<String, Error>|
                #[trigger] command::answered(
                    ask,
                    pane_get_line(*self, pane@),
                    a,
                ) && info_verdict(pane@, a, r),
    {
        let args = vec!["pane", "get", pane];
        proof {
            assert(command::strs(args@) == seq!["pane"@, "get"@, pane@]);
        }
        let cmd = self.herdr(&args);
        let a = ask(&cmd);
        proof {
            assert(command::answered(ask, pane_get_line(*self, pane@), a));
        }
        match json_answer(&args, a) {
            Ok(v) => Ok(v.into_get_or_self("pane")),
            Err(e) => Err(e),
        }
    }

    /// The directory that relative paths start from.
    pub fn pane_cwd<F: Fn(&Command) -> Result<String, Error>>(&self, env: &EnvVars, ask: F) -> (r:
        String)
        requires
            forall|c: &Command| call_requires(ask, (c,)),
        ensures
            is_pane_cwd(*self, *env, ask, r@),
    {
        if let Some(c) = &self.context.focused_pane_cwd {
            return c.clone();
        }
        if let Some(c) = filled_copy(&env.ferry_cwd) {
            return c;
        }
        if self.under_herdr {
            if let Some(p) = &self.pane_id {
                let info = self.pane_info(p.as_str(), ask);
                let ghost line = pane_get_line(*self, text_or(self.pane_id, Seq::empty()));
                let ghost a = choose|a: Result<String, Error>|
                    #[trigger] command::answered(ask, line, a) && info_verdict(p@, a, info);
                let found = match info {
                    Ok(info) => cwd_in(&info),
                    Err(_) => None,
                };
                let c = match found {
                    Some(c) => c,
                    None => env.process_cwd(),
                };
                proof {
                    assert(command::answered(ask, line, a));
                    assert(c@ == cwd_after(a, *env));
                }
                return c;
            }
        }
        env.process_cwd()
    }

    /// Where an item comes from that is sent now.
    pub fn source<F: Fn(&Command) -> Result<String, Error>>(&self, env: &EnvVars, ask: F) -> (r:
        Source)
        requires
            forall|c: &Command| call_requires(ask, (c,)),
        ensures
            r.pane_id == self.pane_id,
            r@.workspace_id == match self.workspace_id {
                Some(w) => Some(w@),
                None => match self.pane_id {
                    Some(p) => Some(before_colon(p@)),
                    None => None,
                },
            },
            r.agent == either(self.context.focused_pane_agent, env.ferry_agent),
            r.cwd matches Some(c) && is_pane_cwd(*self, *env, ask, c@),
    {
        let workspace_id = match &self.workspace_id {
            Some(w) => Some(w.clone()),
            None => match &self.pane_id {
                Some(p) => {
                    let parts = text::split_at_char(p.as_str(), ':');
                    proof {
                        text::lemma_split_not_empty(p@, |c: char| c == ':');
                    }
                    Some(parts[0].clone())
                },
                None => None,
            },
        };
        Source {
            pane_id: copy_option(&self.pane_id),
            workspace_id,
            agent: first_of(
                copy_option(&self.context.focused_pane_agent),
                copy_option(&env.ferry_agent),
            ),
            cwd: Some(self.pane_cwd(env, ask)),
        }
    }

    /// The command line that reads the last lines of a pane.
    pub fn pane_read(&self, pane: &str, lines: u32) -> (r: Command)
        ensures
            r@ == herdr_line(
                *self,
                seq![
                    "pane"@,
                    "read"@,
                    pane@,
                    "--source"@,
                    "recent-unwrapped"@,
                    "--lines"@,
                    text::dec(lines as nat),
                ],
            ),
    {
        let n = text::decimal(lines as u64);
        let r = self.herdr(
            &vec!["pane", "read", pane, "--source", "recent-unwrapped", "--lines", n.as_str()],
        );
        proof {
            assert(r@.args == seq![
                "pane"@,
                "read"@,
                pane@,
                "--source"@,
                "recent-unwrapped"@,
                "--lines"@,
                text::dec(lines as nat),
            ]);
        }
        r
    }

    /// The command line that inserts `text` into a pane. It presses no key.
    pub fn send_text(&self, pane: &str, text: &str) -> (r: Command)
        ensures
            r@ == herdr_line(*self, seq!["pane"@, "send-text"@, pane@, text@]),
    {
        let r = self.herdr(&vec!["pane", "send-text", pane, text]);
        proof {
            assert(r@.args == seq!["pane"@, "send-text"@, pane@, text@]);
        }
        r
    }

    /// The ids of the workspaces that Herdr lists.
    pub fn workspace_ids<F: Fn(&Command) -> Result<String, Error>>(&self, ask: F) -> (r: Result<
        Vec<String>,
        Error,
    >)
        requires
            forall|c: &Command| call_requires(ask, (c,)),
        ensures
            exists|a: Result<String, Error>|
                #[trigger] command::answered(
                    ask,
                    workspace_list_line(*self),
                    a,
                ) && workspaces_verdict(a, r),
    {
        let cmd = self.herdr(&vec!["workspace", "list"]);
        let a = ask(&cmd);
        proof {
            assert(cmd@.args == seq!["workspace"@, "list"@]);
            assert(command::answered(ask, workspace_list_line(*self), a));
        }
        listed_workspaces(a)
    }

    /// The command line that shows `count` beside a workspace, or nothing where it is zero.
    pub fn report_token(&self, workspace: &str, count: usize) -> (r: Command)
        ensures
            r@ == token_line(*self, workspace@, count as nat),
    {
        if count == 0 {
            let r = self.herdr(
                &vec![
                    "workspace",
                    "report-metadata",
                    workspace,
                    "--source",
                    "ferry",
                    "--clear-token",
                    "ferry",
                ],
            );
            proof {
                assert(r@.args == token_line(*self, workspace@, 0).args);
            }
            r
        } else {
            let mut token = "ferry=".to_owned();
            text::push_dec(&mut token, count as u64);
            let r = self.herdr(
                &vec![
                    "workspace",
                    "report-metadata",
                    workspace,
                    "--source",
                    "ferry",
                    "--token",
                    token.as_str(),
                ],
            );
            proof {
                assert(r@.args == token_line(*self, workspace@, count as nat).args);
            }
            r
        }
    }

    /// The command line that opens the picker, to which it hands the context on.
    pub fn open_picker(&self, env: &EnvVars, cwd: &str) -> (r: Command)
        ensures
            r@ == herdr_line(*self, picker_args(*self, *env, cwd@)),
    {
        let mut args = owned(
            &vec![
                "plugin",
                "pane",
                "open",
                "--plugin",
                self.plugin_id.as_str(),
                "--entrypoint",
                "picker",
                "--focus",
            ],
        );
        proof {
            reveal_strlit("");
            assert(""@ == Seq::<char>::empty());
            assert(text::texts(args@) == seq![
                "plugin"@,
                "pane"@,
                "open"@,
                "--plugin"@,
                self.plugin_id@,
                "--entrypoint"@,
                "picker"@,
                "--focus"@,
            ]);
        }
        push_option(&mut args, "--workspace", "", &self.workspace_id);
        push_option(&mut args, "--env", "FERRY_PANE_ID=", &self.pane_id);
        push_option(&mut args, "--env", "FERRY_WORKSPACE_ID=", &self.workspace_id);
        push_pair(&mut args, "--env", "FERRY_CWD=", cwd);
        push_option(&mut args, "--env", "FERRY_AGENT=", &self.context.focused_pane_agent);
        let ghost before = text::texts(args@);
        match self.selected_text(env) {
            Some(s) => {
                let line = text::trim(text::first_line(s.as_str()).as_str());
                push_pair(&mut args, "--env", "FERRY_SELECTED=", line.as_str());
            },
            None => {
                proof {
                    assert(before + Seq::<Seq<char>>::empty() == before);
                }
            },
        }
        Command { program: self.bin.clone(), args }
    }
}

/// The command line that shows a count beside a workspace, or clears it where it is zero.
pub open spec fn token_line(ctx: Ctx, workspace: Seq<char>, count: nat) -> CommandView {
    herdr_line(
        ctx,
        seq!["workspace"@, "report-metadata"@, workspace, "--source"@, "ferry"@] + if count == 0 {
            seq!["--clear-token"@, "ferry"@]
        } else {
            seq!["--token"@, "ferry="@ + text::dec(count)]
        },
    )
}

/// What Herdr's answer to `args` comes to.
pub fn json_answer(args: &Vec<&str>, a: Result<String, Error>) -> (r: Result<Json, Error>)
    ensures
        json_verdict(command::strs(args@), a, r),
{
    match a {
        Err(e) => Err(e),
        Ok(s) => match json::parse(s.as_str()) {
            Ok(v) => Ok(v.into_get_or_self("result")),
            Err(reason) => Err(Error::NotJson { args: owned(args), reason }),
        },
    }
}

/// The id of the focused pane in Herdr's list of panes.
pub fn pane_of(v: &Json) -> (r: Option<String>)
    ensures
        text::text_option(r) == focused_pane_of(v@),
{
    let ghost list = v@.list_at("panes"@);
    match v.list_at("panes") {
        Some(panes) => {
            proof {
                assert(list.skip(0) == list);
            }
            for i in 0..panes.len()
                invariant
                    v@.list_at("panes"@) == list,
                    panes@.len() == list.len(),
                    forall|k: int| 0 <= k < panes@.len() ==> (#[trigger] panes@[k])@ == list[k],
                    focused_in(list) == focused_in(list.skip(i as int)),
            {
                proof {
                    assert(list.skip(i as int).skip(1) == list.skip(i + 1));
                    assert(panes@[i as int]@ == list[i as int]);
                }
                if panes[i].true_at("focused") {
                    return panes[i].text_at("pane_id");
                }
            }
            proof {
                assert(list.skip(list.len() as int).len() == 0);
            }
        },
        None => {},
    }
    None
}

/// The focused pane in Herdr's answer when asked for its panes.
pub fn focused_pane(a: Result<String, Error>) -> (r: Result<String, Error>)
    ensures
        pane_verdict(a, r),
{
    let args = vec!["pane", "list"];
    proof {
        assert(command::strs(args@) == seq!["pane"@, "list"@]);
    }
    match json_answer(&args, a) {
        Ok(v) => match pane_of(&v) {
            Some(id) => Ok(id),
            None => Err(Error::NoFocusedPane),
        },
        Err(e) => Err(e),
    }
}

/// The ids in Herdr's list of workspaces.
pub fn workspaces_of(v: &Json) -> (r: Vec<String>)
    ensures
        text::texts(r@) == ids_in(v@.list_at("workspaces"@)),
{
    let ghost list = v@.list_at("workspaces"@);
    let mut out: Vec<String> = Vec::new();
    match v.list_at("workspaces") {
        Some(found) => {
            for i in 0..found.len()
                invariant
                    found@.len() == list.len(),
                    forall|k: int| 0 <= k < found@.len() ==> (#[trigger] found@[k])@ == list[k],
                    text::texts(out@) == ids_in(list.take(i as int)),
            {
                let ghost before = out@;
                proof {
                    assert(list.take(i + 1).drop_last() == list.take(i as int));
                    assert(found@[i as int]@ == list[i as int]);
                }
                match found[i].text_at("workspace_id") {
                    Some(id) => {
                        out.push(id);
                        proof {
                            assert(text::texts(out@) == text::texts(before).push(id@));
                        }
                    },
                    None => {},
                }
            }
            proof {
                assert(list.take(list.len() as int) == list);
            }
        },
        None => {
            proof {
                assert(list == Seq::<JsonView>::empty());
                assert(text::texts(out@) == ids_in(list));
            }
        },
    }
    out
}

/// The workspaces in Herdr's answer when asked for them.
pub fn listed_workspaces(a: Result<String, Error>) -> (r: Result<Vec<String>, Error>)
    ensures
        workspaces_verdict(a, r),
{
    let args = vec!["workspace", "list"];
    proof {
        assert(command::strs(args@) == seq!["workspace"@, "list"@]);
    }
    match json_answer(&args, a) {
        Ok(v) => Ok(workspaces_of(&v)),
        Err(e) => Err(e),
    }
}

/// The working directory that a description of a pane tells.
pub fn cwd_in(pane: &Json) -> (r: Option<String>)
    ensures
        text::text_option(r) == cwd_told(pane@),
{
    match pane.text_at("foreground_cwd") {
        Some(c) => Some(c),
        None => pane.text_at("cwd"),
    }
}

/// Whether an item is queued that was sent from a workspace.
pub open spec fn pending_in(it: Item, workspace: Seq<char>) -> bool {
    it.state == ItemState::Queued && it.source@.workspace_id == Some(workspace)
}

/// How many queued items were sent from a workspace.
pub open spec fn pending_from(items: Seq<Item>, workspace: Seq<char>) -> nat {
    items.filter(|it: Item| pending_in(it, workspace)).len()
}

fn count_pending(items: &Vec<Item>, workspace: &str) -> (r: usize)
    ensures
        r == pending_from(items@, workspace@),
{
    let ghost p = |it: Item| pending_in(it, workspace@);
    let mut n: usize = 0;
    for i in 0..items.len()
        invariant
            p == |it: Item| pending_in(it, workspace@),
            n == items@.take(i as int).filter(p).len(),
            n <= i,
    {
        proof {
            assert(items@.take(i + 1).drop_last() == items@.take(i as int));
            reveal(Seq::filter);
        }
        let it = &items[i];
        let here = match &it.source.workspace_id {
            Some(w) => str_eq(w.as_str(), workspace),
            None => false,
        };
        if it.state == ItemState::Queued && here {
            n = n + 1;
        }
    }
    proof {
        assert(items@.take(items@.len() as int) == items@);
    }
    n
}

/// The command lines that show beside each workspace how many items sent from it are
/// queued.
pub fn report_all_tokens(listing: &Listing, ctx: &Ctx, workspaces: &Vec<String>) -> (r: Vec<
    Command,
>)
    ensures
        command::command_views(r@) == workspaces@.map_values(
            |w: String| token_line(*ctx, w@, pending_from(listing.items@, w@)),
        ),
{
    let ghost line = |w: String| token_line(*ctx, w@, pending_from(listing.items@, w@));
    let mut out: Vec<Command> = Vec::new();
    for i in 0..workspaces.len()
        invariant
            line == |w: String| token_line(*ctx, w@, pending_from(listing.items@, w@)),
            command::command_views(out@) == workspaces@.take(i as int).map_values(line),
    {
        let ghost before = out@;
        let w = workspaces[i].as_str();
        let n = count_pending(&listing.items, w);
        out.push(ctx.report_token(w, n));
        proof {
            assert(command::command_views(out@) == command::command_views(before).push(line(workspaces@[i as int])));
            assert(workspaces@.take(i + 1).map_values(line) == workspaces@.take(
                i as int,
            ).map_values(line).push(line(workspaces@[i as int])));
        }
    }
    proof {
        assert(workspaces@.take(workspaces@.len() as int) == workspaces@);
    }
    out
}

/// Once every item has been delivered, nothing is shown beside any workspace.
pub proof fn law_blank_when_delivered(ctx: Ctx, items: Seq<Item>, workspace: Seq<char>)
    requires
        forall|i: int| 0 <= i < items.len() ==> (#[trigger] items[i]).state == ItemState::Acked,
    ensures
        token_line(ctx, workspace, pending_from(items, workspace)) == herdr_line(
            ctx,
            seq![
                "workspace"@,
                "report-metadata"@,
                workspace,
                "--source"@,
                "ferry"@,
                "--clear-token"@,
                "ferry"@,
            ],
        ),
{
    lemma_none_pending(items, workspace);
    assert(token_line(ctx, workspace, 0).args == seq![
        "workspace"@,
        "report-metadata"@,
        workspace,
        "--source"@,
        "ferry"@,
        "--clear-token"@,
        "ferry"@,
    ]);
}

proof fn lemma_none_pending(items: Seq<Item>, workspace: Seq<char>)
    requires
        forall|i: int| 0 <= i < items.len() ==> (#[trigger] items[i]).state == ItemState::Acked,
    ensures
        pending_from(items, workspace) == 0,
    decreases items.len(),
{
    reveal(Seq::filter);
    if items.len() > 0 {
        lemma_none_pending(items.drop_last(), workspace);
    }
}

/// The path that `s` stands for in the directory `base`.
pub open spec fn path_from(base: Seq<char>, s: Seq<char>, home: Seq<char>) -> Seq<char> {
    path::path_joined(base, util::tilde_expanded(s, home))
}

/// The path that `s` stands for in the directory `base`, if `exists_at` says that it exists.
pub fn path_exists_rel<F: Fn(&str) -> bool>(
    base: &str,
    s: &str,
    home: &str,
    exists_at: F,
) -> (r: Option<String>)
    requires
        forall|p: &str| call_requires(exists_at, (p,)),
    ensures
        match r {
            Some(p) => p@ == path_from(base@, text::trimmed(s@), home@) && util::said(
                exists_at,
                p@,
                true,
            ),
            None => util::said(exists_at, path_from(base@, text::trimmed(s@), home@), false),
        },
{
    let full = resolve(base, text::trim(s).as_str(), home);
    if exists_at(full.as_str()) {
        Some(full)
    } else {
        None
    }
}

/// The path that `s` stands for in the directory `base`.
pub fn resolve(base: &str, s: &str, home: &str) -> (r: String)
    ensures
        r@ == path_from(base@, s@, home@),
{
    let p = util::expand_tilde(s, home);
    path::join(base, p.as_str())
}

/// A relative path that does not start with `~` leads on from the base: its components, but
/// for a current directory in front, follow those of the base, so it lies under the base
/// unless it climbs out of it again.
pub proof fn law_relative_path_leads_on(base: Seq<char>, s: Seq<char>, home: Seq<char>)
    requires
        base.len() > 0,
        home.len() > 0,
        s.len() == 0 || s[0] != '/',
        path::components_of(s).len() > 0 ==> path::components_of(s)[0] != path::Part::Normal(
            seq!['~'],
        ),
    ensures
        path::components_of(path_from(base, s, home)) == path::components_of(base)
            + path::down_parts(path::components_of(s)),
        path::components_of(base).is_prefix_of(path::components_of(path_from(base, s, home))),
{
    util::law_tilde(s, home);
    path::law_join(base, s);
    let b = path::components_of(base);
    let d = path::down_parts(path::components_of(s));
    assert(b =~= (b + d).subrange(0, b.len() as int));
}

/// An absolute path stays what it is, whatever the base.
pub proof fn law_absolute_path_stays(base: Seq<char>, s: Seq<char>, home: Seq<char>)
    requires
        base.len() > 0,
        home.len() > 0,
        s.len() > 0,
        s[0] == '/',
    ensures
        path_from(base, s, home) == s,
{
    assert(path::components_of(s)[0] == path::Part::Root);
    util::law_tilde(s, home);
    path::law_join(base, s);
}

/// A path that starts with `~` leads on from the home directory, whatever the base.
pub proof fn law_home_path_leads_on(base: Seq<char>, s: Seq<char>, home: Seq<char>)
    requires
        base.len() > 0,
        home.len() > 0,
        home[0] == '/',
        path::components_of(s).len() > 0,
        path::components_of(s)[0] == path::Part::Normal(seq!['~']),
    ensures
        path::components_of(path_from(base, s, home)) == path::components_of(home)
            + path::components_of(s).skip(1),
{
    util::law_tilde(s, home);
    let full = util::tilde_expanded(s, home);
    assert(full.len() > 0 && full[0] == '/') by {
        let c = path::components_of(home) + path::components_of(s).skip(1);
        assert(path::components_of(home)[0] == path::Part::Root);
        assert(c[0] == path::Part::Root);
        path::lemma_root_is_absolute(full);
    }
    path::law_join(base, full);
}

/// The focused pane is the first one that has the focus, and there is none where none has it.
pub proof fn law_focused_pane(panes: Seq<JsonView>, i: int)
    ensures
        0 <= i < panes.len() && panes[i].true_at("focused"@) && (forall|j: int|
            0 <= j < i ==> !(#[trigger] panes[j]).true_at("focused"@)) ==> focused_in(panes)
            == Some(panes[i]),
        (forall|j: int| 0 <= j < panes.len() ==> !(#[trigger] panes[j]).true_at("focused"@))
            ==> focused_in(panes) is None,
    decreases panes.len(),
{
    if panes.len() > 0 && !panes[0].true_at("focused"@) {
        let rest = panes.skip(1);
        law_focused_pane(rest, i - 1);
        if 0 <= i < panes.len() && panes[i].true_at("focused"@) && (forall|j: int|
            0 <= j < i ==> !(#[trigger] panes[j]).true_at("focused"@)) {
            assert(i > 0);
            assert(rest[i - 1] == panes[i]);
            assert forall|j: int| 0 <= j < i - 1 implies !(#[trigger] rest[j]).true_at(
                "focused"@,
            ) by {
                assert(rest[j] == panes[j + 1]);
            }
        }
        if forall|j: int| 0 <= j < panes.len() ==> !(#[trigger] panes[j]).true_at("focused"@) {
            assert forall|j: int| 0 <= j < rest.len() implies !(#[trigger] rest[j]).true_at(
                "focused"@,
            ) by {
                assert(rest[j] == panes[j + 1]);
            }
        }
    }
}

/// Every workspace with an id is counted in, in its order, and nothing else.
pub proof fn law_workspace_ids(list: Seq<JsonView>, v: JsonView)
    ensures
        ids_in(Seq::empty()) == Seq::<Seq<char>>::empty(),
        ids_in(list.push(v)) == match v.text_at("workspace_id"@) {
            Some(id) => ids_in(list).push(id),
            None => ids_in(list),
        },
{
    assert(list.push(v).drop_last() =~= list);
}

/// The workspace of a pane is what its id says before the first colon.
pub proof fn law_before_colon(a: Seq<char>, b: Seq<char>)
    requires
        !a.contains(':'),
    ensures
        before_colon(a) == a,
        before_colon(a.push(':') + b) == a,
{
    text::law_split_without_separator(a, ':');
    text::law_split_at_separator(a, ':', b);
}

/// The count of a workspace is one more for each queued item that was sent from it, and for
/// no other item.
pub proof fn law_pending_counts_queued(items: Seq<Item>, it: Item, workspace: Seq<char>)
    ensures
        pending_from(Seq::empty(), workspace) == 0,
        pending_from(items.push(it), workspace) == pending_from(items, workspace) + if it.state
            == ItemState::Queued && (it.source.workspace_id matches Some(w) && w@ == workspace) {
            1nat
        } else {
            0
        },
{
    reveal(Seq::filter);
    assert(items.push(it).drop_last() =~= items);
}

/// What is shown beside a workspace reads back as its count, and nothing is shown for none.
pub proof fn law_token_reads_back(ctx: Ctx, workspace: Seq<char>, count: nat)
    ensures
        ({
            let args = token_line(ctx, workspace, count).args;
            &&& args.len() == 7
            &&& args[2] == workspace
            &&& count == 0 ==> args[5] == "--clear-token"@ && args[6] == "ferry"@
            &&& count > 0 ==> args[5] == "--token"@ && "ferry="@.is_prefix_of(args[6])
                && text::decimal_value(args[6].skip(6)) == count
        }),
{
    reveal_strlit("ferry=");
    text::law_decimal_reads_back(count);
    let shown = "ferry="@ + text::dec(count);
    assert("ferry="@.len() == 6);
    assert(shown.skip(6) =~= text::dec(count));
    assert("ferry="@.is_prefix_of(shown));
}

/// The picker gets the pane, the workspace and the directory that it is opened from, each
/// whole.
pub proof fn law_picker_gets_context(ctx: Ctx, env: EnvVars, cwd: Seq<char>)
    ensures
        picker_args(ctx, env, cwd).contains("FERRY_CWD="@ + cwd),
        ctx.pane_id matches Some(p) ==> picker_args(ctx, env, cwd).contains(
            "FERRY_PANE_ID="@ + p@,
        ),
        ctx.workspace_id matches Some(w) ==> picker_args(ctx, env, cwd).contains(
            "FERRY_WORKSPACE_ID="@ + w@,
        ) && picker_args(ctx, env, cwd).contains(w@),
        ctx.context.focused_pane_agent matches Some(a) ==> picker_args(ctx, env, cwd).contains(
            "FERRY_AGENT="@ + a@,
        ),
{
    let args = picker_args(ctx, env, cwd);
    let a: int = 8;
    let w = option_args("--workspace"@, Seq::empty(), ctx.workspace_id);
    let p = option_args("--env"@, "FERRY_PANE_ID="@, ctx.pane_id);
    let x = option_args("--env"@, "FERRY_WORKSPACE_ID="@, ctx.workspace_id);
    let g = option_args("--env"@, "FERRY_AGENT="@, ctx.context.focused_pane_agent);
    let c = a + w.len() + p.len() + x.len();
    assert(args[c + 1] == "FERRY_CWD="@ + cwd);
    if ctx.pane_id is Some {
        assert(args[a + w.len() + 1] == p[1]);
    }
    if let Some(id) = ctx.workspace_id {
        assert(Seq::<char>::empty() + id@ =~= id@);
        assert(args[a + 1] == w[1]);
        assert(args[a + w.len() + p.len() + 1] == x[1]);
    }
    if ctx.context.focused_pane_agent is Some {
        assert(args[c + 3] == g[1]);
    }
}

/// Resolving starts a relative path from the base.
pub proof fn law_resolve(base: &str, s: &str, home: &str, r: String)
    requires
        call_ensures(resolve, (base, s, home), r),
        base@.len() > 0,
        home@.len() > 0,
    ensures
        s@.len() > 0 && s@[0] == '/' ==> r@ == s@,
        (s@.len() == 0 || s@[0] != '/') && (path::components_of(s@).len() > 0
            ==> path::components_of(s@)[0] != path::Part::Normal(seq!['~']))
            ==> path::components_of(r@) == path::components_of(base@) + path::down_parts(
            path::components_of(s@),
        ),
{
    if s@.len() > 0 && s@[0] == '/' {
        law_absolute_path_stays(base@, s@, home@);
    } else if path::components_of(s@).len() == 0 || path::components_of(s@)[0]
        != path::Part::Normal(seq!['~']) {
        law_relative_path_leads_on(base@, s@, home@);
    }
}

/// Every workspace is told the count of the queued items that were sent from it.
pub proof fn law_report_all_tokens(
    listing: &Listing,
    ctx: &Ctx,
    workspaces: &Vec<String>,
    r: Vec<Command>,
    i: int,
)
    requires
        call_ensures(report_all_tokens, (listing, ctx, workspaces), r),
        0 <= i < workspaces@.len(),
    ensures
        r@.len() == workspaces@.len(),
        r@[i]@.program == ctx.bin@,
        r@[i]@.args.len() == 7 && r@[i]@.args[2] == workspaces@[i]@,
        ({
            let n = pending_from(listing.items@, workspaces@[i]@);
            &&& n == 0 ==> r@[i]@.args[5] == "--clear-token"@
            &&& n > 0 ==> text::decimal_value(r@[i]@.args[6].skip(6)) == n
        }),
{
    let n = pending_from(listing.items@, workspaces@[i]@);
    law_token_reads_back(*ctx, workspaces@[i]@, n);
    let lines = workspaces@.map_values(
        |w: String| token_line(*ctx, w@, pending_from(listing.items@, w@)),
    );
    assert(command::command_views(r@).len() == lines.len());
    assert(command::command_views(r@)[i] == r@[i]@);
    assert(lines[i] == token_line(*ctx, workspaces@[i]@, n));
}

/// The directory that relative paths start from is that of the focused pane where the context
/// knows it, else that of the environment, and outside Herdr that of the process.
pub proof fn law_pane_cwd<F: Fn(&Command) -> Result<String, Error>>(
    ctx: &Ctx,
    env: &EnvVars,
    ask: F,
    c: String,
    r: String,
)
    requires
        call_ensures(Ctx::pane_cwd::<F>, (ctx, env, ask), r),
    ensures
        ctx.context.focused_pane_cwd == Some(c) ==> r@ == c@,
        ctx.context.focused_pane_cwd is None && env.ferry_cwd == Some(c) && c@.len() > 0 ==> r@
            == c@,
        ctx.context.focused_pane_cwd is None && env.ferry_cwd is None && !ctx.under_herdr
            && env.current_dir == Some(c) ==> r@ == c@,
{
}

/// What Herdr says of a pane is its directory: that of the program in it, else its own.
pub proof fn law_cwd_told(pane: JsonView, c: Seq<char>)
    ensures
        pane.text_at("foreground_cwd"@) == Some(c) ==> cwd_told(pane) == Some(c),
        pane.text_at("foreground_cwd"@) is None ==> cwd_told(pane) == pane.text_at("cwd"@),
{
}

/// What is selected is what the context says, else what the environment says, as it is, and
/// a blank one is none.
pub proof fn law_selected_text(ctx: &Ctx, env: &EnvVars, s: String, r: Option<String>)
    requires
        call_ensures(Ctx::selected_text, (ctx, env), r),
        ctx.context.selected_text == Some(s) || (ctx.context.selected_text is None
            && env.ferry_selected == Some(s)),
    ensures
        text::all_space(s@) ==> r is None,
        (s@.len() > 0 && !text::is_space(s@[0]) && !text::is_space(s@.last())) ==> r == Some(s),
{
    let none = Seq::<char>::empty();
    if text::all_space(s@) {
        text::law_trimmed(s@, none, none);
        assert(s@ + none + none =~= s@);
    } else if s@.len() > 0 && !text::is_space(s@[0]) && !text::is_space(s@.last()) {
        text::law_trimmed(none, s@, none);
        assert(none + s@ + none =~= s@);
    }
}

/// What Herdr answers is the `result` in it, else the whole of it, and a refusal is handed
/// on.
pub proof fn law_json_answer(
    args: &Vec<&str>,
    said: String,
    v: JsonView,
    e: Error,
    good: Result<Json, Error>,
    bad: Result<Json, Error>,
)
    requires
        call_ensures(json_answer, (args, Ok(said)), good),
        call_ensures(json_answer, (args, Err(e)), bad),
        json::json_parse(said@) == Ok::<JsonView, Seq<char>>(v),
    ensures
        good matches Ok(j) && j@ == match v.get("result"@) {
            Some(x) => x,
            None => v,
        },
        bad == Err::<Json, Error>(e),
{
}

/// What Herdr says of a pane is the description in its answer to a question for that pane.
pub proof fn law_pane_info<F: Fn(&Command) -> Result<String, Error>>(
    ctx: &Ctx,
    pane: &str,
    ask: F,
    said: String,
    v: JsonView,
    res: JsonView,
    p: JsonView,
    r: Result<Json, Error>,
)
    requires
        call_ensures(Ctx::pane_info::<F>, (ctx, pane, ask), r),
        forall|c: &Command, a: Result<String, Error>| #[trigger]
            call_ensures(ask, (c,), a) && c@.program == ctx.bin@ && c@.args =~= seq![
                "pane"@,
                "get"@,
                pane@,
            ] ==> a == Ok::<String, Error>(said),
        json::json_parse(said@) == Ok::<JsonView, Seq<char>>(v),
        v.get("result"@) == Some(res),
        res.get("pane"@) == Some(p),
    ensures
        r matches Ok(j) && j@ == p,
{
}

/// Where the context does not know the directory of the focused pane, Herdr is asked for that
/// pane, and its answer counts.
pub proof fn law_pane_cwd_is_asked_for<F: Fn(&Command) -> Result<String, Error>>(
    ctx: &Ctx,
    env: &EnvVars,
    ask: F,
    id: String,
    said: String,
    v: JsonView,
    res: JsonView,
    pane: JsonView,
    r: String,
)
    requires
        call_ensures(Ctx::pane_cwd::<F>, (ctx, env, ask), r),
        ctx.context.focused_pane_cwd is None,
        env.ferry_cwd is None,
        ctx.under_herdr,
        ctx.pane_id == Some(id),
        forall|c: &Command, a: Result<String, Error>| #[trigger]
            call_ensures(ask, (c,), a) && c@.program == ctx.bin@ && c@.args =~= seq![
                "pane"@,
                "get"@,
                id@,
            ] ==> a == Ok::<String, Error>(said),
        json::json_parse(said@) == Ok::<JsonView, Seq<char>>(v),
        v.get("result"@) == Some(res),
        res.get("pane"@) == Some(pane),
    ensures
        pane.text_at("foreground_cwd"@) matches Some(c) ==> r@ == c,
        pane.text_at("foreground_cwd"@) is None ==> (pane.text_at("cwd"@) matches Some(c) ==> r@
            == c),
{
    assert(text_or(ctx.pane_id, Seq::empty()) == id@);
}

/// The focused pane is the one that the context knows, else the first one with the focus in
/// Herdr's list.
pub proof fn law_resolve_pane<F: Fn(&Command) -> Result<String, Error>>(
    ctx: &Ctx,
    ask: F,
    said: String,
    v: JsonView,
    res: JsonView,
    i: int,
    id: Seq<char>,
    r: Result<String, Error>,
)
    requires
        call_ensures(Ctx::resolve_pane::<F>, (ctx, ask), r),
        forall|c: &Command, a: Result<String, Error>| #[trigger]
            call_ensures(ask, (c,), a) && c@.program == ctx.bin@ && c@.args =~= seq![
                "pane"@,
                "list"@,
            ] ==> a == Ok::<String, Error>(said),
        json::json_parse(said@) == Ok::<JsonView, Seq<char>>(v),
        v.get("result"@) == Some(res),
        0 <= i < res.list_at("panes"@).len(),
        res.list_at("panes"@)[i].true_at("focused"@),
        forall|j: int| 0 <= j < i ==> !(#[trigger] res.list_at("panes"@)[j]).true_at("focused"@),
        res.list_at("panes"@)[i].text_at("pane_id"@) == Some(id),
    ensures
        ctx.pane_id matches Some(p) ==> r == Ok::<String, Error>(p),
        ctx.pane_id is None ==> (r matches Ok(x) && x@ == id),
{
    law_focused_pane(res.list_at("panes"@), i);
}

/// The workspaces are those in Herdr's answer when it is asked for them, and Herdr is alive
/// exactly if it answers.
pub proof fn law_workspaces<F: Fn(&Command) -> Result<String, Error>>(
    ctx: &Ctx,
    ask: F,
    a: Result<String, Error>,
    r: Result<Vec<String>, Error>,
    alive: bool,
)
    requires
        call_ensures(Ctx::workspace_ids::<F>, (ctx, ask), r),
        call_ensures(Ctx::server_alive::<F>, (ctx, ask), alive),
        forall|c: &Command, b: Result<String, Error>| #[trigger]
            call_ensures(ask, (c,), b) && c@.program == ctx.bin@ && c@.args =~= seq![
                "workspace"@,
                "list"@,
            ] ==> b == a,
    ensures
        alive <==> a is Ok,
        a matches Err(e) ==> r == Err::<Vec<String>, Error>(e),
        a matches Ok(said) ==> (json::json_parse(said@) matches Ok(v) ==> (v.get(
            "result"@,
        ) matches Some(res) ==> (r matches Ok(ids) && text::texts(ids@) == ids_in(
            res.list_at("workspaces"@),
        )))),
{
}

/// What the context says counts before the environment, and a variable that is not empty is
/// taken as it is.
pub proof fn law_from_env(env: &EnvVars, context: Option<InvocationContext>, s: String, r: Ctx)
    requires
        call_ensures(Ctx::from_env, (env, context), r),
        s@.len() > 0,
    ensures
        env.herdr_bin_path == Some(s) ==> r.bin@ == s@ && r.under_herdr,
        env.herdr_plugin_id == Some(s) ==> r.plugin_id@ == s@,
        context matches Some(c) ==> r.context == c,
        (context matches Some(c) && c.focused_pane_id == Some(s)) ==> r.pane_id == Some(s),
        (context matches Some(c) && c.workspace_id == Some(s)) ==> r.workspace_id == Some(s),
        context is None && env.ferry_pane_id == Some(s) ==> r.pane_id == Some(s),
        context is None && env.ferry_pane_id is None && env.herdr_pane_id == Some(s) ==> r.pane_id
            == Some(s),
        context is None && env.ferry_workspace_id == Some(s) ==> r.workspace_id == Some(s),
        context is None && env.ferry_workspace_id is None && env.herdr_workspace_id == Some(s)
            ==> r.workspace_id == Some(s),
{
}

/// The command line that hands arguments to Herdr holds them as they are.
pub proof fn law_herdr(ctx: &Ctx, args: &Vec<&str>, r: Command)
    requires
        call_ensures(Ctx::herdr, (ctx, args), r),
    ensures
        r@.program == ctx.bin@,
        r@.args.len() == args@.len(),
        forall|i: int| 0 <= i < args@.len() ==> #[trigger] r@.args[i] == args@[i]@,
{
}

} // verus!
