//! Command lines, and what came of them.

use vstd::prelude::*;

use crate::error::Error;
use crate::text;

verus! {

/// A program and its arguments.
pub struct Command {
    pub program: String,
    pub args: Vec<String>,
}

/// What a command line says.
pub struct CommandView {
    pub program: Seq<char>,
    pub args: Seq<Seq<char>>,
}

impl View for Command {
    type V = CommandView;

    open spec fn view(&self) -> CommandView {
        CommandView { program: self.program@, args: text::texts(self.args@) }
    }
}

/// What some command lines say.
pub open spec fn command_views(v: Seq<Command>) -> Seq<CommandView> {
    v.map_values(|c: Command| c@)
}

/// The contents of a list of string slices.
pub open spec fn strs(v: Seq<&str>) -> Seq<Seq<char>> {
    v.map_values(|s: &str| s@)
}

/// The strings with the contents of `parts`.
pub fn owned(parts: &Vec<&str>) -> (r: Vec<String>)
    ensures
        text::texts(r@) == strs(parts@),
{
    let mut out: Vec<String> = Vec::new();
    for i in 0..parts.len()
        invariant
            text::texts(out@) == strs(parts@).take(i as int),
    {
        let ghost before = out@;
        let s = parts[i].to_owned();
        out.push(s);
        proof {
            assert(text::texts(out@) == text::texts(before).push(parts@[i as int]@));
        }
    }
    proof {
        assert(strs(parts@).take(parts@.len() as int) == strs(parts@));
    }
    out
}

/// The command line with the program `program` and the arguments `args`.
pub fn command(program: &str, args: &Vec<&str>) -> (r: Command)
    ensures
        r@ == (CommandView { program: program@, args: strs(args@) }),
{
    Command { program: program.to_owned(), args: owned(args) }
}

/// What came of a command that ran.
pub struct Outcome {
    pub success: bool,
    /// The exit status in words.
    pub status: String,
    pub stdout: String,
    pub stderr: String,
}

/// Whether `ask` has answered the command line `c` with `a`.
pub open spec fn answered<F: Fn(&Command) -> Result<String, Error>>(
    ask: F,
    c: CommandView,
    a: Result<String, Error>,
) -> bool {
    exists|cmd: &Command| cmd@ == c && #[trigger] call_ensures(ask, (cmd,), a)
}

/// A copy of a list of strings.
pub fn copy_texts(v: &Vec<String>) -> (r: Vec<String>)
    ensures
        r@ == v@,
{
    let mut out: Vec<String> = Vec::new();
    for i in 0..v.len()
        invariant
            out@ == v@.take(i as int),
    {
        out.push(v[i].clone());
    }
    out
}

} // verus!
