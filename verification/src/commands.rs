//! External commands: what to run, how often, and what a failure says.

use crate::text::{from_chars, to_chars, trim, trim_chars};
use vstd::prelude::*;
use vstd::string::*;

verus! {

/// The texts of a list of strings.
pub open spec fn texts(v: Seq<String>) -> Seq<Seq<char>> {
    v.map_values(|s: String| s@)
}

/// A command as plain text.
#[verifier::ext_equal]
pub struct CmdModel {
    pub program: Seq<char>,
    pub args: Seq<Seq<char>>,
    pub stdin: Option<Seq<char>>,
}

/// A command line without input.
pub open spec fn cmd(program: Seq<char>, args: Seq<Seq<char>>) -> CmdModel {
    CmdModel { program, args, stdin: None }
}

/// A command line with text on its standard input.
pub open spec fn cmd_with(program: Seq<char>, args: Seq<Seq<char>>, stdin: Seq<char>) -> CmdModel {
    CmdModel { program, args, stdin: Some(stdin) }
}

/// An external command with its arguments and what it reads from stdin.
#[derive(Debug, Clone, PartialEq, Eq)]
pub struct Cmd {
    pub program: String,
    pub args: Vec<String>,
    pub stdin: Option<String>,
}

impl Cmd {
    pub open spec fn view(self) -> CmdModel {
        CmdModel {
            program: self.program@,
            args: texts(self.args@),
            stdin: match self.stdin {
                Some(s) => Some(s@),
                None => None,
            },
        }
    }

    pub fn new(program: &str) -> (c: Cmd)
        ensures
            c@ == cmd(program@, seq![]),
    {
        let c = Cmd { program: program.to_owned(), args: Vec::new(), stdin: None };
        assert(c@.args =~= seq![]);
        c
    }

    /// The same command with one more argument.
    pub fn arg(self, a: &str) -> (c: Cmd)
        ensures
            c@ == (CmdModel { args: self@.args.push(a@), ..self@ }),
    {
        let mut c = self;
        c.args.push(a.to_owned());
        assert(c@.args =~= self@.args.push(a@));
        c
    }

    /// The same command with `text` on its standard input.
    pub fn input(self, text: String) -> (c: Cmd)
        ensures
            c@ == (CmdModel { stdin: Some(text@), ..self@ }),
    {
        let mut c = self;
        c.stdin = Some(text);
        c
    }
}

/// A command that has to succeed: what to say in front of its error, how often
/// to try, and how long to wait between tries.
#[derive(Debug, Clone, PartialEq, Eq)]
pub struct Task {
    pub cmd: Cmd,
    pub context: String,
    pub attempts: u32,
    pub delay_ms: u64,
}

pub struct TaskModel {
    pub cmd: CmdModel,
    pub context: Seq<char>,
    pub attempts: int,
    pub delay_ms: int,
}

/// A task that is tried once.
pub open spec fn once(cmd: CmdModel, context: Seq<char>) -> TaskModel {
    TaskModel { cmd, context, attempts: 1, delay_ms: 0 }
}

/// A task on a fresh partition node, which may be held for a moment: four
/// tries, 600 ms apart.
pub open spec fn retried(cmd: CmdModel, context: Seq<char>) -> TaskModel {
    TaskModel { cmd, context, attempts: 4, delay_ms: 600 }
}

impl Task {
    pub open spec fn view(self) -> TaskModel {
        TaskModel {
            cmd: self.cmd@,
            context: self.context@,
            attempts: self.attempts as int,
            delay_ms: self.delay_ms as int,
        }
    }

    pub fn once(cmd: Cmd, context: &str) -> (t: Task)
        ensures
            t@ == once(cmd@, context@),
    {
        Task { cmd, context: context.to_owned(), attempts: 1, delay_ms: 0 }
    }

    pub fn retried(cmd: Cmd, context: &str) -> (t: Task)
        ensures
            t@ == retried(cmd@, context@),
    {
        Task { cmd, context: context.to_owned(), attempts: 4, delay_ms: 600 }
    }
}

/// The last `n` characters of `s`.
pub open spec fn tail(s: Seq<char>, n: int) -> Seq<char> {
    if s.len() <= n {
        s
    } else {
        s.skip(s.len() - n)
    }
}

/// The last `n` characters of `s`.
pub fn tail_chars(s: &str, n: usize) -> (r: String)
    ensures
        r@ == tail(s@, n as int),
{
    let v: Vec<char> = to_chars(s);
    let from: usize = if v.len() <= n { 0 } else { v.len() - n };
    let r = from_chars(&v, from, v.len());
    assert(r@ =~= tail(s@, n as int));
    r
}

/// What is said of a command that exited with `status`: the last 400
/// characters of what it wrote to stderr, without white space around it.
pub open spec fn failure(program: Seq<char>, status: Seq<char>, stderr: Seq<char>) -> Seq<char> {
    program + " failed ("@ + status + "): "@ + tail(trim(stderr), 400)
}

pub fn failure_text(program: &str, status: &str, stderr: &str) -> (m: String)
    ensures
        m@ == failure(program@, status@, stderr@),
{
    let t: Vec<char> = trim_chars(&to_chars(stderr));
    let trimmed: String = from_chars(&t, 0, t.len());
    assert(trimmed@ =~= trim(stderr@));
    let mut m: String = program.to_owned();
    m.append(" failed (");
    m.append(status);
    m.append("): ");
    let end: String = tail_chars(trimmed.as_str(), 400);
    m.append(end.as_str());
    m
}

/// What to do after a try of something that may be tried again.
#[derive(Debug, Clone, Copy, PartialEq, Eq, Structural)]
pub enum Retry {
    /// It worked.
    Succeed,
    /// Wait for so many milliseconds and try again.
    Again(u64),
    /// That was the last try.
    GiveUp,
}

/// Success ends it; a failure is tried again until `attempts` tries were made.
/// There is always one try, also for `attempts` of zero.
pub fn after_try(ok: bool, tries: u32, attempts: u32, delay_ms: u64) -> (r: Retry)
    ensures
        r == if ok {
            Retry::Succeed
        } else if tries < attempts {
            Retry::Again(delay_ms)
        } else {
            Retry::GiveUp
        },
{
    if ok {
        Retry::Succeed
    } else if tries < attempts {
        Retry::Again(delay_ms)
    } else {
        Retry::GiveUp
    }
}

} // verus!
