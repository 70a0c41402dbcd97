//! Operating systems and the commands that are run on them.

use vstd::prelude::*;
use crate::split::{trim, trimmed};
use crate::text::{cat3, cat4, chars, string, strings};

verus! {

/// The operating systems that the client tells apart.
#[derive(Clone, Copy, Debug, PartialEq, Eq, Structural)]
pub enum Platform {
    MacOs,
    Linux,
    Windows,
    Other,
}

/// A file to write.
#[derive(Debug, PartialEq, Eq)]
pub struct FileWrite {
    pub path: String,
    pub contents: String,
    /// The access rights that the file is made with.
    pub mode: u32,
    /// Whether a file that is there already is an error.
    pub fresh: bool,
}

/// The model of a file to write.
#[verifier::ext_equal]
pub struct FileWriteView {
    pub path: Seq<char>,
    pub contents: Seq<char>,
    pub mode: u32,
    pub fresh: bool,
}

impl View for FileWrite {
    type V = FileWriteView;

    open spec fn view(&self) -> FileWriteView {
        FileWriteView {
            path: self.path@,
            contents: self.contents@,
            mode: self.mode,
            fresh: self.fresh,
        }
    }
}

/// A program and its arguments.
#[derive(Debug, PartialEq, Eq)]
pub struct CommandSpec {
    pub program: String,
    pub args: Vec<String>,
}

/// The model of a program and its arguments.
#[verifier::ext_equal]
pub struct CommandSpecView {
    pub program: Seq<char>,
    pub args: Seq<Seq<char>>,
}

impl View for CommandSpec {
    type V = CommandSpecView;

    open spec fn view(&self) -> CommandSpecView {
        CommandSpecView { program: self.program@, args: strings(self.args@) }
    }
}

impl CommandSpec {
    /// The program without arguments.
    pub fn new(program: &str) -> (r: CommandSpec)
        ensures
            r@ == (CommandSpecView { program: program@, args: Seq::empty() }),
    {
        let r = CommandSpec { program: program.to_owned(), args: Vec::new() };
        assert(strings(r.args@) =~= Seq::empty());
        r
    }

    /// The command with one argument more.
    pub fn arg(self, arg: &str) -> (r: CommandSpec)
        ensures
            r@ == (CommandSpecView { program: self@.program, args: self@.args.push(arg@) }),
    {
        let CommandSpec { program, mut args } = self;
        args.push(arg.to_owned());
        assert(strings(args@) =~= self@.args.push(arg@));
        CommandSpec { program, args }
    }
}

/// What running a program has brought.
#[derive(Debug, PartialEq, Eq)]
pub enum CommandOutcome {
    /// It could not be started, or could not be talked to.
    NotRun(String),
    /// It ended with a failure.
    Failed { status: String, stderr: String },
    /// It ended with success.
    Succeeded { stdout: String, stderr: String },
}

/// The words for a program that ended with a failure and said why.
pub open spec fn failure_text(
    program: Seq<char>,
    status: Seq<char>,
    stderr: Seq<char>,
) -> Seq<char> {
    program + " exited with status "@ + status + ": "@ + trim(stderr)
}

/// What a program has printed, or the words for its failure.
pub open spec fn command_output(
    program: Seq<char>,
    outcome: CommandOutcome,
) -> std::result::Result<Seq<char>, Seq<char>> {
    match outcome {
        CommandOutcome::NotRun(cause) => Err(program + ": "@ + cause@),
        CommandOutcome::Failed { status, stderr } => Err(
            failure_text(program, status@, stderr@),
        ),
        CommandOutcome::Succeeded { stdout, .. } => Ok(stdout@),
    }
}

/// What the program `program` has printed, or the words for its failure.
pub fn run_command(program: &str, outcome: CommandOutcome) -> (r: std::result::Result<
    String,
    String,
>)
    ensures
        match r {
            Ok(text) => command_output(program@, outcome) == Ok::<Seq<char>, Seq<char>>(text@),
            Err(cause) => command_output(program@, outcome) == Err::<Seq<char>, Seq<char>>(
                cause@,
            ),
        },
{
    match outcome {
        CommandOutcome::NotRun(cause) => Err(cat3(program, ": ", cause.as_str())),
        CommandOutcome::Failed { status, stderr } => {
            let mut text = cat4(program, " exited with status ", status.as_str(), ": ");
            let reason = trimmed(chars(stderr.as_str()).as_slice());
            text.append(string(reason.as_slice()).as_str());
            Err(text)
        },
        CommandOutcome::Succeeded { stdout, .. } => Ok(stdout),
    }
}

/// What a program has printed is handed on whole; its failure is told with its
/// name, its status and what it said, without white space around that.
pub proof fn lemma_output_is_handed_on(
    program: Seq<char>,
    cause: String,
    status: String,
    stdout: String,
    stderr: String,
)
    ensures
        command_output(program, CommandOutcome::Succeeded { stdout, stderr }) == Ok::<
            Seq<char>,
            Seq<char>,
        >(stdout@),
        command_output(program, CommandOutcome::NotRun(cause)) == Err::<Seq<char>, Seq<char>>(
            program + ": "@ + cause@,
        ),
        command_output(program, CommandOutcome::Failed { status, stderr }) == Err::<
            Seq<char>,
            Seq<char>,
        >(program + " exited with status "@ + status@ + ": "@ + trim(stderr@)),
{
}

} // verus!
