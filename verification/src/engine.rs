//! What the execution engine decides: what a command line asks for, and
//! what is recorded of its outcome. Running processes and changing
//! directories is the host's part.

use vstd::prelude::*;
use vstd::string::StringExecFns;
use crate::model::{
    CompletedCommand, CompletedView, Origin, OriginView, Output, OutputType, OutputTypeView,
    OutputView,
};
use crate::replace::{replace_all, replace_every};
use crate::session::text_views;
use crate::text::{chars_of, index_of, position, text_of};

verus! {

/// The words of a command line as a POSIX shell would split them, quotes
/// and backslashes honoured, as `shlex::split` gives them; `None` for a
/// line that ends inside a quotation or behind a backslash.
pub uninterp spec fn shell_words(line: Seq<char>) -> Option<Seq<Seq<char>>>;

/// Splits a command line into words.
///
/// Wraps `shlex::split`, which is taken on trust: the result depends on the
/// line alone and is what `shell_words` names.
#[verifier::external_body]
fn split_words(line: &str) -> (r: Option<Vec<String>>)
    ensures
        match r {
            Some(words) => shell_words(line@) == Some(text_views(words@)),
            None => shell_words(line@) is None,
        },
{
    shlex::split(line)
}

/// The text that a sequence of bytes stands for in UTF-8, with what is not
/// UTF-8 replaced, as `String::from_utf8_lossy` gives it.
pub uninterp spec fn utf8_lossy(bytes: Seq<u8>) -> Seq<char>;

/// Reads bytes as text.
///
/// Wraps `String::from_utf8_lossy`, which is taken on trust: the result
/// depends on the bytes alone and is what `utf8_lossy` names.
#[verifier::external_body]
fn decode_lossy(bytes: &Vec<u8>) -> (r: String)
    ensures
        r@ == utf8_lossy(bytes@),
{
    String::from_utf8_lossy(bytes).to_string()
}

/// Why the system refused to start or to stop a process.
#[derive(Debug, Clone, Copy, PartialEq, Eq)]
pub enum FailureKind {
    NotFound,
    PermissionDenied,
    Other,
}

/// A refusal of the system, with its own words for it.
#[derive(Debug, PartialEq, Eq)]
pub struct ProcessFailure {
    pub kind: FailureKind,
    pub message: String,
}

/// What a process left behind when it ended.
#[derive(Debug, PartialEq, Eq)]
pub struct ProcessOutput {
    pub success: bool,
    pub stdout: Vec<u8>,
    pub stderr: Vec<u8>,
}

/// What a command line asks the engine to do.
#[derive(Debug, PartialEq, Eq)]
pub enum Plan {
    /// `cd` alone: go to the home directory.
    GoHome,
    /// `cd` with a path that holds `~`: go there, the home directory put
    /// in for each `~`.
    GoHomeRelative(String),
    /// `cd` with any other path: go there.
    GoTo(String),
    /// Run a program with arguments.
    Spawn(String, Vec<String>),
    /// There is nothing to run; this is the outcome.
    Done(CompletedCommand),
}

/// A plan as a mathematical value.
pub ghost enum PlanView {
    GoHome,
    GoHomeRelative(Seq<char>),
    GoTo(Seq<char>),
    Spawn(Seq<char>, Seq<Seq<char>>),
    Done(CompletedView),
}

impl View for Plan {
    type V = PlanView;

    open spec fn view(&self) -> PlanView {
        match *self {
            Plan::GoHome => PlanView::GoHome,
            Plan::GoHomeRelative(path) => PlanView::GoHomeRelative(path@),
            Plan::GoTo(path) => PlanView::GoTo(path@),
            Plan::Spawn(program, arguments) => PlanView::Spawn(program@, text_views(arguments@)),
            Plan::Done(completed) => PlanView::Done(completed@),
        }
    }
}

/// A command that failed before anything ran, with `message` as its error
/// stream.
pub open spec fn failure(
    input: Seq<char>,
    origin: OriginView,
    message: Seq<char>,
) -> CompletedView {
    CompletedView {
        input,
        output: OutputView {
            origin,
            output_type: OutputTypeView::Error(Seq::empty(), message),
        },
    }
}

/// A command that succeeded without a word.
pub open spec fn silent_success(input: Seq<char>) -> CompletedView {
    CompletedView {
        input,
        output: OutputView {
            origin: OriginView::Vshell,
            output_type: OutputTypeView::Success(Seq::empty(), Seq::empty()),
        },
    }
}

/// The words that are not empty, in their order.
pub open spec fn non_empty(words: Seq<Seq<char>>) -> Seq<Seq<char>>
    decreases words.len(),
{
    if words.len() == 0 {
        Seq::empty()
    } else if words.last().len() == 0 {
        non_empty(words.drop_last())
    } else {
        non_empty(words.drop_last()).push(words.last())
    }
}

/// What a command line asks for, given its words. A line that cannot be
/// split, or has no word, fails at once. `cd` is the engine's own: alone it
/// goes home, with one path it goes there, and with more it fails. Any
/// other first word is a program to run, with the words behind it that are
/// not empty as its arguments.
pub open spec fn planned(input: Seq<char>, words: Option<Seq<Seq<char>>>) -> PlanView {
    match words {
        None => PlanView::Done(
            failure(input, OriginView::Vshell, "Could not parse command: malformed quoting"@),
        ),
        Some(w) => if w.len() == 0 {
            PlanView::Done(failure(input, OriginView::Vshell, "No command given"@))
        } else if w[0] == "cd"@ {
            if w.len() == 1 {
                PlanView::GoHome
            } else if w.len() != 2 {
                PlanView::Done(
                    failure(input, OriginView::Vshell, "cd: incorrect number of arguments"@),
                )
            } else if index_of(w[1], '~') < w[1].len() {
                PlanView::GoHomeRelative(w[1])
            } else {
                PlanView::GoTo(w[1])
            }
        } else {
            PlanView::Spawn(w[0], non_empty(w.skip(1)))
        },
    }
}

fn fail(input: &str, origin: Origin, message: String) -> (r: CompletedCommand)
    ensures
        r@ == failure(input@, origin@, message@),
{
    CompletedCommand {
        input: String::from_str(input),
        output: Output { origin, output_type: OutputType::Error(String::new(), message) },
    }
}

/// Decides what a command line asks for, given the words that it was split
/// into.
pub fn plan_words(input: &str, words: Option<Vec<String>>) -> (r: Plan)
    ensures
        r@ == planned(
            input@,
            match words {
                Some(w) => Some(text_views(w@)),
                None => None,
            },
        ),
{
    match words {
        None => Plan::Done(
            fail(
                input,
                Origin::Vshell,
                String::from_str("Could not parse command: malformed quoting"),
            ),
        ),
        Some(w) => {
            let ghost views = text_views(w@);
            if w.len() == 0 {
                return Plan::Done(
                    fail(input, Origin::Vshell, String::from_str("No command given")),
                );
            }
            assert(views[0] == w@[0]@);
            let cd = String::from_str("cd");
            if w[0] == cd {
                if w.len() == 1 {
                    Plan::GoHome
                } else if w.len() != 2 {
                    Plan::Done(
                        fail(
                            input,
                            Origin::Vshell,
                            String::from_str("cd: incorrect number of arguments"),
                        ),
                    )
                } else {
                    assert(views[1] == w@[1]@);
                    let path = chars_of(w[1].as_str());
                    if position(&path, '~') < path.len() {
                        Plan::GoHomeRelative(w[1].clone())
                    } else {
                        Plan::GoTo(w[1].clone())
                    }
                }
            } else {
                let mut arguments: Vec<String> = Vec::new();
                let mut i: usize = 1;
                let ghost rest = views.skip(1);
                proof {
                    assert(rest.take(0) =~= Seq::<Seq<char>>::empty());
                    assert(text_views(arguments@) =~= Seq::<Seq<char>>::empty());
                }
                while i < w.len()
                    invariant
                        views == text_views(w@),
                        rest == views.skip(1),
                        1 <= i <= w.len(),
                        text_views(arguments@) == non_empty(rest.take(i - 1)),
                    decreases w.len() - i,
                {
                    proof {
                        assert(rest.take(i as int).drop_last() =~= rest.take(i - 1));
                        assert(rest.take(i as int).last() == w@[i as int]@);
                    }
                    if !w[i].as_str().is_empty() {
                        let ghost before = text_views(arguments@);
                        arguments.push(w[i].clone());
                        assert(text_views(arguments@) =~= before.push(w@[i as int]@));
                    }
                    i = i + 1;
                }
                proof {
                    assert(rest.take(i - 1) =~= rest);
                }
                Plan::Spawn(w[0].clone(), arguments)
            }
        },
    }
}

/// Decides what a command line asks for.
pub fn plan(input: &str) -> (r: Plan)
    ensures
        r@ == planned(input@, shell_words(input@)),
{
    plan_words(input, split_words(input))
}

/// The path of a `cd` whose argument holds `~`: the home directory stands
/// in for each `~`.
pub fn expand_home(path: &str, home: &str) -> (r: String)
    ensures
        r@ == replace_all(path@, seq!['~'], home@),
{
    let mut tilde: Vec<char> = Vec::new();
    tilde.push('~');
    assert(tilde@ =~= seq!['~']);
    text_of(&replace_every(&chars_of(path), &tilde, &chars_of(home)))
}

/// What is recorded of a `cd`: success without a word, or the system's
/// refusal behind `cd: `.
pub open spec fn cd_outcome(input: Seq<char>, refusal: Option<Seq<char>>) -> CompletedView {
    match refusal {
        None => silent_success(input),
        Some(message) => failure(input, OriginView::Vshell, "cd: "@ + message),
    }
}

/// Records the outcome of a `cd`; `refusal` holds the system's words where
/// it refused.
pub fn directory_changed(input: &str, refusal: Option<&str>) -> (r: CompletedCommand)
    ensures
        r@ == cd_outcome(
            input@,
            match refusal {
                Some(m) => Some(m@),
                None => None,
            },
        ),
{
    match refusal {
        None => CompletedCommand {
            input: String::from_str(input),
            output: Output {
                origin: Origin::Vshell,
                output_type: OutputType::Success(String::new(), String::new()),
            },
        },
        Some(message) => {
            let mut text = String::from_str("cd: ");
            text.append(message);
            fail(input, Origin::Vshell, text)
        },
    }
}

/// Records a `cd` that needed the home directory where there is none.
pub fn home_missing(input: &str) -> (r: CompletedCommand)
    ensures
        r@ == failure(input@, OriginView::Vshell, "cd: could not find home directory"@),
{
    fail(input, Origin::Vshell, String::from_str("cd: could not find home directory"))
}

/// What is said of a refusal to start (`verb` is `spawn`) or to stop
/// (`kill`) a program.
pub open spec fn refusal_text(
    verb: Seq<char>,
    program: Seq<char>,
    kind: FailureKind,
    message: Seq<char>,
) -> Seq<char> {
    match kind {
        FailureKind::NotFound => "Command not found: "@ + program,
        FailureKind::PermissionDenied => "Permission denied"@,
        FailureKind::Other => "Could not "@ + verb + " process: "@ + message,
    }
}

fn refusal(verb: &str, program: &str, failure: &ProcessFailure) -> (r: String)
    ensures
        r@ == refusal_text(verb@, program@, failure.kind, failure.message@),
{
    match failure.kind {
        FailureKind::NotFound => {
            let mut text = String::from_str("Command not found: ");
            text.append(program);
            text
        },
        FailureKind::PermissionDenied => String::from_str("Permission denied"),
        FailureKind::Other => {
            let mut text = String::from_str("Could not ");
            text.append(verb);
            text.append(" process: ");
            text.append(failure.message.as_str());
            text
        },
    }
}

/// Records that `program` could not be started.
pub fn spawn_failed(input: &str, program: &str, failure: &ProcessFailure) -> (r: CompletedCommand)
    ensures
        r@ == self::failure(
            input@,
            OriginView::Vshell,
            refusal_text("spawn"@, program@, failure.kind, failure.message@),
        ),
{
    fail(input, Origin::Vshell, refusal("spawn", program, failure))
}

/// Records that `program` could not be stopped.
pub fn kill_failed(input: &str, program: &str, failure: &ProcessFailure) -> (r: CompletedCommand)
    ensures
        r@ == self::failure(
            input@,
            OriginView::Vshell,
            refusal_text("kill"@, program@, failure.kind, failure.message@),
        ),
{
    fail(input, Origin::Vshell, refusal("kill", program, failure))
}

/// The command line that a shell is given: the prefix, if there is one,
/// and the command line behind it.
pub open spec fn prefixed(command: Seq<char>, prefix: Option<Seq<char>>) -> Seq<char> {
    match prefix {
        Some(p) => p + command,
        None => command,
    }
}

/// Puts the prefix before a command line that a shell is to run.
pub fn shell_command_line(command: &str, prefix: Option<String>) -> (r: String)
    ensures
        r@ == prefixed(
            command@,
            match prefix {
                Some(p) => Some(p@),
                None => None,
            },
        ),
{
    match prefix {
        None => String::from_str(command),
        Some(mut p) => {
            p.append(command);
            p
        },
    }
}

/// Records that the shell could not be started (`verb` is `spawn`) or
/// stopped (`kill`).
pub fn shell_failed(input: &str, shell: &str, verb: &str, message: &str) -> (r: CompletedCommand)
    ensures
        r@ == failure(
            input@,
            OriginView::Other(shell@),
            "Could not "@ + verb@ + " process: "@ + message@,
        ),
{
    let mut text = String::from_str("Could not ");
    text.append(verb);
    text.append(" process: ");
    text.append(message);
    fail(input, Origin::Other(String::from_str(shell)), text)
}

/// What to do next about a running process.
#[derive(Debug, Clone, Copy, PartialEq, Eq)]
pub enum WaitAction {
    /// Ask again whether the process has ended.
    Poll,
    /// Stop the process, then collect what it left.
    Kill,
    /// Collect what the process left.
    Collect,
}

/// What a process left, once it has ended or its state can no longer be
/// told, is collected; a process that runs is stopped when a cancellation
/// has arrived, and asked again otherwise.
pub open spec fn wait_action(ended: bool, cancelled: bool) -> WaitAction {
    if ended {
        WaitAction::Collect
    } else if cancelled {
        WaitAction::Kill
    } else {
        WaitAction::Poll
    }
}

/// Decides what to do next about a running process.
pub fn next_wait_action(ended: bool, cancelled: bool) -> (r: WaitAction)
    ensures
        r == wait_action(ended, cancelled),
{
    if ended {
        WaitAction::Collect
    } else if cancelled {
        WaitAction::Kill
    } else {
        WaitAction::Poll
    }
}

/// What is recorded of a process that was waited for: its two streams as
/// text, as a success or an error by how it ended; or, where waiting
/// failed, that the command was not found, or the system's words.
pub open spec fn collected(
    input: Seq<char>,
    success: bool,
    stdout: Seq<u8>,
    stderr: Seq<u8>,
    origin: OriginView,
) -> CompletedView {
    CompletedView {
        input,
        output: OutputView {
            origin,
            output_type: if success {
                OutputTypeView::Success(utf8_lossy(stdout), utf8_lossy(stderr))
            } else {
                OutputTypeView::Error(utf8_lossy(stdout), utf8_lossy(stderr))
            },
        },
    }
}

/// What is recorded where waiting for a process failed.
pub open spec fn wait_failed(
    input: Seq<char>,
    kind: FailureKind,
    message: Seq<char>,
    origin: OriginView,
) -> CompletedView {
    failure(
        input,
        origin,
        if kind == FailureKind::NotFound {
            "Command not found: "@ + input
        } else {
            message
        },
    )
}

/// Records a process whose streams were read as `stdout` and `stderr`.
pub fn record_output(
    input: String,
    success: bool,
    stdout: String,
    stderr: String,
    origin: Origin,
) -> (r: CompletedCommand)
    ensures
        r@ == (CompletedView {
            input: input@,
            output: OutputView {
                origin: origin@,
                output_type: if success {
                    OutputTypeView::Success(stdout@, stderr@)
                } else {
                    OutputTypeView::Error(stdout@, stderr@)
                },
            },
        }),
{
    CompletedCommand {
        input,
        output: Output {
            origin,
            output_type: if success {
                OutputType::Success(stdout, stderr)
            } else {
                OutputType::Error(stdout, stderr)
            },
        },
    }
}

impl CompletedCommand {
    /// Records a process that was waited for.
    pub fn new(input: String, output: Result<ProcessOutput, ProcessFailure>, origin: Origin) -> (r:
        CompletedCommand)
        ensures
            match output {
                Ok(left) => r@ == collected(
                    input@,
                    left.success,
                    left.stdout@,
                    left.stderr@,
                    origin@,
                ),
                Err(refused) => r@ == wait_failed(input@, refused.kind, refused.message@, origin@),
            },
    {
        match output {
            Ok(left) => {
                let stdout = decode_lossy(&left.stdout);
                let stderr = decode_lossy(&left.stderr);
                record_output(input, left.success, stdout, stderr, origin)
            },
            Err(refused) => {
                let message = match refused.kind {
                    FailureKind::NotFound => {
                        let mut text = String::from_str("Command not found: ");
                        text.append(input.as_str());
                        text
                    },
                    _ => refused.message,
                };
                CompletedCommand {
                    input,
                    output: Output {
                        origin,
                        output_type: OutputType::Error(String::new(), message),
                    },
                }
            },
        }
    }
}

} // verus!
