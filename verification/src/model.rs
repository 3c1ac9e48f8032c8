//! The session's data: what is shown, what was run, and what is remembered.

use vstd::prelude::*;
use vstd::string::StringExecFns;
use crate::text::{byte_len, len_of};

verus! {

/// Whether words are labelled with their hints.
#[derive(Debug, Clone, Copy, PartialEq, Eq)]
pub enum HintState {
    ShowHints,
    HideHints,
}

impl Default for HintState {
    fn default() -> (r: Self)
        ensures
            r == HintState::ShowHints,
    {
        HintState::ShowHints
    }
}

/// Which history the history pane lists and the select command addresses.
#[derive(Debug, Clone, Copy, PartialEq, Eq)]
pub enum HistoryType {
    CommandHistory,
    DirectoryHistory,
}

impl Default for HistoryType {
    fn default() -> (r: Self)
        ensures
            r == HistoryType::CommandHistory,
    {
        HistoryType::CommandHistory
    }
}

/// The settings of a session.
#[derive(Debug, Clone, Copy, PartialEq, Eq)]
pub struct Config {
    pub hint_state: HintState,
    pub history_type: HistoryType,
}

impl Default for Config {
    fn default() -> (r: Self)
        ensures
            r == (Config {
                hint_state: HintState::ShowHints,
                history_type: HistoryType::CommandHistory,
            }),
    {
        Config { hint_state: HintState::ShowHints, history_type: HistoryType::CommandHistory }
    }
}

/// How a command was run: split into arguments by the console itself, or
/// handed to a named shell.
#[derive(Debug, PartialEq, Eq)]
pub enum Origin {
    Vshell,
    Other(String),
}

/// An origin as a mathematical value.
pub ghost enum OriginView {
    Vshell,
    Other(Seq<char>),
}

impl View for Origin {
    type V = OriginView;

    open spec fn view(&self) -> OriginView {
        match *self {
            Origin::Vshell => OriginView::Vshell,
            Origin::Other(name) => OriginView::Other(name@),
        }
    }
}

impl Clone for Origin {
    fn clone(&self) -> (r: Self)
        ensures
            r@ == self@,
    {
        match self {
            Origin::Vshell => Origin::Vshell,
            Origin::Other(name) => Origin::Other(name.clone()),
        }
    }
}

impl Default for Origin {
    fn default() -> (r: Self)
        ensures
            r@ == OriginView::Vshell,
    {
        Origin::Vshell
    }
}

impl OriginView {
    /// The name shown for the origin.
    pub open spec fn name(self) -> Seq<char> {
        match self {
            OriginView::Vshell => "vshell"@,
            OriginView::Other(name) => name,
        }
    }
}

impl Origin {
    /// The name shown for the origin.
    pub fn to_string(&self) -> (r: String)
        ensures
            r@ == self@.name(),
    {
        match self {
            Origin::Vshell => String::from_str("vshell"),
            Origin::Other(name) => name.clone(),
        }
    }
}

/// The two captured streams of a command, standard output first, and
/// whether the command succeeded.
#[derive(Debug, PartialEq, Eq)]
pub enum OutputType {
    Success(String, String),
    Error(String, String),
    Empty,
}

/// The streams of a command as mathematical values.
pub ghost enum OutputTypeView {
    Success(Seq<char>, Seq<char>),
    Error(Seq<char>, Seq<char>),
    Empty,
}

impl View for OutputType {
    type V = OutputTypeView;

    open spec fn view(&self) -> OutputTypeView {
        match *self {
            OutputType::Success(stdout, stderr) => OutputTypeView::Success(stdout@, stderr@),
            OutputType::Error(stdout, stderr) => OutputTypeView::Error(stdout@, stderr@),
            OutputType::Empty => OutputTypeView::Empty,
        }
    }
}

impl Clone for OutputType {
    fn clone(&self) -> (r: Self)
        ensures
            r@ == self@,
    {
        match self {
            OutputType::Success(stdout, stderr) => OutputType::Success(
                stdout.clone(),
                stderr.clone(),
            ),
            OutputType::Error(stdout, stderr) => OutputType::Error(stdout.clone(), stderr.clone()),
            OutputType::Empty => OutputType::Empty,
        }
    }
}

impl Default for OutputType {
    fn default() -> (r: Self)
        ensures
            r@ == OutputTypeView::Empty,
    {
        OutputType::Empty
    }
}

/// What a command produced, and how it was run.
#[derive(Debug, PartialEq, Eq)]
pub struct Output {
    pub origin: Origin,
    pub output_type: OutputType,
}

/// An output as a mathematical value.
pub ghost struct OutputView {
    pub origin: OriginView,
    pub output_type: OutputTypeView,
}

impl View for Output {
    type V = OutputView;

    open spec fn view(&self) -> OutputView {
        OutputView { origin: self.origin@, output_type: self.output_type@ }
    }
}

impl Clone for Output {
    fn clone(&self) -> (r: Self)
        ensures
            r@ == self@,
    {
        Output { origin: self.origin.clone(), output_type: self.output_type.clone() }
    }
}

impl Default for Output {
    fn default() -> (r: Self)
        ensures
            r@ == (OutputView { origin: OriginView::Vshell, output_type: OutputTypeView::Empty }),
    {
        Output { origin: Origin::Vshell, output_type: OutputType::Empty }
    }
}

/// The two streams as one text: nothing where both are empty, the one that
/// is not empty where only one is, and otherwise both under headings,
/// standard error first.
pub open spec fn render_streams(stdout: Seq<char>, stderr: Seq<char>) -> Seq<char> {
    if stdout.len() == 0 && stderr.len() == 0 {
        Seq::empty()
    } else if stdout.len() == 0 {
        stderr
    } else if stderr.len() == 0 {
        stdout
    } else {
        "STDERR:\n\n"@ + stderr + "\nSTDOUT:\n\n"@ + stdout
    }
}

impl OutputView {
    /// The text that is shown for, and copied from, an output.
    pub open spec fn rendered(self) -> Seq<char> {
        match self.output_type {
            OutputTypeView::Success(stdout, stderr) => render_streams(stdout, stderr),
            OutputTypeView::Error(stdout, stderr) => render_streams(stdout, stderr),
            OutputTypeView::Empty => Seq::empty(),
        }
    }
}

fn render(stdout: &String, stderr: &String) -> (r: String)
    ensures
        r@ == render_streams(stdout@, stderr@),
{
    if stdout.as_str().is_empty() && stderr.as_str().is_empty() {
        String::new()
    } else if stdout.as_str().is_empty() {
        stderr.clone()
    } else if stderr.as_str().is_empty() {
        stdout.clone()
    } else {
        let mut r = String::from_str("STDERR:\n\n");
        r.append(stderr.as_str());
        r.append("\nSTDOUT:\n\n");
        r.append(stdout.as_str());
        r
    }
}

impl Output {
    /// The text that is shown for, and copied from, this output.
    pub fn to_string(&self) -> (r: String)
        ensures
            r@ == self@.rendered(),
    {
        match &self.output_type {
            OutputType::Success(stdout, stderr) => render(stdout, stderr),
            OutputType::Error(stdout, stderr) => render(stdout, stderr),
            OutputType::Empty => String::new(),
        }
    }
}

/// A command line being edited, or kept as a pin: its text and the byte
/// offset of the cursor in it.
#[derive(Debug, PartialEq, Eq)]
pub struct CommandWithoutOutput {
    pub cursor_position: u64,
    pub input: String,
}

/// A command line as a mathematical value: its characters, and the byte
/// offset of the cursor.
pub ghost struct LineView {
    pub cursor: nat,
    pub input: Seq<char>,
}

impl View for CommandWithoutOutput {
    type V = LineView;

    open spec fn view(&self) -> LineView {
        LineView { cursor: self.cursor_position as nat, input: self.input@ }
    }
}

impl Clone for CommandWithoutOutput {
    fn clone(&self) -> (r: Self)
        ensures
            r@ == self@,
    {
        CommandWithoutOutput { cursor_position: self.cursor_position, input: self.input.clone() }
    }
}

impl Default for CommandWithoutOutput {
    fn default() -> (r: Self)
        ensures
            r@ == LineView::empty(),
    {
        CommandWithoutOutput { cursor_position: 0, input: String::new() }
    }
}

impl LineView {
    /// The empty line, cursor at its start.
    pub open spec fn empty() -> LineView {
        LineView { cursor: 0, input: Seq::empty() }
    }

    /// The line that holds `input`, cursor at its end.
    pub open spec fn at_end(input: Seq<char>) -> LineView {
        LineView { cursor: byte_len(input), input }
    }
}

/// A command that has run, with what it produced.
#[derive(Debug, PartialEq, Eq)]
pub struct CompletedCommand {
    pub input: String,
    pub output: Output,
}

/// A command that has run, as a mathematical value.
pub ghost struct CompletedView {
    pub input: Seq<char>,
    pub output: OutputView,
}

impl View for CompletedCommand {
    type V = CompletedView;

    open spec fn view(&self) -> CompletedView {
        CompletedView { input: self.input@, output: self.output@ }
    }
}

impl Clone for CompletedCommand {
    fn clone(&self) -> (r: Self)
        ensures
            r@ == self@,
    {
        CompletedCommand { input: self.input.clone(), output: self.output.clone() }
    }
}

/// What the input and output panes show.
#[derive(Debug, PartialEq, Eq)]
pub enum CurrentView {
    /// A command line under edit, with no output yet.
    CommandWithoutOutput(CommandWithoutOutput),
    /// The output of the command that ran last.
    Output(Output),
    /// A command recalled from the history, with its output.
    CommandWithOutput(CompletedCommand),
}

/// What the panes show, as a mathematical value.
pub ghost enum ShownView {
    Editable(LineView),
    Output(OutputView),
    Completed(CompletedView),
}

impl View for CurrentView {
    type V = ShownView;

    open spec fn view(&self) -> ShownView {
        match *self {
            CurrentView::CommandWithoutOutput(line) => ShownView::Editable(line@),
            CurrentView::Output(output) => ShownView::Output(output@),
            CurrentView::CommandWithOutput(completed) => ShownView::Completed(completed@),
        }
    }
}

impl Clone for CurrentView {
    fn clone(&self) -> (r: Self)
        ensures
            r@ == self@,
    {
        match self {
            CurrentView::CommandWithoutOutput(line) => CurrentView::CommandWithoutOutput(
                line.clone(),
            ),
            CurrentView::Output(output) => CurrentView::Output(output.clone()),
            CurrentView::CommandWithOutput(completed) => CurrentView::CommandWithOutput(
                completed.clone(),
            ),
        }
    }
}

impl Default for CurrentView {
    fn default() -> (r: Self)
        ensures
            r@ == ShownView::Editable(LineView::empty()),
    {
        CurrentView::CommandWithoutOutput(CommandWithoutOutput::default())
    }
}

impl ShownView {
    /// The command line that is shown, if any.
    pub open spec fn input(self) -> Option<Seq<char>> {
        match self {
            ShownView::Editable(line) => Some(line.input),
            ShownView::Output(_) => None,
            ShownView::Completed(completed) => Some(completed.input),
        }
    }

    /// Where the cursor stands: in a line under edit at its own position, in
    /// a recalled command at the end of the text.
    pub open spec fn cursor(self) -> Option<nat> {
        match self {
            ShownView::Editable(line) => Some(line.cursor),
            ShownView::Output(_) => None,
            ShownView::Completed(completed) => Some(byte_len(completed.input)),
        }
    }
}

impl CurrentView {
    /// The command line that is shown, if any.
    pub fn input_str(&self) -> (r: Option<&str>)
        ensures
            match r {
                Some(s) => self@.input() == Some(s@),
                None => self@.input() is None,
            },
    {
        match self {
            CurrentView::CommandWithoutOutput(command) => Some(command.input.as_str()),
            CurrentView::Output(_) => None,
            CurrentView::CommandWithOutput(command) => Some(command.input.as_str()),
        }
    }

    /// The byte offset of the cursor in the command line that is shown.
    pub fn cursor_position(&self) -> (r: Option<u64>)
        ensures
            match r {
                Some(p) => self@.cursor() == Some(p as nat),
                None => self@.cursor() is None,
            },
    {
        match self {
            CurrentView::CommandWithoutOutput(command) => Some(command.cursor_position),
            CurrentView::Output(_) => None,
            CurrentView::CommandWithOutput(command) => Some(
                len_of(command.input.as_str()) as u64,
            ),
        }
    }
}

} // verus!
