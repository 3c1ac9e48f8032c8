//! The session: the mode it is in, what it shows and what it remembers,
//! and the changes that keys and commands make to it.

use vstd::prelude::*;
use vstd::string::StringExecFns;
use crate::directory::{file_views, Directory, DirectoryView, File, FileView, Rect};
use crate::model::{
    CommandWithoutOutput, CompletedCommand, CompletedView, Config, CurrentView, HintState,
    HistoryType, LineView, Output, ShownView,
};
use crate::edit::lemma_edit_keeps_cursor;
use crate::quote::{has_open_quote, open_quote};
use crate::text::byte_len;
use crate::text::{chars_of, copy_range, len_of, push_char, text_of};

verus! {

/// What the session is doing.
#[derive(Debug, PartialEq, Eq)]
pub enum Mode {
    /// Editing the command line.
    Idle,
    /// Typing a colon-command into its buffer.
    Command(String),
    /// Browsing directories for a path.
    Directory(Directory),
    /// Over: nothing changes the session any more.
    Quit,
    /// Waiting for a command to finish; the two values drive the marker
    /// that runs to and fro while it does: its direction and its place.
    Executing(bool, u16),
}

/// A mode as a mathematical value.
pub ghost enum ModeView {
    Idle,
    Command(Seq<char>),
    Directory(DirectoryView),
    Quit,
    Executing(bool, u16),
}

impl View for Mode {
    type V = ModeView;

    open spec fn view(&self) -> ModeView {
        match *self {
            Mode::Idle => ModeView::Idle,
            Mode::Command(buffer) => ModeView::Command(buffer@),
            Mode::Directory(directory) => ModeView::Directory(directory@),
            Mode::Quit => ModeView::Quit,
            Mode::Executing(direction, place) => ModeView::Executing(direction, place),
        }
    }
}

/// The whole state of a session.
#[derive(Debug, PartialEq, Eq)]
pub struct Model {
    pub mode: Mode,
    pub config: Config,
    /// The commands that have run, oldest first.
    pub command_history: Vec<CompletedCommand>,
    /// Where browsing the history with the arrow keys has got to.
    pub command_history_index: usize,
    /// The directories that the session has been in, oldest first.
    pub directory_history: Vec<String>,
    /// The pinned command lines, in the order in which they were pinned.
    pub pinned_commands: Vec<CommandWithoutOutput>,
    pub current_command: CurrentView,
}

/// A session as a mathematical value.
pub ghost struct ModelView {
    pub mode: ModeView,
    pub config: Config,
    pub command_history: Seq<CompletedView>,
    pub command_history_index: nat,
    pub directory_history: Seq<Seq<char>>,
    pub pinned_commands: Seq<LineView>,
    pub current_command: ShownView,
}

/// The views of the commands of a history.
pub open spec fn completed_views(v: Seq<CompletedCommand>) -> Seq<CompletedView> {
    Seq::new(v.len(), |i: int| v[i]@)
}

/// The views of a list of lines.
pub open spec fn line_views(v: Seq<CommandWithoutOutput>) -> Seq<LineView> {
    Seq::new(v.len(), |i: int| v[i]@)
}

/// The texts of a list of strings.
pub open spec fn text_views(v: Seq<String>) -> Seq<Seq<char>> {
    Seq::new(v.len(), |i: int| v[i]@)
}

impl View for Model {
    type V = ModelView;

    open spec fn view(&self) -> ModelView {
        ModelView {
            mode: self.mode@,
            config: self.config,
            command_history: completed_views(self.command_history@),
            command_history_index: self.command_history_index as nat,
            directory_history: text_views(self.directory_history@),
            pinned_commands: line_views(self.pinned_commands@),
            current_command: self.current_command@,
        }
    }
}

/// No two pins hold the same text.
pub open spec fn distinct_pins(pins: Seq<LineView>) -> bool {
    forall|i: int, j: int|
        0 <= i < j < pins.len() ==> (#[trigger] pins[i]).input != (#[trigger] pins[j]).input
}

/// The command line is not finished: it ends inside quotes or with a
/// backslash.
pub open spec fn wants_more(input: Seq<char>) -> bool {
    open_quote(input) is Some || (input.len() > 0 && input.last() == '\\')
}

impl ModelView {
    /// The cursor of the line under edit, and of every pin, stands within
    /// its text.
    pub open spec fn cursors_in_text(self) -> bool {
        &&& self.current_command matches ShownView::Editable(line) ==> line.cursor_in_text()
        &&& forall|i: int|
            0 <= i < self.pinned_commands.len() ==> (
            #[trigger] self.pinned_commands[i]).cursor_in_text()
    }

    /// What holds of every session: the browsing index lies within the
    /// history or just behind it, there is a directory to be in, no two
    /// pins hold the same text, and no cursor stands outside its text.
    pub open spec fn wf(self) -> bool {
        &&& self.command_history_index <= self.command_history.len()
        &&& self.directory_history.len() > 0
        &&& distinct_pins(self.pinned_commands)
        &&& self.cursors_in_text()
    }

    /// The session in another mode.
    pub open spec fn in_mode(self, mode: ModeView) -> ModelView {
        ModelView { mode, ..self }
    }

    /// The session showing another view.
    pub open spec fn showing(self, view: ShownView) -> ModelView {
        ModelView { current_command: view, ..self }
    }

    /// The session with `line` under edit, and browsing the history set
    /// back to start behind its end.
    pub open spec fn with_line(self, line: LineView) -> ModelView {
        ModelView {
            current_command: ShownView::Editable(line),
            command_history_index: self.command_history.len(),
            ..self
        }
    }

    /// A recalled command becomes a line under edit, cursor at its end.
    pub open spec fn reopened(self) -> ModelView {
        match self.current_command {
            ShownView::Completed(completed) => self.with_line(LineView::at_end(completed.input)),
            _ => self,
        }
    }

    /// The Up key: the command before the one that browsing has got to.
    pub open spec fn recall_previous(self) -> ModelView {
        let index = self.command_history_index - 1;
        if 0 <= index < self.command_history.len() {
            ModelView {
                command_history_index: index as nat,
                current_command: ShownView::Completed(self.command_history[index]),
                ..self
            }
        } else {
            self
        }
    }

    /// The Down key: the command after the one that browsing has got to,
    /// or an empty line behind the last.
    pub open spec fn recall_next(self) -> ModelView {
        let index = self.command_history_index + 1;
        if index < self.command_history.len() {
            ModelView {
                command_history_index: index,
                current_command: ShownView::Completed(self.command_history[index as int]),
                ..self
            }
        } else {
            self.with_line(LineView::empty())
        }
    }

    /// A typed character: put in at the cursor of a line under edit, added
    /// to a recalled command, or the start of a new line.
    pub open spec fn type_char(self, c: char) -> ModelView {
        match self.current_command {
            ShownView::Editable(line) => self.showing(ShownView::Editable(line.insert_char(c))),
            ShownView::Completed(completed) => self.with_line(
                LineView::at_end(completed.input.push(c)),
            ),
            ShownView::Output(_) => self.with_line(LineView { cursor: 1, input: seq![c] }),
        }
    }

    /// The Backspace key: takes a character out before the cursor of a line
    /// under edit, or the last character of a recalled command.
    pub open spec fn erase(self) -> ModelView {
        match self.current_command {
            ShownView::Editable(line) => self.showing(ShownView::Editable(line.backspace())),
            ShownView::Completed(completed) => self.with_line(
                LineView::at_end(
                    if completed.input.len() > 0 {
                        completed.input.drop_last()
                    } else {
                        completed.input
                    },
                ),
            ),
            ShownView::Output(_) => self,
        }
    }

    /// The Left key: in a recalled command the cursor goes one byte before
    /// the end.
    pub open spec fn cursor_left(self) -> ModelView {
        match self.current_command {
            ShownView::Editable(line) => self.showing(ShownView::Editable(line.move_left())),
            ShownView::Completed(completed) => self.with_line(
                LineView::at_end(completed.input).move_left(),
            ),
            ShownView::Output(_) => self,
        }
    }

    /// The Right key: in a recalled command the cursor goes to the end.
    pub open spec fn cursor_right(self) -> ModelView {
        match self.current_command {
            ShownView::Editable(line) => self.showing(ShownView::Editable(line.move_right())),
            ShownView::Completed(completed) => self.with_line(LineView::at_end(completed.input)),
            ShownView::Output(_) => self,
        }
    }

    /// Pasted text: put in at the cursor of a line under edit, added to a
    /// recalled command, or made the new line.
    pub open spec fn paste(self, text: Seq<char>) -> ModelView {
        match self.current_command {
            ShownView::Editable(line) => self.with_line(line.splice(text)),
            ShownView::Completed(completed) => self.with_line(
                LineView::at_end(completed.input + text),
            ),
            ShownView::Output(_) => self.with_line(LineView::at_end(text)),
        }
    }
}

impl Model {
    /// A session that starts in `starting_directory`, with an empty line,
    /// no history and hints hidden.
    pub fn new(starting_directory: String) -> (r: Model)
        ensures
            r@ == (ModelView {
                mode: ModeView::Idle,
                config: Config {
                    hint_state: HintState::HideHints,
                    history_type: HistoryType::CommandHistory,
                },
                command_history: Seq::empty(),
                command_history_index: 0,
                directory_history: seq![starting_directory@],
                pinned_commands: Seq::empty(),
                current_command: ShownView::Editable(LineView::empty()),
            }),
            r@.wf(),
    {
        let mut directory_history: Vec<String> = Vec::new();
        directory_history.push(starting_directory);
        let r = Model {
            mode: Mode::Idle,
            config: Config {
                hint_state: HintState::HideHints,
                history_type: HistoryType::CommandHistory,
            },
            command_history: Vec::new(),
            command_history_index: 0,
            directory_history,
            pinned_commands: Vec::new(),
            current_command: CurrentView::default(),
        };
        assert(r@.command_history =~= Seq::empty());
        assert(r@.pinned_commands =~= Seq::empty());
        assert(r@.directory_history =~= seq![starting_directory@]);
        r
    }

    /// Tells whether the session is one: whether a session put together
    /// by hand keeps to what the functions of this module keep to.
    pub fn is_consistent(&self) -> (r: bool)
        ensures
            r == self@.wf(),
    {
        if self.command_history_index > self.command_history.len() {
            return false;
        }
        if self.directory_history.len() == 0 {
            return false;
        }
        match &self.current_command {
            CurrentView::CommandWithoutOutput(line) => {
                if line.cursor_position > len_of(line.input.as_str()) as u64 {
                    return false;
                }
            },
            _ => {},
        }
        let ghost pins = line_views(self.pinned_commands@);
        let count = self.pinned_commands.len();
        let mut j: usize = 0;
        while j < count
            invariant
                pins == line_views(self.pinned_commands@),
                count == self.pinned_commands.len(),
                0 <= j <= count,
                forall|a: int, b: int|
                    0 <= a < b < j ==> (#[trigger] pins[a]).input != (#[trigger] pins[b]).input,
                forall|a: int| 0 <= a < j ==> (#[trigger] pins[a]).cursor_in_text(),
            decreases count - j,
        {
            let pin = &self.pinned_commands[j];
            assert(pins[j as int] == pin@);
            if pin.cursor_position > len_of(pin.input.as_str()) as u64 {
                return false;
            }
            let mut i: usize = 0;
            while i < j
                invariant
                    pins == line_views(self.pinned_commands@),
                    count == self.pinned_commands.len(),
                    0 <= i <= j < count,
                    forall|a: int| 0 <= a < i ==> (#[trigger] pins[a]).input != pins[j as int].input,
                decreases j - i,
            {
                assert(pins[i as int] == self.pinned_commands@[i as int]@);
                assert(pins[j as int] == self.pinned_commands@[j as int]@);
                if self.pinned_commands[i].input == self.pinned_commands[j].input {
                    return false;
                }
                i = i + 1;
            }
            j = j + 1;
        }
        true
    }

    /// Tells whether the session is over.
    pub fn should_quit(&self) -> (r: bool)
        ensures
            r == (self@.mode is Quit),
    {
        match self.mode {
            Mode::Quit => true,
            _ => false,
        }
    }

    /// Puts a command line under edit, and sets browsing the history back.
    pub fn set_current_view_from_command(&mut self, cursor_position: u64, command: String)
        ensures
            final(self)@ == old(self)@.with_line(
                LineView { cursor: cursor_position as nat, input: command@ },
            ),
            old(self)@.wf() && cursor_position <= byte_len(command@) ==> final(self)@.wf(),
    {
        proof {
            if self@.wf() {
                lemma_session_wf(self@);
            }
        }
        self.current_command = CurrentView::CommandWithoutOutput(
            CommandWithoutOutput { cursor_position, input: command },
        );
        self.command_history_index = self.command_history.len();
    }

    fn set_line(&mut self, line: CommandWithoutOutput)
        ensures
            final(self)@ == old(self)@.with_line(line@),
    {
        self.current_command = CurrentView::CommandWithoutOutput(line);
        self.command_history_index = self.command_history.len();
    }

    /// Turns a recalled command into a line under edit.
    pub fn reopen(&mut self)
        ensures
            final(self)@ == old(self)@.reopened(),
            old(self)@.wf() ==> final(self)@.wf(),
    {
        proof {
            if self@.wf() {
                lemma_session_wf(self@);
            }
        }
        let line = match &self.current_command {
            CurrentView::CommandWithOutput(completed) => Some(
                CommandWithoutOutput::at_end(completed.input.clone()),
            ),
            _ => None,
        };
        match line {
            Some(l) => self.set_line(l),
            None => {},
        }
    }

    /// The Up key.
    pub fn recall_previous(&mut self)
        ensures
            final(self)@ == old(self)@.recall_previous(),
            old(self)@.wf() ==> final(self)@.wf(),
    {
        proof {
            if self@.wf() {
                lemma_session_wf(self@);
            }
        }
        if self.command_history_index > 0 && self.command_history_index - 1
            < self.command_history.len() {
            self.command_history_index = self.command_history_index - 1;
            let completed = self.command_history[self.command_history_index].clone();
            self.current_command = CurrentView::CommandWithOutput(completed);
        }
    }

    /// The Down key.
    pub fn recall_next(&mut self)
        ensures
            final(self)@ == old(self)@.recall_next(),
            old(self)@.wf() ==> final(self)@.wf(),
    {
        proof {
            if self@.wf() {
                lemma_session_wf(self@);
            }
        }
        let count = self.command_history.len();
        if count > 0 && self.command_history_index < count - 1 {
            self.command_history_index = self.command_history_index + 1;
            let completed = self.command_history[self.command_history_index].clone();
            self.current_command = CurrentView::CommandWithOutput(completed);
        } else {
            self.set_line(CommandWithoutOutput::default());
        }
    }

    /// A typed character.
    pub fn type_char(&mut self, c: char)
        ensures
            final(self)@ == old(self)@.type_char(c),
            old(self)@.wf() ==> final(self)@.wf(),
    {
        proof {
            if self@.wf() {
                lemma_session_wf(self@);
            }
        }
        match &self.current_command {
            CurrentView::CommandWithoutOutput(line) => {
                let next = line.insert_char(c);
                self.current_command = CurrentView::CommandWithoutOutput(next);
            },
            CurrentView::CommandWithOutput(completed) => {
                let mut input = completed.input.clone();
                push_char(&mut input, c);
                self.set_line(CommandWithoutOutput::at_end(input));
            },
            CurrentView::Output(_) => {
                let mut input = String::new();
                push_char(&mut input, c);
                assert(input@ =~= seq![c]);
                self.set_line(CommandWithoutOutput { cursor_position: 1, input });
            },
        }
    }

    /// The Backspace key.
    pub fn erase(&mut self)
        ensures
            final(self)@ == old(self)@.erase(),
            old(self)@.wf() ==> final(self)@.wf(),
    {
        proof {
            if self@.wf() {
                lemma_session_wf(self@);
            }
        }
        match &self.current_command {
            CurrentView::CommandWithoutOutput(line) => {
                let next = line.backspace();
                self.current_command = CurrentView::CommandWithoutOutput(next);
            },
            CurrentView::CommandWithOutput(completed) => {
                let input = without_last(completed.input.as_str());
                self.set_line(CommandWithoutOutput::at_end(input));
            },
            CurrentView::Output(_) => {},
        }
    }

    /// The Left key.
    pub fn cursor_left(&mut self)
        ensures
            final(self)@ == old(self)@.cursor_left(),
            old(self)@.wf() ==> final(self)@.wf(),
    {
        proof {
            if self@.wf() {
                lemma_session_wf(self@);
            }
        }
        match &self.current_command {
            CurrentView::CommandWithoutOutput(line) => {
                let next = line.move_left();
                self.current_command = CurrentView::CommandWithoutOutput(next);
            },
            CurrentView::CommandWithOutput(completed) => {
                let line = CommandWithoutOutput::at_end(completed.input.clone()).move_left();
                self.set_line(line);
            },
            CurrentView::Output(_) => {},
        }
    }

    /// The Right key.
    pub fn cursor_right(&mut self)
        ensures
            final(self)@ == old(self)@.cursor_right(),
            old(self)@.wf() ==> final(self)@.wf(),
    {
        proof {
            if self@.wf() {
                lemma_session_wf(self@);
            }
        }
        match &self.current_command {
            CurrentView::CommandWithoutOutput(line) => {
                let next = line.move_right();
                self.current_command = CurrentView::CommandWithoutOutput(next);
            },
            CurrentView::CommandWithOutput(completed) => {
                let line = CommandWithoutOutput::at_end(completed.input.clone());
                self.set_line(line);
            },
            CurrentView::Output(_) => {},
        }
    }

    /// Puts pasted text into the command line.
    pub fn paste(&mut self, text: &str)
        ensures
            final(self)@ == old(self)@.paste(text@),
            old(self)@.wf() ==> final(self)@.wf(),
    {
        proof {
            if self@.wf() {
                lemma_session_wf(self@);
            }
        }
        let line = match &self.current_command {
            CurrentView::CommandWithoutOutput(line) => line.splice(text),
            CurrentView::CommandWithOutput(completed) => {
                let mut input = completed.input.clone();
                input.append(text);
                CommandWithoutOutput::at_end(input)
            },
            CurrentView::Output(_) => CommandWithoutOutput::at_end(String::from_str(text)),
        };
        self.set_line(line);
    }
}

/// Index of the first pin that holds `input`, or the number of pins
/// where none does.
pub open spec fn pin_index(pins: Seq<LineView>, input: Seq<char>) -> int
    decreases pins.len(),
{
    if pins.len() == 0 || pins[0].input == input {
        0
    } else {
        1 + pin_index(pins.drop_first(), input)
    }
}

/// `pin_index` is the least index of a pin that holds the text.
pub proof fn lemma_pin_index(pins: Seq<LineView>, input: Seq<char>)
    ensures
        0 <= pin_index(pins, input) <= pins.len(),
        pin_index(pins, input) < pins.len() ==> pins[pin_index(pins, input)].input == input,
        forall|k: int| 0 <= k < pin_index(pins, input) ==> (#[trigger] pins[k]).input != input,
    decreases pins.len(),
{
    if pins.len() == 0 || pins[0].input == input {
    } else {
        lemma_pin_index(pins.drop_first(), input);
        assert forall|k: int| 0 <= k < pin_index(pins, input) implies (#[trigger] pins[k]).input
            != input by {
            if k > 0 {
                assert(pins[k] == pins.drop_first()[k - 1]);
            }
        }
    }
}

/// The directories that the session has been in, after it was found in
/// `current`: a directory is added only where it is not the last one.
pub open spec fn recorded(directories: Seq<Seq<char>>, current: Option<Seq<char>>) -> Seq<
    Seq<char>,
> {
    match current {
        Some(d) => if directories.len() > 0 && directories.last() == d {
            directories
        } else {
            directories.push(d)
        },
        None => directories,
    }
}

/// The marker of a running command one step on: it runs up to `limit`,
/// turns, runs down to zero, and turns again.
pub open spec fn blink_step(direction: bool, place: u16, limit: u16) -> (bool, u16) {
    if direction {
        if place == limit || place == u16::MAX {
            (false, place)
        } else {
            (true, (place + 1) as u16)
        }
    } else if place == 0 {
        (true, place)
    } else {
        (false, (place - 1) as u16)
    }
}

impl ShownView {
    /// The command line that is shown, as a line: a recalled command with
    /// the cursor at its end.
    pub open spec fn as_line(self) -> Option<LineView> {
        match self {
            ShownView::Editable(line) => Some(line),
            ShownView::Completed(completed) => Some(LineView::at_end(completed.input)),
            ShownView::Output(_) => None,
        }
    }
}

impl ModelView {
    /// Enter on the command line, or the command to run it with a shell:
    /// an empty line and a bare output do nothing, an unfinished line is
    /// continued on a new line, and any other line is run. The second
    /// value is the command line to run, if one is to be run.
    pub open spec fn submit(self) -> (ModelView, Option<Seq<char>>) {
        match self.current_command {
            ShownView::Editable(line) => if line.input.len() == 0 {
                (self.in_mode(ModeView::Idle), None)
            } else if wants_more(line.input) {
                (
                    self.showing(ShownView::Editable(line.continue_line())).in_mode(
                        ModeView::Idle,
                    ),
                    None,
                )
            } else {
                (self.in_mode(ModeView::Executing(true, 0)), Some(line.input))
            },
            ShownView::Output(_) => (self.in_mode(ModeView::Idle), None),
            ShownView::Completed(completed) => (
                self.showing(ShownView::Editable(LineView::at_end(completed.input))).in_mode(
                    ModeView::Executing(true, 0),
                ),
                Some(completed.input),
            ),
        }
    }

    /// The pins after the pin command: the pin that holds the text of the
    /// command line is taken out, or the command line is added as a pin.
    /// An empty line and a bare output change nothing.
    pub open spec fn toggle_pin(self) -> ModelView {
        match self.current_command.as_line() {
            Some(line) => {
                let i = pin_index(self.pinned_commands, line.input);
                if line.input.len() == 0 {
                    self
                } else if i < self.pinned_commands.len() {
                    ModelView { pinned_commands: self.pinned_commands.remove(i), ..self }
                } else {
                    ModelView { pinned_commands: self.pinned_commands.push(line), ..self }
                }
            },
            None => self,
        }
    }

    /// The line that number `n` selects: the pins come first, in their
    /// order, and behind them the commands of the history, the latest
    /// first.
    pub open spec fn selected_line(self, n: nat) -> Option<LineView> {
        let pins = self.pinned_commands.len();
        let runs = self.command_history.len();
        if n < pins {
            Some(self.pinned_commands[n as int])
        } else if n < pins + runs {
            Some(LineView::at_end(self.command_history[runs - 1 - (n - pins)].input))
        } else {
            None
        }
    }

    /// The select command on commands: no number gives an empty line; a
    /// number gives the line that it selects, and changes nothing where it
    /// selects none. Either way the command buffer is closed.
    pub open spec fn select_command(self, number: Option<usize>) -> ModelView {
        match number {
            None => self.with_line(LineView::empty()).in_mode(ModeView::Idle),
            Some(n) => match self.selected_line(n as nat) {
                Some(line) => self.with_line(line).in_mode(ModeView::Idle),
                None => self.in_mode(ModeView::Idle),
            },
        }
    }

    /// The directory that number `n` selects: the latest comes first.
    pub open spec fn selected_directory(self, n: nat) -> Option<Seq<char>> {
        if n < self.directory_history.len() {
            Some(self.directory_history[self.directory_history.len() - 1 - n])
        } else {
            None
        }
    }

    /// The session after it was found in the directory `current`.
    pub open spec fn in_directory(self, current: Option<Seq<char>>) -> ModelView {
        ModelView { directory_history: recorded(self.directory_history, current), ..self }
    }

    /// The session after a command has run: the command is the last of the
    /// history, its output is shown, browsing starts behind it, and the
    /// directory that the session is now in is recorded.
    pub open spec fn finished(
        self,
        completed: CompletedView,
        current: Option<Seq<char>>,
    ) -> ModelView {
        ModelView {
            mode: ModeView::Idle,
            command_history: self.command_history.push(completed),
            command_history_index: self.command_history.len() + 1,
            current_command: ShownView::Output(completed.output),
            directory_history: recorded(self.directory_history, current),
            ..self
        }
    }

    /// The session with the hints shown if they were hidden, and hidden if
    /// they were shown.
    pub open spec fn toggle_hints(self) -> ModelView {
        ModelView {
            config: Config {
                hint_state: match self.config.hint_state {
                    HintState::ShowHints => HintState::HideHints,
                    HintState::HideHints => HintState::ShowHints,
                },
                ..self.config
            },
            ..self
        }
    }

    /// The session listing the other history.
    pub open spec fn switch_history(self) -> ModelView {
        ModelView {
            config: Config {
                history_type: match self.config.history_type {
                    HistoryType::CommandHistory => HistoryType::DirectoryHistory,
                    HistoryType::DirectoryHistory => HistoryType::CommandHistory,
                },
                ..self.config
            },
            ..self
        }
    }

    /// The browser opened on a directory, where a line is under edit.
    pub open spec fn browsing(self, current_dir: Seq<char>, entries: Seq<FileView>) -> ModelView {
        if self.current_command is Editable {
            self.in_mode(
                ModeView::Directory(
                    DirectoryView {
                        search: Seq::empty(),
                        path: None,
                        current_dir,
                        children: crate::directory::sorted_by_name(entries),
                        location: None,
                    },
                ),
            )
        } else {
            self
        }
    }

    /// The browser closed, and `path` put in at the cursor of the line
    /// under edit.
    pub open spec fn path_inserted(self, path: Seq<char>) -> ModelView {
        match self.current_command {
            ShownView::Editable(line) => self.showing(
                ShownView::Editable(line.splice(path)),
            ).in_mode(ModeView::Idle),
            _ => self.in_mode(ModeView::Idle),
        }
    }

    /// The browser after its directory was listed anew.
    pub open spec fn relisted(self, entries: Seq<FileView>) -> ModelView {
        match self.mode {
            ModeView::Directory(d) => self.in_mode(ModeView::Directory(d.relisted(entries))),
            _ => self,
        }
    }

    /// The browser after it went to another directory.
    pub open spec fn moved_to(self, path: Seq<char>, entries: Option<Seq<FileView>>) -> ModelView {
        match self.mode {
            ModeView::Directory(d) => self.in_mode(ModeView::Directory(d.moved_to(path, entries))),
            _ => self,
        }
    }

    /// The browser after its list was drawn at `area`.
    pub open spec fn drawn_at(self, area: Rect) -> ModelView {
        match self.mode {
            ModeView::Directory(d) => self.in_mode(
                ModeView::Directory(DirectoryView { location: Some(area), ..d }),
            ),
            _ => self,
        }
    }

    /// The marker of a running command one step on.
    pub open spec fn blinked(self, limit: u16) -> ModelView {
        match self.mode {
            ModeView::Executing(direction, place) => self.in_mode(
                ModeView::Executing(
                    blink_step(direction, place, limit).0,
                    blink_step(direction, place, limit).1,
                ),
            ),
            _ => self,
        }
    }
}

/// The pin command keeps the pins distinct, and their cursors within their
/// texts.
pub proof fn lemma_toggle_pin_wf(m: ModelView)
    requires
        m.wf(),
    ensures
        m.toggle_pin().wf(),
{
    match m.current_command.as_line() {
        Some(line) => {
            let pins = m.pinned_commands;
            let i = pin_index(pins, line.input);
            lemma_pin_index(pins, line.input);
            lemma_edit_keeps_cursor(line, 'a', line.input);
            if line.input.len() == 0 {
            } else if i < pins.len() {
                let r = pins.remove(i);
                assert forall|a: int, b: int| 0 <= a < b < r.len() implies (#[trigger] r[a]).input
                    != (#[trigger] r[b]).input by {
                    let a0 = if a < i {
                        a
                    } else {
                        a + 1
                    };
                    let b0 = if b < i {
                        b
                    } else {
                        b + 1
                    };
                    assert(r[a] == pins[a0] && r[b] == pins[b0]);
                }
                assert forall|a: int| 0 <= a < r.len() implies (
                #[trigger] r[a]).cursor_in_text() by {
                    let a0 = if a < i {
                        a
                    } else {
                        a + 1
                    };
                    assert(r[a] == pins[a0]);
                }
            } else {
                let r = pins.push(line);
                assert forall|a: int, b: int| 0 <= a < b < r.len() implies (#[trigger] r[a]).input
                    != (#[trigger] r[b]).input by {
                    assert(r[a] == pins[a]);
                    if b < pins.len() {
                        assert(r[b] == pins[b]);
                    }
                }
                assert forall|a: int| 0 <= a < r.len() implies (
                #[trigger] r[a]).cursor_in_text() by {
                    if a < pins.len() {
                        assert(r[a] == pins[a]);
                    }
                }
            }
        },
        None => {},
    }
}

/// A change that leaves the history, the directories and the pins alone,
/// the browsing index where it was or behind the end of the history, and
/// the cursor of the line under edit within its text, turns a session into
/// a session.
pub proof fn lemma_wf_frame(m: ModelView, r: ModelView)
    requires
        m.wf(),
        r.command_history == m.command_history,
        r.directory_history == m.directory_history,
        r.pinned_commands == m.pinned_commands,
        r.command_history_index == m.command_history_index || r.command_history_index
            == m.command_history.len(),
        r.current_command matches ShownView::Editable(line) ==> line.cursor_in_text(),
    ensures
        r.wf(),
{
}

/// What the keys do to a session leaves it a session.
pub proof fn lemma_keys_wf(m: ModelView, c: char, text: Seq<char>)
    requires
        m.wf(),
    ensures
        m.reopened().wf(),
        m.recall_previous().wf(),
        m.recall_next().wf(),
        m.type_char(c).wf(),
        m.erase().wf(),
        m.cursor_left().wf(),
        m.cursor_right().wf(),
        m.paste(text).wf(),
        m.path_inserted(text).wf(),
        m.submit().0.wf(),
{
    let empty = Seq::<char>::empty();
    lemma_edit_keeps_cursor(LineView::empty(), c, text);
    match m.current_command {
        ShownView::Editable(line) => {
            lemma_edit_keeps_cursor(line, c, text);
        },
        ShownView::Completed(completed) => {
            let line = LineView::at_end(completed.input);
            lemma_edit_keeps_cursor(line, c, completed.input);
            lemma_edit_keeps_cursor(line, c, completed.input.push(c));
            lemma_edit_keeps_cursor(line, c, completed.input + text);
            if completed.input.len() > 0 {
                lemma_edit_keeps_cursor(line, c, completed.input.drop_last());
            }
        },
        ShownView::Output(_) => {},
    }
}

/// The line that a number selects has its cursor within its text.
pub proof fn lemma_selected_line_cursor(m: ModelView, n: nat)
    requires
        m.cursors_in_text(),
        m.selected_line(n) is Some,
    ensures
        m.selected_line(n)->0.cursor_in_text(),
{
}

/// Whatever is done to a session through the functions below, it stays a
/// session: each of them keeps `wf`.
pub proof fn lemma_session_wf(m: ModelView)
    requires
        m.wf(),
    ensures
        forall|mode: ModeView| (#[trigger] m.in_mode(mode)).wf(),
        forall|line: LineView| line.cursor_in_text() ==> (#[trigger] m.with_line(line)).wf(),
        forall|view: ShownView|
            (view matches ShownView::Editable(line) ==> line.cursor_in_text()) ==> (
            #[trigger] m.showing(view)).wf(),
        m.reopened().wf(),
        m.recall_previous().wf(),
        m.recall_next().wf(),
        forall|c: char| (#[trigger] m.type_char(c)).wf(),
        m.erase().wf(),
        m.cursor_left().wf(),
        m.cursor_right().wf(),
        forall|text: Seq<char>| (#[trigger] m.paste(text)).wf(),
        m.submit().0.wf(),
        m.toggle_pin().wf(),
        forall|number: Option<usize>| (#[trigger] m.select_command(number)).wf(),
        forall|current: Option<Seq<char>>| (#[trigger] m.in_directory(current)).wf(),
        forall|completed: CompletedView, current: Option<Seq<char>>|
            (#[trigger] m.finished(completed, current)).wf(),
        m.toggle_hints().wf(),
        m.switch_history().wf(),
        forall|dir: Seq<char>, entries: Seq<FileView>| (#[trigger] m.browsing(dir, entries)).wf(),
        forall|path: Seq<char>| (#[trigger] m.path_inserted(path)).wf(),
        forall|entries: Seq<FileView>| (#[trigger] m.relisted(entries)).wf(),
        forall|path: Seq<char>, entries: Option<Seq<FileView>>|
            (#[trigger] m.moved_to(path, entries)).wf(),
        forall|area: Rect| (#[trigger] m.drawn_at(area)).wf(),
        forall|limit: u16| (#[trigger] m.blinked(limit)).wf(),
{
    lemma_toggle_pin_wf(m);
    lemma_keys_wf(m, 'a', Seq::empty());
    assert forall|c: char| (#[trigger] m.type_char(c)).wf() by {
        lemma_keys_wf(m, c, Seq::empty());
    }
    assert forall|text: Seq<char>| (#[trigger] m.paste(text)).wf() by {
        lemma_keys_wf(m, 'a', text);
    }
    assert forall|path: Seq<char>| (#[trigger] m.path_inserted(path)).wf() by {
        lemma_keys_wf(m, 'a', path);
    }
    assert forall|number: Option<usize>| (#[trigger] m.select_command(number)).wf() by {
        lemma_edit_keeps_cursor(LineView::empty(), 'a', Seq::empty());
        match number {
            Some(n) => {
                if m.selected_line(n as nat) is Some {
                    lemma_selected_line_cursor(m, n as nat);
                }
            },
            None => {},
        }
    }
}

impl CurrentView {
    /// The command line that is shown, as a line of its own.
    pub fn as_line(&self) -> (r: Option<CommandWithoutOutput>)
        ensures
            match r {
                Some(line) => self@.as_line() == Some(line@),
                None => self@.as_line() is None,
            },
    {
        match self {
            CurrentView::CommandWithoutOutput(line) => Some(line.clone()),
            CurrentView::CommandWithOutput(completed) => Some(
                CommandWithoutOutput::at_end(completed.input.clone()),
            ),
            CurrentView::Output(_) => None,
        }
    }
}

fn find_pin(pins: &Vec<CommandWithoutOutput>, input: &String) -> (i: usize)
    ensures
        i == pin_index(line_views(pins@), input@),
        i <= pins.len(),
{
    let ghost views = line_views(pins@);
    let mut i: usize = 0;
    while i < pins.len() && !(pins[i].input == *input)
        invariant
            views == line_views(pins@),
            0 <= i <= pins.len(),
            forall|k: int| 0 <= k < i ==> (#[trigger] views[k]).input != input@,
        decreases pins.len() - i,
    {
        assert(views[i as int] == pins@[i as int]@);
        i = i + 1;
    }
    proof {
        lemma_pin_index(views, input@);
        let j = pin_index(views, input@);
        if i < pins.len() {
            assert(views[i as int] == pins@[i as int]@);
        }
        if j < i {
            assert(views[j].input != input@);
        }
    }
    i
}

impl Model {
    /// Enter on the command line. Returns the command line to run, if one
    /// is to be run.
    pub fn submit(&mut self) -> (r: Option<String>)
        ensures
            final(self)@ == old(self)@.submit().0,
            match r {
                Some(input) => old(self)@.submit().1 == Some(input@),
                None => old(self)@.submit().1 is None,
            },
            old(self)@.wf() ==> final(self)@.wf(),
    {
        proof {
            if self@.wf() {
                lemma_session_wf(self@);
            }
        }
        match &self.current_command {
            CurrentView::CommandWithoutOutput(line) => {
                if line.input.as_str().is_empty() {
                    self.mode = Mode::Idle;
                    None
                } else if has_open_quote(line.input.as_str()).is_some() || ends_with_char(
                    line.input.as_str(),
                    '\\',
                ) {
                    let next = line.continue_line();
                    self.current_command = CurrentView::CommandWithoutOutput(next);
                    self.mode = Mode::Idle;
                    None
                } else {
                    let input = line.input.clone();
                    self.mode = Mode::Executing(true, 0);
                    Some(input)
                }
            },
            CurrentView::Output(_) => {
                self.mode = Mode::Idle;
                None
            },
            CurrentView::CommandWithOutput(completed) => {
                let input = completed.input.clone();
                let line = CommandWithoutOutput::at_end(completed.input.clone());
                self.current_command = CurrentView::CommandWithoutOutput(line);
                self.mode = Mode::Executing(true, 0);
                Some(input)
            },
        }
    }

    /// The pin command.
    pub fn toggle_pin(&mut self)
        ensures
            final(self)@ == old(self)@.toggle_pin(),
            old(self)@.wf() ==> final(self)@.wf(),
    {
        proof {
            if self@.wf() {
                lemma_session_wf(self@);
            }
        }
        match self.current_command.as_line() {
            None => {},
            Some(line) => {
                if line.input.as_str().is_empty() {
                    return ;
                }
                let ghost pins = line_views(self.pinned_commands@);
                let i = find_pin(&self.pinned_commands, &line.input);
                if i < self.pinned_commands.len() {
                    self.pinned_commands.remove(i);
                    assert(line_views(self.pinned_commands@) =~= pins.remove(i as int));
                } else {
                    self.pinned_commands.push(line);
                    assert(line_views(self.pinned_commands@) =~= pins.push(line@));
                }
            },
        }
    }

    /// The line that number `n` selects among the pins and the history.
    pub fn selected_line(&self, n: usize) -> (r: Option<CommandWithoutOutput>)
        ensures
            match r {
                Some(line) => self@.selected_line(n as nat) == Some(line@),
                None => self@.selected_line(n as nat) is None,
            },
    {
        let pins = self.pinned_commands.len();
        let runs = self.command_history.len();
        if n < pins {
            Some(self.pinned_commands[n].clone())
        } else if n - pins < runs {
            let index = runs - 1 - (n - pins);
            Some(CommandWithoutOutput::at_end(self.command_history[index].input.clone()))
        } else {
            None
        }
    }

    /// The command lines that can be selected, each at the place of its
    /// number: the pins in their order, then the history from the latest
    /// back to the first.
    pub fn selection_entries(&self) -> (r: Vec<String>)
        ensures
            r@.len() == self@.pinned_commands.len() + self@.command_history.len(),
            forall|n: int|
                0 <= n < r@.len() ==> self@.selected_line(n as nat) is Some
                    && self@.selected_line(n as nat)->0.input == (#[trigger] r@[n])@,
    {
        let pins = self.pinned_commands.len();
        let runs = self.command_history.len();
        let mut r: Vec<String> = Vec::new();
        let mut i: usize = 0;
        while i < pins
            invariant
                pins == self.pinned_commands.len(),
                0 <= i <= pins,
                r@.len() == i,
                forall|n: int|
                    0 <= n < i ==> self@.selected_line(n as nat) is Some
                        && self@.selected_line(n as nat)->0.input == (#[trigger] r@[n])@,
            decreases pins - i,
        {
            r.push(self.pinned_commands[i].input.clone());
            i = i + 1;
        }
        let mut k: usize = runs;
        while k > 0
            invariant
                pins == self.pinned_commands.len(),
                runs == self.command_history.len(),
                0 <= k <= runs,
                r@.len() == pins + (runs - k),
                forall|n: int|
                    0 <= n < r@.len() ==> self@.selected_line(n as nat) is Some
                        && self@.selected_line(n as nat)->0.input == (#[trigger] r@[n])@,
            decreases k,
        {
            k = k - 1;
            r.push(self.command_history[k].input.clone());
        }
        r
    }

    /// The directories that can be selected, each at the place of its
    /// number: from the latest back to the first.
    pub fn directory_entries(&self) -> (r: Vec<String>)
        ensures
            r@.len() == self@.directory_history.len(),
            forall|n: int|
                0 <= n < r@.len() ==> self@.selected_directory(n as nat) == Some(
                    (#[trigger] r@[n])@,
                ),
    {
        let count = self.directory_history.len();
        let mut r: Vec<String> = Vec::new();
        let mut k: usize = count;
        while k > 0
            invariant
                count == self.directory_history.len(),
                0 <= k <= count,
                r@.len() == count - k,
                forall|n: int|
                    0 <= n < r@.len() ==> self@.selected_directory(n as nat) == Some(
                        (#[trigger] r@[n])@,
                    ),
            decreases k,
        {
            k = k - 1;
            r.push(self.directory_history[k].clone());
        }
        r
    }

    /// The select command, where commands are listed.
    pub fn select_command(&mut self, number: Option<usize>)
        ensures
            final(self)@ == old(self)@.select_command(number),
            old(self)@.wf() ==> final(self)@.wf(),
    {
        proof {
            if self@.wf() {
                lemma_session_wf(self@);
            }
        }
        match number {
            None => {
                self.set_line(CommandWithoutOutput::default());
                self.mode = Mode::Idle;
            },
            Some(n) => {
                match self.selected_line(n) {
                    Some(line) => {
                        self.set_line(line);
                    },
                    None => {},
                }
                self.mode = Mode::Idle;
            },
        }
    }

    /// The directory that number `n` selects in the history of directories.
    pub fn selected_directory(&self, n: usize) -> (r: Option<String>)
        ensures
            match r {
                Some(d) => self@.selected_directory(n as nat) == Some(d@),
                None => self@.selected_directory(n as nat) is None,
            },
    {
        let count = self.directory_history.len();
        if n < count {
            Some(self.directory_history[count - 1 - n].clone())
        } else {
            None
        }
    }

    /// Records the directory that the session is in now; `None` where it
    /// could not be told.
    pub fn add_current_directory_to_history(&mut self, current_directory: Option<String>)
        ensures
            final(self)@ == old(self)@.in_directory(
                match current_directory {
                    Some(d) => Some(d@),
                    None => None,
                },
            ),
            old(self)@.wf() ==> final(self)@.wf(),
    {
        proof {
            if self@.wf() {
                lemma_session_wf(self@);
            }
        }
        let ghost before = text_views(self.directory_history@);
        match current_directory {
            None => {},
            Some(d) => {
                let count = self.directory_history.len();
                if count > 0 && self.directory_history[count - 1] == d {
                    assert(before.last() == self.directory_history@[count - 1]@);
                } else {
                    if count > 0 {
                        assert(before.last() == self.directory_history@[count - 1]@);
                    }
                    self.directory_history.push(d);
                    assert(text_views(self.directory_history@) =~= before.push(d@));
                }
            },
        }
    }

    /// Takes in a command that has run, and the directory that the session
    /// is in now.
    pub fn finish_execution(
        &mut self,
        completed: CompletedCommand,
        current_directory: Option<String>,
    )
        ensures
            final(self)@ == old(self)@.finished(
                completed@,
                match current_directory {
                    Some(d) => Some(d@),
                    None => None,
                },
            ),
            old(self)@.wf() ==> final(self)@.wf(),
    {
        proof {
            if self@.wf() {
                lemma_session_wf(self@);
            }
        }
        let ghost before = completed_views(self.command_history@);
        let output = completed.output.clone();
        self.command_history.push(completed);
        assert(completed_views(self.command_history@) =~= before.push(completed@));
        self.current_command = CurrentView::Output(output);
        self.command_history_index = self.command_history.len();
        self.mode = Mode::Idle;
        self.add_current_directory_to_history(current_directory);
    }

    /// Shows the hints if they are hidden, and hides them if they are shown.
    pub fn toggle_hints(&mut self)
        ensures
            final(self)@ == old(self)@.toggle_hints(),
            old(self)@.wf() ==> final(self)@.wf(),
    {
        proof {
            if self@.wf() {
                lemma_session_wf(self@);
            }
        }
        self.config.hint_state = match self.config.hint_state {
            HintState::ShowHints => HintState::HideHints,
            HintState::HideHints => HintState::ShowHints,
        };
    }

    /// Lists the other history.
    pub fn switch_history(&mut self)
        ensures
            final(self)@ == old(self)@.switch_history(),
            old(self)@.wf() ==> final(self)@.wf(),
    {
        proof {
            if self@.wf() {
                lemma_session_wf(self@);
            }
        }
        self.config.history_type = match self.config.history_type {
            HistoryType::CommandHistory => HistoryType::DirectoryHistory,
            HistoryType::DirectoryHistory => HistoryType::CommandHistory,
        };
    }

    /// Opens the browser on `current_dir`, whose entries are `entries`.
    pub fn open_directory(&mut self, current_dir: String, entries: &Vec<File>)
        ensures
            final(self)@ == old(self)@.browsing(current_dir@, file_views(entries@)),
            old(self)@.wf() ==> final(self)@.wf(),
    {
        proof {
            if self@.wf() {
                lemma_session_wf(self@);
            }
        }
        match &self.current_command {
            CurrentView::CommandWithoutOutput(_) => {
                self.mode = Mode::Directory(Directory::new(current_dir, entries));
            },
            _ => {},
        }
    }

    /// Closes the browser and puts `path` into the command line.
    pub fn insert_path(&mut self, path: &str)
        ensures
            final(self)@ == old(self)@.path_inserted(path@),
            old(self)@.wf() ==> final(self)@.wf(),
    {
        proof {
            if self@.wf() {
                lemma_session_wf(self@);
            }
        }
        match &self.current_command {
            CurrentView::CommandWithoutOutput(line) => {
                let next = line.splice(path);
                self.current_command = CurrentView::CommandWithoutOutput(next);
            },
            _ => {},
        }
        self.mode = Mode::Idle;
    }

    /// Shows the entries of the browser's directory, as they were read.
    pub fn set_children(&mut self, entries: &Vec<File>)
        ensures
            final(self)@ == old(self)@.relisted(file_views(entries@)),
            old(self)@.wf() ==> final(self)@.wf(),
    {
        proof {
            if self@.wf() {
                lemma_session_wf(self@);
            }
        }
        match &mut self.mode {
            Mode::Directory(directory) => {
                directory.set_children(entries);
            },
            _ => {},
        }
    }

    /// Takes the browser to the directory at `path`.
    pub fn enter_directory(&mut self, path: String, entries: Option<&Vec<File>>)
        ensures
            final(self)@ == old(self)@.moved_to(
                path@,
                match entries {
                    Some(e) => Some(file_views(e@)),
                    None => None,
                },
            ),
            old(self)@.wf() ==> final(self)@.wf(),
    {
        proof {
            if self@.wf() {
                lemma_session_wf(self@);
            }
        }
        match &mut self.mode {
            Mode::Directory(directory) => {
                directory.move_to(path, entries);
            },
            _ => {},
        }
    }

    /// Notes where on the screen the browser's list was drawn.
    pub fn set_list_location(&mut self, area: Rect)
        ensures
            final(self)@ == old(self)@.drawn_at(area),
            old(self)@.wf() ==> final(self)@.wf(),
    {
        proof {
            if self@.wf() {
                lemma_session_wf(self@);
            }
        }
        match &mut self.mode {
            Mode::Directory(directory) => {
                directory.location = Some(area);
            },
            _ => {},
        }
    }

    /// Moves the marker of a running command one step on.
    pub fn advance_blink(&mut self, limit: u16)
        ensures
            final(self)@ == old(self)@.blinked(limit),
            old(self)@.wf() ==> final(self)@.wf(),
    {
        proof {
            if self@.wf() {
                lemma_session_wf(self@);
            }
        }
        let next = match &self.mode {
            Mode::Executing(direction, place) => {
                if *direction {
                    if *place == limit || *place == u16::MAX {
                        Some((false, *place))
                    } else {
                        Some((true, *place + 1))
                    }
                } else if *place == 0 {
                    Some((true, *place))
                } else {
                    Some((false, *place - 1))
                }
            },
            _ => None,
        };
        match next {
            Some((direction, place)) => {
                self.mode = Mode::Executing(direction, place);
            },
            None => {},
        }
    }
}

/// The text without its last character; the empty text stays empty.
pub fn without_last(s: &str) -> (r: String)
    ensures
        r@ == if s@.len() > 0 {
            s@.drop_last()
        } else {
            s@
        },
{
    let chars = chars_of(s);
    if chars.len() == 0 {
        return String::new();
    }
    let kept = copy_range(&chars, 0, chars.len() - 1);
    assert(kept@ =~= s@.drop_last());
    text_of(&kept)
}

/// Tells whether the text ends with `c`.
pub fn ends_with_char(s: &str, c: char) -> (r: bool)
    ensures
        r == (s@.len() > 0 && s@.last() == c),
{
    let chars = chars_of(s);
    chars.len() > 0 && chars[chars.len() - 1] == c
}

} // verus!
