//! The controller: one event in, one change of the session and at most one
//! request to the host out.

use vstd::prelude::*;
use vstd::string::StringExecFns;
use crate::address::{copied_text, copy_words, lemma_address_keeps_cursor};
use crate::command::{
    parse_command, Command, CommandView, CopyOutput, CopyOutputView, Edit, EditView, Replace,
    ReplaceView,
};
use crate::directory::{Click, ClickView, DirectoryView};
use crate::hint::{base26_to_base10, hint_value, is_hint};
use crate::model::{
    CommandWithoutOutput, CompletedView, CurrentView, HistoryType, LineView, ShownView,
};
use crate::edit::lemma_edit_keeps_cursor;
use crate::replace::{
    lemma_replace_keeps_cursor, replace_all, replace_every, replace_first, replace_once,
};
use crate::session::{
    lemma_selected_line_cursor, lemma_session_wf, lemma_toggle_pin_wf, lemma_wf_frame, recorded,
    without_last, Mode, ModeView, Model, ModelView,
};
use crate::text::{chars_of, push_char, text_of};
use crate::token::tokenize;

verus! {

/// What the host reports: a key, a click or pasted text.
#[derive(Debug, PartialEq, Eq)]
pub enum Event {
    /// The interrupt key.
    CtrlC,
    Backspace,
    Esc,
    Enter,
    Up,
    Down,
    Left,
    Right,
    Character(char),
    /// The left mouse button went down at this column and line.
    MouseDown(u16, u16),
    Paste(String),
}

/// An event as a mathematical value.
pub ghost enum EventView {
    CtrlC,
    Backspace,
    Esc,
    Enter,
    Up,
    Down,
    Left,
    Right,
    Character(char),
    MouseDown(u16, u16),
    Paste(Seq<char>),
}

impl View for Event {
    type V = EventView;

    open spec fn view(&self) -> EventView {
        match *self {
            Event::CtrlC => EventView::CtrlC,
            Event::Backspace => EventView::Backspace,
            Event::Esc => EventView::Esc,
            Event::Enter => EventView::Enter,
            Event::Up => EventView::Up,
            Event::Down => EventView::Down,
            Event::Left => EventView::Left,
            Event::Right => EventView::Right,
            Event::Character(c) => EventView::Character(c),
            Event::MouseDown(x, y) => EventView::MouseDown(x, y),
            Event::Paste(text) => EventView::Paste(text@),
        }
    }
}

/// What the host is asked to do after an event. Where the request has an
/// answer, the host hands it to the session function that is named.
#[derive(Debug, PartialEq, Eq)]
pub enum Effect {
    /// There is nothing to do.
    Nothing,
    /// Run this command line in the background and hand the outcome to
    /// `Model::finish_execution`.
    Execute(String),
    /// Run a command line with a shell in the background: the shell, the
    /// prefix, the command line. The outcome goes to
    /// `Model::finish_execution`.
    ShellExecute(String, Option<String>, String),
    /// Run this `cd` at once and hand the outcome to
    /// `Model::finish_execution`.
    ChangeDirectory(String),
    /// Tell the running command to stop, and wait until it has.
    Cancel,
    /// Put this text on the clipboard.
    SetClipboard(String),
    /// Hand the text of the clipboard to `Model::paste`.
    Paste,
    /// Read the working directory and hand it to `Model::open_directory`.
    ChoosePath,
    /// Read the browser's directory and hand it to `Model::set_children`.
    ListDirectory,
    /// If this is the path of a directory, hand it to
    /// `Model::enter_directory`.
    ProbeDirectory(String),
    /// Hand the parent of the browser's directory, if it has one, to
    /// `Model::enter_directory`.
    GoToParent,
    /// Hand the directory of this name in the browser's directory to
    /// `Model::enter_directory`.
    GoInto(String),
    /// Hand the path of the file of this name in the browser's directory
    /// to `Model::insert_path`, and let go of the mouse.
    InsertFile(String),
    /// Let go of the mouse.
    DisableMouseCapture,
}

/// A request to the host as a mathematical value.
pub ghost enum EffectView {
    Nothing,
    Execute(Seq<char>),
    ShellExecute(Seq<char>, Option<Seq<char>>, Seq<char>),
    ChangeDirectory(Seq<char>),
    Cancel,
    SetClipboard(Seq<char>),
    Paste,
    ChoosePath,
    ListDirectory,
    ProbeDirectory(Seq<char>),
    GoToParent,
    GoInto(Seq<char>),
    InsertFile(Seq<char>),
    DisableMouseCapture,
}

impl View for Effect {
    type V = EffectView;

    open spec fn view(&self) -> EffectView {
        match *self {
            Effect::Nothing => EffectView::Nothing,
            Effect::Execute(input) => EffectView::Execute(input@),
            Effect::ShellExecute(shell, prefix, input) => EffectView::ShellExecute(
                shell@,
                match prefix {
                    Some(p) => Some(p@),
                    None => None,
                },
                input@,
            ),
            Effect::ChangeDirectory(command) => EffectView::ChangeDirectory(command@),
            Effect::Cancel => EffectView::Cancel,
            Effect::SetClipboard(text) => EffectView::SetClipboard(text@),
            Effect::Paste => EffectView::Paste,
            Effect::ChoosePath => EffectView::ChoosePath,
            Effect::ListDirectory => EffectView::ListDirectory,
            Effect::ProbeDirectory(path) => EffectView::ProbeDirectory(path@),
            Effect::GoToParent => EffectView::GoToParent,
            Effect::GoInto(name) => EffectView::GoInto(name@),
            Effect::InsertFile(name) => EffectView::InsertFile(name@),
            Effect::DisableMouseCapture => EffectView::DisableMouseCapture,
        }
    }
}

/// The number of the word that a hint names, where the hint is made of the
/// letters `a` to `z` and its value fits in 32 bits.
pub open spec fn hint_number(hint: Seq<char>) -> Option<nat> {
    if is_hint(hint) && hint_value(hint) <= u32::MAX {
        Some(hint_value(hint))
    } else {
        None
    }
}

impl LineView {
    /// The line after the change command: the words that the hints name
    /// are deleted. A hint that names no number changes nothing.
    pub open spec fn edit(self, edit: EditView) -> LineView {
        match edit {
            EditView::Single(hint) => match hint_number(hint) {
                Some(n) => self.delete_word(n),
                None => self,
            },
            EditView::Range(first, last) => match (hint_number(first), hint_number(last)) {
                (Some(a), Some(b)) => self.delete_words(a, b),
                _ => self,
            },
        }
    }

    /// The line after a jump command: the cursor goes before or behind
    /// the word that the hint names, and to the end where the hint is
    /// empty. A hint that names no number changes nothing.
    pub open spec fn jump(self, hint: Seq<char>, behind: bool) -> LineView {
        if hint.len() == 0 {
            self.jump_to_end()
        } else {
            match hint_number(hint) {
                Some(n) => if behind {
                    self.jump_after(n)
                } else {
                    self.jump_before(n)
                },
                None => self,
            }
        }
    }
}

/// The text that the copy command puts on the clipboard, if any, given
/// the output as it is shown.
pub open spec fn copy_request(text: Seq<char>, what: CopyOutputView) -> Option<Seq<char>> {
    match what {
        CopyOutputView::All => Some(text),
        CopyOutputView::Single(hint) => match hint_number(hint) {
            Some(n) => Some(copied_text(tokenize(text), n as int, n)),
            None => None,
        },
        CopyOutputView::Range(first, last) => match (hint_number(first), hint_number(last)) {
            (Some(a), Some(b)) => if b < a {
                None
            } else {
                Some(copied_text(tokenize(text), a as int, b))
            },
            _ => None,
        },
    }
}

/// The request that carries a text to the clipboard, or none.
pub open spec fn clipboard_effect(text: Option<Seq<char>>) -> EffectView {
    match text {
        Some(t) => EffectView::SetClipboard(t),
        None => EffectView::Nothing,
    }
}

/// The command line that goes to the directory `directory`.
pub open spec fn cd_command(directory: Seq<char>) -> Seq<char> {
    "cd \""@ + directory + "\""@
}

impl ModelView {
    /// The session after a colon-command, and what the host is asked to do.
    pub open spec fn run_command(self, command: CommandView) -> (ModelView, EffectView) {
        match command {
            CommandView::Quit => (self.in_mode(ModeView::Quit), EffectView::Nothing),
            CommandView::Edit(edit) => match self.current_command.as_line() {
                None => (self, EffectView::Nothing),
                Some(line) => (
                    self.reopened().showing(ShownView::Editable(line.edit(edit))).in_mode(
                        ModeView::Idle,
                    ),
                    EffectView::Nothing,
                ),
            },
            CommandView::Select(number) => match self.config.history_type {
                HistoryType::CommandHistory => (self.select_command(number), EffectView::Nothing),
                HistoryType::DirectoryHistory => (
                    self.in_mode(ModeView::Idle),
                    match number {
                        Some(n) => match self.selected_directory(n as nat) {
                            Some(d) => EffectView::ChangeDirectory(cd_command(d)),
                            None => EffectView::Nothing,
                        },
                        None => EffectView::Nothing,
                    },
                ),
            },
            CommandView::JumpBefore(hint) => match self.current_command.as_line() {
                None => (self, EffectView::Nothing),
                Some(line) => (
                    self.reopened().showing(ShownView::Editable(line.jump(hint, false))).in_mode(
                        ModeView::Idle,
                    ),
                    EffectView::Nothing,
                ),
            },
            CommandView::JumpAfter(hint) => match self.current_command.as_line() {
                None => (self, EffectView::Nothing),
                Some(line) => (
                    self.reopened().showing(ShownView::Editable(line.jump(hint, true))).in_mode(
                        ModeView::Idle,
                    ),
                    EffectView::Nothing,
                ),
            },
            CommandView::Pin => (self.toggle_pin().in_mode(ModeView::Idle), EffectView::Nothing),
            CommandView::CopyOutput(what) => (
                self.in_mode(ModeView::Idle),
                match self.current_command {
                    ShownView::Editable(_) => EffectView::Nothing,
                    ShownView::Output(output) => clipboard_effect(
                        copy_request(output.rendered(), what),
                    ),
                    ShownView::Completed(completed) => clipboard_effect(
                        copy_request(completed.output.rendered(), what),
                    ),
                },
            ),
            CommandView::Paste => (self.in_mode(ModeView::Idle), EffectView::Paste),
            CommandView::ToggleHints => (
                self.toggle_hints().in_mode(ModeView::Idle),
                EffectView::Nothing,
            ),
            CommandView::ShellExecute(shell, prefix) => (
                self.submit().0,
                match self.submit().1 {
                    Some(input) => EffectView::ShellExecute(shell, prefix, input),
                    None => EffectView::Nothing,
                },
            ),
            CommandView::Replace(ReplaceView::Single(from, to)) => (
                match self.current_command {
                    ShownView::Editable(line) => self.showing(
                        ShownView::Editable(line.replace_single(from, to)),
                    ),
                    ShownView::Output(_) => self,
                    ShownView::Completed(completed) => self.with_line(
                        LineView::at_end(replace_first(completed.input, from, to)),
                    ),
                }.in_mode(ModeView::Idle),
                EffectView::Nothing,
            ),
            CommandView::Replace(ReplaceView::Global(from, to)) => (
                match self.current_command {
                    ShownView::Editable(line) => self.showing(
                        ShownView::Editable(line.replace_global(from, to)),
                    ),
                    ShownView::Output(_) => self,
                    ShownView::Completed(completed) => self.with_line(
                        LineView::at_end(replace_all(completed.input, from, to)),
                    ),
                }.in_mode(ModeView::Idle),
                EffectView::Nothing,
            ),
            CommandView::SwitchHistory => (
                self.switch_history().in_mode(ModeView::Idle),
                EffectView::Nothing,
            ),
            CommandView::ChoosePath => (
                self,
                if self.current_command is Editable {
                    EffectView::ChoosePath
                } else {
                    EffectView::Nothing
                },
            ),
        }
    }

    /// An event while the command line is edited.
    pub open spec fn step_idle(self, event: EventView) -> (ModelView, EffectView) {
        match event {
            EventView::Backspace => (self.erase(), EffectView::Nothing),
            EventView::Esc => (self.in_mode(ModeView::Command(Seq::empty())), EffectView::Nothing),
            EventView::Enter => (
                self.submit().0,
                match self.submit().1 {
                    Some(input) => EffectView::Execute(input),
                    None => EffectView::Nothing,
                },
            ),
            EventView::Up => (self.recall_previous(), EffectView::Nothing),
            EventView::Down => (self.recall_next(), EffectView::Nothing),
            EventView::Character(c) => (self.type_char(c), EffectView::Nothing),
            EventView::Left => (self.cursor_left(), EffectView::Nothing),
            EventView::Right => (self.cursor_right(), EffectView::Nothing),
            EventView::Paste(text) => (self.paste(text), EffectView::Nothing),
            _ => (self, EffectView::Nothing),
        }
    }

    /// An event while a colon-command is typed into `buffer`. Enter runs
    /// the command that the buffer spells; a buffer that spells none stays
    /// as it is.
    pub open spec fn step_command(self, buffer: Seq<char>, event: EventView) -> (
        ModelView,
        EffectView,
    ) {
        match event {
            EventView::Esc => (self.in_mode(ModeView::Idle), EffectView::Nothing),
            EventView::Character(c) => (
                self.in_mode(ModeView::Command(buffer.push(c))),
                EffectView::Nothing,
            ),
            EventView::Backspace => (
                self.in_mode(
                    ModeView::Command(
                        if buffer.len() > 0 {
                            buffer.drop_last()
                        } else {
                            buffer
                        },
                    ),
                ),
                EffectView::Nothing,
            ),
            EventView::Enter => match parse_command(buffer) {
                Ok(command) => self.run_command(command),
                Err(_) => (self, EffectView::Nothing),
            },
            _ => (self, EffectView::Nothing),
        }
    }

    /// An event while the browser `directory` is open.
    pub open spec fn step_directory(self, directory: DirectoryView, event: EventView) -> (
        ModelView,
        EffectView,
    ) {
        let cleared = self.in_mode(
            ModeView::Directory(DirectoryView { search: Seq::empty(), ..directory }),
        );
        match event {
            EventView::MouseDown(x, y) => match directory.click(x, y) {
                ClickView::Outside => (self, EffectView::Nothing),
                ClickView::InsertCurrent => (
                    self.path_inserted(directory.current_dir),
                    EffectView::DisableMouseCapture,
                ),
                ClickView::Parent => (cleared, EffectView::GoToParent),
                ClickView::Enter(name) => (cleared, EffectView::GoInto(name)),
                ClickView::InsertFile(name) => (cleared, EffectView::InsertFile(name)),
                ClickView::Nothing => (cleared, EffectView::Nothing),
            },
            EventView::Esc => (self.in_mode(ModeView::Idle), EffectView::DisableMouseCapture),
            EventView::Character(c) => (
                self.in_mode(
                    ModeView::Directory(
                        DirectoryView { search: directory.search.push(c), ..directory },
                    ),
                ),
                EffectView::ListDirectory,
            ),
            EventView::Backspace => (
                self.in_mode(
                    ModeView::Directory(
                        DirectoryView {
                            search: if directory.search.len() > 0 {
                                directory.search.drop_last()
                            } else {
                                directory.search
                            },
                            ..directory
                        },
                    ),
                ),
                EffectView::ListDirectory,
            ),
            EventView::Enter => (self, EffectView::ProbeDirectory(directory.search)),
            _ => (self, EffectView::Nothing),
        }
    }

    /// The session after an event, and what the host is asked to do. While
    /// a command runs only the interrupt key counts; once the session is
    /// over nothing does.
    pub open spec fn step(self, event: EventView) -> (ModelView, EffectView) {
        match self.mode {
            ModeView::Idle => self.step_idle(event),
            ModeView::Command(buffer) => self.step_command(buffer, event),
            ModeView::Directory(directory) => self.step_directory(directory, event),
            ModeView::Executing(_, _) => if event is CtrlC {
                (self.in_mode(ModeView::Idle), EffectView::Cancel)
            } else {
                (self, EffectView::Nothing)
            },
            ModeView::Quit => (self, EffectView::Nothing),
        }
    }
}

/// A command is started only by an event that puts the session into the
/// executing mode, and never while another command runs; and a session
/// that is over stays as it is.
pub proof fn lemma_one_task_at_a_time(m: ModelView, event: EventView)
    ensures
        m.step(event).1 is Execute || m.step(event).1 is ShellExecute ==> !(m.mode is Executing)
            && m.step(event).0.mode == ModeView::Executing(true, 0),
        m.mode is Executing ==> m.step(event).0.mode is Executing || (event is CtrlC && m.step(
            event,
        ) == (m.in_mode(ModeView::Idle), EffectView::Cancel)),
        m.mode is Quit ==> m.step(event) == (m, EffectView::Nothing),
{
}

/// Events never change what is on record: they leave the history of
/// commands and that of directories as they are. Only a command that has
/// run adds to them, at the end.
pub proof fn lemma_histories_append_only(
    m: ModelView,
    event: EventView,
    completed: CompletedView,
    current: Option<Seq<char>>,
)
    ensures
        m.step(event).0.command_history == m.command_history,
        m.step(event).0.directory_history == m.directory_history,
        m.finished(completed, current).command_history == m.command_history.push(completed),
        m.finished(completed, current).directory_history.take(m.directory_history.len() as int)
            == m.directory_history,
{
    assert(recorded(m.directory_history, current).take(m.directory_history.len() as int)
        =~= m.directory_history);
}

/// The commands that work on a line never take its cursor out of its text.
pub proof fn lemma_line_commands_keep_cursor(line: LineView, edit: EditView, hint: Seq<char>)
    requires
        line.cursor_in_text(),
    ensures
        line.edit(edit).cursor_in_text(),
        line.jump(hint, true).cursor_in_text(),
        line.jump(hint, false).cursor_in_text(),
{
    match edit {
        EditView::Single(h) => {
            if hint_number(h) is Some {
                lemma_address_keeps_cursor(line, hint_number(h)->0, 0);
            }
        },
        EditView::Range(first, last) => {
            if hint_number(first) is Some && hint_number(last) is Some {
                lemma_address_keeps_cursor(line, hint_number(first)->0, hint_number(last)->0);
            }
        },
    }
    lemma_address_keeps_cursor(line, 0, 0);
    if hint_number(hint) is Some {
        lemma_address_keeps_cursor(line, hint_number(hint)->0, 0);
    }
}

/// A colon-command never takes a cursor out of its text.
pub proof fn lemma_run_command_keeps_cursors(m: ModelView, command: CommandView)
    requires
        m.wf(),
    ensures
        m.run_command(command).0.cursors_in_text(),
{
    let r = m.run_command(command).0;
    lemma_toggle_pin_wf(m);
    let empty = Seq::<char>::empty();
    match m.current_command.as_line() {
        Some(line) => {
            lemma_edit_keeps_cursor(line, 'a', empty);
            match m.current_command {
                ShownView::Completed(completed) => {
                    lemma_edit_keeps_cursor(line, 'a', completed.input);
                },
                _ => {},
            }
            match command {
                CommandView::Edit(edit) => {
                    lemma_line_commands_keep_cursor(line, edit, empty);
                },
                CommandView::JumpBefore(hint) => {
                    lemma_line_commands_keep_cursor(line, EditView::Single(empty), hint);
                },
                CommandView::JumpAfter(hint) => {
                    lemma_line_commands_keep_cursor(line, EditView::Single(empty), hint);
                },
                CommandView::Replace(ReplaceView::Single(from, to)) => {
                    lemma_replace_keeps_cursor(line, from, to);
                    match m.current_command {
                        ShownView::Completed(completed) => {
                            lemma_edit_keeps_cursor(
                                line,
                                'a',
                                replace_first(completed.input, from, to),
                            );
                        },
                        _ => {},
                    }
                },
                CommandView::Replace(ReplaceView::Global(from, to)) => {
                    lemma_replace_keeps_cursor(line, from, to);
                    match m.current_command {
                        ShownView::Completed(completed) => {
                            lemma_edit_keeps_cursor(
                                line,
                                'a',
                                replace_all(completed.input, from, to),
                            );
                        },
                        _ => {},
                    }
                },
                _ => {},
            }
        },
        None => {},
    }
    match command {
        CommandView::Select(Some(n)) => {
            match m.selected_line(n as nat) {
                Some(line) => {
                    lemma_selected_line_cursor(m, n as nat);
                },
                None => {},
            }
        },
        CommandView::Select(None) => {
            lemma_edit_keeps_cursor(LineView::empty(), 'a', empty);
        },
        _ => {},
    }
}

/// An event never takes a cursor out of its text.
pub proof fn lemma_step_keeps_cursors(m: ModelView, event: EventView)
    requires
        m.wf(),
    ensures
        m.step(event).0.cursors_in_text(),
{
    let empty = Seq::<char>::empty();
    match m.mode {
        ModeView::Idle => {
            match m.current_command {
                ShownView::Editable(line) => {
                    match event {
                        EventView::Character(c) => {
                            lemma_edit_keeps_cursor(line, c, empty);
                        },
                        EventView::Paste(text) => {
                            lemma_edit_keeps_cursor(line, 'a', text);
                        },
                        _ => {
                            lemma_edit_keeps_cursor(line, 'a', empty);
                        },
                    }
                },
                ShownView::Completed(completed) => {
                    let line = LineView::at_end(completed.input);
                    lemma_edit_keeps_cursor(line, 'a', completed.input);
                    match event {
                        EventView::Character(c) => {
                            lemma_edit_keeps_cursor(line, c, completed.input.push(c));
                        },
                        EventView::Paste(text) => {
                            lemma_edit_keeps_cursor(line, 'a', completed.input + text);
                        },
                        EventView::Backspace => {
                            if completed.input.len() > 0 {
                                lemma_edit_keeps_cursor(line, 'a', completed.input.drop_last());
                            }
                        },
                        _ => {},
                    }
                },
                ShownView::Output(_) => {
                    match event {
                        EventView::Character(c) => {
                            lemma_edit_keeps_cursor(LineView::empty(), c, empty);
                        },
                        EventView::Paste(text) => {
                            lemma_edit_keeps_cursor(LineView::empty(), 'a', text);
                        },
                        _ => {},
                    }
                },
            }
            match event {
                EventView::Down => {
                    lemma_edit_keeps_cursor(LineView::empty(), 'a', empty);
                },
                _ => {},
            }
        },
        ModeView::Command(buffer) => {
            match parse_command(buffer) {
                Ok(command) => {
                    lemma_run_command_keeps_cursors(m, command);
                },
                Err(_) => {},
            }
        },
        ModeView::Directory(directory) => {
            match m.current_command {
                ShownView::Editable(line) => {
                    lemma_edit_keeps_cursor(line, 'a', directory.current_dir);
                },
                _ => {},
            }
        },
        _ => {},
    }
}

/// A colon-command turns a session into a session.
pub proof fn lemma_run_command_wf(m: ModelView, command: CommandView)
    requires
        m.wf(),
    ensures
        m.run_command(command).0.wf(),
{
    let r = m.run_command(command).0;
    lemma_run_command_keeps_cursors(m, command);
    match command {
        CommandView::Pin => {
            lemma_toggle_pin_wf(m);
            lemma_wf_frame(m.toggle_pin(), r);
        },
        _ => {
            lemma_wf_frame(m, r);
        },
    }
}

/// An event turns a session into a session: the browsing index stays
/// within the history, the directories stay on record, the pins stay
/// distinct, and the cursors stay within their texts.
pub proof fn lemma_step_wf(m: ModelView, event: EventView)
    requires
        m.wf(),
    ensures
        m.step(event).0.wf(),
{
    lemma_step_keeps_cursors(m, event);
    match m.mode {
        ModeView::Command(buffer) => {
            match parse_command(buffer) {
                Ok(command) => {
                    lemma_run_command_wf(m, command);
                },
                Err(_) => {},
            }
        },
        _ => {
            lemma_session_wf(m);
        },
    }
}

/// Reads a hint as the number of a word.
pub fn read_hint_number(hint: &str) -> (r: Option<u32>)
    ensures
        match r {
            Some(n) => hint_number(hint@) == Some(n as nat),
            None => hint_number(hint@) is None,
        },
{
    match base26_to_base10(hint) {
        Ok(n) => Some(n),
        Err(_) => None,
    }
}

impl CommandWithoutOutput {
    /// The change command.
    pub fn edit(&self, edit: &Edit) -> (r: CommandWithoutOutput)
        ensures
            r@ == self@.edit(edit@),
    {
        match edit {
            Edit::Single(hint) => match read_hint_number(hint.as_str()) {
                Some(n) => self.delete_word(n),
                None => self.clone(),
            },
            Edit::Range(first, last) => match read_hint_number(first.as_str()) {
                Some(a) => match read_hint_number(last.as_str()) {
                    Some(b) => self.delete_words(a, b),
                    None => self.clone(),
                },
                None => self.clone(),
            },
        }
    }

    /// The jump commands.
    pub fn jump(&self, hint: &str, behind: bool) -> (r: CommandWithoutOutput)
        ensures
            r@ == self@.jump(hint@, behind),
    {
        if hint.is_empty() {
            return self.jump_to_end();
        }
        match read_hint_number(hint) {
            Some(n) => if behind {
                self.jump_after(n)
            } else {
                self.jump_before(n)
            },
            None => self.clone(),
        }
    }
}

/// The text that the copy command puts on the clipboard, if any.
pub fn copy_output(text: &str, what: &CopyOutput) -> (r: Option<String>)
    ensures
        match r {
            Some(t) => copy_request(text@, what@) == Some(t@),
            None => copy_request(text@, what@) is None,
        },
{
    match what {
        CopyOutput::All => Some(String::from_str(text)),
        CopyOutput::Single(hint) => match read_hint_number(hint.as_str()) {
            Some(n) => Some(copy_words(text, n, n)),
            None => None,
        },
        CopyOutput::Range(first, last) => match read_hint_number(first.as_str()) {
            Some(a) => match read_hint_number(last.as_str()) {
                Some(b) => if b < a {
                    None
                } else {
                    Some(copy_words(text, a, b))
                },
                None => None,
            },
            None => None,
        },
    }
}

fn clipboard(text: Option<String>) -> (r: Effect)
    ensures
        r@ == clipboard_effect(
            match text {
                Some(t) => Some(t@),
                None => None,
            },
        ),
{
    match text {
        Some(t) => Effect::SetClipboard(t),
        None => Effect::Nothing,
    }
}

impl Model {
    fn apply_to_line(&mut self, line: CommandWithoutOutput)
        ensures
            final(self)@ == old(self)@.reopened().showing(ShownView::Editable(line@)).in_mode(
                ModeView::Idle,
            ),
    {
        self.reopen();
        self.current_command = CurrentView::CommandWithoutOutput(line);
        self.mode = Mode::Idle;
    }

    fn replace(&mut self, replace: &Replace)
        ensures
            final(self)@ == old(self)@.run_command(CommandView::Replace(replace@)).0,
    {
        match replace {
            Replace::Single(from, to) => {
                match &self.current_command {
                    CurrentView::CommandWithoutOutput(line) => {
                        let next = line.replace_single(from.as_str(), to.as_str());
                        self.current_command = CurrentView::CommandWithoutOutput(next);
                    },
                    CurrentView::Output(_) => {},
                    CurrentView::CommandWithOutput(completed) => {
                        let whole = chars_of(completed.input.as_str());
                        let replaced = match replace_once(
                            &whole,
                            &chars_of(from.as_str()),
                            &chars_of(to.as_str()),
                        ) {
                            Some(v) => text_of(&v),
                            None => completed.input.clone(),
                        };
                        let line = CommandWithoutOutput::at_end(replaced);
                        self.current_command = CurrentView::CommandWithoutOutput(line);
                        self.command_history_index = self.command_history.len();
                    },
                }
            },
            Replace::Global(from, to) => {
                match &self.current_command {
                    CurrentView::CommandWithoutOutput(line) => {
                        let next = line.replace_global(from.as_str(), to.as_str());
                        self.current_command = CurrentView::CommandWithoutOutput(next);
                    },
                    CurrentView::Output(_) => {},
                    CurrentView::CommandWithOutput(completed) => {
                        let whole = chars_of(completed.input.as_str());
                        let replaced = replace_every(
                            &whole,
                            &chars_of(from.as_str()),
                            &chars_of(to.as_str()),
                        );
                        let line = CommandWithoutOutput::at_end(text_of(&replaced));
                        self.current_command = CurrentView::CommandWithoutOutput(line);
                        self.command_history_index = self.command_history.len();
                    },
                }
            },
        }
        self.mode = Mode::Idle;
    }

    /// Carries out a colon-command.
    pub fn run_command(&mut self, command: Command) -> (effect: Effect)
        ensures
            (final(self)@, effect@) == old(self)@.run_command(command@),
            old(self)@.wf() ==> final(self)@.wf(),
    {
        proof {
            if self@.wf() {
                lemma_run_command_wf(self@, command@);
            }
        }
        match command {
            Command::Quit => {
                self.mode = Mode::Quit;
                Effect::Nothing
            },
            Command::Edit(edit) => {
                match self.current_command.as_line() {
                    None => {},
                    Some(line) => {
                        let next = line.edit(&edit);
                        self.apply_to_line(next);
                    },
                }
                Effect::Nothing
            },
            Command::Select(number) => match self.config.history_type {
                HistoryType::CommandHistory => {
                    self.select_command(number);
                    Effect::Nothing
                },
                HistoryType::DirectoryHistory => {
                    let effect = match number {
                        Some(n) => match self.selected_directory(n) {
                            Some(d) => {
                                let mut line = String::from_str("cd \"");
                                line.append(d.as_str());
                                line.append("\"");
                                Effect::ChangeDirectory(line)
                            },
                            None => Effect::Nothing,
                        },
                        None => Effect::Nothing,
                    };
                    self.mode = Mode::Idle;
                    effect
                },
            },
            Command::JumpBefore(hint) => {
                match self.current_command.as_line() {
                    None => {},
                    Some(line) => {
                        let next = line.jump(hint.as_str(), false);
                        self.apply_to_line(next);
                    },
                }
                Effect::Nothing
            },
            Command::JumpAfter(hint) => {
                match self.current_command.as_line() {
                    None => {},
                    Some(line) => {
                        let next = line.jump(hint.as_str(), true);
                        self.apply_to_line(next);
                    },
                }
                Effect::Nothing
            },
            Command::Pin => {
                self.toggle_pin();
                self.mode = Mode::Idle;
                Effect::Nothing
            },
            Command::CopyOutput(what) => {
                let effect = match &self.current_command {
                    CurrentView::CommandWithoutOutput(_) => Effect::Nothing,
                    CurrentView::Output(output) => clipboard(
                        copy_output(output.to_string().as_str(), &what),
                    ),
                    CurrentView::CommandWithOutput(completed) => clipboard(
                        copy_output(completed.output.to_string().as_str(), &what),
                    ),
                };
                self.mode = Mode::Idle;
                effect
            },
            Command::Paste => {
                self.mode = Mode::Idle;
                Effect::Paste
            },
            Command::ToggleHints => {
                self.toggle_hints();
                self.mode = Mode::Idle;
                Effect::Nothing
            },
            Command::ShellExecute(shell, prefix) => match self.submit() {
                Some(input) => Effect::ShellExecute(shell, prefix, input),
                None => Effect::Nothing,
            },
            Command::Replace(replace) => {
                self.replace(&replace);
                Effect::Nothing
            },
            Command::SwitchHistory => {
                self.switch_history();
                self.mode = Mode::Idle;
                Effect::Nothing
            },
            Command::ChoosePath => match &self.current_command {
                CurrentView::CommandWithoutOutput(_) => Effect::ChoosePath,
                _ => Effect::Nothing,
            },
        }
    }

    fn update_idle(&mut self, event: Event) -> (effect: Effect)
        ensures
            (final(self)@, effect@) == old(self)@.step_idle(event@),
    {
        match event {
            Event::Backspace => {
                self.erase();
                Effect::Nothing
            },
            Event::Esc => {
                self.mode = Mode::Command(String::new());
                Effect::Nothing
            },
            Event::Enter => match self.submit() {
                Some(input) => Effect::Execute(input),
                None => Effect::Nothing,
            },
            Event::Up => {
                self.recall_previous();
                Effect::Nothing
            },
            Event::Down => {
                self.recall_next();
                Effect::Nothing
            },
            Event::Character(c) => {
                self.type_char(c);
                Effect::Nothing
            },
            Event::Left => {
                self.cursor_left();
                Effect::Nothing
            },
            Event::Right => {
                self.cursor_right();
                Effect::Nothing
            },
            Event::Paste(text) => {
                self.paste(text.as_str());
                Effect::Nothing
            },
            _ => Effect::Nothing,
        }
    }

    fn update_command(&mut self, buffer: String, event: Event) -> (effect: Effect)
        requires
            old(self)@.mode == ModeView::Command(buffer@),
        ensures
            (final(self)@, effect@) == old(self)@.step_command(buffer@, event@),
    {
        match event {
            Event::Esc => {
                self.mode = Mode::Idle;
                Effect::Nothing
            },
            Event::Character(c) => {
                let mut next = buffer;
                push_char(&mut next, c);
                self.mode = Mode::Command(next);
                Effect::Nothing
            },
            Event::Backspace => {
                self.mode = Mode::Command(without_last(buffer.as_str()));
                Effect::Nothing
            },
            Event::Enter => match Command::try_from(buffer.as_str()) {
                Ok(command) => self.run_command(command),
                Err(_) => Effect::Nothing,
            },
            _ => Effect::Nothing,
        }
    }

    fn set_search(&mut self, search: String)
        requires
            old(self)@.mode is Directory,
        ensures
            final(self)@ == old(self)@.in_mode(
                ModeView::Directory(
                    DirectoryView { search: search@, ..old(self)@.mode->Directory_0 },
                ),
            ),
    {
        match &mut self.mode {
            Mode::Directory(directory) => {
                directory.search = search;
            },
            _ => {},
        }
    }

    fn update_directory(&mut self, event: Event) -> (effect: Effect)
        requires
            old(self)@.mode is Directory,
        ensures
            (final(self)@, effect@) == old(self)@.step_directory(
                old(self)@.mode->Directory_0,
                event@,
            ),
    {
        match event {
            Event::MouseDown(x, y) => {
                let click = match &self.mode {
                    Mode::Directory(directory) => directory.click((x, y)),
                    _ => Click::Outside,
                };
                match click {
                    Click::Outside => Effect::Nothing,
                    Click::InsertCurrent => {
                        let path = match &self.mode {
                            Mode::Directory(directory) => directory.current_dir.clone(),
                            _ => String::new(),
                        };
                        self.insert_path(path.as_str());
                        Effect::DisableMouseCapture
                    },
                    Click::Parent => {
                        self.set_search(String::new());
                        Effect::GoToParent
                    },
                    Click::Enter(name) => {
                        self.set_search(String::new());
                        Effect::GoInto(name)
                    },
                    Click::InsertFile(name) => {
                        self.set_search(String::new());
                        Effect::InsertFile(name)
                    },
                    Click::Nothing => {
                        self.set_search(String::new());
                        Effect::Nothing
                    },
                }
            },
            Event::Esc => {
                self.mode = Mode::Idle;
                Effect::DisableMouseCapture
            },
            Event::Character(c) => {
                let mut search = match &self.mode {
                    Mode::Directory(directory) => directory.search.clone(),
                    _ => String::new(),
                };
                push_char(&mut search, c);
                self.set_search(search);
                Effect::ListDirectory
            },
            Event::Backspace => {
                let search = match &self.mode {
                    Mode::Directory(directory) => without_last(directory.search.as_str()),
                    _ => String::new(),
                };
                self.set_search(search);
                Effect::ListDirectory
            },
            Event::Enter => {
                let search = match &self.mode {
                    Mode::Directory(directory) => directory.search.clone(),
                    _ => String::new(),
                };
                Effect::ProbeDirectory(search)
            },
            _ => Effect::Nothing,
        }
    }
}

/// Applies one event to the session, and tells what the host is asked to
/// do.
pub fn update(model: &mut Model, event: Event) -> (effect: Effect)
    ensures
        (final(model)@, effect@) == old(model)@.step(event@),
        old(model)@.wf() ==> final(model)@.wf(),
{
    proof {
        if model@.wf() {
            lemma_step_wf(model@, event@);
        }
    }
    match &model.mode {
        Mode::Idle => model.update_idle(event),
        Mode::Command(buffer) => {
            let buffer = buffer.clone();
            model.update_command(buffer, event)
        },
        Mode::Directory(_) => model.update_directory(event),
        Mode::Executing(_, _) => match event {
            Event::CtrlC => {
                model.mode = Mode::Idle;
                Effect::Cancel
            },
            _ => Effect::Nothing,
        },
        Mode::Quit => Effect::Nothing,
    }
}

} // verus!
