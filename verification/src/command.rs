//! The colon-command language: a command buffer parsed into a typed command.

use vstd::prelude::*;
use crate::text::{chars_of, copy_range, index_of, is_text, position, text_of};

verus! {

/// A literal substring replacement: what to look for, and what to put there.
#[derive(Debug, PartialEq, Eq)]
pub enum Replace {
    /// Replace one occurrence.
    Single(String, String),
    /// Replace every occurrence.
    Global(String, String),
}

/// Words to delete from the command line, named by their hints.
#[derive(Debug, PartialEq, Eq)]
pub enum Edit {
    Single(String),
    /// The inclusive run from the first word through the second.
    Range(String, String),
}

/// What part of the output to copy to the clipboard.
#[derive(Debug, PartialEq, Eq)]
pub enum CopyOutput {
    All,
    Single(String),
    /// The inclusive run from the first word through the second.
    Range(String, String),
}

/// A parsed colon-command.
#[derive(Debug, PartialEq, Eq)]
pub enum Command {
    Quit,
    Edit(Edit),
    Select(Option<usize>),
    JumpBefore(String),
    JumpAfter(String),
    Pin,
    CopyOutput(CopyOutput),
    Paste,
    ToggleHints,
    /// A shell to run the command line with, and a prefix to put before it.
    ShellExecute(String, Option<String>),
    Replace(Replace),
    SwitchHistory,
    ChoosePath,
}

/// Why a command buffer was not understood.
#[derive(Debug, Clone, Copy, PartialEq, Eq)]
pub enum CommandError {
    EmptyCommand,
    InvalidCommand,
    InvalidCharacter,
    MissingHints,
    InvalidNumber,
}

/// A replacement as a mathematical value.
pub ghost enum ReplaceView {
    Single(Seq<char>, Seq<char>),
    Global(Seq<char>, Seq<char>),
}

/// The hints of a change command as mathematical values.
pub ghost enum EditView {
    Single(Seq<char>),
    Range(Seq<char>, Seq<char>),
}

/// The hints of a copy command as mathematical values.
pub ghost enum CopyOutputView {
    All,
    Single(Seq<char>),
    Range(Seq<char>, Seq<char>),
}

/// A command as a mathematical value.
pub ghost enum CommandView {
    Quit,
    Edit(EditView),
    Select(Option<usize>),
    JumpBefore(Seq<char>),
    JumpAfter(Seq<char>),
    Pin,
    CopyOutput(CopyOutputView),
    Paste,
    ToggleHints,
    ShellExecute(Seq<char>, Option<Seq<char>>),
    Replace(ReplaceView),
    SwitchHistory,
    ChoosePath,
}

impl View for Replace {
    type V = ReplaceView;

    open spec fn view(&self) -> ReplaceView {
        match *self {
            Replace::Single(from, to) => ReplaceView::Single(from@, to@),
            Replace::Global(from, to) => ReplaceView::Global(from@, to@),
        }
    }
}

impl View for Edit {
    type V = EditView;

    open spec fn view(&self) -> EditView {
        match *self {
            Edit::Single(hint) => EditView::Single(hint@),
            Edit::Range(first, last) => EditView::Range(first@, last@),
        }
    }
}

impl View for CopyOutput {
    type V = CopyOutputView;

    open spec fn view(&self) -> CopyOutputView {
        match *self {
            CopyOutput::All => CopyOutputView::All,
            CopyOutput::Single(hint) => CopyOutputView::Single(hint@),
            CopyOutput::Range(first, last) => CopyOutputView::Range(first@, last@),
        }
    }
}

impl View for Command {
    type V = CommandView;

    open spec fn view(&self) -> CommandView {
        match *self {
            Command::Quit => CommandView::Quit,
            Command::Edit(edit) => CommandView::Edit(edit@),
            Command::Select(number) => CommandView::Select(number),
            Command::JumpBefore(hint) => CommandView::JumpBefore(hint@),
            Command::JumpAfter(hint) => CommandView::JumpAfter(hint@),
            Command::Pin => CommandView::Pin,
            Command::CopyOutput(copy) => CommandView::CopyOutput(copy@),
            Command::Paste => CommandView::Paste,
            Command::ToggleHints => CommandView::ToggleHints,
            Command::ShellExecute(shell, prefix) => CommandView::ShellExecute(
                shell@,
                match prefix {
                    Some(p) => Some(p@),
                    None => None,
                },
            ),
            Command::Replace(replace) => CommandView::Replace(replace@),
            Command::SwitchHistory => CommandView::SwitchHistory,
            Command::ChoosePath => CommandView::ChoosePath,
        }
    }
}

/// Whether `c` counts as a letter: the Unicode property Alphabetic, as
/// `char::is_alphabetic` of the standard library reports it.
pub uninterp spec fn is_alphabetic(c: char) -> bool;

/// Asks the standard library whether `c` is a letter.
///
/// Wraps `char::is_alphabetic`, which is taken on trust: the answer depends
/// on `c` alone and is what `is_alphabetic` names.
#[verifier::external_body]
fn is_letter(c: char) -> (r: bool)
    ensures
        r == is_alphabetic(c),
{
    c.is_alphabetic()
}

/// Every character of `s` is a letter.
pub open spec fn all_alphabetic(s: Seq<char>) -> bool {
    forall|i: int| 0 <= i < s.len() ==> is_alphabetic(#[trigger] s[i])
}

/// `c` is an ASCII digit.
pub open spec fn is_digit(c: char) -> bool {
    '0' <= c <= '9'
}

/// Every character of `s` is an ASCII digit.
pub open spec fn all_digits(s: Seq<char>) -> bool {
    forall|i: int| 0 <= i < s.len() ==> is_digit(#[trigger] s[i])
}

/// The number that a sequence of decimal digits denotes.
pub open spec fn decimal_value(s: Seq<char>) -> nat
    decreases s.len(),
{
    if s.len() == 0 {
        0
    } else {
        decimal_value(s.drop_last()) * 10 + (s.last() as nat - '0' as nat) as nat
    }
}

/// The part of a command buffer before its first colon.
pub open spec fn command_name(s: Seq<char>) -> Seq<char> {
    s.take(index_of(s, ':'))
}

/// The part of a command buffer after its first colon, if it has one.
pub open spec fn command_argument(s: Seq<char>) -> Option<Seq<char>> {
    let i = index_of(s, ':');
    if i < s.len() {
        Some(s.skip(i + 1))
    } else {
        None
    }
}

/// A hint is a non-empty run of letters.
pub open spec fn parse_hint(s: Seq<char>) -> Result<Seq<char>, CommandError> {
    if !all_alphabetic(s) {
        Err(CommandError::InvalidCharacter)
    } else if s.len() == 0 {
        Err(CommandError::MissingHints)
    } else {
        Ok(s)
    }
}

/// One hint, or two hints separated by one comma.
pub open spec fn parse_hints(arg: Seq<char>) -> Result<EditView, CommandError> {
    let i = index_of(arg, ',');
    if i == arg.len() {
        match parse_hint(arg) {
            Ok(hint) => Ok(EditView::Single(hint)),
            Err(e) => Err(e),
        }
    } else {
        let rest = arg.skip(i + 1);
        if index_of(rest, ',') < rest.len() {
            Err(CommandError::InvalidCommand)
        } else {
            match parse_hint(arg.take(i)) {
                Err(e) => Err(e),
                Ok(first) => match parse_hint(rest) {
                    Err(e) => Err(e),
                    Ok(last) => Ok(EditView::Range(first, last)),
                },
            }
        }
    }
}

/// A selection index is a non-empty run of digits that fits in `usize`.
pub open spec fn parse_index(s: Seq<char>) -> Result<usize, CommandError> {
    if !all_digits(s) {
        Err(CommandError::InvalidCharacter)
    } else if s.len() == 0 || decimal_value(s) > usize::MAX {
        Err(CommandError::InvalidNumber)
    } else {
        Ok(decimal_value(s) as usize)
    }
}

/// What a left-to-right scan for unescaped commas remembers.
pub ghost struct SplitScan {
    /// The segments that a comma has closed.
    pub done: Seq<Seq<char>>,
    /// The segment being read.
    pub segment: Seq<char>,
    /// The previous character was an unescaped backslash.
    pub escaped: bool,
}

/// The scan after one more character: an unescaped backslash escapes the
/// next character and is dropped, an unescaped comma closes the segment, and
/// any other character joins the segment.
pub open spec fn split_step(st: SplitScan, c: char) -> SplitScan {
    if c == '\\' && !st.escaped {
        SplitScan { done: st.done, segment: st.segment, escaped: true }
    } else if c == ',' && !st.escaped {
        SplitScan { done: st.done.push(st.segment), segment: Seq::empty(), escaped: false }
    } else {
        SplitScan { done: st.done, segment: st.segment.push(c), escaped: false }
    }
}

/// The scan after all of `s`.
pub open spec fn split_scan(s: Seq<char>) -> SplitScan
    decreases s.len(),
{
    if s.len() == 0 {
        SplitScan { done: Seq::empty(), segment: Seq::empty(), escaped: false }
    } else {
        split_step(split_scan(s.drop_last()), s.last())
    }
}

/// The segments of `s` between its unescaped commas.
pub open spec fn escape_split(s: Seq<char>) -> Seq<Seq<char>> {
    let st = split_scan(s);
    st.done.push(st.segment)
}

/// The two texts of a replacement: exactly two segments.
pub open spec fn parse_replace(arg: Option<Seq<char>>) -> Result<
    (Seq<char>, Seq<char>),
    CommandError,
> {
    match arg {
        None => Err(CommandError::InvalidCommand),
        Some(a) => {
            let segments = escape_split(a);
            if segments.len() != 2 {
                Err(CommandError::InvalidCommand)
            } else {
                Ok((segments[0], segments[1]))
            }
        },
    }
}

/// The shell and the optional prefix: the text before the first comma, and
/// all of the text after it.
pub open spec fn parse_shell(a: Seq<char>) -> CommandView {
    let i = index_of(a, ',');
    if i < a.len() {
        CommandView::ShellExecute(a.take(i), Some(a.skip(i + 1)))
    } else {
        CommandView::ShellExecute(a, None)
    }
}

/// The command that a buffer spells, or the reason why it spells none.
pub open spec fn parse_command(s: Seq<char>) -> Result<CommandView, CommandError> {
    let name = command_name(s);
    let arg = command_argument(s);
    if s.len() == 0 {
        Err(CommandError::EmptyCommand)
    } else if name == "q"@ || name == "quit"@ || name == "exit"@ {
        Ok(CommandView::Quit)
    } else if name == "c"@ || name == "change"@ {
        match arg {
            None => Err(CommandError::InvalidCommand),
            Some(a) => match parse_hints(a) {
                Ok(edit) => Ok(CommandView::Edit(edit)),
                Err(e) => Err(e),
            },
        }
    } else if name == "s"@ || name == "select"@ {
        match arg {
            None => Ok(CommandView::Select(None)),
            Some(a) => match parse_index(a) {
                Ok(n) => Ok(CommandView::Select(Some(n))),
                Err(e) => Err(e),
            },
        }
    } else if name == "jb"@ || name == "jumpbefore"@ {
        match arg {
            None => Ok(CommandView::JumpBefore(Seq::empty())),
            Some(a) => if all_alphabetic(a) {
                Ok(CommandView::JumpBefore(a))
            } else {
                Err(CommandError::InvalidCharacter)
            },
        }
    } else if name == "ja"@ || name == "jumpafter"@ {
        match arg {
            None => Ok(CommandView::JumpAfter(Seq::empty())),
            Some(a) => if all_alphabetic(a) {
                Ok(CommandView::JumpAfter(a))
            } else {
                Err(CommandError::InvalidCharacter)
            },
        }
    } else if name == "pin"@ {
        Ok(CommandView::Pin)
    } else if name == "p"@ || name == "paste"@ {
        Ok(CommandView::Paste)
    } else if name == "co"@ || name == "copyoutput"@ {
        match arg {
            None => Ok(CommandView::CopyOutput(CopyOutputView::All)),
            Some(a) => match parse_hints(a) {
                Ok(EditView::Single(hint)) => Ok(
                    CommandView::CopyOutput(CopyOutputView::Single(hint)),
                ),
                Ok(EditView::Range(first, last)) => Ok(
                    CommandView::CopyOutput(CopyOutputView::Range(first, last)),
                ),
                Err(e) => Err(e),
            },
        }
    } else if name == "th"@ || name == "togglehints"@ {
        Ok(CommandView::ToggleHints)
    } else if name == "se"@ || name == "shellexecute"@ {
        match arg {
            None => Err(CommandError::InvalidCommand),
            Some(a) => Ok(parse_shell(a)),
        }
    } else if name == "rg"@ || name == "replaceglobal"@ {
        match parse_replace(arg) {
            Ok((from, to)) => Ok(CommandView::Replace(ReplaceView::Global(from, to))),
            Err(e) => Err(e),
        }
    } else if name == "rs"@ || name == "replacesingle"@ {
        match parse_replace(arg) {
            Ok((from, to)) => Ok(CommandView::Replace(ReplaceView::Single(from, to))),
            Err(e) => Err(e),
        }
    } else if name == "sh"@ || name == "switchhistory"@ {
        Ok(CommandView::SwitchHistory)
    } else if name == "cp"@ || name == "choosepath"@ {
        Ok(CommandView::ChoosePath)
    } else {
        Err(CommandError::InvalidCommand)
    }
}

fn read_hint(s: &Vec<char>) -> (r: Result<String, CommandError>)
    ensures
        match r {
            Ok(hint) => parse_hint(s@) == Ok::<Seq<char>, CommandError>(hint@),
            Err(e) => parse_hint(s@) == Err::<Seq<char>, CommandError>(e),
        },
{
    if !letters_only(s) {
        return Err(CommandError::InvalidCharacter);
    }
    if s.len() == 0 {
        return Err(CommandError::MissingHints);
    }
    Ok(text_of(s))
}

fn letters_only(s: &Vec<char>) -> (r: bool)
    ensures
        r == all_alphabetic(s@),
{
    let mut i: usize = 0;
    while i < s.len()
        invariant
            0 <= i <= s.len(),
            forall|k: int| 0 <= k < i ==> is_alphabetic(#[trigger] s@[k]),
        decreases s.len() - i,
    {
        if !is_letter(s[i]) {
            return false;
        }
        i = i + 1;
    }
    true
}

fn read_hints(arg: &Vec<char>) -> (r: Result<Edit, CommandError>)
    ensures
        match r {
            Ok(edit) => parse_hints(arg@) == Ok::<EditView, CommandError>(edit@),
            Err(e) => parse_hints(arg@) == Err::<EditView, CommandError>(e),
        },
{
    let i = position(arg, ',');
    if i == arg.len() {
        match read_hint(arg) {
            Ok(hint) => Ok(Edit::Single(hint)),
            Err(e) => Err(e),
        }
    } else {
        let first = copy_range(arg, 0, i);
        let rest = copy_range(arg, i + 1, arg.len());
        assert(first@ =~= arg@.take(i as int));
        assert(rest@ =~= arg@.skip(i + 1));
        if position(&rest, ',') < rest.len() {
            return Err(CommandError::InvalidCommand);
        }
        match read_hint(&first) {
            Err(e) => Err(e),
            Ok(first_hint) => match read_hint(&rest) {
                Err(e) => Err(e),
                Ok(last_hint) => Ok(Edit::Range(first_hint, last_hint)),
            },
        }
    }
}

fn read_index(s: &Vec<char>) -> (r: Result<usize, CommandError>)
    ensures
        r == parse_index(s@),
{
    let mut i: usize = 0;
    while i < s.len()
        invariant
            0 <= i <= s.len(),
            forall|k: int| 0 <= k < i ==> is_digit(#[trigger] s@[k]),
        decreases s.len() - i,
    {
        if !('0' <= s[i] && s[i] <= '9') {
            return Err(CommandError::InvalidCharacter);
        }
        i = i + 1;
    }
    if s.len() == 0 {
        return Err(CommandError::InvalidNumber);
    }
    let mut acc: usize = 0;
    let mut i: usize = 0;
    while i < s.len()
        invariant
            0 <= i <= s.len(),
            all_digits(s@),
            acc == decimal_value(s@.take(i as int)),
        decreases s.len() - i,
    {
        let d: usize = (s[i] as u32 - 48u32) as usize;
        proof {
            assert(s@.take(i + 1).drop_last() =~= s@.take(i as int));
            lemma_decimal_monotone(s@, i + 1);
        }
        match acc.checked_mul(10) {
            None => {
                return Err(CommandError::InvalidNumber);
            },
            Some(m) => match m.checked_add(d) {
                None => {
                    return Err(CommandError::InvalidNumber);
                },
                Some(v) => {
                    acc = v;
                },
            },
        }
        i = i + 1;
    }
    assert(s@.take(s.len() as int) =~= s@);
    Ok(acc)
}

/// A prefix of a digit string denotes no more than the whole.
proof fn lemma_decimal_monotone(s: Seq<char>, i: int)
    requires
        0 <= i <= s.len(),
    ensures
        decimal_value(s.take(i)) <= decimal_value(s),
    decreases s.len() - i,
{
    if i < s.len() {
        lemma_decimal_monotone(s, i + 1);
        assert(s.take(i + 1).drop_last() =~= s.take(i));
        assert(decimal_value(s.take(i)) * 10 >= decimal_value(s.take(i))) by (nonlinear_arith);
    } else {
        assert(s.take(i) =~= s);
    }
}

/// The views of a list of segments.
pub open spec fn segment_views(v: Seq<Vec<char>>) -> Seq<Seq<char>> {
    Seq::new(v.len(), |i: int| v[i]@)
}

fn split_segments(s: &Vec<char>) -> (r: Vec<Vec<char>>)
    ensures
        segment_views(r@) == escape_split(s@),
{
    let mut done: Vec<Vec<char>> = Vec::new();
    let mut segment: Vec<char> = Vec::new();
    let mut escaped = false;
    let mut i: usize = 0;
    assert(segment_views(done@) =~= Seq::<Seq<char>>::empty());
    while i < s.len()
        invariant
            0 <= i <= s.len(),
            split_scan(s@.take(i as int)) == (SplitScan {
                done: segment_views(done@),
                segment: segment@,
                escaped,
            }),
        decreases s.len() - i,
    {
        let c = s[i];
        proof {
            assert(s@.take(i + 1).drop_last() =~= s@.take(i as int));
        }
        let ghost before = segment_views(done@);
        if c == '\\' && !escaped {
            escaped = true;
        } else if c == ',' && !escaped {
            let ghost closed = segment@;
            done.push(segment);
            segment = Vec::new();
            escaped = false;
            assert(segment_views(done@) =~= before.push(closed));
        } else {
            segment.push(c);
            escaped = false;
        }
        i = i + 1;
    }
    assert(s@.take(s.len() as int) =~= s@);
    let ghost before = segment_views(done@);
    let ghost last = segment@;
    done.push(segment);
    assert(segment_views(done@) =~= before.push(last));
    done
}

fn read_replace(arg: &Option<Vec<char>>) -> (r: Result<(String, String), CommandError>)
    ensures
        match r {
            Ok(pair) => parse_replace(option_view(*arg)) == Ok::<
                (Seq<char>, Seq<char>),
                CommandError,
            >((pair.0@, pair.1@)),
            Err(e) => parse_replace(option_view(*arg)) == Err::<
                (Seq<char>, Seq<char>),
                CommandError,
            >(e),
        },
{
    match arg {
        None => Err(CommandError::InvalidCommand),
        Some(a) => {
            let segments = split_segments(a);
            if segments.len() != 2 {
                return Err(CommandError::InvalidCommand);
            }
            assert(segment_views(segments@)[0] == segments@[0]@);
            assert(segment_views(segments@)[1] == segments@[1]@);
            Ok((text_of(&segments[0]), text_of(&segments[1])))
        },
    }
}

/// The text of an optional argument.
pub open spec fn option_view(arg: Option<Vec<char>>) -> Option<Seq<char>> {
    match arg {
        Some(a) => Some(a@),
        None => None,
    }
}

fn read_shell(a: &Vec<char>) -> (r: Command)
    ensures
        r@ == parse_shell(a@),
{
    let i = position(a, ',');
    if i < a.len() {
        let shell = copy_range(a, 0, i);
        let prefix = copy_range(a, i + 1, a.len());
        assert(shell@ =~= a@.take(i as int));
        assert(prefix@ =~= a@.skip(i + 1));
        Command::ShellExecute(text_of(&shell), Some(text_of(&prefix)))
    } else {
        Command::ShellExecute(text_of(a), None)
    }
}

impl Command {
    /// Parses a command buffer, given without its leading colon.
    pub fn try_from(input: &str) -> (r: Result<Command, CommandError>)
        ensures
            match r {
                Ok(command) => parse_command(input@) == Ok::<CommandView, CommandError>(command@),
                Err(e) => parse_command(input@) == Err::<CommandView, CommandError>(e),
            },
    {
        let chars = chars_of(input);
        if chars.len() == 0 {
            return Err(CommandError::EmptyCommand);
        }
        let colon = position(&chars, ':');
        let name = copy_range(&chars, 0, colon);
        assert(name@ =~= command_name(input@));
        let arg: Option<Vec<char>> = if colon < chars.len() {
            let a = copy_range(&chars, colon + 1, chars.len());
            assert(a@ =~= input@.skip(colon + 1));
            Some(a)
        } else {
            None
        };
        assert(option_view(arg) == command_argument(input@));
        if is_text(&name, "q") || is_text(&name, "quit") || is_text(&name, "exit") {
            Ok(Command::Quit)
        } else if is_text(&name, "c") || is_text(&name, "change") {
            match &arg {
                None => Err(CommandError::InvalidCommand),
                Some(a) => match read_hints(a) {
                    Ok(edit) => Ok(Command::Edit(edit)),
                    Err(e) => Err(e),
                },
            }
        } else if is_text(&name, "s") || is_text(&name, "select") {
            match &arg {
                None => Ok(Command::Select(None)),
                Some(a) => match read_index(a) {
                    Ok(n) => Ok(Command::Select(Some(n))),
                    Err(e) => Err(e),
                },
            }
        } else if is_text(&name, "jb") || is_text(&name, "jumpbefore") {
            match &arg {
                None => Ok(Command::JumpBefore(String::new())),
                Some(a) => if letters_only(a) {
                    Ok(Command::JumpBefore(text_of(a)))
                } else {
                    Err(CommandError::InvalidCharacter)
                },
            }
        } else if is_text(&name, "ja") || is_text(&name, "jumpafter") {
            match &arg {
                None => Ok(Command::JumpAfter(String::new())),
                Some(a) => if letters_only(a) {
                    Ok(Command::JumpAfter(text_of(a)))
                } else {
                    Err(CommandError::InvalidCharacter)
                },
            }
        } else if is_text(&name, "pin") {
            Ok(Command::Pin)
        } else if is_text(&name, "p") || is_text(&name, "paste") {
            Ok(Command::Paste)
        } else if is_text(&name, "co") || is_text(&name, "copyoutput") {
            match &arg {
                None => Ok(Command::CopyOutput(CopyOutput::All)),
                Some(a) => match read_hints(a) {
                    Ok(Edit::Single(hint)) => Ok(Command::CopyOutput(CopyOutput::Single(hint))),
                    Ok(Edit::Range(first, last)) => Ok(
                        Command::CopyOutput(CopyOutput::Range(first, last)),
                    ),
                    Err(e) => Err(e),
                },
            }
        } else if is_text(&name, "th") || is_text(&name, "togglehints") {
            Ok(Command::ToggleHints)
        } else if is_text(&name, "se") || is_text(&name, "shellexecute") {
            match &arg {
                None => Err(CommandError::InvalidCommand),
                Some(a) => Ok(read_shell(a)),
            }
        } else if is_text(&name, "rg") || is_text(&name, "replaceglobal") {
            match read_replace(&arg) {
                Ok((from, to)) => Ok(Command::Replace(Replace::Global(from, to))),
                Err(e) => Err(e),
            }
        } else if is_text(&name, "rs") || is_text(&name, "replacesingle") {
            match read_replace(&arg) {
                Ok((from, to)) => Ok(Command::Replace(Replace::Single(from, to))),
                Err(e) => Err(e),
            }
        } else if is_text(&name, "sh") || is_text(&name, "switchhistory") {
            Ok(Command::SwitchHistory)
        } else if is_text(&name, "cp") || is_text(&name, "choosepath") {
            Ok(Command::ChoosePath)
        } else {
            Err(CommandError::InvalidCommand)
        }
    }
}

} // verus!
