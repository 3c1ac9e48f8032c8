//! Editing a command line at its cursor.
//!
//! The cursor is a byte offset. An edit that has to cut the text at the
//! cursor takes place only where the cursor stands between two characters;
//! elsewhere it leaves the line as it is.

use vstd::prelude::*;
use vstd::string::StringExecFns;
use crate::model::{CommandWithoutOutput, LineView};
use crate::text::{
    after, before, byte_len, chars_before, chars_of, copy_range, is_boundary,
    lemma_byte_len_single, lemma_chars_before_range, lemma_encode_concat, lemma_split_bytes,
    len_of, push_char, split_at_byte, text_of,
};

verus! {

impl LineView {
    /// The cursor stands between two characters of the text, or at one of
    /// its ends.
    pub open spec fn cursor_on_boundary(self) -> bool {
        is_boundary(self.input, self.cursor as int)
    }

    /// `text` put in at the cursor, and the cursor moved behind it.
    pub open spec fn splice(self, text: Seq<char>) -> LineView {
        if self.cursor_on_boundary() {
            LineView {
                cursor: self.cursor + byte_len(text),
                input: before(self.input, self.cursor as int) + text + after(
                    self.input,
                    self.cursor as int,
                ),
            }
        } else {
            self
        }
    }

    /// `c` put in at the cursor, and the cursor moved on by one byte.
    pub open spec fn insert_char(self, c: char) -> LineView {
        if self.cursor_on_boundary() {
            LineView {
                cursor: self.cursor + 1,
                input: before(self.input, self.cursor as int).push(c) + after(
                    self.input,
                    self.cursor as int,
                ),
            }
        } else {
            self
        }
    }

    /// The character that starts one byte before the cursor taken out, and
    /// the cursor moved back by one byte.
    pub open spec fn backspace(self) -> LineView {
        let p = self.cursor - 1;
        if self.cursor > 0 && p < byte_len(self.input) && is_boundary(self.input, p) {
            LineView { cursor: p as nat, input: self.input.remove(chars_before(self.input, p)) }
        } else {
            self
        }
    }

    /// The cursor one byte to the left, unless it is at the start.
    pub open spec fn move_left(self) -> LineView {
        if self.cursor > 0 {
            LineView { cursor: (self.cursor - 1) as nat, input: self.input }
        } else {
            self
        }
    }

    /// The cursor one byte to the right, unless it is at or past the end.
    pub open spec fn move_right(self) -> LineView {
        if self.cursor < byte_len(self.input) {
            LineView { cursor: self.cursor + 1, input: self.input }
        } else {
            self
        }
    }

    /// A line break added at the end, and the cursor moved to the end.
    pub open spec fn continue_line(self) -> LineView {
        LineView::at_end(self.input.push('\n'))
    }
}

impl LineView {
    /// The cursor stands within the text or at its end.
    pub open spec fn cursor_in_text(self) -> bool {
        self.cursor <= byte_len(self.input)
    }
}

/// Editing at the cursor never takes the cursor out of the text.
pub proof fn lemma_edit_keeps_cursor(line: LineView, c: char, text: Seq<char>)
    requires
        line.cursor_in_text(),
    ensures
        line.insert_char(c).cursor_in_text(),
        line.backspace().cursor_in_text(),
        line.splice(text).cursor_in_text(),
        line.move_left().cursor_in_text(),
        line.move_right().cursor_in_text(),
        line.continue_line().cursor_in_text(),
        LineView::at_end(text).cursor_in_text(),
        LineView::empty().cursor_in_text(),
        (LineView { cursor: 1, input: seq![c] }).cursor_in_text(),
{
    let s = line.input;
    let p = line.cursor as int;
    lemma_byte_len_single(c);
    if line.cursor_on_boundary() {
        lemma_split_bytes(s, p);
        let head = before(s, p);
        let tail = after(s, p);
        assert(head.push(c) =~= head + seq![c]);
        lemma_encode_concat(head, seq![c]);
        lemma_encode_concat(head + seq![c], tail);
        lemma_encode_concat(head, text);
        lemma_encode_concat(head + text, tail);
    }
    if p > 0 && p - 1 < byte_len(s) && is_boundary(s, p - 1) {
        lemma_split_bytes(s, p - 1);
        lemma_chars_before_range(s, p - 1);
        let k = chars_before(s, p - 1);
        assert(s.remove(k) =~= s.take(k) + s.skip(k + 1));
        lemma_encode_concat(s.take(k), s.skip(k + 1));
    }
}

/// The cursor of a line as an offset into its text, where it can be one.
fn offset_of(line: &CommandWithoutOutput) -> (r: Option<usize>)
    ensures
        match r {
            Some(p) => p == line.cursor_position && p <= byte_len(line.input@),
            None => line.cursor_position > byte_len(line.input@),
        },
{
    let total = len_of(line.input.as_str());
    if line.cursor_position <= total as u64 {
        Some(line.cursor_position as usize)
    } else {
        None
    }
}

impl CommandWithoutOutput {
    /// The line that holds `input`, with the cursor at its end.
    pub fn at_end(input: String) -> (r: CommandWithoutOutput)
        ensures
            r@ == LineView::at_end(input@),
    {
        let cursor_position = len_of(input.as_str()) as u64;
        CommandWithoutOutput { cursor_position, input }
    }

    /// Puts `text` in at the cursor.
    pub fn splice(&self, text: &str) -> (r: CommandWithoutOutput)
        ensures
            r@ == self@.splice(text@),
    {
        proof {
            if self@.cursor_on_boundary() {
                lemma_split_bytes(self.input@, self.cursor_position as int);
            }
        }
        let parts = match offset_of(self) {
            Some(p) => split_at_byte(self.input.as_str(), p),
            None => None,
        };
        match parts {
            None => self.clone(),
            Some((head, tail)) => {
                let mut input = String::from_str(head);
                input.append(text);
                let cursor_position = len_of(input.as_str()) as u64;
                proof {
                    lemma_encode_concat(head@, text@);
                }
                input.append(tail);
                CommandWithoutOutput { cursor_position, input }
            },
        }
    }

    /// Puts `c` in at the cursor.
    pub fn insert_char(&self, c: char) -> (r: CommandWithoutOutput)
        ensures
            r@ == self@.insert_char(c),
    {
        proof {
            if self@.cursor_on_boundary() {
                lemma_split_bytes(self.input@, self.cursor_position as int);
            }
        }
        let parts = match offset_of(self) {
            Some(p) => split_at_byte(self.input.as_str(), p),
            None => None,
        };
        match parts {
            None => self.clone(),
            Some((head, tail)) => {
                let mut input = String::from_str(head);
                push_char(&mut input, c);
                let grown = len_of(input.as_str());
                proof {
                    lemma_encode_concat(head@, seq![c]);
                    lemma_byte_len_single(c);
                    assert(head@.push(c) =~= head@ + seq![c]);
                }
                input.append(tail);
                CommandWithoutOutput { cursor_position: self.cursor_position + 1, input }
            },
        }
    }

    /// Takes out the character that starts one byte before the cursor.
    pub fn backspace(&self) -> (r: CommandWithoutOutput)
        ensures
            r@ == self@.backspace(),
    {
        if self.cursor_position == 0 {
            return self.clone();
        }
        let total = len_of(self.input.as_str());
        if self.cursor_position - 1 >= total as u64 {
            return self.clone();
        }
        let p: usize = (self.cursor_position - 1) as usize;
        match split_at_byte(self.input.as_str(), p) {
            None => self.clone(),
            Some((head, tail)) => {
                let rest = chars_of(tail);
                proof {
                    lemma_split_bytes(self.input@, p as int);
                    lemma_chars_before_range(self.input@, p as int);
                    if rest.len() == 0 {
                        assert(self.input@ =~= head@ + tail@);
                        assert(byte_len(tail@) == 0);
                    }
                }
                let kept = copy_range(&rest, 1, rest.len());
                let mut input = String::from_str(head);
                let kept_text = text_of(&kept);
                input.append(kept_text.as_str());
                proof {
                    let k = chars_before(self.input@, p as int);
                    assert(head@ + tail@.subrange(1, tail@.len() as int) =~= self.input@.remove(
                        k,
                    ));
                }
                CommandWithoutOutput { cursor_position: self.cursor_position - 1, input }
            },
        }
    }

    /// Moves the cursor one byte to the left.
    pub fn move_left(&self) -> (r: CommandWithoutOutput)
        ensures
            r@ == self@.move_left(),
    {
        if self.cursor_position > 0 {
            CommandWithoutOutput {
                cursor_position: self.cursor_position - 1,
                input: self.input.clone(),
            }
        } else {
            self.clone()
        }
    }

    /// Moves the cursor one byte to the right.
    pub fn move_right(&self) -> (r: CommandWithoutOutput)
        ensures
            r@ == self@.move_right(),
    {
        let total = len_of(self.input.as_str());
        if self.cursor_position < total as u64 {
            CommandWithoutOutput {
                cursor_position: self.cursor_position + 1,
                input: self.input.clone(),
            }
        } else {
            self.clone()
        }
    }

    /// Adds a line break at the end and moves the cursor there.
    pub fn continue_line(&self) -> (r: CommandWithoutOutput)
        ensures
            r@ == self@.continue_line(),
    {
        let mut input = self.input.clone();
        push_char(&mut input, '\n');
        CommandWithoutOutput::at_end(input)
    }
}

} // verus!
