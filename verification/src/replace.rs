//! Literal substring search and replacement.

use vstd::prelude::*;
use vstd::string::StringExecFns;
use crate::model::{CommandWithoutOutput, LineView};
use crate::text::{
    after, before, byte_len, chars_of, lemma_encode_concat, lemma_split_bytes, len_of,
    split_at_byte, text_of,
};

verus! {

/// `pat` stands in `s` at index `i`.
pub open spec fn matches_at(s: Seq<char>, pat: Seq<char>, i: int) -> bool {
    0 <= i && i + pat.len() <= s.len() && s.subrange(i, i + pat.len()) =~= pat
}

/// The least index at or after `i` at which `pat` stands in `s`.
pub open spec fn find_from(s: Seq<char>, pat: Seq<char>, i: int) -> Option<int>
    decreases s.len() - i,
{
    if i < 0 || i + pat.len() > s.len() {
        None
    } else if matches_at(s, pat, i) {
        Some(i)
    } else {
        find_from(s, pat, i + 1)
    }
}

/// The index of the first occurrence of `pat` in `s`. The empty pattern
/// occurs at the start of every text.
pub open spec fn first_match(s: Seq<char>, pat: Seq<char>) -> Option<int> {
    find_from(s, pat, 0)
}

/// `find_from` gives the first match at or after `i`, and none where there
/// is none.
pub proof fn lemma_find_from(s: Seq<char>, pat: Seq<char>, i: int)
    requires
        0 <= i,
    ensures
        match find_from(s, pat, i) {
            Some(j) => i <= j && matches_at(s, pat, j) && forall|k: int|
                i <= k < j ==> !matches_at(s, pat, k),
            None => forall|k: int| i <= k ==> !matches_at(s, pat, k),
        },
    decreases s.len() - i,
{
    if i + pat.len() > s.len() {
    } else if matches_at(s, pat, i) {
    } else {
        lemma_find_from(s, pat, i + 1);
    }
}

/// Searching the rest of a text finds what searching the text from there
/// finds.
pub proof fn lemma_find_skip(s: Seq<char>, pat: Seq<char>, pos: int, i: int)
    requires
        0 <= pos <= s.len(),
        0 <= i,
    ensures
        find_from(s.skip(pos), pat, i) == match find_from(s, pat, pos + i) {
            Some(j) => Some(j - pos),
            None => None,
        },
    decreases s.len() - pos - i,
{
    let rest = s.skip(pos);
    if i + pat.len() > rest.len() {
    } else {
        assert(rest.subrange(i, i + pat.len()) =~= s.subrange(pos + i, pos + i + pat.len()));
        if matches_at(rest, pat, i) {
        } else {
            lemma_find_skip(s, pat, pos, i + 1);
        }
    }
}

/// `s` with its first occurrence of `pat` replaced by `to`.
pub open spec fn replace_first(s: Seq<char>, pat: Seq<char>, to: Seq<char>) -> Seq<char> {
    match first_match(s, pat) {
        Some(i) => s.take(i) + to + s.skip(i + pat.len()),
        None => s,
    }
}

/// `s` with every occurrence of `pat` replaced by `to`, the occurrences
/// taken from left to right without overlap. The empty pattern occurs
/// before every character and at the end.
pub open spec fn replace_all(s: Seq<char>, pat: Seq<char>, to: Seq<char>) -> Seq<char>
    decreases s.len(),
    via replace_all_decreases
{
    if pat.len() == 0 {
        if s.len() == 0 {
            to
        } else {
            to + seq![s[0]] + replace_all(s.drop_first(), pat, to)
        }
    } else {
        match first_match(s, pat) {
            Some(i) => s.take(i) + to + replace_all(s.skip(i + pat.len()), pat, to),
            None => s,
        }
    }
}

#[via_fn]
proof fn replace_all_decreases(s: Seq<char>, pat: Seq<char>, to: Seq<char>) {
    if pat.len() != 0 {
        lemma_find_from(s, pat, 0);
    }
}

impl LineView {
    /// One occurrence of `from` replaced by `to`: the first one at or
    /// after the cursor, else the first one before it, else the first one
    /// in the text, which then lies across the cursor. The cursor stays
    /// with the text that it stood before; where the occurrence lay across
    /// it, it goes to the end.
    pub open spec fn replace_single(self, from: Seq<char>, to: Seq<char>) -> LineView {
        let first = before(self.input, self.cursor as int);
        let last = after(self.input, self.cursor as int);
        if !self.cursor_on_boundary() {
            self
        } else if first_match(last, from) is Some {
            LineView { cursor: self.cursor, input: first + replace_first(last, from, to) }
        } else if first_match(first, from) is Some {
            LineView {
                cursor: byte_len(replace_first(first, from, to)),
                input: replace_first(first, from, to) + last,
            }
        } else if first_match(self.input, from) is Some {
            LineView::at_end(replace_first(self.input, from, to))
        } else {
            self
        }
    }

    /// Every occurrence of `from` replaced by `to`, and the cursor put at
    /// the end.
    pub open spec fn replace_global(self, from: Seq<char>, to: Seq<char>) -> LineView {
        LineView::at_end(replace_all(self.input, from, to))
    }
}

/// Where the first occurrence lies before the cursor, the cursor moves by
/// the difference in length between the new text and the old.
pub proof fn lemma_replace_first_len(s: Seq<char>, pat: Seq<char>, to: Seq<char>)
    requires
        first_match(s, pat) is Some,
    ensures
        byte_len(replace_first(s, pat, to)) == byte_len(s) - byte_len(pat) + byte_len(to),
{
    lemma_find_from(s, pat, 0);
    let i = first_match(s, pat)->0;
    let m = pat.len() as int;
    assert(s =~= s.take(i) + s.subrange(i, i + m) + s.skip(i + m));
    lemma_encode_concat(s.take(i), s.subrange(i, i + m));
    lemma_encode_concat(s.take(i) + s.subrange(i, i + m), s.skip(i + m));
    lemma_encode_concat(s.take(i), to);
    lemma_encode_concat(s.take(i) + to, s.skip(i + m));
}

/// Replacing never takes the cursor out of the text.
pub proof fn lemma_replace_keeps_cursor(line: LineView, from: Seq<char>, to: Seq<char>)
    requires
        line.cursor_in_text(),
    ensures
        line.replace_single(from, to).cursor_in_text(),
        line.replace_global(from, to).cursor_in_text(),
{
    let p = line.cursor as int;
    if line.cursor_on_boundary() {
        lemma_split_bytes(line.input, p);
        let first = before(line.input, p);
        let last = after(line.input, p);
        lemma_encode_concat(first, replace_first(last, from, to));
        lemma_encode_concat(replace_first(first, from, to), last);
    }
}

fn matches_here(s: &Vec<char>, pat: &Vec<char>, i: usize) -> (r: bool)
    requires
        i + pat.len() <= s.len(),
    ensures
        r == matches_at(s@, pat@, i as int),
{
    let mut k: usize = 0;
    while k < pat.len()
        invariant
            i + pat.len() <= s.len(),
            0 <= k <= pat.len(),
            forall|j: int| 0 <= j < k ==> s@[i + j] == pat@[j],
        decreases pat.len() - k,
    {
        if s[i + k] != pat[k] {
            assert(s@.subrange(i as int, i + pat.len())[k as int] != pat@[k as int]);
            return false;
        }
        k = k + 1;
    }
    assert(s@.subrange(i as int, i + pat.len()) =~= pat@);
    true
}

/// Finds the first occurrence of `pat` in `s` at or after index `start`.
pub fn find(s: &Vec<char>, pat: &Vec<char>, start: usize) -> (r: Option<usize>)
    ensures
        match r {
            Some(i) => find_from(s@, pat@, start as int) == Some(i as int),
            None => find_from(s@, pat@, start as int) is None,
        },
{
    if pat.len() > s.len() {
        return None;
    }
    let limit = s.len() - pat.len();
    let mut i: usize = start;
    while i <= limit
        invariant
            limit == s.len() - pat.len(),
            start <= i,
            find_from(s@, pat@, start as int) == find_from(s@, pat@, i as int),
        decreases limit + 1 - i,
    {
        if matches_here(s, pat, i) {
            return Some(i);
        }
        if i == limit {
            return None;
        }
        i = i + 1;
    }
    None
}

fn push_all(out: &mut Vec<char>, s: &Vec<char>, from: usize, to: usize)
    requires
        from <= to <= s.len(),
    ensures
        final(out)@ == old(out)@ + s@.subrange(from as int, to as int),
{
    let mut i: usize = from;
    while i < to
        invariant
            from <= i <= to <= s.len(),
            out@ == old(out)@ + s@.subrange(from as int, i as int),
        decreases to - i,
    {
        out.push(s[i]);
        i = i + 1;
        assert(out@ =~= old(out)@ + s@.subrange(from as int, i as int));
    }
}

/// Replaces the first occurrence of `pat` in `s` by `to`.
pub fn replace_once(s: &Vec<char>, pat: &Vec<char>, to: &Vec<char>) -> (r: Option<Vec<char>>)
    ensures
        r is Some <==> first_match(s@, pat@) is Some,
        r matches Some(v) ==> v@ == replace_first(s@, pat@, to@),
{
    match find(s, pat, 0) {
        None => None,
        Some(i) => {
            proof {
                lemma_find_from(s@, pat@, 0);
                assert(matches_at(s@, pat@, i as int));
            }
            let n = s.len();
            let end = i + pat.len();
            let mut out: Vec<char> = Vec::new();
            push_all(&mut out, s, 0, i);
            push_all(&mut out, to, 0, to.len());
            push_all(&mut out, s, end, n);
            assert(out@ =~= s@.take(i as int) + to@ + s@.skip(i + pat.len()));
            Some(out)
        },
    }
}

/// Replaces every occurrence of `pat` in `s` by `to`.
pub fn replace_every(s: &Vec<char>, pat: &Vec<char>, to: &Vec<char>) -> (r: Vec<char>)
    ensures
        r@ == replace_all(s@, pat@, to@),
{
    let mut out: Vec<char> = Vec::new();
    let mut pos: usize = 0;
    proof {
        assert(s@.skip(0) =~= s@);
    }
    if pat.len() == 0 {
        while pos < s.len()
            invariant
                pat@.len() == 0,
                0 <= pos <= s.len(),
                replace_all(s@, pat@, to@) =~= out@ + replace_all(s@.skip(pos as int), pat@, to@),
            decreases s.len() - pos,
        {
            proof {
                assert(s@.skip(pos as int).drop_first() =~= s@.skip(pos + 1));
            }
            push_all(&mut out, to, 0, to.len());
            out.push(s[pos]);
            pos = pos + 1;
        }
        push_all(&mut out, to, 0, to.len());
        return out;
    }
    loop
        invariant
            pat@.len() > 0,
            0 <= pos <= s.len(),
            replace_all(s@, pat@, to@) =~= out@ + replace_all(s@.skip(pos as int), pat@, to@),
        decreases s.len() - pos,
    {
        proof {
            lemma_find_skip(s@, pat@, pos as int, 0);
            lemma_find_from(s@, pat@, pos as int);
        }
        match find(s, pat, pos) {
            None => {
                push_all(&mut out, s, pos, s.len());
                return out;
            },
            Some(i) => {
                proof {
                    let rest = s@.skip(pos as int);
                    assert(rest.take(i - pos) =~= s@.subrange(pos as int, i as int));
                    assert(rest.skip(i - pos + pat@.len()) =~= s@.skip(i + pat@.len()));
                }
                push_all(&mut out, s, pos, i);
                push_all(&mut out, to, 0, to.len());
                pos = i + pat.len();
            },
        }
    }
}

impl CommandWithoutOutput {
    /// Replaces one occurrence of `from` by `to`, looking first behind the
    /// cursor.
    pub fn replace_single(&self, from: &str, to: &str) -> (r: CommandWithoutOutput)
        ensures
            r@ == self@.replace_single(from@, to@),
    {
        let total = len_of(self.input.as_str());
        if self.cursor_position > total as u64 {
            proof {
                if self@.cursor_on_boundary() {
                    lemma_split_bytes(self.input@, self.cursor_position as int);
                }
            }
            return self.clone();
        }
        match split_at_byte(self.input.as_str(), self.cursor_position as usize) {
            None => self.clone(),
            Some((head, tail)) => {
                let first = chars_of(head);
                let last = chars_of(tail);
                let pat = chars_of(from);
                let new = chars_of(to);
                match replace_once(&last, &pat, &new) {
                    Some(replaced) => {
                        let mut input = String::from_str(head);
                        input.append(text_of(&replaced).as_str());
                        return CommandWithoutOutput {
                            cursor_position: self.cursor_position,
                            input,
                        };
                    },
                    None => {},
                }
                match replace_once(&first, &pat, &new) {
                    Some(replaced) => {
                        let mut input = text_of(&replaced);
                        let cursor_position = len_of(input.as_str()) as u64;
                        input.append(tail);
                        return CommandWithoutOutput { cursor_position, input };
                    },
                    None => {},
                }
                let whole = chars_of(self.input.as_str());
                match replace_once(&whole, &pat, &new) {
                    Some(replaced) => CommandWithoutOutput::at_end(text_of(&replaced)),
                    None => self.clone(),
                }
            },
        }
    }

    /// Replaces every occurrence of `from` by `to`.
    pub fn replace_global(&self, from: &str, to: &str) -> (r: CommandWithoutOutput)
        ensures
            r@ == self@.replace_global(from@, to@),
    {
        let whole = chars_of(self.input.as_str());
        let pat = chars_of(from);
        let new = chars_of(to);
        let replaced = replace_every(&whole, &pat, &new);
        CommandWithoutOutput::at_end(text_of(&replaced))
    }
}

} // verus!
