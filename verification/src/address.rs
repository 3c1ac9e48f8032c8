//! Words addressed by number: where the word with a given number stands
//! among the tokens of a text, and the edits, cursor jumps and copies that
//! are made there.

use vstd::prelude::*;
use vstd::string::StringExecFns;
use crate::model::{CommandWithoutOutput, LineView};
use crate::text::{byte_len, lemma_encode_concat, len_of};
use crate::token::{
    join, lemma_tokenize_round_trip, split_string, token_views, tokenize, StringType, Token,
};

verus! {

/// Index among `tokens` of the word with number `n`, counting words from
/// zero; the number of tokens where there are `n` words or fewer.
pub open spec fn word_position(tokens: Seq<Token>, n: nat) -> int
    decreases tokens.len(),
{
    if tokens.len() == 0 {
        0
    } else if tokens[0] is Word {
        if n == 0 {
            0
        } else {
            1 + word_position(tokens.drop_first(), (n - 1) as nat)
        }
    } else {
        1 + word_position(tokens.drop_first(), n)
    }
}

/// Number of words among `tokens`.
pub open spec fn word_count(tokens: Seq<Token>) -> nat
    decreases tokens.len(),
{
    if tokens.len() == 0 {
        0
    } else if tokens[0] is Word {
        1 + word_count(tokens.drop_first())
    } else {
        word_count(tokens.drop_first())
    }
}

/// The position of word `n` is that of a word with exactly `n` words before
/// it, and there is such a word exactly when there are more than `n` words.
pub proof fn lemma_word_position(tokens: Seq<Token>, n: nat)
    ensures
        0 <= word_position(tokens, n) <= tokens.len(),
        word_position(tokens, n) < tokens.len() <==> n < word_count(tokens),
        word_position(tokens, n) < tokens.len() ==> tokens[word_position(tokens, n)] is Word
            && word_count(tokens.take(word_position(tokens, n))) == n,
    decreases tokens.len(),
{
    if tokens.len() == 0 {
    } else {
        let rest = tokens.drop_first();
        if tokens[0] is Word {
            if n == 0 {
                assert(tokens.take(0) =~= Seq::<Token>::empty());
            } else {
                lemma_word_position(rest, (n - 1) as nat);
                let k = word_position(rest, (n - 1) as nat);
                assert(tokens.take(1 + k).drop_first() =~= rest.take(k));
            }
        } else {
            lemma_word_position(rest, n);
            let k = word_position(rest, n);
            assert(tokens.take(1 + k).drop_first() =~= rest.take(k));
        }
    }
}

/// Joining two runs of tokens joins their texts.
pub proof fn lemma_join_concat(a: Seq<Token>, b: Seq<Token>)
    ensures
        join(a + b) =~= join(a) + join(b),
    decreases a.len(),
{
    if a.len() == 0 {
        assert(a + b =~= b);
    } else {
        assert((a + b).drop_first() =~= a.drop_first() + b);
        lemma_join_concat(a.drop_first(), b);
    }
}

/// One more token adds its text, and no prefix of the tokens is longer than
/// all of them.
pub proof fn lemma_join_step(tokens: Seq<Token>, i: int)
    requires
        0 <= i < tokens.len(),
    ensures
        join(tokens.take(i + 1)) =~= join(tokens.take(i)) + tokens[i].text(),
        byte_len(join(tokens.take(i + 1))) == byte_len(join(tokens.take(i))) + byte_len(
            tokens[i].text(),
        ),
        byte_len(join(tokens.take(i + 1))) <= byte_len(join(tokens)),
{
    let one = seq![tokens[i]];
    assert(tokens.take(i + 1) =~= tokens.take(i) + one);
    lemma_join_concat(tokens.take(i), one);
    assert(one.drop_first() =~= Seq::<Token>::empty());
    assert(join(one.drop_first()) =~= Seq::<char>::empty());
    assert(join(one) =~= tokens[i].text() + join(one.drop_first()));
    assert(join(one) =~= tokens[i].text());
    lemma_encode_concat(join(tokens.take(i)), tokens[i].text());
    assert(tokens.take(i + 1) + tokens.skip(i + 1) =~= tokens);
    lemma_join_concat(tokens.take(i + 1), tokens.skip(i + 1));
    lemma_encode_concat(join(tokens.take(i + 1)), join(tokens.skip(i + 1)));
}

/// Number of bytes in the text of the first `k` tokens.
pub open spec fn bytes_before(tokens: Seq<Token>, k: int) -> nat {
    byte_len(join(tokens.take(k)))
}

impl LineView {
    /// The line without its word number `n`, the cursor where the word
    /// began; the line itself where it has no such word.
    pub open spec fn delete_word(self, n: nat) -> LineView {
        let tokens = tokenize(self.input);
        let k = word_position(tokens, n);
        if k < tokens.len() {
            LineView { cursor: bytes_before(tokens, k), input: join(tokens.remove(k)) }
        } else {
            self
        }
    }

    /// The line without the tokens from word number `first` through word
    /// number `last`, the cursor where the first of them began; the line
    /// itself where `last` is less than `first` or it has no word `last`.
    pub open spec fn delete_words(self, first: nat, last: nat) -> LineView {
        let tokens = tokenize(self.input);
        let from = word_position(tokens, first);
        let to = word_position(tokens, last);
        if first <= last && to < tokens.len() {
            LineView {
                cursor: bytes_before(tokens, from),
                input: join(tokens.take(from) + tokens.skip(to + 1)),
            }
        } else {
            self
        }
    }

    /// The cursor put before word number `n`, or at the end of the text
    /// where there is no such word.
    pub open spec fn jump_before(self, n: nat) -> LineView {
        let tokens = tokenize(self.input);
        LineView { cursor: bytes_before(tokens, word_position(tokens, n)), input: self.input }
    }

    /// The cursor put behind word number `n`, or at the end of the text
    /// where there is no such word.
    pub open spec fn jump_after(self, n: nat) -> LineView {
        let tokens = tokenize(self.input);
        let k = word_position(tokens, n);
        LineView {
            cursor: if k < tokens.len() {
                bytes_before(tokens, k + 1)
            } else {
                bytes_before(tokens, k)
            },
            input: self.input,
        }
    }

    /// The cursor put at the end of the text.
    pub open spec fn jump_to_end(self) -> LineView {
        LineView::at_end(self.input)
    }
}

/// The tokens before any place hold no more bytes than all of them.
pub proof fn lemma_bytes_before_bound(tokens: Seq<Token>, k: int)
    requires
        0 <= k <= tokens.len(),
    ensures
        bytes_before(tokens, k) <= byte_len(join(tokens)),
{
    assert(tokens.take(k) + tokens.skip(k) =~= tokens);
    lemma_join_concat(tokens.take(k), tokens.skip(k));
    lemma_encode_concat(join(tokens.take(k)), join(tokens.skip(k)));
}

/// Deleting words and jumping to words never takes the cursor out of the
/// text.
pub proof fn lemma_address_keeps_cursor(line: LineView, n: nat, last: nat)
    requires
        line.cursor_in_text(),
    ensures
        line.delete_word(n).cursor_in_text(),
        line.delete_words(n, last).cursor_in_text(),
        line.jump_before(n).cursor_in_text(),
        line.jump_after(n).cursor_in_text(),
        line.jump_to_end().cursor_in_text(),
{
    let tokens = tokenize(line.input);
    lemma_tokenize_round_trip(line.input);
    let k = word_position(tokens, n);
    lemma_word_position(tokens, n);
    lemma_bytes_before_bound(tokens, k);
    if k < tokens.len() {
        lemma_bytes_before_bound(tokens, k + 1);
        assert(tokens.remove(k) =~= tokens.take(k) + tokens.skip(k + 1));
        lemma_join_concat(tokens.take(k), tokens.skip(k + 1));
        lemma_encode_concat(join(tokens.take(k)), join(tokens.skip(k + 1)));
    }
    let to = word_position(tokens, last);
    lemma_word_position(tokens, last);
    if n <= last && to < tokens.len() {
        lemma_join_concat(tokens.take(k), tokens.skip(to + 1));
        lemma_encode_concat(join(tokens.take(k)), join(tokens.skip(to + 1)));
    }
}

/// What is copied for the words from number `first` through number `last`:
/// the texts of all tokens up to and including word `last`, in order, but
/// for the words before word `first`. Words are counted from the front of
/// `tokens`; where there is no word `last`, the walk goes to the end.
pub open spec fn copied_text(tokens: Seq<Token>, first: int, last: nat) -> Seq<char>
    decreases tokens.len(),
{
    if tokens.len() == 0 {
        Seq::empty()
    } else if tokens[0] is Word {
        let taken = if first <= 0 {
            tokens[0].text()
        } else {
            Seq::empty()
        };
        if last == 0 {
            taken
        } else {
            taken + copied_text(tokens.drop_first(), first - 1, (last - 1) as nat)
        }
    } else {
        tokens[0].text() + copied_text(tokens.drop_first(), first, last)
    }
}

/// Finds word number `n` among `tokens`: its index, and the number of bytes
/// in the tokens before it.
pub(crate) fn locate_word(tokens: &Vec<StringType>, n: u32) -> (r: (usize, usize))
    requires
        byte_len(join(token_views(tokens@))) <= usize::MAX,
    ensures
        r.0 == word_position(token_views(tokens@), n as nat),
        r.1 == bytes_before(token_views(tokens@), r.0 as int),
        r.0 <= tokens.len(),
{
    let ghost views = token_views(tokens@);
    let mut i: usize = 0;
    let mut bytes: usize = 0;
    let mut current: u32 = 0;
    proof {
        assert(views.skip(0) =~= views);
        assert(views.take(0) =~= Seq::<Token>::empty());
        assert(byte_len(Seq::<char>::empty()) == 0);
    }
    while i < tokens.len()
        invariant
            views == token_views(tokens@),
            byte_len(join(views)) <= usize::MAX,
            0 <= i <= tokens.len(),
            current <= n,
            word_position(views, n as nat) == i + word_position(
                views.skip(i as int),
                (n - current) as nat,
            ),
            bytes == bytes_before(views, i as int),
        decreases tokens.len() - i,
    {
        proof {
            assert(views.skip(i as int).drop_first() =~= views.skip(i + 1));
            assert(views.skip(i as int)[0] == tokens@[i as int]@);
            lemma_join_step(views, i as int);
        }
        match &tokens[i] {
            StringType::Word(w) => {
                if current == n {
                    return (i, bytes);
                }
                current = current + 1;
                bytes = bytes + len_of(w);
            },
            StringType::Whitespace(s) => {
                bytes = bytes + len_of(s);
            },
            StringType::Newline(s) => {
                bytes = bytes + len_of(s);
            },
            StringType::Tab => {
                proof {
                    crate::text::lemma_byte_len_single('\t');
                }
                bytes = bytes + 1;
            },
        }
        i = i + 1;
    }
    proof {
        assert(views.skip(i as int) =~= Seq::<Token>::empty());
    }
    (i, bytes)
}

/// The text of the tokens from index `from` up to `to`.
pub(crate) fn join_tokens(tokens: &Vec<StringType>, from: usize, to: usize) -> (r: String)
    requires
        from <= to <= tokens.len(),
    ensures
        r@ == join(token_views(tokens@).subrange(from as int, to as int)),
{
    let ghost views = token_views(tokens@);
    let mut r = String::new();
    let mut i: usize = from;
    proof {
        assert(views.subrange(from as int, from as int) =~= Seq::<Token>::empty());
    }
    while i < to
        invariant
            views == token_views(tokens@),
            from <= i <= to <= tokens.len(),
            r@ == join(views.subrange(from as int, i as int)),
        decreases to - i,
    {
        proof {
            let part = views.subrange(from as int, i + 1);
            assert(part.take(i - from) =~= views.subrange(from as int, i as int));
            assert(part.take(i - from + 1) =~= part);
            lemma_join_step(part, i - from);
            assert(part[i - from] == tokens@[i as int]@);
        }
        r.append(tokens[i].as_str());
        i = i + 1;
    }
    r
}

impl CommandWithoutOutput {
    /// Deletes word number `n`.
    pub fn delete_word(&self, n: u32) -> (r: CommandWithoutOutput)
        ensures
            r@ == self@.delete_word(n as nat),
    {
        let tokens = split_string(self.input.as_str());
        proof {
            lemma_tokenize_round_trip(self.input@);
        }
        let (k, bytes) = locate_word(&tokens, n);
        if k < tokens.len() {
            let mut input = join_tokens(&tokens, 0, k);
            let tail = join_tokens(&tokens, k + 1, tokens.len());
            input.append(tail.as_str());
            proof {
                let views = token_views(tokens@);
                assert(views.remove(k as int) =~= views.subrange(0, k as int) + views.subrange(
                    k + 1,
                    views.len() as int,
                ));
                lemma_join_concat(
                    views.subrange(0, k as int),
                    views.subrange(k + 1, views.len() as int),
                );
            }
            CommandWithoutOutput { cursor_position: bytes as u64, input }
        } else {
            self.clone()
        }
    }

    /// Deletes the tokens from word number `first` through word number
    /// `last`.
    pub fn delete_words(&self, first: u32, last: u32) -> (r: CommandWithoutOutput)
        ensures
            r@ == self@.delete_words(first as nat, last as nat),
    {
        if last < first {
            return self.clone();
        }
        let tokens = split_string(self.input.as_str());
        proof {
            lemma_tokenize_round_trip(self.input@);
        }
        let (to, _) = locate_word(&tokens, last);
        if to < tokens.len() {
            let (from, bytes) = locate_word(&tokens, first);
            proof {
                lemma_word_position_monotone(token_views(tokens@), first as nat, last as nat);
            }
            let mut input = join_tokens(&tokens, 0, from);
            let tail = join_tokens(&tokens, to + 1, tokens.len());
            input.append(tail.as_str());
            proof {
                let views = token_views(tokens@);
                assert(views.take(from as int) =~= views.subrange(0, from as int));
                assert(views.skip(to + 1) =~= views.subrange(to + 1, views.len() as int));
                lemma_join_concat(views.take(from as int), views.skip(to + 1));
            }
            CommandWithoutOutput { cursor_position: bytes as u64, input }
        } else {
            self.clone()
        }
    }

    /// Moves the cursor before word number `n`.
    pub fn jump_before(&self, n: u32) -> (r: CommandWithoutOutput)
        ensures
            r@ == self@.jump_before(n as nat),
    {
        let tokens = split_string(self.input.as_str());
        proof {
            lemma_tokenize_round_trip(self.input@);
        }
        let (_, bytes) = locate_word(&tokens, n);
        CommandWithoutOutput { cursor_position: bytes as u64, input: self.input.clone() }
    }

    /// Moves the cursor behind word number `n`.
    pub fn jump_after(&self, n: u32) -> (r: CommandWithoutOutput)
        ensures
            r@ == self@.jump_after(n as nat),
    {
        let tokens = split_string(self.input.as_str());
        proof {
            lemma_tokenize_round_trip(self.input@);
        }
        let (k, bytes) = locate_word(&tokens, n);
        let cursor = if k < tokens.len() {
            proof {
                lemma_join_step(token_views(tokens@), k as int);
            }
            bytes + len_of(tokens[k].as_str())
        } else {
            bytes
        };
        CommandWithoutOutput { cursor_position: cursor as u64, input: self.input.clone() }
    }

    /// Moves the cursor to the end of the text.
    pub fn jump_to_end(&self) -> (r: CommandWithoutOutput)
        ensures
            r@ == self@.jump_to_end(),
    {
        CommandWithoutOutput::at_end(self.input.clone())
    }
}

/// A later word does not stand before an earlier one.
pub proof fn lemma_word_position_monotone(tokens: Seq<Token>, first: nat, last: nat)
    requires
        first <= last,
    ensures
        word_position(tokens, first) <= word_position(tokens, last),
    decreases tokens.len(),
{
    if tokens.len() == 0 {
    } else if tokens[0] is Word {
        if first > 0 {
            lemma_word_position_monotone(
                tokens.drop_first(),
                (first - 1) as nat,
                (last - 1) as nat,
            );
        } else if last > 0 {
            lemma_word_position(tokens.drop_first(), (last - 1) as nat);
        }
    } else {
        lemma_word_position_monotone(tokens.drop_first(), first, last);
    }
}

/// The part of `text` that is copied for the words from number `first`
/// through number `last`.
pub fn copy_words(text: &str, first: u32, last: u32) -> (r: String)
    ensures
        r@ == copied_text(tokenize(text@), first as int, last as nat),
{
    let tokens = split_string(text);
    let ghost views = token_views(tokens@);
    let mut r = String::new();
    let mut current: u32 = 0;
    let mut i: usize = 0;
    proof {
        assert(views.skip(0) =~= views);
    }
    while i < tokens.len()
        invariant
            views == token_views(tokens@),
            views == tokenize(text@),
            0 <= i <= tokens.len(),
            current <= last,
            copied_text(views, first as int, last as nat) =~= r@ + copied_text(
                views.skip(i as int),
                first - current,
                (last - current) as nat,
            ),
        decreases tokens.len() - i,
    {
        proof {
            assert(views.skip(i as int).drop_first() =~= views.skip(i + 1));
            assert(views.skip(i as int)[0] == tokens@[i as int]@);
        }
        match &tokens[i] {
            StringType::Word(w) => {
                if first <= current {
                    r.append(w);
                }
                if current == last {
                    return r;
                }
                current = current + 1;
            },
            StringType::Whitespace(s) => {
                r.append(s);
            },
            StringType::Newline(s) => {
                r.append(s);
            },
            StringType::Tab => {
                r.append(tokens[i].as_str());
            },
        }
        i = i + 1;
    }
    proof {
        assert(views.skip(i as int) =~= Seq::<Token>::empty());
    }
    r
}

} // verus!
