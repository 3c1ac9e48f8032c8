//! The tokenizer: text split into words, runs of spaces, tabs and line
//! breaks, in order and without loss.

use vstd::prelude::*;
use crate::text::{byte_len, chars_of, lemma_take_step, len_of, slice_between, width_of};

verus! {

/// One span of tokenized text, borrowing from the text it was cut from.
#[derive(Debug, PartialEq)]
pub enum StringType<'a> {
    /// A maximal run of characters that are neither space, tab nor line break.
    Word(&'a str),
    /// A maximal run of spaces.
    Whitespace(&'a str),
    /// A single tab.
    Tab,
    /// One line break: `"\r\n"`, `"\r"` or `"\n"`.
    Newline(&'a str),
}

/// A token as a mathematical value.
pub ghost enum Token {
    Word(Seq<char>),
    Whitespace(Seq<char>),
    Tab,
    Newline(Seq<char>),
}

impl Token {
    /// The characters that the token stands for.
    pub open spec fn text(self) -> Seq<char> {
        match self {
            Token::Word(s) => s,
            Token::Whitespace(s) => s,
            Token::Tab => seq!['\t'],
            Token::Newline(s) => s,
        }
    }
}

impl<'a> View for StringType<'a> {
    type V = Token;

    open spec fn view(&self) -> Token {
        match *self {
            StringType::Word(s) => Token::Word(s@),
            StringType::Whitespace(s) => Token::Whitespace(s@),
            StringType::Tab => Token::Tab,
            StringType::Newline(s) => Token::Newline(s@),
        }
    }
}

impl<'a> StringType<'a> {
    /// The text of the span; a tab reads as `"\t"`.
    pub fn as_str(&self) -> (r: &str)
        ensures
            r@ == self@.text(),
    {
        match self {
            StringType::Word(s) => s,
            StringType::Whitespace(s) => s,
            StringType::Tab => {
                proof {
                    reveal_strlit("\t");
                    assert("\t"@ =~= seq!['\t']);
                }
                "\t"
            },
            StringType::Newline(s) => s,
        }
    }
}

/// The views of a sequence of spans.
pub open spec fn token_views(v: Seq<StringType>) -> Seq<Token> {
    Seq::new(v.len(), |i: int| v[i]@)
}

/// Characters that make up words: everything but space, tab and the two
/// line-break characters.
pub open spec fn is_word_char(c: char) -> bool {
    c != ' ' && c != '\t' && c != '\r' && c != '\n'
}

/// Length of the longest prefix of `s` that consists of spaces.
pub open spec fn space_run(s: Seq<char>) -> nat
    decreases s.len(),
{
    if s.len() > 0 && s[0] == ' ' {
        1 + space_run(s.drop_first())
    } else {
        0
    }
}

/// Length of the longest prefix of `s` that consists of word characters.
pub open spec fn word_run(s: Seq<char>) -> nat
    decreases s.len(),
{
    if s.len() > 0 && is_word_char(s[0]) {
        1 + word_run(s.drop_first())
    } else {
        0
    }
}

/// Number of characters in the first token of a non-empty text.
pub open spec fn first_token_len(s: Seq<char>) -> nat {
    if s[0] == ' ' {
        space_run(s)
    } else if s[0] == '\t' || s[0] == '\n' {
        1
    } else if s[0] == '\r' {
        if s.len() > 1 && s[1] == '\n' {
            2
        } else {
            1
        }
    } else {
        word_run(s)
    }
}

/// The first token of a non-empty text.
pub open spec fn first_token(s: Seq<char>) -> Token {
    let span = s.take(first_token_len(s) as int);
    if s[0] == ' ' {
        Token::Whitespace(span)
    } else if s[0] == '\t' {
        Token::Tab
    } else if s[0] == '\n' || s[0] == '\r' {
        Token::Newline(span)
    } else {
        Token::Word(span)
    }
}

/// The first token of a non-empty text is non-empty and lies within it.
pub proof fn lemma_first_token_len(s: Seq<char>)
    requires
        s.len() > 0,
    ensures
        1 <= first_token_len(s) <= s.len(),
{
    lemma_space_run(s);
    lemma_word_run(s);
}

/// The tokens of a text, left to right.
pub open spec fn tokenize(s: Seq<char>) -> Seq<Token>
    decreases s.len(),
    via tokenize_decreases
{
    if s.len() == 0 {
        Seq::empty()
    } else {
        seq![first_token(s)] + tokenize(s.skip(first_token_len(s) as int))
    }
}

#[via_fn]
proof fn tokenize_decreases(s: Seq<char>) {
    if s.len() > 0 {
        lemma_first_token_len(s);
    }
}

/// The texts of a sequence of tokens, joined in order.
pub open spec fn join(tokens: Seq<Token>) -> Seq<char>
    decreases tokens.len(),
{
    if tokens.len() == 0 {
        Seq::empty()
    } else {
        tokens[0].text() + join(tokens.drop_first())
    }
}

/// Joining the tokens of a text in order gives the text back.
pub proof fn lemma_tokenize_round_trip(s: Seq<char>)
    ensures
        join(tokenize(s)) == s,
    decreases s.len(),
{
    if s.len() == 0 {
        assert(join(tokenize(s)) =~= s);
    } else {
        lemma_first_token_len(s);
        let n = first_token_len(s) as int;
        let rest = s.skip(n);
        lemma_tokenize_round_trip(rest);
        let ts = tokenize(s);
        assert(ts.drop_first() =~= tokenize(rest));
        assert(ts[0] == first_token(s));
        assert(first_token(s).text() =~= s.take(n));
        assert(s.take(n) + rest =~= s);
    }
}

impl Token {
    /// The token has the shape of its kind: a word is a non-empty run of
    /// word characters, whitespace a non-empty run of spaces, and a line
    /// break one of `"\r\n"`, `"\r"` and `"\n"`.
    pub open spec fn well_formed(self) -> bool {
        match self {
            Token::Word(w) => w.len() > 0 && forall|i: int|
                0 <= i < w.len() ==> is_word_char(#[trigger] w[i]),
            Token::Whitespace(w) => w.len() > 0 && forall|i: int|
                0 <= i < w.len() ==> #[trigger] w[i] == ' ',
            Token::Tab => true,
            Token::Newline(n) => n == seq!['\r', '\n'] || n == seq!['\r'] || n == seq!['\n'],
        }
    }

    /// `next` may stand right behind the token: two words, or two runs of
    /// spaces, would be one, and so would a `"\r"` and a `"\n"`.
    pub open spec fn may_precede(self, next: Token) -> bool {
        &&& !(self is Word && next is Word)
        &&& !(self is Whitespace && next is Whitespace)
        &&& !(self == Token::Newline(seq!['\r']) && next == Token::Newline(seq!['\n']))
    }
}

proof fn lemma_space_run(s: Seq<char>)
    ensures
        space_run(s) <= s.len(),
        forall|i: int| 0 <= i < space_run(s) ==> #[trigger] s[i] == ' ',
        space_run(s) < s.len() ==> s[space_run(s) as int] != ' ',
    decreases s.len(),
{
    if s.len() > 0 && s[0] == ' ' {
        let rest = s.drop_first();
        lemma_space_run(rest);
        assert forall|i: int| 0 <= i < space_run(s) implies #[trigger] s[i] == ' ' by {
            if i > 0 {
                assert(s[i] == rest[i - 1]);
            }
        }
        if space_run(s) < s.len() {
            assert(s[space_run(s) as int] == rest[space_run(rest) as int]);
        }
    }
}

proof fn lemma_word_run(s: Seq<char>)
    ensures
        word_run(s) <= s.len(),
        forall|i: int| 0 <= i < word_run(s) ==> is_word_char(#[trigger] s[i]),
        word_run(s) < s.len() ==> !is_word_char(s[word_run(s) as int]),
    decreases s.len(),
{
    if s.len() > 0 && is_word_char(s[0]) {
        let rest = s.drop_first();
        lemma_word_run(rest);
        assert forall|i: int| 0 <= i < word_run(s) implies is_word_char(#[trigger] s[i]) by {
            if i > 0 {
                assert(s[i] == rest[i - 1]);
            }
        }
        if word_run(s) < s.len() {
            assert(s[word_run(s) as int] == rest[word_run(rest) as int]);
        }
    }
}

/// The first token of a text is well formed, and what follows it in the
/// text does not go on with it.
proof fn lemma_first_token(s: Seq<char>)
    requires
        s.len() > 0,
    ensures
        first_token(s).well_formed(),
        first_token_len(s) < s.len() ==> first_token(s).may_precede(
            first_token(s.skip(first_token_len(s) as int)),
        ),
{
    lemma_space_run(s);
    lemma_word_run(s);
    let n = first_token_len(s) as int;
    let span = s.take(n);
    if s[0] == '\r' {
        if s.len() > 1 && s[1] == '\n' {
            assert(span =~= seq!['\r', '\n']);
        } else {
            assert(span =~= seq!['\r']);
        }
    } else if s[0] == '\n' {
        assert(span =~= seq!['\n']);
    }
    if n < s.len() {
        let rest = s.skip(n);
        assert(rest[0] == s[n]);
        let next = first_token(rest);
        if next == Token::Newline(seq!['\n']) {
            assert(rest.take(first_token_len(rest) as int)[0] == rest[0]);
        }
    }
}

/// The tokens of a text are well formed, and none of them could go on
/// with the next: every run is as long as it can be.
pub proof fn lemma_tokens_maximal(s: Seq<char>)
    ensures
        forall|i: int| 0 <= i < tokenize(s).len() ==> (#[trigger] tokenize(s)[i]).well_formed(),
        forall|i: int|
            0 <= i < tokenize(s).len() - 1 ==> (#[trigger] tokenize(s)[i]).may_precede(
                tokenize(s)[i + 1],
            ),
    decreases s.len(),
{
    if s.len() > 0 {
        lemma_first_token_len(s);
        lemma_first_token(s);
        let n = first_token_len(s) as int;
        let rest = s.skip(n);
        lemma_tokens_maximal(rest);
        let ts = tokenize(s);
        let tail = tokenize(rest);
        assert(ts =~= seq![first_token(s)] + tail);
        assert forall|i: int| 0 <= i < ts.len() implies (#[trigger] ts[i]).well_formed() by {
            if i > 0 {
                assert(ts[i] == tail[i - 1]);
            }
        }
        assert forall|i: int| 0 <= i < ts.len() - 1 implies (#[trigger] ts[i]).may_precede(
            ts[i + 1],
        ) by {
            if i > 0 {
                assert(ts[i] == tail[i - 1]);
                assert(ts[i + 1] == tail[i]);
            } else {
                assert(ts[1] == tail[0]);
                assert(rest.len() > 0);
                assert(tail[0] == first_token(rest));
            }
        }
    }
}

/// A run of spaces that is followed by no space is the longest there is.
proof fn lemma_space_run_is(a: Seq<char>, b: Seq<char>)
    requires
        forall|i: int| 0 <= i < a.len() ==> #[trigger] a[i] == ' ',
        b.len() > 0 ==> b[0] != ' ',
    ensures
        space_run(a + b) == a.len(),
    decreases a.len(),
{
    let s = a + b;
    if a.len() == 0 {
        assert(s =~= b);
    } else {
        assert(s[0] == a[0]);
        assert(s.drop_first() =~= a.drop_first() + b);
        assert forall|i: int| 0 <= i < a.drop_first().len() implies #[trigger] a.drop_first()[i]
            == ' ' by {
            assert(a.drop_first()[i] == a[i + 1]);
        }
        lemma_space_run_is(a.drop_first(), b);
    }
}

/// A run of word characters that is followed by none is the longest there
/// is.
proof fn lemma_word_run_is(a: Seq<char>, b: Seq<char>)
    requires
        forall|i: int| 0 <= i < a.len() ==> is_word_char(#[trigger] a[i]),
        b.len() > 0 ==> !is_word_char(b[0]),
    ensures
        word_run(a + b) == a.len(),
    decreases a.len(),
{
    let s = a + b;
    if a.len() == 0 {
        assert(s =~= b);
    } else {
        assert(s[0] == a[0]);
        assert(s.drop_first() =~= a.drop_first() + b);
        assert forall|i: int| 0 <= i < a.drop_first().len() implies is_word_char(
            #[trigger] a.drop_first()[i],
        ) by {
            assert(a.drop_first()[i] == a[i + 1]);
        }
        lemma_word_run_is(a.drop_first(), b);
    }
}

/// The tokens of a text are the only way to cut it into well-formed tokens
/// of which none could go on with the next.
pub proof fn lemma_tokenize_unique(s: Seq<char>, tokens: Seq<Token>)
    requires
        join(tokens) == s,
        forall|i: int| 0 <= i < tokens.len() ==> (#[trigger] tokens[i]).well_formed(),
        forall|i: int|
            0 <= i < tokens.len() - 1 ==> (#[trigger] tokens[i]).may_precede(tokens[i + 1]),
    ensures
        tokens == tokenize(s),
    decreases tokens.len(),
{
    if tokens.len() == 0 {
        assert(tokens =~= tokenize(s));
    } else {
        let first = tokens[0];
        let rest = tokens.drop_first();
        let a = first.text();
        let b = join(rest);
        assert(first.well_formed());
        assert(s =~= a + b);
        assert(a.len() > 0);
        assert(s[0] == a[0]);
        if rest.len() > 0 {
            let next = rest[0];
            assert(next == tokens[1]);
            assert(next.well_formed());
            assert(first.may_precede(next));
            assert(b =~= next.text() + join(rest.drop_first()));
            assert(b[0] == next.text()[0]);
        } else {
            assert(b =~= Seq::<char>::empty());
        }
        match first {
            Token::Word(w) => {
                lemma_word_run_is(a, b);
            },
            Token::Whitespace(w) => {
                lemma_space_run_is(a, b);
            },
            Token::Tab => {},
            Token::Newline(n) => {
                if n == seq!['\r', '\n'] {
                    assert(s[1] == a[1]);
                } else if b.len() > 0 {
                    assert(s[1] == b[0]);
                }
            },
        }
        let n = first_token_len(s) as int;
        assert(n == a.len());
        assert(s.take(n) =~= a);
        assert(first_token(s) == first);
        assert(s.skip(n) =~= b);
        assert forall|i: int| 0 <= i < rest.len() implies (#[trigger] rest[i]).well_formed() by {
            assert(rest[i] == tokens[i + 1]);
        }
        assert forall|i: int| 0 <= i < rest.len() - 1 implies (#[trigger] rest[i]).may_precede(
            rest[i + 1],
        ) by {
            assert(rest[i] == tokens[i + 1]);
            assert(rest[i + 1] == tokens[i + 2]);
        }
        lemma_tokenize_unique(b, rest);
        assert(tokens =~= seq![first] + rest);
    }
}

proof fn lemma_space_run_step(s: Seq<char>, i: int)
    requires
        0 <= i < s.len(),
        s[i] == ' ',
    ensures
        space_run(s.skip(i)) == 1 + space_run(s.skip(i + 1)),
{
    assert(s.skip(i).drop_first() =~= s.skip(i + 1));
}

proof fn lemma_word_run_step(s: Seq<char>, i: int)
    requires
        0 <= i < s.len(),
        is_word_char(s[i]),
    ensures
        word_run(s.skip(i)) == 1 + word_run(s.skip(i + 1)),
{
    assert(s.skip(i).drop_first() =~= s.skip(i + 1));
}

/// Splits `input` into its tokens.
pub fn split_string<'a>(input: &'a str) -> (result: Vec<StringType<'a>>)
    ensures
        token_views(result@) == tokenize(input@),
        byte_len(input@) <= usize::MAX,
{
    let chars = chars_of(input);
    let n = chars.len();
    let total = len_of(input);
    let mut result: Vec<StringType<'a>> = Vec::new();
    let mut i: usize = 0;
    let mut b: usize = 0;
    proof {
        assert(input@.take(0) =~= Seq::<char>::empty());
        assert(input@.skip(0) =~= input@);
        assert(token_views(result@) + tokenize(input@) =~= tokenize(input@));
    }
    while i < n
        invariant
            chars@ == input@,
            n == chars.len(),
            total == byte_len(input@),
            0 <= i <= n,
            b == byte_len(input@.take(i as int)),
            b <= total,
            token_views(result@) + tokenize(input@.skip(i as int)) =~= tokenize(input@),
        decreases n - i,
    {
        let start = i;
        let start_b = b;
        let c = chars[i];
        let ghost rest = input@.skip(start as int);
        let ghost old_views = token_views(result@);
        proof {
            lemma_first_token_len(rest);
        }
        let token = if c == ' ' {
            while i < n && chars[i] == ' '
                invariant
                    chars@ == input@,
                    n == chars.len(),
                    total == byte_len(input@),
                    start <= i <= n,
                    b == byte_len(input@.take(i as int)),
                    b <= total,
                    space_run(input@.skip(start as int)) == (i - start) + space_run(
                        input@.skip(i as int),
                    ),
                decreases n - i,
            {
                proof {
                    lemma_space_run_step(input@, i as int);
                    lemma_take_step(input@, i as int);
                }
                b = b + width_of(chars[i]);
                i = i + 1;
            }
            StringType::Whitespace(
                slice_between(input, start_b, b, Ghost(start as int), Ghost(i as int)),
            )
        } else if c == '\t' {
            proof {
                lemma_take_step(input@, i as int);
            }
            b = b + width_of(c);
            i = i + 1;
            StringType::Tab
        } else if c == '\n' {
            proof {
                lemma_take_step(input@, i as int);
            }
            b = b + width_of(c);
            i = i + 1;
            StringType::Newline(
                slice_between(input, start_b, b, Ghost(start as int), Ghost(i as int)),
            )
        } else if c == '\r' {
            proof {
                lemma_take_step(input@, i as int);
            }
            b = b + width_of(c);
            i = i + 1;
            if i < n && chars[i] == '\n' {
                proof {
                    lemma_take_step(input@, i as int);
                }
                b = b + width_of(chars[i]);
                i = i + 1;
            }
            StringType::Newline(
                slice_between(input, start_b, b, Ghost(start as int), Ghost(i as int)),
            )
        } else {
            while i < n && chars[i] != ' ' && chars[i] != '\t' && chars[i] != '\r' && chars[i]
                != '\n'
                invariant
                    chars@ == input@,
                    n == chars.len(),
                    total == byte_len(input@),
                    start <= i <= n,
                    b == byte_len(input@.take(i as int)),
                    b <= total,
                    word_run(input@.skip(start as int)) == (i - start) + word_run(
                        input@.skip(i as int),
                    ),
                decreases n - i,
            {
                proof {
                    lemma_word_run_step(input@, i as int);
                    lemma_take_step(input@, i as int);
                }
                b = b + width_of(chars[i]);
                i = i + 1;
            }
            StringType::Word(
                slice_between(input, start_b, b, Ghost(start as int), Ghost(i as int)),
            )
        };
        proof {
            assert(i - start == first_token_len(rest));
            assert(input@.subrange(start as int, i as int) =~= rest.take(i - start));
            assert(token@ == first_token(rest));
            assert(rest.skip(i - start) =~= input@.skip(i as int));
        }
        result.push(token);
        proof {
            assert(token_views(result@) =~= old_views + seq![token@]);
        }
    }
    proof {
        assert(input@.skip(n as int) =~= Seq::<char>::empty());
    }
    result
}

} // verus!
