//! Hints: short lower-case labels for the words of a text, read as numbers
//! in base 26 with `a` as zero.

use vstd::prelude::*;
use crate::text::{chars_of, push_char};

verus! {

/// Why a hint could not be read as a number.
#[derive(Debug, Clone, Copy, PartialEq, Eq)]
pub enum HintError {
    /// The hint holds a character outside `a`..=`z`.
    InvalidCharacter,
    /// The hint is made of letters, but its value exceeds `u32::MAX`.
    Overflow,
}

/// The letter that stands for digit `d`, for `d` below 26.
pub open spec fn digit_char(d: nat) -> char {
    (('a' as nat) + d) as char
}

/// The digit that a lower-case letter stands for.
pub open spec fn digit_value(c: char) -> nat {
    (c as nat - 'a' as nat) as nat
}

/// `c` is a lower-case ASCII letter.
pub open spec fn is_hint_char(c: char) -> bool {
    'a' <= c <= 'z'
}

/// Every character of `s` is a lower-case ASCII letter.
pub open spec fn is_hint(s: Seq<char>) -> bool {
    forall|i: int| 0 <= i < s.len() ==> is_hint_char(#[trigger] s[i])
}

/// The label of `n`: its base-26 digits, most significant first, without
/// leading zeros; zero is `"a"`.
pub open spec fn hint_of(n: nat) -> Seq<char>
    decreases n,
{
    if n < 26 {
        seq![digit_char(n)]
    } else {
        hint_of(n / 26).push(digit_char(n % 26))
    }
}

/// The number that a sequence of letters denotes, most significant digit
/// first. Leading `a`s do not count, and the empty sequence denotes zero.
pub open spec fn hint_value(s: Seq<char>) -> nat
    decreases s.len(),
{
    if s.len() == 0 {
        0
    } else {
        hint_value(s.drop_last()) * 26 + digit_value(s.last())
    }
}

/// Reading the label of a number gives the number back.
pub proof fn lemma_hint_round_trip(n: nat)
    ensures
        is_hint(hint_of(n)),
        hint_of(n).len() >= 1,
        hint_value(hint_of(n)) == n,
    decreases n,
{
    if n < 26 {
        let s = seq![digit_char(n)];
        assert(s.drop_last() =~= Seq::<char>::empty());
        assert(hint_value(s.drop_last()) == 0);
        assert(digit_value(s.last()) == n);
    } else {
        lemma_hint_round_trip(n / 26);
        let s = hint_of(n);
        assert(s.drop_last() =~= hint_of(n / 26));
        assert(digit_value(s.last()) == n % 26);
    }
}

/// The hint is the label of a number: letters only, at least one, and no
/// leading `a` but for the label of zero.
pub open spec fn is_label(s: Seq<char>) -> bool {
    is_hint(s) && s.len() >= 1 && (s.len() == 1 || s[0] != 'a')
}

/// The label of a number is a label.
pub proof fn lemma_hint_of_is_label(n: nat)
    ensures
        is_label(hint_of(n)),
        n >= 26 ==> hint_of(n).len() > 1,
        n > 0 ==> hint_of(n)[0] != 'a',
    decreases n,
{
    lemma_hint_round_trip(n);
    if n >= 26 {
        lemma_hint_of_is_label(n / 26);
        assert(hint_of(n)[0] == hint_of(n / 26)[0]);
    }
}

proof fn lemma_label_value(s: Seq<char>)
    requires
        is_hint(s),
        s.len() >= 1,
        s[0] != 'a',
    ensures
        hint_value(s) >= 1,
        s.len() > 1 ==> hint_value(s) >= 26,
    decreases s.len(),
{
    if s.len() > 1 {
        let front = s.drop_last();
        assert(front[0] == s[0]);
        assert forall|i: int| 0 <= i < front.len() implies is_hint_char(#[trigger] front[i]) by {
            assert(front[i] == s[i]);
        }
        lemma_label_value(front);
    } else {
        assert(s.drop_last() =~= Seq::<char>::empty());
        assert(s.last() == s[0]);
    }
}

/// A label is the label of the number that it denotes: labels and numbers
/// stand one to one.
pub proof fn lemma_label_round_trip(s: Seq<char>)
    requires
        is_label(s),
    ensures
        hint_of(hint_value(s)) == s,
    decreases s.len(),
{
    let front = s.drop_last();
    let d = digit_value(s.last());
    assert(is_hint_char(s[s.len() - 1]));
    assert(digit_char(d) == s.last());
    if s.len() == 1 {
        assert(front =~= Seq::<char>::empty());
        assert(hint_of(d) =~= s);
    } else {
        assert(front[0] == s[0]);
        assert forall|i: int| 0 <= i < front.len() implies is_hint_char(#[trigger] front[i]) by {
            assert(front[i] == s[i]);
        }
        lemma_label_value(front);
        lemma_label_round_trip(front);
        let v = hint_value(s);
        assert(v == hint_value(front) * 26 + d);
        assert(v / 26 == hint_value(front) && v % 26 == d) by (nonlinear_arith)
            requires
                v == hint_value(front) * 26 + d,
                0 <= d < 26,
        ;
        assert(hint_of(v) =~= front.push(s.last()));
        assert(front.push(s.last()) =~= s);
    }
}

/// Leading `a`s do not change what a hint denotes: `"a"`, `"aa"` and the
/// empty hint all denote zero, and every number has many hints.
pub proof fn lemma_leading_a(s: Seq<char>)
    ensures
        hint_value(seq!['a'] + s) == hint_value(s),
        is_hint(seq!['a'] + s) == is_hint(s),
    decreases s.len(),
{
    let t = seq!['a'] + s;
    if s.len() == 0 {
        assert(t.drop_last() =~= Seq::<char>::empty());
        assert(t.last() == 'a');
        assert(hint_value(t.drop_last()) == 0);
    } else {
        lemma_leading_a(s.drop_last());
        assert(t.drop_last() =~= seq!['a'] + s.drop_last());
        assert(t.last() == s.last());
    }
    if is_hint(s) {
        assert forall|i: int| 0 <= i < t.len() implies is_hint_char(#[trigger] t[i]) by {
            if i > 0 {
                assert(t[i] == s[i - 1]);
            }
        }
    }
    if is_hint(t) {
        assert forall|i: int| 0 <= i < s.len() implies is_hint_char(#[trigger] s[i]) by {
            assert(s[i] == t[i + 1]);
        }
    }
}

fn write_hint(num: u32, out: &mut String)
    ensures
        final(out)@ == old(out)@ + hint_of(num as nat),
    decreases num,
{
    if num >= 26 {
        write_hint(num / 26, out);
    }
    let d: u8 = (num % 26) as u8;
    let c: char = (d + 97u8) as char;
    assert(c == digit_char((num % 26) as nat));
    push_char(out, c);
    proof {
        if num < 26 {
            assert(old(out)@.push(c) =~= old(out)@ + hint_of(num as nat));
        } else {
            assert((old(out)@ + hint_of((num / 26) as nat)).push(c) =~= old(out)@ + hint_of(
                num as nat,
            ));
        }
    }
}

/// The label of word number `num`.
pub fn base10_to_base26(num: u32) -> (r: String)
    ensures
        r@ == hint_of(num as nat),
{
    let mut r = String::new();
    write_hint(num, &mut r);
    assert(Seq::<char>::empty() + hint_of(num as nat) =~= hint_of(num as nat));
    r
}

proof fn lemma_hint_value_monotone(s: Seq<char>, i: int)
    requires
        0 <= i < s.len(),
    ensures
        hint_value(s.take(i + 1)) == hint_value(s.take(i)) * 26 + digit_value(s[i]),
        hint_value(s.take(i + 1)) >= hint_value(s.take(i)),
{
    assert(s.take(i + 1).drop_last() =~= s.take(i));
    assert(hint_value(s.take(i)) * 26 >= hint_value(s.take(i))) by (nonlinear_arith);
}

/// Reads a hint as a number.
pub fn base26_to_base10(input: &str) -> (r: Result<u32, HintError>)
    ensures
        match r {
            Ok(v) => is_hint(input@) && hint_value(input@) == v,
            Err(HintError::InvalidCharacter) => !is_hint(input@),
            Err(HintError::Overflow) => is_hint(input@) && hint_value(input@) > u32::MAX,
        },
{
    let chars = chars_of(input);
    let n = chars.len();
    let mut acc: u32 = 0;
    let mut overflowed = false;
    let mut i: usize = 0;
    while i < n
        invariant
            chars@ == input@,
            n == chars.len(),
            0 <= i <= n,
            is_hint(input@.take(i as int)),
            !overflowed ==> acc == hint_value(input@.take(i as int)),
            overflowed ==> hint_value(input@.take(i as int)) > u32::MAX,
        decreases n - i,
    {
        let c = chars[i];
        if !('a' <= c && c <= 'z') {
            return Err(HintError::InvalidCharacter);
        }
        proof {
            lemma_hint_value_monotone(input@, i as int);
            assert forall|k: int| 0 <= k < i + 1 implies is_hint_char(
                #[trigger] input@.take(i + 1)[k],
            ) by {
                if k < i {
                    assert(input@.take(i as int)[k] == input@[k]);
                }
            }
        }
        if !overflowed {
            let d: u32 = c as u32 - 97u32;
            match acc.checked_mul(26) {
                Some(m) => match m.checked_add(d) {
                    Some(v) => {
                        acc = v;
                    },
                    None => {
                        overflowed = true;
                    },
                },
                None => {
                    overflowed = true;
                },
            }
        }
        i = i + 1;
    }
    assert(input@.take(n as int) =~= input@);
    if overflowed {
        Err(HintError::Overflow)
    } else {
        Ok(acc)
    }
}

} // verus!
