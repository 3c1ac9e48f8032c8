//! Text as a sequence of characters, addressed by UTF-8 byte offsets.
//!
//! A `String` is viewed as its `Seq<char>`; lengths and cursor positions are
//! counted in bytes of its UTF-8 encoding. This module relates the two.

use vstd::prelude::*;
use vstd::utf8::*;
use vstd::string::*;

verus! {

/// Number of bytes in the UTF-8 encoding of `c`.
pub open spec fn char_width(c: char) -> nat {
    encode_scalar(c as u32).len()
}

/// Number of bytes in the UTF-8 encoding of `s`.
pub open spec fn byte_len(s: Seq<char>) -> nat {
    encode_utf8(s).len()
}

/// The encoding of a concatenation is the concatenation of the encodings.
pub proof fn lemma_encode_concat(a: Seq<char>, b: Seq<char>)
    ensures
        encode_utf8(a + b) =~= encode_utf8(a) + encode_utf8(b),
        byte_len(a + b) == byte_len(a) + byte_len(b),
    decreases a.len(),
{
    if a.len() == 0 {
        assert(a + b =~= b);
    } else {
        assert((a + b).drop_first() =~= a.drop_first() + b);
        lemma_encode_concat(a.drop_first(), b);
    }
}

/// Number of leading characters of `s` that end at or before byte offset `p`.
pub open spec fn chars_before(s: Seq<char>, p: int) -> int
    decreases s.len(),
{
    if s.len() == 0 || p < char_width(s[0]) {
        0
    } else {
        1 + chars_before(s.drop_first(), p - char_width(s[0]))
    }
}

/// Byte offset `p` falls between two characters of `s`, or at one of its ends.
pub open spec fn is_boundary(s: Seq<char>, p: int) -> bool {
    0 <= p && byte_len(s.take(chars_before(s, p))) == p
}

/// The characters of `s` that lie before byte offset `p`.
pub open spec fn before(s: Seq<char>, p: int) -> Seq<char> {
    s.take(chars_before(s, p))
}

/// The characters of `s` that lie at or after byte offset `p`.
pub open spec fn after(s: Seq<char>, p: int) -> Seq<char> {
    s.skip(chars_before(s, p))
}

/// The characters before an offset are characters of the text, and they
/// hold no more bytes than the offset.
pub proof fn lemma_chars_before_range(s: Seq<char>, p: int)
    ensures
        0 <= chars_before(s, p) <= s.len(),
        byte_len(s.take(chars_before(s, p))) <= p || p < 0,
    decreases s.len(),
{
    if s.len() == 0 || p < char_width(s[0]) {
        assert(s.take(0) =~= Seq::<char>::empty());
    } else {
        let rest = s.drop_first();
        let j = chars_before(rest, p - char_width(s[0]));
        lemma_chars_before_range(rest, p - char_width(s[0]));
        assert(s.take(1 + j) =~= seq![s[0]] + rest.take(j));
        lemma_encode_concat(seq![s[0]], rest.take(j));
        lemma_byte_len_single(s[0]);
    }
}

/// A single character is as long as it is wide.
pub proof fn lemma_byte_len_single(c: char)
    ensures
        byte_len(seq![c]) == char_width(c),
        1 <= char_width(c) <= 4,
{
    let s = seq![c];
    assert(s.drop_first() =~= Seq::<char>::empty());
    assert(encode_utf8(s) =~= encode_scalar(c as u32) + encode_utf8(s.drop_first()));
    assert(encode_utf8(Seq::<char>::empty()) =~= Seq::<u8>::empty());
}

/// The end of a prefix of whole characters is a boundary, and the prefix is
/// recovered from its byte length.
pub proof fn lemma_prefix_boundary(s: Seq<char>, k: int)
    requires
        0 <= k <= s.len(),
    ensures
        chars_before(s, byte_len(s.take(k)) as int) == k,
        is_boundary(s, byte_len(s.take(k)) as int),
    decreases s.len(),
{
    if k == 0 {
        assert(s.take(0) =~= Seq::<char>::empty());
        if s.len() > 0 {
            lemma_byte_len_single(s[0]);
        }
    } else {
        let rest = s.drop_first();
        assert(s.take(k) =~= seq![s[0]] + rest.take(k - 1));
        lemma_encode_concat(seq![s[0]], rest.take(k - 1));
        lemma_byte_len_single(s[0]);
        lemma_prefix_boundary(rest, k - 1);
    }
}

/// `is_boundary` agrees with the character boundaries of the encoding.
pub proof fn lemma_boundary_iff(s: Seq<char>, p: int)
    ensures
        is_boundary(s, p) <==> is_char_boundary(encode_utf8(s), p),
    decreases s.len(),
{
    broadcast use encode_utf8_valid_utf8;
    let bytes = encode_utf8(s);
    assert(s.take(0) =~= Seq::<char>::empty());
    if s.len() > 0 {
        let w = char_width(s[0]) as int;
        let rest = s.drop_first();
        lemma_byte_len_single(s[0]);
        encode_utf8_first_scalar(s);
        assert(pop_first_scalar(bytes) =~= encode_utf8(rest));
        if p < w {
            // the offset falls inside the first character, or before the text
            assert(!is_char_boundary(encode_utf8(rest), p - w));
        } else {
            let j = chars_before(rest, p - w);
            lemma_chars_before_range(rest, p - w);
            assert(s.take(1 + j) =~= seq![s[0]] + rest.take(j));
            lemma_encode_concat(seq![s[0]], rest.take(j));
            lemma_boundary_iff(rest, p - w);
            if p > bytes.len() {
                assert(!is_char_boundary(encode_utf8(rest), p - w));
            }
        }
    }
}

/// A string splits at a boundary into the characters before and after it.
pub proof fn lemma_split_bytes(s: Seq<char>, p: int)
    requires
        is_boundary(s, p),
    ensures
        p <= byte_len(s),
        encode_utf8(s).subrange(0, p) =~= encode_utf8(before(s, p)),
        encode_utf8(s).subrange(p, byte_len(s) as int) =~= encode_utf8(after(s, p)),
        before(s, p) + after(s, p) =~= s,
        byte_len(before(s, p)) == p,
        byte_len(after(s, p)) == byte_len(s) - p,
{
    lemma_chars_before_range(s, p);
    let k = chars_before(s, p);
    assert(s.take(k) + s.skip(k) =~= s);
    lemma_encode_concat(s.take(k), s.skip(k));
}

/// Two strings with the same encoding are the same string.
pub proof fn lemma_encode_injective(a: Seq<char>, b: Seq<char>)
    requires
        encode_utf8(a) =~= encode_utf8(b),
    ensures
        a == b,
{
    encode_utf8_decode_utf8(a);
    encode_utf8_decode_utf8(b);
}

/// Splits a string slice at byte offset `p`, when `p` is a boundary.
pub fn split_at_byte<'a>(s: &'a str, p: usize) -> (r: Option<(&'a str, &'a str)>)
    ensures
        r is Some <==> is_boundary(s@, p as int),
        r matches Some(parts) ==> parts.0@ == before(s@, p as int) && parts.1@ == after(
            s@,
            p as int,
        ),
{
    proof {
        lemma_boundary_iff(s@, p as int);
    }
    if s.is_char_boundary(p) {
        let parts = s.split_at(p);
        proof {
            lemma_split_bytes(s@, p as int);
            lemma_encode_injective(parts.0@, before(s@, p as int));
            lemma_encode_injective(parts.1@, after(s@, p as int));
        }
        Some(parts)
    } else {
        None
    }
}

/// A prefix of whole characters grows by the width of the next character,
/// and never outgrows the text.
pub proof fn lemma_take_step(s: Seq<char>, i: int)
    requires
        0 <= i < s.len(),
    ensures
        byte_len(s.take(i + 1)) == byte_len(s.take(i)) + char_width(s[i]),
        byte_len(s.take(i + 1)) <= byte_len(s),
{
    assert(s.take(i + 1) =~= s.take(i) + seq![s[i]]);
    lemma_encode_concat(s.take(i), seq![s[i]]);
    lemma_byte_len_single(s[i]);
    assert(s.take(i + 1) + s.skip(i + 1) =~= s);
    lemma_encode_concat(s.take(i + 1), s.skip(i + 1));
}

/// Appends one character to a string.
///
/// Wraps `String::push` of the standard library, which is taken on trust:
/// afterwards the string holds its former characters followed by `c`.
#[verifier::external_body]
pub(crate) fn push_char(s: &mut String, c: char)
    ensures
        final(s)@ == old(s)@.push(c),
{
    s.push(c)
}

/// Length of a string slice in bytes.
pub fn len_of(s: &str) -> (n: usize)
    ensures
        n == byte_len(s@),
{
    s.as_bytes().len()
}

/// Number of bytes that `c` occupies in UTF-8.
pub fn width_of(c: char) -> (w: usize)
    ensures
        w == char_width(c),
        1 <= w <= 4,
{
    proof {
        char_is_scalar(c);
    }
    let u: u32 = c as u32;
    if u < 0x80 {
        1
    } else if u < 0x800 {
        2
    } else if u < 0x10000 {
        3
    } else {
        4
    }
}

/// The part of `s` between two byte offsets that end whole-character
/// prefixes of `i` and `j` characters.
pub(crate) fn slice_between<'a>(
    s: &'a str,
    from: usize,
    to: usize,
    Ghost(i): Ghost<int>,
    Ghost(j): Ghost<int>,
) -> (r: &'a str)
    requires
        0 <= i <= j <= s@.len(),
        from == byte_len(s@.take(i)),
        to == byte_len(s@.take(j)),
    ensures
        r@ == s@.subrange(i, j),
{
    proof {
        lemma_prefix_boundary(s@, j);
        lemma_boundary_iff(s@, to as int);
    }
    let head = s.split_at(to).0;
    proof {
        lemma_split_bytes(s@, to as int);
        lemma_encode_injective(head@, s@.take(j));
        assert(head@.take(i) =~= s@.take(i));
        lemma_prefix_boundary(head@, i);
        lemma_boundary_iff(head@, from as int);
    }
    let tail = head.split_at(from).1;
    proof {
        lemma_split_bytes(head@, from as int);
        lemma_encode_injective(tail@, head@.skip(i));
        assert(head@.skip(i) =~= s@.subrange(i, j));
    }
    tail
}

/// Index of the first occurrence of `c` in `s`, or the length of `s` where
/// there is none.
pub open spec fn index_of(s: Seq<char>, c: char) -> int
    decreases s.len(),
{
    if s.len() == 0 || s[0] == c {
        0
    } else {
        1 + index_of(s.drop_first(), c)
    }
}

/// `index_of` is the least index that holds `c`.
pub proof fn lemma_index_of(s: Seq<char>, c: char)
    ensures
        0 <= index_of(s, c) <= s.len(),
        index_of(s, c) < s.len() ==> s[index_of(s, c)] == c,
        forall|k: int| 0 <= k < index_of(s, c) ==> #[trigger] s[k] != c,
    decreases s.len(),
{
    if s.len() == 0 || s[0] == c {
    } else {
        lemma_index_of(s.drop_first(), c);
        assert forall|k: int| 0 <= k < index_of(s, c) implies #[trigger] s[k] != c by {
            if k > 0 {
                assert(s[k] == s.drop_first()[k - 1]);
            }
        }
    }
}

/// An index that holds `c` and has no `c` before it is `index_of`.
pub proof fn lemma_index_of_unique(s: Seq<char>, c: char, i: int)
    requires
        0 <= i <= s.len(),
        i < s.len() ==> s[i] == c,
        forall|k: int| 0 <= k < i ==> #[trigger] s[k] != c,
    ensures
        index_of(s, c) == i,
{
    lemma_index_of(s, c);
    let j = index_of(s, c);
    if j < i {
        assert(s[j] != c);
    }
}

/// Finds the first occurrence of `c` in `v`.
pub fn position(v: &Vec<char>, c: char) -> (i: usize)
    ensures
        i == index_of(v@, c),
        i <= v.len(),
{
    let mut i: usize = 0;
    while i < v.len() && v[i] != c
        invariant
            0 <= i <= v.len(),
            forall|k: int| 0 <= k < i ==> #[trigger] v@[k] != c,
        decreases v.len() - i,
    {
        i = i + 1;
    }
    proof {
        lemma_index_of_unique(v@, c, i as int);
    }
    i
}

/// Copies the characters of `v` from index `from` up to `to`.
pub(crate) fn copy_range(v: &Vec<char>, from: usize, to: usize) -> (r: Vec<char>)
    requires
        from <= to <= v.len(),
    ensures
        r@ == v@.subrange(from as int, to as int),
{
    let mut r: Vec<char> = Vec::new();
    let mut i: usize = from;
    while i < to
        invariant
            from <= i <= to <= v.len(),
            r@ == v@.subrange(from as int, i as int),
        decreases to - i,
    {
        r.push(v[i]);
        i = i + 1;
        assert(r@ =~= v@.subrange(from as int, i as int));
    }
    r
}

/// Builds a string from characters.
pub fn text_of(v: &Vec<char>) -> (r: String)
    ensures
        r@ == v@,
{
    let mut r = String::new();
    let mut i: usize = 0;
    while i < v.len()
        invariant
            0 <= i <= v.len(),
            r@ == v@.take(i as int),
        decreases v.len() - i,
    {
        push_char(&mut r, v[i]);
        i = i + 1;
        assert(r@ =~= v@.take(i as int));
    }
    assert(v@.take(v.len() as int) =~= v@);
    r
}

/// Tells whether two character vectors hold the same text.
pub fn same_chars(a: &Vec<char>, b: &Vec<char>) -> (r: bool)
    ensures
        r == (a@ == b@),
{
    if a.len() != b.len() {
        return false;
    }
    let mut i: usize = 0;
    while i < a.len()
        invariant
            a.len() == b.len(),
            0 <= i <= a.len(),
            forall|k: int| 0 <= k < i ==> a@[k] == b@[k],
        decreases a.len() - i,
    {
        if a[i] != b[i] {
            return false;
        }
        i = i + 1;
    }
    assert(a@ =~= b@);
    true
}

/// Tells whether `v` spells `lit`.
pub fn is_text(v: &Vec<char>, lit: &str) -> (r: bool)
    ensures
        r == (v@ == lit@),
{
    let l = chars_of(lit);
    same_chars(v, &l)
}

/// Copies the characters of a string slice into a vector.
pub fn chars_of(s: &str) -> (v: Vec<char>)
    ensures
        v@ == s@,
{
    let mut v: Vec<char> = Vec::new();
    for c in it: s.chars()
        invariant
            v@ == it.seq().take(it.index() as int),
            it.seq() == s@,
    {
        v.push(c);
    }
    v
}

} // verus!
