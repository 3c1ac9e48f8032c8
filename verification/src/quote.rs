//! Open quotes: whether a command line ends inside a quoted part.

use vstd::prelude::*;
use crate::text::chars_of;

verus! {

/// What a left-to-right scan remembers between characters.
pub ghost struct QuoteScan {
    pub single_open: bool,
    pub double_open: bool,
    pub escape: bool,
}

/// The scan after one more character. A quote character opens or closes its
/// kind unless the other kind is open or the character is escaped; a
/// backslash toggles the escape flag, and any other character clears it.
pub open spec fn quote_step(st: QuoteScan, c: char) -> QuoteScan {
    if c == '\'' {
        QuoteScan {
            single_open: if !st.double_open && !st.escape {
                !st.single_open
            } else {
                st.single_open
            },
            double_open: st.double_open,
            escape: false,
        }
    } else if c == '"' {
        QuoteScan {
            single_open: st.single_open,
            double_open: if !st.single_open && !st.escape {
                !st.double_open
            } else {
                st.double_open
            },
            escape: false,
        }
    } else if c == '\\' {
        QuoteScan { single_open: st.single_open, double_open: st.double_open, escape: !st.escape }
    } else {
        QuoteScan { single_open: st.single_open, double_open: st.double_open, escape: false }
    }
}

/// The scan after all of `s`.
pub open spec fn quote_scan(s: Seq<char>) -> QuoteScan
    decreases s.len(),
{
    if s.len() == 0 {
        QuoteScan { single_open: false, double_open: false, escape: false }
    } else {
        quote_step(quote_scan(s.drop_last()), s.last())
    }
}

/// The quote character that is still open at the end of `s`, if any.
pub open spec fn open_quote(s: Seq<char>) -> Option<char> {
    let st = quote_scan(s);
    if st.single_open {
        Some('\'')
    } else if st.double_open {
        Some('"')
    } else {
        None
    }
}

/// At most one kind of quote is open at any time.
pub proof fn lemma_one_quote_open(s: Seq<char>)
    ensures
        !(quote_scan(s).single_open && quote_scan(s).double_open),
    decreases s.len(),
{
    if s.len() > 0 {
        lemma_one_quote_open(s.drop_last());
    }
}

/// Tells whether `s` ends inside single or double quotes.
pub fn has_open_quote(s: &str) -> (r: Option<char>)
    ensures
        r == open_quote(s@),
{
    let chars = chars_of(s);
    let n = chars.len();
    let mut single_quote_open = false;
    let mut double_quote_open = false;
    let mut escape = false;
    let mut i: usize = 0;
    while i < n
        invariant
            chars@ == s@,
            n == chars.len(),
            0 <= i <= n,
            quote_scan(s@.take(i as int)) == (QuoteScan {
                single_open: single_quote_open,
                double_open: double_quote_open,
                escape,
            }),
        decreases n - i,
    {
        let c = chars[i];
        proof {
            assert(s@.take(i + 1).drop_last() =~= s@.take(i as int));
        }
        if c == '\'' {
            if !double_quote_open && !escape {
                single_quote_open = !single_quote_open;
            }
            escape = false;
        } else if c == '"' {
            if !single_quote_open && !escape {
                double_quote_open = !double_quote_open;
            }
            escape = false;
        } else if c == '\\' {
            escape = !escape;
        } else {
            escape = false;
        }
        i = i + 1;
    }
    assert(s@.take(n as int) =~= s@);
    if single_quote_open {
        Some('\'')
    } else if double_quote_open {
        Some('"')
    } else {
        None
    }
}

} // verus!
