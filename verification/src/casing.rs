//! Letter case: the ASCII mapping is computed here; text with other
//! characters is handed to the standard library.

use vstd::prelude::*;
use crate::text::{chars_of, string_of};

verus! {

/// What `str::to_lowercase` returns for the text `s`.
pub uninterp spec fn unicode_lowercase(s: Seq<char>) -> Seq<char>;

/// What `str::to_uppercase` returns for the text `s`.
pub uninterp spec fn unicode_uppercase(s: Seq<char>) -> Seq<char>;

/// `str::to_lowercase` computes its result from the text alone; the result
/// goes by the name [`unicode_lowercase`].
pub assume_specification[ str::to_lowercase ](s: &str) -> (r: String)
    ensures
        r@ == unicode_lowercase(s@),
;

/// `str::to_uppercase` computes its result from the text alone; the result
/// goes by the name [`unicode_uppercase`].
pub assume_specification[ str::to_uppercase ](s: &str) -> (r: String)
    ensures
        r@ == unicode_uppercase(s@),
;

/// The lower-case form of an ASCII character.
pub open spec fn ascii_lower(c: char) -> char {
    if 'A' <= c <= 'Z' {
        ((c as u8 + 32) as u8) as char
    } else {
        c
    }
}

/// Computes [`ascii_lower`].
pub fn to_ascii_lower(c: char) -> (r: char)
    ensures
        r == ascii_lower(c),
{
    if 'A' <= c && c <= 'Z' {
        ((c as u8) + 32) as char
    } else {
        c
    }
}

/// The upper-case form of an ASCII character.
pub open spec fn ascii_upper(c: char) -> char {
    if 'a' <= c <= 'z' {
        ((c as u8 - 32) as u8) as char
    } else {
        c
    }
}

/// Computes [`ascii_upper`].
pub fn to_ascii_upper(c: char) -> (r: char)
    ensures
        r == ascii_upper(c),
{
    if 'a' <= c && c <= 'z' {
        ((c as u8) - 32) as char
    } else {
        c
    }
}

/// Every character of `s` is an ASCII character.
pub open spec fn is_ascii(s: Seq<char>) -> bool {
    forall|i: int| 0 <= i < s.len() ==> #[trigger] s[i] <= '\u{7f}'
}

/// The lower-case form of a text. ASCII text is mapped letter by letter;
/// any other text has the form that the standard library gives it.
pub open spec fn lowercase(s: Seq<char>) -> Seq<char> {
    if is_ascii(s) {
        Seq::new(s.len(), |i: int| ascii_lower(s[i]))
    } else {
        unicode_lowercase(s)
    }
}

/// The upper-case form of a text. ASCII text is mapped letter by letter;
/// any other text has the form that the standard library gives it.
pub open spec fn uppercase(s: Seq<char>) -> Seq<char> {
    if is_ascii(s) {
        Seq::new(s.len(), |i: int| ascii_upper(s[i]))
    } else {
        unicode_uppercase(s)
    }
}

/// Decides [`is_ascii`].
pub fn chars_are_ascii(s: &Vec<char>) -> (r: bool)
    ensures
        r == is_ascii(s@),
{
    let mut i: usize = 0;
    while i < s.len()
        invariant
            i <= s.len(),
            forall|j: int| 0 <= j < i ==> #[trigger] s@[j] <= '\u{7f}',
        decreases s.len() - i,
    {
        if s[i] > '\u{7f}' {
            return false;
        }
        i += 1;
    }
    true
}

/// Computes [`lowercase`].
pub fn lowercase_chars(s: &Vec<char>) -> (r: Vec<char>)
    ensures
        r@ == lowercase(s@),
{
    if chars_are_ascii(s) {
        let mut out: Vec<char> = Vec::new();
        let mut i: usize = 0;
        while i < s.len()
            invariant
                i <= s.len(),
                out.len() == i,
                forall|j: int| 0 <= j < i ==> out@[j] == ascii_lower(s@[j]),
            decreases s.len() - i,
        {
            out.push(to_ascii_lower(s[i]));
            i += 1;
        }
        assert(out@ =~= lowercase(s@));
        out
    } else {
        let text = string_of(s);
        let lowered = text.as_str().to_lowercase();
        chars_of(lowered.as_str())
    }
}

/// Computes [`uppercase`].
pub fn uppercase_chars(s: &Vec<char>) -> (r: Vec<char>)
    ensures
        r@ == uppercase(s@),
{
    if chars_are_ascii(s) {
        let mut out: Vec<char> = Vec::new();
        let mut i: usize = 0;
        while i < s.len()
            invariant
                i <= s.len(),
                out.len() == i,
                forall|j: int| 0 <= j < i ==> out@[j] == ascii_upper(s@[j]),
            decreases s.len() - i,
        {
            out.push(to_ascii_upper(s[i]));
            i += 1;
        }
        assert(out@ =~= uppercase(s@));
        out
    } else {
        let text = string_of(s);
        let raised = text.as_str().to_uppercase();
        chars_of(raised.as_str())
    }
}

} // verus!
