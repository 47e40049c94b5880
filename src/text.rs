//! Character-level helpers shared by the configuration checks, the record
//! reader and the CSV writer.

use vstd::prelude::*;

verus! {

/// Whether a character has Unicode's White_Space property.
pub uninterp spec fn is_white_space(c: char) -> bool;

/// Relies on `char::is_whitespace`, which tests Unicode's White_Space property.
#[verifier::external_body]
fn white_space(c: char) -> (r: bool)
    ensures
        r == is_white_space(c),
{
    c.is_whitespace()
}

/// A text is blank when every character in it is white space (the empty text
/// included); trimming such a text leaves nothing.
pub open spec fn is_blank(s: Seq<char>) -> bool {
    forall|i: int| 0 <= i < s.len() ==> is_white_space(#[trigger] s[i])
}

/// Tests whether `s` is blank.
pub fn blank(s: &str) -> (r: bool)
    ensures
        r == is_blank(s@),
{
    let n = s.unicode_len();
    let mut i: usize = 0;
    while i < n
        invariant
            n == s@.len(),
            i <= n,
            forall|j: int| 0 <= j < i ==> is_white_space(#[trigger] s@[j]),
        decreases n - i,
    {
        if !white_space(s.get_char(i)) {
            return false;
        }
        i = i + 1;
    }
    true
}

/// Whether `c` is one of the ASCII digits `0` to `9`.
pub open spec fn is_digit(c: char) -> bool {
    '0' <= c && c <= '9'
}

/// The value of a digit character.
pub open spec fn digit_value(c: char) -> nat {
    ((c as u32) - ('0' as u32)) as nat
}

/// The value of a non-empty run of digits read as a decimal number.
pub open spec fn digits_value(s: Seq<char>) -> nat
    decreases s.len(),
{
    if s.len() == 0 {
        0
    } else {
        digits_value(s.drop_last()) * 10 + digit_value(s.last())
    }
}

/// Whether `s` is non-empty and made of digits only.
pub open spec fn all_digits(s: Seq<char>) -> bool {
    s.len() > 0 && forall|i: int| 0 <= i < s.len() ==> is_digit(#[trigger] s[i])
}

/// The unsigned decimal number that `s` spells, if it spells one: an optional
/// `+` followed by one or more digits, and nothing else.
pub open spec fn decimal_value(s: Seq<char>) -> Option<nat> {
    let d = if s.len() > 0 && s[0] == '+' { s.drop_first() } else { s };
    if all_digits(d) {
        Some(digits_value(d))
    } else {
        None
    }
}

/// The number that `s` spells, where it fits in a `u64`.
pub open spec fn u64_value(s: Seq<char>) -> Option<u64> {
    match decimal_value(s) {
        Some(v) => if v <= u64::MAX { Some(v as u64) } else { None },
        None => None,
    }
}

/// The number that `s` spells, where it fits in a `usize`.
pub open spec fn usize_value(s: Seq<char>) -> Option<usize> {
    match decimal_value(s) {
        Some(v) => if v <= usize::MAX { Some(v as usize) } else { None },
        None => None,
    }
}

/// Relies on `u64::from_str`: an optional `+` and decimal digits, refused on
/// any other character, on an empty text and on overflow.
#[verifier::external_body]
pub(crate) fn parse_u64(s: &str) -> (r: Option<u64>)
    ensures
        r == u64_value(s@),
{
    s.parse::<u64>().ok()
}

/// Relies on `usize::from_str`: an optional `+` and decimal digits, refused on
/// any other character, on an empty text and on overflow.
#[verifier::external_body]
pub(crate) fn parse_usize(s: &str) -> (r: Option<usize>)
    ensures
        r == usize_value(s@),
{
    s.parse::<usize>().ok()
}

/// The digit character for a value below ten.
pub open spec fn digit_char(d: nat) -> char {
    (('0' as u32) + d) as char
}

/// The shortest decimal spelling of `n`, without sign or leading zeros.
pub open spec fn decimal_text(n: nat) -> Seq<char>
    decreases n,
{
    if n < 10 {
        seq![digit_char(n)]
    } else {
        decimal_text(n / 10).push(digit_char(n % 10))
    }
}

/// Relies on `u64::to_string`: the decimal spelling of the number.
#[verifier::external_body]
pub(crate) fn u64_text(n: u64) -> (r: String)
    ensures
        r@ == decimal_text(n as nat),
{
    n.to_string()
}

/// Whether `s` is exactly the four letters `none`.
pub open spec fn is_none_word(s: Seq<char>) -> bool {
    s == seq!['n', 'o', 'n', 'e']
}

/// Tests whether `s` is exactly the word `none`.
pub fn none_word(s: &str) -> (r: bool)
    ensures
        r == is_none_word(s@),
{
    let n = s.unicode_len();
    if n != 4 {
        proof {
            if is_none_word(s@) {
                assert(s@.len() == 4);
            }
        }
        return false;
    }
    let r = s.get_char(0) == 'n' && s.get_char(1) == 'o' && s.get_char(2) == 'n' && s.get_char(
        3,
    ) == 'e';
    proof {
        if r {
            assert(s@ =~= seq!['n', 'o', 'n', 'e']);
        }
    }
    r
}


/// Tests whether two texts are the same, character for character.
pub fn same_text(a: &str, b: &str) -> (r: bool)
    ensures
        r == (a@ == b@),
{
    let n = a.unicode_len();
    if n != b.unicode_len() {
        return false;
    }
    let mut i: usize = 0;
    while i < n
        invariant
            n == a@.len(),
            n == b@.len(),
            i <= n,
            forall|j: int| 0 <= j < i ==> a@[j] == b@[j],
        decreases n - i,
    {
        if a.get_char(i) != b.get_char(i) {
            return false;
        }
        i = i + 1;
    }
    assert(a@ =~= b@);
    true
}

} // verus!
