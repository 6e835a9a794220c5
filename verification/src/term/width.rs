//! How many terminal columns text takes.

use unicode_width::{UnicodeWidthChar, UnicodeWidthStr};
use vstd::prelude::*;

verus! {

/// What `unicode_width::UnicodeWidthChar::width` returns for a character.
pub uninterp spec fn char_columns(c: char) -> Option<usize>;

/// What `unicode_width::UnicodeWidthStr::width` returns for a string.
pub uninterp spec fn str_columns(s: Seq<char>) -> usize;

/// Whether `c` is a printable character of ASCII.
pub open spec fn is_printable_ascii(c: char) -> bool {
    0x20 <= c as u32 <= 0x7e
}

/// Whether `c` is a control character.
pub open spec fn is_control(c: char) -> bool {
    (c as u32) < 0x20 || 0x7f <= (c as u32) < 0xa0
}

pub open spec fn all_printable_ascii(s: Seq<char>) -> bool {
    forall|i: int| 0 <= i < s.len() ==> is_printable_ascii(#[trigger] s[i])
}

/// `unicode_width::UnicodeWidthChar::width`: the number of columns that `c`
/// takes, nothing for a control character, one for a printable character of
/// ASCII. The other widths are those of the Unicode tables of that crate.
#[verifier::external_body]
fn char_width(c: char) -> (r: Option<usize>)
    ensures
        r == char_columns(c),
        is_control(c) ==> r is None,
        is_printable_ascii(c) ==> r == Some(1usize),
{
    UnicodeWidthChar::width(c)
}

/// `unicode_width::UnicodeWidthStr::width`: the number of columns that `s`
/// takes as a whole, one for each character where all are printable and of
/// ASCII. The other widths are those of the Unicode tables of that crate.
#[verifier::external_body]
fn str_width(s: &str) -> (r: usize)
    ensures
        r == str_columns(s@),
        all_printable_ascii(s@) ==> r == s@.len(),
{
    UnicodeWidthStr::width(s)
}

/// Columns that a character advances the cursor by.
pub open spec fn advance(c: char) -> nat {
    if is_printable_ascii(c) {
        1
    } else if is_control(c) {
        0
    } else {
        match char_columns(c) {
            Some(w) => w as nat,
            None => 0,
        }
    }
}

pub(crate) fn char_advance(c: char) -> (r: usize)
    ensures
        r == advance(c),
{
    match char_width(c) {
        Some(w) => w,
        None => 0,
    }
}

/// The columns that a text takes, in sixteen bits.
pub open spec fn text_columns(s: Seq<char>) -> nat {
    if all_printable_ascii(s) {
        s.len() % 65536
    } else {
        str_columns(s) as nat % 65536
    }
}

/// The low sixteen bits of the columns that `s` takes.
pub fn column_count(s: &str) -> (r: u16)
    ensures
        r == text_columns(s@),
{
    let n: usize = str_width(s);
    proof {
        assert(n as u16 == n % 65536) by (bit_vector);
    }
    n as u16
}

} // verus!
