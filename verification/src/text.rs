//! What the operations ask of a text field: that it is not blank, and that
//! its UTF-8 encoding fits a limit.

use vstd::prelude::*;
use vstd::utf8::encode_utf8;
use crate::constants::MIN_STRING_LENGTH;

verus! {

/// Whether `c` has the Unicode property White_Space.
pub open spec fn white_space(c: char) -> bool {
    let n = c as u32;
    ||| 0x0009 <= n <= 0x000D
    ||| n == 0x0020
    ||| n == 0x0085
    ||| n == 0x00A0
    ||| n == 0x1680
    ||| 0x2000 <= n <= 0x200A
    ||| n == 0x2028
    ||| n == 0x2029
    ||| n == 0x202F
    ||| n == 0x205F
    ||| n == 0x3000
}

/// Whether nothing is left of `s` once white space is trimmed from both ends:
/// every character of it is white space.
pub open spec fn blank(s: Seq<char>) -> bool {
    forall|i: int| 0 <= i < s.len() ==> white_space(#[trigger] s[i])
}

/// The length of `s` in bytes, as UTF-8.
pub open spec fn utf8_len(s: Seq<char>) -> nat {
    encode_utf8(s).len()
}

/// Whether a field holding `s` counts as empty.
pub open spec fn empty_field(s: Seq<char>) -> bool {
    blank(s) || utf8_len(s) < MIN_STRING_LENGTH
}

/// Whether a field holding `s` is longer than `max` bytes.
pub open spec fn oversized_field(s: Seq<char>, max: usize) -> bool {
    utf8_len(s) > max
}

/// Whether `c` is white space.
pub fn is_white_space(c: char) -> (r: bool)
    ensures
        r == white_space(c),
{
    let n: u32 = c as u32;
    (0x0009 <= n && n <= 0x000D) || n == 0x0020 || n == 0x0085 || n == 0x00A0 || n == 0x1680 || (
    0x2000 <= n && n <= 0x200A) || n == 0x2028 || n == 0x2029 || n == 0x202F || n == 0x205F || n
        == 0x3000
}

/// Whether `s` is empty once white space is trimmed from both ends.
pub fn is_blank(s: &str) -> (r: bool)
    ensures
        r == blank(s@),
{
    broadcast use vstd::string::axiom_spec_iter;

    let mut all = true;
    for c in it: s.chars()
        invariant
            it.seq() == s@,
            all == blank(s@.take(it.index())),
    {
        assert(s@.take(it.index() + 1).drop_last() == s@.take(it.index()));
        assert(s@.take(it.index() + 1).last() == c);
        if !is_white_space(c) {
            all = false;
        }
    }
    assert(s@.take(s@.len() as int) == s@);
    all
}

/// The length of `s` in bytes.
pub fn byte_len(s: &str) -> (n: usize)
    ensures
        n == utf8_len(s@),
{
    broadcast use vstd::slice::axiom_spec_len;

    s.as_bytes().len()
}

/// Whether a field holding `s` counts as empty.
pub fn is_empty_field(s: &str) -> (r: bool)
    ensures
        r == empty_field(s@),
{
    is_blank(s) || byte_len(s) < MIN_STRING_LENGTH
}

/// Whether a field holding `s` is longer than `max` bytes.
pub fn is_oversized_field(s: &str, max: usize) -> (r: bool)
    ensures
        r == oversized_field(s@, max),
{
    byte_len(s) > max
}

} // verus!
