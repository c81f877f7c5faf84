//! Character classification.
//!
//! The tokenizer distinguishes decimal digits, whitespace (any character
//! with the Unicode `White_Space` property), and the four operator
//! characters.  Everything else is unrecognized and fatal to a parse.

use vstd::prelude::*;

verus! {

/// `c` is a decimal digit `0` through `9`.
pub open spec fn is_digit_char(c: char) -> bool {
    '0' as u32 <= c as u32 && c as u32 <= '9' as u32
}

/// The numeric value of a digit character.
pub open spec fn digit_val(c: char) -> int {
    c as u32 - '0' as u32
}

/// `c` has the Unicode `White_Space` property.
pub open spec fn is_space_char(c: char) -> bool {
    let u = c as u32;
    (0x09 <= u && u <= 0x0D) || u == 0x20 || u == 0x85 || u == 0xA0 || u == 0x1680 || (0x2000
        <= u && u <= 0x200A) || u == 0x2028 || u == 0x2029 || u == 0x202F || u == 0x205F || u
        == 0x3000
}

/// `c` is one of the four binary operators.
pub open spec fn is_op_char(c: char) -> bool {
    c == '+' || c == '-' || c == '/' || c == '*'
}

/// `c` can be classified at all; anything else is a fatal parse error.
pub open spec fn is_known_char(c: char) -> bool {
    is_digit_char(c) || is_space_char(c) || is_op_char(c)
}

/// Decides `is_digit_char`.
pub fn char_is_digit(c: char) -> (r: bool)
    ensures
        r == is_digit_char(c),
{
    let u = c as u32;
    '0' as u32 <= u && u <= '9' as u32
}

/// Decides `is_space_char`.
pub fn char_is_space(c: char) -> (r: bool)
    ensures
        r == is_space_char(c),
{
    let u = c as u32;
    (0x09 <= u && u <= 0x0D) || u == 0x20 || u == 0x85 || u == 0xA0 || u == 0x1680 || (0x2000
        <= u && u <= 0x200A) || u == 0x2028 || u == 0x2029 || u == 0x202F || u == 0x205F || u
        == 0x3000
}

/// Decides `is_op_char`.
pub fn char_is_op(c: char) -> (r: bool)
    ensures
        r == is_op_char(c),
{
    c == '+' || c == '-' || c == '/' || c == '*'
}

} // verus!
