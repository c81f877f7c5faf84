//! The mathematical meaning of an expression.
//!
//! These specification functions define, over a `Seq<char>`, exactly what
//! the scanning and evaluating code computes: where a whitespace run ends,
//! where a digit run ends, what value a digit run denotes, and what a full
//! left-to-right evaluation returns — `Ok` with the folded value and the
//! final cursor position, or the precise `ParseError`.

use vstd::prelude::*;

use crate::chars::digit_val;
use crate::chars::is_digit_char;
use crate::chars::is_known_char;
use crate::chars::is_op_char;
use crate::chars::is_space_char;
use crate::tokens::arithmetic_overflow_err;
use crate::tokens::division_by_zero_err;
use crate::tokens::empty_number_err;
use crate::tokens::number_overflow_err;
use crate::tokens::unrecognized_err;
use crate::tokens::ParseError;
use crate::tokens::TokenType;

verus! {

/// Scanning at position `i` succeeds: the cursor is past the end, or the
/// character there is classifiable.
pub open spec fn scan_ok_at(s: Seq<char>, i: int) -> bool {
    i >= s.len() || is_known_char(s[i])
}

/// The kind of the token scanned at position `i` (meaningful only when
/// `scan_ok_at(s, i)`; an unclassifiable character yields `NOP`).
pub open spec fn kind_at(s: Seq<char>, i: int) -> TokenType {
    if i >= s.len() {
        TokenType::EOF
    } else if is_digit_char(s[i]) {
        TokenType::Int
    } else if is_space_char(s[i]) {
        TokenType::SPC
    } else if is_op_char(s[i]) {
        TokenType::Op
    } else {
        TokenType::NOP
    }
}

/// The first position at or after `i` that does not hold whitespace
/// (or the end of the text).
pub open spec fn skip_spaces(s: Seq<char>, i: int) -> int
    decreases s.len() - i,
{
    if 0 <= i && i < s.len() && is_space_char(s[i]) {
        skip_spaces(s, i + 1)
    } else {
        i
    }
}

/// The first position at or after `i` that does not hold a digit
/// (or the end of the text).
pub open spec fn digits_end(s: Seq<char>, i: int) -> int
    decreases s.len() - i,
{
    if 0 <= i && i < s.len() && is_digit_char(s[i]) {
        digits_end(s, i + 1)
    } else {
        i
    }
}

/// The base-10 value denoted by the characters of `s` in `[i, j)`.
pub open spec fn digits_value(s: Seq<char>, i: int, j: int) -> int
    decreases j - i,
{
    if i < j {
        digits_value(s, i, j - 1) * 10 + digit_val(s[j - 1])
    } else {
        0
    }
}

/// Truncating division (toward zero, as the `/` operator of the evaluator),
/// for a positive divisor.
pub open spec fn div_toward_zero(a: int, b: int) -> int {
    if a >= 0 {
        a / b
    } else {
        -((-a) / b)
    }
}

/// One fold step: the mathematical result of `a <op> b`.
pub open spec fn apply_op(op: char, a: int, b: int) -> int {
    if op == '+' {
        a + b
    } else if op == '-' {
        a - b
    } else if op == '*' {
        a * b
    } else {
        div_toward_zero(a, b)
    }
}

/// The result of parsing one term (optional whitespace, then one or more
/// digits) starting at position `i`: the value and the position just past
/// the digit run, or the exact error.
///
/// The unrecognized-character check at the end of the digit run comes
/// before the overflow check because consuming the final digit already
/// scans the character that follows it.
pub open spec fn term_at(s: Seq<char>, i: int) -> Result<(int, int), ParseError> {
    let j = skip_spaces(s, i);
    if j < s.len() && !is_known_char(s[j]) {
        Err(unrecognized_err(j))
    } else if j < s.len() && is_digit_char(s[j]) {
        let k = digits_end(s, j);
        let v = digits_value(s, j, k);
        if k < s.len() && !is_known_char(s[k]) {
            Err(unrecognized_err(k))
        } else if v > i32::MAX as int {
            Err(number_overflow_err(j))
        } else {
            Ok((v, k))
        }
    } else {
        Err(empty_number_err(j, kind_at(s, j)))
    }
}

/// The operator chain after an initial term: starting from position `i`
/// with accumulator `acc`, skip whitespace; if an operator follows, parse
/// the next term, fold it into the accumulator, and continue; otherwise
/// stop.  Returns the final accumulator and stop position, or the exact
/// error.
pub open spec fn chain_at(s: Seq<char>, i: int, acc: int) -> Result<(int, int), ParseError>
    decreases s.len() - i,
        via chain_at_decreases
{
    let j = skip_spaces(s, i);
    if j < s.len() && !is_known_char(s[j]) {
        Err(unrecognized_err(j))
    } else if j < s.len() && is_op_char(s[j]) {
        match term_at(s, j + 1) {
            Err(e) => Err(e),
            Ok((v, k)) => {
                if s[j] == '/' && v == 0 {
                    Err(division_by_zero_err(j))
                } else {
                    let r = apply_op(s[j], acc, v);
                    if r < i32::MIN as int || r > i32::MAX as int {
                        Err(arithmetic_overflow_err(j))
                    } else {
                        chain_at(s, k, r)
                    }
                }
            },
        }
    } else {
        Ok((acc, j))
    }
}

#[via_fn]
proof fn chain_at_decreases(s: Seq<char>, i: int, acc: int) {
    let j = skip_spaces(s, i);
    lemma_skip_spaces_bounds(s, i);
    lemma_skip_spaces_bounds(s, j + 1);
    lemma_digits_end_bounds(s, skip_spaces(s, j + 1));
}

/// A full evaluation from position `i`: an initial term, then the operator
/// chain.  `Ok` carries the final value and the stop position.
pub open spec fn expr_at(s: Seq<char>, i: int) -> Result<(int, int), ParseError> {
    match term_at(s, i) {
        Err(e) => Err(e),
        Ok((v, k)) => chain_at(s, k, v),
    }
}

/// What evaluating a whole input text returns.
pub open spec fn eval(s: Seq<char>) -> Result<i32, ParseError> {
    match expr_at(s, 0) {
        Ok((v, _)) => Ok(v as i32),
        Err(e) => Err(e),
    }
}

/// `skip_spaces` never moves backwards, never runs past the end, stops on
/// a non-space, and skips only spaces.
pub proof fn lemma_skip_spaces_bounds(s: Seq<char>, i: int)
    ensures
        i <= skip_spaces(s, i),
        i <= s.len() ==> skip_spaces(s, i) <= s.len(),
        !(0 <= skip_spaces(s, i) && skip_spaces(s, i) < s.len() && is_space_char(
            s[skip_spaces(s, i)],
        )),
        forall|q: int| i <= q < skip_spaces(s, i) ==> is_space_char(s[q]),
    decreases s.len() - i,
{
    if 0 <= i && i < s.len() && is_space_char(s[i]) {
        lemma_skip_spaces_bounds(s, i + 1);
    }
}

/// `digits_end` never moves backwards, never runs past the end, stops on a
/// non-digit, and passes only digits.
pub proof fn lemma_digits_end_bounds(s: Seq<char>, i: int)
    ensures
        i <= digits_end(s, i),
        i <= s.len() ==> digits_end(s, i) <= s.len(),
        !(0 <= digits_end(s, i) && digits_end(s, i) < s.len() && is_digit_char(
            s[digits_end(s, i)],
        )),
        forall|q: int| i <= q < digits_end(s, i) ==> is_digit_char(s[q]),
    decreases s.len() - i,
{
    if 0 <= i && i < s.len() && is_digit_char(s[i]) {
        lemma_digits_end_bounds(s, i + 1);
    }
}

/// A run of digits denotes a non-negative value.
pub proof fn lemma_digits_value_nonneg(s: Seq<char>, i: int, j: int)
    requires
        forall|q: int| i <= q < j ==> is_digit_char(s[q]),
    ensures
        0 <= digits_value(s, i, j),
    decreases j - i,
{
    if i < j {
        lemma_digits_value_nonneg(s, i, j - 1);
    }
}

/// When a term parses, its value is the value of its digit run: within the
/// `i32` range, non-negative, and the stop position lies between `i` and
/// the end of the text, with scanning there successful.
pub proof fn lemma_term_at_ok(s: Seq<char>, i: int)
    requires
        0 <= i,
        term_at(s, i) matches Ok(_),
    ensures
        term_at(s, i) matches Ok((v, k)) ==> {
            &&& 0 <= v <= i32::MAX as int
            &&& i < k <= s.len()
            &&& scan_ok_at(s, k)
        },
{
    let j = skip_spaces(s, i);
    lemma_skip_spaces_bounds(s, i);
    if j < s.len() && is_digit_char(s[j]) {
        let k = digits_end(s, j);
        lemma_digits_end_bounds(s, j);
        lemma_digits_value_nonneg(s, j, k);
    }
}

} // verus!
