//! The expression `Context`: a combined lexer and recursive-descent
//! evaluator over a mutable scan cursor.
//!
//! The grammar is `expr := term (op term)*`, `term := whitespace? digit+`,
//! evaluated strictly left to right with no operator precedence.  Every
//! public operation is specified against the functions of
//! [`crate::semantics`].

use vstd::arithmetic::div_mod::lemma_div_nonincreasing;
use vstd::arithmetic::div_mod::lemma_div_pos_is_pos;
use vstd::prelude::*;
use vstd::string::StrSliceExecFns;

use crate::chars::char_is_digit;
use crate::chars::char_is_op;
use crate::chars::char_is_space;
use crate::chars::digit_val;
use crate::chars::is_digit_char;
use crate::chars::is_known_char;
use crate::semantics::chain_at;
use crate::semantics::digits_end;
use crate::semantics::digits_value;
use crate::semantics::div_toward_zero;
use crate::semantics::expr_at;
use crate::semantics::kind_at;
use crate::semantics::lemma_digits_end_bounds;
use crate::semantics::lemma_digits_value_nonneg;
use crate::semantics::lemma_skip_spaces_bounds;
use crate::semantics::lemma_term_at_ok;
use crate::semantics::scan_ok_at;
use crate::semantics::skip_spaces;
use crate::semantics::term_at;
use crate::tokens::empty_number_err;
use crate::tokens::mismatch_err;
use crate::tokens::number_overflow_err;
use crate::tokens::unrecognized_err;
use crate::tokens::ErrorKind;
use crate::tokens::ParseError;
use crate::tokens::Token;
use crate::tokens::TokenType;

verus! {

/// Relies on `char::to_string`: the returned string holds exactly the one
/// character given.
#[verifier::external_body]
fn char_to_string(c: char) -> (r: String)
    ensures
        r@ == seq![c],
{
    c.to_string()
}

/// `t` is exactly the token that scanning `s` at position `i` produces:
/// its kind is `kind_at(s, i)` and its text is the matched character (for
/// digits and operators) or the fixed sentinel.
pub open spec fn token_matches_at(t: Token, s: Seq<char>, i: int) -> bool {
    &&& scan_ok_at(s, i)
    &&& t.token_type == kind_at(s, i)
    &&& (t.token_type == TokenType::Int ==> t.value@ == seq![s[i]])
    &&& (t.token_type == TokenType::Op ==> t.value@ == seq![s[i]])
    &&& (t.token_type == TokenType::SPC ==> t.value@ == "SPC"@)
    &&& (t.token_type == TokenType::EOF ==> t.value@ == "EOF"@)
}

/// A parsing context for a single expression: the input text as a
/// random-accessible character sequence, a zero-based cursor into it, and
/// the cached lookahead token of the last scan.
pub struct Context {
    pub text: Vec<char>,
    pub cursor: usize,
    pub current_token: Token,
}

impl Context {
    /// The cached `current_token` reflects the token at `cursor`: it is
    /// exactly what the last scan there produced.  Holds after every
    /// successful scan; a fresh context does not satisfy it until the
    /// first scan.
    pub open spec fn scanned(self) -> bool {
        token_matches_at(self.current_token, self.text@, self.cursor as int)
    }

    /// Create a context for a single expression; takes the expression text
    /// (or an empty string, to be replaced later with `set_text`).  Does
    /// not tokenize yet: the cursor is at zero and the current token is
    /// the `NOP` sentinel.
    pub fn new(program_text: &str) -> (ctx: Context)
        ensures
            ctx.text@ == program_text@,
            ctx.cursor == 0,
            ctx.current_token.token_type == TokenType::NOP,
            ctx.current_token.value@ == "NOP"@,
    {
        let n = program_text.unicode_len();
        let mut text: Vec<char> = Vec::new();
        let mut i: usize = 0;
        while i < n
            invariant
                i <= n,
                n == program_text@.len(),
                text@ == program_text@.subrange(0, i as int),
            decreases n - i,
        {
            text.push(program_text.get_char(i));
            proof {
                assert(program_text@.subrange(0, i + 1) =~= program_text@.subrange(
                    0,
                    i as int,
                ).push(program_text@[i as int]));
            }
            i = i + 1;
        }
        proof {
            assert(text@ =~= program_text@);
        }
        Context {
            text,
            cursor: 0,
            current_token: Token { token_type: TokenType::NOP, value: "NOP".to_owned() },
        }
    }

    /// Replace the expression text.  The cursor and the current token are
    /// reset as well, exactly as `new` leaves them, so the context behaves
    /// like a fresh parse.
    pub fn set_text(&mut self, text: &str)
        ensures
            final(self).text@ == text@,
            final(self).cursor == 0,
            final(self).current_token.token_type == TokenType::NOP,
            final(self).current_token.value@ == "NOP"@,
    {
        let fresh = Context::new(text);
        *self = fresh;
    }

    /// Scan `text` at position `pos` without consuming anything: classify
    /// the character there, or report it as unrecognized.
    fn token_at(text: &Vec<char>, pos: usize) -> (r: Result<Token, ParseError>)
        ensures
            match r {
                Ok(t) => scan_ok_at(text@, pos as int) && token_matches_at(t, text@, pos as int),
                Err(e) => !scan_ok_at(text@, pos as int) && e == unrecognized_err(pos as int),
            },
    {
        if pos >= text.len() {
            Ok(Token { token_type: TokenType::EOF, value: "EOF".to_owned() })
        } else {
            let c = text[pos];
            if char_is_digit(c) {
                Ok(Token { token_type: TokenType::Int, value: char_to_string(c) })
            } else if char_is_space(c) {
                Ok(Token { token_type: TokenType::SPC, value: "SPC".to_owned() })
            } else if char_is_op(c) {
                Ok(Token { token_type: TokenType::Op, value: char_to_string(c) })
            } else {
                Err(
                    ParseError {
                        kind: ErrorKind::UnrecognizedChar,
                        position: pos,
                        expected: TokenType::NOP,
                        found: TokenType::NOP,
                    },
                )
            }
        }
    }

    /// Classify the token at the current cursor position, without mutating
    /// any state.
    pub fn get_next_token(&self) -> (r: Result<Token, ParseError>)
        ensures
            match r {
                Ok(t) => scan_ok_at(self.text@, self.cursor as int) && token_matches_at(
                    t,
                    self.text@,
                    self.cursor as int,
                ),
                Err(e) => !scan_ok_at(self.text@, self.cursor as int) && e == unrecognized_err(
                    self.cursor as int,
                ),
            },
    {
        Self::token_at(&self.text, self.cursor)
    }

    /// A non-destructive peek at the token `by` positions ahead of the
    /// current cursor.  Pure: the cursor is not touched at all.
    pub fn look_ahead(&self, by: usize) -> (r: Result<Token, ParseError>)
        requires
            self.cursor + by <= usize::MAX,
        ensures
            match r {
                Ok(t) => scan_ok_at(self.text@, self.cursor + by) && token_matches_at(
                    t,
                    self.text@,
                    self.cursor + by,
                ),
                Err(e) => !scan_ok_at(self.text@, self.cursor + by) && e == unrecognized_err(
                    self.cursor + by,
                ),
            },
    {
        Self::token_at(&self.text, self.cursor + by)
    }

    /// Consume the current token, which must have the expected kind:
    /// advance the cursor by one and rescan into `current_token`.  On a
    /// kind mismatch, or when the rescan hits an unrecognized character,
    /// report the error and leave the context unchanged.
    pub fn eat(&mut self, expect_type: TokenType) -> (r: Result<(), ParseError>)
        requires
            old(self).cursor < usize::MAX,
        ensures
            final(self).text@ == old(self).text@,
            ({
                let s = old(self).text@;
                let i = old(self).cursor as int;
                if old(self).current_token.token_type == expect_type {
                    if scan_ok_at(s, i + 1) {
                        &&& r == Ok::<(), ParseError>(())
                        &&& final(self).cursor == i + 1
                        &&& final(self).scanned()
                    } else {
                        &&& r == Err::<(), ParseError>(unrecognized_err(i + 1))
                        &&& *final(self) == *old(self)
                    }
                } else {
                    &&& r == Err::<(), ParseError>(
                        mismatch_err(i, expect_type, old(self).current_token.token_type),
                    )
                    &&& *final(self) == *old(self)
                }
            }),
    {
        if self.current_token.token_type == expect_type {
            match Self::token_at(&self.text, self.cursor + 1) {
                Ok(t) => {
                    self.cursor = self.cursor + 1;
                    self.current_token = t;
                    Ok(())
                },
                Err(e) => Err(e),
            }
        } else {
            Err(
                ParseError {
                    kind: ErrorKind::TokenMismatch,
                    position: self.cursor,
                    expected: expect_type,
                    found: self.current_token.token_type,
                },
            )
        }
    }

    /// Consume whitespace tokens one at a time until the current token is
    /// not whitespace.  A no-op when it already is not.
    pub fn eat_whitespace(&mut self) -> (r: Result<(), ParseError>)
        requires
            old(self).scanned(),
        ensures
            final(self).text@ == old(self).text@,
            final(self).scanned(),
            ({
                let s = old(self).text@;
                let j = skip_spaces(s, old(self).cursor as int);
                match r {
                    Ok(()) => scan_ok_at(s, j) && final(self).cursor == j,
                    Err(e) => {
                        &&& !scan_ok_at(s, j)
                        &&& e == unrecognized_err(j)
                        &&& final(self).cursor == j - 1
                    },
                }
            }),
    {
        let ghost s = self.text@;
        let ghost i0 = self.cursor as int;
        proof {
            assert(self.text.len() == s.len());
        }
        while self.current_token.token_type == TokenType::SPC
            invariant
                self.scanned(),
                self.text@ == s,
                s == old(self).text@,
                i0 == old(self).cursor as int,
                s.len() <= usize::MAX,
                i0 <= self.cursor as int,
                skip_spaces(s, self.cursor as int) == skip_spaces(s, i0),
            decreases s.len() - self.cursor,
        {
            proof {
                // The current token is SPC, so the cursor is inside the text
                // on a whitespace character.
                assert(self.cursor < s.len());
            }
            let ghost c = self.cursor as int;
            match self.eat(TokenType::SPC) {
                Ok(()) => {
                    proof {
                        assert(skip_spaces(s, c) == skip_spaces(s, c + 1));
                    }
                },
                Err(e) => {
                    proof {
                        assert(!is_known_char(s[c + 1]));
                        assert(skip_spaces(s, c + 1) == c + 1);
                        assert(skip_spaces(s, c) == c + 1);
                    }
                    return Err(e);
                },
            }
        }
        proof {
            assert(skip_spaces(s, self.cursor as int) == self.cursor as int);
        }
        Ok(())
    }

    /// Consume a run of one or more digit tokens and return the `i32`
    /// value they denote.  Reports `EmptyNumber` when the current token is
    /// not a digit, `NumberOverflow` when the run denotes a value above
    /// `i32::MAX`, and `UnrecognizedChar` when the character right after
    /// the run cannot be scanned.
    pub fn eat_int(&mut self) -> (r: Result<i32, ParseError>)
        requires
            old(self).scanned(),
        ensures
            final(self).text@ == old(self).text@,
            final(self).scanned(),
            old(self).cursor <= final(self).cursor,
            ({
                let s = old(self).text@;
                let i = old(self).cursor as int;
                let k = digits_end(s, i);
                let v = digits_value(s, i, k);
                if old(self).current_token.token_type == TokenType::Int {
                    if k < s.len() && !is_known_char(s[k]) {
                        &&& r == Err::<i32, ParseError>(unrecognized_err(k))
                        &&& final(self).cursor == k - 1
                    } else if v > i32::MAX as int {
                        &&& r == Err::<i32, ParseError>(number_overflow_err(i))
                        &&& final(self).cursor == k
                    } else {
                        &&& r == Ok::<i32, ParseError>(v as i32)
                        &&& final(self).cursor == k
                    }
                } else {
                    &&& r == Err::<i32, ParseError>(
                        empty_number_err(i, old(self).current_token.token_type),
                    )
                    &&& *final(self) == *old(self)
                }
            }),
    {
        if !(self.current_token.token_type == TokenType::Int) {
            return Err(
                ParseError {
                    kind: ErrorKind::EmptyNumber,
                    position: self.cursor,
                    expected: TokenType::Int,
                    found: self.current_token.token_type,
                },
            );
        }
        let ghost s = self.text@;
        let ghost i0 = self.cursor as int;
        let start = self.cursor;
        let mut acc: u64 = 0;
        proof {
            lemma_digits_end_bounds(s, i0);
            assert(self.text.len() == s.len());
        }
        while self.current_token.token_type == TokenType::Int
            invariant
                self.scanned(),
                self.text@ == s,
                s == old(self).text@,
                i0 == old(self).cursor as int,
                old(self).current_token.token_type == TokenType::Int,
                s.len() <= usize::MAX,
                start == i0,
                i0 <= self.cursor as int <= digits_end(s, i0),
                digits_end(s, self.cursor as int) == digits_end(s, i0),
                digits_end(s, i0) <= s.len(),
                forall|q: int| i0 <= q < self.cursor as int ==> is_digit_char(s[q]),
                acc <= 21474836479u64,
                digits_value(s, i0, self.cursor as int) <= i32::MAX as int ==> acc
                    == digits_value(s, i0, self.cursor as int),
                digits_value(s, i0, self.cursor as int) > i32::MAX as int ==> acc > i32::MAX
                    as u64,
            decreases s.len() - self.cursor,
        {
            proof {
                assert(self.cursor < s.len());
                assert(is_digit_char(s[self.cursor as int]));
                lemma_digits_value_nonneg(s, i0, self.cursor as int);
            }
            let ghost c = self.cursor as int;
            let ch = self.text[self.cursor];
            let d = (ch as u32) - ('0' as u32);
            if acc <= 2147483647u64 {
                acc = acc * 10 + (d as u64);
            }
            proof {
                assert(digits_value(s, i0, c + 1) == digits_value(s, i0, c) * 10 + digit_val(
                    s[c],
                ));
            }
            match self.eat(TokenType::Int) {
                Ok(()) => {
                    proof {
                        assert(digits_end(s, c) == digits_end(s, c + 1));
                        lemma_digits_end_bounds(s, c + 1);
                    }
                },
                Err(e) => {
                    proof {
                        assert(!is_known_char(s[c + 1]));
                        assert(digits_end(s, c + 1) == c + 1);
                        assert(digits_end(s, c) == digits_end(s, c + 1));
                        assert(digits_end(s, i0) == c + 1);
                        assert(digits_value(s, i0, c + 1) == digits_value(s, i0, c) * 10
                            + digit_val(s[c]));
                    }
                    return Err(e);
                },
            }
        }
        proof {
            assert(digits_end(s, self.cursor as int) == self.cursor as int);
            lemma_digits_value_nonneg(s, i0, self.cursor as int);
        }
        if acc > 2147483647u64 {
            Err(
                ParseError {
                    kind: ErrorKind::NumberOverflow,
                    position: start,
                    expected: TokenType::NOP,
                    found: TokenType::NOP,
                },
            )
        } else {
            Ok(acc as i32)
        }
    }

    /// Parse one term: optional leading whitespace, then one or more
    /// contiguous digits, returned as an `i32`.  The token that stops the
    /// digit run (an operator, whitespace, or end of input) is left as the
    /// current token, not consumed.
    pub fn term(&mut self) -> (r: Result<i32, ParseError>)
        requires
            old(self).scanned(),
        ensures
            final(self).text@ == old(self).text@,
            final(self).scanned(),
            old(self).cursor <= final(self).cursor,
            ({
                let s = old(self).text@;
                let i = old(self).cursor as int;
                let j = skip_spaces(s, i);
                match term_at(s, i) {
                    Ok((v, k)) => r == Ok::<i32, ParseError>(v as i32) && final(self).cursor
                        == k,
                    Err(e) => {
                        &&& r == Err::<i32, ParseError>(e)
                        &&& final(self).cursor == if j < s.len() && !is_known_char(s[j]) {
                            j - 1
                        } else if j < s.len() && is_digit_char(s[j]) {
                            let k = digits_end(s, j);
                            if k < s.len() && !is_known_char(s[k]) {
                                k - 1
                            } else {
                                k
                            }
                        } else {
                            j
                        }
                    },
                }
            }),
    {
        let ghost s = self.text@;
        let ghost i = self.cursor as int;
        proof {
            lemma_skip_spaces_bounds(s, i);
        }
        match self.eat_whitespace() {
            Ok(()) => {},
            Err(e) => {
                return Err(e);
            },
        }
        proof {
            if term_at(s, i) matches Ok((v, k)) {
                lemma_term_at_ok(s, i);
            }
        }
        self.eat_int()
    }

    /// Truncating division of `a` by a positive `b`, as the `/` operator
    /// of the evaluator performs it.
    fn div_trunc(a: i32, b: i32) -> (q: i32)
        requires
            b > 0,
        ensures
            q as int == div_toward_zero(a as int, b as int),
    {
        if a >= 0 {
            proof {
                lemma_div_pos_is_pos(a as int, b as int);
                lemma_div_nonincreasing(a as int, b as int);
            }
            ((a as u64) / (b as u64)) as i32
        } else {
            let m = (-(a as i64)) as u64;
            proof {
                lemma_div_pos_is_pos(m as int, b as int);
                lemma_div_nonincreasing(m as int, b as int);
            }
            let q = m / (b as u64);
            (-(q as i64)) as i32
        }
    }

    /// Parse and evaluate the full expression from the current cursor:
    /// scan the first token, evaluate an initial term, then, while an
    /// operator follows (whitespace in between permitted), consume it,
    /// evaluate another term and fold it into the accumulator strictly
    /// left to right.  The result — or the exact error — is
    /// `semantics::expr_at` of the text and starting cursor.
    pub fn expr(&mut self) -> (r: Result<i32, ParseError>)
        ensures
            final(self).text@ == old(self).text@,
            old(self).cursor <= final(self).cursor,
            ({
                let s = old(self).text@;
                let i = old(self).cursor as int;
                match expr_at(s, i) {
                    Ok((v, e)) => {
                        &&& r == Ok::<i32, ParseError>(v as i32)
                        &&& final(self).cursor == e
                        &&& final(self).scanned()
                    },
                    Err(pe) => r == Err::<i32, ParseError>(pe),
                }
            }),
    {
        let ghost s = self.text@;
        let ghost i = self.cursor as int;
        let t = match self.get_next_token() {
            Ok(t) => t,
            Err(e) => {
                proof {
                    lemma_skip_spaces_bounds(s, i);
                    assert(skip_spaces(s, i) == i);
                }
                return Err(e);
            },
        };
        self.current_token = t;
        let mut r: i32 = match self.term() {
            Ok(v) => v,
            Err(e) => {
                return Err(e);
            },
        };
        proof {
            lemma_term_at_ok(s, i);
            assert(self.text.len() == s.len());
        }
        loop
            invariant
                self.scanned(),
                self.text@ == s,
                s == old(self).text@,
                i == old(self).cursor as int,
                s.len() <= usize::MAX,
                i <= self.cursor as int <= s.len(),
                chain_at(s, self.cursor as int, r as int) == expr_at(s, i),
            decreases s.len() - self.cursor,
        {
            let ghost c = self.cursor as int;
            proof {
                lemma_skip_spaces_bounds(s, c);
            }
            match self.eat_whitespace() {
                Ok(()) => {},
                Err(e) => {
                    return Err(e);
                },
            }
            if self.current_token.token_type == TokenType::Op {
                let ghost j = self.cursor as int;
                let opc = self.text[self.cursor];
                let oppos = self.cursor;
                match self.eat(TokenType::Op) {
                    Ok(()) => {},
                    Err(e) => {
                        proof {
                            lemma_skip_spaces_bounds(s, j + 1);
                            assert(skip_spaces(s, j + 1) == j + 1);
                        }
                        return Err(e);
                    },
                }
                let v: i32 = match self.term() {
                    Ok(v) => v,
                    Err(e) => {
                        return Err(e);
                    },
                };
                proof {
                    lemma_term_at_ok(s, j + 1);
                }
                if opc == '/' {
                    if v == 0 {
                        return Err(
                            ParseError {
                                kind: ErrorKind::DivisionByZero,
                                position: oppos,
                                expected: TokenType::NOP,
                                found: TokenType::NOP,
                            },
                        );
                    }
                    proof {
                        // Truncating division by a positive divisor cannot
                        // leave the i32 range.
                        if r >= 0 {
                            lemma_div_pos_is_pos(r as int, v as int);
                            lemma_div_nonincreasing(r as int, v as int);
                        } else {
                            lemma_div_pos_is_pos(-(r as int), v as int);
                            lemma_div_nonincreasing(-(r as int), v as int);
                        }
                    }
                    r = Self::div_trunc(r, v);
                } else {
                    proof {
                        assert((i32::MIN as int) * (i32::MAX as int) <= (r as int) * (v as int)
                            <= (i32::MIN as int) * (i32::MIN as int)) by (nonlinear_arith)
                            requires
                                i32::MIN as int <= r as int <= i32::MAX as int,
                                0 <= v as int <= i32::MAX as int,
                        ;
                    }
                    let wide: i64 = if opc == '+' {
                        r as i64 + v as i64
                    } else if opc == '-' {
                        r as i64 - v as i64
                    } else {
                        (r as i64) * (v as i64)
                    };
                    if wide > i32::MAX as i64 || wide < i32::MIN as i64 {
                        return Err(
                            ParseError {
                                kind: ErrorKind::ArithmeticOverflow,
                                position: oppos,
                                expected: TokenType::NOP,
                                found: TokenType::NOP,
                            },
                        );
                    }
                    r = wide as i32;
                }
            } else {
                return Ok(r);
            }
        }
    }
}

} // verus!
