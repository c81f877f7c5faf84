use parser_core::Context;
use parser_core::ErrorKind;
use parser_core::TokenType;

#[test]
fn test_term() {
    let mut ctx = Context::new("145+33");
    ctx.current_token = ctx.get_next_token().unwrap();
    let r = ctx.term().unwrap();

    assert_eq!(r, 145 as i32);
}

#[test]
fn test_sum() {
    let mut ctx = Context::new("145 + 33");
    let r = ctx.expr().unwrap();
    assert_eq!(r, 178 as i32);
}

#[test]
fn test_sub() {
    let mut ctx = Context::new("178 - 33");
    let r = ctx.expr().unwrap();
    assert_eq!(r, 145 as i32);
}

#[test]
fn test_div() {
    let mut ctx = Context::new("44 / 4");
    let r = ctx.expr().unwrap();
    assert_eq!(r, 11 as i32);
}

#[test]
fn test_mul() {
    let mut ctx = Context::new("145 * 33");
    let r = ctx.expr().unwrap();
    assert_eq!(r, 4785 as i32);
}

#[test]
fn test_term_stops_at_operator() {
    // The term returns the leading number and leaves the operator as the
    // current token, unconsumed.
    let mut ctx = Context::new("145+33");
    ctx.current_token = ctx.get_next_token().unwrap();
    let r = ctx.term().unwrap();
    assert_eq!(r, 145);
    assert_eq!(ctx.current_token.token_type, TokenType::Op);
    assert_eq!(ctx.current_token.value, "+");
    assert_eq!(ctx.cursor, 3);
}

#[test]
fn test_no_precedence() {
    // Strictly left to right: (2 + 3) * 4, not 2 + (3 * 4).
    let mut ctx = Context::new("2+3*4");
    assert_eq!(ctx.expr().unwrap(), 20);
}

#[test]
fn test_longer_chain() {
    // ((((10 - 4) * 3) + 2) / 5) = 4
    let mut ctx = Context::new("10 - 4 * 3 + 2 / 5");
    assert_eq!(ctx.expr().unwrap(), 4);
}

#[test]
fn test_whitespace_insensitive() {
    let mut tight = Context::new("145+33");
    let mut loose = Context::new(" 145   +   33 ");
    assert_eq!(tight.expr().unwrap(), loose.expr().unwrap());
    let mut tabs = Context::new("\t145\n+\r33 ");
    assert_eq!(tabs.expr().unwrap(), 178);
}

#[test]
fn test_unicode_whitespace() {
    // No-break space and em space carry the Unicode White_Space property.
    let mut ctx = Context::new("145\u{00A0}+\u{2003}33");
    assert_eq!(ctx.expr().unwrap(), 178);
}

#[test]
fn test_whitespace_splits_number() {
    // Whitespace inside a digit run ends the number early: only the
    // digits before the gap are evaluated, the rest is left unread.
    let mut ctx = Context::new("1 45");
    assert_eq!(ctx.expr().unwrap(), 1);
    assert_eq!(ctx.cursor, 2);
}

#[test]
fn test_single_term() {
    let mut ctx = Context::new("42");
    assert_eq!(ctx.expr().unwrap(), 42);
    let mut padded = Context::new("  42  ");
    assert_eq!(padded.expr().unwrap(), 42);
}

#[test]
fn test_division_truncates_toward_zero() {
    let mut ctx = Context::new("7 / 2");
    assert_eq!(ctx.expr().unwrap(), 3);
    // (0 - 7) / 2 truncates toward zero: -3, not -4.
    let mut neg = Context::new("0 - 7 / 2");
    assert_eq!(neg.expr().unwrap(), -3);
}

#[test]
fn test_negative_intermediate() {
    let mut ctx = Context::new("3 - 5");
    assert_eq!(ctx.expr().unwrap(), -2);
    let mut chain = Context::new("3 - 5 * 6");
    assert_eq!(chain.expr().unwrap(), -12);
}

#[test]
fn test_division_by_zero() {
    let mut ctx = Context::new("44 / 0");
    let e = ctx.expr().unwrap_err();
    assert_eq!(e.kind, ErrorKind::DivisionByZero);
    assert_eq!(e.position, 3);
}

#[test]
fn test_unrecognized_char() {
    let mut ctx = Context::new("12$3");
    let e = ctx.expr().unwrap_err();
    assert_eq!(e.kind, ErrorKind::UnrecognizedChar);
    assert_eq!(e.position, 2);
}

#[test]
fn test_leading_operator() {
    // "+5" fails at the term stage: not a single digit before the operator.
    let mut ctx = Context::new("+5");
    let e = ctx.expr().unwrap_err();
    assert_eq!(e.kind, ErrorKind::EmptyNumber);
    assert_eq!(e.position, 0);
    assert_eq!(e.expected, TokenType::Int);
    assert_eq!(e.found, TokenType::Op);
}

#[test]
fn test_empty_input() {
    let mut ctx = Context::new("");
    let e = ctx.expr().unwrap_err();
    assert_eq!(e.kind, ErrorKind::EmptyNumber);
    assert_eq!(e.position, 0);
    assert_eq!(e.found, TokenType::EOF);
}

#[test]
fn test_whitespace_only_input() {
    let mut ctx = Context::new("   ");
    let e = ctx.expr().unwrap_err();
    assert_eq!(e.kind, ErrorKind::EmptyNumber);
    assert_eq!(e.position, 3);
    assert_eq!(e.found, TokenType::EOF);
}

#[test]
fn test_number_overflow() {
    let mut max = Context::new("2147483647");
    assert_eq!(max.expr().unwrap(), 2147483647);
    let mut over = Context::new("2147483648");
    let e = over.expr().unwrap_err();
    assert_eq!(e.kind, ErrorKind::NumberOverflow);
    assert_eq!(e.position, 0);
}

#[test]
fn test_arithmetic_overflow() {
    let mut mul = Context::new("65536 * 65536");
    let e = mul.expr().unwrap_err();
    assert_eq!(e.kind, ErrorKind::ArithmeticOverflow);
    assert_eq!(e.position, 6);
    let mut sub = Context::new("0 - 2147483647 - 2");
    let e2 = sub.expr().unwrap_err();
    assert_eq!(e2.kind, ErrorKind::ArithmeticOverflow);
}

#[test]
fn test_rerun_on_same_context() {
    // Re-running on the same context is not meaningful: the cursor has
    // advanced to the end of the input.
    let mut ctx = Context::new("1+2");
    assert_eq!(ctx.expr().unwrap(), 3);
    let e = ctx.expr().unwrap_err();
    assert_eq!(e.kind, ErrorKind::EmptyNumber);
    assert_eq!(e.found, TokenType::EOF);
    // A fresh context over identical text is deterministic.
    let mut again = Context::new("1+2");
    assert_eq!(again.expr().unwrap(), 3);
}

#[test]
fn test_set_text_resets() {
    let mut ctx = Context::new("145+33");
    assert_eq!(ctx.expr().unwrap(), 178);
    ctx.set_text("44 / 4");
    assert_eq!(ctx.cursor, 0);
    assert_eq!(ctx.current_token.token_type, TokenType::NOP);
    assert_eq!(ctx.expr().unwrap(), 11);
}

#[test]
fn test_get_next_token_classifies() {
    let ctx = Context::new("7");
    let t = ctx.get_next_token().unwrap();
    assert_eq!(t.token_type, TokenType::Int);
    assert_eq!(t.value, "7");
    let end = Context::new("");
    let t2 = end.get_next_token().unwrap();
    assert_eq!(t2.token_type, TokenType::EOF);
    assert_eq!(t2.value, "EOF");
    let bad = Context::new("$");
    let e = bad.get_next_token().unwrap_err();
    assert_eq!(e.kind, ErrorKind::UnrecognizedChar);
    assert_eq!(e.position, 0);
}

#[test]
fn test_look_ahead_is_pure() {
    let mut ctx = Context::new("1+2");
    let ahead = ctx.look_ahead(1).unwrap();
    assert_eq!(ahead.token_type, TokenType::Op);
    assert_eq!(ahead.value, "+");
    assert_eq!(ctx.cursor, 0);
    // The peek left the context untouched.
    assert_eq!(ctx.expr().unwrap(), 3);
}

#[test]
fn test_eat_mismatch() {
    let mut ctx = Context::new("1");
    ctx.current_token = ctx.get_next_token().unwrap();
    let e = ctx.eat(TokenType::Op).unwrap_err();
    assert_eq!(e.kind, ErrorKind::TokenMismatch);
    assert_eq!(e.position, 0);
    assert_eq!(e.expected, TokenType::Op);
    assert_eq!(e.found, TokenType::Int);
    // The failed eat consumed nothing.
    assert_eq!(ctx.cursor, 0);
}

#[test]
fn test_eat_whitespace_stops_at_token() {
    let mut ctx = Context::new("   12");
    ctx.current_token = ctx.get_next_token().unwrap();
    ctx.eat_whitespace().unwrap();
    assert_eq!(ctx.cursor, 3);
    assert_eq!(ctx.current_token.token_type, TokenType::Int);
    assert_eq!(ctx.eat_int().unwrap(), 12);
}

#[test]
fn test_leading_zeros() {
    let mut ctx = Context::new("007 + 003");
    assert_eq!(ctx.expr().unwrap(), 10);
}

#[test]
fn test_unrecognized_beats_overflow() {
    // Consuming the last digit already scans the character after the run,
    // so the unrecognized character is reported before the oversized
    // number is.
    let mut ctx = Context::new("99999999999$");
    let e = ctx.expr().unwrap_err();
    assert_eq!(e.kind, ErrorKind::UnrecognizedChar);
    assert_eq!(e.position, 11);
}

#[test]
fn test_look_ahead_zero_is_current() {
    let ctx = Context::new("5+6");
    let t = ctx.look_ahead(0).unwrap();
    assert_eq!(t.token_type, TokenType::Int);
    assert_eq!(t.value, "5");
}

#[test]
fn test_eat_advances_and_rescans() {
    let mut ctx = Context::new("5+6");
    ctx.current_token = ctx.get_next_token().unwrap();
    ctx.eat(TokenType::Int).unwrap();
    assert_eq!(ctx.cursor, 1);
    assert_eq!(ctx.current_token.token_type, TokenType::Op);
    assert_eq!(ctx.current_token.value, "+");
}

#[test]
fn test_eat_eof() {
    // Consuming the end-of-input token just moves the cursor on; the
    // current token stays end-of-input.
    let mut ctx = Context::new("");
    ctx.current_token = ctx.get_next_token().unwrap();
    ctx.eat(TokenType::EOF).unwrap();
    assert_eq!(ctx.cursor, 1);
    assert_eq!(ctx.current_token.token_type, TokenType::EOF);
}

#[test]
fn test_trailing_operator() {
    // An operator with no term after it fails at the term stage, at the
    // end of the input.
    let mut ctx = Context::new("5+");
    let e = ctx.expr().unwrap_err();
    assert_eq!(e.kind, ErrorKind::EmptyNumber);
    assert_eq!(e.position, 2);
    assert_eq!(e.found, TokenType::EOF);
}

#[test]
fn test_overflow_in_second_term() {
    let mut ctx = Context::new("1 + 2147483648");
    let e = ctx.expr().unwrap_err();
    assert_eq!(e.kind, ErrorKind::NumberOverflow);
    assert_eq!(e.position, 4);
}
