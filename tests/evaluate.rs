use simple_interpreter::error::EvalError;
use simple_interpreter::interpreter::{evaluate, Interpreter};
use simple_interpreter::token::{Token, TokenKind, TokenType};

fn run(text: &str) -> Result<i32, EvalError> {
    let mut interpreter = Interpreter::new(text.to_string());
    interpreter.expr()
}

#[test]
fn sum_of_two_literals() {
    assert_eq!(run("3 + 5"), Ok(8));
    assert_eq!(run("12 + 30"), Ok(42));
    assert_eq!(run("0 + 0"), Ok(0));
}

#[test]
fn difference_of_two_literals() {
    assert_eq!(run("10 - 4"), Ok(6));
    assert_eq!(run("3 - 5"), Ok(-2));
}

#[test]
fn multi_digit_literal_is_one_token() {
    assert_eq!(run("12+3"), Ok(15));
    assert_eq!(run("100-1"), Ok(99));
}

#[test]
fn whitespace_between_tokens_is_ignored() {
    assert_eq!(run("3+5"), Ok(8));
    assert_eq!(run("3 + 5"), Ok(8));
    assert_eq!(run(" 3  +  5 "), Ok(8));
}

#[test]
fn chain_is_left_to_right() {
    assert_eq!(run("10-2+3"), Ok(11));
    assert_eq!(run("1 - 2 - 3"), Ok(-4));
    assert_eq!(run("1+2+3+4"), Ok(10));
}

#[test]
fn invalid_character_is_reported_with_offset() {
    assert_eq!(
        run("3*5"),
        Err(EvalError::InvalidCharacter { character: '*', position: 1 })
    );
    assert_eq!(
        run("  7 / 2"),
        Err(EvalError::InvalidCharacter { character: '/', position: 4 })
    );
}

#[test]
fn non_ascii_byte_is_invalid() {
    assert_eq!(
        run("3\u{e9}"),
        Err(EvalError::InvalidCharacter { character: 0xc3u8 as char, position: 1 })
    );
}

#[test]
fn leading_operator_is_a_syntax_error() {
    assert_eq!(
        run("+5"),
        Err(EvalError::SyntaxError { expected: TokenKind::Integer, found: TokenType::Plus })
    );
    assert_eq!(
        run("-5"),
        Err(EvalError::SyntaxError { expected: TokenKind::Integer, found: TokenType::Minus })
    );
}

#[test]
fn trailing_operator_is_a_syntax_error() {
    assert_eq!(
        run("5+"),
        Err(EvalError::SyntaxError { expected: TokenKind::Integer, found: TokenType::EOF })
    );
}

#[test]
fn empty_and_blank_texts_are_syntax_errors() {
    let expected = Err(EvalError::SyntaxError { expected: TokenKind::Integer, found: TokenType::EOF });
    assert_eq!(run(""), expected);
    assert_eq!(run("   "), expected);
}

#[test]
fn two_operators_in_a_row_are_a_syntax_error() {
    assert_eq!(
        run("5 + - 3"),
        Err(EvalError::SyntaxError { expected: TokenKind::Integer, found: TokenType::Minus })
    );
}

#[test]
fn missing_operator_is_a_syntax_error() {
    assert_eq!(
        run("5 5"),
        Err(EvalError::SyntaxError { expected: TokenKind::EOF, found: TokenType::Integer(5) })
    );
}

#[test]
fn syntax_error_comes_before_a_later_invalid_character() {
    assert_eq!(
        run("+*"),
        Err(EvalError::SyntaxError { expected: TokenKind::Integer, found: TokenType::Plus })
    );
}

#[test]
fn lone_literal_is_its_value() {
    assert_eq!(run("5"), Ok(5));
    assert_eq!(run(" 42 "), Ok(42));
    assert_eq!(run("007"), Ok(7));
}

#[test]
fn independent_evaluations_agree() {
    let text = "10-2+3";
    let first = run(text);
    let second = run(text);
    assert_eq!(first, second);
    assert_eq!(evaluate(text), first);
}

#[test]
fn same_interpreter_evaluated_twice_agrees() {
    let mut interpreter = Interpreter::new("7 - 9 + 4".to_string());
    assert_eq!(interpreter.expr(), Ok(2));
    assert_eq!(interpreter.expr(), Ok(2));
}

#[test]
fn largest_literal_is_accepted() {
    assert_eq!(run("2147483647"), Ok(i32::MAX));
}

#[test]
fn literal_past_i32_overflows() {
    assert_eq!(run("2147483648"), Err(EvalError::IntegerOverflow));
    assert_eq!(run("1 + 99999999999999999999"), Err(EvalError::IntegerOverflow));
}

#[test]
fn result_past_i32_overflows() {
    assert_eq!(run("2147483647 + 1"), Err(EvalError::IntegerOverflow));
    assert_eq!(run("0 - 2147483647 - 1"), Ok(i32::MIN));
    assert_eq!(run("0 - 2147483647 - 2"), Err(EvalError::IntegerOverflow));
}

#[test]
fn evaluate_matches_interpreter() {
    assert_eq!(evaluate("3 + 5"), Ok(8));
    assert_eq!(evaluate("3*5"), run("3*5"));
}

#[test]
fn token_kind_drops_the_value() {
    assert_eq!(TokenType::Integer(3).kind(), TokenKind::Integer);
    assert_eq!(TokenType::Plus.kind(), TokenKind::Plus);
    assert_eq!(TokenType::Minus.kind(), TokenKind::Minus);
    assert_eq!(TokenType::EOF.kind(), TokenKind::EOF);
    let token = Token { token_type: TokenType::Integer(3) };
    assert_eq!(token.token_type.kind(), TokenKind::Integer);
}

#[test]
fn token_type_text() {
    assert_eq!(TokenType::Integer(12).describe(), "Integer, 12");
    assert_eq!(TokenType::Integer(0).describe(), "Integer, 0");
    assert_eq!(TokenType::Integer(-42).describe(), "Integer, -42");
    assert_eq!(TokenType::Integer(i32::MIN).describe(), "Integer, -2147483648");
    assert_eq!(TokenType::Integer(i32::MAX).describe(), "Integer, 2147483647");
    assert_eq!(TokenType::Plus.describe(), "Plus");
    assert_eq!(TokenType::Minus.describe(), "Minus");
    assert_eq!(TokenType::EOF.describe(), "EOF");
}

#[test]
fn token_text() {
    assert_eq!(Token { token_type: TokenType::Integer(305) }.describe(), "Token(Integer, 305)");
    assert_eq!(Token { token_type: TokenType::EOF }.describe(), "Token(EOF)");
}

#[test]
fn invalid_first_character_is_at_offset_zero() {
    assert_eq!(
        run("*3"),
        Err(EvalError::InvalidCharacter { character: '*', position: 0 })
    );
}

#[test]
fn newline_is_not_whitespace() {
    assert_eq!(
        run("3+5\n"),
        Err(EvalError::InvalidCharacter { character: '\n', position: 3 })
    );
}

#[test]
fn cloned_interpreter_evaluates_alike() {
    let mut interpreter = Interpreter::new("12+3".to_string());
    let mut copy = interpreter.clone();
    assert_eq!(interpreter.expr(), Ok(15));
    assert_eq!(copy.expr(), Ok(15));
}

#[test]
fn overflowing_literal_after_spaces() {
    assert_eq!(run("1 +   3000000000"), Err(EvalError::IntegerOverflow));
}
