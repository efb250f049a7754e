//! The meaning of a text, as spec functions over its bytes: what the lexer
//! reads at a given offset, and what an evaluation returns.
use vstd::prelude::*;
use crate::error::EvalError;
use crate::token::{TokenKind, TokenType};

verus! {

/// The bytes that the lexer tells apart (ASCII).
pub const DIGIT_ZERO: u8 = 48;
pub const DIGIT_NINE: u8 = 57;
pub const SPACE: u8 = 32;
pub const PLUS_SIGN: u8 = 43;
pub const MINUS_SIGN: u8 = 45;

pub open spec fn is_digit_byte(b: u8) -> bool {
    DIGIT_ZERO <= b && b <= DIGIT_NINE
}

/// The bytes that may stand in a text: digits, spaces, `+` and `-`.
pub open spec fn is_valid_byte(b: u8) -> bool {
    is_digit_byte(b) || b == SPACE || b == PLUS_SIGN || b == MINUS_SIGN
}

/// The first offset at or after `i` that does not hold a space.
pub open spec fn skip_spaces(s: Seq<u8>, i: int) -> int
    decreases s.len() - i,
{
    if 0 <= i < s.len() && s[i] == SPACE {
        skip_spaces(s, i + 1)
    } else {
        i
    }
}

/// The end of the run of digits that starts at `i`.
pub open spec fn digit_run_end(s: Seq<u8>, i: int) -> int
    decreases s.len() - i,
{
    if 0 <= i < s.len() && is_digit_byte(s[i]) {
        digit_run_end(s, i + 1)
    } else {
        i
    }
}

/// The base-10 value of the digits `s[i..j]`.
pub open spec fn digits_value(s: Seq<u8>, i: int, j: int) -> int
    decreases j - i,
{
    if j <= i {
        0
    } else {
        digits_value(s, i, j - 1) * 10 + (s[j - 1] - DIGIT_ZERO)
    }
}

/// The token that the lexer reads from offset `pos`, with the offset just
/// after it; or the error it fails with. Spaces before the token are
/// skipped; at the end of the text it reads `EOF` and stays there.
pub open spec fn lex_at(s: Seq<u8>, pos: int) -> Result<(TokenType, int), EvalError> {
    let i = skip_spaces(s, pos);
    if i >= s.len() {
        Ok((TokenType::EOF, i))
    } else if is_digit_byte(s[i]) {
        let j = digit_run_end(s, i);
        let v = digits_value(s, i, j);
        if v <= i32::MAX {
            Ok((TokenType::Integer(v as i32), j))
        } else {
            Err(EvalError::IntegerOverflow)
        }
    } else if s[i] == PLUS_SIGN {
        Ok((TokenType::Plus, i + 1))
    } else if s[i] == MINUS_SIGN {
        Ok((TokenType::Minus, i + 1))
    } else {
        Err(EvalError::InvalidCharacter { character: s[i] as char, position: i as usize })
    }
}

/// `acc` combined with `v` by the operator `op` (`Plus` adds, anything
/// else subtracts).
pub open spec fn apply_op(op: TokenType, acc: int, v: int) -> int {
    if op == TokenType::Plus {
        acc + v
    } else {
        acc - v
    }
}

pub open spec fn fits_i32(x: int) -> bool {
    i32::MIN <= x && x <= i32::MAX
}

/// The rest of an evaluation whose running result is `acc`, from the offset
/// `pos` at which the next token begins: while an operator comes, it must be
/// followed by an integer, and the two fold into `acc`; the expression must
/// then end.
pub open spec fn eval_rest(s: Seq<u8>, pos: int, acc: i32) -> Result<i32, EvalError>
    decreases s.len() - pos,
    when 0 <= pos <= s.len()
{
    match lex_at(s, pos) {
        Err(e) => Err(e),
        Ok((TokenType::EOF, _)) => Ok(acc),
        Ok((TokenType::Integer(v), _)) => Err(
            EvalError::SyntaxError { expected: TokenKind::EOF, found: TokenType::Integer(v) },
        ),
        Ok((op, q1)) => match lex_at(s, q1) {
            Err(e) => Err(e),
            Ok((TokenType::Integer(v), q2)) => {
                let a = apply_op(op, acc as int, v as int);
                if fits_i32(a) {
                    proof {
                        lemma_lex_advances(s, pos);
                        lemma_lex_advances(s, q1);
                    }
                    eval_rest(s, q2, a as i32)
                } else {
                    Err(EvalError::IntegerOverflow)
                }
            },
            Ok((t, _)) => Err(EvalError::SyntaxError { expected: TokenKind::Integer, found: t }),
        },
    }
}

/// What evaluating the text with bytes `s` returns: the first token must be
/// an integer, which starts the running result.
pub open spec fn evaluation(s: Seq<u8>) -> Result<i32, EvalError> {
    match lex_at(s, 0) {
        Err(e) => Err(e),
        Ok((TokenType::Integer(v), p)) => eval_rest(s, p, v),
        Ok((t, _)) => Err(EvalError::SyntaxError { expected: TokenKind::Integer, found: t }),
    }
}

pub proof fn lemma_skip_spaces_bounds(s: Seq<u8>, i: int)
    requires
        0 <= i <= s.len(),
    ensures
        i <= skip_spaces(s, i) <= s.len(),
        skip_spaces(s, i) < s.len() ==> s[skip_spaces(s, i)] != SPACE,
        forall|k: int| i <= k < skip_spaces(s, i) ==> s[k] == SPACE,
    decreases s.len() - i,
{
    if i < s.len() && s[i] == SPACE {
        lemma_skip_spaces_bounds(s, i + 1);
    }
}

pub proof fn lemma_digit_run_bounds(s: Seq<u8>, i: int)
    requires
        0 <= i <= s.len(),
    ensures
        i <= digit_run_end(s, i) <= s.len(),
        digit_run_end(s, i) < s.len() ==> !is_digit_byte(s[digit_run_end(s, i)]),
        forall|k: int| i <= k < digit_run_end(s, i) ==> is_digit_byte(s[k]),
    decreases s.len() - i,
{
    if i < s.len() && is_digit_byte(s[i]) {
        lemma_digit_run_bounds(s, i + 1);
    }
}

/// A token other than `EOF` takes at least one byte; the lexer never moves
/// past the end of the text.
pub proof fn lemma_lex_advances(s: Seq<u8>, pos: int)
    requires
        0 <= pos <= s.len(),
    ensures
        lex_at(s, pos) matches Ok((t, q)) ==> pos <= q <= s.len() && (t != TokenType::EOF ==> pos
            < q),
{
    lemma_skip_spaces_bounds(s, pos);
    let i = skip_spaces(s, pos);
    if i < s.len() && is_digit_byte(s[i]) {
        lemma_digit_run_bounds(s, i);
        assert(digit_run_end(s, i) == digit_run_end(s, i + 1));
        lemma_digit_run_bounds(s, i + 1);
    }
}

pub proof fn lemma_digits_value_nonneg(s: Seq<u8>, i: int, j: int)
    requires
        0 <= i <= j <= s.len(),
        forall|m: int| i <= m < j ==> is_digit_byte(s[m]),
    ensures
        digits_value(s, i, j) >= 0,
    decreases j - i,
{
    if i < j {
        lemma_digits_value_nonneg(s, i, j - 1);
    }
}

/// Over a run of digits, a longer prefix has at least the value of a shorter
/// one.
pub proof fn lemma_digits_value_monotone(s: Seq<u8>, i: int, k: int, j: int)
    requires
        0 <= i <= k <= j <= s.len(),
        forall|m: int| i <= m < j ==> is_digit_byte(s[m]),
    ensures
        digits_value(s, i, k) <= digits_value(s, i, j),
    decreases j - k,
{
    if k < j {
        lemma_digits_value_monotone(s, i, k, j - 1);
        lemma_digits_value_nonneg(s, i, j - 1);
    }
}

} // verus!
