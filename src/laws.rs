//! What holds of every evaluation: sums and differences of two literals,
//! left-to-right chains, lone literals, whitespace between tokens, rejected
//! bytes, and results that depend on the text alone.
use vstd::prelude::*;
use vstd::utf8::encode_utf8;
use crate::error::EvalError;
use crate::grammar::{
    apply_op, digit_run_end, digits_value, eval_rest, evaluation, fits_i32, is_digit_byte, is_valid_byte,
    lemma_digit_run_bounds, lemma_lex_advances, lemma_skip_spaces_bounds, lex_at, skip_spaces,
    DIGIT_ZERO, MINUS_SIGN, PLUS_SIGN, SPACE,
};
use crate::interpreter::Interpreter;
use crate::token::{TokenKind, TokenType};

verus! {

/// The base-10 digits of `n`, most significant first, without leading zeros.
pub open spec fn decimal(n: nat) -> Seq<u8>
    decreases n,
{
    if n < 10 {
        seq![(DIGIT_ZERO + n) as u8]
    } else {
        decimal(n / 10).push((DIGIT_ZERO + n % 10) as u8)
    }
}

/// A run of `n` spaces.
pub open spec fn spaces(n: nat) -> Seq<u8> {
    Seq::new(n, |i: int| SPACE)
}

pub open spec fn is_operator_byte(b: u8) -> bool {
    b == PLUS_SIGN || b == MINUS_SIGN
}

/// `acc` combined with `v` by the operator written as the byte `op`.
pub open spec fn combine(op: u8, acc: int, v: int) -> int {
    if op == PLUS_SIGN {
        acc + v
    } else {
        acc - v
    }
}

/// `<a> <op> <b>`, with `n1` to `n4` spaces before, between and after the
/// tokens.
pub open spec fn binary_text(n1: nat, a: nat, n2: nat, op: u8, n3: nat, b: nat, n4: nat) -> Seq<
    u8,
> {
    spaces(n1) + decimal(a) + spaces(n2) + seq![op] + spaces(n3) + decimal(b) + spaces(n4)
}

proof fn lemma_decimal_digits(n: nat)
    ensures
        decimal(n).len() >= 1,
        forall|k: int| 0 <= k < decimal(n).len() ==> is_digit_byte(#[trigger] decimal(n)[k]),
    decreases n,
{
    if n >= 10 {
        lemma_decimal_digits(n / 10);
    }
}

/// The digits of `decimal(n)`, read where they stand in `s`, have the value
/// `n`.
proof fn lemma_decimal_value(s: Seq<u8>, i: int, n: nat)
    requires
        0 <= i,
        i + decimal(n).len() <= s.len(),
        s.subrange(i, i + decimal(n).len()) == decimal(n),
    ensures
        digits_value(s, i, i + decimal(n).len()) == n,
    decreases n,
{
    let len = decimal(n).len();
    let j = i + len;
    assert(s[j - 1] == s.subrange(i, j)[len - 1]);
    if n < 10 {
        assert(digits_value(s, i, i) == 0);
    } else {
        let d = decimal(n / 10);
        assert(s.subrange(i, i + d.len()) =~= s.subrange(i, j).subrange(0, d.len() as int));
        assert(decimal(n).subrange(0, d.len() as int) =~= d);
        lemma_decimal_value(s, i, n / 10);
    }
}

proof fn lemma_digit_run_end_exact(s: Seq<u8>, i: int, j: int)
    requires
        0 <= i <= j <= s.len(),
        forall|k: int| i <= k < j ==> is_digit_byte(s[k]),
        j < s.len() ==> !is_digit_byte(s[j]),
    ensures
        digit_run_end(s, i) == j,
    decreases j - i,
{
    if i < j {
        lemma_digit_run_end_exact(s, i + 1, j);
    }
}

proof fn lemma_skip_spaces_exact(s: Seq<u8>, i: int, j: int)
    requires
        0 <= i <= j <= s.len(),
        forall|k: int| i <= k < j ==> s[k] == SPACE,
        j < s.len() ==> s[j] != SPACE,
    ensures
        skip_spaces(s, i) == j,
    decreases j - i,
{
    if i < j {
        lemma_skip_spaces_exact(s, i + 1, j);
    }
}

/// After the spaces `s[p..i]`, the lexer reads the literal `decimal(n)` that
/// stands at `i`.
proof fn lemma_lex_literal(s: Seq<u8>, p: int, i: int, n: nat)
    requires
        0 <= p <= i,
        i + decimal(n).len() <= s.len(),
        forall|k: int| p <= k < i ==> s[k] == SPACE,
        s.subrange(i, i + decimal(n).len()) == decimal(n),
        i + decimal(n).len() < s.len() ==> !is_digit_byte(s[i + decimal(n).len()]),
    ensures
        lex_at(s, p) == (if n <= i32::MAX {
            Ok::<(TokenType, int), EvalError>(
                (TokenType::Integer(n as i32), i + decimal(n).len()),
            )
        } else {
            Err(EvalError::IntegerOverflow)
        }),
{
    let e = i + decimal(n).len();
    lemma_decimal_digits(n);
    assert forall|k: int| i <= k < e implies is_digit_byte(s[k]) by {
        assert(s[k] == s.subrange(i, e)[k - i]);
    }
    assert(s[i] == s.subrange(i, e)[0]);
    lemma_skip_spaces_exact(s, p, i);
    lemma_digit_run_end_exact(s, i, e);
    lemma_decimal_value(s, i, n);
}

/// After the spaces `s[p..i]`, the lexer reads the operator at `i`.
proof fn lemma_lex_operator(s: Seq<u8>, p: int, i: int)
    requires
        0 <= p <= i < s.len(),
        forall|k: int| p <= k < i ==> s[k] == SPACE,
        is_operator_byte(s[i]),
    ensures
        lex_at(s, p) == Ok::<(TokenType, int), EvalError>(
            (if s[i] == PLUS_SIGN {
                TokenType::Plus
            } else {
                TokenType::Minus
            }, i + 1),
        ),
{
    lemma_skip_spaces_exact(s, p, i);
}

/// Past `p` only spaces are left, so the lexer reads `EOF`.
proof fn lemma_lex_end(s: Seq<u8>, p: int)
    requires
        0 <= p <= s.len(),
        forall|k: int| p <= k < s.len() ==> s[k] == SPACE,
    ensures
        lex_at(s, p) == Ok::<(TokenType, int), EvalError>((TokenType::EOF, s.len() as int)),
{
    lemma_skip_spaces_exact(s, p, s.len() as int);
}

/// One operator between two literals, with any spaces around the tokens:
/// the result is the two literals combined by the operator, or
/// `IntegerOverflow` where a literal or the result leaves `i32`.
pub proof fn law_binary_expression(n1: nat, a: nat, n2: nat, op: u8, n3: nat, b: nat, n4: nat)
    requires
        is_operator_byte(op),
    ensures
        evaluation(binary_text(n1, a, n2, op, n3, b, n4)) == (if a <= i32::MAX && b <= i32::MAX
            && fits_i32(combine(op, a as int, b as int)) {
            Ok::<i32, EvalError>(combine(op, a as int, b as int) as i32)
        } else {
            Err(EvalError::IntegerOverflow)
        }),
{
    let s = binary_text(n1, a, n2, op, n3, b, n4);
    let da = decimal(a);
    let db = decimal(b);
    lemma_decimal_digits(a);
    lemma_decimal_digits(b);
    let i0 = n1 as int;
    let e0 = i0 + da.len();
    let o = e0 + n2;
    let i1 = o + 1 + n3;
    let e1 = i1 + db.len();
    assert(s.len() == e1 + n4);
    assert(s.subrange(i0, e0) =~= da);
    assert(s.subrange(i1, e1) =~= db);
    assert(forall|k: int| 0 <= k < i0 ==> s[k] == SPACE);
    assert(forall|k: int| e0 <= k < o ==> s[k] == SPACE);
    assert(s[o] == op);
    assert(forall|k: int| o + 1 <= k < i1 ==> s[k] == SPACE);
    assert(forall|k: int| e1 <= k < s.len() ==> s[k] == SPACE);
    lemma_lex_literal(s, 0, i0, a);
    if a <= i32::MAX {
        lemma_lex_operator(s, e0, o);
        lemma_lex_literal(s, o + 1, i1, b);
        if b <= i32::MAX && fits_i32(combine(op, a as int, b as int)) {
            lemma_lex_end(s, e1);
            let r = combine(op, a as int, b as int) as i32;
            assert(eval_rest(s, e1, r) == Ok::<i32, EvalError>(r));
        }
    }
}

/// `<a> + <b>` with single spaces evaluates to `a + b`, or fails with
/// `IntegerOverflow` where that leaves `i32`.
pub proof fn law_sum(a: nat, b: nat)
    ensures
        evaluation(decimal(a) + seq![SPACE, PLUS_SIGN, SPACE] + decimal(b)) == (if a + b
            <= i32::MAX {
            Ok::<i32, EvalError>((a + b) as i32)
        } else {
            Err(EvalError::IntegerOverflow)
        }),
{
    law_binary_expression(0, a, 1, PLUS_SIGN, 1, b, 0);
    assert(binary_text(0, a, 1, PLUS_SIGN, 1, b, 0) =~= decimal(a) + seq![
        SPACE,
        PLUS_SIGN,
        SPACE,
    ] + decimal(b));
}

/// `<a> - <b>` with single spaces evaluates to `a - b` for literals that fit
/// in `i32`.
pub proof fn law_difference(a: nat, b: nat)
    requires
        a <= i32::MAX,
        b <= i32::MAX,
    ensures
        evaluation(decimal(a) + seq![SPACE, MINUS_SIGN, SPACE] + decimal(b)) == Ok::<
            i32,
            EvalError,
        >((a - b) as i32),
{
    law_binary_expression(0, a, 1, MINUS_SIGN, 1, b, 0);
    assert(binary_text(0, a, 1, MINUS_SIGN, 1, b, 0) =~= decimal(a) + seq![
        SPACE,
        MINUS_SIGN,
        SPACE,
    ] + decimal(b));
}

/// Spaces before, between and after the tokens do not change the result.
pub proof fn law_spaces_between_tokens(
    n1: nat,
    a: nat,
    n2: nat,
    op: u8,
    n3: nat,
    b: nat,
    n4: nat,
)
    requires
        is_operator_byte(op),
    ensures
        evaluation(binary_text(n1, a, n2, op, n3, b, n4)) == evaluation(
            binary_text(0, a, 0, op, 0, b, 0),
        ),
{
    law_binary_expression(n1, a, n2, op, n3, b, n4);
    law_binary_expression(0, a, 0, op, 0, b, 0);
}

/// A lone literal is an expression without operators: it evaluates to its
/// own value, or fails with `IntegerOverflow` where that leaves `i32`.
pub proof fn law_single_literal(a: nat)
    ensures
        evaluation(decimal(a)) == (if a <= i32::MAX {
            Ok::<i32, EvalError>(a as i32)
        } else {
            Err(EvalError::IntegerOverflow)
        }),
{
    let s = decimal(a);
    lemma_decimal_digits(a);
    assert(s.subrange(0, s.len() as int) =~= s);
    lemma_lex_literal(s, 0, 0, a);
    if a <= i32::MAX {
        lemma_lex_end(s, s.len() as int);
    }
}

/// Operators apply strictly from left to right: `<a> x <b> y <c>` evaluates
/// to `(a x b) y c`, where the literals and both steps fit in `i32`.
pub proof fn law_left_to_right(a: nat, x: u8, b: nat, y: u8, c: nat)
    requires
        is_operator_byte(x),
        is_operator_byte(y),
        a <= i32::MAX,
        b <= i32::MAX,
        c <= i32::MAX,
        fits_i32(combine(x, a as int, b as int)),
        fits_i32(combine(y, combine(x, a as int, b as int), c as int)),
    ensures
        evaluation(decimal(a) + seq![x] + decimal(b) + seq![y] + decimal(c)) == Ok::<
            i32,
            EvalError,
        >(combine(y, combine(x, a as int, b as int), c as int) as i32),
{
    let s = decimal(a) + seq![x] + decimal(b) + seq![y] + decimal(c);
    lemma_decimal_digits(a);
    lemma_decimal_digits(b);
    lemma_decimal_digits(c);
    let e0 = decimal(a).len() as int;
    let i1 = e0 + 1;
    let e1 = i1 + decimal(b).len();
    let i2 = e1 + 1;
    let e2 = i2 + decimal(c).len();
    assert(s.len() == e2);
    assert(s.subrange(0, e0) =~= decimal(a));
    assert(s.subrange(i1, e1) =~= decimal(b));
    assert(s.subrange(i2, e2) =~= decimal(c));
    assert(s[e0] == x);
    assert(s[e1] == y);
    lemma_lex_literal(s, 0, 0, a);
    lemma_lex_operator(s, e0, e0);
    lemma_lex_literal(s, i1, i1, b);
    lemma_lex_operator(s, e1, e1);
    lemma_lex_literal(s, i2, i2, c);
    lemma_lex_end(s, e2);
    let ab = combine(x, a as int, b as int) as i32;
    let r = combine(y, ab as int, c as int) as i32;
    assert(eval_rest(s, e2, r) == Ok::<i32, EvalError>(r));
    assert(eval_rest(s, e1, ab) == Ok::<i32, EvalError>(r));
}

/// A text of spaces alone lacks the first literal.
pub proof fn law_missing_first_literal(n: nat)
    ensures
        evaluation(spaces(n)) == Err::<i32, EvalError>(
            EvalError::SyntaxError { expected: TokenKind::Integer, found: TokenType::EOF },
        ),
{
    lemma_lex_end(spaces(n), 0);
}

/// A text that starts with an operator lacks the literal before it.
pub proof fn law_leading_operator(op: u8, b: nat)
    requires
        is_operator_byte(op),
    ensures
        evaluation(seq![op] + decimal(b)) == Err::<i32, EvalError>(
            EvalError::SyntaxError {
                expected: TokenKind::Integer,
                found: if op == PLUS_SIGN {
                    TokenType::Plus
                } else {
                    TokenType::Minus
                },
            },
        ),
{
    let s = seq![op] + decimal(b);
    assert(s[0] == op);
    lemma_lex_operator(s, 0, 0);
}

/// A text that ends with an operator lacks the literal after it.
pub proof fn law_trailing_operator(a: nat, op: u8)
    requires
        is_operator_byte(op),
        a <= i32::MAX,
    ensures
        evaluation(decimal(a) + seq![op]) == Err::<i32, EvalError>(
            EvalError::SyntaxError { expected: TokenKind::Integer, found: TokenType::EOF },
        ),
{
    let s = decimal(a) + seq![op];
    lemma_decimal_digits(a);
    let e0 = decimal(a).len() as int;
    assert(s.subrange(0, e0) =~= decimal(a));
    assert(s[e0] == op);
    lemma_lex_literal(s, 0, 0, a);
    lemma_lex_operator(s, e0, e0);
    lemma_lex_end(s, e0 + 1);
}

/// A text that starts with a byte other than a digit, a space, `+` or `-`
/// fails on that byte, at offset 0.
pub proof fn law_invalid_first_byte(c: u8, rest: Seq<u8>)
    requires
        !is_valid_byte(c),
    ensures
        evaluation(seq![c] + rest) == Err::<i32, EvalError>(
            EvalError::InvalidCharacter { character: c as char, position: 0 },
        ),
{
    let s = seq![c] + rest;
    assert(s[0] == c);
    lemma_skip_spaces_exact(s, 0, 0);
}

/// A byte other than a digit, a space, `+` or `-` right after the first
/// literal ends the evaluation with an error that names it and its offset.
pub proof fn law_invalid_byte_after_literal(a: nat, c: u8, rest: Seq<u8>)
    requires
        a <= i32::MAX,
        !is_valid_byte(c),
    ensures
        evaluation(decimal(a) + seq![c] + rest) == Err::<i32, EvalError>(
            EvalError::InvalidCharacter {
                character: c as char,
                position: decimal(a).len() as usize,
            },
        ),
{
    let s = decimal(a) + seq![c] + rest;
    lemma_decimal_digits(a);
    let e0 = decimal(a).len() as int;
    assert(s.subrange(0, e0) =~= decimal(a));
    assert(s[e0] == c);
    lemma_lex_literal(s, 0, 0, a);
    lemma_skip_spaces_exact(s, e0, e0);
}

/// Spaces before a token are skipped: the lexer reads the same token, or
/// fails in the same way, whether it starts before or after them.
pub proof fn law_spaces_before_token(s: Seq<u8>, p: int, j: int)
    requires
        0 <= p <= j <= s.len(),
        forall|k: int| p <= k < j ==> s[k] == SPACE,
    ensures
        skip_spaces(s, p) == skip_spaces(s, j),
        lex_at(s, p) == lex_at(s, j),
    decreases j - p,
{
    if p < j {
        law_spaces_before_token(s, p + 1, j);
    }
}

/// Where only spaces stand between the lexer's offset `p` and a byte other
/// than a digit, a space, `+` or `-`, the lexer fails on that byte and
/// names it with its offset.
pub proof fn law_lexer_rejects_invalid_byte(s: Seq<u8>, p: int, j: int)
    requires
        0 <= p <= j < s.len(),
        forall|k: int| p <= k < j ==> s[k] == SPACE,
        !is_valid_byte(s[j]),
    ensures
        lex_at(s, p) == Err::<(TokenType, int), EvalError>(
            EvalError::InvalidCharacter { character: s[j] as char, position: j as usize },
        ),
        skip_spaces(s, p) == j,
{
    lemma_skip_spaces_exact(s, p, j);
}

/// Every byte that the lexer reads into a token, or skips, is one that may
/// stand in a text; `EOF` is read only at the end.
proof fn lemma_lex_reads_valid(s: Seq<u8>, p: int)
    requires
        0 <= p <= s.len(),
    ensures
        lex_at(s, p) matches Ok((t, q)) ==> (forall|k: int| p <= k < q ==> is_valid_byte(s[k]))
            && (t == TokenType::EOF ==> q == s.len()),
{
    lemma_skip_spaces_bounds(s, p);
    let i = skip_spaces(s, p);
    if i < s.len() && is_digit_byte(s[i]) {
        lemma_digit_run_bounds(s, i);
    }
}

/// A successful evaluation from `p` has read every byte from `p` on.
proof fn lemma_eval_rest_reads_valid(s: Seq<u8>, p: int, acc: i32)
    requires
        0 <= p <= s.len(),
        eval_rest(s, p, acc) is Ok,
    ensures
        forall|k: int| p <= k < s.len() ==> is_valid_byte(s[k]),
    decreases s.len() - p,
{
    lemma_lex_reads_valid(s, p);
    lemma_lex_advances(s, p);
    if let Ok((t, q1)) = lex_at(s, p) {
        if t != TokenType::EOF {
            lemma_lex_reads_valid(s, q1);
            lemma_lex_advances(s, q1);
            if let Ok((TokenType::Integer(v), q2)) = lex_at(s, q1) {
                let a = apply_op(t, acc as int, v as int);
                lemma_eval_rest_reads_valid(s, q2, a as i32);
            }
        }
    }
}

/// A text holding a byte other than a digit, a space, `+` or `-` never
/// evaluates successfully.
pub proof fn law_invalid_byte_fails(s: Seq<u8>, k: int)
    requires
        0 <= k < s.len(),
        !is_valid_byte(s[k]),
    ensures
        evaluation(s) is Err,
{
    lemma_lex_reads_valid(s, 0);
    lemma_lex_advances(s, 0);
    if let Ok((TokenType::Integer(v), p)) = lex_at(s, 0) {
        if eval_rest(s, p, v) is Ok {
            lemma_eval_rest_reads_valid(s, p, v);
        }
    }
}

/// An evaluation depends on the text alone: two interpreters over the same
/// text return the same result.
pub proof fn law_same_text_same_result(first: Interpreter, second: Interpreter)
    requires
        first.source() == second.source(),
    ensures
        evaluation(encode_utf8(first.source())) == evaluation(encode_utf8(second.source())),
{
}

} // verus!
