//! The lexer and the recursive-descent parser, which pulls one token at a
//! time from the lexer and folds the expression into an integer as it goes.
use vstd::prelude::*;
use vstd::utf8::encode_utf8;
use crate::error::EvalError;
use crate::grammar::{
    digit_run_end, digits_value, eval_rest, evaluation, is_digit_byte, lemma_digit_run_bounds,
    lemma_digits_value_monotone, lemma_lex_advances, lemma_skip_spaces_bounds, lex_at, skip_spaces,
    DIGIT_NINE, DIGIT_ZERO, MINUS_SIGN, PLUS_SIGN, SPACE,
};
use crate::token::{kind_of, Token, TokenKind, TokenType};

verus! {

/// An evaluator for one text. It owns the text, the lexer's byte offset into
/// it, and the current token (one token of lookahead).
#[derive(Clone)]
pub struct Interpreter {
    text: String,
    position: usize,
    current_token: Option<Token>,
}

impl Interpreter {
    /// The text that this interpreter evaluates.
    pub closed spec fn source(&self) -> Seq<char> {
        self.text@
    }

    /// The bytes of the text, as the lexer reads them.
    pub closed spec fn bytes(&self) -> Seq<u8> {
        encode_utf8(self.text@)
    }

    /// The lexer's byte offset into the text.
    pub closed spec fn offset(&self) -> nat {
        self.position as nat
    }

    /// The current token, if one has been pulled.
    pub closed spec fn lookahead(&self) -> Option<Token> {
        self.current_token
    }

    /// The lexer's offset lies within the text.
    pub closed spec fn wf(&self) -> bool {
        self.position <= self.bytes().len()
    }

    /// An interpreter for `text`, with the lexer at its start and no current
    /// token yet.
    pub fn new(text: String) -> (r: Self)
        ensures
            r.source() == text@,
            r.offset() == 0,
            r.lookahead() is None,
            r.wf(),
    {
        Interpreter { text, position: 0, current_token: None }
    }

    /// Reads the token that begins at the lexer's offset, skipping spaces
    /// before it, and moves the offset just past it. On an error the offset
    /// stops where the offending token begins.
    fn get_next_token(&mut self) -> (r: Result<Token, EvalError>)
        requires
            old(self).wf(),
        ensures
            final(self).text == old(self).text,
            final(self).current_token == old(self).current_token,
            final(self).wf(),
            old(self).position <= final(self).position,
            match lex_at(old(self).bytes(), old(self).position as int) {
                Ok((t, q)) => r == Ok::<Token, EvalError>(Token { token_type: t })
                    && final(self).position == q,
                Err(e) => r == Err::<Token, EvalError>(e) && final(self).position == skip_spaces(
                    old(self).bytes(),
                    old(self).position as int,
                ),
            },
    {
        let bytes = self.text.as_str().as_bytes();
        let len = bytes.len();
        let ghost s = bytes@;
        let ghost start = self.position as int;
        let mut pos: usize = self.position;
        proof {
            lemma_skip_spaces_bounds(s, start);
        }
        while pos < len && bytes[pos] == SPACE
            invariant
                s == bytes@,
                s == self.bytes(),
                *self == *old(self),
                len == s.len(),
                start <= pos <= len,
                skip_spaces(s, start) == skip_spaces(s, pos as int),
            decreases len - pos,
        {
            pos += 1;
        }
        if pos >= len {
            self.position = pos;
            return Ok(Token { token_type: TokenType::EOF });
        }
        let c = bytes[pos];
        if DIGIT_ZERO <= c && c <= DIGIT_NINE {
            let begin = pos;
            let mut value: u64 = 0;
            proof {
                lemma_digit_run_bounds(s, begin as int);
            }
            while pos < len && DIGIT_ZERO <= bytes[pos] && bytes[pos] <= DIGIT_NINE
                invariant
                    s == bytes@,
                    s == self.bytes(),
                    *self == *old(self),
                    start == old(self).position,
                    len == s.len(),
                    start <= begin <= pos <= len,
                    begin < len,
                    begin == skip_spaces(s, start),
                    is_digit_byte(s[begin as int]),
                    value == digits_value(s, begin as int, pos as int),
                    value <= i32::MAX,
                    digit_run_end(s, begin as int) == digit_run_end(s, pos as int),
                    forall|m: int| begin <= m < digit_run_end(s, begin as int) ==> is_digit_byte(
                        s[m],
                    ),
                    digit_run_end(s, begin as int) <= len,
                decreases len - pos,
            {
                proof {
                    assert(digit_run_end(s, pos as int) == digit_run_end(s, pos + 1));
                    assert(digits_value(s, begin as int, pos + 1) == digits_value(
                        s,
                        begin as int,
                        pos as int,
                    ) * 10 + (s[pos as int] - DIGIT_ZERO));
                }
                value = value * 10 + (bytes[pos] - DIGIT_ZERO) as u64;
                pos += 1;
                if value > i32::MAX as u64 {
                    proof {
                        lemma_digit_run_bounds(s, pos as int);
                        lemma_digits_value_monotone(
                            s,
                            begin as int,
                            pos as int,
                            digit_run_end(s, begin as int),
                        );
                    }
                    self.position = begin;
                    return Err(EvalError::IntegerOverflow);
                }
            }
            self.position = pos;
            Ok(Token { token_type: TokenType::Integer(value as i32) })
        } else if c == PLUS_SIGN {
            self.position = pos + 1;
            Ok(Token { token_type: TokenType::Plus })
        } else if c == MINUS_SIGN {
            self.position = pos + 1;
            Ok(Token { token_type: TokenType::Minus })
        } else {
            self.position = pos;
            Err(EvalError::InvalidCharacter { character: c as char, position: pos })
        }
    }

    fn get_current_token(&self) -> (t: Token)
        requires
            self.current_token.is_some(),
        ensures
            t == self.current_token.unwrap(),
    {
        self.current_token.unwrap()
    }

    /// Checks that the current token is of kind `kind` and, if so, replaces it
    /// with the next token of the text.
    fn consume(&mut self, kind: TokenKind) -> (r: Result<(), EvalError>)
        requires
            old(self).wf(),
            old(self).current_token.is_some(),
        ensures
            final(self).text == old(self).text,
            final(self).wf(),
            old(self).position <= final(self).position,
            kind_of(old(self).current_token.unwrap().token_type) == kind ==> match lex_at(
                old(self).bytes(),
                old(self).position as int,
            ) {
                Ok((t, q)) => r is Ok && final(self).current_token == Some(Token { token_type: t })
                    && final(self).position == q,
                Err(e) => r == Err::<(), EvalError>(e) && final(self).current_token == old(
                    self,
                ).current_token && final(self).position == skip_spaces(
                    old(self).bytes(),
                    old(self).position as int,
                ),
            },
            kind_of(old(self).current_token.unwrap().token_type) != kind ==> r == Err::<
                (),
                EvalError,
            >(
                EvalError::SyntaxError {
                    expected: kind,
                    found: old(self).current_token.unwrap().token_type,
                },
            ) && *final(self) == *old(self),
    {
        let current_token = self.get_current_token();
        if current_token.token_type.kind() == kind {
            let next = self.get_next_token()?;
            self.current_token = Some(next);
            Ok(())
        } else {
            Err(EvalError::SyntaxError { expected: kind, found: current_token.token_type })
        }
    }

    /// Evaluates the whole text from its start:
    /// `INTEGER ((PLUS | MINUS) INTEGER)*`, folded from left to right, after
    /// which the text must end.
    pub fn expr(&mut self) -> (r: Result<i32, EvalError>)
        ensures
            final(self).source() == old(self).source(),
            final(self).wf(),
            r == evaluation(encode_utf8(old(self).source())),
    {
        self.position = 0;
        let ghost s = self.bytes();
        let first = self.get_next_token()?;
        self.current_token = Some(first);
        let token = self.get_current_token();
        let mut result: i32 = match token.token_type {
            TokenType::Integer(v) => v,
            other => {
                return Err(EvalError::SyntaxError { expected: TokenKind::Integer, found: other });
            },
        };
        let ghost mut prev: int = self.position as int;
        self.consume(TokenKind::Integer)?;
        loop
            invariant
                self.bytes() == s,
                self.source() == old(self).source(),
                self.wf(),
                0 <= prev <= s.len(),
                self.current_token.is_some(),
                lex_at(s, prev) == Ok::<(TokenType, int), EvalError>(
                    (self.current_token.unwrap().token_type, self.position as int),
                ),
                evaluation(s) == eval_rest(s, prev, result),
            decreases s.len() - prev,
        {
            let token = self.get_current_token();
            match token.token_type {
                TokenType::EOF => {
                    return Ok(result);
                },
                TokenType::Integer(_) => {
                    return Err(
                        EvalError::SyntaxError { expected: TokenKind::EOF, found: token.token_type },
                    );
                },
                op => {
                    let ghost q1 = self.position as int;
                    proof {
                        lemma_lex_advances(s, prev);
                    }
                    self.consume(op.kind())?;
                    let ghost q2 = self.position as int;
                    let next = self.get_current_token();
                    let v: i32 = match next.token_type {
                        TokenType::Integer(v) => v,
                        other => {
                            return Err(
                                EvalError::SyntaxError { expected: TokenKind::Integer, found: other },
                            );
                        },
                    };
                    let combined: i64 = if op == TokenType::Plus {
                        result as i64 + v as i64
                    } else {
                        result as i64 - v as i64
                    };
                    if combined < i32::MIN as i64 || combined > i32::MAX as i64 {
                        return Err(EvalError::IntegerOverflow);
                    }
                    result = combined as i32;
                    proof {
                        lemma_lex_advances(s, q1);
                        prev = q2;
                        assert(evaluation(s) == eval_rest(s, prev, result));
                    }
                    self.consume(TokenKind::Integer)?;
                },
            }
        }
    }
}

/// Evaluates `text` with an interpreter of its own.
pub fn evaluate(text: &str) -> (r: Result<i32, EvalError>)
    ensures
        r == evaluation(encode_utf8(text@)),
{
    let mut interpreter = Interpreter::new(text.to_owned());
    interpreter.expr()
}

} // verus!
