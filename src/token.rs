use vstd::prelude::*;
use vstd::string::StringExecFns;

verus! {

/// The kinds of token the lexer produces. `EOF` marks that no input is left.
#[derive(Clone, Copy, Debug, PartialEq, Eq, Structural)]
pub enum TokenType {
    Integer(i32),
    Plus,
    Minus,
    EOF,
}

/// The tag of a `TokenType`, without the value of an integer literal.
/// The parser names what it expected with one of these.
#[derive(Clone, Copy, Debug, PartialEq, Eq, Structural)]
pub enum TokenKind {
    Integer,
    Plus,
    Minus,
    EOF,
}

/// A token: a tag, with a value only for integer literals.
#[derive(Clone, Copy, Debug, PartialEq, Eq, Structural)]
pub struct Token {
    pub token_type: TokenType,
}

pub open spec fn kind_of(t: TokenType) -> TokenKind {
    match t {
        TokenType::Integer(_) => TokenKind::Integer,
        TokenType::Plus => TokenKind::Plus,
        TokenType::Minus => TokenKind::Minus,
        TokenType::EOF => TokenKind::EOF,
    }
}

impl TokenType {
    /// The tag of this token type.
    pub fn kind(&self) -> (k: TokenKind)
        ensures
            k == kind_of(*self),
    {
        match self {
            TokenType::Integer(_) => TokenKind::Integer,
            TokenType::Plus => TokenKind::Plus,
            TokenType::Minus => TokenKind::Minus,
            TokenType::EOF => TokenKind::EOF,
        }
    }
}

/// The character of the decimal digit `d`.
pub open spec fn digit_char(d: nat) -> char {
    ((48 + d) as u8) as char
}

/// The base-10 digits of `n`, most significant first, without leading zeros.
pub open spec fn decimal_text(n: nat) -> Seq<char>
    decreases n,
{
    if n < 10 {
        seq![digit_char(n)]
    } else {
        decimal_text(n / 10).push(digit_char(n % 10))
    }
}

/// `v` in base 10, with a leading `-` when it is negative.
pub open spec fn signed_text(v: int) -> Seq<char> {
    if v < 0 {
        seq!['-'] + decimal_text((-v) as nat)
    } else {
        decimal_text(v as nat)
    }
}

/// How a token type reads: `Integer, <value>`, `Plus`, `Minus` or `EOF`.
pub open spec fn token_type_text(t: TokenType) -> Seq<char> {
    match t {
        TokenType::Integer(v) => seq!['I', 'n', 't', 'e', 'g', 'e', 'r', ',', ' '] + signed_text(
            v as int,
        ),
        TokenType::Plus => seq!['P', 'l', 'u', 's'],
        TokenType::Minus => seq!['M', 'i', 'n', 'u', 's'],
        TokenType::EOF => seq!['E', 'O', 'F'],
    }
}

/// How a token reads: `Token(<type>)`.
pub open spec fn token_text(t: Token) -> Seq<char> {
    seq!['T', 'o', 'k', 'e', 'n', '('] + token_type_text(t.token_type) + seq![')']
}

fn digit_str(d: u32) -> (r: &'static str)
    requires
        d < 10,
    ensures
        r@ == seq![digit_char(d as nat)],
{
    proof {
        reveal_strlit("0");
        reveal_strlit("1");
        reveal_strlit("2");
        reveal_strlit("3");
        reveal_strlit("4");
        reveal_strlit("5");
        reveal_strlit("6");
        reveal_strlit("7");
        reveal_strlit("8");
        reveal_strlit("9");
    }
    match d {
        0 => "0",
        1 => "1",
        2 => "2",
        3 => "3",
        4 => "4",
        5 => "5",
        6 => "6",
        7 => "7",
        8 => "8",
        _ => "9",
    }
}

fn append_decimal(out: &mut String, n: u32)
    ensures
        final(out)@ == old(out)@ + decimal_text(n as nat),
    decreases n,
{
    if n >= 10 {
        append_decimal(out, n / 10);
    }
    out.append(digit_str(n % 10));
    assert(final(out)@ =~= old(out)@ + decimal_text(n as nat));
}

fn append_signed(out: &mut String, v: i32)
    ensures
        final(out)@ == old(out)@ + signed_text(v as int),
{
    if v < 0 {
        proof {
            reveal_strlit("-");
        }
        out.append("-");
        append_decimal(out, (-(v as i64)) as u32);
        assert(final(out)@ =~= old(out)@ + signed_text(v as int));
    } else {
        append_decimal(out, v as u32);
    }
}

impl TokenType {
    /// The text of this token type, for messages.
    pub fn describe(&self) -> (r: String)
        ensures
            r@ == token_type_text(*self),
    {
        let mut out = String::new();
        match self {
            TokenType::Integer(v) => {
                proof {
                    reveal_strlit("Integer, ");
                }
                out.append("Integer, ");
                append_signed(&mut out, *v);
            },
            TokenType::Plus => {
                proof {
                    reveal_strlit("Plus");
                }
                out.append("Plus");
            },
            TokenType::Minus => {
                proof {
                    reveal_strlit("Minus");
                }
                out.append("Minus");
            },
            TokenType::EOF => {
                proof {
                    reveal_strlit("EOF");
                }
                out.append("EOF");
            },
        }
        assert(out@ =~= token_type_text(*self));
        out
    }
}

impl Token {
    /// The text of this token, for messages.
    pub fn describe(&self) -> (r: String)
        ensures
            r@ == token_text(*self),
    {
        let mut out = String::new();
        proof {
            reveal_strlit("Token(");
            reveal_strlit(")");
        }
        out.append("Token(");
        out.append(self.token_type.describe().as_str());
        out.append(")");
        assert(out@ =~= token_text(*self));
        out
    }
}

} // verus!
