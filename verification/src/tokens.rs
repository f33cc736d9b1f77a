use vstd::prelude::*;
use vstd::string::StrSliceExecFns;

verus! {

/// All the possible kinds of token that can be produced by the lexer.
#[derive(Copy, Clone, Debug, PartialEq, Eq, Structural)]
pub enum TokenType {
    Illegal,
    EOF,
    Ident,
    Int,
    Assign,
    Plus,
    Minus,
    Bang,
    Asterisk,
    Slash,
    LessThan,
    GreaterThan,
    Equal,
    NotEqual,
    Comma,
    Semicolon,
    LParen,
    RParen,
    LBrace,
    RBrace,
    Function,
    Let,
    True,
    False,
    If,
    Else,
    Return,
}

/// A classified lexical unit: a kind together with its source text.
#[derive(Debug, PartialEq, Eq)]
pub struct Token {
    pub t: TokenType,
    pub v: String,
}

/// The mathematical model of a token: its kind and its text as a
/// sequence of characters.
pub struct TokenV {
    pub t: TokenType,
    pub v: Seq<char>,
}

impl View for Token {
    type V = TokenV;

    open spec fn view(&self) -> TokenV {
        TokenV { t: self.t, v: self.v@ }
    }
}

/// The kind a scanned word is classified as: one of the keyword
/// spellings, or an identifier otherwise.
pub open spec fn spec_word_type(w: Seq<char>) -> TokenType {
    if w == "fn"@ {
        TokenType::Function
    } else if w == "let"@ {
        TokenType::Let
    } else if w == "true"@ {
        TokenType::True
    } else if w == "false"@ {
        TokenType::False
    } else if w == "if"@ {
        TokenType::If
    } else if w == "else"@ {
        TokenType::Else
    } else if w == "return"@ {
        TokenType::Return
    } else {
        TokenType::Ident
    }
}

impl Clone for Token {
    fn clone(&self) -> (r: Token)
        ensures
            r@ == self@,
    {
        Token { t: self.t, v: self.v.clone() }
    }
}

impl Token {
    /// Creates a new Token with the given type and string value.
    pub fn new(t: TokenType, v: String) -> (r: Self)
        ensures
            r@ == (TokenV { t, v: v@ }),
    {
        Self { t, v }
    }

    /// Classifies a scanned word: keyword spellings are reclassified as
    /// their keyword kind, every other word is an identifier.
    pub fn from(value: &str) -> (r: Token)
        ensures
            r@.t == spec_word_type(value@),
            r@.v == value@,
    {
        let t = if str_eq(value, "fn") {
            TokenType::Function
        } else if str_eq(value, "let") {
            TokenType::Let
        } else if str_eq(value, "true") {
            TokenType::True
        } else if str_eq(value, "false") {
            TokenType::False
        } else if str_eq(value, "if") {
            TokenType::If
        } else if str_eq(value, "else") {
            TokenType::Else
        } else if str_eq(value, "return") {
            TokenType::Return
        } else {
            TokenType::Ident
        };
        Token { t, v: value.to_owned() }
    }
}

/// Character-for-character equality of two string slices.
pub fn str_eq(a: &str, b: &str) -> (r: bool)
    ensures
        r == (a@ == b@),
{
    let alen = a.unicode_len();
    let blen = b.unicode_len();
    if alen != blen {
        return false;
    }
    let mut i: usize = 0;
    while i < alen
        invariant
            alen == a@.len(),
            blen == b@.len(),
            alen == blen,
            i <= alen,
            forall|j: int| 0 <= j < i ==> a@[j] == b@[j],
        decreases alen - i,
    {
        if a.get_char(i) != b.get_char(i) {
            return false;
        }
        i += 1;
    }
    proof {
        assert(a@ =~= b@);
    }
    true
}

} // verus!
