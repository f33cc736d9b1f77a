use crate::ast::push_char;
use crate::tokens::{spec_word_type, Token, TokenType, TokenV};
use vstd::prelude::*;
use vstd::string::StrSliceExecFns;

verus! {

/// A character scanner over source text, holding the characters of the
/// input and a cursor.
pub struct Lexer {
    pub input: Vec<char>,
    pub pos: usize,
}

/// Whether a character may appear in an identifier.
pub open spec fn spec_is_letter(c: char) -> bool {
    ('a' <= c && c <= 'z') || ('A' <= c && c <= 'Z') || c == '_'
}

/// Whether a character is a decimal digit.
pub open spec fn spec_is_digit(c: char) -> bool {
    '0' <= c && c <= '9'
}

/// Whether a character is skipped between tokens.
pub open spec fn spec_is_ws(c: char) -> bool {
    c == ' ' || c == '\t' || c == '\n' || c == '\r'
}

/// The first position at or after `pos` that does not hold whitespace.
pub open spec fn spec_skip_ws(s: Seq<char>, pos: int) -> int
    decreases s.len() - pos,
{
    if pos < 0 || pos >= s.len() || !spec_is_ws(s[pos]) {
        pos
    } else {
        spec_skip_ws(s, pos + 1)
    }
}

/// The end of the identifier run starting at `pos`.
pub open spec fn spec_scan_letters(s: Seq<char>, pos: int) -> int
    decreases s.len() - pos,
{
    if pos < 0 || pos >= s.len() || !spec_is_letter(s[pos]) {
        pos
    } else {
        spec_scan_letters(s, pos + 1)
    }
}

/// The end of the digit run starting at `pos`.
pub open spec fn spec_scan_digits(s: Seq<char>, pos: int) -> int
    decreases s.len() - pos,
{
    if pos < 0 || pos >= s.len() || !spec_is_digit(s[pos]) {
        pos
    } else {
        spec_scan_digits(s, pos + 1)
    }
}

/// A scanned token together with the cursor position after it.
pub struct NextTokenOut {
    pub token: TokenV,
    pub next: int,
}

/// A single-character token model.
pub open spec fn spec_char_token(t: TokenType, c: char, next: int) -> NextTokenOut {
    NextTokenOut { token: TokenV { t, v: seq![c] }, next }
}

/// The next token scanned from position `pos` of the text, and the
/// position just after it.
pub open spec fn spec_next_token(s: Seq<char>, pos: int) -> NextTokenOut {
    let p = spec_skip_ws(s, pos);
    if p >= s.len() {
        NextTokenOut { token: TokenV { t: TokenType::EOF, v: Seq::empty() }, next: p }
    } else {
        let c = s[p];
        if c == '=' {
            if p + 1 < s.len() && s[p + 1] == '=' {
                NextTokenOut { token: TokenV { t: TokenType::Equal, v: "=="@ }, next: p + 2 }
            } else {
                spec_char_token(TokenType::Assign, c, p + 1)
            }
        } else if c == '!' {
            if p + 1 < s.len() && s[p + 1] == '=' {
                NextTokenOut { token: TokenV { t: TokenType::NotEqual, v: "!="@ }, next: p + 2 }
            } else {
                spec_char_token(TokenType::Bang, c, p + 1)
            }
        } else if c == '+' {
            spec_char_token(TokenType::Plus, c, p + 1)
        } else if c == '-' {
            spec_char_token(TokenType::Minus, c, p + 1)
        } else if c == '*' {
            spec_char_token(TokenType::Asterisk, c, p + 1)
        } else if c == '/' {
            spec_char_token(TokenType::Slash, c, p + 1)
        } else if c == '<' {
            spec_char_token(TokenType::LessThan, c, p + 1)
        } else if c == '>' {
            spec_char_token(TokenType::GreaterThan, c, p + 1)
        } else if c == ',' {
            spec_char_token(TokenType::Comma, c, p + 1)
        } else if c == ';' {
            spec_char_token(TokenType::Semicolon, c, p + 1)
        } else if c == '(' {
            spec_char_token(TokenType::LParen, c, p + 1)
        } else if c == ')' {
            spec_char_token(TokenType::RParen, c, p + 1)
        } else if c == '{' {
            spec_char_token(TokenType::LBrace, c, p + 1)
        } else if c == '}' {
            spec_char_token(TokenType::RBrace, c, p + 1)
        } else if spec_is_letter(c) {
            let e = spec_scan_letters(s, p);
            let w = s.subrange(p, e);
            NextTokenOut { token: TokenV { t: spec_word_type(w), v: w }, next: e }
        } else if spec_is_digit(c) {
            let e = spec_scan_digits(s, p);
            NextTokenOut { token: TokenV { t: TokenType::Int, v: s.subrange(p, e) }, next: e }
        } else {
            spec_char_token(TokenType::Illegal, c, p + 1)
        }
    }
}

/// Bounds for the whitespace and run scanners.
pub proof fn lemma_scan_bounds(s: Seq<char>, pos: int)
    requires
        0 <= pos <= s.len(),
    ensures
        pos <= spec_skip_ws(s, pos) <= s.len(),
        pos <= spec_scan_letters(s, pos) <= s.len(),
        pos <= spec_scan_digits(s, pos) <= s.len(),
    decreases s.len() - pos,
{
    if pos < s.len() {
        lemma_scan_bounds(s, pos + 1);
    }
}

/// The scanner makes progress: a token other than end-of-input ends
/// strictly after the position it started from, and never ends past the
/// end of the text.
pub proof fn lemma_next_token_advances(s: Seq<char>, pos: int)
    requires
        0 <= pos <= s.len(),
    ensures
        pos <= spec_next_token(s, pos).next <= s.len(),
        spec_next_token(s, pos).token.t != TokenType::EOF ==> spec_next_token(s, pos).next > pos,
        spec_next_token(s, pos).token.t == TokenType::EOF ==> spec_next_token(s, pos).next
            == spec_skip_ws(s, pos),
{
    lemma_scan_bounds(s, pos);
    let p = spec_skip_ws(s, pos);
    if p < s.len() {
        lemma_scan_bounds(s, p);
        let c = s[p];
        if spec_is_letter(c) {
            assert(spec_scan_letters(s, p) == spec_scan_letters(s, p + 1));
            lemma_scan_bounds(s, p + 1);
        } else if !(c == '=' || c == '!' || c == '+' || c == '-' || c == '*' || c == '/' || c
            == '<' || c == '>' || c == ',' || c == ';' || c == '(' || c == ')' || c == '{' || c
            == '}') && spec_is_digit(c) {
            assert(spec_scan_digits(s, p) == spec_scan_digits(s, p + 1));
            lemma_scan_bounds(s, p + 1);
        }
    }
}

/// The token stream of the text from position `pos` on: every token up
/// to and including the end-of-input marker.
pub open spec fn spec_tokens_from(s: Seq<char>, pos: int) -> Seq<TokenV>
    decreases s.len() - pos,
{
    if pos < 0 || pos >= s.len() {
        seq![spec_next_token(s, pos).token]
    } else {
        let o = spec_next_token(s, pos);
        if o.token.t == TokenType::EOF {
            seq![o.token]
        } else {
            let adv = if o.next < pos + 1 {
                pos + 1
            } else if o.next > s.len() {
                s.len() as int
            } else {
                o.next
            };
            seq![o.token] + spec_tokens_from(s, adv)
        }
    }
}

/// Unfolding of the token stream by one scanned token.
pub proof fn lemma_tokens_from_step(s: Seq<char>, pos: int)
    requires
        0 <= pos <= s.len(),
        spec_next_token(s, pos).token.t != TokenType::EOF,
    ensures
        spec_tokens_from(s, pos) == seq![spec_next_token(s, pos).token] + spec_tokens_from(
            s,
            spec_next_token(s, pos).next,
        ),
{
    lemma_next_token_advances(s, pos);
}

impl Lexer {
    /// The cursor stays within the input.
    pub open spec fn wf(self) -> bool {
        self.pos <= self.input@.len()
    }

    /// Creates a lexer holding the characters of the input text, with
    /// the cursor at the start.
    pub fn new(input_string: &str) -> (l: Lexer)
        ensures
            l.input@ == input_string@,
            l.pos == 0,
            l.wf(),
    {
        let n = input_string.unicode_len();
        let mut input: Vec<char> = Vec::new();
        let mut i: usize = 0;
        while i < n
            invariant
                n == input_string@.len(),
                i <= n,
                input@ =~= input_string@.take(i as int),
            decreases n - i,
        {
            input.push(input_string.get_char(i));
            proof {
                assert(input@ =~= input_string@.take(i + 1));
            }
            i += 1;
        }
        proof {
            assert(input@ =~= input_string@);
        }
        Lexer { input, pos: 0 }
    }

    /// Skips whitespace characters under the cursor.
    fn eat_whitespace(&mut self)
        requires
            old(self).wf(),
        ensures
            final(self).wf(),
            final(self).input@ == old(self).input@,
            final(self).pos as int == spec_skip_ws(old(self).input@, old(self).pos as int),
    {
        loop
            invariant
                self.wf(),
                self.input@ == old(self).input@,
                spec_skip_ws(self.input@, old(self).pos as int) == spec_skip_ws(
                    self.input@,
                    self.pos as int,
                ),
            ensures
                self.wf(),
                self.input@ == old(self).input@,
                self.pos as int == spec_skip_ws(self.input@, old(self).pos as int),
            decreases self.input@.len() - self.pos,
        {
            if self.pos >= self.input.len() {
                break ;
            }
            let c = self.input[self.pos];
            if !(c == ' ' || c == '\t' || c == '\n' || c == '\r') {
                break ;
            }
            self.pos += 1;
        }
    }

    /// Reads the run of characters accepted by the given class, moving
    /// the cursor past it, and returns the run as a string.
    fn read_ident(&mut self, digits: bool) -> (r: String)
        requires
            old(self).wf(),
        ensures
            final(self).wf(),
            final(self).input@ == old(self).input@,
            final(self).pos as int == if digits {
                spec_scan_digits(old(self).input@, old(self).pos as int)
            } else {
                spec_scan_letters(old(self).input@, old(self).pos as int)
            },
            r@ == old(self).input@.subrange(old(self).pos as int, final(self).pos as int),
    {
        let mut r = String::new();
        loop
            invariant
                self.wf(),
                self.input@ == old(self).input@,
                old(self).pos <= self.pos,
                if digits {
                    spec_scan_digits(self.input@, old(self).pos as int) == spec_scan_digits(
                        self.input@,
                        self.pos as int,
                    )
                } else {
                    spec_scan_letters(self.input@, old(self).pos as int) == spec_scan_letters(
                        self.input@,
                        self.pos as int,
                    )
                },
                r@ =~= self.input@.subrange(old(self).pos as int, self.pos as int),
            ensures
                self.wf(),
                self.input@ == old(self).input@,
                self.pos as int == if digits {
                    spec_scan_digits(self.input@, old(self).pos as int)
                } else {
                    spec_scan_letters(self.input@, old(self).pos as int)
                },
                r@ == self.input@.subrange(old(self).pos as int, self.pos as int),
            decreases self.input@.len() - self.pos,
        {
            if self.pos >= self.input.len() {
                break ;
            }
            let c = self.input[self.pos];
            let keep = if digits {
                is_digit(c)
            } else {
                is_letter(c)
            };
            if !keep {
                break ;
            }
            push_char(&mut r, c);
            self.pos += 1;
            proof {
                assert(r@ =~= self.input@.subrange(old(self).pos as int, self.pos as int));
            }
        }
        r
    }

    /// Scans the next token and moves the cursor past it.
    pub fn next_token(&mut self) -> (t: Token)
        requires
            old(self).wf(),
        ensures
            final(self).wf(),
            final(self).input@ == old(self).input@,
            t@ == spec_next_token(old(self).input@, old(self).pos as int).token,
            final(self).pos as int == spec_next_token(old(self).input@, old(self).pos as int).next,
    {
        proof {
            lemma_next_token_advances(self.input@, old(self).pos as int);
        }
        self.eat_whitespace();
        if self.pos >= self.input.len() {
            return Token::new(TokenType::EOF, String::new());
        }
        let c = self.input[self.pos];
        if c == '=' {
            if self.pos + 1 < self.input.len() && self.input[self.pos + 1] == '=' {
                self.pos += 2;
                return Token::new(TokenType::Equal, String::from_str("=="));
            }
            self.pos += 1;
            return single_char_token(TokenType::Assign, c);
        }
        if c == '!' {
            if self.pos + 1 < self.input.len() && self.input[self.pos + 1] == '=' {
                self.pos += 2;
                return Token::new(TokenType::NotEqual, String::from_str("!="));
            }
            self.pos += 1;
            return single_char_token(TokenType::Bang, c);
        }
        if c == '+' {
            self.pos += 1;
            return single_char_token(TokenType::Plus, c);
        }
        if c == '-' {
            self.pos += 1;
            return single_char_token(TokenType::Minus, c);
        }
        if c == '*' {
            self.pos += 1;
            return single_char_token(TokenType::Asterisk, c);
        }
        if c == '/' {
            self.pos += 1;
            return single_char_token(TokenType::Slash, c);
        }
        if c == '<' {
            self.pos += 1;
            return single_char_token(TokenType::LessThan, c);
        }
        if c == '>' {
            self.pos += 1;
            return single_char_token(TokenType::GreaterThan, c);
        }
        if c == ',' {
            self.pos += 1;
            return single_char_token(TokenType::Comma, c);
        }
        if c == ';' {
            self.pos += 1;
            return single_char_token(TokenType::Semicolon, c);
        }
        if c == '(' {
            self.pos += 1;
            return single_char_token(TokenType::LParen, c);
        }
        if c == ')' {
            self.pos += 1;
            return single_char_token(TokenType::RParen, c);
        }
        if c == '{' {
            self.pos += 1;
            return single_char_token(TokenType::LBrace, c);
        }
        if c == '}' {
            self.pos += 1;
            return single_char_token(TokenType::RBrace, c);
        }
        if is_letter(c) {
            let w = self.read_ident(false);
            return Token::from(w.as_str());
        }
        if is_digit(c) {
            let w = self.read_ident(true);
            return Token::new(TokenType::Int, w);
        }
        self.pos += 1;
        single_char_token(TokenType::Illegal, c)
    }
}

/// Builds a token of the given kind whose text is one character.
fn single_char_token(t: TokenType, c: char) -> (r: Token)
    ensures
        r@.t == t,
        r@.v == seq![c],
{
    let mut v = String::new();
    push_char(&mut v, c);
    proof {
        assert(v@ =~= seq![c]);
    }
    Token::new(t, v)
}

/// Whether a character may appear in an identifier.
#[verifier::when_used_as_spec(spec_is_letter)]
pub fn is_letter(ch: char) -> (r: bool)
    ensures
        r == spec_is_letter(ch),
{
    'a' <= ch && ch <= 'z' || 'A' <= ch && ch <= 'Z' || ch == '_'
}

/// Whether a character is a decimal digit.
#[verifier::when_used_as_spec(spec_is_digit)]
pub fn is_digit(ch: char) -> (r: bool)
    ensures
        r == spec_is_digit(ch),
{
    '0' <= ch && ch <= '9'
}

} // verus!
