use crate::ast::{spec_digit_char, Node, NodeV};
use crate::lexer::{spec_tokens_from, Lexer};
use crate::tokens::{Token, TokenType, TokenV};
use vstd::prelude::*;
use vstd::string::StrSliceExecFns;

verus! {

/// Binding strengths for expression parsing, from loosest to tightest.
#[derive(Copy, Clone, Debug, PartialEq, Eq, PartialOrd, Ord, Structural)]
pub enum Precedence {
    Lowest,
    Equals,
    LessGreater,
    Sum,
    Product,
    Prefix,
    Call,
}

/// The numeric strength of a precedence level.
pub open spec fn spec_rank(p: Precedence) -> u8 {
    match p {
        Precedence::Lowest => 0,
        Precedence::Equals => 1,
        Precedence::LessGreater => 2,
        Precedence::Sum => 3,
        Precedence::Product => 4,
        Precedence::Prefix => 5,
        Precedence::Call => 6,
    }
}

/// The numeric strength of a precedence level.
#[verifier::when_used_as_spec(spec_rank)]
pub fn rank(p: Precedence) -> (r: u8)
    ensures
        r == spec_rank(p),
{
    match p {
        Precedence::Lowest => 0,
        Precedence::Equals => 1,
        Precedence::LessGreater => 2,
        Precedence::Sum => 3,
        Precedence::Product => 4,
        Precedence::Prefix => 5,
        Precedence::Call => 6,
    }
}

/// The binding strength of the infix construct begun by a token kind;
/// kinds that begin no infix construct bind loosest.
pub open spec fn spec_token_rank(t: TokenType) -> u8 {
    match t {
        TokenType::Equal => 1,
        TokenType::NotEqual => 1,
        TokenType::LessThan => 2,
        TokenType::GreaterThan => 2,
        TokenType::Plus => 3,
        TokenType::Minus => 3,
        TokenType::Slash => 4,
        TokenType::Asterisk => 4,
        TokenType::LParen => 6,
        _ => 0,
    }
}

/// The structural faults the parser records instead of aborting.
#[derive(Copy, Clone, Debug, PartialEq, Eq, Structural)]
pub enum ParserError {
    TokenUnrecognized,
    IdentExpected,
    AssignExpected,
    IntegerParsingFailed,
    BooleanParsingFailed,
    GroupExpressionParsingFailed,
    IncorrectIfStatement,
    IncorrectFunctionDeclaration,
}

/// The digit value of a decimal digit character.
pub open spec fn spec_char_digit(c: char) -> int {
    if c == '0' {
        0
    } else if c == '1' {
        1
    } else if c == '2' {
        2
    } else if c == '3' {
        3
    } else if c == '4' {
        4
    } else if c == '5' {
        5
    } else if c == '6' {
        6
    } else if c == '7' {
        7
    } else if c == '8' {
        8
    } else {
        9
    }
}

/// Whether every character of the text is a decimal digit.
pub open spec fn spec_all_digits(s: Seq<char>) -> bool {
    forall|i: int| 0 <= i < s.len() ==> crate::lexer::spec_is_digit(#[trigger] s[i])
}

/// The numeric value of a digit string.
pub open spec fn spec_digits_val(s: Seq<char>) -> int
    decreases s.len(),
{
    if s.len() == 0 {
        0
    } else {
        spec_digits_val(s.take(s.len() - 1)) * 10 + spec_char_digit(s[s.len() - 1])
    }
}

/// The 64-bit integer denoted by the text: defined when the text is a
/// nonempty run of digits whose value fits, and nothing else.
pub open spec fn spec_parse_i64(s: Seq<char>) -> Option<i64> {
    if s.len() == 0 || !spec_all_digits(s) || spec_digits_val(s) > i64::MAX {
        None
    } else {
        Some(spec_digits_val(s) as i64)
    }
}

/// A digit string's value is nonnegative and never shrinks as the
/// string is extended.
pub proof fn lemma_digits_val_prefix(s: Seq<char>, i: int)
    requires
        0 <= i <= s.len(),
    ensures
        spec_digits_val(s.take(i)) >= 0 ==> spec_digits_val(s) >= spec_digits_val(s.take(i)),
        spec_all_digits(s) ==> spec_digits_val(s) >= 0,
    decreases s.len() - i,
{
    if i == s.len() {
        assert(s.take(i) =~= s);
        lemma_digits_val_nonneg(s);
    } else {
        assert(s.take(i + 1).take(i) =~= s.take(i));
        lemma_digits_val_prefix(s, i + 1);
        lemma_digits_val_nonneg(s);
    }
}

/// A digit string's value is nonnegative.
pub proof fn lemma_digits_val_nonneg(s: Seq<char>)
    ensures
        spec_all_digits(s) ==> spec_digits_val(s) >= 0,
    decreases s.len(),
{
    if s.len() > 0 {
        assert(spec_all_digits(s) ==> spec_all_digits(s.take(s.len() - 1)));
        lemma_digits_val_nonneg(s.take(s.len() - 1));
    }
}

/// The digit value of a digit character, read back.
pub fn char_digit(c: char) -> (d: u64)
    requires
        crate::lexer::spec_is_digit(c),
    ensures
        d as int == spec_char_digit(c),
        d < 10,
{
    if c == '0' {
        0
    } else if c == '1' {
        1
    } else if c == '2' {
        2
    } else if c == '3' {
        3
    } else if c == '4' {
        4
    } else if c == '5' {
        5
    } else if c == '6' {
        6
    } else if c == '7' {
        7
    } else if c == '8' {
        8
    } else {
        9
    }
}

/// Reads a 64-bit integer from decimal text: the value when the text
/// is a nonempty digit run whose value fits, nothing otherwise.
pub fn parse_i64(s: &str) -> (r: Option<i64>)
    ensures
        r == spec_parse_i64(s@),
{
    let n = s.unicode_len();
    if n == 0 {
        return None;
    }
    let mut acc: u64 = 0;
    let mut i: usize = 0;
    while i < n
        invariant
            n == s@.len(),
            0 < n,
            i <= n,
            spec_all_digits(s@.take(i as int)),
            acc as int == spec_digits_val(s@.take(i as int)),
            acc <= i64::MAX as u64,
        decreases n - i,
    {
        let c = s.get_char(i);
        if !crate::lexer::is_digit(c) {
            assert(!spec_all_digits(s@));
            return None;
        }
        let d = char_digit(c);
        proof {
            assert(s@.take(i + 1).take(i as int) =~= s@.take(i as int));
            assert(spec_digits_val(s@.take(i + 1)) == acc as int * 10 + d as int);
        }
        if acc > (i64::MAX as u64 - d) / 10 {
            proof {
                lemma_digits_val_prefix(s@, i + 1);
                assert(spec_digits_val(s@.take(i + 1)) > i64::MAX);
            }
            return None;
        }
        acc = acc * 10 + d;
        i += 1;
    }
    proof {
        assert(s@.take(n as int) =~= s@);
    }
    Some(acc as i64)
}

/// Every character of a decimal reconstruction is a digit, and its
/// value reads back exactly.
pub proof fn lemma_nat_chars_digits(n: int)
    requires
        0 <= n,
    ensures
        spec_all_digits(crate::ast::spec_nat_chars(n)),
        spec_digits_val(crate::ast::spec_nat_chars(n)) == n,
        crate::ast::spec_nat_chars(n).len() >= 1,
    decreases n,
{
    let whole = crate::ast::spec_nat_chars(n);
    if n < 10 {
        assert(whole == seq![spec_digit_char(n)]);
        assert(whole.take(0) =~= Seq::<char>::empty());
        assert(spec_digits_val(Seq::<char>::empty()) == 0);
        assert(spec_digits_val(whole) == spec_digits_val(whole.take(whole.len() - 1)) * 10
            + spec_char_digit(whole[whole.len() - 1]));
        assert(spec_char_digit(spec_digit_char(n)) == n);
        assert(crate::lexer::spec_is_digit(spec_digit_char(n)));
    } else {
        lemma_nat_chars_digits(n / 10);
        let pre = crate::ast::spec_nat_chars(n / 10);
        assert(whole == pre + seq![spec_digit_char(n % 10)]);
        assert(whole.take(whole.len() - 1) =~= pre);
        assert(whole.last() == spec_digit_char(n % 10));
        assert(spec_char_digit(spec_digit_char(n % 10)) == n % 10);
        assert(crate::lexer::spec_is_digit(spec_digit_char(n % 10)));
        assert(spec_digits_val(whole) == spec_digits_val(pre) * 10 + (n % 10));
        assert forall|i: int| 0 <= i < whole.len() implies crate::lexer::spec_is_digit(
            #[trigger] whole[i],
        ) by {
            if i < pre.len() {
                assert(whole[i] == pre[i]);
            }
        }
    }
}

/// Law (the numeral piece of the reconstruction round trip): reading
/// back the decimal reconstruction of a nonnegative 64-bit value
/// yields exactly that value.
pub proof fn lemma_numeral_round_trip(v: i64)
    requires
        0 <= v,
    ensures
        spec_parse_i64(crate::ast::spec_i64_chars(v)) == Some(v),
{
    lemma_nat_chars_digits(v as int);
}

/// A run of digits ends exactly where the first non-digit stands.
pub proof fn lemma_scan_digits_stops(s: Seq<char>, i: int, d: int)
    requires
        0 <= i <= d <= s.len(),
        forall|j: int| i <= j < d ==> crate::lexer::spec_is_digit(#[trigger] s[j]),
        d == s.len() || !crate::lexer::spec_is_digit(s[d]),
    ensures
        crate::lexer::spec_scan_digits(s, i) == d,
    decreases d - i,
{
    if i < d {
        lemma_scan_digits_stops(s, i + 1, d);
    }
}

/// Law (one slice of the reconstruction round trip, proved from the
/// text up): for every nonnegative 64-bit value, scanning and parsing
/// the reconstruction of the one-statement program `v;` yields that
/// same program back, with no faults recorded.
pub proof fn lemma_numeral_statement_round_trip(v: i64)
    requires
        0 <= v,
    ensures
        ({
            let stmt = NodeV::ExpressionStatement {
                expression: Some(Box::new(NodeV::IntegerLiteral { value: v })),
            };
            let text = crate::ast::spec_print(NodeV::Program { statements: seq![stmt] });
            sp_parse_program(spec_tokens_from(text, 0), 0) == (SpProgOut {
                stmts: seq![stmt],
                errs: Seq::<ParserError>::empty(),
            })
        }),
{
    lemma_nat_chars_digits(v as int);
    lemma_numeral_round_trip(v);
    let stmt = NodeV::ExpressionStatement {
        expression: Some(Box::new(NodeV::IntegerLiteral { value: v })),
    };
    let digits = crate::ast::spec_nat_chars(v as int);
    let text = crate::ast::spec_print(NodeV::Program { statements: seq![stmt] });
    assert(crate::ast::spec_print_list(seq![stmt], Seq::<char>::empty()) == crate::ast::spec_print(
        stmt,
    ));
    reveal_strlit(";");
    assert(crate::ast::spec_print(NodeV::IntegerLiteral { value: v }) == digits);
    assert(crate::ast::spec_print(stmt) == digits + ";"@);
    assert(text == digits + ";"@);
    let n = digits.len() as int;
    assert(text.len() == n + 1);
    assert(forall|i: int| 0 <= i < n ==> text[i] == digits[i]);
    assert(text[n] == ';');
    assert(forall|i: int| 0 <= i < n ==> crate::lexer::spec_is_digit(#[trigger] text[i]));

    // The scanner reads the digit run as one integer token, the
    // semicolon, and the end-of-input marker.
    assert(crate::lexer::spec_skip_ws(text, 0) == 0);
    lemma_scan_digits_stops(text, 0, n);
    let o0 = crate::lexer::spec_next_token(text, 0);
    assert(text.subrange(0, n) =~= digits);
    assert(o0.token == (TokenV { t: TokenType::Int, v: digits }) && o0.next == n);
    assert(crate::lexer::spec_skip_ws(text, n) == n);
    let o1 = crate::lexer::spec_next_token(text, n);
    assert(o1.token == (TokenV { t: TokenType::Semicolon, v: seq![';'] }) && o1.next == n + 1);
    assert(crate::lexer::spec_skip_ws(text, n + 1) == n + 1);
    let o2 = crate::lexer::spec_next_token(text, n + 1);
    assert(o2.token.t == TokenType::EOF);
    crate::lexer::lemma_tokens_from_step(text, 0);
    crate::lexer::lemma_tokens_from_step(text, n);
    let toks = spec_tokens_from(text, 0);
    assert(spec_tokens_from(text, n + 1) == seq![o2.token]);
    assert(toks =~= seq![o0.token, o1.token, o2.token]);

    // The parser folds those tokens back into the same statement.
    assert(spec_cur(toks, 0) == o0.token);
    assert(spec_cur(toks, 1) == o1.token);
    assert(spec_cur(toks, 2) == o2.token);
    assert(spec_parse_i64(digits) == Some(v));
    let lit = sp_parse_integer_literal(toks, 0);
    assert(lit == (POut { r: Ok(NodeV::IntegerLiteral { value: v }), next: 0 }));
    let lp = sp_infix_loop(toks, 0, 0, NodeV::IntegerLiteral { value: v });
    assert(lp == (POut { r: Ok(NodeV::IntegerLiteral { value: v }), next: 0 }));
    let e = sp_parse_expression(toks, 0, 0);
    assert(e == (POut { r: Ok(NodeV::IntegerLiteral { value: v }), next: 0 }));
    let st = sp_parse_statement(toks, 0);
    assert(st == (POut { r: Ok(stmt), next: 1 }));
    let rest = sp_parse_program(toks, 2);
    assert(rest == (SpProgOut { stmts: Seq::<NodeV>::empty(), errs: Seq::<ParserError>::empty() }));
    assert(clamp_gt(toks.len() as int, 0, spec_advance(toks.len() as int, 1)) == 2);
    assert(sp_parse_program(toks, 0).stmts =~= seq![stmt]);
    assert(sp_parse_program(toks, 0).errs =~= Seq::<ParserError>::empty());
}

/// A run of identifier characters ends exactly where the first other
/// character stands.
pub proof fn lemma_scan_letters_stops(s: Seq<char>, i: int, d: int)
    requires
        0 <= i <= d <= s.len(),
        forall|j: int| i <= j < d ==> crate::lexer::spec_is_letter(#[trigger] s[j]),
        d == s.len() || !crate::lexer::spec_is_letter(s[d]),
    ensures
        crate::lexer::spec_scan_letters(s, i) == d,
    decreases d - i,
{
    if i < d {
        lemma_scan_letters_stops(s, i + 1, d);
    }
}

/// Law (another slice of the reconstruction round trip): for every
/// identifier spelling made of identifier characters that is not a
/// keyword, scanning and parsing the reconstruction of the
/// one-statement program `name;` yields that same program back, with
/// no faults recorded.
pub proof fn lemma_identifier_statement_round_trip(name: Seq<char>)
    requires
        name.len() >= 1,
        forall|i: int| 0 <= i < name.len() ==> crate::lexer::spec_is_letter(#[trigger] name[i]),
        crate::tokens::spec_word_type(name) == TokenType::Ident,
    ensures
        ({
            let stmt = NodeV::ExpressionStatement {
                expression: Some(
                    Box::new(
                        NodeV::Identifier { value: TokenV { t: TokenType::Ident, v: name } },
                    ),
                ),
            };
            let text = crate::ast::spec_print(NodeV::Program { statements: seq![stmt] });
            sp_parse_program(spec_tokens_from(text, 0), 0) == (SpProgOut {
                stmts: seq![stmt],
                errs: Seq::<ParserError>::empty(),
            })
        }),
{
    let tok = TokenV { t: TokenType::Ident, v: name };
    let node = NodeV::Identifier { value: tok };
    let stmt = NodeV::ExpressionStatement { expression: Some(Box::new(node)) };
    let text = crate::ast::spec_print(NodeV::Program { statements: seq![stmt] });
    assert(crate::ast::spec_print_list(seq![stmt], Seq::<char>::empty()) == crate::ast::spec_print(
        stmt,
    ));
    reveal_strlit(";");
    assert(crate::ast::spec_print(node) == name);
    assert(crate::ast::spec_print(stmt) == name + ";"@);
    assert(text == name + ";"@);
    let n = name.len() as int;
    assert(text.len() == n + 1);
    assert(forall|i: int| 0 <= i < n ==> text[i] == name[i]);
    assert(text[n] == ';');
    assert(forall|i: int| 0 <= i < n ==> crate::lexer::spec_is_letter(#[trigger] text[i]));

    assert(crate::lexer::spec_skip_ws(text, 0) == 0);
    lemma_scan_letters_stops(text, 0, n);
    let o0 = crate::lexer::spec_next_token(text, 0);
    assert(text.subrange(0, n) =~= name);
    assert(o0.token == tok && o0.next == n);
    assert(crate::lexer::spec_skip_ws(text, n) == n);
    let o1 = crate::lexer::spec_next_token(text, n);
    assert(o1.token == (TokenV { t: TokenType::Semicolon, v: seq![';'] }) && o1.next == n + 1);
    assert(crate::lexer::spec_skip_ws(text, n + 1) == n + 1);
    let o2 = crate::lexer::spec_next_token(text, n + 1);
    assert(o2.token.t == TokenType::EOF);
    crate::lexer::lemma_tokens_from_step(text, 0);
    crate::lexer::lemma_tokens_from_step(text, n);
    let toks = spec_tokens_from(text, 0);
    assert(spec_tokens_from(text, n + 1) == seq![o2.token]);
    assert(toks =~= seq![o0.token, o1.token, o2.token]);

    assert(spec_cur(toks, 0) == o0.token);
    assert(spec_cur(toks, 1) == o1.token);
    assert(spec_cur(toks, 2) == o2.token);
    let lp = sp_infix_loop(toks, 0, 0, node);
    assert(lp == (POut { r: Ok(node), next: 0 }));
    let e = sp_parse_expression(toks, 0, 0);
    assert(e == (POut { r: Ok(node), next: 0 }));
    let st = sp_parse_statement(toks, 0);
    assert(st == (POut { r: Ok(stmt), next: 1 }));
    let rest = sp_parse_program(toks, 2);
    assert(rest == (SpProgOut { stmts: Seq::<NodeV>::empty(), errs: Seq::<ParserError>::empty() }));
    assert(clamp_gt(toks.len() as int, 0, spec_advance(toks.len() as int, 1)) == 2);
    assert(sp_parse_program(toks, 0).stmts =~= seq![stmt]);
    assert(sp_parse_program(toks, 0).errs =~= Seq::<ParserError>::empty());
}

/// Law (a further slice of the reconstruction round trip): for either
/// boolean value, scanning and parsing the reconstruction of the
/// one-statement program `true;` or `false;` yields that same program
/// back, with no faults recorded.
pub proof fn lemma_boolean_statement_round_trip(b: bool)
    ensures
        ({
            let stmt = NodeV::ExpressionStatement {
                expression: Some(Box::new(NodeV::Boolean { value: b })),
            };
            let text = crate::ast::spec_print(NodeV::Program { statements: seq![stmt] });
            sp_parse_program(spec_tokens_from(text, 0), 0) == (SpProgOut {
                stmts: seq![stmt],
                errs: Seq::<ParserError>::empty(),
            })
        }),
{
    reveal_strlit(";");
    reveal_strlit("fn");
    reveal_strlit("let");
    reveal_strlit("true");
    reveal_strlit("false");
    reveal_strlit("if");
    reveal_strlit("else");
    reveal_strlit("return");
    let word = crate::ast::spec_bool_chars(b);
    let kind = if b {
        TokenType::True
    } else {
        TokenType::False
    };
    assert("fn"@.len() == 2);
    assert("let"@.len() == 3);
    assert("true"@.len() == 4);
    assert("false"@.len() == 5);
    assert("if"@.len() == 2);
    assert("else"@.len() == 4);
    assert("return"@.len() == 6);
    if b {
        assert(word == "true"@);
        assert("true"@[0] == 't');
        assert("else"@[0] == 'e');
        assert(word != "else"@);
        assert(crate::tokens::spec_word_type(word) == kind);
    } else {
        assert(word == "false"@);
        assert(crate::tokens::spec_word_type(word) == kind);
    }
    let node = NodeV::Boolean { value: b };
    let stmt = NodeV::ExpressionStatement { expression: Some(Box::new(node)) };
    let text = crate::ast::spec_print(NodeV::Program { statements: seq![stmt] });
    assert(crate::ast::spec_print_list(seq![stmt], Seq::<char>::empty()) == crate::ast::spec_print(
        stmt,
    ));
    assert(crate::ast::spec_print(node) == word);
    assert(crate::ast::spec_print(stmt) == word + ";"@);
    assert(text == word + ";"@);
    let n = word.len() as int;
    assert(text.len() == n + 1);
    assert(forall|i: int| 0 <= i < n ==> text[i] == word[i]);
    assert(text[n] == ';');
    assert(forall|i: int| 0 <= i < n ==> crate::lexer::spec_is_letter(#[trigger] text[i]));

    assert(crate::lexer::spec_skip_ws(text, 0) == 0);
    lemma_scan_letters_stops(text, 0, n);
    let o0 = crate::lexer::spec_next_token(text, 0);
    assert(text.subrange(0, n) =~= word);
    assert(o0.token == (TokenV { t: kind, v: word }) && o0.next == n);
    assert(crate::lexer::spec_skip_ws(text, n) == n);
    let o1 = crate::lexer::spec_next_token(text, n);
    assert(o1.token == (TokenV { t: TokenType::Semicolon, v: seq![';'] }) && o1.next == n + 1);
    assert(crate::lexer::spec_skip_ws(text, n + 1) == n + 1);
    let o2 = crate::lexer::spec_next_token(text, n + 1);
    assert(o2.token.t == TokenType::EOF);
    crate::lexer::lemma_tokens_from_step(text, 0);
    crate::lexer::lemma_tokens_from_step(text, n);
    let toks = spec_tokens_from(text, 0);
    assert(spec_tokens_from(text, n + 1) == seq![o2.token]);
    assert(toks =~= seq![o0.token, o1.token, o2.token]);

    assert(spec_cur(toks, 0) == o0.token);
    assert(spec_cur(toks, 1) == o1.token);
    assert(spec_cur(toks, 2) == o2.token);
    let lit = sp_parse_boolean(toks, 0);
    assert(lit == (POut { r: Ok(node), next: 0 }));
    let lp = sp_infix_loop(toks, 0, 0, node);
    assert(lp == (POut { r: Ok(node), next: 0 }));
    let e = sp_parse_expression(toks, 0, 0);
    assert(e == (POut { r: Ok(node), next: 0 }));
    let st = sp_parse_statement(toks, 0);
    assert(st == (POut { r: Ok(stmt), next: 1 }));
    let rest = sp_parse_program(toks, 2);
    assert(rest == (SpProgOut { stmts: Seq::<NodeV>::empty(), errs: Seq::<ParserError>::empty() }));
    assert(clamp_gt(toks.len() as int, 0, spec_advance(toks.len() as int, 1)) == 2);
    assert(sp_parse_program(toks, 0).stmts =~= seq![stmt]);
    assert(sp_parse_program(toks, 0).errs =~= Seq::<ParserError>::empty());
}

/// The token under the cursor; past the end of the stream it reads as
/// the end-of-input marker.
pub open spec fn spec_cur(toks: Seq<TokenV>, pos: int) -> TokenV {
    if 0 <= pos < toks.len() {
        toks[pos]
    } else {
        TokenV { t: TokenType::EOF, v: Seq::empty() }
    }
}

/// One cursor step, never moving past the end of the stream.
pub open spec fn spec_advance(len: int, pos: int) -> int {
    if pos < len {
        pos + 1
    } else {
        pos
    }
}

/// Clamps a continuation position to at least `pos`, and within the
/// stream.
pub open spec fn clamp_ge(len: int, pos: int, next: int) -> int {
    if next < pos {
        pos
    } else if next > len {
        len
    } else {
        next
    }
}

/// Clamps a continuation position to after `pos`, and within the
/// stream.
pub open spec fn clamp_gt(len: int, pos: int, next: int) -> int {
    if next > len {
        len
    } else if next < pos + 1 {
        pos + 1
    } else {
        next
    }
}

/// The outcome of parsing one construct: the node or the fault, and
/// the cursor position after the attempt.
pub struct POut {
    pub r: Result<NodeV, ParserError>,
    pub next: int,
}

/// The outcome of parsing a comma-separated list.
pub struct SpListOut {
    pub r: Result<Seq<NodeV>, ParserError>,
    pub next: int,
}

/// The outcome of parsing a whole program: the statements parsed and
/// the faults recorded.
pub struct SpProgOut {
    pub stmts: Seq<NodeV>,
    pub errs: Seq<ParserError>,
}

/// The first statement boundary at or after `pos`.
pub open spec fn sp_skip_semi(toks: Seq<TokenV>, pos: int) -> int
    decreases toks.len() - pos,
{
    let c = spec_cur(toks, pos);
    if c.t == TokenType::Semicolon || c.t == TokenType::EOF {
        pos
    } else {
        sp_skip_semi(toks, pos + 1)
    }
}

/// Parses statements up to the end of the input, recording a fault and
/// resynchronizing at the next statement boundary whenever a statement
/// is malformed.
pub open spec fn sp_parse_program(toks: Seq<TokenV>, pos: int) -> SpProgOut
    decreases toks.len() - pos, 5int,
{
    let len = toks.len() as int;
    if spec_cur(toks, pos).t == TokenType::EOF {
        SpProgOut { stmts: Seq::empty(), errs: Seq::empty() }
    } else {
        let st = sp_parse_statement(toks, pos);
        match st.r {
            Ok(n) => {
                let rest = sp_parse_program(toks, clamp_gt(len, pos, spec_advance(len, st.next)));
                SpProgOut { stmts: seq![n] + rest.stmts, errs: rest.errs }
            },
            Err(e) => {
                let rest = sp_parse_program(
                    toks,
                    clamp_gt(len, pos, spec_advance(len, sp_skip_semi(toks, st.next))),
                );
                SpProgOut { stmts: rest.stmts, errs: seq![e] + rest.errs }
            },
        }
    }
}

/// Dispatches on the token under the cursor: `let`, `return`, or an
/// expression statement.
pub open spec fn sp_parse_statement(toks: Seq<TokenV>, pos: int) -> POut
    decreases toks.len() - pos, 4int,
{
    match spec_cur(toks, pos).t {
        TokenType::Let => sp_parse_let(toks, pos),
        TokenType::Return => sp_parse_return(toks, pos),
        _ => sp_parse_expression_statement(toks, pos),
    }
}

/// Parses `let <ident> = <expression>` with an optional trailing
/// semicolon.
pub open spec fn sp_parse_let(toks: Seq<TokenV>, pos: int) -> POut
    decreases toks.len() - pos, 3int,
{
    let pk = spec_cur(toks, pos + 1);
    if pk.t != TokenType::Ident {
        POut { r: Err(ParserError::IdentExpected), next: pos }
    } else if spec_cur(toks, pos + 2).t != TokenType::Assign {
        POut { r: Err(ParserError::AssignExpected), next: pos + 1 }
    } else {
        let v = sp_parse_expression(toks, pos + 3, 0);
        match v.r {
            Err(e) => POut { r: Err(e), next: v.next },
            Ok(val) => {
                let nx = if spec_cur(toks, v.next + 1).t == TokenType::Semicolon {
                    v.next + 1
                } else {
                    v.next
                };
                POut {
                    r: Ok(
                        NodeV::LetStatement {
                            name: Box::new(NodeV::Identifier { value: pk }),
                            value: Some(Box::new(val)),
                        },
                    ),
                    next: nx,
                }
            },
        }
    }
}

/// Parses `return <expression>` with an optional trailing semicolon.
pub open spec fn sp_parse_return(toks: Seq<TokenV>, pos: int) -> POut
    decreases toks.len() - pos, 3int,
{
    if spec_cur(toks, pos).t != TokenType::Return {
        POut { r: Err(ParserError::TokenUnrecognized), next: pos }
    } else {
        let v = sp_parse_expression(toks, pos + 1, 0);
        match v.r {
            Err(e) => POut { r: Err(e), next: v.next },
            Ok(val) => {
                let nx = if spec_cur(toks, v.next + 1).t == TokenType::Semicolon {
                    v.next + 1
                } else {
                    v.next
                };
                POut { r: Ok(NodeV::ReturnStatement { value: Some(Box::new(val)) }), next: nx }
            },
        }
    }
}

/// Parses an expression statement with an optional trailing semicolon.
pub open spec fn sp_parse_expression_statement(toks: Seq<TokenV>, pos: int) -> POut
    decreases toks.len() - pos, 3int,
{
    let e = sp_parse_expression(toks, pos, 0);
    match e.r {
        Err(err) => POut { r: Err(err), next: e.next },
        Ok(v) => {
            let nx = if spec_cur(toks, e.next + 1).t == TokenType::Semicolon {
                e.next + 1
            } else {
                e.next
            };
            POut { r: Ok(NodeV::ExpressionStatement { expression: Some(Box::new(v)) }), next: nx }
        },
    }
}

/// Parses statements until the closing brace or the end of the input.
pub open spec fn sp_block_loop(toks: Seq<TokenV>, pos: int, acc: Seq<NodeV>) -> POut
    decreases toks.len() - pos, 5int,
{
    let len = toks.len() as int;
    let c = spec_cur(toks, pos);
    if c.t == TokenType::RBrace || c.t == TokenType::EOF {
        POut { r: Ok(NodeV::BlockStatement { statements: acc }), next: pos }
    } else {
        let st = sp_parse_statement(toks, pos);
        match st.r {
            Err(e) => POut { r: Err(e), next: st.next },
            Ok(n) => sp_block_loop(
                toks,
                clamp_gt(len, pos, spec_advance(len, st.next)),
                acc.push(n),
            ),
        }
    }
}

/// Parses a brace-delimited block: the cursor stands on the opening
/// brace, and ends on the closing brace.
pub open spec fn sp_parse_block(toks: Seq<TokenV>, pos: int) -> POut
    decreases toks.len() - pos, 3int,
{
    if spec_cur(toks, pos).t != TokenType::LBrace {
        POut { r: Err(ParserError::TokenUnrecognized), next: pos }
    } else {
        sp_block_loop(toks, pos + 1, Seq::empty())
    }
}

/// Parses one expression at the given binding strength: one prefix
/// term, then every infix or call extension that binds tighter.
pub open spec fn sp_parse_expression(toks: Seq<TokenV>, pos: int, prec: u8) -> POut
    decreases toks.len() - pos, 2int,
{
    let len = toks.len() as int;
    let c = spec_cur(toks, pos);
    let first = match c.t {
        TokenType::Ident => POut { r: Ok(NodeV::Identifier { value: c }), next: pos },
        TokenType::Int => sp_parse_integer_literal(toks, pos),
        TokenType::Minus => sp_parse_prefix_expression(toks, pos),
        TokenType::Bang => sp_parse_prefix_expression(toks, pos),
        TokenType::True => sp_parse_boolean(toks, pos),
        TokenType::False => sp_parse_boolean(toks, pos),
        TokenType::LParen => sp_parse_grouped(toks, pos),
        TokenType::If => sp_parse_if(toks, pos),
        TokenType::Function => sp_parse_function_literal(toks, pos),
        _ => POut { r: Err(ParserError::TokenUnrecognized), next: pos },
    };
    match first.r {
        Err(e) => POut { r: Err(e), next: first.next },
        Ok(left) => sp_infix_loop(toks, clamp_ge(len, pos, first.next), prec, left),
    }
}

/// Folds infix operators and call argument lists onto a parsed left
/// operand while the next token binds tighter than `prec`.
pub open spec fn sp_infix_loop(toks: Seq<TokenV>, pos: int, prec: u8, left: NodeV) -> POut
    decreases toks.len() - pos, 1int,
{
    let len = toks.len() as int;
    let pk = spec_cur(toks, pos + 1);
    if pk.t == TokenType::Semicolon || prec >= spec_token_rank(pk.t) {
        POut { r: Ok(left), next: pos }
    } else if pk.t == TokenType::LParen {
        let a = sp_call_args(toks, pos + 1);
        match a.r {
            Err(e) => POut { r: Err(e), next: a.next },
            Ok(args) => sp_infix_loop(
                toks,
                clamp_gt(len, pos, a.next),
                prec,
                NodeV::CallExpression { function: Box::new(left), arguments: args },
            ),
        }
    } else {
        let sub = sp_parse_expression(toks, pos + 2, spec_token_rank(pk.t));
        match sub.r {
            Err(e) => POut { r: Err(e), next: sub.next },
            Ok(right) => sp_infix_loop(
                toks,
                clamp_gt(len, pos, sub.next),
                prec,
                NodeV::InfixExpression {
                    left: Box::new(left),
                    operator: pk.v,
                    right: Box::new(right),
                },
            ),
        }
    }
}

/// Parses a parenthesized, comma-separated argument list: the cursor
/// stands on the opening parenthesis, and ends on the closing one.
pub open spec fn sp_call_args(toks: Seq<TokenV>, pos: int) -> SpListOut
    decreases toks.len() - pos, 3int,
{
    let len = toks.len() as int;
    if spec_cur(toks, pos).t != TokenType::LParen {
        SpListOut { r: Err(ParserError::GroupExpressionParsingFailed), next: pos }
    } else if spec_cur(toks, pos + 1).t == TokenType::RParen {
        SpListOut { r: Ok(Seq::empty()), next: pos + 1 }
    } else {
        let a0 = sp_parse_expression(toks, pos + 1, 0);
        match a0.r {
            Err(e) => SpListOut { r: Err(e), next: a0.next },
            Ok(first) => sp_args_loop(toks, clamp_gt(len, pos, a0.next), seq![first]),
        }
    }
}

/// Parses the remaining arguments after each comma, then requires the
/// closing parenthesis.
pub open spec fn sp_args_loop(toks: Seq<TokenV>, pos: int, acc: Seq<NodeV>) -> SpListOut
    decreases toks.len() - pos, 3int,
{
    let len = toks.len() as int;
    let pk = spec_cur(toks, pos + 1);
    if pk.t == TokenType::Comma {
        let a = sp_parse_expression(toks, pos + 2, 0);
        match a.r {
            Err(e) => SpListOut { r: Err(e), next: a.next },
            Ok(v) => sp_args_loop(toks, clamp_gt(len, pos, a.next), acc.push(v)),
        }
    } else if pk.t == TokenType::RParen {
        SpListOut { r: Ok(acc), next: pos + 1 }
    } else {
        SpListOut { r: Err(ParserError::GroupExpressionParsingFailed), next: pos }
    }
}

/// Parses an integer literal from the token under the cursor.
pub open spec fn sp_parse_integer_literal(toks: Seq<TokenV>, pos: int) -> POut
    decreases toks.len() - pos, 1int,
{
    let c = spec_cur(toks, pos);
    match spec_parse_i64(c.v) {
        Some(v) => POut { r: Ok(NodeV::IntegerLiteral { value: v }), next: pos },
        None => POut { r: Err(ParserError::IntegerParsingFailed), next: pos },
    }
}

/// Parses a boolean literal from the token under the cursor.
pub open spec fn sp_parse_boolean(toks: Seq<TokenV>, pos: int) -> POut
    decreases toks.len() - pos, 1int,
{
    let c = spec_cur(toks, pos);
    POut { r: Ok(NodeV::Boolean { value: c.t == TokenType::True }), next: pos }
}

/// Parses a prefix operation: the operator under the cursor, then its
/// operand at prefix strength.
pub open spec fn sp_parse_prefix_expression(toks: Seq<TokenV>, pos: int) -> POut
    decreases toks.len() - pos, 1int,
{
    let c = spec_cur(toks, pos);
    if c.t != TokenType::Minus && c.t != TokenType::Bang {
        POut { r: Err(ParserError::TokenUnrecognized), next: pos }
    } else {
        let sub = sp_parse_expression(toks, pos + 1, 5);
        match sub.r {
            Err(e) => POut { r: Err(e), next: sub.next },
            Ok(right) => POut {
                r: Ok(NodeV::PrefixExpression { operator: c.v, right: Box::new(right) }),
                next: sub.next,
            },
        }
    }
}

/// Parses a parenthesized expression and requires the closing
/// parenthesis.
pub open spec fn sp_parse_grouped(toks: Seq<TokenV>, pos: int) -> POut
    decreases toks.len() - pos, 1int,
{
    if spec_cur(toks, pos).t != TokenType::LParen {
        POut { r: Err(ParserError::TokenUnrecognized), next: pos }
    } else {
        let e = sp_parse_expression(toks, pos + 1, 0);
        match e.r {
            Err(err) => POut { r: Err(err), next: e.next },
            Ok(v) => if spec_cur(toks, e.next + 1).t == TokenType::RParen {
                POut { r: Ok(v), next: e.next + 1 }
            } else {
                POut { r: Err(ParserError::GroupExpressionParsingFailed), next: e.next }
            },
        }
    }
}

/// Parses `if <condition> { block }` with an optional
/// `else { block }`.
pub open spec fn sp_parse_if(toks: Seq<TokenV>, pos: int) -> POut
    decreases toks.len() - pos, 1int,
{
    let len = toks.len() as int;
    if spec_cur(toks, pos).t != TokenType::If {
        POut { r: Err(ParserError::TokenUnrecognized), next: pos }
    } else {
        let cond = sp_parse_expression(toks, pos + 1, 0);
        match cond.r {
            Err(e) => POut { r: Err(e), next: cond.next },
            Ok(c) => if spec_cur(toks, cond.next + 1).t != TokenType::LBrace {
                POut { r: Err(ParserError::IncorrectIfStatement), next: cond.next }
            } else {
                let cons = sp_parse_block(toks, clamp_gt(len, pos, cond.next + 1));
                match cons.r {
                    Err(e) => POut { r: Err(e), next: cons.next },
                    Ok(cs) => if spec_cur(toks, cons.next + 1).t == TokenType::Else {
                        if spec_cur(toks, cons.next + 2).t != TokenType::LBrace {
                            POut { r: Err(ParserError::IncorrectIfStatement), next: cons.next + 1 }
                        } else {
                            let alt = sp_parse_block(toks, clamp_gt(len, pos, cons.next + 2));
                            match alt.r {
                                Err(e) => POut { r: Err(e), next: alt.next },
                                Ok(a) => POut {
                                    r: Ok(
                                        NodeV::IfExpression {
                                            condition: Box::new(c),
                                            consequence: Box::new(cs),
                                            alternative: Some(Box::new(a)),
                                        },
                                    ),
                                    next: alt.next,
                                },
                            }
                        }
                    } else {
                        POut {
                            r: Ok(
                                NodeV::IfExpression {
                                    condition: Box::new(c),
                                    consequence: Box::new(cs),
                                    alternative: None,
                                },
                            ),
                            next: cons.next,
                        }
                    },
                }
            },
        }
    }
}

/// Parses the parameter names after the first one, then requires the
/// closing parenthesis.
pub open spec fn sp_params_loop(toks: Seq<TokenV>, pos: int, acc: Seq<NodeV>) -> SpListOut
    decreases toks.len() - pos, 2int,
{
    let pk = spec_cur(toks, pos + 1);
    if pk.t == TokenType::Comma {
        sp_params_loop(
            toks,
            pos + 2,
            acc.push(NodeV::Identifier { value: spec_cur(toks, pos + 2) }),
        )
    } else if pk.t == TokenType::RParen {
        SpListOut { r: Ok(acc), next: pos + 1 }
    } else {
        SpListOut { r: Err(ParserError::IncorrectFunctionDeclaration), next: pos }
    }
}

/// The model of a parse result.
pub open spec fn res_view(r: Result<Node, ParserError>) -> Result<NodeV, ParserError> {
    match r {
        Ok(n) => Ok(n.deep_view()),
        Err(e) => Err(e),
    }
}

/// Consumes a token stream and builds one abstract syntax tree,
/// collecting structural faults instead of aborting on them.
pub struct Parser {
    tokens: Vec<Token>,
    pos: usize,
    pub errors: Vec<ParserError>,
}

impl Parser {
    /// The model of the token stream.
    pub closed spec fn toks(self) -> Seq<TokenV> {
        self.tokens@.map_values(|t: Token| t@)
    }

    /// The cursor stays within the stream.
    pub closed spec fn wf(self) -> bool {
        self.pos <= self.tokens@.len()
    }

    /// The position of the cursor in the token stream.
    pub closed spec fn cursor(self) -> int {
        self.pos as int
    }

    /// The faults recorded so far.
    pub closed spec fn errs(self) -> Seq<ParserError> {
        self.errors@
    }

    /// Creates a parser by drawing every token out of the lexer, up to
    /// and including the end-of-input marker.
    pub fn new(lexer: Lexer) -> (p: Parser)
        requires
            lexer.wf(),
        ensures
            p.wf(),
            p.cursor() == 0,
            p.errs() == Seq::<ParserError>::empty(),
            p.toks() == spec_tokens_from(lexer.input@, lexer.pos as int),
    {
        let ghost input = lexer.input@;
        let ghost start = lexer.pos as int;
        let mut lx = lexer;
        let mut tokens: Vec<Token> = Vec::new();
        proof {
            assert(tokens@.map_values(|t: Token| t@) =~= Seq::<TokenV>::empty());
        }
        loop
            invariant_except_break
                tokens@.map_values(|t: Token| t@) + spec_tokens_from(input, lx.pos as int)
                    == spec_tokens_from(input, start),
            invariant
                lx.wf(),
                lx.input@ == input,
            ensures
                tokens@.map_values(|t: Token| t@) == spec_tokens_from(input, start),
            decreases input.len() - lx.pos,
        {
            let ghost before = lx.pos as int;
            let t = lx.next_token();
            proof {
                crate::lexer::lemma_next_token_advances(input, before);
            }
            let is_eof = t.t == TokenType::EOF;
            let ghost old_tokens = tokens@;
            tokens.push(t);
            proof {
                assert(tokens@.map_values(|tk: Token| tk@) =~= old_tokens.map_values(
                    |tk: Token| tk@,
                ).push(t@));
                if is_eof {
                    assert(spec_tokens_from(input, before) == seq![t@]);
                    assert(tokens@.map_values(|tk: Token| tk@) =~= spec_tokens_from(input, start));
                } else {
                    crate::lexer::lemma_tokens_from_step(input, before);
                    assert(tokens@.map_values(|tk: Token| tk@) + spec_tokens_from(
                        input,
                        lx.pos as int,
                    ) =~= spec_tokens_from(input, start));
                }
            }
            if is_eof {
                break ;
            }
        }
        Parser { tokens, pos: 0, errors: Vec::new() }
    }

    /// The kind of the token under the cursor.
    fn cur_type(&self) -> (t: TokenType)
        requires
            self.wf(),
        ensures
            t == spec_cur(self.toks(), self.pos as int).t,
    {
        if self.pos < self.tokens.len() {
            self.tokens[self.pos].t
        } else {
            TokenType::EOF
        }
    }

    /// The kind of the token after the one under the cursor.
    fn peek_type(&self) -> (t: TokenType)
        requires
            self.wf(),
        ensures
            t == spec_cur(self.toks(), self.pos as int + 1).t,
    {
        if self.pos < self.tokens.len() && self.pos + 1 < self.tokens.len() {
            self.tokens[self.pos + 1].t
        } else {
            TokenType::EOF
        }
    }

    /// A copy of the token under the cursor.
    fn cur_clone(&self) -> (tok: Token)
        requires
            self.wf(),
        ensures
            tok@ == spec_cur(self.toks(), self.pos as int),
    {
        if self.pos < self.tokens.len() {
            self.tokens[self.pos].clone()
        } else {
            Token::new(TokenType::EOF, String::new())
        }
    }

    /// Whether the cursor has reached the end of the input.
    fn finished(&self) -> (b: bool)
        requires
            self.wf(),
        ensures
            b == (spec_cur(self.toks(), self.pos as int).t == TokenType::EOF),
    {
        self.cur_type() == TokenType::EOF
    }

    /// Moves the cursor one token forward, never past the end.
    fn next_token(&mut self)
        requires
            old(self).wf(),
        ensures
            final(self).wf(),
            final(self).toks() == old(self).toks(),
            final(self).errors@ == old(self).errors@,
            final(self).pos as int == spec_advance(
                old(self).toks().len() as int,
                old(self).pos as int,
            ),
    {
        if self.pos < self.tokens.len() {
            self.pos = self.pos + 1;
        }
    }

    /// Consumes the next token when it has the expected kind.
    fn expect_peek(&mut self, t: TokenType) -> (b: bool)
        requires
            old(self).wf(),
        ensures
            final(self).wf(),
            final(self).toks() == old(self).toks(),
            final(self).errors@ == old(self).errors@,
            b == (spec_cur(old(self).toks(), old(self).pos as int + 1).t == t),
            final(self).pos as int == if b {
                spec_advance(old(self).toks().len() as int, old(self).pos as int)
            } else {
                old(self).pos as int
            },
    {
        if self.peek_type() == t {
            self.next_token();
            true
        } else {
            false
        }
    }

    /// Moves the cursor to the next statement boundary: the nearest
    /// semicolon, or the end of the input.
    fn peek_until_semicolon(&mut self)
        requires
            old(self).wf(),
        ensures
            final(self).wf(),
            final(self).toks() == old(self).toks(),
            final(self).errors@ == old(self).errors@,
            old(self).pos <= final(self).pos,
            final(self).pos as int == sp_skip_semi(old(self).toks(), old(self).pos as int),
    {
        loop
            invariant
                self.wf(),
                self.toks() == old(self).toks(),
                self.errors@ == old(self).errors@,
                old(self).pos <= self.pos,
                sp_skip_semi(self.toks(), old(self).pos as int) == sp_skip_semi(
                    self.toks(),
                    self.pos as int,
                ),
            ensures
                self.wf(),
                self.toks() == old(self).toks(),
                self.errors@ == old(self).errors@,
                old(self).pos <= self.pos,
                self.pos as int == sp_skip_semi(self.toks(), old(self).pos as int),
            decreases self.toks().len() - self.pos,
        {
            let ct = self.cur_type();
            if ct == TokenType::Semicolon || ct == TokenType::EOF {
                break ;
            }
            self.next_token();
        }
    }

    /// The binding strength of the infix construct the cursor's token
    /// begins.
    fn check_curr_precedence(&self) -> (p: Precedence)
        requires
            self.wf(),
        ensures
            spec_rank(p) == spec_token_rank(spec_cur(self.toks(), self.pos as int).t),
    {
        match self.cur_type() {
            TokenType::Equal => Precedence::Equals,
            TokenType::NotEqual => Precedence::Equals,
            TokenType::LessThan => Precedence::LessGreater,
            TokenType::GreaterThan => Precedence::LessGreater,
            TokenType::Plus => Precedence::Sum,
            TokenType::Minus => Precedence::Sum,
            TokenType::Slash => Precedence::Product,
            TokenType::Asterisk => Precedence::Product,
            TokenType::LParen => Precedence::Call,
            _ => Precedence::Lowest,
        }
    }

    /// The binding strength of the infix construct the next token
    /// begins.
    fn check_peek_precedence(&self) -> (p: Precedence)
        requires
            self.wf(),
        ensures
            spec_rank(p) == spec_token_rank(spec_cur(self.toks(), self.pos as int + 1).t),
    {
        match self.peek_type() {
            TokenType::Equal => Precedence::Equals,
            TokenType::NotEqual => Precedence::Equals,
            TokenType::LessThan => Precedence::LessGreater,
            TokenType::GreaterThan => Precedence::LessGreater,
            TokenType::Plus => Precedence::Sum,
            TokenType::Minus => Precedence::Sum,
            TokenType::Slash => Precedence::Product,
            TokenType::Asterisk => Precedence::Product,
            TokenType::LParen => Precedence::Call,
            _ => Precedence::Lowest,
        }
    }
}

/// Parses `fn ( <parameters> ) { block }`.
pub open spec fn sp_parse_function_literal(toks: Seq<TokenV>, pos: int) -> POut
    decreases toks.len() - pos, 1int,
{
    let len = toks.len() as int;
    if spec_cur(toks, pos).t != TokenType::Function {
        POut { r: Err(ParserError::TokenUnrecognized), next: pos }
    } else if spec_cur(toks, pos + 1).t != TokenType::LParen {
        POut { r: Err(ParserError::IncorrectFunctionDeclaration), next: pos }
    } else {
        let params = if spec_cur(toks, pos + 2).t == TokenType::RParen {
            SpListOut { r: Ok(Seq::empty()), next: pos + 2 }
        } else {
            sp_params_loop(
                toks,
                pos + 2,
                seq![NodeV::Identifier { value: spec_cur(toks, pos + 2) }],
            )
        };
        match params.r {
            Err(e) => POut { r: Err(e), next: params.next },
            Ok(ps) => if spec_cur(toks, params.next + 1).t != TokenType::LBrace {
                POut { r: Err(ParserError::IncorrectFunctionDeclaration), next: params.next }
            } else {
                let body = sp_parse_block(toks, clamp_gt(len, pos, params.next + 1));
                match body.r {
                    Err(e) => POut { r: Err(e), next: body.next },
                    Ok(b) => POut {
                        r: Ok(
                            NodeV::FunctionLiteral { parameters: ps, body: Box::new(b) },
                        ),
                        next: body.next,
                    },
                }
            },
        }
    }
}

impl Parser {
    /// Parses every statement up to the end of the input and returns
    /// the program node; faults are recorded in `errors`.
    #[verifier::rlimit(100)]
    #[verifier::spinoff_prover]
    pub fn parse_program(&mut self) -> (r: Node)
        requires
            old(self).wf(),
        ensures
            final(self).wf(),
            final(self).toks() == old(self).toks(),
            r.deep_view() == (NodeV::Program {
                statements: sp_parse_program(old(self).toks(), old(self).cursor()).stmts,
            }),
            final(self).errs() == old(self).errs() + sp_parse_program(
                old(self).toks(),
                old(self).cursor(),
            ).errs,
    {
        let ghost toks = old(self).toks();
        let ghost pos0 = old(self).pos as int;
        let ghost goal = sp_parse_program(toks, pos0);
        let mut statements: Vec<Node> = Vec::new();
        let ghost mut errs_acc: Seq<ParserError> = Seq::empty();
        proof {
            assert(Node::deep_view_seq(statements@) + goal.stmts =~= goal.stmts);
            assert(old(self).errors@ + errs_acc =~= old(self).errors@);
        }
        loop
            invariant
                toks == old(self).toks(),
                pos0 == old(self).pos as int,
                goal == sp_parse_program(toks, pos0),
                self.wf(),
                self.toks() == toks,
                pos0 <= self.pos,
                self.errors@ == old(self).errors@ + errs_acc,
                goal.stmts == Node::deep_view_seq(statements@) + sp_parse_program(
                    toks,
                    self.pos as int,
                ).stmts,
                goal.errs == errs_acc + sp_parse_program(toks, self.pos as int).errs,
            ensures
                self.wf(),
                self.toks() == toks,
                self.errors@ == old(self).errors@ + errs_acc,
                goal.stmts == Node::deep_view_seq(statements@),
                goal.errs == errs_acc,
            decreases toks.len() - self.pos,
        {
            if self.finished() {
                proof {
                    assert(goal.stmts =~= Node::deep_view_seq(statements@));
                    assert(goal.errs =~= errs_acc);
                }
                break ;
            }
            let ghost p = self.pos as int;
            let st = self.parse_statement();
            let ghost spst = sp_parse_statement(toks, p);
            match st {
                Ok(stmt) => {
                    let ghost old_statements = statements@;
                    statements.push(stmt);
                    proof {
                        crate::ast::lemma_deep_view_seq_push(old_statements, stmt);
                    }
                },
                Err(e) => {
                    self.errors.push(e);
                    proof {
                        errs_acc = errs_acc.push(e);
                        assert(self.errors@ =~= old(self).errors@ + errs_acc);
                    }
                    self.peek_until_semicolon();
                },
            }
            self.next_token();
            proof {
                let len = toks.len() as int;
                match spst.r {
                    Ok(n) => {
                        assert(clamp_gt(len, p, spec_advance(len, spst.next)) == self.pos as int);
                        assert(goal.stmts =~= Node::deep_view_seq(statements@) + sp_parse_program(
                            toks,
                            self.pos as int,
                        ).stmts);
                    },
                    Err(e) => {
                        assert(clamp_gt(len, p, spec_advance(len, sp_skip_semi(toks, spst.next)))
                            == self.pos as int);
                        assert(goal.errs =~= errs_acc + sp_parse_program(
                            toks,
                            self.pos as int,
                        ).errs);
                    },
                }
            }
        }
        let r = Node::Program { statements };
        proof {
            assert(goal.stmts =~= Node::deep_view_seq(statements@));
            assert(self.errors@ =~= old(self).errors@ + goal.errs);
        }
        r
    }

    /// Dispatches on the token under the cursor: `let`, `return`, or
    /// an expression statement.
    fn parse_statement(&mut self) -> (r: Result<Node, ParserError>)
        requires
            old(self).wf(),
        ensures
            final(self).wf(),
            final(self).toks() == old(self).toks(),
            final(self).errors@ == old(self).errors@,
            old(self).pos <= final(self).pos,
            res_view(r) == sp_parse_statement(old(self).toks(), old(self).pos as int).r,
            final(self).pos as int == sp_parse_statement(old(self).toks(), old(self).pos as int).next,
        decreases self.tokens@.len() - self.pos, 4int,
    {
        match self.cur_type() {
            TokenType::Let => self.parse_let_statement(),
            TokenType::Return => self.parse_return_statement(),
            _ => self.parse_expression_statement(),
        }
    }

    /// Parses `let <ident> = <expression>` with an optional trailing
    /// semicolon.
    #[verifier::rlimit(80)]
    fn parse_let_statement(&mut self) -> (r: Result<Node, ParserError>)
        requires
            old(self).wf(),
        ensures
            final(self).wf(),
            final(self).toks() == old(self).toks(),
            final(self).errors@ == old(self).errors@,
            old(self).pos <= final(self).pos,
            res_view(r) == sp_parse_let(old(self).toks(), old(self).pos as int).r,
            final(self).pos as int == sp_parse_let(old(self).toks(), old(self).pos as int).next,
        decreases self.tokens@.len() - self.pos, 3int,
    {
        let ghost toks = old(self).toks();
        let ghost pos0 = old(self).pos as int;
        if !self.expect_peek(TokenType::Ident) {
            return Err(ParserError::IdentExpected);
        }
        proof {
            assert(self.pos as int == pos0 + 1);
        }
        let ident = Node::Identifier { value: self.cur_clone() };
        if !self.expect_peek(TokenType::Assign) {
            return Err(ParserError::AssignExpected);
        }
        proof {
            assert(self.pos as int == pos0 + 2);
        }
        self.next_token();
        proof {
            assert(self.pos as int == pos0 + 3);
        }
        let value = match self.parse_expression(Precedence::Lowest) {
            Ok(v) => v,
            Err(e) => {
                return Err(e);
            },
        };
        if self.peek_type() == TokenType::Semicolon {
            self.next_token();
        }
        let r = Node::LetStatement { name: Box::new(ident), value: Some(Box::new(value)) };
        proof {
            assert(ident.deep_view() == NodeV::Identifier { value: spec_cur(toks, pos0 + 1) });
            assert(r.deep_view() == NodeV::LetStatement {
                name: Box::new(ident.deep_view()),
                value: Some(Box::new(value.deep_view())),
            });
        }
        Ok(r)
    }

    /// Parses `return <expression>` with an optional trailing
    /// semicolon.
    #[verifier::rlimit(100)]
    fn parse_return_statement(&mut self) -> (r: Result<Node, ParserError>)
        requires
            old(self).wf(),
            spec_cur(old(self).toks(), old(self).pos as int).t == TokenType::Return,
        ensures
            final(self).wf(),
            final(self).toks() == old(self).toks(),
            final(self).errors@ == old(self).errors@,
            old(self).pos <= final(self).pos,
            res_view(r) == sp_parse_return(old(self).toks(), old(self).pos as int).r,
            final(self).pos as int == sp_parse_return(old(self).toks(), old(self).pos as int).next,
        decreases self.tokens@.len() - self.pos, 3int,
    {
        self.next_token();
        let value = match self.parse_expression(Precedence::Lowest) {
            Ok(v) => v,
            Err(e) => {
                return Err(e);
            },
        };
        if self.peek_type() == TokenType::Semicolon {
            self.next_token();
        }
        Ok(Node::ReturnStatement { value: Some(Box::new(value)) })
    }

    /// Parses an expression statement with an optional trailing
    /// semicolon.
    fn parse_expression_statement(&mut self) -> (r: Result<Node, ParserError>)
        requires
            old(self).wf(),
        ensures
            final(self).wf(),
            final(self).toks() == old(self).toks(),
            final(self).errors@ == old(self).errors@,
            old(self).pos <= final(self).pos,
            res_view(r) == sp_parse_expression_statement(old(self).toks(), old(self).pos as int).r,
            final(self).pos as int == sp_parse_expression_statement(
                old(self).toks(),
                old(self).pos as int,
            ).next,
        decreases self.tokens@.len() - self.pos, 3int,
    {
        let expr = match self.parse_expression(Precedence::Lowest) {
            Ok(v) => v,
            Err(e) => {
                return Err(e);
            },
        };
        if self.peek_type() == TokenType::Semicolon {
            self.next_token();
        }
        Ok(Node::ExpressionStatement { expression: Some(Box::new(expr)) })
    }

    /// Parses one expression at the given binding strength: one prefix
    /// term, then every infix or call extension that binds tighter.
    fn parse_expression(&mut self, precedence: Precedence) -> (r: Result<Node, ParserError>)
        requires
            old(self).wf(),
        ensures
            final(self).wf(),
            final(self).toks() == old(self).toks(),
            final(self).errors@ == old(self).errors@,
            old(self).pos <= final(self).pos,
            res_view(r) == sp_parse_expression(
                old(self).toks(),
                old(self).pos as int,
                spec_rank(precedence),
            ).r,
            final(self).pos as int == sp_parse_expression(
                old(self).toks(),
                old(self).pos as int,
                spec_rank(precedence),
            ).next,
        decreases self.tokens@.len() - self.pos, 2int,
    {
        let ghost toks = old(self).toks();
        let ghost pos0 = old(self).pos as int;
        let ghost out = sp_parse_expression(toks, pos0, spec_rank(precedence));
        let first = match self.cur_type() {
            TokenType::Ident => Ok(Node::Identifier { value: self.cur_clone() }),
            TokenType::Int => self.parse_integer_literal(),
            TokenType::Minus => self.parse_prefix_expression(),
            TokenType::Bang => self.parse_prefix_expression(),
            TokenType::True => self.parse_boolean_expression(),
            TokenType::False => self.parse_boolean_expression(),
            TokenType::LParen => self.parse_grouped_expression(),
            TokenType::If => self.parse_if_expression(),
            TokenType::Function => self.parse_function_literal(),
            _ => Err(ParserError::TokenUnrecognized),
        };
        let mut left = match first {
            Ok(n) => n,
            Err(e) => {
                return Err(e);
            },
        };
        loop
            invariant
                toks == old(self).toks(),
                pos0 == old(self).pos as int,
                out == sp_parse_expression(toks, pos0, spec_rank(precedence)),
                self.wf(),
                self.toks() == toks,
                self.errors@ == old(self).errors@,
                pos0 <= self.pos,
                sp_infix_loop(toks, self.pos as int, spec_rank(precedence), left.deep_view())
                    == out,
            decreases toks.len() - self.pos,
        {
            let pt = self.peek_type();
            if pt == TokenType::Semicolon || rank(precedence) >= rank(
                self.check_peek_precedence(),
            ) {
                return Ok(left);
            }
            if pt == TokenType::LParen {
                self.next_token();
                match self.parse_call_expression(left) {
                    Ok(n) => {
                        left = n;
                    },
                    Err(e) => {
                        return Err(e);
                    },
                }
            } else {
                self.next_token();
                match self.parse_infix_expression(left) {
                    Ok(n) => {
                        left = n;
                    },
                    Err(e) => {
                        return Err(e);
                    },
                }
            }
        }
    }

    /// Parses an integer literal from the token under the cursor.
    fn parse_integer_literal(&mut self) -> (r: Result<Node, ParserError>)
        requires
            old(self).wf(),
        ensures
            final(self).wf(),
            final(self).toks() == old(self).toks(),
            final(self).errors@ == old(self).errors@,
            old(self).pos <= final(self).pos,
            res_view(r) == sp_parse_integer_literal(old(self).toks(), old(self).pos as int).r,
            final(self).pos as int == sp_parse_integer_literal(
                old(self).toks(),
                old(self).pos as int,
            ).next,
        decreases self.tokens@.len() - self.pos, 1int,
    {
        let tok = self.cur_clone();
        match parse_i64(tok.v.as_str()) {
            Some(v) => Ok(Node::IntegerLiteral { value: v }),
            None => Err(ParserError::IntegerParsingFailed),
        }
    }

    /// Parses a boolean literal from the token under the cursor.
    fn parse_boolean_expression(&mut self) -> (r: Result<Node, ParserError>)
        requires
            old(self).wf(),
        ensures
            final(self).wf(),
            final(self).toks() == old(self).toks(),
            final(self).errors@ == old(self).errors@,
            old(self).pos <= final(self).pos,
            res_view(r) == sp_parse_boolean(old(self).toks(), old(self).pos as int).r,
            final(self).pos as int == sp_parse_boolean(old(self).toks(), old(self).pos as int).next,
        decreases self.tokens@.len() - self.pos, 1int,
    {
        Ok(Node::Boolean { value: self.cur_type() == TokenType::True })
    }

    /// Parses a prefix operation: the operator under the cursor, then
    /// its operand at prefix strength.
    fn parse_prefix_expression(&mut self) -> (r: Result<Node, ParserError>)
        requires
            old(self).wf(),
            spec_cur(old(self).toks(), old(self).pos as int).t == TokenType::Minus || spec_cur(
                old(self).toks(),
                old(self).pos as int,
            ).t == TokenType::Bang,
        ensures
            final(self).wf(),
            final(self).toks() == old(self).toks(),
            final(self).errors@ == old(self).errors@,
            old(self).pos <= final(self).pos,
            res_view(r) == sp_parse_prefix_expression(old(self).toks(), old(self).pos as int).r,
            final(self).pos as int == sp_parse_prefix_expression(
                old(self).toks(),
                old(self).pos as int,
            ).next,
        decreases self.tokens@.len() - self.pos, 1int,
    {
        let prefix_token = self.cur_clone();
        self.next_token();
        let right = match self.parse_expression(Precedence::Prefix) {
            Ok(v) => v,
            Err(e) => {
                return Err(e);
            },
        };
        Ok(Node::PrefixExpression { operator: prefix_token.v, right: Box::new(right) })
    }

    /// Parses a parenthesized expression and requires the closing
    /// parenthesis.
    fn parse_grouped_expression(&mut self) -> (r: Result<Node, ParserError>)
        requires
            old(self).wf(),
            spec_cur(old(self).toks(), old(self).pos as int).t == TokenType::LParen,
        ensures
            final(self).wf(),
            final(self).toks() == old(self).toks(),
            final(self).errors@ == old(self).errors@,
            old(self).pos <= final(self).pos,
            res_view(r) == sp_parse_grouped(old(self).toks(), old(self).pos as int).r,
            final(self).pos as int == sp_parse_grouped(old(self).toks(), old(self).pos as int).next,
        decreases self.tokens@.len() - self.pos, 1int,
    {
        self.next_token();
        let exp = match self.parse_expression(Precedence::Lowest) {
            Ok(v) => v,
            Err(e) => {
                return Err(e);
            },
        };
        if !self.expect_peek(TokenType::RParen) {
            return Err(ParserError::GroupExpressionParsingFailed);
        }
        Ok(exp)
    }

    /// Parses `if <condition> { block }` with an optional
    /// `else { block }`.
    #[verifier::rlimit(80)]
    fn parse_if_expression(&mut self) -> (r: Result<Node, ParserError>)
        requires
            old(self).wf(),
            spec_cur(old(self).toks(), old(self).pos as int).t == TokenType::If,
        ensures
            final(self).wf(),
            final(self).toks() == old(self).toks(),
            final(self).errors@ == old(self).errors@,
            old(self).pos <= final(self).pos,
            res_view(r) == sp_parse_if(old(self).toks(), old(self).pos as int).r,
            final(self).pos as int == sp_parse_if(old(self).toks(), old(self).pos as int).next,
        decreases self.tokens@.len() - self.pos, 1int,
    {
        self.next_token();
        let condition = match self.parse_expression(Precedence::Lowest) {
            Ok(v) => v,
            Err(e) => {
                return Err(e);
            },
        };
        if !self.expect_peek(TokenType::LBrace) {
            return Err(ParserError::IncorrectIfStatement);
        }
        let consequence = match self.parse_block_statement() {
            Ok(v) => v,
            Err(e) => {
                return Err(e);
            },
        };
        if self.peek_type() == TokenType::Else {
            self.next_token();
            if !self.expect_peek(TokenType::LBrace) {
                return Err(ParserError::IncorrectIfStatement);
            }
            let alternative = match self.parse_block_statement() {
                Ok(v) => v,
                Err(e) => {
                    return Err(e);
                },
            };
            Ok(Node::IfExpression {
                condition: Box::new(condition),
                consequence: Box::new(consequence),
                alternative: Some(Box::new(alternative)),
            })
        } else {
            Ok(Node::IfExpression {
                condition: Box::new(condition),
                consequence: Box::new(consequence),
                alternative: None,
            })
        }
    }

    /// Parses a brace-delimited block: the cursor stands on the
    /// opening brace, and ends on the closing one.
    fn parse_block_statement(&mut self) -> (r: Result<Node, ParserError>)
        requires
            old(self).wf(),
            spec_cur(old(self).toks(), old(self).pos as int).t == TokenType::LBrace,
        ensures
            final(self).wf(),
            final(self).toks() == old(self).toks(),
            final(self).errors@ == old(self).errors@,
            old(self).pos <= final(self).pos,
            res_view(r) == sp_parse_block(old(self).toks(), old(self).pos as int).r,
            final(self).pos as int == sp_parse_block(old(self).toks(), old(self).pos as int).next,
        decreases self.tokens@.len() - self.pos, 3int,
    {
        let ghost toks = old(self).toks();
        let ghost pos0 = old(self).pos as int;
        let ghost out = sp_parse_block(toks, pos0);
        let mut statements: Vec<Node> = Vec::new();
        self.next_token();
        proof {
            assert(Node::deep_view_seq(statements@) =~= Seq::<NodeV>::empty());
        }
        loop
            invariant
                toks == old(self).toks(),
                pos0 == old(self).pos as int,
                out == sp_parse_block(toks, pos0),
                self.wf(),
                self.toks() == toks,
                self.errors@ == old(self).errors@,
                pos0 < self.pos,
                sp_block_loop(toks, self.pos as int, Node::deep_view_seq(statements@)) == out,
            decreases toks.len() - self.pos,
        {
            let ct = self.cur_type();
            if ct == TokenType::RBrace || ct == TokenType::EOF {
                return Ok(Node::BlockStatement { statements });
            }
            let ghost p = self.pos as int;
            let stmt = match self.parse_statement() {
                Ok(v) => v,
                Err(e) => {
                    return Err(e);
                },
            };
            let ghost old_statements = statements@;
            statements.push(stmt);
            self.next_token();
            proof {
                crate::ast::lemma_deep_view_seq_push(old_statements, stmt);
                assert(clamp_gt(
                    toks.len() as int,
                    p,
                    spec_advance(toks.len() as int, sp_parse_statement(toks, p).next),
                ) == self.pos as int);
            }
        }
    }

    /// Parses the call arguments after a parsed callee: the cursor
    /// stands on the opening parenthesis, and ends on the closing one.
    fn parse_call_expression(&mut self, function: Node) -> (r: Result<Node, ParserError>)
        requires
            old(self).wf(),
            spec_cur(old(self).toks(), old(self).pos as int).t == TokenType::LParen,
        ensures
            final(self).wf(),
            final(self).toks() == old(self).toks(),
            final(self).errors@ == old(self).errors@,
            old(self).pos <= final(self).pos,
            res_view(r) == match sp_call_args(old(self).toks(), old(self).pos as int).r {
                Ok(args) => Ok(
                    NodeV::CallExpression {
                        function: Box::new(function.deep_view()),
                        arguments: args,
                    },
                ),
                Err(e) => Err(e),
            },
            final(self).pos as int == sp_call_args(old(self).toks(), old(self).pos as int).next,
        decreases self.tokens@.len() - self.pos, 3int,
    {
        let ghost toks = old(self).toks();
        let ghost pos0 = old(self).pos as int;
        let ghost aout = sp_call_args(toks, pos0);
        if self.peek_type() == TokenType::RParen {
            self.next_token();
            let r = Ok(Node::CallExpression { function: Box::new(function), arguments: Vec::new() });
            proof {
                assert(Node::deep_view_seq(Seq::<Node>::empty()) =~= Seq::<NodeV>::empty());
            }
            return r;
        }
        self.next_token();
        let first = match self.parse_expression(Precedence::Lowest) {
            Ok(v) => v,
            Err(e) => {
                return Err(e);
            },
        };
        let mut arguments: Vec<Node> = Vec::new();
        let ghost empty_args = arguments@;
        arguments.push(first);
        proof {
            crate::ast::lemma_deep_view_seq_push(empty_args, first);
            assert(Node::deep_view_seq(arguments@) =~= seq![first.deep_view()]);
        }
        loop
            invariant
                toks == old(self).toks(),
                pos0 == old(self).pos as int,
                aout == sp_call_args(toks, pos0),
                self.wf(),
                self.toks() == toks,
                self.errors@ == old(self).errors@,
                pos0 < self.pos,
                sp_args_loop(toks, self.pos as int, Node::deep_view_seq(arguments@)) == (SpListOut {
                    r: aout.r,
                    next: aout.next,
                }),
            decreases toks.len() - self.pos,
        {
            let pt = self.peek_type();
            if pt == TokenType::Comma {
                let ghost p = self.pos as int;
                self.next_token();
                self.next_token();
                let a = match self.parse_expression(Precedence::Lowest) {
                    Ok(v) => v,
                    Err(e) => {
                        return Err(e);
                    },
                };
                let ghost old_arguments = arguments@;
                arguments.push(a);
                proof {
                    crate::ast::lemma_deep_view_seq_push(old_arguments, a);
                    assert(clamp_gt(
                        toks.len() as int,
                        p,
                        sp_parse_expression(toks, p + 2, 0).next,
                    ) == self.pos as int);
                }
            } else if pt == TokenType::RParen {
                self.next_token();
                return Ok(Node::CallExpression { function: Box::new(function), arguments });
            } else {
                return Err(ParserError::GroupExpressionParsingFailed);
            }
        }
    }

    /// Parses one infix operation onto a parsed left operand: the
    /// cursor stands on the operator.
    fn parse_infix_expression(&mut self, left: Node) -> (r: Result<Node, ParserError>)
        requires
            old(self).wf(),
            spec_token_rank(spec_cur(old(self).toks(), old(self).pos as int).t) >= 1,
            spec_cur(old(self).toks(), old(self).pos as int).t != TokenType::LParen,
        ensures
            final(self).wf(),
            final(self).toks() == old(self).toks(),
            final(self).errors@ == old(self).errors@,
            old(self).pos <= final(self).pos,
            res_view(r) == match sp_parse_expression(
                old(self).toks(),
                old(self).pos as int + 1,
                spec_token_rank(spec_cur(old(self).toks(), old(self).pos as int).t),
            ).r {
                Ok(rv) => Ok(
                    NodeV::InfixExpression {
                        left: Box::new(left.deep_view()),
                        operator: spec_cur(old(self).toks(), old(self).pos as int).v,
                        right: Box::new(rv),
                    },
                ),
                Err(e) => Err(e),
            },
            final(self).pos as int == sp_parse_expression(
                old(self).toks(),
                old(self).pos as int + 1,
                spec_token_rank(spec_cur(old(self).toks(), old(self).pos as int).t),
            ).next,
        decreases self.tokens@.len() - self.pos, 1int,
    {
        let operator = self.cur_clone();
        let precedence = self.check_curr_precedence();
        self.next_token();
        let right = match self.parse_expression(precedence) {
            Ok(v) => v,
            Err(e) => {
                return Err(e);
            },
        };
        Ok(Node::InfixExpression {
            left: Box::new(left),
            operator: operator.v,
            right: Box::new(right),
        })
    }

    /// Parses `fn ( <parameters> ) { block }`.
    fn parse_function_literal(&mut self) -> (r: Result<Node, ParserError>)
        requires
            old(self).wf(),
            spec_cur(old(self).toks(), old(self).pos as int).t == TokenType::Function,
        ensures
            final(self).wf(),
            final(self).toks() == old(self).toks(),
            final(self).errors@ == old(self).errors@,
            old(self).pos <= final(self).pos,
            res_view(r) == sp_parse_function_literal(old(self).toks(), old(self).pos as int).r,
            final(self).pos as int == sp_parse_function_literal(
                old(self).toks(),
                old(self).pos as int,
            ).next,
        decreases self.tokens@.len() - self.pos, 1int,
    {
        let ghost toks = old(self).toks();
        let ghost pos0 = old(self).pos as int;
        let ghost out = sp_parse_function_literal(toks, pos0);
        if !self.expect_peek(TokenType::LParen) {
            return Err(ParserError::IncorrectFunctionDeclaration);
        }
        let mut parameters: Vec<Node> = Vec::new();
        if self.peek_type() == TokenType::RParen {
            self.next_token();
            proof {
                assert(Node::deep_view_seq(parameters@) =~= Seq::<NodeV>::empty());
            }
        } else {
            self.next_token();
            let ghost pgoal = sp_params_loop(toks, pos0 + 2, seq![
                NodeV::Identifier { value: spec_cur(toks, pos0 + 2) },
            ]);
            let ghost empty_params = parameters@;
            let first = Node::Identifier { value: self.cur_clone() };
            parameters.push(first);
            proof {
                crate::ast::lemma_deep_view_seq_push(empty_params, first);
                assert(Node::deep_view_seq(parameters@) =~= seq![
                    NodeV::Identifier { value: spec_cur(toks, pos0 + 2) },
                ]);
            }
            loop
                invariant_except_break
                    sp_params_loop(toks, self.pos as int, Node::deep_view_seq(parameters@))
                        == pgoal,
                invariant
                    toks == old(self).toks(),
                    pos0 == old(self).pos as int,
                    out == sp_parse_function_literal(toks, pos0),
                    pgoal == sp_params_loop(toks, pos0 + 2, seq![
                        NodeV::Identifier { value: spec_cur(toks, pos0 + 2) },
                    ]),
                    spec_cur(toks, pos0).t == TokenType::Function,
                    spec_cur(toks, pos0 + 1).t == TokenType::LParen,
                    spec_cur(toks, pos0 + 2).t != TokenType::RParen,
                    self.wf(),
                    self.toks() == toks,
                    self.errors@ == old(self).errors@,
                    pos0 < self.pos,
                ensures
                    toks == old(self).toks(),
                    pos0 == old(self).pos as int,
                    out == sp_parse_function_literal(toks, pos0),
                    spec_cur(toks, pos0).t == TokenType::Function,
                    spec_cur(toks, pos0 + 1).t == TokenType::LParen,
                    spec_cur(toks, pos0 + 2).t != TokenType::RParen,
                    self.wf(),
                    self.toks() == toks,
                    self.errors@ == old(self).errors@,
                    pos0 < self.pos,
                    pgoal == (SpListOut {
                        r: Ok(Node::deep_view_seq(parameters@)),
                        next: self.pos as int,
                    }),
                decreases toks.len() - self.pos,
            {
                let pt = self.peek_type();
                if pt == TokenType::Comma {
                    self.next_token();
                    self.next_token();
                    let ghost old_parameters = parameters@;
                    let param = Node::Identifier { value: self.cur_clone() };
                    parameters.push(param);
                    proof {
                        crate::ast::lemma_deep_view_seq_push(old_parameters, param);
                    }
                } else if pt == TokenType::RParen {
                    let ghost p = self.pos as int;
                    self.next_token();
                    proof {
                        assert(pgoal == (SpListOut {
                            r: Ok(Node::deep_view_seq(parameters@)),
                            next: p + 1,
                        }));
                    }
                    break ;
                } else {
                    return Err(ParserError::IncorrectFunctionDeclaration);
                }
            }
        }
        if !self.expect_peek(TokenType::LBrace) {
            return Err(ParserError::IncorrectFunctionDeclaration);
        }
        let body = match self.parse_block_statement() {
            Ok(v) => v,
            Err(e) => {
                return Err(e);
            },
        };
        Ok(Node::FunctionLiteral { parameters, body: Box::new(body) })
    }
}

} // verus!
