//! The lexical grammar as spec functions over the input's characters: where
//! each lexeme ends, what token it makes, and the whole token sequence.

use vstd::prelude::*;

use crate::text::{alphanumeric, is_ascii_digit};
use crate::token::{
    ArithmeticToken, AssignmentToken, ComparisonToken, ControlFlowToken, DeclarationToken,
    DelimiterToken, LiteralView, LogicalToken, NumberView, ObjectReferenceToken, PunctuatorToken,
    TokenTypeView, TokenView, WhiteSpaceToken,
};

verus! {

/// The end of the maximal run of alphanumeric characters that starts at `i`.
pub open spec fn run_end(s: Seq<char>, i: int) -> int
    decreases s.len() - i,
{
    if 0 <= i < s.len() && alphanumeric(s[i]) {
        run_end(s, i + 1)
    } else {
        i
    }
}

pub open spec fn all_digits(w: Seq<char>) -> bool {
    forall|k: int| 0 <= k < w.len() ==> is_ascii_digit(#[trigger] w[k])
}

/// The end of the word that starts at `i`: a run of alphanumeric characters,
/// extended by one `.` and the run after it when the run so far is all
/// digits and a digit follows the `.`. A second `.` ends the word, so that a
/// malformed number such as `1.2.3` reads as `1.2`, `.`, `3`. Only `.`
/// separates decimals: `,` is always the comma token.
pub open spec fn word_end(s: Seq<char>, i: int) -> int {
    let j = run_end(s, i);
    if j + 1 < s.len() && s[j] == '.' && is_ascii_digit(s[j + 1]) && all_digits(
        s.subrange(i, j),
    ) {
        run_end(s, j + 1)
    } else {
        j
    }
}

/// The token of a reserved word, if `w` is one.
pub open spec fn keyword(w: Seq<char>) -> Option<TokenTypeView> {
    if w == seq!['l', 'e', 't'] {
        Some(TokenTypeView::Declaration(DeclarationToken::Let))
    } else if w == seq!['f', 'n'] {
        Some(TokenTypeView::Declaration(DeclarationToken::Function))
    } else if w == seq!['o', 'b', 'j'] {
        Some(TokenTypeView::Declaration(DeclarationToken::Object))
    } else if w == seq!['t', 'r', 'u', 'e'] {
        Some(TokenTypeView::Literal(LiteralView::Boolean(true)))
    } else if w == seq!['f', 'a', 'l', 's', 'e'] {
        Some(TokenTypeView::Literal(LiteralView::Boolean(false)))
    } else if w == seq!['n', 'u', 'l', 'l'] {
        Some(TokenTypeView::Literal(LiteralView::Null))
    } else if w == seq!['u', 'n', 'd', 'e', 'f', 'i', 'n', 'e', 'd'] {
        Some(TokenTypeView::Literal(LiteralView::Undefined))
    } else if w == seq!['t', 'h', 'i', 's'] {
        Some(TokenTypeView::ObjectReference(ObjectReferenceToken::This))
    } else if w == seq!['s', 'u', 'p', 'e', 'r'] {
        Some(TokenTypeView::ObjectReference(ObjectReferenceToken::Super))
    } else if w == seq!['n', 'e', 'w'] {
        Some(TokenTypeView::ObjectReference(ObjectReferenceToken::New))
    } else if w == seq!['i', 'f'] {
        Some(TokenTypeView::ControlFlow(ControlFlowToken::If))
    } else if w == seq!['f', 'o', 'r'] {
        Some(TokenTypeView::ControlFlow(ControlFlowToken::For))
    } else if w == seq!['e', 'l', 's', 'e'] {
        Some(TokenTypeView::ControlFlow(ControlFlowToken::Else))
    } else if w == seq!['i', 'n'] {
        Some(TokenTypeView::ControlFlow(ControlFlowToken::In))
    } else if w == seq!['h', 'a', 's'] {
        Some(TokenTypeView::ControlFlow(ControlFlowToken::Has))
    } else if w == seq!['r', 'e', 't', 'u', 'r', 'n'] {
        Some(TokenTypeView::ControlFlow(ControlFlowToken::Return))
    } else {
        None
    }
}

pub open spec fn digit_value(c: char) -> int {
    c as int - '0' as int
}

/// The value of a string of decimal digits.
pub open spec fn decimal_value(w: Seq<char>) -> int
    decreases w.len(),
{
    if w.len() == 0 {
        0
    } else {
        10 * decimal_value(w.drop_last()) + digit_value(w.last())
    }
}

pub open spec fn is_integer_literal(w: Seq<char>) -> bool {
    w.len() > 0 && all_digits(w)
}

/// Digits, one `.`, digits, with at least one digit on each side.
pub open spec fn is_decimal_literal(w: Seq<char>) -> bool {
    exists|p: int|
        0 < p < w.len() - 1 && #[trigger] w[p] == '.' && all_digits(w.subrange(0, p)) && all_digits(
            w.subrange(p + 1, w.len() as int),
        )
}

/// The token of a word: a reserved word, else a number, else an identifier.
/// An integer too large for `i64` is kept as a float.
pub open spec fn word_kind(w: Seq<char>) -> TokenTypeView {
    match keyword(w) {
        Some(k) => k,
        None => {
            if is_integer_literal(w) {
                if decimal_value(w) <= i64::MAX {
                    TokenTypeView::Literal(
                        LiteralView::Number(NumberView::SignedInteger(decimal_value(w) as i64)),
                    )
                } else {
                    TokenTypeView::Literal(LiteralView::Number(NumberView::Float(w)))
                }
            } else if is_decimal_literal(w) {
                TokenTypeView::Literal(LiteralView::Number(NumberView::Float(w)))
            } else {
                TokenTypeView::Identifier(w)
            }
        },
    }
}

pub open spec fn is_quote(c: char) -> bool {
    c == '"' || c == '\'' || c == '`'
}

/// The character that an escape `\c` stands for.
pub open spec fn unescape(c: char) -> char {
    if c == 'n' {
        '\n'
    } else if c == 't' {
        '\t'
    } else if c == 'r' {
        '\r'
    } else {
        c
    }
}

/// The rest of a string literal opened by the quote `q`, read from `j`:
/// where the literal ends (after its closing quote, or at the end of the
/// input when it is unterminated) and the text it holds.
pub open spec fn quoted(s: Seq<char>, j: int, q: char) -> (int, Seq<char>)
    decreases s.len() - j,
{
    if j >= s.len() {
        (s.len() as int, seq![])
    } else if s[j] == '\\' {
        if j + 1 >= s.len() {
            (s.len() as int, seq![])
        } else {
            let (e, t) = quoted(s, j + 2, q);
            (e, seq![unescape(s[j + 1])] + t)
        }
    } else if s[j] == q {
        (j + 1, seq![])
    } else {
        let (e, t) = quoted(s, j + 1, q);
        (e, seq![s[j]] + t)
    }
}

pub open spec fn whitespace(c: char) -> Option<WhiteSpaceToken> {
    if c == ' ' {
        Some(WhiteSpaceToken::Space)
    } else if c == '\t' {
        Some(WhiteSpaceToken::Tab)
    } else if c == '\n' {
        Some(WhiteSpaceToken::NewLine)
    } else {
        None
    }
}

/// The operators of two characters.
pub open spec fn pair_operator(c: char, d: char) -> Option<TokenTypeView> {
    if c == '=' && d == '=' {
        Some(TokenTypeView::Comparison(ComparisonToken::Equal))
    } else if c == '!' && d == '=' {
        Some(TokenTypeView::Comparison(ComparisonToken::NotEqual))
    } else if c == '>' && d == '=' {
        Some(TokenTypeView::Comparison(ComparisonToken::GreaterThanOrEqual))
    } else if c == '<' && d == '=' {
        Some(TokenTypeView::Comparison(ComparisonToken::LessThanOrEqual))
    } else if c == '&' && d == '&' {
        Some(TokenTypeView::Logical(LogicalToken::And))
    } else if c == '|' && d == '|' {
        Some(TokenTypeView::Logical(LogicalToken::Or))
    } else if c == '+' && d == '=' {
        Some(TokenTypeView::Assignment(AssignmentToken::PlusAssign))
    } else if c == '-' && d == '=' {
        Some(TokenTypeView::Assignment(AssignmentToken::MinusAssign))
    } else if c == '*' && d == '=' {
        Some(TokenTypeView::Assignment(AssignmentToken::MultiplyAssign))
    } else if c == '/' && d == '=' {
        Some(TokenTypeView::Assignment(AssignmentToken::DivideAssign))
    } else if c == '&' && d == '=' {
        Some(TokenTypeView::Assignment(AssignmentToken::BitwiseAndAssign))
    } else if c == '|' && d == '=' {
        Some(TokenTypeView::Assignment(AssignmentToken::BitwiseOrAssign))
    } else {
        None
    }
}

/// The punctuation and operators of one character.
pub open spec fn single_operator(c: char) -> Option<TokenTypeView> {
    if c == '(' {
        Some(TokenTypeView::Delimiter(DelimiterToken::OpenParenthesis))
    } else if c == ')' {
        Some(TokenTypeView::Delimiter(DelimiterToken::CloseParenthesis))
    } else if c == '[' {
        Some(TokenTypeView::Delimiter(DelimiterToken::OpenBracket))
    } else if c == ']' {
        Some(TokenTypeView::Delimiter(DelimiterToken::CloseBracket))
    } else if c == '{' {
        Some(TokenTypeView::Delimiter(DelimiterToken::OpenBrace))
    } else if c == '}' {
        Some(TokenTypeView::Delimiter(DelimiterToken::CloseBrace))
    } else if c == ',' {
        Some(TokenTypeView::Punctuation(PunctuatorToken::Comma))
    } else if c == '.' {
        Some(TokenTypeView::Punctuation(PunctuatorToken::Dot))
    } else if c == ':' {
        Some(TokenTypeView::Punctuation(PunctuatorToken::Colon))
    } else if c == ';' {
        Some(TokenTypeView::Punctuation(PunctuatorToken::Semicolon))
    } else if c == '+' {
        Some(TokenTypeView::Arithmetic(ArithmeticToken::Add))
    } else if c == '-' {
        Some(TokenTypeView::Arithmetic(ArithmeticToken::Subtract))
    } else if c == '*' {
        Some(TokenTypeView::Arithmetic(ArithmeticToken::Multiply))
    } else if c == '/' {
        Some(TokenTypeView::Arithmetic(ArithmeticToken::Divide))
    } else if c == '&' {
        Some(TokenTypeView::Arithmetic(ArithmeticToken::BitwiseAnd))
    } else if c == '|' {
        Some(TokenTypeView::Arithmetic(ArithmeticToken::BitwiseOr))
    } else if c == '!' {
        Some(TokenTypeView::Comparison(ComparisonToken::Not))
    } else if c == '=' {
        Some(TokenTypeView::Assignment(AssignmentToken::Assign))
    } else if c == '>' {
        Some(TokenTypeView::Comparison(ComparisonToken::GreaterThan))
    } else if c == '<' {
        Some(TokenTypeView::Comparison(ComparisonToken::LessThan))
    } else {
        None
    }
}

/// The token type and the end of the lexeme that starts at `i < s.len()`.
/// Classes are tried in order: word, string literal, whitespace, operator
/// of two characters, of one character, and anything else as `Unknown`.
pub open spec fn lexeme(s: Seq<char>, i: int) -> (TokenTypeView, int) {
    let c = s[i];
    if alphanumeric(c) {
        let e = word_end(s, i);
        (word_kind(s.subrange(i, e)), e)
    } else if is_quote(c) {
        let (e, t) = quoted(s, i + 1, c);
        (TokenTypeView::Literal(LiteralView::String(t)), e)
    } else if whitespace(c) is Some {
        (TokenTypeView::WhiteSpace(whitespace(c)->0), i + 1)
    } else if i + 1 < s.len() && pair_operator(c, s[i + 1]) is Some {
        (pair_operator(c, s[i + 1])->0, i + 2)
    } else if single_operator(c) is Some {
        (single_operator(c)->0, i + 1)
    } else {
        (TokenTypeView::Unknown(c), i + 1)
    }
}

/// The number of line breaks before position `p`.
pub open spec fn line_of(s: Seq<char>, p: int) -> int
    decreases p,
{
    if p <= 0 {
        0
    } else {
        line_of(s, p - 1) + if s[p - 1] == '\n' {
            1int
        } else {
            0
        }
    }
}

/// The position where the line holding position `p` begins.
pub open spec fn line_begin(s: Seq<char>, p: int) -> int
    decreases p,
{
    if p <= 0 {
        0
    } else if s[p - 1] == '\n' {
        p
    } else {
        line_begin(s, p - 1)
    }
}

/// The token that the scanner emits when its cursor is at `i`: the lexeme
/// there, or the end-of-file token `[len, len)` once the input is consumed.
pub open spec fn token_at(s: Seq<char>, i: int) -> TokenView {
    if i >= s.len() {
        TokenView {
            kind: TokenTypeView::Delimiter(DelimiterToken::EOF),
            start: s.len() as int,
            end: s.len() as int,
            line: line_of(s, s.len() as int),
            column: s.len() - line_begin(s, s.len() as int),
        }
    } else {
        TokenView {
            kind: lexeme(s, i).0,
            start: i,
            end: lexeme(s, i).1,
            line: line_of(s, i),
            column: i - line_begin(s, i),
        }
    }
}

/// Where the cursor stands after the token at `i` is emitted.
pub open spec fn next_position(s: Seq<char>, i: int) -> int {
    if i >= s.len() {
        s.len() as int
    } else {
        lexeme(s, i).1
    }
}

/// The tokens from position `i` on, up to and including end-of-file.
pub open spec fn tokens_from(s: Seq<char>, i: int) -> Seq<TokenView>
    decreases s.len() - i,
    when 0 <= i
{
    if i >= s.len() {
        seq![token_at(s, i)]
    } else {
        proof {
            lemma_lexeme_advances(s, i);
        }
        seq![token_at(s, i)] + tokens_from(s, next_position(s, i))
    }
}

/// The whole token sequence of the input `s`.
pub open spec fn lex(s: Seq<char>) -> Seq<TokenView> {
    tokens_from(s, 0)
}

pub proof fn lemma_line_bounds(s: Seq<char>, p: int)
    requires
        0 <= p,
    ensures
        0 <= line_of(s, p) <= p,
        0 <= line_begin(s, p) <= p,
    decreases p,
{
    if p > 0 {
        lemma_line_bounds(s, p - 1);
    }
}

pub proof fn lemma_run_end(s: Seq<char>, i: int)
    requires
        0 <= i <= s.len(),
    ensures
        i <= run_end(s, i) <= s.len(),
        forall|k: int| i <= k < run_end(s, i) ==> alphanumeric(#[trigger] s[k]),
        run_end(s, i) < s.len() ==> !alphanumeric(s[run_end(s, i)]),
    decreases s.len() - i,
{
    if i < s.len() && alphanumeric(s[i]) {
        lemma_run_end(s, i + 1);
    }
}

/// `run_end` is the first position at or after `i` that is not alphanumeric.
pub proof fn lemma_run_end_at(s: Seq<char>, i: int, j: int)
    requires
        0 <= i <= j <= s.len(),
        forall|k: int| i <= k < j ==> alphanumeric(#[trigger] s[k]),
        j < s.len() ==> !alphanumeric(s[j]),
    ensures
        run_end(s, i) == j,
    decreases j - i,
{
    if i < j {
        lemma_run_end_at(s, i + 1, j);
    }
}

pub proof fn lemma_quoted_bounds(s: Seq<char>, j: int, q: char)
    requires
        0 <= j <= s.len(),
    ensures
        j <= quoted(s, j, q).0 <= s.len(),
    decreases s.len() - j,
{
    if j < s.len() {
        if s[j] == '\\' {
            if j + 1 < s.len() {
                lemma_quoted_bounds(s, j + 2, q);
            }
        } else if s[j] != q {
            lemma_quoted_bounds(s, j + 1, q);
        }
    }
}

pub proof fn lemma_lexeme_advances(s: Seq<char>, i: int)
    requires
        0 <= i < s.len(),
    ensures
        i < lexeme(s, i).1 <= s.len(),
{
    let c = s[i];
    if alphanumeric(c) {
        lemma_run_end(s, i);
        let j = run_end(s, i);
        if j + 1 < s.len() {
            lemma_run_end(s, j + 1);
        }
    } else if is_quote(c) {
        lemma_quoted_bounds(s, i + 1, c);
    }
}

} // verus!
