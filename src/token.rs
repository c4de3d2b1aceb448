//! The tokens that the scanner emits, and their mathematical views.
//!
//! Every token type without text in it is a plain enum whose values serve as
//! their own view; the variants that carry text (identifiers, string and
//! floating literals) are viewed as character sequences.

use vstd::prelude::*;

verus! {

/// A half-open range `[start, end)` of character offsets into the input,
/// with the zero-based line and column at which it starts.
#[derive(Debug, Clone, Copy, PartialEq, Eq, Structural)]
pub struct TokenSpan {
    pub start: usize,
    pub end: usize,
    pub line: usize,
    pub column: usize,
}

/// A numeric literal. A literal without a decimal point is a `SignedInteger`
/// when its value fits in `i64`; a larger one, and one with a decimal point,
/// is a `Float` that keeps the literal's decimal text, so that no precision is
/// decided here. `UnsignedInteger` arises from arithmetic on numbers.
#[derive(Debug, Clone, PartialEq)]
pub enum NumberToken {
    SignedInteger(i64),
    UnsignedInteger(u64),
    Float(String),
}

#[derive(Debug, Clone, Copy, PartialEq, Eq, Structural)]
pub enum WhiteSpaceToken {
    Space,
    Tab,
    NewLine,
}

#[derive(Debug, Clone, Copy, PartialEq, Eq, Structural)]
pub enum PunctuatorToken {
    Semicolon,
    Comma,
    Dot,
    Colon,
}

#[derive(Debug, Clone, Copy, PartialEq, Eq, Structural)]
pub enum DelimiterToken {
    SingleQuote,
    DoubleQuote,
    BackTick,
    OpenParenthesis,
    CloseParenthesis,
    OpenBracket,
    CloseBracket,
    OpenBrace,
    CloseBrace,
    EOF,
}

#[derive(Debug, Clone, PartialEq)]
pub enum LiteralToken {
    Number(NumberToken),
    String(String),
    Boolean(bool),
    Null,
    Undefined,
}

#[derive(Debug, Clone, Copy, PartialEq, Eq, Structural)]
pub enum ArithmeticToken {
    Add,
    Subtract,
    Multiply,
    Divide,
    BitwiseAnd,
    BitwiseOr,
    Or,
    And,
    Modulo,
}

#[derive(Debug, Clone, Copy, PartialEq, Eq, Structural)]
pub enum ComparisonToken {
    Equal,
    NotEqual,
    GreaterThan,
    GreaterThanOrEqual,
    LessThan,
    LessThanOrEqual,
    Not,
}

#[derive(Debug, Clone, Copy, PartialEq, Eq, Structural)]
pub enum LogicalToken {
    And,
    Or,
    Not,
    XOr,
    XAnd,
}

#[derive(Debug, Clone, Copy, PartialEq, Eq, Structural)]
pub enum ControlFlowToken {
    If,
    Else,
    For,
    In,
    Has,
    Return,
}

#[derive(Debug, Clone, Copy, PartialEq, Eq, Structural)]
pub enum AssignmentToken {
    Assign,
    PlusAssign,
    MinusAssign,
    MultiplyAssign,
    DivideAssign,
    BitwiseAndAssign,
    BitwiseOrAssign,
    OrAssign,
    AndAssign,
}

#[derive(Debug, Clone, PartialEq)]
pub struct IdentifierToken {
    pub value: String,
}

impl IdentifierToken {
    pub fn new(value: String) -> (r: Self)
        ensures
            r.value == value,
    {
        IdentifierToken { value }
    }
}

#[derive(Debug, Clone, Copy, PartialEq, Eq, Structural)]
pub enum DeclarationToken {
    Let,
    Function,
    Object,
}

#[derive(Debug, Clone, Copy, PartialEq, Eq, Structural)]
pub enum ObjectReferenceToken {
    This,
    Super,
    New,
}

#[derive(Debug, Clone, PartialEq)]
pub enum TokenType {
    Assignment(AssignmentToken),
    Arithmetic(ArithmeticToken),
    Punctuation(PunctuatorToken),
    /// Equality and ordering tests.
    Comparison(ComparisonToken),
    /// Combinations of boolean expressions.
    Logical(LogicalToken),
    Delimiter(DelimiterToken),
    ControlFlow(ControlFlowToken),
    WhiteSpace(WhiteSpaceToken),
    Identifier(IdentifierToken),
    Literal(LiteralToken),
    Declaration(DeclarationToken),
    ObjectReference(ObjectReferenceToken),
    Unknown(char),
}

#[derive(Debug, Clone, PartialEq)]
pub struct Token {
    pub token_type: TokenType,
    pub token_span: TokenSpan,
}

impl Token {
    pub fn new(token_type: TokenType, token_span: TokenSpan) -> (r: Self)
        ensures
            r.token_type == token_type,
            r.token_span == token_span,
    {
        Token { token_type, token_span }
    }
}

/// The view of a `NumberToken`: a float is its decimal text.
pub enum NumberView {
    SignedInteger(i64),
    UnsignedInteger(u64),
    Float(Seq<char>),
}

pub enum LiteralView {
    Number(NumberView),
    String(Seq<char>),
    Boolean(bool),
    Null,
    Undefined,
}

pub enum TokenTypeView {
    Assignment(AssignmentToken),
    Arithmetic(ArithmeticToken),
    Punctuation(PunctuatorToken),
    Comparison(ComparisonToken),
    Logical(LogicalToken),
    Delimiter(DelimiterToken),
    ControlFlow(ControlFlowToken),
    WhiteSpace(WhiteSpaceToken),
    Identifier(Seq<char>),
    Literal(LiteralView),
    Declaration(DeclarationToken),
    ObjectReference(ObjectReferenceToken),
    Unknown(char),
}

/// A token as a mathematical value: its type and the span it covers.
pub struct TokenView {
    pub kind: TokenTypeView,
    pub start: int,
    pub end: int,
    pub line: int,
    pub column: int,
}

impl View for NumberToken {
    type V = NumberView;

    open spec fn view(&self) -> NumberView {
        match self {
            NumberToken::SignedInteger(n) => NumberView::SignedInteger(*n),
            NumberToken::UnsignedInteger(n) => NumberView::UnsignedInteger(*n),
            NumberToken::Float(text) => NumberView::Float(text@),
        }
    }
}

impl View for LiteralToken {
    type V = LiteralView;

    open spec fn view(&self) -> LiteralView {
        match self {
            LiteralToken::Number(n) => LiteralView::Number(n@),
            LiteralToken::String(s) => LiteralView::String(s@),
            LiteralToken::Boolean(b) => LiteralView::Boolean(*b),
            LiteralToken::Null => LiteralView::Null,
            LiteralToken::Undefined => LiteralView::Undefined,
        }
    }
}

impl View for TokenType {
    type V = TokenTypeView;

    open spec fn view(&self) -> TokenTypeView {
        match self {
            TokenType::Assignment(t) => TokenTypeView::Assignment(*t),
            TokenType::Arithmetic(t) => TokenTypeView::Arithmetic(*t),
            TokenType::Punctuation(t) => TokenTypeView::Punctuation(*t),
            TokenType::Comparison(t) => TokenTypeView::Comparison(*t),
            TokenType::Logical(t) => TokenTypeView::Logical(*t),
            TokenType::Delimiter(t) => TokenTypeView::Delimiter(*t),
            TokenType::ControlFlow(t) => TokenTypeView::ControlFlow(*t),
            TokenType::WhiteSpace(t) => TokenTypeView::WhiteSpace(*t),
            TokenType::Identifier(id) => TokenTypeView::Identifier(id.value@),
            TokenType::Literal(l) => TokenTypeView::Literal(l@),
            TokenType::Declaration(t) => TokenTypeView::Declaration(*t),
            TokenType::ObjectReference(t) => TokenTypeView::ObjectReference(*t),
            TokenType::Unknown(c) => TokenTypeView::Unknown(*c),
        }
    }
}

impl View for Token {
    type V = TokenView;

    open spec fn view(&self) -> TokenView {
        TokenView {
            kind: self.token_type@,
            start: self.token_span.start as int,
            end: self.token_span.end as int,
            line: self.token_span.line as int,
            column: self.token_span.column as int,
        }
    }
}

pub open spec fn in_i64(v: int) -> bool {
    i64::MIN <= v && v <= i64::MAX
}

/// The sum of two numbers where integer arithmetic gives it exactly: two
/// signed or two unsigned integers keep their kind; a signed and an unsigned
/// one add as signed when the unsigned value fits in `i64`. `None` where the
/// sum must be a float: a float operand, an unsigned value beyond `i64`
/// beside a signed one, or a sum outside the result's range.
pub open spec fn integer_sum(a: NumberView, b: NumberView) -> Option<NumberView> {
    match (a, b) {
        (NumberView::SignedInteger(x), NumberView::SignedInteger(y)) => {
            if in_i64(x + y) {
                Some(NumberView::SignedInteger((x + y) as i64))
            } else {
                None
            }
        },
        (NumberView::UnsignedInteger(x), NumberView::UnsignedInteger(y)) => {
            if x + y <= u64::MAX {
                Some(NumberView::UnsignedInteger((x + y) as u64))
            } else {
                None
            }
        },
        (NumberView::SignedInteger(x), NumberView::UnsignedInteger(y)) => {
            if y <= i64::MAX && in_i64(x + y) {
                Some(NumberView::SignedInteger((x + y) as i64))
            } else {
                None
            }
        },
        (NumberView::UnsignedInteger(x), NumberView::SignedInteger(y)) => {
            if x <= i64::MAX && in_i64(x + y) {
                Some(NumberView::SignedInteger((x + y) as i64))
            } else {
                None
            }
        },
        _ => None,
    }
}

impl NumberToken {
    /// The integer part of numeric addition, with every overflow checked:
    /// `None` where the sum has to be computed in floating point.
    pub fn checked_add(&self, rhs: &NumberToken) -> (r: Option<NumberToken>)
        ensures
            match r {
                Some(n) => integer_sum(self@, rhs@) == Some(n@),
                None => integer_sum(self@, rhs@) is None,
            },
    {
        match (self, rhs) {
            (NumberToken::SignedInteger(x), NumberToken::SignedInteger(y)) => {
                match x.checked_add(*y) {
                    Some(v) => Some(NumberToken::SignedInteger(v)),
                    None => None,
                }
            },
            (NumberToken::UnsignedInteger(x), NumberToken::UnsignedInteger(y)) => {
                match x.checked_add(*y) {
                    Some(v) => Some(NumberToken::UnsignedInteger(v)),
                    None => None,
                }
            },
            (NumberToken::SignedInteger(x), NumberToken::UnsignedInteger(y)) => {
                signed_plus_unsigned(*x, *y)
            },
            (NumberToken::UnsignedInteger(x), NumberToken::SignedInteger(y)) => {
                signed_plus_unsigned(*y, *x)
            },
            _ => None,
        }
    }
}

fn signed_plus_unsigned(x: i64, y: u64) -> (r: Option<NumberToken>)
    ensures
        match r {
            Some(n) => y <= i64::MAX && in_i64(x + y) && n@ == NumberView::SignedInteger(
                (x + y) as i64,
            ),
            None => !(y <= i64::MAX && in_i64(x + y)),
        },
{
    if y <= i64::MAX as u64 {
        match x.checked_add(y as i64) {
            Some(v) => Some(NumberToken::SignedInteger(v)),
            None => None,
        }
    } else {
        None
    }
}

} // verus!
