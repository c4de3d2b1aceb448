use toy_lang::lexer::{tokenize, Scanner};
use toy_lang::token::{
    AssignmentToken, ComparisonToken, DeclarationToken, DelimiterToken, IdentifierToken,
    LiteralToken, NumberToken, PunctuatorToken, Token, TokenSpan, TokenType, WhiteSpaceToken,
};

fn span(start: usize, end: usize, line: usize, column: usize) -> TokenSpan {
    TokenSpan {
        start,
        end,
        line,
        column,
    }
}

fn token(token_type: TokenType, start: usize, end: usize) -> Token {
    Token::new(token_type, span(start, end, 0, start))
}

fn number(n: NumberToken) -> TokenType {
    TokenType::Literal(LiteralToken::Number(n))
}

fn text(s: &str) -> TokenType {
    TokenType::Literal(LiteralToken::String(s.to_string()))
}

fn ident(s: &str) -> TokenType {
    TokenType::Identifier(IdentifierToken::new(s.to_string()))
}

fn covered_text(input: &str, tokens: &[Token]) -> String {
    let chars: Vec<char> = input.chars().collect();
    let mut out = String::new();
    for t in tokens {
        for c in &chars[t.token_span.start..t.token_span.end] {
            out.push(*c);
        }
    }
    out
}

#[test]
fn spans_reassemble_the_input() {
    let inputs = [
        "let x = \"Hello World!\";\n'other' `third`",
        "fn f(a, b) { return a >= b && !c; }",
        "1.2.3 x.y \u{0}\r\n\t héllo",
        "\"unterminated \\",
        "",
    ];
    for input in inputs {
        let tokens = tokenize(input);
        assert_eq!(covered_text(input, &tokens), input);
    }
}

#[test]
fn end_of_file_repeats() {
    let mut scanner = Scanner::new("a");
    assert_eq!(scanner.next_token(), token(ident("a"), 0, 1));
    for _ in 0..3 {
        assert_eq!(
            scanner.next_token(),
            token(TokenType::Delimiter(DelimiterToken::EOF), 1, 1)
        );
        assert!(scanner.end_of_input());
    }
}

#[test]
fn iteration_ends_after_end_of_file() {
    let mut scanner = Scanner::new("a b");
    let mut seen = Vec::new();
    while let Some(t) = scanner.next() {
        seen.push(t);
    }
    assert_eq!(seen.len(), 4);
    assert_eq!(
        seen[3],
        token(TokenType::Delimiter(DelimiterToken::EOF), 3, 3)
    );
    assert_eq!(scanner.next(), None);
    assert_eq!(seen, tokenize("a b"));
}

#[test]
fn token_count_is_bounded() {
    let input = "a+b;c";
    let tokens = tokenize(input);
    assert_eq!(tokens.len(), 6);
    assert!(tokens.len() <= input.chars().count() + 1);
}

#[test]
fn let_is_a_keyword_in_context() {
    let tokens = tokenize("let letter");
    assert_eq!(
        tokens[0],
        token(TokenType::Declaration(DeclarationToken::Let), 0, 3)
    );
    assert_eq!(tokens[2], token(ident("letter"), 4, 10));
}

#[test]
fn integer_literal_is_signed() {
    let mut scanner = Scanner::new("42");
    assert_eq!(
        scanner.next_token(),
        token(number(NumberToken::SignedInteger(42)), 0, 2)
    );
}

#[test]
fn decimal_literal_is_float() {
    let mut scanner = Scanner::new("3.14");
    let t = scanner.next_token();
    assert_eq!(t, token(number(NumberToken::Float("3.14".to_string())), 0, 4));
    match t.token_type {
        TokenType::Literal(LiteralToken::Number(NumberToken::Float(s))) => {
            assert_eq!(s.parse::<f64>().unwrap(), 3.14);
        }
        other => panic!("not a float: {:?}", other),
    }
}

#[test]
fn oversized_integer_is_float() {
    let mut scanner = Scanner::new("9999999999999999999");
    assert_eq!(
        scanner.next_token(),
        token(
            number(NumberToken::Float("9999999999999999999".to_string())),
            0,
            19
        )
    );
}

#[test]
fn largest_signed_integer() {
    let tokens = tokenize("9223372036854775807 9223372036854775808");
    assert_eq!(
        tokens[0].token_type,
        number(NumberToken::SignedInteger(i64::MAX))
    );
    assert_eq!(
        tokens[2].token_type,
        number(NumberToken::Float("9223372036854775808".to_string()))
    );
}

#[test]
fn second_decimal_point_ends_the_number() {
    let tokens = tokenize("1.2.3");
    let types: Vec<TokenType> = tokens.into_iter().map(|t| t.token_type).collect();
    assert_eq!(
        types,
        vec![
            number(NumberToken::Float("1.2".to_string())),
            TokenType::Punctuation(PunctuatorToken::Dot),
            number(NumberToken::SignedInteger(3)),
            TokenType::Delimiter(DelimiterToken::EOF),
        ]
    );
}

#[test]
fn member_access_is_not_one_word() {
    let types: Vec<TokenType> = tokenize("a.b").into_iter().map(|t| t.token_type).collect();
    assert_eq!(
        types,
        vec![
            ident("a"),
            TokenType::Punctuation(PunctuatorToken::Dot),
            ident("b"),
            TokenType::Delimiter(DelimiterToken::EOF),
        ]
    );
}

#[test]
fn mixed_word_is_identifier() {
    assert_eq!(tokenize("12abc")[0], token(ident("12abc"), 0, 5));
    assert_eq!(tokenize("1.5px")[0], token(ident("1.5px"), 0, 5));
}

#[test]
fn unicode_word_is_identifier() {
    assert_eq!(tokenize("héllo wörld")[0], token(ident("héllo"), 0, 5));
}

#[test]
fn escaped_newline_in_string() {
    let mut scanner = Scanner::new("\"a\\nb\"");
    assert_eq!(scanner.next_token(), token(text("a\nb"), 0, 6));
}

#[test]
fn escaped_quote_in_string() {
    let mut scanner = Scanner::new("'it\\'s'");
    assert_eq!(scanner.next_token(), token(text("it's"), 0, 7));
}

#[test]
fn other_escapes_in_string() {
    let mut scanner = Scanner::new("\"\\t\\r\\\\\\\"\\`\\q\"");
    assert_eq!(scanner.next_token(), token(text("\t\r\\\"`q"), 0, 14));
}

#[test]
fn quote_styles_do_not_mix() {
    let tokens = tokenize("`back`'single'");
    assert_eq!(tokens[0], token(text("back"), 0, 6));
    assert_eq!(tokens[1], token(text("single"), 6, 14));
    assert_eq!(
        tokens[2],
        token(TokenType::Delimiter(DelimiterToken::EOF), 14, 14)
    );
}

#[test]
fn other_quotes_inside_a_string() {
    let tokens = tokenize("\"say 'hi' `x`\"");
    assert_eq!(tokens[0], token(text("say 'hi' `x`"), 0, 14));
}

#[test]
fn unterminated_string_ends_at_end_of_input() {
    let tokens = tokenize("\"abc");
    assert_eq!(tokens[0], token(text("abc"), 0, 4));
    assert_eq!(
        tokens[1],
        token(TokenType::Delimiter(DelimiterToken::EOF), 4, 4)
    );
}

#[test]
fn declaration_spans() {
    let tokens = tokenize("let x = 10;");
    let space = TokenType::WhiteSpace(WhiteSpaceToken::Space);
    assert_eq!(
        tokens,
        vec![
            token(TokenType::Declaration(DeclarationToken::Let), 0, 3),
            token(space.clone(), 3, 4),
            token(ident("x"), 4, 5),
            token(space.clone(), 5, 6),
            token(TokenType::Assignment(AssignmentToken::Assign), 6, 7),
            token(space, 7, 8),
            token(number(NumberToken::SignedInteger(10)), 8, 10),
            token(TokenType::Punctuation(PunctuatorToken::Semicolon), 10, 11),
            token(TokenType::Delimiter(DelimiterToken::EOF), 11, 11),
        ]
    );
}

#[test]
fn control_character_is_unknown() {
    let tokens = tokenize("\0");
    assert_eq!(tokens, vec![
        token(TokenType::Unknown('\0'), 0, 1),
        token(TokenType::Delimiter(DelimiterToken::EOF), 1, 1),
    ]);
}

#[test]
fn unmapped_punctuation_is_unknown() {
    assert_eq!(tokenize("%")[0], token(TokenType::Unknown('%'), 0, 1));
    assert_eq!(tokenize("\r")[0], token(TokenType::Unknown('\r'), 0, 1));
}

#[test]
fn lines_and_columns() {
    let tokens = tokenize("a\n  b\tc");
    assert_eq!(
        tokens[1],
        Token::new(TokenType::WhiteSpace(WhiteSpaceToken::NewLine), span(1, 2, 0, 1))
    );
    assert_eq!(tokens[4], Token::new(ident("b"), span(4, 5, 1, 2)));
    assert_eq!(
        tokens[5],
        Token::new(TokenType::WhiteSpace(WhiteSpaceToken::Tab), span(5, 6, 1, 3))
    );
    assert_eq!(
        tokens[7],
        Token::new(TokenType::Delimiter(DelimiterToken::EOF), span(7, 7, 1, 5))
    );
}

#[test]
fn newline_inside_string_counts_as_a_line() {
    let tokens = tokenize("'a\nb' c");
    assert_eq!(tokens[2], Token::new(ident("c"), span(6, 7, 1, 3)));
}

#[test]
fn two_character_operators() {
    let cases = [
        ("==", TokenType::Comparison(ComparisonToken::Equal)),
        ("!=", TokenType::Comparison(ComparisonToken::NotEqual)),
        ("<=", TokenType::Comparison(ComparisonToken::LessThanOrEqual)),
        ("+=", TokenType::Assignment(AssignmentToken::PlusAssign)),
        ("-=", TokenType::Assignment(AssignmentToken::MinusAssign)),
        ("*=", TokenType::Assignment(AssignmentToken::MultiplyAssign)),
        ("/=", TokenType::Assignment(AssignmentToken::DivideAssign)),
        ("&=", TokenType::Assignment(AssignmentToken::BitwiseAndAssign)),
        ("|=", TokenType::Assignment(AssignmentToken::BitwiseOrAssign)),
    ];
    for (input, expected) in cases {
        assert_eq!(tokenize(input)[0], token(expected, 0, 2));
    }
}

#[test]
fn bracket_table() {
    let types: Vec<TokenType> = tokenize("[]{}:&|").into_iter().map(|t| t.token_type).collect();
    assert_eq!(
        types,
        vec![
            TokenType::Delimiter(DelimiterToken::OpenBracket),
            TokenType::Delimiter(DelimiterToken::CloseBracket),
            TokenType::Delimiter(DelimiterToken::OpenBrace),
            TokenType::Delimiter(DelimiterToken::CloseBrace),
            TokenType::Punctuation(PunctuatorToken::Colon),
            TokenType::Arithmetic(toy_lang::token::ArithmeticToken::BitwiseAnd),
            TokenType::Arithmetic(toy_lang::token::ArithmeticToken::BitwiseOr),
            TokenType::Delimiter(DelimiterToken::EOF),
        ]
    );
}

#[test]
fn integer_sums() {
    assert_eq!(
        NumberToken::SignedInteger(2).checked_add(&NumberToken::SignedInteger(-5)),
        Some(NumberToken::SignedInteger(-3))
    );
    assert_eq!(NumberToken::SignedInteger(i64::MAX).checked_add(&NumberToken::SignedInteger(1)), None);
    assert_eq!(
        NumberToken::UnsignedInteger(u64::MAX - 1).checked_add(&NumberToken::UnsignedInteger(1)),
        Some(NumberToken::UnsignedInteger(u64::MAX))
    );
    assert_eq!(NumberToken::UnsignedInteger(u64::MAX).checked_add(&NumberToken::UnsignedInteger(1)), None);
    assert_eq!(
        NumberToken::SignedInteger(-10).checked_add(&NumberToken::UnsignedInteger(4)),
        Some(NumberToken::SignedInteger(-6))
    );
    assert_eq!(
        NumberToken::UnsignedInteger(4).checked_add(&NumberToken::SignedInteger(-10)),
        Some(NumberToken::SignedInteger(-6))
    );
    assert_eq!(
        NumberToken::SignedInteger(-1).checked_add(&NumberToken::UnsignedInteger(i64::MAX as u64 + 1)),
        None
    );
    assert_eq!(
        NumberToken::SignedInteger(1).checked_add(&NumberToken::UnsignedInteger(i64::MAX as u64)),
        None
    );
    assert_eq!(NumberToken::SignedInteger(1).checked_add(&NumberToken::Float("1.5".to_string())), None);
    assert_eq!(NumberToken::Float("1.5".to_string()).checked_add(&NumberToken::UnsignedInteger(1)), None);
}
