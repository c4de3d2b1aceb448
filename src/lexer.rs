//! The scanner: a cursor over the input that emits one token per call.

use vstd::prelude::*;

use crate::grammar::{
    lemma_lexeme_advances, lemma_line_bounds, lemma_quoted_bounds, lemma_run_end,
    lemma_run_end_at, lex, lexeme, line_begin, line_of, next_position, pair_operator, quoted,
    run_end, single_operator, token_at, tokens_from, unescape, whitespace, word_end,
};
use crate::text::{alphanumeric, chars_of, is_alphanumeric, string_from};
use crate::token::{
    ArithmeticToken, AssignmentToken, ComparisonToken, DelimiterToken, LiteralToken, LiteralView,
    LogicalToken, PunctuatorToken, Token, TokenSpan, TokenType, TokenTypeView, WhiteSpaceToken,
};
use crate::word::{digits_end, word_token};

verus! {

/// A single forward pass over one input. `cursor_start` and `cursor_end`
/// bound the lexeme being read; between calls both stand where the next
/// token begins. The line counter and the start of the current line give
/// each token its line and column.
#[derive(Debug)]
pub struct Scanner {
    input: Vec<char>,
    cursor_start: usize,
    cursor_end: usize,
    current_line: usize,
    line_start: usize,
    finished: bool,
}

impl Scanner {
    /// The input, as characters.
    pub closed spec fn text(&self) -> Seq<char> {
        self.input@
    }

    /// Where the next token begins.
    pub closed spec fn position(&self) -> int {
        self.cursor_end as int
    }

    /// Whether the end-of-file token has been emitted.
    pub closed spec fn is_finished(&self) -> bool {
        self.finished
    }

    pub closed spec fn wf(&self) -> bool {
        &&& self.cursor_start == self.cursor_end
        &&& self.cursor_end <= self.input.len()
        &&& self.current_line == line_of(self.input@, self.cursor_end as int)
        &&& self.line_start == line_begin(self.input@, self.cursor_end as int)
        &&& self.finished ==> self.cursor_end == self.input.len()
    }

    pub fn new(input: &str) -> (r: Self)
        ensures
            r.wf(),
            r.text() == input@,
            r.position() == 0,
            !r.is_finished(),
    {
        Scanner {
            input: chars_of(input),
            cursor_start: 0,
            cursor_end: 0,
            current_line: 0,
            line_start: 0,
            finished: false,
        }
    }

    /// Whether the whole input has been consumed.
    pub fn end_of_input(&self) -> (r: bool)
        ensures
            r == (self.position() >= self.text().len()),
    {
        self.cursor_end >= self.input.len()
    }

    fn current_char(&self) -> (r: char)
        requires
            self.cursor_end < self.input.len(),
        ensures
            r == self.input@[self.cursor_end as int],
    {
        self.input[self.cursor_end]
    }

    /// The character after the one under the cursor, if there is one.
    fn peek(&self) -> (r: Option<char>)
        requires
            self.cursor_end < self.input.len(),
        ensures
            match r {
                Some(c) => self.cursor_end + 1 < self.input.len() && c == self.input@[self.cursor_end
                    + 1],
                None => self.cursor_end + 1 >= self.input.len(),
            },
    {
        if self.input.len() - self.cursor_end > 1 {
            Some(self.input[self.cursor_end + 1])
        } else {
            None
        }
    }

    fn run_end(&self, i: usize) -> (r: usize)
        requires
            i <= self.input.len(),
        ensures
            r == run_end(self.input@, i as int),
    {
        let mut j = i;
        while j < self.input.len() && is_alphanumeric(self.input[j])
            invariant
                i <= j <= self.input.len(),
                forall|k: int| i <= k < j ==> alphanumeric(#[trigger] self.input@[k]),
            decreases self.input.len() - j,
        {
            j += 1;
        }
        proof {
            lemma_run_end_at(self.input@, i as int, j as int);
        }
        j
    }

    fn word_end(&self, i: usize) -> (r: usize)
        requires
            i <= self.input.len(),
        ensures
            r == word_end(self.input@, i as int),
    {
        let s = &self.input;
        let j = self.run_end(i);
        proof {
            lemma_run_end(s@, i as int);
        }
        if s.len() - j > 1 && s[j] == '.' && '0' <= s[j + 1] && s[j + 1] <= '9' {
            let p = digits_end(s, i, j);
            proof {
                if p < j {
                    assert(s@.subrange(i as int, j as int)[p - i] == s@[p as int]);
                }
            }
            if p == j {
                return self.run_end(j + 1);
            }
        }
        j
    }

    /// Reads a string literal whose opening quote `q` stands at `i`: the
    /// token and the position after the literal.
    fn tokenize_string_literal(&self, i: usize, q: char) -> (r: (TokenType, usize))
        requires
            i < self.input.len(),
        ensures
            r.0@ == TokenTypeView::Literal(LiteralView::String(quoted(self.input@, i + 1, q).1)),
            r.1 == quoted(self.input@, i + 1, q).0,
    {
        let s = &self.input;
        let ghost total = quoted(s@, i + 1, q);
        let mut text: Vec<char> = Vec::new();
        let mut j = i + 1;
        let mut closed = false;
        while !closed && j < s.len()
            invariant
                i + 1 <= j <= s.len(),
                total == quoted(s@, i + 1, q),
                !closed ==> total == (quoted(s@, j as int, q).0, text@ + quoted(
                    s@,
                    j as int,
                    q,
                ).1),
                closed ==> total == (j as int, text@),
            decreases s.len() - j,
        {
            let c = s[j];
            if c == '\\' {
                if s.len() - j > 1 {
                    let e = unescape_char(s[j + 1]);
                    proof {
                        assert(text@ + quoted(s@, j as int, q).1 =~= text@.push(e) + quoted(
                            s@,
                            j + 2,
                            q,
                        ).1);
                    }
                    text.push(e);
                    j += 2;
                } else {
                    j = s.len();
                    assert(text@ + Seq::<char>::empty() =~= text@);
                }
            } else if c == q {
                assert(text@ + Seq::<char>::empty() =~= text@);
                j += 1;
                closed = true;
            } else {
                proof {
                    assert(text@ + quoted(s@, j as int, q).1 =~= text@.push(c) + quoted(
                        s@,
                        j + 1,
                        q,
                    ).1);
                }
                text.push(c);
                j += 1;
            }
        }
        if !closed {
            assert(text@ + Seq::<char>::empty() =~= text@);
        }
        let value = string_from(&text, 0, text.len());
        assert(text@.subrange(0, text@.len() as int) =~= text@);
        (TokenType::Literal(LiteralToken::String(value)), j)
    }

    fn capture_token(&self, token_type: TokenType, end: usize) -> (r: Token)
        requires
            self.wf(),
        ensures
            r.token_type == token_type,
            r.token_span == (TokenSpan {
                start: self.cursor_start,
                end,
                line: self.current_line,
                column: (self.cursor_start - self.line_start) as usize,
            }),
    {
        proof {
            lemma_line_bounds(self.input@, self.cursor_end as int);
        }
        Token::new(
            token_type,
            TokenSpan {
                start: self.cursor_start,
                end,
                line: self.current_line,
                column: self.cursor_start - self.line_start,
            },
        )
    }

    /// Moves the cursor to `end`, counting the line breaks passed over.
    fn advance_to(&mut self, end: usize)
        requires
            old(self).wf(),
            !old(self).finished,
            old(self).cursor_end <= end <= old(self).input.len(),
        ensures
            final(self).wf(),
            final(self).input == old(self).input,
            final(self).cursor_end == end,
            !final(self).finished,
    {
        while self.cursor_end < end
            invariant
                self.wf(),
                !self.finished,
                self.input == old(self).input,
                self.cursor_end <= end <= self.input.len(),
            decreases end - self.cursor_end,
        {
            let k = self.cursor_end;
            proof {
                lemma_line_bounds(self.input@, k as int);
            }
            if self.input[k] == '\n' {
                self.current_line = self.current_line + 1;
                self.line_start = k + 1;
            }
            self.cursor_end = k + 1;
            self.cursor_start = k + 1;
        }
    }

    /// Emits the token at the cursor and moves past it. At the end of the
    /// input it emits the end-of-file token `[len, len)`, as often as it is
    /// called, and marks the scanner finished.
    pub fn next_token(&mut self) -> (r: Token)
        requires
            old(self).wf(),
        ensures
            final(self).wf(),
            final(self).text() == old(self).text(),
            r@ == token_at(old(self).text(), old(self).position()),
            final(self).position() == next_position(old(self).text(), old(self).position()),
            final(self).is_finished() == (old(self).position() >= old(self).text().len()),
            0 <= final(self).position() <= final(self).text().len(),
    {
        let ghost s = self.input@;
        proof {
            lemma_line_bounds(s, self.cursor_end as int);
        }
        if self.end_of_input() {
            self.finished = true;
            let len = self.input.len();
            return self.capture_token(TokenType::Delimiter(DelimiterToken::EOF), len);
        }
        let i = self.cursor_end;
        let c = self.current_char();
        proof {
            lemma_lexeme_advances(s, i as int);
        }
        let (token_type, end) = if is_alphanumeric(c) {
            let e = self.word_end(i);
            proof {
                lemma_run_end(s, i as int);
                lemma_word_end_bounds(s, i as int);
            }
            (word_token(&self.input, i, e), e)
        } else if c == '"' || c == '\'' || c == '`' {
            proof {
                lemma_quoted_bounds(s, i + 1, c);
            }
            self.tokenize_string_literal(i, c)
        } else if let Some(w) = whitespace_token(c) {
            (TokenType::WhiteSpace(w), i + 1)
        } else {
            let pair = match self.peek() {
                Some(d) => pair_operator_token(c, d),
                None => None,
            };
            match pair {
                Some(t) => (t, i + 2),
                None => match single_operator_token(c) {
                    Some(t) => (t, i + 1),
                    None => (TokenType::Unknown(c), i + 1),
                },
            }
        };
        assert(token_type@ == lexeme(s, i as int).0 && end == lexeme(s, i as int).1);
        let token = self.capture_token(token_type, end);
        self.advance_to(end);
        token
    }

    /// The next token, or `None` once the end-of-file token has been emitted.
    pub fn next(&mut self) -> (r: Option<Token>)
        requires
            old(self).wf(),
        ensures
            final(self).wf(),
            final(self).text() == old(self).text(),
            old(self).is_finished() ==> r is None && *final(self) == *old(self),
            !old(self).is_finished() ==> (r matches Some(t) && t@ == token_at(
                old(self).text(),
                old(self).position(),
            )),
            !old(self).is_finished() ==> final(self).position() == next_position(
                old(self).text(),
                old(self).position(),
            ) && final(self).is_finished() == (old(self).position() >= old(self).text().len()),
            0 <= final(self).position() <= final(self).text().len(),
    {
        if self.finished {
            None
        } else {
            Some(self.next_token())
        }
    }
}

/// Every token of `input` in order, up to and including the end-of-file token.
pub fn tokenize(input: &str) -> (r: Vec<Token>)
    ensures
        r.len() == lex(input@).len(),
        forall|k: int| 0 <= k < r.len() ==> (#[trigger] r[k])@ == lex(input@)[k],
{
    let ghost s = input@;
    let mut scanner = Scanner::new(input);
    let mut out: Vec<Token> = Vec::new();
    loop
        invariant
            scanner.wf(),
            scanner.text() == s,
            0 <= scanner.position() <= s.len(),
            !scanner.is_finished() ==> out@.map_values(|t: Token| t@) + tokens_from(
                s,
                scanner.position() as int,
            ) == lex(s),
            scanner.is_finished() ==> out@.map_values(|t: Token| t@) == lex(s),
        ensures
            scanner.is_finished(),
        decreases s.len() - scanner.position() + if scanner.is_finished() {
            0int
        } else {
            1
        },
    {
        let ghost pos = scanner.position() as int;
        let ghost before = out@.map_values(|t: Token| t@);
        match scanner.next() {
            Some(t) => {
                proof {
                    if pos < s.len() {
                        lemma_lexeme_advances(s, pos);
                    }
                }
                out.push(t);
                assert(out@.map_values(|t: Token| t@) =~= before.push(t@));
                proof {
                    if pos < s.len() {
                        assert(tokens_from(s, pos) == seq![token_at(s, pos)] + tokens_from(
                            s,
                            next_position(s, pos),
                        ));
                        assert(before.push(t@) + tokens_from(s, scanner.position() as int)
                            =~= before + tokens_from(s, pos));
                    } else {
                        assert(tokens_from(s, pos) == seq![token_at(s, pos)]);
                        assert(before.push(t@) =~= before + tokens_from(s, pos));
                    }
                }
            },
            None => {
                break ;
            },
        }
    }
    let r = out;
    assert(r@.map_values(|t: Token| t@).len() == r.len());
    assert forall|k: int| 0 <= k < r.len() implies (#[trigger] r[k])@ == lex(s)[k] by {
        assert(r@.map_values(|t: Token| t@)[k] == r@[k]@);
    }
    r
}

proof fn lemma_word_end_bounds(s: Seq<char>, i: int)
    requires
        0 <= i < s.len(),
    ensures
        i <= word_end(s, i) <= s.len(),
{
    lemma_run_end(s, i);
    let j = run_end(s, i);
    if j + 1 < s.len() {
        lemma_run_end(s, j + 1);
    }
}

fn unescape_char(c: char) -> (r: char)
    ensures
        r == unescape(c),
{
    if c == 'n' {
        '\n'
    } else if c == 't' {
        '\t'
    } else if c == 'r' {
        '\r'
    } else {
        c
    }
}

fn whitespace_token(c: char) -> (r: Option<WhiteSpaceToken>)
    ensures
        r == whitespace(c),
{
    if c == ' ' {
        Some(WhiteSpaceToken::Space)
    } else if c == '\t' {
        Some(WhiteSpaceToken::Tab)
    } else if c == '\n' {
        Some(WhiteSpaceToken::NewLine)
    } else {
        None
    }
}

fn pair_operator_token(c: char, d: char) -> (r: Option<TokenType>)
    ensures
        match r {
            Some(t) => pair_operator(c, d) == Some(t@),
            None => pair_operator(c, d) is None,
        },
{
    if c == '=' && d == '=' {
        Some(TokenType::Comparison(ComparisonToken::Equal))
    } else if c == '!' && d == '=' {
        Some(TokenType::Comparison(ComparisonToken::NotEqual))
    } else if c == '>' && d == '=' {
        Some(TokenType::Comparison(ComparisonToken::GreaterThanOrEqual))
    } else if c == '<' && d == '=' {
        Some(TokenType::Comparison(ComparisonToken::LessThanOrEqual))
    } else if c == '&' && d == '&' {
        Some(TokenType::Logical(LogicalToken::And))
    } else if c == '|' && d == '|' {
        Some(TokenType::Logical(LogicalToken::Or))
    } else if c == '+' && d == '=' {
        Some(TokenType::Assignment(AssignmentToken::PlusAssign))
    } else if c == '-' && d == '=' {
        Some(TokenType::Assignment(AssignmentToken::MinusAssign))
    } else if c == '*' && d == '=' {
        Some(TokenType::Assignment(AssignmentToken::MultiplyAssign))
    } else if c == '/' && d == '=' {
        Some(TokenType::Assignment(AssignmentToken::DivideAssign))
    } else if c == '&' && d == '=' {
        Some(TokenType::Assignment(AssignmentToken::BitwiseAndAssign))
    } else if c == '|' && d == '=' {
        Some(TokenType::Assignment(AssignmentToken::BitwiseOrAssign))
    } else {
        None
    }
}

fn single_operator_token(c: char) -> (r: Option<TokenType>)
    ensures
        match r {
            Some(t) => single_operator(c) == Some(t@),
            None => single_operator(c) is None,
        },
{
    if c == '(' {
        Some(TokenType::Delimiter(DelimiterToken::OpenParenthesis))
    } else if c == ')' {
        Some(TokenType::Delimiter(DelimiterToken::CloseParenthesis))
    } else if c == '[' {
        Some(TokenType::Delimiter(DelimiterToken::OpenBracket))
    } else if c == ']' {
        Some(TokenType::Delimiter(DelimiterToken::CloseBracket))
    } else if c == '{' {
        Some(TokenType::Delimiter(DelimiterToken::OpenBrace))
    } else if c == '}' {
        Some(TokenType::Delimiter(DelimiterToken::CloseBrace))
    } else if c == ',' {
        Some(TokenType::Punctuation(PunctuatorToken::Comma))
    } else if c == '.' {
        Some(TokenType::Punctuation(PunctuatorToken::Dot))
    } else if c == ':' {
        Some(TokenType::Punctuation(PunctuatorToken::Colon))
    } else if c == ';' {
        Some(TokenType::Punctuation(PunctuatorToken::Semicolon))
    } else if c == '+' {
        Some(TokenType::Arithmetic(ArithmeticToken::Add))
    } else if c == '-' {
        Some(TokenType::Arithmetic(ArithmeticToken::Subtract))
    } else if c == '*' {
        Some(TokenType::Arithmetic(ArithmeticToken::Multiply))
    } else if c == '/' {
        Some(TokenType::Arithmetic(ArithmeticToken::Divide))
    } else if c == '&' {
        Some(TokenType::Arithmetic(ArithmeticToken::BitwiseAnd))
    } else if c == '|' {
        Some(TokenType::Arithmetic(ArithmeticToken::BitwiseOr))
    } else if c == '!' {
        Some(TokenType::Comparison(ComparisonToken::Not))
    } else if c == '=' {
        Some(TokenType::Assignment(AssignmentToken::Assign))
    } else if c == '>' {
        Some(TokenType::Comparison(ComparisonToken::GreaterThan))
    } else if c == '<' {
        Some(TokenType::Comparison(ComparisonToken::LessThan))
    } else {
        None
    }
}

} // verus!
