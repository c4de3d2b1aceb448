//! Properties of the token sequence as a whole.

use vstd::prelude::*;

use crate::grammar::{lemma_lexeme_advances, lex, next_position, token_at, tokens_from};
use crate::token::{DeclarationToken, DelimiterToken, TokenTypeView, TokenView};

verus! {

/// The input text under the spans of `toks`, concatenated in order.
pub open spec fn covered(s: Seq<char>, toks: Seq<TokenView>) -> Seq<char>
    decreases toks.len(),
{
    if toks.len() == 0 {
        seq![]
    } else {
        s.subrange(toks[0].start, toks[0].end) + covered(s, toks.drop_first())
    }
}

/// The tokens that `n` successive calls of `Scanner::next_token` return
/// when the cursor starts at `i`.
pub open spec fn calls_from(s: Seq<char>, i: int, n: nat) -> Seq<TokenView>
    decreases n,
{
    if n == 0 {
        seq![]
    } else {
        seq![token_at(s, i)] + calls_from(s, next_position(s, i), (n - 1) as nat)
    }
}

proof fn lemma_covered_from(s: Seq<char>, i: int)
    requires
        0 <= i <= s.len(),
    ensures
        covered(s, tokens_from(s, i)) == s.subrange(i, s.len() as int),
    decreases s.len() - i,
{
    let t = tokens_from(s, i);
    if i < s.len() {
        lemma_lexeme_advances(s, i);
        let e = next_position(s, i);
        lemma_covered_from(s, e);
        assert(t == seq![token_at(s, i)] + tokens_from(s, e));
        assert(t[0] == token_at(s, i));
        assert(t.drop_first() =~= tokens_from(s, e));
        assert(covered(s, t) == s.subrange(i, e) + covered(s, tokens_from(s, e)));
        assert(s.subrange(i, e) + s.subrange(e, s.len() as int) =~= s.subrange(i, s.len() as int));
    } else {
        assert(t == seq![token_at(s, i)]);
        assert(t[0] == token_at(s, i));
        assert(t.drop_first() =~= Seq::<TokenView>::empty());
        assert(s.subrange(i, s.len() as int) =~= Seq::<char>::empty());
        assert(s.subrange(t[0].start, t[0].end) =~= Seq::<char>::empty());
        assert(covered(s, Seq::<TokenView>::empty()) == Seq::<char>::empty());
        assert(covered(s, t) == s.subrange(t[0].start, t[0].end) + covered(s, t.drop_first()));
        assert(covered(s, t) =~= Seq::<char>::empty());
    }
}

/// Tokenizing loses nothing: the text under every token's span, taken in
/// the order in which the tokens are emitted, is the input itself.
pub proof fn lemma_lossless(s: Seq<char>)
    ensures
        covered(s, lex(s)) == s,
{
    lemma_covered_from(s, 0);
    assert(s.subrange(0, s.len() as int) =~= s);
}

proof fn lemma_tokens_from_shape(s: Seq<char>, i: int)
    requires
        0 <= i <= s.len(),
    ensures
        1 <= tokens_from(s, i).len() <= s.len() - i + 1,
        tokens_from(s, i).last() == token_at(s, s.len() as int),
        forall|k: int|
            0 <= k < tokens_from(s, i).len() - 1 ==> (#[trigger] tokens_from(s, i)[k]).start
                < tokens_from(s, i)[k].end,
    decreases s.len() - i,
{
    let t = tokens_from(s, i);
    if i < s.len() {
        lemma_lexeme_advances(s, i);
        let e = next_position(s, i);
        lemma_tokens_from_shape(s, e);
        assert(t.drop_first() =~= tokens_from(s, e));
        assert forall|k: int| 0 <= k < t.len() - 1 implies (#[trigger] t[k]).start < t[k].end by {
            if k > 0 {
                assert(t[k] == tokens_from(s, e)[k - 1]);
            }
        }
    }
}

/// The token sequence is finite: every token before the last covers at
/// least one character, so there are at most `len + 1` of them, and the last
/// is the end-of-file token, with the empty span `[len, len)`.
pub proof fn lemma_finite(s: Seq<char>)
    ensures
        1 <= lex(s).len() <= s.len() + 1,
        forall|k: int| 0 <= k < lex(s).len() - 1 ==> (#[trigger] lex(s)[k]).start < lex(s)[k].end,
        lex(s).last() == token_at(s, s.len() as int),
        token_at(s, s.len() as int).kind == TokenTypeView::Delimiter(DelimiterToken::EOF),
        token_at(s, s.len() as int).start == s.len(),
        token_at(s, s.len() as int).end == s.len(),
{
    lemma_tokens_from_shape(s, 0);
}

proof fn lemma_calls_from(s: Seq<char>, i: int, n: nat)
    requires
        0 <= i <= s.len(),
    ensures
        calls_from(s, i, n).len() == n,
        forall|k: int|
            0 <= k < n ==> #[trigger] calls_from(s, i, n)[k] == if k < tokens_from(s, i).len() {
                tokens_from(s, i)[k]
            } else {
                token_at(s, s.len() as int)
            },
    decreases n,
{
    if n > 0 {
        let e = next_position(s, i);
        if i < s.len() {
            lemma_lexeme_advances(s, i);
        }
        lemma_calls_from(s, e, (n - 1) as nat);
        let c = calls_from(s, i, n);
        let t = tokens_from(s, i);
        assert forall|k: int| 0 <= k < n implies #[trigger] c[k] == if k < t.len() {
            t[k]
        } else {
            token_at(s, s.len() as int)
        } by {
            if k > 0 {
                assert(c[k] == calls_from(s, e, (n - 1) as nat)[k - 1]);
                if i < s.len() {
                    assert(t[k] == tokens_from(s, e)[k - 1] || k >= t.len());
                }
            }
        }
    }
}

/// End-of-file repeats: `n` calls of `next_token` on a fresh scanner return
/// the token sequence first, and after its end-of-file token they keep
/// returning that same token, with `start == end == len`.
pub proof fn lemma_eof_repeats(s: Seq<char>, n: nat)
    ensures
        calls_from(s, 0, n).len() == n,
        forall|k: int|
            0 <= k < n ==> #[trigger] calls_from(s, 0, n)[k] == if k < lex(s).len() {
                lex(s)[k]
            } else {
                token_at(s, s.len() as int)
            },
{
    lemma_calls_from(s, 0, n);
}

/// `let` is always the declaration keyword, never an identifier: wherever
/// the lexeme read at a position is `let`, its token is `Declaration(Let)`.
pub proof fn lemma_let_is_keyword(s: Seq<char>, i: int)
    requires
        0 <= i < s.len(),
        s.subrange(i, token_at(s, i).end) == seq!['l', 'e', 't'],
    ensures
        token_at(s, i).kind == TokenTypeView::Declaration(DeclarationToken::Let),
{
    lemma_lexeme_advances(s, i);
    assert(s[i] == s.subrange(i, token_at(s, i).end)[0]);
}

/// A character that begins no word, string literal, whitespace or operator
/// (a control character such as NUL, for one) is read as exactly one
/// `Unknown` token that covers that character alone.
pub proof fn lemma_unknown_char(s: Seq<char>, i: int)
    requires
        0 <= i < s.len(),
        (s[i] as u32) < 0x20,
        s[i] != '\t',
        s[i] != '\n',
    ensures
        token_at(s, i).kind == TokenTypeView::Unknown(s[i]),
        token_at(s, i).start == i,
        token_at(s, i).end == i + 1,
{
}

} // verus!
