//! Classification of words: reserved words, numeric literals, identifiers.

use vstd::prelude::*;

use crate::grammar::{
    all_digits, decimal_value, digit_value, is_decimal_literal, is_integer_literal, keyword,
    word_kind,
};
use crate::text::{is_ascii_digit, string_from};
use crate::token::{
    ControlFlowToken, DeclarationToken, IdentifierToken, LiteralToken, NumberToken,
    ObjectReferenceToken, TokenType,
};

verus! {

/// Whether `cs[from..to]` is the word `k`.
fn is_word(cs: &Vec<char>, from: usize, to: usize, k: &[char]) -> (r: bool)
    requires
        from <= to <= cs.len(),
    ensures
        r == (cs@.subrange(from as int, to as int) == k@),
{
    if to - from != k.len() {
        return false;
    }
    let mut i: usize = 0;
    while i < k.len()
        invariant
            to - from == k.len(),
            from <= to <= cs.len(),
            0 <= i <= k.len(),
            forall|m: int| 0 <= m < i ==> cs@[from + m] == k@[m],
        decreases k.len() - i,
    {
        if cs[from + i] != k[i] {
            assert(cs@.subrange(from as int, to as int)[i as int] != k@[i as int]);
            return false;
        }
        i += 1;
    }
    assert(cs@.subrange(from as int, to as int) =~= k@);
    true
}

/// The token of the reserved word `cs[from..to]`, if it is one.
fn keyword_token(cs: &Vec<char>, from: usize, to: usize) -> (r: Option<TokenType>)
    requires
        from <= to <= cs.len(),
    ensures
        match r {
            Some(t) => keyword(cs@.subrange(from as int, to as int)) == Some(t@),
            None => keyword(cs@.subrange(from as int, to as int)) is None,
        },
{
    if is_word(cs, from, to, &['l', 'e', 't']) {
        Some(TokenType::Declaration(DeclarationToken::Let))
    } else if is_word(cs, from, to, &['f', 'n']) {
        Some(TokenType::Declaration(DeclarationToken::Function))
    } else if is_word(cs, from, to, &['o', 'b', 'j']) {
        Some(TokenType::Declaration(DeclarationToken::Object))
    } else if is_word(cs, from, to, &['t', 'r', 'u', 'e']) {
        Some(TokenType::Literal(LiteralToken::Boolean(true)))
    } else if is_word(cs, from, to, &['f', 'a', 'l', 's', 'e']) {
        Some(TokenType::Literal(LiteralToken::Boolean(false)))
    } else if is_word(cs, from, to, &['n', 'u', 'l', 'l']) {
        Some(TokenType::Literal(LiteralToken::Null))
    } else if is_word(cs, from, to, &['u', 'n', 'd', 'e', 'f', 'i', 'n', 'e', 'd']) {
        Some(TokenType::Literal(LiteralToken::Undefined))
    } else if is_word(cs, from, to, &['t', 'h', 'i', 's']) {
        Some(TokenType::ObjectReference(ObjectReferenceToken::This))
    } else if is_word(cs, from, to, &['s', 'u', 'p', 'e', 'r']) {
        Some(TokenType::ObjectReference(ObjectReferenceToken::Super))
    } else if is_word(cs, from, to, &['n', 'e', 'w']) {
        Some(TokenType::ObjectReference(ObjectReferenceToken::New))
    } else if is_word(cs, from, to, &['i', 'f']) {
        Some(TokenType::ControlFlow(ControlFlowToken::If))
    } else if is_word(cs, from, to, &['f', 'o', 'r']) {
        Some(TokenType::ControlFlow(ControlFlowToken::For))
    } else if is_word(cs, from, to, &['e', 'l', 's', 'e']) {
        Some(TokenType::ControlFlow(ControlFlowToken::Else))
    } else if is_word(cs, from, to, &['i', 'n']) {
        Some(TokenType::ControlFlow(ControlFlowToken::In))
    } else if is_word(cs, from, to, &['h', 'a', 's']) {
        Some(TokenType::ControlFlow(ControlFlowToken::Has))
    } else if is_word(cs, from, to, &['r', 'e', 't', 'u', 'r', 'n']) {
        Some(TokenType::ControlFlow(ControlFlowToken::Return))
    } else {
        None
    }
}

/// The first position in `from..to` that does not hold a decimal digit, or `to`.
pub(crate) fn digits_end(cs: &Vec<char>, from: usize, to: usize) -> (r: usize)
    requires
        from <= to <= cs.len(),
    ensures
        from <= r <= to,
        all_digits(cs@.subrange(from as int, r as int)),
        r < to ==> !is_ascii_digit(cs@[r as int]),
{
    let mut k = from;
    while k < to && '0' <= cs[k] && cs[k] <= '9'
        invariant
            from <= k <= to <= cs.len(),
            all_digits(cs@.subrange(from as int, k as int)),
        decreases to - k,
    {
        k += 1;
        assert forall|m: int| 0 <= m < k - from implies is_ascii_digit(
            #[trigger] cs@.subrange(from as int, k as int)[m],
        ) by {
            if m < k - 1 - from {
                assert(cs@.subrange(from as int, k as int)[m] == cs@.subrange(
                    from as int,
                    k - 1,
                )[m]);
            }
        }
    }
    k
}

proof fn lemma_all_digits_sub(w: Seq<char>, a: int, b: int)
    requires
        all_digits(w),
        0 <= a <= b <= w.len(),
    ensures
        all_digits(w.subrange(a, b)),
{
    assert forall|m: int| 0 <= m < b - a implies is_ascii_digit(#[trigger] w.subrange(a, b)[m]) by {
        assert(w.subrange(a, b)[m] == w[a + m]);
    }
}

/// The value of a prefix of a digit string does not exceed that of the whole.
proof fn lemma_decimal_prefix(w: Seq<char>, m: int)
    requires
        all_digits(w),
        0 <= m <= w.len(),
    ensures
        0 <= decimal_value(w.subrange(0, m)) <= decimal_value(w),
    decreases w.len(),
{
    if m == w.len() {
        assert(w.subrange(0, m) =~= w);
        lemma_decimal_nonneg(w);
    } else {
        let d = w.drop_last();
        lemma_all_digits_sub(w, 0, w.len() - 1);
        assert(d =~= w.subrange(0, w.len() - 1));
        lemma_decimal_prefix(d, m);
        assert(d.subrange(0, m) =~= w.subrange(0, m));
        assert(is_ascii_digit(w[w.len() - 1]));
    }
}

proof fn lemma_decimal_nonneg(w: Seq<char>)
    requires
        all_digits(w),
    ensures
        decimal_value(w) >= 0,
    decreases w.len(),
{
    if w.len() > 0 {
        lemma_all_digits_sub(w, 0, w.len() - 1);
        assert(w.drop_last() =~= w.subrange(0, w.len() - 1));
        lemma_decimal_nonneg(w.drop_last());
        assert(is_ascii_digit(w[w.len() - 1]));
    }
}

/// The value of the digit string `cs[from..to]`, or `None` where it exceeds `i64`.
fn integer_value(cs: &Vec<char>, from: usize, to: usize) -> (r: Option<i64>)
    requires
        from <= to <= cs.len(),
        all_digits(cs@.subrange(from as int, to as int)),
    ensures
        match r {
            Some(v) => v == decimal_value(cs@.subrange(from as int, to as int)),
            None => decimal_value(cs@.subrange(from as int, to as int)) > i64::MAX,
        },
{
    let ghost w = cs@.subrange(from as int, to as int);
    let mut v: i64 = 0;
    let mut k = from;
    assert(cs@.subrange(from as int, from as int) =~= Seq::<char>::empty());
    while k < to
        invariant
            from <= k <= to <= cs.len(),
            w == cs@.subrange(from as int, to as int),
            all_digits(w),
            0 <= v,
            v == decimal_value(cs@.subrange(from as int, k as int)),
        decreases to - k,
    {
        let ghost prefix = cs@.subrange(from as int, k + 1);
        assert(prefix.drop_last() =~= cs@.subrange(from as int, k as int));
        assert(prefix.last() == w[k - from]);
        assert(is_ascii_digit(w[k - from]));
        let d = (cs[k] as u32 - '0' as u32) as i64;
        assert(d == digit_value(prefix.last()));
        if v > 922337203685477580 || (v == 922337203685477580 && d > 7) {
            proof {
                assert(w.subrange(0, k + 1 - from) =~= prefix);
                lemma_decimal_prefix(w, k + 1 - from);
            }
            return None;
        }
        v = v * 10 + d;
        k += 1;
    }
    assert(cs@.subrange(from as int, k as int) =~= w);
    Some(v)
}

/// A decimal literal has its `.` where its leading digits end.
proof fn lemma_decimal_point(w: Seq<char>, q: int)
    requires
        0 <= q <= w.len(),
        all_digits(w.subrange(0, q)),
        q < w.len() ==> !is_ascii_digit(w[q]),
    ensures
        is_decimal_literal(w) <==> (0 < q < w.len() - 1 && w[q] == '.' && all_digits(
            w.subrange(q + 1, w.len() as int),
        )),
{
    if is_decimal_literal(w) {
        let t = choose|t: int|
            0 < t < w.len() - 1 && #[trigger] w[t] == '.' && all_digits(w.subrange(0, t))
                && all_digits(w.subrange(t + 1, w.len() as int));
        if t < q {
            assert(w.subrange(0, q)[t] == w[t]);
        } else if t > q {
            assert(w.subrange(0, t)[q] == w[q]);
        }
    }
    if 0 < q < w.len() - 1 && w[q] == '.' && all_digits(w.subrange(q + 1, w.len() as int)) {
        assert(w[q] == '.');
    }
}

/// Whether `cs[from..to]` is a decimal literal: digits, `.`, digits.
fn is_decimal(cs: &Vec<char>, from: usize, to: usize) -> (r: bool)
    requires
        from <= to <= cs.len(),
    ensures
        r == is_decimal_literal(cs@.subrange(from as int, to as int)),
{
    let ghost w = cs@.subrange(from as int, to as int);
    let p = digits_end(cs, from, to);
    let ghost q = p - from;
    proof {
        assert(w.subrange(0, q) =~= cs@.subrange(from as int, p as int));
        if p < to {
            assert(w[q] == cs@[p as int]);
        }
        lemma_decimal_point(w, q);
    }
    if p > from && to - p > 1 && cs[p] == '.' {
        let e = digits_end(cs, p + 1, to);
        proof {
            assert(w.subrange(q + 1, w.len() as int) =~= cs@.subrange(p + 1, to as int));
            if e < to {
                assert(w.subrange(q + 1, w.len() as int)[e - p - 1] == cs@[e as int]);
            }
        }
        e == to
    } else {
        false
    }
}

/// The token of the word `cs[from..to]`: a reserved word, a number or an
/// identifier.
pub fn word_token(cs: &Vec<char>, from: usize, to: usize) -> (r: TokenType)
    requires
        from <= to <= cs.len(),
    ensures
        r@ == word_kind(cs@.subrange(from as int, to as int)),
{
    let ghost w = cs@.subrange(from as int, to as int);
    match keyword_token(cs, from, to) {
        Some(t) => t,
        None => {
            let p = digits_end(cs, from, to);
            if from < to && p == to {
                assert(is_integer_literal(w));
                match integer_value(cs, from, to) {
                    Some(v) => TokenType::Literal(LiteralToken::Number(NumberToken::SignedInteger(v))),
                    None => TokenType::Literal(
                        LiteralToken::Number(NumberToken::Float(string_from(cs, from, to))),
                    ),
                }
            } else {
                assert(!is_integer_literal(w)) by {
                    if from < to {
                        assert(w[p - from] == cs@[p as int]);
                    }
                }
                if is_decimal(cs, from, to) {
                    TokenType::Literal(
                        LiteralToken::Number(NumberToken::Float(string_from(cs, from, to))),
                    )
                } else {
                    TokenType::Identifier(IdentifierToken::new(string_from(cs, from, to)))
                }
            }
        },
    }
}

} // verus!
