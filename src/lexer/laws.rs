//! Laws of lexing.
use vstd::prelude::*;

use crate::lexer::lex::{
    classify, digit_pred, errors_of, ident_continue_pred, is_ascii_digit, is_whitespace_char,
    lemma_run_bounded, lemma_scan_bounds, lex_all, lex_message, run_length, scan, string_body_pred,
    tokens_of, whitespace_pred, LexErrorKind, Lexeme,
};
use crate::lexer::token::{Token, TokenKind};
use crate::lexer::tokenize_model;
use crate::span::{lemma_offset_step, offset_at, position_at, span_between, Span};

verus! {

/// A run from `i` over characters that all satisfy `p` reaches the end.
proof fn lemma_run_to_end(s: Seq<char>, i: int, p: spec_fn(char) -> bool)
    requires
        0 <= i <= s.len(),
        forall|k: int| i <= k < s.len() ==> #[trigger] p(s[k]),
    ensures
        i + run_length(s, i, p) == s.len(),
    decreases s.len() - i,
{
    if i < s.len() {
        lemma_run_to_end(s, i + 1, p);
    }
}

/// Lexing text made only of whitespace from `i` finds nothing.
proof fn lemma_lex_all_whitespace(s: Seq<char>, i: int)
    requires
        0 <= i <= s.len(),
        forall|k: int| i <= k < s.len() ==> is_whitespace_char(#[trigger] s[k]),
    ensures
        lex_all(s, i) == Seq::<Lexeme>::empty(),
{
    assert forall|k: int| i <= k < s.len() implies #[trigger] whitespace_pred()(s[k]) by {}
    lemma_run_to_end(s, i, whitespace_pred());
}

/// Text made only of whitespace lexes to no tokens, and to no errors.
pub proof fn lemma_whitespace_only(s: Seq<char>)
    requires
        forall|k: int| 0 <= k < s.len() ==> is_whitespace_char(#[trigger] s[k]),
    ensures
        tokenize_model(s) == Ok::<Seq<Token>, Seq<(Span, Seq<char>)>>(seq![]),
{
    lemma_lex_all_whitespace(s, 0);
}

/// Offsets of ASCII text count characters.
proof fn lemma_ascii_offsets(s: Seq<char>, i: int)
    requires
        0 <= i <= s.len(),
        forall|k: int| 0 <= k < s.len() ==> (#[trigger] s[k]) as u32 <= 0x7f,
    ensures
        offset_at(s, i) == i,
    decreases i,
{
    if i > 0 {
        lemma_ascii_offsets(s, i - 1);
        lemma_offset_step(s, i - 1);
    } else {
        assert(s.subrange(0, 0) =~= Seq::<char>::empty());
        assert(vstd::utf8::encode_utf8(Seq::<char>::empty()) =~= Seq::<u8>::empty());
    }
}

/// A run of decimal digits between whitespace lexes to exactly one integer
/// token, which spans exactly the digits: its byte range is that of their
/// character indices when the text is ASCII.
pub proof fn lemma_digit_run(w1: Seq<char>, d: Seq<char>, w2: Seq<char>)
    requires
        d.len() > 0,
        forall|k: int| 0 <= k < d.len() ==> is_ascii_digit(#[trigger] d[k]),
        forall|k: int| 0 <= k < w1.len() ==> is_whitespace_char(#[trigger] w1[k]),
        forall|k: int| 0 <= k < w2.len() ==> is_whitespace_char(#[trigger] w2[k]),
    ensures
        ({
            let s = w1 + d + w2;
            let a = w1.len() as int;
            let b = a + d.len();
            &&& tokenize_model(s) == Ok::<Seq<Token>, Seq<(Span, Seq<char>)>>(
                seq![Token { span: span_between(s, a, b), kind: TokenKind::UInt }],
            )
            &&& s.len() <= usize::MAX && (forall|k: int| 0 <= k < s.len() ==> (#[trigger] s[k]) as u32 <= 0x7f) ==> span_between(
                s,
                a,
                b,
            ).0.index == a && span_between(s, a, b).1.index == b
        }),
{
    let s = w1 + d + w2;
    let a = w1.len() as int;
    let b = a + d.len();
    assert forall|k: int| 0 <= k < a implies #[trigger] whitespace_pred()(s[k]) by {
        assert(s[k] == w1[k]);
    }
    assert(!whitespace_pred()(s[a])) by {
        assert(s[a] == d[0]);
    }
    lemma_run_exact(s, 0, a, whitespace_pred());
    assert forall|k: int| a + 1 <= k < b implies #[trigger] digit_pred()(s[k]) by {
        assert(s[k] == d[k - a]);
    }
    if b < s.len() {
        assert(!digit_pred()(s[b])) by {
            assert(s[b] == w2[b - b]);
        }
    }
    lemma_run_exact(s, a + 1, b, digit_pred());
    assert(s[a] == d[0]);
    assert(classify(s, a) == Lexeme { result: Ok(TokenKind::UInt), start: a, end: b });
    assert(scan(s, 0) == Some(classify(s, a)));
    assert forall|k: int| b <= k < s.len() implies is_whitespace_char(#[trigger] s[k]) by {
        assert(s[k] == w2[k - b]);
    }
    lemma_lex_all_whitespace(s, b);
    let l = classify(s, a);
    assert(lex_all(s, 0) == seq![l] + lex_all(s, b));
    assert(lex_all(s, 0) =~= seq![l]);
    assert(seq![l].drop_last() =~= Seq::<Lexeme>::empty());
    assert(errors_of(s, seq![l]) == errors_of(s, Seq::<Lexeme>::empty()));
    assert(seq![l].last() == l);
    assert(tokens_of(s, seq![l].drop_last()) == tokens_of(s, Seq::<Lexeme>::empty()));
    assert(tokens_of(s, Seq::<Lexeme>::empty()) == Seq::<Token>::empty());
    assert(tokens_of(s, seq![l]) == Seq::<Token>::empty().push(crate::lexer::lex::lexeme_token(s, l)));
    assert(tokens_of(s, seq![l]) =~= seq![Token { span: span_between(s, a, b), kind: TokenKind::UInt }]);
    assert(tokenize_model(s) == Ok::<Seq<Token>, Seq<(Span, Seq<char>)>>(
        seq![Token { span: span_between(s, a, b), kind: TokenKind::UInt }],
    ));
    if s.len() <= usize::MAX && forall|k: int| 0 <= k < s.len() ==> (#[trigger] s[k]) as u32 <= 0x7f {
        lemma_ascii_offsets(s, a);
        lemma_ascii_offsets(s, b);
    }
}

/// A run from `i` that covers `s[i..e]` and stops at `e`.
proof fn lemma_run_exact(s: Seq<char>, i: int, e: int, p: spec_fn(char) -> bool)
    requires
        0 <= i <= e <= s.len(),
        forall|k: int| i <= k < e ==> #[trigger] p(s[k]),
        e < s.len() ==> !p(s[e]),
    ensures
        i + run_length(s, i, p) == e,
    decreases e - i,
{
    if i < e {
        lemma_run_exact(s, i + 1, e, p);
    }
}

/// Whether every lexeme of `ls` is a token.
pub open spec fn all_tokens(ls: Seq<Lexeme>) -> bool {
    forall|k: int| 0 <= k < ls.len() ==> (#[trigger] ls[k]).result is Ok
}

/// Lexemes give no error exactly when all of them are tokens.
proof fn lemma_no_errors(s: Seq<char>, ls: Seq<Lexeme>)
    ensures
        errors_of(s, ls).len() == 0 <==> all_tokens(ls),
    decreases ls.len(),
{
    if ls.len() > 0 {
        lemma_no_errors(s, ls.drop_last());
        if all_tokens(ls.drop_last()) && ls.last().result is Ok {
            assert forall|k: int| 0 <= k < ls.len() implies (#[trigger] ls[k]).result is Ok by {
                if k < ls.len() - 1 {
                    assert(ls[k] == ls.drop_last()[k]);
                }
            }
        }
        if all_tokens(ls) {
            assert forall|k: int| 0 <= k < ls.drop_last().len() implies (#[trigger] ls.drop_last()[k]).result is Ok by {
                assert(ls[k] == ls.drop_last()[k]);
            }
        }
    }
}

/// A run over `p + r` from inside `p` stops where the run over `p` stops,
/// when the first character of `r` ends runs.
proof fn lemma_run_prefix(p: Seq<char>, r: Seq<char>, i: int, pr: spec_fn(char) -> bool)
    requires
        0 <= i <= p.len(),
        r.len() > 0,
        !pr(r[0]),
    ensures
        run_length(p + r, i, pr) == run_length(p, i, pr),
    decreases p.len() - i,
{
    let s = p + r;
    if i < p.len() {
        assert(s[i] == p[i]);
        lemma_run_prefix(p, r, i + 1, pr);
    } else {
        assert(s[i] == r[0]);
    }
}

/// The lexeme of an unterminated string that starts at the end of `p`.
pub open spec fn unterminated_at(p: Seq<char>, q: Seq<char>) -> Lexeme {
    Lexeme { result: Err(LexErrorKind::UnterminatedString), start: p.len() as int, end: (p.len() + 1 + q.len()) as int }
}

/// Lexing `p`, a quote and then `q` without quotes finds the lexemes of
/// `p`, then the unterminated string, when `p` has no error.
proof fn lemma_lex_prefix(p: Seq<char>, q: Seq<char>, i: int)
    requires
        0 <= i <= p.len(),
        forall|k: int| 0 <= k < q.len() ==> (#[trigger] q[k]) != '"',
        all_tokens(lex_all(p, i)),
    ensures
        lex_all(p + seq!['"'] + q, i) == lex_all(p, i) + seq![unterminated_at(p, q)],
    decreases p.len() - i,
{
    let r = seq!['"'] + q;
    let s = p + seq!['"'] + q;
    assert(s =~= p + r);
    let n = p.len() as int;
    assert(s[n] == '"');
    assert forall|k: int| 0 <= k < n implies s[k] == p[k] by {}
    lemma_run_prefix(p, r, i, whitespace_pred());
    lemma_run_bounded(p, i, whitespace_pred());
    let j = i + run_length(p, i, whitespace_pred());
    let u = unterminated_at(p, q);
    if j >= n {
        assert forall|k: int| n + 1 <= k < s.len() implies #[trigger] string_body_pred()(s[k]) by {
            assert(s[k] == q[k - n - 1]);
        }
        lemma_run_to_end(s, n + 1, string_body_pred());
        assert(classify(s, n) == u);
        assert(lex_all(s, s.len() as int) == Seq::<Lexeme>::empty());
        assert(lex_all(s, i) == seq![u] + lex_all(s, s.len() as int));
        assert(lex_all(p, i) == Seq::<Lexeme>::empty());
        assert(lex_all(s, i) =~= lex_all(p, i) + seq![u]);
    } else {
        lemma_scan_bounds(p, i);
        let l = classify(p, j);
        assert(lex_all(p, i) == seq![l] + lex_all(p, l.end));
        assert(lex_all(p, i)[0] == l);
        assert(l.result is Ok);
        assert(all_tokens(lex_all(p, l.end))) by {
            assert forall|k: int| 0 <= k < lex_all(p, l.end).len() implies (#[trigger] lex_all(p, l.end)[k]).result is Ok by {
                assert(lex_all(p, l.end)[k] == lex_all(p, i)[k + 1]);
            }
        }
        lemma_run_prefix(p, r, j + 1, string_body_pred());
        lemma_run_prefix(p, r, j + 1, digit_pred());
        lemma_run_prefix(p, r, j + 1, ident_continue_pred());
        lemma_run_bounded(p, j + 1, string_body_pred());
        lemma_run_bounded(p, j + 1, ident_continue_pred());
        let e = j + 1 + run_length(p, j + 1, ident_continue_pred());
        assert(s.subrange(j, e) =~= p.subrange(j, e));
        assert(classify(s, j) == l);
        lemma_lex_prefix(p, q, l.end);
        assert(lex_all(s, i) == seq![l] + lex_all(s, l.end));
        assert(lex_all(s, i) =~= lex_all(p, i) + seq![u]);
    }
}

/// A quote whose string never closes fails lexing with exactly one error,
/// whose span starts at the quote, whatever well-formed text comes before.
pub proof fn lemma_unterminated_string(p: Seq<char>, q: Seq<char>)
    requires
        tokenize_model(p) is Ok,
        forall|k: int| 0 <= k < q.len() ==> (#[trigger] q[k]) != '"',
    ensures
        ({
            let s = p + seq!['"'] + q;
            &&& tokenize_model(s) is Err
            &&& tokenize_model(s)->Err_0 == seq![
                (span_between(s, p.len() as int, s.len() as int), lex_message(LexErrorKind::UnterminatedString)),
            ]
            &&& tokenize_model(s)->Err_0[0].0.0 == position_at(s, p.len() as int)
        }),
{
    let s = p + seq!['"'] + q;
    let a = lex_all(p, 0);
    lemma_no_errors(p, a);
    lemma_lex_prefix(p, q, 0);
    let u = unterminated_at(p, q);
    let ls = a + seq![u];
    assert(ls.drop_last() =~= a);
    assert(ls.last() == u);
    lemma_no_errors(s, a);
    assert(errors_of(s, ls) == errors_of(s, a).push(crate::lexer::lex::lexeme_error(s, u)));
    assert(errors_of(s, ls) =~= seq![
        (span_between(s, p.len() as int, s.len() as int), lex_message(LexErrorKind::UnterminatedString)),
    ]);
}

} // verus!
