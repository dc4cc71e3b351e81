//! Lexing: source text to a token stream.
use vstd::prelude::*;

use crate::span::{fits_offsets, span_between, Span};

use self::lex::{
    classify, digit_pred, errors_of, is_ascii_digit, lemma_run_bounded, lemma_scan_bounds,
    lex_all, lexeme_token, run_length, scan, string_body_pred, tokens_of, whitespace_pred, LexError, Lexeme,
    Lexer,
};
use self::token::{Token, TokenKind};

pub mod laws;
pub mod lex;
pub mod token;

verus! {

/// Whether `t` covers a range of `src` of the shape its kind asks for: an
/// integer covers decimal digits, a string is enclosed in quotes.
pub open spec fn token_shaped(src: Seq<char>, t: Token) -> bool {
    exists|a: int, b: int|
        {
            &&& 0 <= a < b <= src.len()
            &&& t.span == #[trigger] span_between(src, a, b)
            &&& t.kind == TokenKind::UInt ==> forall|m: int| a <= m < b ==> is_ascii_digit(src[m])
            &&& t.kind == TokenKind::String ==> b - a >= 2 && src[a] == '"' && src[b - 1] == '"'
        }
}

/// What lexing `s` gives: every token, or every lexical error when there
/// is at least one.
pub open spec fn tokenize_model(s: Seq<char>) -> Result<Seq<Token>, Seq<(Span, Seq<char>)>> {
    let ls = lex_all(s, 0);
    if errors_of(s, ls).len() == 0 {
        Ok(tokens_of(s, ls))
    } else {
        Err(errors_of(s, ls))
    }
}

/// A token found by `scan` has the shape its kind asks for.
pub proof fn lemma_scan_shape(s: Seq<char>, i: int)
    requires
        0 <= i <= s.len(),
        scan(s, i) is Some,
        scan(s, i)->Some_0.result is Ok,
    ensures
        token_shaped(s, lexeme_token(s, scan(s, i)->Some_0)),
{
    lemma_scan_bounds(s, i);
    let l = scan(s, i)->Some_0;
    let j = i + run_length(s, i, whitespace_pred());
    lemma_run_bounded(s, j + 1, string_body_pred());
    lemma_run_bounded(s, j + 1, digit_pred());
    lemma_run_bounded(s, i, whitespace_pred());
    assert(l == classify(s, j));
    let t = lexeme_token(s, l);
    let a = l.start;
    let b = l.end;
    if t.kind == TokenKind::UInt {
        assert forall|m: int| a <= m < b implies is_ascii_digit(s[m]) by {
            if m > a {
                assert(digit_pred()(s[m]));
            }
        }
    }
    if t.kind == TokenKind::String {
        assert(s[b - 1] == '"');
    }
    assert(0 <= a < b <= s.len());
    assert(t.span == span_between(s, a, b));
}

/// The tokens of a source text, read in order.
pub struct TokenStream {
    tokens: Vec<Token>,
    pos: usize,
    eof: Span,
    src: Ghost<Seq<char>>,
}

impl TokenStream {
    /// Every token of the stream, those already read included.
    pub closed spec fn tokens(&self) -> Seq<Token> {
        self.tokens@
    }

    /// Index of the next token to read.
    pub closed spec fn position(&self) -> int {
        self.pos as int
    }

    /// The text the tokens were read from.
    pub closed spec fn source(&self) -> Seq<char> {
        self.src@
    }

    /// The empty span at the end of the text.
    pub closed spec fn end_span(&self) -> Span {
        self.eof
    }

    pub closed spec fn wf(&self) -> bool {
        &&& self.pos <= self.tokens@.len()
        &&& fits_offsets(self.src@)
        &&& self.eof == span_between(self.src@, self.src@.len() as int, self.src@.len() as int)
        &&& forall|k: int| 0 <= k < self.tokens@.len() ==> token_shaped(self.src@, #[trigger] self.tokens@[k])
    }

    pub proof fn lemma_wf(&self)
        requires
            self.wf(),
        ensures
            0 <= self.position() <= self.tokens().len(),
            fits_offsets(self.source()),
            self.end_span() == span_between(self.source(), self.source().len() as int, self.source().len() as int),
            forall|k: int| 0 <= k < self.tokens().len() ==> token_shaped(self.source(), #[trigger] self.tokens()[k]),
    {
    }

    /// Reads every lexeme that `lexer` has left: the stream of its tokens, or
    /// the list of all its errors when there is at least one.
    pub fn new(lexer: Lexer) -> (r: Result<TokenStream, Vec<LexError>>)
        requires
            lexer.wf(),
        ensures
            ({
                let s = lexer.source();
                let ls = lex_all(s, lexer.position());
                match r {
                    Ok(ts) => {
                        &&& errors_of(s, ls).len() == 0
                        &&& ts.wf()
                        &&& ts.tokens() == tokens_of(s, ls)
                        &&& ts.position() == 0
                        &&& ts.source() == s
                        &&& ts.end_span() == span_between(s, s.len() as int, s.len() as int)
                    },
                    Err(errs) => {
                        &&& errors_of(s, ls).len() > 0
                        &&& errs@.map_values(|e: LexError| e@) == errors_of(s, ls)
                    },
                }
            }),
    {
        let mut lexer = lexer;
        let ghost s = lexer.source();
        let ghost i0 = lexer.position();
        let ghost mut done: Seq<Lexeme> = seq![];
        let mut tokens: Vec<Token> = Vec::new();
        let mut errors: Vec<LexError> = Vec::new();
        proof {
            lexer.lemma_position_in_source();
            assert(done + lex_all(s, i0) =~= lex_all(s, i0));
        }
        loop
            invariant
                lexer.wf(),
                lexer.source() == s,
                0 <= lexer.position() <= s.len(),
                lex_all(s, i0) == done + lex_all(s, lexer.position()),
                tokens@ == tokens_of(s, done),
                errors@.map_values(|e: LexError| e@) == errors_of(s, done),
                forall|k: int| 0 <= k < tokens@.len() ==> token_shaped(s, #[trigger] tokens@[k]),
            ensures
                lex_all(s, i0) == done,
                tokens@ == tokens_of(s, done),
                errors@.map_values(|e: LexError| e@) == errors_of(s, done),
                forall|k: int| 0 <= k < tokens@.len() ==> token_shaped(s, #[trigger] tokens@[k]),
                lexer.wf(),
                lexer.source() == s,
                lexer.current_span() == span_between(s, s.len() as int, s.len() as int),
            decreases s.len() - lexer.position(),
        {
            let ghost p = lexer.position();
            let next = lexer.token();
            proof {
                lexer.lemma_position_in_source();
            }
            proof {
                lemma_scan_bounds(s, p);
            }
            match next {
                None => {
                    assert(lex_all(s, p) =~= seq![]);
                    assert(done + lex_all(s, p) =~= done);
                    break ;
                },
                Some(Ok(t)) => {
                    let ghost l = scan(s, p)->Some_0;
                    proof {
                        lemma_scan_shape(s, p);
                        assert(lex_all(s, p) == seq![l] + lex_all(s, l.end));
                        assert(done + lex_all(s, p) =~= done.push(l) + lex_all(s, l.end));
                        assert(done.push(l).drop_last() =~= done);
                        done = done.push(l);
                    }
                    tokens.push(t);
                },
                Some(Err(e)) => {
                    let ghost l = scan(s, p)->Some_0;
                    proof {
                        assert(lex_all(s, p) == seq![l] + lex_all(s, l.end));
                        assert(done + lex_all(s, p) =~= done.push(l) + lex_all(s, l.end));
                        assert(done.push(l).drop_last() =~= done);
                    }
                    let ghost old_errors = errors@;
                    errors.push(e);
                    proof {
                        assert(errors@.map_values(|e: LexError| e@) =~= old_errors.map_values(
                            |e: LexError| e@,
                        ).push(e@));
                        done = done.push(l);
                    }
                },
            }
        }
        if errors.len() == 0 {
            proof {
                assert(errors@.map_values(|e: LexError| e@).len() == 0);
            }
            let eof = lexer.span();
            Ok(TokenStream { tokens, pos: 0, eof, src: Ghost(s) })
        } else {
            proof {
                assert(errors@.map_values(|e: LexError| e@).len() > 0);
            }
            Err(errors)
        }
    }

    /// The next token, without reading it; `None` at the end.
    pub fn peek(&self) -> (r: Option<Token>)
        ensures
            self.position() < self.tokens().len() ==> r == Some(self.tokens()[self.position()]),
            self.position() >= self.tokens().len() ==> r is None,
    {
        if self.pos < self.tokens.len() {
            Some(self.tokens[self.pos])
        } else {
            None
        }
    }

    /// Reads the next token; `None` at the end.
    pub fn next(&mut self) -> (r: Option<Token>)
        requires
            old(self).wf(),
        ensures
            final(self).wf(),
            final(self).tokens() == old(self).tokens(),
            final(self).source() == old(self).source(),
            final(self).end_span() == old(self).end_span(),
            old(self).position() < old(self).tokens().len() ==> r == Some(
                old(self).tokens()[old(self).position()],
            ) && final(self).position() == old(self).position() + 1,
            old(self).position() >= old(self).tokens().len() ==> r is None && final(self).position()
                == old(self).position(),
    {
        if self.pos < self.tokens.len() {
            let t = self.tokens[self.pos];
            self.pos = self.pos + 1;
            Some(t)
        } else {
            None
        }
    }

    /// The span of the next token, or the empty span at the end of the text
    /// when no token is left.
    pub fn span(&self) -> (r: Span)
        ensures
            self.position() < self.tokens().len() ==> r == self.tokens()[self.position()].span,
            self.position() >= self.tokens().len() ==> r == self.end_span(),
    {
        if self.pos < self.tokens.len() {
            self.tokens[self.pos].span
        } else {
            self.eof
        }
    }
}

/// Lexes `input` whole: its tokens, or all its lexical errors. The UTF-8
/// length of `input` must fit the machine's offsets, as that of every `str`
/// does.
pub fn tokenize(input: &str) -> (r: Result<TokenStream, Vec<LexError>>)
    requires
        fits_offsets(input@),
    ensures
        match r {
            Ok(ts) => {
                &&& tokenize_model(input@) == Ok::<Seq<Token>, Seq<(Span, Seq<char>)>>(ts.tokens())
                &&& ts.wf()
                &&& ts.position() == 0
                &&& ts.source() == input@
                &&& ts.end_span() == span_between(input@, input@.len() as int, input@.len() as int)
            },
            Err(errs) => tokenize_model(input@) == Err::<Seq<Token>, Seq<(Span, Seq<char>)>>(
                errs@.map_values(|e: LexError| e@),
            ),
        },
{
    TokenStream::new(Lexer::new(input))
}

} // verus!
