//! Parsing: a token stream to an abstract syntax tree.
use vstd::prelude::*;

use crate::lexer::lex::chars_of;
use crate::lexer::token::{kind_text, Token, TokenKind};
use crate::lexer::{token_shaped, TokenStream};
use crate::span::{char_width, fits_offsets, lemma_offset_grows, lemma_offset_step, offset_at, span_between, Span};

pub mod ast;
pub mod grammar;
pub mod laws;
pub mod parse;

use crate::lexer::lex::LexError;
use crate::lexer::{tokenize, tokenize_model};
use self::ast::{stmts_view, AbstractStatement, StmtModel};
use self::grammar::program_rule;

verus! {

/// What a parse expected and did not find.
#[derive(Debug, Copy, Clone, PartialEq, Eq, Structural)]
pub enum ParseErrorKind {
    ExpectedIdentifier,
    /// A parameter list held something else than a name: the token found,
    /// or `None` at the end of the input.
    ExpectedParameter(Option<TokenKind>),
    ExpectedOpeningParen,
    ExpectedParametersClose,
    ExpectedArgumentsClose,
    ExpectedGroupClose,
    ExpectedSemicolon,
    ExpectedOpeningBrace,
    ExpectedClosingBrace,
    ExpectedPrimary,
    IntegerTooLarge,
}

/// A grammar error and the span at which the expectation failed.
#[derive(Debug, Copy, Clone, PartialEq, Eq, Structural)]
pub struct ParseError {
    pub span: Span,
    pub kind: ParseErrorKind,
}

/// The message of each kind of grammar error.
pub open spec fn parse_message(k: ParseErrorKind) -> Seq<char> {
    match k {
        ParseErrorKind::ExpectedIdentifier => "Expected identifier."@,
        ParseErrorKind::ExpectedParameter(Some(t)) => "Expected a parameter name, found '"@ + kind_text(t)
            + "'."@,
        ParseErrorKind::ExpectedParameter(None) => "Expected a parameter name, found the end of input."@,
        ParseErrorKind::ExpectedOpeningParen => "Expected opening parenthesis '('."@,
        ParseErrorKind::ExpectedParametersClose => "Expected closing parenthesis ')' after parameters."@,
        ParseErrorKind::ExpectedArgumentsClose => "Expected a closing parenthesis ')' after arguments."@,
        ParseErrorKind::ExpectedGroupClose => "Expected closing parenthesis ')' after expression."@,
        ParseErrorKind::ExpectedSemicolon => "Expected a semicolon ';' after expression."@,
        ParseErrorKind::ExpectedOpeningBrace => "Expected opening brace '{' before block."@,
        ParseErrorKind::ExpectedClosingBrace => "Expected closing brace '}' after block."@,
        ParseErrorKind::ExpectedPrimary => "Expected number or string."@,
        ParseErrorKind::IntegerTooLarge => "Integer literal is too large."@,
    }
}

impl ParseError {
    /// The human-readable message of this error.
    pub fn details(&self) -> (r: String)
        ensures
            r@ == parse_message(self.kind),
    {
        match self.kind {
            ParseErrorKind::ExpectedIdentifier => String::from_str("Expected identifier."),
            ParseErrorKind::ExpectedParameter(Some(t)) => {
                let mut m = String::from_str("Expected a parameter name, found '");
                m.append(t.text());
                m.append("'.");
                m
            },
            ParseErrorKind::ExpectedParameter(None) => String::from_str(
                "Expected a parameter name, found the end of input.",
            ),
            ParseErrorKind::ExpectedOpeningParen => String::from_str("Expected opening parenthesis '('."),
            ParseErrorKind::ExpectedParametersClose => String::from_str(
                "Expected closing parenthesis ')' after parameters.",
            ),
            ParseErrorKind::ExpectedArgumentsClose => String::from_str(
                "Expected a closing parenthesis ')' after arguments.",
            ),
            ParseErrorKind::ExpectedGroupClose => String::from_str(
                "Expected closing parenthesis ')' after expression.",
            ),
            ParseErrorKind::ExpectedSemicolon => String::from_str("Expected a semicolon ';' after expression."),
            ParseErrorKind::ExpectedOpeningBrace => String::from_str("Expected opening brace '{' before block."),
            ParseErrorKind::ExpectedClosingBrace => String::from_str("Expected closing brace '}' after block."),
            ParseErrorKind::ExpectedPrimary => String::from_str("Expected number or string."),
            ParseErrorKind::IntegerTooLarge => String::from_str("Integer literal is too large."),
        }
    }
}

/// Whether the token at index `i` exists and is of kind `k`.
pub open spec fn is_kind(toks: Seq<Token>, i: int, k: TokenKind) -> bool {
    0 <= i < toks.len() && toks[i].kind == k
}

/// The span of the token at index `i`, or `eof` past the last token.
pub open spec fn span_at(toks: Seq<Token>, eof: Span, i: int) -> Span {
    if 0 <= i < toks.len() {
        toks[i].span
    } else {
        eof
    }
}

/// Whether byte offset `off` lies before a character of `src`, or at its end.
pub open spec fn is_boundary(src: Seq<char>, off: int) -> bool {
    exists|a: int| 0 <= a <= src.len() && offset_at(src, a) == off
}

/// Index of the character at byte offset `off` of `src`.
pub open spec fn char_index_of(src: Seq<char>, off: int) -> int {
    choose|a: int| 0 <= a <= src.len() && offset_at(src, a) == off
}

/// The characters of `src` that the token `t` covers.
pub open spec fn token_text(src: Seq<char>, t: Token) -> Seq<char> {
    src.subrange(char_index_of(src, t.span.0.index as int), char_index_of(src, t.span.1.index as int))
}

/// Offsets tell characters apart: the character at the offset of index `a`
/// is the one at `a`.
pub proof fn lemma_char_index(src: Seq<char>, a: int)
    requires
        0 <= a <= src.len(),
    ensures
        is_boundary(src, offset_at(src, a) as int),
        char_index_of(src, offset_at(src, a) as int) == a,
{
    assert(0 <= a <= src.len() && offset_at(src, a) == offset_at(src, a));
    let b = char_index_of(src, offset_at(src, a) as int);
    if b < a {
        lemma_offset_grows(src, b, a);
    } else if b > a {
        lemma_offset_grows(src, a, b);
    }
}

/// A shaped token's text lies between the indices its span names.
pub proof fn lemma_token_text(src: Seq<char>, t: Token, a: int, b: int)
    requires
        fits_offsets(src),
        0 <= a < b <= src.len(),
        t.span == span_between(src, a, b),
    ensures
        char_index_of(src, t.span.0.index as int) == a,
        char_index_of(src, t.span.1.index as int) == b,
        token_text(src, t) == src.subrange(a, b),
        t.span.0.index == offset_at(src, a),
        t.span.1.index == offset_at(src, b),
{
    lemma_offset_grows(src, a, src.len() as int);
    lemma_offset_grows(src, b, src.len() as int);
    lemma_char_index(src, a);
    lemma_char_index(src, b);
}

/// Value of a decimal digit.
pub open spec fn digit_value(c: char) -> nat {
    (c as u32 - '0' as u32) as nat
}

/// Value of a run of decimal digits.
pub open spec fn decimal_value(t: Seq<char>) -> nat
    decreases t.len(),
{
    if t.len() == 0 {
        0
    } else {
        decimal_value(t.drop_last()) * 10 + digit_value(t.last())
    }
}

/// More digits never make a smaller value.
pub proof fn lemma_decimal_grows(s: Seq<char>, a: int, k: int, m: int)
    requires
        0 <= a <= k <= m <= s.len(),
    ensures
        decimal_value(s.subrange(a, k)) <= decimal_value(s.subrange(a, m)),
    decreases m - k,
{
    if k < m {
        lemma_decimal_grows(s, a, k, m - 1);
        assert(s.subrange(a, m).drop_last() =~= s.subrange(a, m - 1));
    }
}

/// Relies on `String::from_iter` of std: collecting characters gives the
/// string of exactly those characters, in order.
#[verifier::external_body]
fn string_from_chars(chars: Vec<char>) -> (r: String)
    ensures
        r@ == chars@,
{
    String::from_iter(chars)
}

/// A token stream paired with the text it was read from, so that the text
/// of literal tokens can be recovered.
pub struct ParseStream {
    tokens: TokenStream,
    chars: Vec<char>,
    char_index: Vec<usize>,
}

impl ParseStream {
    /// Every token of the stream, those already read included.
    pub closed spec fn toks(&self) -> Seq<Token> {
        self.tokens.tokens()
    }

    /// Index of the next token to read.
    pub closed spec fn pos(&self) -> int {
        self.tokens.position()
    }

    /// The source text.
    pub closed spec fn source(&self) -> Seq<char> {
        self.tokens.source()
    }

    /// The empty span at the end of the source text.
    pub closed spec fn eof(&self) -> Span {
        self.tokens.end_span()
    }

    pub closed spec fn wf(&self) -> bool {
        &&& self.tokens.wf()
        &&& self.chars@ == self.tokens.source()
        &&& self.char_index@.len() == offset_at(self.chars@, self.chars@.len() as int) + 1
        &&& forall|a: int|
            0 <= a <= self.chars@.len() ==> #[trigger] self.char_index@[offset_at(self.chars@, a) as int]
                == a
    }

    /// The span at which an error at the next token is reported.
    pub open spec fn here(&self) -> Span {
        span_at(self.toks(), self.eof(), self.pos())
    }

    pub proof fn lemma_wf(&self)
        requires
            self.wf(),
        ensures
            0 <= self.pos() <= self.toks().len(),
            fits_offsets(self.source()),
            forall|k: int| 0 <= k < self.toks().len() ==> token_shaped(self.source(), #[trigger] self.toks()[k]),
    {
        self.tokens.lemma_wf();
    }

    /// Pairs `tokens` with the text `lexeme` they were read from.
    pub fn new(tokens: TokenStream, lexeme: &str) -> (r: ParseStream)
        requires
            tokens.wf(),
            tokens.source() == lexeme@,
        ensures
            r.wf(),
            r.toks() == tokens.tokens(),
            r.pos() == tokens.position(),
            r.source() == lexeme@,
            r.eof() == tokens.end_span(),
    {
        proof {
            tokens.lemma_wf();
        }
        let chars = chars_of(lexeme);
        let ghost src = chars@;
        let mut char_index: Vec<usize> = Vec::new();
        let mut i: usize = 0;
        proof {
            assert(src.subrange(0, 0) =~= Seq::<char>::empty());
            assert(vstd::utf8::encode_utf8(Seq::<char>::empty()) =~= Seq::<u8>::empty());
        }
        while i < chars.len()
            invariant
                chars@ == src,
                fits_offsets(src),
                i <= src.len(),
                char_index@.len() == offset_at(src, i as int),
                forall|a: int| 0 <= a < i ==> #[trigger] char_index@[offset_at(src, a) as int] == a,
            decreases src.len() - i,
        {
            let w = char_width(chars[i]);
            proof {
                lemma_offset_step(src, i as int);
                lemma_offset_grows(src, i as int + 1, src.len() as int);
                crate::span::lemma_scalar_width(src[i as int]);
            }
            let ghost before = char_index@;
            let mut k: usize = 0;
            while k < w
                invariant
                    1 <= w <= 4,
                    i < src.len(),
                    w == crate::span::utf8_width(src[i as int]),
                    offset_at(src, i as int + 1) == offset_at(src, i as int) + w,
                    offset_at(src, i as int + 1) <= usize::MAX,
                    k <= w,
                    char_index@.len() == before.len() + k,
                    before.len() == offset_at(src, i as int),
                    forall|m: int| 0 <= m < before.len() ==> char_index@[m] == before[m],
                    k > 0 ==> char_index@[before.len() as int] == i,
                    forall|a: int| 0 <= a < i ==> #[trigger] before[offset_at(src, a) as int] == a,
                decreases w - k,
            {
                char_index.push(i);
                k = k + 1;
            }
            proof {
                assert forall|a: int| 0 <= a < i + 1 implies #[trigger] char_index@[offset_at(src, a) as int] == a by {
                    if a < i {
                        lemma_offset_grows(src, a, i as int);
                        assert(before[offset_at(src, a) as int] == a);
                    }
                }
            }
            i = i + 1;
        }
        proof {
            assert(src.subrange(0, src.len() as int) =~= src);
        }
        char_index.push(chars.len());
        proof {
            assert forall|a: int| 0 <= a <= src.len() implies #[trigger] char_index@[offset_at(src, a) as int] == a by {
                if a < src.len() {
                    lemma_offset_grows(src, a, src.len() as int);
                    lemma_offset_step(src, a);
                    crate::span::lemma_scalar_width(src[a]);
                }
            }
        }
        ParseStream { tokens, chars, char_index }
    }

    /// The next token, without reading it; `None` at the end.
    pub fn peek(&self) -> (r: Option<Token>)
        requires
            self.wf(),
        ensures
            self.pos() < self.toks().len() ==> r == Some(self.toks()[self.pos()]),
            self.pos() >= self.toks().len() ==> r is None,
    {
        self.tokens.peek()
    }

    /// Whether the next token is of kind `kind`.
    pub fn peeks(&self, kind: TokenKind) -> (r: bool)
        requires
            self.wf(),
        ensures
            r == is_kind(self.toks(), self.pos(), kind),
    {
        proof {
            self.lemma_wf();
        }
        match self.tokens.peek() {
            Some(tok) => tok.kind == kind,
            None => false,
        }
    }

    /// Whether the next token is of one of `kinds`.
    pub fn peeks_any(&self, kinds: &[TokenKind]) -> (r: bool)
        requires
            self.wf(),
        ensures
            r == (self.pos() < self.toks().len() && kinds@.contains(self.toks()[self.pos()].kind)),
    {
        proof {
            self.lemma_wf();
        }
        match self.tokens.peek() {
            Some(tok) => {
                let mut k: usize = 0;
                while k < kinds.len()
                    invariant
                        k <= kinds@.len(),
                        0 <= self.pos() < self.toks().len(),
                        tok == self.toks()[self.pos()],
                        forall|m: int| 0 <= m < k ==> kinds@[m] != tok.kind,
                    decreases kinds@.len() - k,
                {
                    if kinds[k] == tok.kind {
                        proof {
                            assert(kinds@[k as int] == tok.kind);
                        }
                        return true;
                    }
                    k = k + 1;
                }
                false
            },
            None => false,
        }
    }

    /// Reads the next token; `None` at the end.
    pub fn next(&mut self) -> (r: Option<Token>)
        requires
            old(self).wf(),
        ensures
            final(self).wf(),
            final(self).same_input(*old(self)),
            old(self).pos() < old(self).toks().len() ==> r == Some(old(self).toks()[old(self).pos()])
                && final(self).pos() == old(self).pos() + 1,
            old(self).pos() >= old(self).toks().len() ==> r is None && final(self).pos() == old(self).pos(),
    {
        proof {
            self.lemma_wf();
        }
        self.tokens.next()
    }

    /// Whether two streams hold the same tokens over the same text.
    pub open spec fn same_input(&self, other: ParseStream) -> bool {
        &&& self.toks() == other.toks()
        &&& self.source() == other.source()
        &&& self.eof() == other.eof()
    }

    /// Reads the next token if it is of kind `kind`.
    pub fn get(&mut self, kind: TokenKind) -> (r: Option<Token>)
        requires
            old(self).wf(),
        ensures
            final(self).wf(),
            final(self).same_input(*old(self)),
            is_kind(old(self).toks(), old(self).pos(), kind) ==> r == Some(old(self).toks()[old(self).pos()])
                && final(self).pos() == old(self).pos() + 1,
            !is_kind(old(self).toks(), old(self).pos(), kind) ==> r is None && final(self).pos()
                == old(self).pos(),
    {
        proof {
            self.lemma_wf();
        }
        let tok = match self.tokens.peek() {
            Some(t) => t,
            None => {
                return None;
            },
        };
        if tok.kind == kind {
            self.tokens.next();
            Some(tok)
        } else {
            None
        }
    }

    /// Reads the next token if it is of kind `kind`, and tells whether it did.
    pub fn gets(&mut self, kind: TokenKind) -> (r: bool)
        requires
            old(self).wf(),
        ensures
            final(self).wf(),
            final(self).same_input(*old(self)),
            r == is_kind(old(self).toks(), old(self).pos(), kind),
            final(self).pos() == old(self).pos() + if r {
                1int
            } else {
                0int
            },
    {
        self.get(kind).is_some()
    }

    /// Reads the next token if it is of one of `kinds`.
    pub fn get_any(&mut self, kinds: &[TokenKind]) -> (r: Option<Token>)
        requires
            old(self).wf(),
        ensures
            final(self).wf(),
            final(self).same_input(*old(self)),
            ({
                let hit = old(self).pos() < old(self).toks().len() && kinds@.contains(
                    old(self).toks()[old(self).pos()].kind,
                );
                &&& hit ==> r == Some(old(self).toks()[old(self).pos()]) && final(self).pos()
                    == old(self).pos() + 1
                &&& !hit ==> r is None && final(self).pos() == old(self).pos()
            }),
    {
        if self.peeks_any(kinds) {
            self.next()
        } else {
            None
        }
    }

    /// Reads the next token, which must be of kind `kind`; else fails with
    /// `err` at the offending token, or at the end of the input.
    pub fn expect(&mut self, kind: TokenKind, err: ParseErrorKind) -> (r: Result<Token, ParseError>)
        requires
            old(self).wf(),
        ensures
            final(self).wf(),
            final(self).same_input(*old(self)),
            is_kind(old(self).toks(), old(self).pos(), kind) ==> r == Ok::<Token, ParseError>(
                old(self).toks()[old(self).pos()],
            ) && final(self).pos() == old(self).pos() + 1,
            !is_kind(old(self).toks(), old(self).pos(), kind) ==> r == Err::<Token, ParseError>(
                ParseError { span: old(self).here(), kind: err },
            ),
    {
        match self.get(kind) {
            Some(t) => Ok(t),
            None => Err(self.error(err)),
        }
    }

    /// The span of the next token, or the empty span at the end of the text
    /// when no token is left.
    pub fn span(&self) -> (r: Span)
        requires
            self.wf(),
        ensures
            r == self.here(),
    {
        proof {
            self.lemma_wf();
        }
        self.tokens.span()
    }

    /// An error of kind `kind` at the next token.
    pub fn error(&self, kind: ParseErrorKind) -> (r: ParseError)
        requires
            self.wf(),
        ensures
            r == (ParseError { span: self.here(), kind }),
    {
        proof {
            self.lemma_wf();
        }
        ParseError { span: self.tokens.span(), kind }
    }

    /// Index of the character at byte offset `off`.
    fn char_index(&self, off: usize) -> (r: usize)
        requires
            self.wf(),
            is_boundary(self.source(), off as int),
        ensures
            r == char_index_of(self.source(), off as int),
            r <= self.source().len(),
    {
        proof {
            self.tokens.lemma_wf();
            let a = choose|a: int| 0 <= a <= self.source().len() && offset_at(self.source(), a) == off;
            lemma_char_index(self.source(), a);
            lemma_offset_grows(self.source(), a, self.source().len() as int);
        }
        self.char_index[off]
    }

    /// The characters `source[a..b]`.
    fn chars_between(&self, a: usize, b: usize) -> (r: Vec<char>)
        requires
            self.wf(),
            a <= b <= self.source().len(),
        ensures
            r@ == self.source().subrange(a as int, b as int),
    {
        let mut out: Vec<char> = Vec::new();
        let mut k = a;
        while k < b
            invariant
                self.wf(),
                a <= k <= b <= self.source().len(),
                out@ == self.source().subrange(a as int, k as int),
            decreases b - k,
        {
            out.push(self.chars[k]);
            proof {
                assert(out@ =~= self.source().subrange(a as int, k + 1));
            }
            k = k + 1;
        }
        out
    }

    /// The text between byte offsets `start` and `end`.
    pub fn src(&self, start: usize, end: usize) -> (r: String)
        requires
            self.wf(),
            is_boundary(self.source(), start as int),
            is_boundary(self.source(), end as int),
            start <= end,
        ensures
            r@ == self.source().subrange(
                char_index_of(self.source(), start as int),
                char_index_of(self.source(), end as int),
            ),
    {
        let a = self.char_index(start);
        let b = self.char_index(end);
        proof {
            if a > b {
                lemma_offset_grows(self.source(), b as int, a as int);
            }
        }
        string_from_chars(self.chars_between(a, b))
    }

    /// The value of the integer literal `t`; `None` when it does not fit.
    pub fn uint_value(&self, t: Token) -> (r: Option<u64>)
        requires
            self.wf(),
            token_shaped(self.source(), t),
            t.kind == TokenKind::UInt,
        ensures
            decimal_value(token_text(self.source(), t)) <= u64::MAX ==> r == Some(
                decimal_value(token_text(self.source(), t)) as u64,
            ),
            decimal_value(token_text(self.source(), t)) > u64::MAX ==> r is None,
    {
        let ghost src = self.source();
        proof {
            self.tokens.lemma_wf();
            let (a, b) = choose|a: int, b: int|
                {
                    &&& 0 <= a < b <= src.len()
                    &&& t.span == #[trigger] span_between(src, a, b)
                    &&& t.kind == TokenKind::UInt ==> forall|m: int| a <= m < b ==> crate::lexer::lex::is_ascii_digit(src[m])
                    &&& t.kind == TokenKind::String ==> b - a >= 2 && src[a] == '"' && src[b - 1] == '"'
                };
            lemma_token_text(src, t, a, b);
            lemma_char_index(src, a);
        }
        let a = self.char_index(t.span.0.index);
        let b = self.char_index(t.span.1.index);
        let mut v: u64 = 0;
        let mut k = a;
        proof {
            assert(src.subrange(a as int, a as int) =~= Seq::<char>::empty());
        }
        while k < b
            invariant
                self.wf(),
                src == self.source(),
                a <= k <= b <= src.len(),
                token_text(src, t) == src.subrange(a as int, b as int),
                forall|m: int| a <= m < b ==> crate::lexer::lex::is_ascii_digit(src[m]),
                v == decimal_value(src.subrange(a as int, k as int)),
            decreases b - k,
        {
            let d = (self.chars[k] as u32 - '0' as u32) as u64;
            proof {
                assert(src.subrange(a as int, k + 1).drop_last() =~= src.subrange(a as int, k as int));
                assert(src.subrange(a as int, k + 1).last() == src[k as int]);
                lemma_decimal_grows(src, a as int, k + 1, b as int);
            }
            match v.checked_mul(10) {
                Some(x) => match x.checked_add(d) {
                    Some(y) => {
                        v = y;
                    },
                    None => {
                        return None;
                    },
                },
                None => {
                    return None;
                },
            }
            k = k + 1;
        }
        Some(v)
    }

    /// The text of the string literal `t`, without its quotes.
    pub fn string_value(&self, t: Token) -> (r: String)
        requires
            self.wf(),
            token_shaped(self.source(), t),
            t.kind == TokenKind::String,
        ensures
            r@ == token_text(self.source(), t).subrange(1, token_text(self.source(), t).len() - 1),
    {
        let ghost src = self.source();
        proof {
            self.tokens.lemma_wf();
            let (a, b) = choose|a: int, b: int|
                {
                    &&& 0 <= a < b <= src.len()
                    &&& t.span == #[trigger] span_between(src, a, b)
                    &&& t.kind == TokenKind::UInt ==> forall|m: int| a <= m < b ==> crate::lexer::lex::is_ascii_digit(src[m])
                    &&& t.kind == TokenKind::String ==> b - a >= 2 && src[a] == '"' && src[b - 1] == '"'
                };
            lemma_token_text(src, t, a, b);
            lemma_char_index(src, a);
        }
        let a = self.char_index(t.span.0.index);
        let b = self.char_index(t.span.1.index);
        let inner = self.chars_between(a + 1, b - 1);
        proof {
            assert(inner@ =~= token_text(src, t).subrange(1, token_text(src, t).len() - 1));
        }
        string_from_chars(inner)
    }

    /// The text that `span` covers.
    pub fn src_from_span(&self, span: Span) -> (r: String)
        requires
            self.wf(),
            is_boundary(self.source(), span.0.index as int),
            is_boundary(self.source(), span.1.index as int),
            span.0.index <= span.1.index,
        ensures
            r@ == self.source().subrange(
                char_index_of(self.source(), span.0.index as int),
                char_index_of(self.source(), span.1.index as int),
            ),
    {
        self.src(span.0.index, span.1.index)
    }
}

/// Why a source text could not be parsed: every lexical error, or the first
/// grammar error.
#[derive(Debug)]
pub enum SourceError {
    Lex(Vec<LexError>),
    Parse(ParseError),
}

/// What the front end makes of `s`: the program, the lexical errors, or the
/// first grammar error with its span.
pub open spec fn source_model(s: Seq<char>) -> Result<Seq<StmtModel>, Result<Seq<(Span, Seq<char>)>, ParseError>> {
    match tokenize_model(s) {
        Err(errs) => Err(Ok(errs)),
        Ok(toks) => match program_rule(toks, s, 0) {
            Ok(stmts) => Ok(stmts),
            Err(f) => Err(
                Err(
                    ParseError {
                        span: span_at(toks, span_between(s, s.len() as int, s.len() as int), f.at),
                        kind: f.kind,
                    },
                ),
            ),
        },
    }
}

/// Lexes and parses `input` as a whole program.
pub fn parse_source(input: &str) -> (r: Result<Vec<AbstractStatement>, SourceError>)
    requires
        fits_offsets(input@),
    ensures
        match source_model(input@) {
            Ok(stmts) => r matches Ok(x) && stmts_view(x@) == stmts,
            Err(Ok(errs)) => r matches Err(SourceError::Lex(v)) && v@.map_values(|e: LexError| e@) == errs,
            Err(Err(e)) => r matches Err(SourceError::Parse(x)) && x == e,
        },
{
    let tokens = match tokenize(input) {
        Ok(t) => t,
        Err(errs) => {
            return Err(SourceError::Lex(errs));
        },
    };
    proof {
        tokens.lemma_wf();
    }
    let mut stream = ParseStream::new(tokens, input);
    match parse::program(&mut stream) {
        Ok(stmts) => Ok(stmts),
        Err(e) => Err(SourceError::Parse(e)),
    }
}

/// The front end is a function of the text alone: lexing or parsing the
/// same text twice gives the same result.
pub proof fn lemma_deterministic(s: Seq<char>, t: Seq<char>)
    requires
        s == t,
    ensures
        tokenize_model(s) == tokenize_model(t),
        source_model(s) == source_model(t),
{
}

} // verus!
