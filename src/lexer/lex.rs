//! The character-level lexer.
use vstd::prelude::*;
use vstd::std_specs::iter::IteratorSpec;

use crate::lexer::token::{Token, TokenKind};
use crate::span::{fits_offsets, lemma_position_step, position_at, span_between, Span};
use vstd::utf8::encode_utf8;

verus! {

/// Whether `c` satisfies Unicode's XID_Start property.
pub uninterp spec fn xid_start(c: char) -> bool;

/// Whether `c` satisfies Unicode's XID_Continue property.
pub uninterp spec fn xid_continue(c: char) -> bool;

pub open spec fn is_ascii_letter(c: char) -> bool {
    ('a' <= c && c <= 'z') || ('A' <= c && c <= 'Z')
}

pub open spec fn is_ascii_digit(c: char) -> bool {
    '0' <= c && c <= '9'
}

pub open spec fn is_whitespace_char(c: char) -> bool {
    c == ' ' || c == '\t' || c == '\n'
}

/// Characters that may begin an identifier.
pub open spec fn is_ident_start(c: char) -> bool {
    if c as u32 <= 0x7f {
        is_ascii_letter(c)
    } else {
        xid_start(c)
    }
}

/// Characters that may continue an identifier.
pub open spec fn is_ident_continue(c: char) -> bool {
    if c as u32 <= 0x7f {
        is_ascii_letter(c) || is_ascii_digit(c) || c == '_'
    } else {
        xid_continue(c)
    }
}

/// Relies on `UnicodeXID::is_xid_start` of unicode-xid: ASCII letters by a
/// fast path, other characters by the XID_Start table.
#[verifier::external_body]
fn is_symbol_start(c: char) -> (r: bool)
    ensures
        c as u32 <= 0x7f ==> r == is_ascii_letter(c),
        c as u32 > 0x7f ==> r == xid_start(c),
{
    unicode_xid::UnicodeXID::is_xid_start(c)
}

/// Relies on `UnicodeXID::is_xid_continue` of unicode-xid: ASCII letters,
/// digits and `_` by a fast path, other characters by the XID_Continue table.
#[verifier::external_body]
fn is_symbol_continue(c: char) -> (r: bool)
    ensures
        c as u32 <= 0x7f ==> r == (is_ascii_letter(c) || is_ascii_digit(c) || c == '_'),
        c as u32 > 0x7f ==> r == xid_continue(c),
{
    unicode_xid::UnicodeXID::is_xid_continue(c)
}

fn is_whitespace(c: char) -> (r: bool)
    ensures
        r == is_whitespace_char(c),
{
    c == ' ' || c == '\t' || c == '\n'
}

fn is_digit(c: char) -> (r: bool)
    ensures
        r == is_ascii_digit(c),
{
    '0' <= c && c <= '9'
}

fn single_char(c: char) -> (r: Option<TokenKind>)
    ensures
        r == single_char_kind(c),
{
    match c {
        '*' => Some(TokenKind::Star),
        '/' => Some(TokenKind::Slash),
        '+' => Some(TokenKind::Plus),
        '-' => Some(TokenKind::Minus),
        '.' => Some(TokenKind::Dot),
        ',' => Some(TokenKind::Comma),
        ';' => Some(TokenKind::Semi),
        '(' => Some(TokenKind::LParen),
        ')' => Some(TokenKind::RParen),
        '{' => Some(TokenKind::LBrace),
        '}' => Some(TokenKind::RBrace),
        _ => None,
    }
}

/// The characters of `s`, in order.
pub fn chars_of(s: &str) -> (r: Vec<char>)
    ensures
        r@ == s@,
{
    broadcast use vstd::string::group_string_axioms, vstd::string::next_postcondition;

    let mut out: Vec<char> = Vec::new();
    let mut it = s.chars();
    loop
        invariant
            out@ + it.remaining() == s@,
            it.obeys_prophetic_iter_laws(),
        ensures
            out@ == s@,
        decreases s@.len() - out@.len(),
    {
        match it.next() {
            Some(c) => {
                out.push(c);
            },
            None => {
                break ;
            },
        }
    }
    out
}

/// Length of the longest run of characters satisfying `p` from index `i`.
pub open spec fn run_length(s: Seq<char>, i: int, p: spec_fn(char) -> bool) -> nat
    decreases s.len() - i,
{
    if 0 <= i < s.len() && p(s[i]) {
        1 + run_length(s, i + 1, p)
    } else {
        0
    }
}

pub open spec fn whitespace_pred() -> spec_fn(char) -> bool {
    |x: char| is_whitespace_char(x)
}

pub open spec fn digit_pred() -> spec_fn(char) -> bool {
    |x: char| is_ascii_digit(x)
}

pub open spec fn ident_continue_pred() -> spec_fn(char) -> bool {
    |x: char| is_ident_continue(x)
}

pub open spec fn string_body_pred() -> spec_fn(char) -> bool {
    |x: char| x != '"'
}

/// Why a run of characters is not a token.
#[derive(Debug, Copy, Clone, PartialEq, Eq, Structural)]
pub enum LexErrorKind {
    UnterminatedString,
    UnexpectedCharacter,
}

/// The message of a lexical error of each kind.
pub open spec fn lex_message(k: LexErrorKind) -> Seq<char> {
    match k {
        LexErrorKind::UnterminatedString => "Expected quote after string."@,
        LexErrorKind::UnexpectedCharacter => "Unexpected character."@,
    }
}

/// One classified run `s[start..end]` of the source: a token or an error.
pub struct Lexeme {
    pub result: Result<TokenKind, LexErrorKind>,
    pub start: int,
    pub end: int,
}

/// The token kind of a character that is a token by itself.
pub open spec fn single_char_kind(c: char) -> Option<TokenKind> {
    if c == '*' {
        Some(TokenKind::Star)
    } else if c == '/' {
        Some(TokenKind::Slash)
    } else if c == '+' {
        Some(TokenKind::Plus)
    } else if c == '-' {
        Some(TokenKind::Minus)
    } else if c == '.' {
        Some(TokenKind::Dot)
    } else if c == ',' {
        Some(TokenKind::Comma)
    } else if c == ';' {
        Some(TokenKind::Semi)
    } else if c == '(' {
        Some(TokenKind::LParen)
    } else if c == ')' {
        Some(TokenKind::RParen)
    } else if c == '{' {
        Some(TokenKind::LBrace)
    } else if c == '}' {
        Some(TokenKind::RBrace)
    } else {
        None
    }
}

/// The kind of an identifier-shaped word: a keyword or an identifier.
pub open spec fn word_kind(w: Seq<char>) -> TokenKind {
    if w == seq!['i', 'f'] {
        TokenKind::If
    } else if w == seq!['f', 'o', 'r'] {
        TokenKind::For
    } else if w == seq!['f', 'u', 'n'] {
        TokenKind::Fun
    } else if w == seq!['r', 'e', 't', 'u', 'r', 'n'] {
        TokenKind::Return
    } else {
        TokenKind::Ident
    }
}

/// A lexeme with a token kind.
pub open spec fn tok(kind: TokenKind, start: int, end: int) -> Lexeme {
    Lexeme { result: Ok(kind), start, end }
}

/// The lexeme that starts at the non-whitespace character `s[j]`.
pub open spec fn classify(s: Seq<char>, j: int) -> Lexeme {
    let c = s[j];
    if single_char_kind(c) is Some {
        tok(single_char_kind(c)->Some_0, j, j + 1)
    } else if c == '=' {
        if j + 1 < s.len() && s[j + 1] == '=' {
            tok(TokenKind::EqEq, j, j + 2)
        } else {
            tok(TokenKind::Eq, j, j + 1)
        }
    } else if c == '!' {
        if j + 1 < s.len() && s[j + 1] == '=' {
            tok(TokenKind::BangEq, j, j + 2)
        } else {
            tok(TokenKind::Bang, j, j + 1)
        }
    } else if c == '"' {
        let k = j + 1 + run_length(s, j + 1, string_body_pred());
        if k < s.len() {
            tok(TokenKind::String, j, k + 1)
        } else {
            Lexeme { result: Err(LexErrorKind::UnterminatedString), start: j, end: k }
        }
    } else if is_ascii_digit(c) {
        tok(TokenKind::UInt, j, j + 1 + run_length(s, j + 1, digit_pred()))
    } else if is_ident_start(c) {
        let e = j + 1 + run_length(s, j + 1, ident_continue_pred());
        tok(word_kind(s.subrange(j, e)), j, e)
    } else {
        Lexeme { result: Err(LexErrorKind::UnexpectedCharacter), start: j, end: j + 1 }
    }
}

/// The next lexeme at or after index `i`, skipping whitespace; `None` at the
/// end of the input.
pub open spec fn scan(s: Seq<char>, i: int) -> Option<Lexeme> {
    let j = i + run_length(s, i, whitespace_pred());
    if 0 <= j < s.len() {
        Some(classify(s, j))
    } else {
        None
    }
}

pub proof fn lemma_run_bounded(s: Seq<char>, i: int, p: spec_fn(char) -> bool)
    requires
        0 <= i <= s.len(),
    ensures
        i + run_length(s, i, p) <= s.len(),
        forall|k: int| i <= k < i + run_length(s, i, p) ==> #[trigger] p(s[k]),
        i + run_length(s, i, p) < s.len() ==> !p(s[i + run_length(s, i, p)]),
    decreases s.len() - i,
{
    if i < s.len() && p(s[i]) {
        lemma_run_bounded(s, i + 1, p);
    }
}

/// A lexeme found from `i` lies after `i` and within the input.
pub proof fn lemma_scan_bounds(s: Seq<char>, i: int)
    requires
        0 <= i <= s.len(),
    ensures
        scan(s, i) matches Some(l) ==> i <= l.start < l.end <= s.len(),
        scan(s, i) is None ==> i + run_length(s, i, whitespace_pred()) == s.len(),
{
    let j = i + run_length(s, i, whitespace_pred());
    lemma_run_bounded(s, i, whitespace_pred());
    if 0 <= j < s.len() {
        lemma_run_bounded(s, j + 1, string_body_pred());
        lemma_run_bounded(s, j + 1, digit_pred());
        lemma_run_bounded(s, j + 1, ident_continue_pred());
    }
}

/// Every lexeme of `s` from index `i` on, in order.
pub open spec fn lex_all(s: Seq<char>, i: int) -> Seq<Lexeme>
    decreases s.len() - i,
{
    if 0 <= i <= s.len() {
        match scan(s, i) {
            None => seq![],
            Some(l) => {
                proof {
                    lemma_scan_bounds(s, i);
                }
                seq![l] + lex_all(s, l.end)
            },
        }
    } else {
        seq![]
    }
}

/// The token that a lexeme with a token kind stands for.
pub open spec fn lexeme_token(s: Seq<char>, l: Lexeme) -> Token {
    Token { span: span_between(s, l.start, l.end), kind: l.result->Ok_0 }
}

/// The span and message of the error that a failed lexeme stands for.
pub open spec fn lexeme_error(s: Seq<char>, l: Lexeme) -> (Span, Seq<char>) {
    (span_between(s, l.start, l.end), lex_message(l.result->Err_0))
}

/// The tokens among `ls`, in order.
pub open spec fn tokens_of(s: Seq<char>, ls: Seq<Lexeme>) -> Seq<Token>
    decreases ls.len(),
{
    if ls.len() == 0 {
        seq![]
    } else if ls.last().result is Ok {
        tokens_of(s, ls.drop_last()).push(lexeme_token(s, ls.last()))
    } else {
        tokens_of(s, ls.drop_last())
    }
}

/// The errors among `ls`, in order.
pub open spec fn errors_of(s: Seq<char>, ls: Seq<Lexeme>) -> Seq<(Span, Seq<char>)>
    decreases ls.len(),
{
    if ls.len() == 0 {
        seq![]
    } else if ls.last().result is Err {
        errors_of(s, ls.drop_last()).push(lexeme_error(s, ls.last()))
    } else {
        errors_of(s, ls.drop_last())
    }
}

/// A lexical error: where it is and what went wrong.
#[derive(Debug)]
pub struct LexError {
    pub span: Span,
    pub details: String,
}

impl View for LexError {
    type V = (Span, Seq<char>);

    open spec fn view(&self) -> (Span, Seq<char>) {
        (self.span, self.details@)
    }
}

/// A cursor over source text that produces one lexeme at a time.
pub struct Lexer {
    src: Vec<char>,
    pos: usize,
    span: Span,
}

impl Lexer {
    /// The text being lexed.
    pub closed spec fn source(&self) -> Seq<char> {
        self.src@
    }

    /// Index of the next character to read.
    pub closed spec fn position(&self) -> int {
        self.pos as int
    }

    /// The span of the lexeme being read, or of the last one read.
    pub closed spec fn current_span(&self) -> Span {
        self.span
    }

    pub closed spec fn wf(&self) -> bool {
        &&& self.pos <= self.src@.len()
        &&& fits_offsets(self.src@)
        &&& self.span.1 == position_at(self.src@, self.pos as int)
    }

    pub proof fn lemma_position_in_source(&self)
        requires
            self.wf(),
        ensures
            0 <= self.position() <= self.source().len(),
            fits_offsets(self.source()),
    {
    }

    /// A lexer at the start of `input`, whose UTF-8 length must fit the
    /// machine's offsets, as that of every `str` does.
    pub fn new(input: &str) -> (r: Lexer)
        requires
            fits_offsets(input@),
        ensures
            r.wf(),
            r.source() == input@,
            r.position() == 0,
            r.current_span() == span_between(input@, 0, 0),
    {
        let src = chars_of(input);
        let r = Lexer { src, pos: 0, span: Span::default() };
        proof {
            assert(input@.subrange(0, 0) =~= Seq::<char>::empty());
            assert(encode_utf8(Seq::<char>::empty()) =~= Seq::<u8>::empty());
        }
        r
    }

    /// Reads the next character, moving the end of the span over it.
    fn bump(&mut self) -> (r: Option<char>)
        requires
            old(self).wf(),
        ensures
            final(self).wf(),
            final(self).src == old(self).src,
            final(self).span.0 == old(self).span.0,
            old(self).pos < old(self).src@.len() ==> r == Some(old(self).src@[old(self).pos as int])
                && final(self).pos == old(self).pos + 1,
            old(self).pos >= old(self).src@.len() ==> r is None && final(self).pos == old(self).pos,
    {
        if self.pos < self.src.len() {
            let c = self.src[self.pos];
            proof {
                lemma_position_step(self.src@, self.pos as int);
            }
            self.span.notice(c);
            self.pos = self.pos + 1;
            Some(c)
        } else {
            None
        }
    }

    /// The next character, without reading it.
    fn peek(&self) -> (r: Option<char>)
        ensures
            self.pos < self.src@.len() ==> r == Some(self.src@[self.pos as int]),
            self.pos >= self.src@.len() ==> r is None,
    {
        if self.pos < self.src.len() {
            Some(self.src[self.pos])
        } else {
            None
        }
    }

    /// Reads the longest run of characters that satisfy `pred`.
    fn bump_while<F: Fn(char) -> bool>(&mut self, pred: F, Ghost(p): Ghost<spec_fn(char) -> bool>)
        requires
            old(self).wf(),
            forall|c: char| pred.requires((c,)),
            forall|c: char, r: bool| pred.ensures((c,), r) ==> r == p(c),
        ensures
            final(self).wf(),
            final(self).src == old(self).src,
            final(self).span.0 == old(self).span.0,
            final(self).pos == old(self).pos + run_length(old(self).src@, old(self).pos as int, p),
    {
        let ghost start = self.pos as int;
        proof {
            lemma_run_bounded(self.src@, start, p);
        }
        while self.pos < self.src.len() && pred(self.src[self.pos])
            invariant
                self.wf(),
                self.src == old(self).src,
                self.span.0 == old(self).span.0,
                start == old(self).pos,
                forall|c: char| pred.requires((c,)),
                forall|c: char, r: bool| pred.ensures((c,), r) ==> r == p(c),
                start <= self.pos,
                self.pos + run_length(self.src@, self.pos as int, p) == start + run_length(
                    self.src@,
                    start,
                    p,
                ),
            decreases self.src@.len() - self.pos,
        {
            self.bump();
        }
    }

    /// Whether the text from index `start` to the cursor is `word`.
    fn text_is(&self, start: usize, word: &[char]) -> (r: bool)
        requires
            start <= self.pos <= self.src@.len(),
        ensures
            r == (self.src@.subrange(start as int, self.pos as int) == word@),
    {
        if self.pos - start != word.len() {
            proof {
                if self.src@.subrange(start as int, self.pos as int) == word@ {
                    assert(self.src@.subrange(start as int, self.pos as int).len() == word@.len());
                }
            }
            return false;
        }
        let mut k: usize = 0;
        while k < word.len()
            invariant
                start <= self.pos <= self.src@.len(),
                self.pos - start == word@.len(),
                k <= word@.len(),
                forall|m: int| 0 <= m < k ==> self.src@[start + m] == word@[m],
            decreases word@.len() - k,
        {
            if self.src[start + k] != word[k] {
                proof {
                    let t = self.src@.subrange(start as int, self.pos as int);
                    assert(t[k as int] != word@[k as int]);
                }
                return false;
            }
            k = k + 1;
        }
        proof {
            assert(self.src@.subrange(start as int, self.pos as int) =~= word@);
        }
        true
    }

    /// Reads the next lexeme: `None` at the end of the input, else the
    /// token or the lexical error found after any whitespace.
    pub fn token(&mut self) -> (r: Option<Result<Token, LexError>>)
        requires
            old(self).wf(),
        ensures
            final(self).wf(),
            final(self).source() == old(self).source(),
            match scan(old(self).source(), old(self).position()) {
                None => {
                    &&& r is None
                    &&& final(self).position() == old(self).source().len()
                    &&& final(self).current_span() == span_between(
                        old(self).source(),
                        old(self).source().len() as int,
                        old(self).source().len() as int,
                    )
                },
                Some(l) => {
                    &&& final(self).position() == l.end
                    &&& match l.result {
                        Ok(_) => r == Some(Ok::<Token, LexError>(lexeme_token(old(self).source(), l))),
                        Err(_) => r matches Some(Err(e)) && e@ == lexeme_error(old(self).source(), l),
                    }
                },
            },
    {
        let ghost s = self.src@;
        let ghost i0 = self.pos as int;
        let mut c: char = ' ';
        loop
            invariant_except_break
                self.pos + run_length(s, self.pos as int, whitespace_pred()) == i0 + run_length(
                    s,
                    i0,
                    whitespace_pred(),
                ),
            invariant
                self.wf(),
                self.src@ == s,
                i0 == old(self).pos,
                s == old(self).src@,
                i0 <= self.pos,
            ensures
                self.wf(),
                self.src@ == s,
                1 <= self.pos,
                self.pos - 1 == i0 + run_length(s, i0, whitespace_pred()),
                c == s[self.pos - 1],
                self.span == span_between(s, self.pos - 1, self.pos as int),
            decreases s.len() - self.pos,
        {
            self.reset_span();
            match self.bump() {
                None => {
                    return None;
                },
                Some(ch) => {
                    if !is_whitespace(ch) {
                        c = ch;
                        break ;
                    }
                },
            }
        }
        let j = self.pos - 1;
        let kind: Result<TokenKind, LexErrorKind> = match single_char(c) {
            Some(k) => Ok(k),
            None => {
                if c == '=' {
                    match self.peek() {
                        Some('=') => {
                            self.bump();
                            Ok(TokenKind::EqEq)
                        },
                        _ => Ok(TokenKind::Eq),
                    }
                } else if c == '!' {
                    match self.peek() {
                        Some('=') => {
                            self.bump();
                            Ok(TokenKind::BangEq)
                        },
                        _ => Ok(TokenKind::Bang),
                    }
                } else if c == '"' {
                    self.string()
                } else if is_digit(c) {
                    self.number();
                    Ok(TokenKind::UInt)
                } else if is_symbol_start(c) {
                    Ok(self.ident_or_kw(j))
                } else {
                    Err(LexErrorKind::UnexpectedCharacter)
                }
            },
        };
        match kind {
            Ok(k) => Some(Ok(Token { span: self.span, kind: k })),
            Err(e) => Some(Err(self.error(e))),
        }
    }

    /// Reads the rest of a string literal after its opening quote.
    fn string(&mut self) -> (r: Result<TokenKind, LexErrorKind>)
        requires
            old(self).wf(),
        ensures
            final(self).wf(),
            final(self).src == old(self).src,
            final(self).span.0 == old(self).span.0,
            ({
                let k = old(self).pos + run_length(old(self).src@, old(self).pos as int, string_body_pred());
                if k < old(self).src@.len() {
                    r == Ok::<TokenKind, LexErrorKind>(TokenKind::String) && final(self).pos == k + 1
                } else {
                    r == Err::<TokenKind, LexErrorKind>(LexErrorKind::UnterminatedString) && final(self).pos == k
                }
            }),
    {
        proof {
            lemma_run_bounded(self.src@, self.pos as int, string_body_pred());
        }
        self.bump_while(|x: char| -> (r: bool) ensures r == (x != '"') { x != '"' }, Ghost(string_body_pred()));
        match self.bump() {
            Some(_) => Ok(TokenKind::String),
            None => Err(LexErrorKind::UnterminatedString),
        }
    }

    /// Reads the rest of a run of decimal digits.
    fn number(&mut self)
        requires
            old(self).wf(),
        ensures
            final(self).wf(),
            final(self).src == old(self).src,
            final(self).span.0 == old(self).span.0,
            final(self).pos == old(self).pos + run_length(old(self).src@, old(self).pos as int, digit_pred()),
    {
        self.bump_while(|x: char| -> (r: bool) ensures r == is_ascii_digit(x) { is_digit(x) }, Ghost(digit_pred()));
    }

    /// Reads the rest of a word that began at `start`, and tells a keyword
    /// from an identifier.
    fn ident_or_kw(&mut self, start: usize) -> (r: TokenKind)
        requires
            old(self).wf(),
            start <= old(self).pos,
        ensures
            final(self).wf(),
            final(self).src == old(self).src,
            final(self).span.0 == old(self).span.0,
            final(self).pos == old(self).pos + run_length(old(self).src@, old(self).pos as int, ident_continue_pred()),
            r == word_kind(old(self).src@.subrange(start as int, final(self).pos as int)),
    {
        self.bump_while(
            |x: char| -> (r: bool) ensures r == is_ident_continue(x) { is_symbol_continue(x) },
            Ghost(ident_continue_pred()),
        );
        if self.text_is(start, &['i', 'f']) {
            TokenKind::If
        } else if self.text_is(start, &['f', 'o', 'r']) {
            TokenKind::For
        } else if self.text_is(start, &['f', 'u', 'n']) {
            TokenKind::Fun
        } else if self.text_is(start, &['r', 'e', 't', 'u', 'r', 'n']) {
            TokenKind::Return
        } else {
            TokenKind::Ident
        }
    }

    /// A lexical error of kind `kind` over the current span.
    fn error(&self, kind: LexErrorKind) -> (r: LexError)
        ensures
            r@ == (self.span, lex_message(kind)),
    {
        let details = match kind {
            LexErrorKind::UnterminatedString => String::from_str("Expected quote after string."),
            LexErrorKind::UnexpectedCharacter => String::from_str("Unexpected character."),
        };
        LexError { span: self.span, details }
    }

    /// The current span.
    pub fn span(&self) -> (r: Span)
        ensures
            r == self.current_span(),
    {
        self.span
    }

    /// Starts a new lexeme at the cursor.
    fn reset_span(&mut self)
        requires
            old(self).wf(),
        ensures
            final(self).wf(),
            final(self).src == old(self).src,
            final(self).pos == old(self).pos,
            final(self).span == Span(old(self).span.1, old(self).span.1),
    {
        self.span.blip();
    }
}

} // verus!
