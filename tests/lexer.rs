use circuit_lang::bytecode::ByteStream;
use circuit_lang::lexer::lex::LexError;
use circuit_lang::lexer::token::{Token, TokenKind};
use circuit_lang::lexer::{tokenize, TokenStream};

fn tokens(src: &str) -> Vec<Token> {
    let mut ts = match tokenize(src) {
        Ok(ts) => ts,
        Err(errs) => panic!("lexing failed: {:?}", errs),
    };
    let mut out = Vec::new();
    while let Some(t) = ts.next() {
        out.push(t);
    }
    out
}

fn kinds(src: &str) -> Vec<TokenKind> {
    tokens(src).iter().map(|t| t.kind).collect()
}

fn lex_errors(src: &str) -> Vec<LexError> {
    match tokenize(src) {
        Ok(_) => panic!("lexing succeeded"),
        Err(errs) => errs,
    }
}

#[test]
fn whitespace_only_gives_no_tokens() {
    for src in ["", " ", "\t", "\n", "  \t\n\n  \t"] {
        let ts: TokenStream = match tokenize(src) {
            Ok(ts) => ts,
            Err(_) => panic!("whitespace must lex"),
        };
        assert!(ts.peek().is_none());
    }
}

#[test]
fn digit_run_is_one_token() {
    let toks = tokens("123");
    assert_eq!(toks.len(), 1);
    assert_eq!(toks[0].kind, TokenKind::UInt);
    assert_eq!(toks[0].span.0.index, 0);
    assert_eq!(toks[0].span.1.index, 3);
}

#[test]
fn digit_run_between_whitespace() {
    let toks = tokens("  4096 \n");
    assert_eq!(toks.len(), 1);
    assert_eq!(toks[0].kind, TokenKind::UInt);
    assert_eq!(toks[0].span.0.index, 2);
    assert_eq!(toks[0].span.1.index, 6);
}

#[test]
fn unterminated_string_is_one_error_at_the_quote() {
    let errs = lex_errors("\"abc");
    assert_eq!(errs.len(), 1);
    assert_eq!(errs[0].span.0.index, 0);
    assert_eq!(errs[0].span.1.index, 4);
    assert_eq!(errs[0].details, "Expected quote after string.");
}

#[test]
fn unterminated_string_after_tokens() {
    let errs = lex_errors("a + \"abc");
    assert_eq!(errs.len(), 1);
    assert_eq!(errs[0].span.0.index, 4);
    assert_eq!(errs[0].span.0.column, 4);
}

#[test]
fn unexpected_characters_are_all_reported() {
    let errs = lex_errors("1 @ 2 #");
    assert_eq!(errs.len(), 2);
    assert_eq!(errs[0].details, "Unexpected character.");
    assert_eq!(errs[0].span.0.index, 2);
    assert_eq!(errs[0].span.1.index, 3);
    assert_eq!(errs[1].span.0.index, 6);
}

#[test]
fn one_and_two_character_operators() {
    assert_eq!(
        kinds("= == ! != =!"),
        vec![
            TokenKind::Eq,
            TokenKind::EqEq,
            TokenKind::Bang,
            TokenKind::BangEq,
            TokenKind::Eq,
            TokenKind::Bang
        ]
    );
    let toks = tokens("a==b");
    assert_eq!(toks[1].span.0.index, 1);
    assert_eq!(toks[1].span.1.index, 3);
}

#[test]
fn punctuation_and_arithmetic() {
    assert_eq!(
        kinds("+-*/.,;(){}"),
        vec![
            TokenKind::Plus,
            TokenKind::Minus,
            TokenKind::Star,
            TokenKind::Slash,
            TokenKind::Dot,
            TokenKind::Comma,
            TokenKind::Semi,
            TokenKind::LParen,
            TokenKind::RParen,
            TokenKind::LBrace,
            TokenKind::RBrace
        ]
    );
}

#[test]
fn keywords_and_identifiers() {
    assert_eq!(
        kinds("if for fun return iff fo x_ funny x1"),
        vec![
            TokenKind::If,
            TokenKind::For,
            TokenKind::Fun,
            TokenKind::Return,
            TokenKind::Ident,
            TokenKind::Ident,
            TokenKind::Ident,
            TokenKind::Ident,
            TokenKind::Ident
        ]
    );
}

#[test]
fn leading_underscore_is_not_an_identifier_start() {
    let errs = lex_errors("_x");
    assert_eq!(errs.len(), 1);
    assert_eq!(errs[0].span.0.index, 0);
}

#[test]
fn digits_then_letters_split() {
    assert_eq!(kinds("12ab"), vec![TokenKind::UInt, TokenKind::Ident]);
}

#[test]
fn string_token_covers_its_quotes() {
    let toks = tokens("\"hi\" x");
    assert_eq!(toks[0].kind, TokenKind::String);
    assert_eq!(toks[0].span.0.index, 0);
    assert_eq!(toks[0].span.1.index, 4);
    assert_eq!(toks[1].kind, TokenKind::Ident);
}

#[test]
fn positions_track_lines_and_columns() {
    let toks = tokens("a\n  bc\n\td");
    assert_eq!(toks[1].span.0.index, 4);
    assert_eq!(toks[1].span.0.line, 1);
    assert_eq!(toks[1].span.0.column, 2);
    assert_eq!(toks[1].span.1.column, 4);
    assert_eq!(toks[2].span.0.line, 2);
    assert_eq!(toks[2].span.0.column, 1);
}

#[test]
fn unicode_identifiers_use_byte_offsets() {
    let toks = tokens("héllo 日本 7");
    assert_eq!(toks.len(), 3);
    assert_eq!(toks[0].kind, TokenKind::Ident);
    assert_eq!(toks[0].span.1.index, 6);
    assert_eq!(toks[0].span.1.column, 5);
    assert_eq!(toks[1].kind, TokenKind::Ident);
    assert_eq!(toks[1].span.0.index, 7);
    assert_eq!(toks[1].span.1.index, 13);
    assert_eq!(toks[2].span.0.index, 14);
}

#[test]
fn non_identifier_symbol_is_rejected() {
    let errs = lex_errors("a → b");
    assert_eq!(errs.len(), 1);
    assert_eq!(errs[0].span.0.index, 2);
    assert_eq!(errs[0].span.1.index, 5);
}

#[test]
fn token_stream_peek_and_span() {
    let mut ts = match tokenize("x 1") {
        Ok(ts) => ts,
        Err(_) => panic!("must lex"),
    };
    assert_eq!(ts.peek().map(|t| t.kind), Some(TokenKind::Ident));
    assert_eq!(ts.span().0.index, 0);
    ts.next();
    assert_eq!(ts.span().0.index, 2);
    ts.next();
    assert!(ts.next().is_none());
    assert_eq!(ts.span().0.index, 3);
    assert_eq!(ts.span().1.index, 3);
}

#[test]
fn tokenizing_twice_gives_the_same_tokens() {
    let src = "fun f(a) { a.b(1, \"s\"); }";
    assert_eq!(tokens(src), tokens(src));
}

#[test]
fn token_kind_text() {
    assert_eq!(TokenKind::BangEq.text(), "!=");
    assert_eq!(TokenKind::Ident.text(), "<ident>");
    assert_eq!(TokenKind::Fun.text(), "fun");
}

#[test]
fn byte_stream_is_first_in_first_out() {
    let mut b = ByteStream::new();
    assert_eq!(b.next(), None);
    b.emit(7);
    b.emit(9);
    assert_eq!(b.next(), Some(7));
    assert_eq!(b.next(), Some(9));
    assert_eq!(b.next(), None);
}
