use circuit_lang::lexer::token::TokenKind;
use circuit_lang::lexer::tokenize;
use circuit_lang::parser::ast::{AbstractExpression, AbstractLiteral, AbstractStatement};
use circuit_lang::parser::parse::{expression, statement};
use circuit_lang::parser::{parse_source, ParseError, ParseErrorKind, ParseStream, SourceError};

fn program(src: &str) -> Vec<AbstractStatement> {
    match parse_source(src) {
        Ok(stmts) => stmts,
        Err(e) => panic!("parse failed: {:?}", e),
    }
}

fn parse_error(src: &str) -> ParseError {
    match parse_source(src) {
        Err(SourceError::Parse(e)) => e,
        other => panic!("expected a parse error, got {:?}", other),
    }
}

fn stream(src: &str) -> ParseStream {
    match tokenize(src) {
        Ok(ts) => ParseStream::new(ts, src),
        Err(errs) => panic!("lexing failed: {:?}", errs),
    }
}

fn single_expr(src: &str) -> AbstractExpression {
    let mut stmts = program(src);
    assert_eq!(stmts.len(), 1);
    match stmts.remove(0) {
        AbstractStatement::Expr(e) => e,
        other => panic!("expected an expression statement, got {:?}", other),
    }
}

fn uint(e: &AbstractExpression) -> u64 {
    match e {
        AbstractExpression::Literal(AbstractLiteral::UInt(v)) => *v,
        other => panic!("expected an integer literal, got {:?}", other),
    }
}

fn binary(e: &AbstractExpression) -> (TokenKind, &AbstractExpression, &AbstractExpression) {
    match e {
        AbstractExpression::Binary(b) => (b.operator.kind, &b.lhs, &b.rhs),
        other => panic!("expected a binary expression, got {:?}", other),
    }
}

#[test]
fn multiplication_binds_tighter_than_addition() {
    let e = single_expr("1+2*3;");
    let (op, l, r) = binary(&e);
    assert_eq!(op, TokenKind::Plus);
    assert_eq!(uint(l), 1);
    let (op2, l2, r2) = binary(r);
    assert_eq!(op2, TokenKind::Star);
    assert_eq!(uint(l2), 2);
    assert_eq!(uint(r2), 3);
}

#[test]
fn subtraction_groups_to_the_left() {
    let e = single_expr("1-2-3;");
    let (op, l, r) = binary(&e);
    assert_eq!(op, TokenKind::Minus);
    assert_eq!(uint(r), 3);
    let (op2, l2, r2) = binary(l);
    assert_eq!(op2, TokenKind::Minus);
    assert_eq!(uint(l2), 1);
    assert_eq!(uint(r2), 2);
}

#[test]
fn division_groups_to_the_left() {
    let e = single_expr("8/4*2;");
    let (op, l, r) = binary(&e);
    assert_eq!(op, TokenKind::Star);
    assert_eq!(uint(r), 2);
    assert_eq!(binary(l).0, TokenKind::Slash);
}

#[test]
fn unary_operators_nest_to_the_right() {
    let e = single_expr("!!1;");
    match e {
        AbstractExpression::Unary(u) => {
            assert_eq!(u.op.kind, TokenKind::Bang);
            match *u.expr {
                AbstractExpression::Unary(inner) => {
                    assert_eq!(inner.op.kind, TokenKind::Bang);
                    assert_eq!(uint(&inner.expr), 1);
                },
                other => panic!("expected a nested unary, got {:?}", other),
            }
        },
        other => panic!("expected a unary, got {:?}", other),
    }
}

#[test]
fn negation_binds_tighter_than_multiplication() {
    let e = single_expr("-2*3;");
    let (op, l, _) = binary(&e);
    assert_eq!(op, TokenKind::Star);
    assert!(matches!(l, AbstractExpression::Unary(_)));
}

#[test]
fn postfix_chain_reads_left_to_right() {
    let e = single_expr("a.b(1,2).c;");
    let call = match e {
        AbstractExpression::PropertyAccess(p) => {
            assert_eq!(p.property.kind, TokenKind::Ident);
            assert_eq!(p.property.span.0.index, 9);
            *p.obj.expect("c has a base")
        },
        other => panic!("expected a property access, got {:?}", other),
    };
    let callee = match call {
        AbstractExpression::Call(c) => {
            assert_eq!(c.args.len(), 2);
            assert_eq!(uint(&c.args[0]), 1);
            assert_eq!(uint(&c.args[1]), 2);
            *c.expr
        },
        other => panic!("expected a call, got {:?}", other),
    };
    let base = match callee {
        AbstractExpression::PropertyAccess(p) => {
            assert_eq!(p.property.span.0.index, 2);
            *p.obj.expect("b has a base")
        },
        other => panic!("expected a property access, got {:?}", other),
    };
    match base {
        AbstractExpression::PropertyAccess(p) => {
            assert!(p.obj.is_none());
            assert_eq!(p.property.span.0.index, 0);
        },
        other => panic!("expected the bare identifier, got {:?}", other),
    }
}

#[test]
fn call_without_arguments() {
    match single_expr("f();") {
        AbstractExpression::Call(c) => assert!(c.args.is_empty()),
        other => panic!("expected a call, got {:?}", other),
    }
}

#[test]
fn grouping_overrides_precedence() {
    let e = single_expr("(1+2)*3;");
    let (op, l, _) = binary(&e);
    assert_eq!(op, TokenKind::Star);
    match l {
        AbstractExpression::Grouping(inner) => assert_eq!(binary(inner).0, TokenKind::Plus),
        other => panic!("expected a grouping, got {:?}", other),
    }
}

#[test]
fn string_literal_is_decoded_without_quotes() {
    match single_expr("\"héllo wörld\";") {
        AbstractExpression::Literal(AbstractLiteral::String(s)) => assert_eq!(s, "héllo wörld"),
        other => panic!("expected a string literal, got {:?}", other),
    }
    match single_expr("\"\";") {
        AbstractExpression::Literal(AbstractLiteral::String(s)) => assert_eq!(s, ""),
        other => panic!("expected a string literal, got {:?}", other),
    }
}

#[test]
fn largest_integer_literal() {
    assert_eq!(uint(&single_expr("18446744073709551615;")), u64::MAX);
    assert_eq!(uint(&single_expr("007;")), 7);
}

#[test]
fn integer_literal_too_large() {
    let e = parse_error("x; 18446744073709551616;");
    assert_eq!(e.kind, ParseErrorKind::IntegerTooLarge);
    assert_eq!(e.span.0.index, 3);
    assert_eq!(e.span.1.index, 23);
}

#[test]
fn function_declaration() {
    let mut stmts = program("fun f() { 1; }");
    assert_eq!(stmts.len(), 1);
    match stmts.remove(0) {
        AbstractStatement::FunctionDecl(f) => {
            assert_eq!(f.ident.kind, TokenKind::Ident);
            assert_eq!(f.ident.span.0.index, 4);
            assert_eq!(f.ident.span.1.index, 5);
            assert!(f.arguments.is_empty());
            assert_eq!(f.body.stmts.len(), 1);
            match &f.body.stmts[0] {
                AbstractStatement::Expr(e) => assert_eq!(uint(e), 1),
                other => panic!("expected an expression statement, got {:?}", other),
            }
        },
        other => panic!("expected a function declaration, got {:?}", other),
    }
}

#[test]
fn function_declaration_with_parameters_and_nesting() {
    let stmts = program("fun f(a, b) { fun g() {} a + b; } f(1, 2);");
    assert_eq!(stmts.len(), 2);
    match &stmts[0] {
        AbstractStatement::FunctionDecl(f) => {
            assert_eq!(f.arguments.len(), 2);
            assert_eq!(f.arguments[1].span.0.index, 9);
            assert_eq!(f.body.stmts.len(), 2);
            assert!(matches!(&f.body.stmts[0], AbstractStatement::FunctionDecl(g) if g.body.stmts.is_empty()));
        },
        other => panic!("expected a function declaration, got {:?}", other),
    }
    assert!(matches!(&stmts[1], AbstractStatement::Expr(AbstractExpression::Call(_))));
}

#[test]
fn missing_semicolon_at_end_of_input() {
    let e = parse_error("1+2");
    assert_eq!(e.kind, ParseErrorKind::ExpectedSemicolon);
    assert_eq!(e.span.0.index, 3);
    assert_eq!(e.span.1.index, 3);
    assert_eq!(e.details(), "Expected a semicolon ';' after expression.");
}

#[test]
fn missing_semicolon_before_a_token() {
    let e = parse_error("1 2;");
    assert_eq!(e.kind, ParseErrorKind::ExpectedSemicolon);
    assert_eq!(e.span.0.index, 2);
    assert_eq!(e.span.1.index, 3);
}

#[test]
fn error_at_end_of_input_after_whitespace() {
    let e = parse_error("a  \n");
    assert_eq!(e.kind, ParseErrorKind::ExpectedSemicolon);
    assert_eq!(e.span.0.index, 4);
    assert_eq!(e.span.0.line, 1);
}

#[test]
fn each_grammar_error() {
    let cases: Vec<(&str, ParseErrorKind, usize)> = vec![
        (";", ParseErrorKind::ExpectedPrimary, 0),
        ("a.;", ParseErrorKind::ExpectedIdentifier, 2),
        ("fun 1", ParseErrorKind::ExpectedIdentifier, 4),
        ("fun f {}", ParseErrorKind::ExpectedOpeningParen, 6),
        ("fun f(1) {}", ParseErrorKind::ExpectedParameter(Some(TokenKind::UInt)), 6),
        ("fun f(a,) {}", ParseErrorKind::ExpectedParameter(Some(TokenKind::RParen)), 8),
        ("fun f(", ParseErrorKind::ExpectedParameter(None), 6),
        ("fun f(a b) {}", ParseErrorKind::ExpectedParametersClose, 8),
        ("fun f() 1;", ParseErrorKind::ExpectedOpeningBrace, 8),
        ("fun f() { 1;", ParseErrorKind::ExpectedClosingBrace, 12),
        ("f(1;", ParseErrorKind::ExpectedArgumentsClose, 3),
        ("(1;", ParseErrorKind::ExpectedGroupClose, 2),
        ("f(1,);", ParseErrorKind::ExpectedPrimary, 4),
    ];
    for (src, kind, at) in cases {
        let e = parse_error(src);
        assert_eq!(e.kind, kind, "{}", src);
        assert_eq!(e.span.0.index, at, "{}", src);
    }
}

#[test]
fn parameter_error_names_the_token() {
    let e = parse_error("fun f(+) {}");
    assert_eq!(e.details(), "Expected a parameter name, found '+'.");
    let e = parse_error("fun f(a,");
    assert_eq!(e.details(), "Expected a parameter name, found the end of input.");
}

#[test]
fn lexical_errors_stop_before_parsing() {
    match parse_source("1 + @;") {
        Err(SourceError::Lex(errs)) => {
            assert_eq!(errs.len(), 1);
            assert_eq!(errs[0].span.0.index, 4);
        },
        other => panic!("expected lexical errors, got {:?}", other),
    }
}

#[test]
fn empty_program() {
    assert!(program("").is_empty());
    assert!(program(" \n\t").is_empty());
}

#[test]
fn parsing_twice_gives_the_same_tree() {
    let src = "fun f(a) { a.b(1, \"s\") * -2; } f(3);";
    assert_eq!(format!("{:?}", program(src)), format!("{:?}", program(src)));
    assert_eq!(format!("{:?}", parse_error("1+")), format!("{:?}", parse_error("1+")));
}

#[test]
fn statement_parses_one_declaration() {
    let mut s = stream("1; 2;");
    assert!(matches!(statement(&mut s), Ok(AbstractStatement::Expr(_))));
    assert!(s.peeks(TokenKind::UInt));
    assert!(matches!(statement(&mut s), Ok(AbstractStatement::Expr(_))));
    assert!(s.peek().is_none());
}

#[test]
fn expression_stops_before_unknown_token() {
    let mut s = stream("a + b )");
    assert!(expression(&mut s).is_ok());
    assert!(s.peeks(TokenKind::RParen));
}

#[test]
fn parse_stream_lookahead_and_text() {
    let src = "héllo \"wörld\" 42";
    let mut s = stream(src);
    assert!(s.peeks_any(&[TokenKind::UInt, TokenKind::Ident]));
    assert!(!s.peeks_any(&[TokenKind::UInt]));
    assert!(s.get(TokenKind::UInt).is_none());
    let t = s.get_any(&[TokenKind::Ident]).expect("identifier");
    assert_eq!(s.src_from_span(t.span), "héllo");
    assert!(s.gets(TokenKind::String));
    assert_eq!(s.src(7, 15), "\"wörld\"");
    assert!(s.expect(TokenKind::Semi, ParseErrorKind::ExpectedSemicolon).is_err());
    assert!(s.expect(TokenKind::UInt, ParseErrorKind::ExpectedPrimary).is_ok());
    assert!(s.next().is_none());
}
