//! The recursive-descent parser: one function per grammar rule.
use vstd::prelude::*;

use crate::lexer::token::{Token, TokenKind};
use crate::parser::ast::{
    exprs_view, stmts_view, AbstractExpression, AbstractLiteral, AbstractStatement, BinaryOp, Block, Call,
    ExprModel, FunctionDecl, PropertyAccess, StmtModel, Unary,
};
use crate::parser::grammar::{
    add_rest_rule, add_rule, arguments_rule, block_rule, expression_rule, expression_stmt_rule,
    fun_decl_rule, grouping_rule, literal_rule, mul_rest_rule, mul_rule, parameter_list_rule,
    parameters_rule, postfix_rule, program_rule, property_rule, remaining, statement_rule, unary_rule,
    Failure,
};
use crate::parser::{is_kind, span_at, ParseError, ParseErrorKind, ParseStream};

verus! {

/// The error that a failure reports, against the tokens of `s`.
pub open spec fn failure_error(s: ParseStream, f: Failure) -> ParseError {
    ParseError { span: span_at(s.toks(), s.eof(), f.at), kind: f.kind }
}

/// `after` is what parsing from `before` left, and `r` is what the rule's
/// model `m` says: the tree with `after` past the tokens it took, or the
/// failure.
pub open spec fn expr_outcome(
    before: ParseStream,
    after: ParseStream,
    r: Result<AbstractExpression, ParseError>,
    m: Result<(ExprModel, nat), Failure>,
) -> bool {
    &&& after.wf()
    &&& after.same_input(before)
    &&& match m {
        Ok((e, n)) => r matches Ok(x) && x.view() == e && after.pos() == before.pos() + n,
        Err(f) => r matches Err(x) && x == failure_error(before, f),
    }
}

/// As `expr_outcome`, for a statement; a statement takes one token more
/// than the count its model gives.
pub open spec fn stmt_outcome(
    before: ParseStream,
    after: ParseStream,
    r: Result<AbstractStatement, ParseError>,
    m: Result<(StmtModel, nat), Failure>,
) -> bool {
    &&& after.wf()
    &&& after.same_input(before)
    &&& match m {
        Ok((st, n)) => r matches Ok(x) && x.view() == st && after.pos() == before.pos() + n + 1,
        Err(f) => r matches Err(x) && x == failure_error(before, f),
    }
}

/// `done`, taken over `k` tokens, followed by what `r` parsed.
pub open spec fn extend_args(done: Seq<ExprModel>, k: nat, r: Result<(Seq<ExprModel>, nat), Failure>) -> Result<
    (Seq<ExprModel>, nat),
    Failure,
> {
    match r {
        Ok((rest, m)) => Ok((done + rest, k + m)),
        Err(f) => Err(f),
    }
}

/// `done` followed by what `r` parsed.
pub open spec fn extend_program(done: Seq<StmtModel>, r: Result<Seq<StmtModel>, Failure>) -> Result<
    Seq<StmtModel>,
    Failure,
> {
    match r {
        Ok(rest) => Ok(done + rest),
        Err(f) => Err(f),
    }
}

/// One declaration of a program: what follows `done` at `cur` is the
/// declaration there, then the rest.
proof fn lemma_program_step(toks: Seq<Token>, src: Seq<char>, cur: int, done: Seq<StmtModel>)
    requires
        0 <= cur < toks.len(),
    ensures
        match statement_rule(toks, src, cur) {
            Ok((st, n)) => extend_program(done, program_rule(toks, src, cur)) == extend_program(
                done + seq![st],
                program_rule(toks, src, cur + n + 1),
            ),
            Err(f) => extend_program(done, program_rule(toks, src, cur)) == Err::<Seq<StmtModel>, Failure>(f),
        },
{
    match statement_rule(toks, src, cur) {
        Ok((st, n)) => {
            match program_rule(toks, src, cur + n + 1) {
                Ok(rest) => {
                    assert(done + (seq![st] + rest) =~= (done + seq![st]) + rest);
                },
                Err(f) => {},
            }
        },
        Err(f) => {},
    }
}

/// `done`, taken over `k` tokens, followed by what `r` parsed.
pub open spec fn extend_params(done: Seq<Token>, k: nat, r: Result<(Seq<Token>, nat), Failure>) -> Result<
    (Seq<Token>, nat),
    Failure,
> {
    match r {
        Ok((rest, m)) => Ok((done + rest, k + m)),
        Err(f) => Err(f),
    }
}

/// `done`, taken over `k` tokens, followed by what `r` parsed.
pub open spec fn extend_stmts(done: Seq<StmtModel>, k: nat, r: Result<(Seq<StmtModel>, nat), Failure>) -> Result<
    (Seq<StmtModel>, nat),
    Failure,
> {
    match r {
        Ok((rest, m)) => Ok((done + rest, k + m)),
        Err(f) => Err(f),
    }
}

proof fn lemma_call_view(c: Call)
    ensures
        AbstractExpression::Call(c).view() == ExprModel::Call(Box::new(c.expr.view()), exprs_view(c.args@)),
{
    assert(AbstractExpression::Call(c).view()->Call_1 =~= exprs_view(c.args@));
}

proof fn lemma_fun_decl_view(f: FunctionDecl)
    ensures
        AbstractStatement::FunctionDecl(f).view() == StmtModel::FunctionDecl(
            f.ident,
            f.arguments@,
            stmts_view(f.body.stmts@),
        ),
{
    assert(AbstractStatement::FunctionDecl(f).view()->FunctionDecl_2 =~= stmts_view(f.body.stmts@));
}

/// Reads the next token if it is of kind `a` or `b`.
fn get_either(stream: &mut ParseStream, a: TokenKind, b: TokenKind) -> (r: Option<Token>)
    requires
        old(stream).wf(),
    ensures
        final(stream).wf(),
        final(stream).same_input(*old(stream)),
        ({
            let hit = is_kind(old(stream).toks(), old(stream).pos(), a) || is_kind(
                old(stream).toks(),
                old(stream).pos(),
                b,
            );
            &&& hit ==> r == Some(old(stream).toks()[old(stream).pos()]) && final(stream).pos()
                == old(stream).pos() + 1
            &&& !hit ==> r is None && final(stream).pos() == old(stream).pos()
        }),
{
    match stream.get(a) {
        Some(t) => Some(t),
        None => stream.get(b),
    }
}

/// Expression := Addition
pub fn expression(stream: &mut ParseStream) -> (r: Result<AbstractExpression, ParseError>)
    requires
        old(stream).wf(),
    ensures
        expr_outcome(
            *old(stream),
            *final(stream),
            r,
            expression_rule(old(stream).toks(), old(stream).source(), old(stream).pos()),
        ),
    decreases remaining(old(stream).toks(), old(stream).pos()), 20nat,
{
    self::add(stream)
}

/// Addition := Multiplication ((`+` | `-`) Multiplication)*, grouped to the
/// left.
pub fn add(stream: &mut ParseStream) -> (r: Result<AbstractExpression, ParseError>)
    requires
        old(stream).wf(),
    ensures
        expr_outcome(*old(stream), *final(stream), r, add_rule(old(stream).toks(), old(stream).source(), old(stream).pos())),
    decreases remaining(old(stream).toks(), old(stream).pos()), 19nat,
{
    let ghost toks = stream.toks();
    let ghost src = stream.source();
    let ghost i0 = stream.pos();
    let mut expr = match self::mul(stream) {
        Ok(e) => e,
        Err(e) => {
            return Err(e);
        },
    };
    loop
        invariant
            stream.wf(),
            stream.same_input(*old(stream)),
            toks == old(stream).toks(),
            src == old(stream).source(),
            i0 == old(stream).pos(),
            i0 <= stream.pos(),
            add_rule(toks, src, i0) == add_rest_rule(toks, src, stream.pos(), expr.view(), (stream.pos() - i0) as nat),
        ensures
            stream.wf(),
            stream.same_input(*old(stream)),
            i0 <= stream.pos(),
            add_rule(toks, src, i0) == Ok::<(ExprModel, nat), Failure>((expr.view(), (stream.pos() - i0) as nat)),
        decreases remaining(toks, stream.pos()),
    {
        proof {
            stream.lemma_wf();
        }
        let operator = match get_either(stream, TokenKind::Plus, TokenKind::Minus) {
            Some(t) => t,
            None => {
                break ;
            },
        };
        let rhs = match self::mul(stream) {
            Ok(e) => e,
            Err(e) => {
                return Err(e);
            },
        };
        expr = AbstractExpression::Binary(BinaryOp { operator, lhs: Box::new(expr), rhs: Box::new(rhs) });
    }
    Ok(expr)
}

/// Multiplication := Unary ((`*` | `/`) Unary)*, grouped to the left.
pub fn mul(stream: &mut ParseStream) -> (r: Result<AbstractExpression, ParseError>)
    requires
        old(stream).wf(),
    ensures
        expr_outcome(*old(stream), *final(stream), r, mul_rule(old(stream).toks(), old(stream).source(), old(stream).pos())),
    decreases remaining(old(stream).toks(), old(stream).pos()), 17nat,
{
    let ghost toks = stream.toks();
    let ghost src = stream.source();
    let ghost i0 = stream.pos();
    let mut expr = match unary(stream) {
        Ok(e) => e,
        Err(e) => {
            return Err(e);
        },
    };
    loop
        invariant
            stream.wf(),
            stream.same_input(*old(stream)),
            toks == old(stream).toks(),
            src == old(stream).source(),
            i0 == old(stream).pos(),
            i0 <= stream.pos(),
            mul_rule(toks, src, i0) == mul_rest_rule(toks, src, stream.pos(), expr.view(), (stream.pos() - i0) as nat),
        ensures
            stream.wf(),
            stream.same_input(*old(stream)),
            i0 <= stream.pos(),
            mul_rule(toks, src, i0) == Ok::<(ExprModel, nat), Failure>((expr.view(), (stream.pos() - i0) as nat)),
        decreases remaining(toks, stream.pos()),
    {
        proof {
            stream.lemma_wf();
        }
        let operator = match get_either(stream, TokenKind::Star, TokenKind::Slash) {
            Some(t) => t,
            None => {
                break ;
            },
        };
        let rhs = match unary(stream) {
            Ok(e) => e,
            Err(e) => {
                return Err(e);
            },
        };
        expr = AbstractExpression::Binary(BinaryOp { operator, lhs: Box::new(expr), rhs: Box::new(rhs) });
    }
    Ok(expr)
}

/// Unary := (`!` | `-`) Unary | Property, nested to the right.
pub fn unary(stream: &mut ParseStream) -> (r: Result<AbstractExpression, ParseError>)
    requires
        old(stream).wf(),
    ensures
        expr_outcome(*old(stream), *final(stream), r, unary_rule(old(stream).toks(), old(stream).source(), old(stream).pos())),
    decreases remaining(old(stream).toks(), old(stream).pos()), 15nat,
{
    proof {
        stream.lemma_wf();
    }
    match get_either(stream, TokenKind::Bang, TokenKind::Minus) {
        Some(op) => match unary(stream) {
            Ok(e) => Ok(AbstractExpression::Unary(Unary { op, expr: Box::new(e) })),
            Err(e) => Err(e),
        },
        None => property(stream),
    }
}

/// Property := IDENT (`.` IDENT | `(` arguments `)`)* | Grouping: one
/// left-to-right chain of property accesses and calls.
pub fn property(stream: &mut ParseStream) -> (r: Result<AbstractExpression, ParseError>)
    requires
        old(stream).wf(),
    ensures
        expr_outcome(
            *old(stream),
            *final(stream),
            r,
            property_rule(old(stream).toks(), old(stream).source(), old(stream).pos()),
        ),
    decreases remaining(old(stream).toks(), old(stream).pos()), 14nat,
{
    let ghost toks = stream.toks();
    let ghost src = stream.source();
    let ghost i0 = stream.pos();
    proof {
        stream.lemma_wf();
    }
    let init = match stream.get(TokenKind::Ident) {
        Some(t) => t,
        None => {
            return grouping(stream);
        },
    };
    let mut expr = AbstractExpression::PropertyAccess(PropertyAccess { obj: None, property: init });
    loop
        invariant
            stream.wf(),
            stream.same_input(*old(stream)),
            toks == old(stream).toks(),
            src == old(stream).source(),
            i0 == old(stream).pos(),
            i0 < stream.pos(),
            property_rule(toks, src, i0) == postfix_rule(toks, src, stream.pos(), expr.view(), (stream.pos() - i0) as nat),
        ensures
            stream.wf(),
            stream.same_input(*old(stream)),
            i0 < stream.pos(),
            property_rule(toks, src, i0) == Ok::<(ExprModel, nat), Failure>((expr.view(), (stream.pos() - i0) as nat)),
        decreases remaining(toks, stream.pos()),
    {
        proof {
            stream.lemma_wf();
        }
        let ghost j = stream.pos();
        if stream.gets(TokenKind::Dot) {
            let property = match expect_ident(stream) {
                Ok(t) => t,
                Err(e) => {
                    return Err(e);
                },
            };
            expr = AbstractExpression::PropertyAccess(PropertyAccess { obj: Some(Box::new(expr)), property });
        } else if stream.gets(TokenKind::LParen) {
            let args = match arguments(stream) {
                Ok(a) => a,
                Err(e) => {
                    return Err(e);
                },
            };
            let call = Call { expr: Box::new(expr), args };
            proof {
                lemma_call_view(call);
            }
            expr = AbstractExpression::Call(call);
        } else {
            break ;
        }
    }
    Ok(expr)
}

/// The arguments of a call after its `(`: nothing or Expression (`,`
/// Expression)*, then `)`.
fn arguments(stream: &mut ParseStream) -> (r: Result<Vec<AbstractExpression>, ParseError>)
    requires
        old(stream).wf(),
        old(stream).pos() > 0,
    ensures
        final(stream).wf(),
        final(stream).same_input(*old(stream)),
        ({
            let toks = old(stream).toks();
            let j = old(stream).pos();
            let m = if is_kind(toks, j, TokenKind::RParen) {
                Ok::<(Seq<ExprModel>, nat), Failure>((seq![], 1))
            } else {
                arguments_rule(toks, old(stream).source(), j)
            };
            match m {
                Ok((args, n)) => r matches Ok(x) && exprs_view(x@) == args && final(stream).pos() == j + n,
                Err(f) => r matches Err(x) && x == failure_error(*old(stream), f),
            }
        }),
    decreases remaining(old(stream).toks(), old(stream).pos()), 22nat,
{
    let ghost toks = stream.toks();
    let ghost src = stream.source();
    let ghost j0 = stream.pos();
    let mut args: Vec<AbstractExpression> = Vec::new();
    proof {
        stream.lemma_wf();
        assert(exprs_view(args@) =~= Seq::<ExprModel>::empty());
        assert(extend_args(seq![], 0, arguments_rule(toks, src, j0)) =~~= arguments_rule(toks, src, j0)) by {
            match arguments_rule(toks, src, j0) {
                Ok((rest, m)) => {
                    assert(Seq::<ExprModel>::empty() + rest =~= rest);
                },
                Err(f) => {},
            }
        }
    }
    if stream.peeks(TokenKind::RParen) {
        stream.next();
        proof {
            assert(exprs_view(args@) =~= Seq::<ExprModel>::empty());
        }
        return Ok(args);
    }
    loop
        invariant
            stream.wf(),
            stream.same_input(*old(stream)),
            toks == old(stream).toks(),
            src == old(stream).source(),
            j0 == old(stream).pos(),
            0 < j0 <= stream.pos(),
            !is_kind(toks, j0, TokenKind::RParen),
            arguments_rule(toks, src, j0) == extend_args(
                exprs_view(args@),
                (stream.pos() - j0) as nat,
                arguments_rule(toks, src, stream.pos()),
            ),
        decreases remaining(toks, stream.pos()),
    {
        proof {
            stream.lemma_wf();
        }
        let ghost cur = stream.pos();
        let a = match expression(stream) {
            Ok(e) => e,
            Err(e) => {
                return Err(e);
            },
        };
        let ghost before = exprs_view(args@);
        args.push(a);
        proof {
            assert(exprs_view(args@) =~= before.push(a.view()));
        }
        if !stream.gets(TokenKind::Comma) {
            let ghost p = stream.pos();
            let closing = stream.expect(TokenKind::RParen, ParseErrorKind::ExpectedArgumentsClose);
            proof {
                match arguments_rule(toks, src, cur) {
                    Ok((rest, m)) => {
                        assert(rest =~= seq![a.view()]);
                        assert(before + rest =~= exprs_view(args@));
                    },
                    Err(f) => {},
                }
            }
            match closing {
                Ok(_) => {
                    return Ok(args);
                },
                Err(e) => {
                    return Err(e);
                },
            }
        }
        proof {
            match arguments_rule(toks, src, stream.pos()) {
                Ok((rest, m)) => {
                    assert(before + (seq![a.view()] + rest) =~= exprs_view(args@) + rest);
                },
                Err(f) => {},
            }
        }
    }
}

/// Grouping := `(` Expression `)` | Literal
pub fn grouping(stream: &mut ParseStream) -> (r: Result<AbstractExpression, ParseError>)
    requires
        old(stream).wf(),
    ensures
        expr_outcome(
            *old(stream),
            *final(stream),
            r,
            grouping_rule(old(stream).toks(), old(stream).source(), old(stream).pos()),
        ),
    decreases remaining(old(stream).toks(), old(stream).pos()), 12nat,
{
    proof {
        stream.lemma_wf();
    }
    if stream.gets(TokenKind::LParen) {
        let inside = match expression(stream) {
            Ok(e) => e,
            Err(e) => {
                return Err(e);
            },
        };
        match stream.expect(TokenKind::RParen, ParseErrorKind::ExpectedGroupClose) {
            Ok(_) => Ok(AbstractExpression::Grouping(Box::new(inside))),
            Err(e) => Err(e),
        }
    } else {
        literal(stream)
    }
}

/// Literal := unsigned-integer | string, decoded from the source text.
pub fn literal(stream: &mut ParseStream) -> (r: Result<AbstractExpression, ParseError>)
    requires
        old(stream).wf(),
    ensures
        expr_outcome(
            *old(stream),
            *final(stream),
            r,
            literal_rule(old(stream).toks(), old(stream).source(), old(stream).pos()),
        ),
{
    proof {
        stream.lemma_wf();
    }
    let here = stream.span();
    match stream.get(TokenKind::UInt) {
        Some(tok) => {
            return match stream.uint_value(tok) {
                Some(v) => Ok(AbstractExpression::Literal(AbstractLiteral::UInt(v))),
                None => Err(ParseError { span: here, kind: ParseErrorKind::IntegerTooLarge }),
            };
        },
        None => {},
    }
    match stream.get(TokenKind::String) {
        Some(tok) => Ok(AbstractExpression::Literal(AbstractLiteral::String(stream.string_value(tok)))),
        None => Err(stream.error(ParseErrorKind::ExpectedPrimary)),
    }
}

/// Reads an identifier, or fails with an error at the next token.
pub fn expect_ident(stream: &mut ParseStream) -> (r: Result<Token, ParseError>)
    requires
        old(stream).wf(),
    ensures
        final(stream).wf(),
        final(stream).same_input(*old(stream)),
        is_kind(old(stream).toks(), old(stream).pos(), TokenKind::Ident) ==> r == Ok::<Token, ParseError>(
            old(stream).toks()[old(stream).pos()],
        ) && final(stream).pos() == old(stream).pos() + 1,
        !is_kind(old(stream).toks(), old(stream).pos(), TokenKind::Ident) ==> r == Err::<Token, ParseError>(
            ParseError { span: old(stream).here(), kind: ParseErrorKind::ExpectedIdentifier },
        ),
{
    stream.expect(TokenKind::Ident, ParseErrorKind::ExpectedIdentifier)
}

/// Statement := Expression `;`
pub fn expression_stmt(stream: &mut ParseStream) -> (r: Result<AbstractStatement, ParseError>)
    requires
        old(stream).wf(),
    ensures
        stmt_outcome(
            *old(stream),
            *final(stream),
            r,
            expression_stmt_rule(old(stream).toks(), old(stream).source(), old(stream).pos()),
        ),
{
    let expr = match expression(stream) {
        Ok(e) => e,
        Err(e) => {
            return Err(e);
        },
    };
    match stream.expect(TokenKind::Semi, ParseErrorKind::ExpectedSemicolon) {
        Ok(_) => Ok(AbstractStatement::Expr(expr)),
        Err(e) => Err(e),
    }
}

/// The parameters of a function after its `(`: nothing or IDENT (`,`
/// IDENT)*, then `)`.
fn parameters(stream: &mut ParseStream) -> (r: Result<Vec<Token>, ParseError>)
    requires
        old(stream).wf(),
    ensures
        final(stream).wf(),
        final(stream).same_input(*old(stream)),
        match parameters_rule(old(stream).toks(), old(stream).pos()) {
            Ok((ps, n)) => r matches Ok(x) && x@ == ps && final(stream).pos() == old(stream).pos() + n,
            Err(f) => r matches Err(x) && x == failure_error(*old(stream), f),
        },
{
    let ghost toks = stream.toks();
    let ghost j0 = stream.pos();
    let mut params: Vec<Token> = Vec::new();
    proof {
        stream.lemma_wf();
    }
    if stream.gets(TokenKind::RParen) {
        proof {
            assert(params@ =~= Seq::<Token>::empty());
        }
        return Ok(params);
    }
    proof {
        assert(extend_params(seq![], 0, parameter_list_rule(toks, j0)) =~~= parameter_list_rule(toks, j0)) by {
            match parameter_list_rule(toks, j0) {
                Ok((rest, m)) => {
                    assert(Seq::<Token>::empty() + rest =~= rest);
                },
                Err(f) => {},
            }
        }
    }
    loop
        invariant
            stream.wf(),
            stream.same_input(*old(stream)),
            toks == old(stream).toks(),
            j0 == old(stream).pos(),
            j0 <= stream.pos(),
            !is_kind(toks, j0, TokenKind::RParen),
            parameter_list_rule(toks, j0) == extend_params(
                params@,
                (stream.pos() - j0) as nat,
                parameter_list_rule(toks, stream.pos()),
            ),
        decreases remaining(toks, stream.pos()),
    {
        proof {
            stream.lemma_wf();
        }
        let ghost cur = stream.pos();
        let name = match stream.peek() {
            Some(t) => {
                if t.kind == TokenKind::Ident {
                    stream.next();
                    t
                } else {
                    return Err(stream.error(ParseErrorKind::ExpectedParameter(Some(t.kind))));
                }
            },
            None => {
                return Err(stream.error(ParseErrorKind::ExpectedParameter(None)));
            },
        };
        let ghost before = params@;
        params.push(name);
        if !stream.gets(TokenKind::Comma) {
            let closing = stream.expect(TokenKind::RParen, ParseErrorKind::ExpectedParametersClose);
            proof {
                match parameter_list_rule(toks, cur) {
                    Ok((rest, m)) => {
                        assert(before + rest =~= params@);
                    },
                    Err(f) => {},
                }
            }
            match closing {
                Ok(_) => {
                    return Ok(params);
                },
                Err(e) => {
                    return Err(e);
                },
            }
        }
        proof {
            match parameter_list_rule(toks, stream.pos()) {
                Ok((rest, m)) => {
                    assert(before + (seq![name] + rest) =~= params@ + rest);
                },
                Err(f) => {},
            }
        }
    }
}

/// Declaration := `fun` IDENT `(` parameters `{` block | Statement
pub fn fun_decl(stream: &mut ParseStream) -> (r: Result<AbstractStatement, ParseError>)
    requires
        old(stream).wf(),
    ensures
        stmt_outcome(
            *old(stream),
            *final(stream),
            r,
            fun_decl_rule(old(stream).toks(), old(stream).source(), old(stream).pos()),
        ),
    decreases remaining(old(stream).toks(), old(stream).pos()), 40nat,
{
    proof {
        stream.lemma_wf();
    }
    if !stream.gets(TokenKind::Fun) {
        return expression_stmt(stream);
    }
    let ident = match expect_ident(stream) {
        Ok(t) => t,
        Err(e) => {
            return Err(e);
        },
    };
    match stream.expect(TokenKind::LParen, ParseErrorKind::ExpectedOpeningParen) {
        Ok(_) => {},
        Err(e) => {
            return Err(e);
        },
    }
    let arguments = match parameters(stream) {
        Ok(ps) => ps,
        Err(e) => {
            return Err(e);
        },
    };
    match stream.expect(TokenKind::LBrace, ParseErrorKind::ExpectedOpeningBrace) {
        Ok(_) => {},
        Err(e) => {
            return Err(e);
        },
    }
    let body = match expect_block(stream) {
        Ok(b) => b,
        Err(e) => {
            return Err(e);
        },
    };
    let decl = FunctionDecl { ident, arguments, body };
    proof {
        lemma_fun_decl_view(decl);
    }
    Ok(AbstractStatement::FunctionDecl(decl))
}

/// A declaration: a function declaration or a statement.
pub fn statement(stream: &mut ParseStream) -> (r: Result<AbstractStatement, ParseError>)
    requires
        old(stream).wf(),
    ensures
        stmt_outcome(
            *old(stream),
            *final(stream),
            r,
            statement_rule(old(stream).toks(), old(stream).source(), old(stream).pos()),
        ),
    decreases remaining(old(stream).toks(), old(stream).pos()), 41nat,
{
    fun_decl(stream)
}

/// The declarations of a block after its `{`, and the closing `}`; the
/// block ends at `}` or at the end of the input.
pub fn expect_block(stream: &mut ParseStream) -> (r: Result<Block, ParseError>)
    requires
        old(stream).wf(),
    ensures
        final(stream).wf(),
        final(stream).same_input(*old(stream)),
        match block_rule(old(stream).toks(), old(stream).source(), old(stream).pos()) {
            Ok((stmts, n)) => r matches Ok(x) && x.view() == stmts && final(stream).pos() == old(stream).pos() + n,
            Err(f) => r matches Err(x) && x == failure_error(*old(stream), f),
        },
    decreases remaining(old(stream).toks(), old(stream).pos()), 42nat,
{
    let ghost toks = stream.toks();
    let ghost src = stream.source();
    let ghost j0 = stream.pos();
    let mut stmts: Vec<AbstractStatement> = Vec::new();
    proof {
        stream.lemma_wf();
        assert(stmts_view(stmts@) =~= Seq::<StmtModel>::empty());
        assert(extend_stmts(seq![], 0, block_rule(toks, src, j0)) =~~= block_rule(toks, src, j0)) by {
            match block_rule(toks, src, j0) {
                Ok((rest, m)) => {
                    assert(Seq::<StmtModel>::empty() + rest =~= rest);
                },
                Err(f) => {},
            }
        }
    }
    loop
        invariant
            stream.wf(),
            stream.same_input(*old(stream)),
            toks == old(stream).toks(),
            src == old(stream).source(),
            j0 == old(stream).pos(),
            j0 <= stream.pos(),
            block_rule(toks, src, j0) == extend_stmts(
                stmts_view(stmts@),
                (stream.pos() - j0) as nat,
                block_rule(toks, src, stream.pos()),
            ),
        ensures
            stream.wf(),
            stream.same_input(*old(stream)),
            j0 <= stream.pos(),
            stream.pos() >= toks.len() || is_kind(toks, stream.pos(), TokenKind::RBrace),
            block_rule(toks, src, j0) == extend_stmts(
                stmts_view(stmts@),
                (stream.pos() - j0) as nat,
                block_rule(toks, src, stream.pos()),
            ),
        decreases remaining(toks, stream.pos()),
    {
        proof {
            stream.lemma_wf();
        }
        if stream.peeks(TokenKind::RBrace) || stream.peek().is_none() {
            break ;
        }
        let st = match statement(stream) {
            Ok(st) => st,
            Err(e) => {
                return Err(e);
            },
        };
        let ghost before = stmts_view(stmts@);
        stmts.push(st);
        proof {
            assert(stmts_view(stmts@) =~= before.push(st.view()));
            match block_rule(toks, src, stream.pos()) {
                Ok((rest, m)) => {
                    assert(before + (seq![st.view()] + rest) =~= stmts_view(stmts@) + rest);
                },
                Err(f) => {},
            }
        }
    }
    match stream.expect(TokenKind::RBrace, ParseErrorKind::ExpectedClosingBrace) {
        Ok(_) => {
            proof {
                assert(stmts_view(stmts@) + Seq::<StmtModel>::empty() =~= stmts_view(stmts@));
            }
            Ok(Block { stmts })
        },
        Err(e) => Err(e),
    }
}

/// Program := Declaration*, up to the end of the tokens.
pub fn program(stream: &mut ParseStream) -> (r: Result<Vec<AbstractStatement>, ParseError>)
    requires
        old(stream).wf(),
    ensures
        final(stream).wf(),
        final(stream).same_input(*old(stream)),
        match program_rule(old(stream).toks(), old(stream).source(), old(stream).pos()) {
            Ok(stmts) => r matches Ok(x) && stmts_view(x@) == stmts,
            Err(f) => r matches Err(x) && x == failure_error(*old(stream), f),
        },
{
    let ghost toks = stream.toks();
    let ghost src = stream.source();
    let mut stmts: Vec<AbstractStatement> = Vec::new();
    proof {
        stream.lemma_wf();
        assert(stmts_view(stmts@) =~= Seq::<StmtModel>::empty());
        match program_rule(toks, src, stream.pos()) {
            Ok(rest) => {
                assert(Seq::<StmtModel>::empty() + rest =~= rest);
            },
            Err(f) => {},
        }
    }
    while stream.peek().is_some()
        invariant
            stream.wf(),
            stream.same_input(*old(stream)),
            toks == old(stream).toks(),
            src == old(stream).source(),
            program_rule(toks, src, old(stream).pos()) == extend_program(
                stmts_view(stmts@),
                program_rule(toks, src, stream.pos()),
            ),
        decreases remaining(toks, stream.pos()),
    {
        proof {
            stream.lemma_wf();
        }
        let ghost cur = stream.pos();
        let ghost done = stmts_view(stmts@);
        let st = match statement(stream) {
            Ok(st) => st,
            Err(e) => {
                proof {
                    lemma_program_step(toks, src, cur, done);
                }
                return Err(e);
            },
        };
        stmts.push(st);
        proof {
            lemma_program_step(toks, src, cur, done);
            assert(stmts_view(stmts@) =~= done + seq![st.view()]);
        }
    }
    proof {
        stream.lemma_wf();
        assert(stmts_view(stmts@) + Seq::<StmtModel>::empty() =~= stmts_view(stmts@));
    }
    Ok(stmts)
}

} // verus!
