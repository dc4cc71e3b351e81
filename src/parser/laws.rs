//! Laws of parsing: a tree is made of exactly the tokens it was parsed from.
use vstd::prelude::*;

use crate::lexer::token::{Token, TokenKind};
use crate::parser::ast::{ExprModel, LiteralModel, StmtModel};
use crate::parser::grammar::{
    add_rest_rule, add_rule, arguments_rule, block_rule, expression_rule, expression_stmt_rule, fun_decl_rule,
    grouping_rule, literal_rule, mul_rest_rule, mul_rule, parameter_list_rule, parameters_rule, postfix_rule,
    program_rule, property_rule, remaining, statement_rule, unary_rule,
};
use crate::parser::is_kind;

verus! {

/// The kinds of the tokens `toks[a..b]`.
pub open spec fn kinds_between(toks: Seq<Token>, a: int, b: int) -> Seq<TokenKind> {
    toks.subrange(a, b).map_values(|t: Token| t.kind)
}

/// The kinds of the tokens an expression is written with, in order.
pub open spec fn expr_leaves(e: ExprModel) -> Seq<TokenKind>
    decreases e,
{
    match e {
        ExprModel::Grouping(b) => seq![TokenKind::LParen] + expr_leaves(*b) + seq![TokenKind::RParen],
        ExprModel::Binary(op, l, r) => expr_leaves(*l) + seq![op.kind] + expr_leaves(*r),
        ExprModel::Literal(LiteralModel::UInt(_)) => seq![TokenKind::UInt],
        ExprModel::Literal(LiteralModel::Str(_)) => seq![TokenKind::String],
        ExprModel::BlockExpression(stmts) => seq![TokenKind::LBrace] + stmts_leaves(stmts) + seq![TokenKind::RBrace],
        ExprModel::PropertyAccess(None, t) => seq![t.kind],
        ExprModel::PropertyAccess(Some(b), t) => expr_leaves(*b) + seq![TokenKind::Dot, t.kind],
        ExprModel::Unary(op, b) => seq![op.kind] + expr_leaves(*b),
        ExprModel::Call(c, args) => expr_leaves(*c) + seq![TokenKind::LParen] + args_leaves(args) + seq![
            TokenKind::RParen,
        ],
    }
}

/// The kinds of the tokens of arguments, separated by commas.
pub open spec fn args_leaves(args: Seq<ExprModel>) -> Seq<TokenKind>
    decreases args,
{
    if args.len() == 0 {
        seq![]
    } else if args.len() == 1 {
        expr_leaves(args[0])
    } else {
        expr_leaves(args[0]) + seq![TokenKind::Comma] + args_leaves(args.drop_first())
    }
}

/// The kinds of the tokens of a statement.
pub open spec fn stmt_leaves(st: StmtModel) -> Seq<TokenKind>
    decreases st,
{
    match st {
        StmtModel::Expr(e) => expr_leaves(e) + seq![TokenKind::Semi],
        StmtModel::Block(stmts) => seq![TokenKind::LBrace] + stmts_leaves(stmts) + seq![TokenKind::RBrace],
        StmtModel::FunctionDecl(name, params, body) => seq![TokenKind::Fun, name.kind, TokenKind::LParen]
            + params_leaves(params) + seq![TokenKind::RParen, TokenKind::LBrace] + stmts_leaves(body) + seq![
            TokenKind::RBrace,
        ],
        StmtModel::Return(e) => seq![TokenKind::Return] + expr_leaves(e) + seq![TokenKind::Semi],
    }
}

/// The kinds of the tokens of statements, one after another.
pub open spec fn stmts_leaves(stmts: Seq<StmtModel>) -> Seq<TokenKind>
    decreases stmts,
{
    if stmts.len() == 0 {
        seq![]
    } else {
        stmt_leaves(stmts[0]) + stmts_leaves(stmts.drop_first())
    }
}

/// The kinds of parameter names separated by commas.
pub open spec fn params_leaves(params: Seq<Token>) -> Seq<TokenKind>
    decreases params.len(),
{
    if params.len() == 0 {
        seq![]
    } else if params.len() == 1 {
        seq![params[0].kind]
    } else {
        seq![params[0].kind, TokenKind::Comma] + params_leaves(params.drop_first())
    }
}

proof fn lemma_kinds_split(toks: Seq<Token>, a: int, b: int, c: int)
    requires
        0 <= a <= b <= c <= toks.len(),
    ensures
        kinds_between(toks, a, c) == kinds_between(toks, a, b) + kinds_between(toks, b, c),
{
    assert(kinds_between(toks, a, c) =~= kinds_between(toks, a, b) + kinds_between(toks, b, c));
}

proof fn lemma_kinds_one(toks: Seq<Token>, a: int)
    requires
        0 <= a < toks.len(),
    ensures
        kinds_between(toks, a, a + 1) == seq![toks[a].kind],
{
    assert(kinds_between(toks, a, a + 1) =~= seq![toks[a].kind]);
}

proof fn lemma_kinds_three(toks: Seq<Token>, a: int, b: int, c: int, d: int)
    requires
        0 <= a <= b <= c <= d <= toks.len(),
    ensures
        kinds_between(toks, a, d) == kinds_between(toks, a, b) + kinds_between(toks, b, c) + kinds_between(
            toks,
            c,
            d,
        ),
{
    lemma_kinds_split(toks, a, b, d);
    lemma_kinds_split(toks, b, c, d);
    assert(kinds_between(toks, a, b) + (kinds_between(toks, b, c) + kinds_between(toks, c, d)) =~= kinds_between(
        toks,
        a,
        b,
    ) + kinds_between(toks, b, c) + kinds_between(toks, c, d));
}

proof fn lemma_literal_tokens(toks: Seq<Token>, src: Seq<char>, i: int)
    requires
        0 <= i,
    ensures
        literal_rule(toks, src, i) matches Ok((e, n)) ==> i + n <= toks.len() && expr_leaves(e)
            == kinds_between(toks, i, i + n),
{
    if literal_rule(toks, src, i) is Ok {
        lemma_kinds_one(toks, i);
    }
}

proof fn lemma_grouping_tokens(toks: Seq<Token>, src: Seq<char>, i: int)
    requires
        0 <= i,
    ensures
        grouping_rule(toks, src, i) matches Ok((e, n)) ==> i + n <= toks.len() && expr_leaves(e)
            == kinds_between(toks, i, i + n),
    decreases remaining(toks, i), 12nat,
{
    if is_kind(toks, i, TokenKind::LParen) {
        lemma_expression_tokens(toks, src, i + 1);
        if let Ok((e, n)) = expression_rule(toks, src, i + 1) {
            if is_kind(toks, i + 1 + n, TokenKind::RParen) {
                lemma_kinds_one(toks, i);
                lemma_kinds_one(toks, i + 1 + n);
                lemma_kinds_three(toks, i, i + 1, i + 1 + n, i + 2 + n);
            }
        }
    } else {
        lemma_literal_tokens(toks, src, i);
    }
}

proof fn lemma_arguments_tokens(toks: Seq<Token>, src: Seq<char>, j: int)
    requires
        0 <= j,
    ensures
        arguments_rule(toks, src, j) matches Ok((args, n)) ==> j + n <= toks.len() && args.len() >= 1
            && args_leaves(args) + seq![TokenKind::RParen] == kinds_between(toks, j, j + n),
    decreases remaining(toks, j), 21nat,
{
    lemma_expression_tokens(toks, src, j);
    if let Ok((e, n1)) = expression_rule(toks, src, j) {
        if is_kind(toks, j + n1, TokenKind::Comma) {
            lemma_arguments_tokens(toks, src, j + n1 + 1);
            if let Ok((rest, m)) = arguments_rule(toks, src, j + n1 + 1) {
                let args = seq![e] + rest;
                assert(args[0] == e);
                assert(args.drop_first() =~= rest);
                lemma_kinds_one(toks, j + n1);
                lemma_kinds_three(toks, j, j + n1, j + n1 + 1, j + n1 + 1 + m);
                assert(args_leaves(args) + seq![TokenKind::RParen] =~= expr_leaves(e) + seq![TokenKind::Comma] + (
                args_leaves(rest) + seq![TokenKind::RParen]));
            }
        } else if is_kind(toks, j + n1, TokenKind::RParen) {
            lemma_kinds_one(toks, j + n1);
            lemma_kinds_split(toks, j, j + n1, j + n1 + 1);
            assert(seq![e][0] == e);
        }
    }
}

proof fn lemma_postfix_tokens(toks: Seq<Token>, src: Seq<char>, j: int, e: ExprModel, acc: nat)
    requires
        0 <= j - acc,
        j <= toks.len(),
        expr_leaves(e) == kinds_between(toks, j - acc, j),
    ensures
        postfix_rule(toks, src, j, e, acc) matches Ok((e2, n)) ==> j - acc + n <= toks.len() && expr_leaves(e2)
            == kinds_between(toks, j - acc, j - acc + n),
    decreases remaining(toks, j), 13nat,
{
    let a = j - acc;
    if is_kind(toks, j, TokenKind::Dot) {
        if is_kind(toks, j + 1, TokenKind::Ident) {
            let e2 = ExprModel::PropertyAccess(Some(Box::new(e)), toks[j + 1]);
            lemma_kinds_one(toks, j);
            lemma_kinds_one(toks, j + 1);
            lemma_kinds_three(toks, a, j, j + 1, j + 2);
            assert(expr_leaves(e2) =~= kinds_between(toks, a, j + 2));
            lemma_postfix_tokens(toks, src, j + 2, e2, acc + 2);
        }
    } else if is_kind(toks, j, TokenKind::LParen) {
        if is_kind(toks, j + 1, TokenKind::RParen) {
            let e2 = ExprModel::Call(Box::new(e), seq![]);
            assert(args_leaves(seq![]) == Seq::<TokenKind>::empty());
            lemma_kinds_one(toks, j);
            lemma_kinds_one(toks, j + 1);
            lemma_kinds_three(toks, a, j, j + 1, j + 2);
            assert(expr_leaves(e2) =~= kinds_between(toks, a, j + 2));
            lemma_postfix_tokens(toks, src, j + 2, e2, acc + 2);
        } else {
            lemma_arguments_tokens(toks, src, j + 1);
            if let Ok((args, m)) = arguments_rule(toks, src, j + 1) {
                let e2 = ExprModel::Call(Box::new(e), args);
                lemma_kinds_one(toks, j);
                lemma_kinds_three(toks, a, j, j + 1, j + 1 + m);
                assert(expr_leaves(e2) =~= kinds_between(toks, a, j) + kinds_between(toks, j, j + 1) + (
                args_leaves(args) + seq![TokenKind::RParen]));
                lemma_postfix_tokens(toks, src, j + 1 + m, e2, acc + 1 + m);
            }
        }
    }
}

proof fn lemma_property_tokens(toks: Seq<Token>, src: Seq<char>, i: int)
    requires
        0 <= i,
    ensures
        property_rule(toks, src, i) matches Ok((e, n)) ==> i + n <= toks.len() && expr_leaves(e)
            == kinds_between(toks, i, i + n),
    decreases remaining(toks, i), 14nat,
{
    if is_kind(toks, i, TokenKind::Ident) {
        lemma_kinds_one(toks, i);
        lemma_postfix_tokens(toks, src, i + 1, ExprModel::PropertyAccess(None, toks[i]), 1);
    } else {
        lemma_grouping_tokens(toks, src, i);
    }
}

proof fn lemma_unary_tokens(toks: Seq<Token>, src: Seq<char>, i: int)
    requires
        0 <= i,
    ensures
        unary_rule(toks, src, i) matches Ok((e, n)) ==> i + n <= toks.len() && expr_leaves(e)
            == kinds_between(toks, i, i + n),
    decreases remaining(toks, i), 15nat,
{
    if is_kind(toks, i, TokenKind::Bang) || is_kind(toks, i, TokenKind::Minus) {
        lemma_unary_tokens(toks, src, i + 1);
        if let Ok((e, n)) = unary_rule(toks, src, i + 1) {
            lemma_kinds_one(toks, i);
            lemma_kinds_split(toks, i, i + 1, i + 1 + n);
        }
    } else {
        lemma_property_tokens(toks, src, i);
    }
}

proof fn lemma_mul_rest_tokens(toks: Seq<Token>, src: Seq<char>, j: int, lhs: ExprModel, acc: nat)
    requires
        0 <= j - acc,
        j <= toks.len(),
        expr_leaves(lhs) == kinds_between(toks, j - acc, j),
    ensures
        mul_rest_rule(toks, src, j, lhs, acc) matches Ok((e, n)) ==> j - acc + n <= toks.len() && expr_leaves(e)
            == kinds_between(toks, j - acc, j - acc + n),
    decreases remaining(toks, j), 16nat,
{
    if is_kind(toks, j, TokenKind::Star) || is_kind(toks, j, TokenKind::Slash) {
        lemma_unary_tokens(toks, src, j + 1);
        if let Ok((rhs, m)) = unary_rule(toks, src, j + 1) {
            let e2 = ExprModel::Binary(toks[j], Box::new(lhs), Box::new(rhs));
            lemma_kinds_one(toks, j);
            lemma_kinds_three(toks, j - acc, j, j + 1, j + 1 + m);
            lemma_mul_rest_tokens(toks, src, j + 1 + m, e2, acc + 1 + m);
        }
    }
}

proof fn lemma_mul_tokens(toks: Seq<Token>, src: Seq<char>, i: int)
    requires
        0 <= i,
    ensures
        mul_rule(toks, src, i) matches Ok((e, n)) ==> i + n <= toks.len() && expr_leaves(e)
            == kinds_between(toks, i, i + n),
    decreases remaining(toks, i), 17nat,
{
    lemma_unary_tokens(toks, src, i);
    if let Ok((e, n)) = unary_rule(toks, src, i) {
        lemma_mul_rest_tokens(toks, src, i + n, e, n);
    }
}

proof fn lemma_add_rest_tokens(toks: Seq<Token>, src: Seq<char>, j: int, lhs: ExprModel, acc: nat)
    requires
        0 <= j - acc,
        j <= toks.len(),
        expr_leaves(lhs) == kinds_between(toks, j - acc, j),
    ensures
        add_rest_rule(toks, src, j, lhs, acc) matches Ok((e, n)) ==> j - acc + n <= toks.len() && expr_leaves(e)
            == kinds_between(toks, j - acc, j - acc + n),
    decreases remaining(toks, j), 18nat,
{
    if is_kind(toks, j, TokenKind::Plus) || is_kind(toks, j, TokenKind::Minus) {
        lemma_mul_tokens(toks, src, j + 1);
        if let Ok((rhs, m)) = mul_rule(toks, src, j + 1) {
            let e2 = ExprModel::Binary(toks[j], Box::new(lhs), Box::new(rhs));
            lemma_kinds_one(toks, j);
            lemma_kinds_three(toks, j - acc, j, j + 1, j + 1 + m);
            lemma_add_rest_tokens(toks, src, j + 1 + m, e2, acc + 1 + m);
        }
    }
}

proof fn lemma_add_tokens(toks: Seq<Token>, src: Seq<char>, i: int)
    requires
        0 <= i,
    ensures
        add_rule(toks, src, i) matches Ok((e, n)) ==> i + n <= toks.len() && expr_leaves(e)
            == kinds_between(toks, i, i + n),
    decreases remaining(toks, i), 19nat,
{
    lemma_mul_tokens(toks, src, i);
    if let Ok((e, n)) = mul_rule(toks, src, i) {
        lemma_add_rest_tokens(toks, src, i + n, e, n);
    }
}

/// An expression that parses is written with exactly the tokens it took,
/// in order: parsing loses no token and invents none.
pub proof fn lemma_expression_tokens(toks: Seq<Token>, src: Seq<char>, i: int)
    requires
        0 <= i,
    ensures
        expression_rule(toks, src, i) matches Ok((e, n)) ==> i + n <= toks.len() && expr_leaves(e)
            == kinds_between(toks, i, i + n),
    decreases remaining(toks, i), 20nat,
{
    lemma_add_tokens(toks, src, i);
}

proof fn lemma_expression_stmt_tokens(toks: Seq<Token>, src: Seq<char>, i: int)
    requires
        0 <= i,
    ensures
        expression_stmt_rule(toks, src, i) matches Ok((st, n)) ==> i + n + 1 <= toks.len() && stmt_leaves(st)
            == kinds_between(toks, i, i + n + 1),
{
    lemma_expression_tokens(toks, src, i);
    if let Ok((e, n)) = expression_rule(toks, src, i) {
        if is_kind(toks, i + n, TokenKind::Semi) {
            lemma_kinds_one(toks, i + n);
            lemma_kinds_split(toks, i, i + n, i + n + 1);
        }
    }
}

proof fn lemma_parameter_list_tokens(toks: Seq<Token>, j: int)
    requires
        0 <= j,
    ensures
        parameter_list_rule(toks, j) matches Ok((ps, n)) ==> j + n <= toks.len() && ps.len() >= 1
            && params_leaves(ps) + seq![TokenKind::RParen] == kinds_between(toks, j, j + n),
    decreases remaining(toks, j),
{
    if is_kind(toks, j, TokenKind::Ident) {
        lemma_kinds_one(toks, j);
        if is_kind(toks, j + 1, TokenKind::Comma) {
            lemma_parameter_list_tokens(toks, j + 2);
            if let Ok((rest, m)) = parameter_list_rule(toks, j + 2) {
                let ps = seq![toks[j]] + rest;
                assert(ps[0] == toks[j]);
                assert(ps.drop_first() =~= rest);
                lemma_kinds_one(toks, j + 1);
                lemma_kinds_three(toks, j, j + 1, j + 2, j + 2 + m);
                assert(params_leaves(ps) + seq![TokenKind::RParen] =~= kinds_between(toks, j, j + 1)
                    + kinds_between(toks, j + 1, j + 2) + (params_leaves(rest) + seq![TokenKind::RParen]));
            }
        } else if is_kind(toks, j + 1, TokenKind::RParen) {
            lemma_kinds_one(toks, j + 1);
            lemma_kinds_split(toks, j, j + 1, j + 2);
            assert(seq![toks[j]][0] == toks[j]);
        }
    }
}

proof fn lemma_parameters_tokens(toks: Seq<Token>, j: int)
    requires
        0 <= j,
    ensures
        parameters_rule(toks, j) matches Ok((ps, n)) ==> j + n <= toks.len() && params_leaves(ps) + seq![
            TokenKind::RParen,
        ] == kinds_between(toks, j, j + n),
{
    if is_kind(toks, j, TokenKind::RParen) {
        lemma_kinds_one(toks, j);
        assert(params_leaves(seq![]) + seq![TokenKind::RParen] =~= seq![TokenKind::RParen]);
    } else {
        lemma_parameter_list_tokens(toks, j);
    }
}

proof fn lemma_block_tokens(toks: Seq<Token>, src: Seq<char>, j: int)
    requires
        0 <= j,
    ensures
        block_rule(toks, src, j) matches Ok((stmts, n)) ==> j + n <= toks.len() && stmts_leaves(stmts) + seq![
            TokenKind::RBrace,
        ] == kinds_between(toks, j, j + n),
    decreases remaining(toks, j), 42nat,
{
    if is_kind(toks, j, TokenKind::RBrace) {
        lemma_kinds_one(toks, j);
        assert(stmts_leaves(seq![]) + seq![TokenKind::RBrace] =~= seq![TokenKind::RBrace]);
    } else if j < toks.len() {
        lemma_statement_tokens(toks, src, j);
        if let Ok((st, n1)) = statement_rule(toks, src, j) {
            lemma_block_tokens(toks, src, j + n1 + 1);
            if let Ok((rest, m)) = block_rule(toks, src, j + n1 + 1) {
                let stmts = seq![st] + rest;
                assert(stmts[0] == st);
                assert(stmts.drop_first() =~= rest);
                lemma_kinds_split(toks, j, j + n1 + 1, j + n1 + 1 + m);
                assert(stmts_leaves(stmts) + seq![TokenKind::RBrace] =~= stmt_leaves(st) + (stmts_leaves(rest)
                    + seq![TokenKind::RBrace]));
            }
        }
    }
}

proof fn lemma_fun_decl_tokens(toks: Seq<Token>, src: Seq<char>, i: int)
    requires
        0 <= i,
    ensures
        fun_decl_rule(toks, src, i) matches Ok((st, n)) ==> i + n + 1 <= toks.len() && stmt_leaves(st)
            == kinds_between(toks, i, i + n + 1),
    decreases remaining(toks, i), 40nat,
{
    if is_kind(toks, i, TokenKind::Fun) {
        if is_kind(toks, i + 1, TokenKind::Ident) && is_kind(toks, i + 2, TokenKind::LParen) {
            lemma_parameters_tokens(toks, i + 3);
            if let Ok((ps, n)) = parameters_rule(toks, i + 3) {
                if is_kind(toks, i + 3 + n, TokenKind::LBrace) {
                    lemma_block_tokens(toks, src, i + 4 + n);
                    if let Ok((body, m)) = block_rule(toks, src, i + 4 + n) {
                        lemma_kinds_one(toks, i + 3 + n);
                        assert(kinds_between(toks, i, i + 3) =~= seq![
                            TokenKind::Fun,
                            toks[i + 1].kind,
                            TokenKind::LParen,
                        ]);
                        lemma_kinds_split(toks, i, i + 3, i + 3 + n);
                        lemma_kinds_three(toks, i, i + 3 + n, i + 4 + n, i + 4 + n + m);
                        let st = StmtModel::FunctionDecl(toks[i + 1], ps, body);
                        assert(stmt_leaves(st) =~= kinds_between(toks, i, i + 3) + (params_leaves(ps) + seq![
                            TokenKind::RParen,
                        ]) + seq![TokenKind::LBrace] + (stmts_leaves(body) + seq![TokenKind::RBrace]));
                    }
                }
            }
        }
    } else {
        lemma_expression_stmt_tokens(toks, src, i);
    }
}

proof fn lemma_statement_tokens(toks: Seq<Token>, src: Seq<char>, i: int)
    requires
        0 <= i,
    ensures
        statement_rule(toks, src, i) matches Ok((st, n)) ==> i + n + 1 <= toks.len() && stmt_leaves(st)
            == kinds_between(toks, i, i + n + 1),
    decreases remaining(toks, i), 41nat,
{
    lemma_fun_decl_tokens(toks, src, i);
}

proof fn lemma_program_tokens_from(toks: Seq<Token>, src: Seq<char>, i: int)
    requires
        0 <= i <= toks.len(),
    ensures
        program_rule(toks, src, i) matches Ok(stmts) ==> stmts_leaves(stmts) == kinds_between(
            toks,
            i,
            toks.len() as int,
        ),
    decreases remaining(toks, i),
{
    if i >= toks.len() {
        assert(kinds_between(toks, i, toks.len() as int) =~= Seq::<TokenKind>::empty());
    } else {
        lemma_statement_tokens(toks, src, i);
        if let Ok((st, n)) = statement_rule(toks, src, i) {
            lemma_program_tokens_from(toks, src, i + n + 1);
            if let Ok(rest) = program_rule(toks, src, i + n + 1) {
                let stmts = seq![st] + rest;
                assert(stmts[0] == st);
                assert(stmts.drop_first() =~= rest);
                lemma_kinds_split(toks, i, i + n + 1, toks.len() as int);
            }
        }
    }
}

/// A program that parses is written with exactly its tokens, in order:
/// parsing loses no token and invents none.
pub proof fn lemma_program_tokens(toks: Seq<Token>, src: Seq<char>)
    ensures
        program_rule(toks, src, 0) matches Ok(stmts) ==> stmts_leaves(stmts) == toks.map_values(
            |t: Token| t.kind,
        ),
{
    lemma_program_tokens_from(toks, src, 0);
    assert(toks.subrange(0, toks.len() as int) =~= toks);
}

} // verus!
