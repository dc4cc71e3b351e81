//! The grammar, as functions from a token sequence to the tree it denotes.
//!
//! Each rule reads the tokens of `toks` from index `i` and gives the tree it
//! builds with the number of tokens it took, or the failure that stopped it.
//! The text `src` is read only to decode literals.
use vstd::prelude::*;

use crate::lexer::token::{Token, TokenKind};
use crate::parser::ast::{ExprModel, LiteralModel, StmtModel};
use crate::parser::{decimal_value, is_kind, token_text, ParseErrorKind};

verus! {

/// A failed expectation: what was expected, and the index of the token at
/// which it failed (the token count at the end of the input).
pub struct Failure {
    pub kind: ParseErrorKind,
    pub at: int,
}

pub open spec fn fail<T>(kind: ParseErrorKind, at: int) -> Result<T, Failure> {
    Err(Failure { kind, at })
}

/// Number of tokens left from index `i`.
pub open spec fn remaining(toks: Seq<Token>, i: int) -> nat {
    if i < toks.len() {
        (toks.len() - i) as nat
    } else {
        0
    }
}

/// The kind of the token at index `i`, if any.
pub open spec fn kind_at(toks: Seq<Token>, i: int) -> Option<TokenKind> {
    if 0 <= i < toks.len() {
        Some(toks[i].kind)
    } else {
        None
    }
}

/// Literal := unsigned-integer | string
pub open spec fn literal_rule(toks: Seq<Token>, src: Seq<char>, i: int) -> Result<(ExprModel, nat), Failure> {
    if is_kind(toks, i, TokenKind::UInt) {
        let v = decimal_value(token_text(src, toks[i]));
        if v <= u64::MAX {
            Ok((ExprModel::Literal(LiteralModel::UInt(v as u64)), 1))
        } else {
            fail(ParseErrorKind::IntegerTooLarge, i)
        }
    } else if is_kind(toks, i, TokenKind::String) {
        let t = token_text(src, toks[i]);
        Ok((ExprModel::Literal(LiteralModel::Str(t.subrange(1, t.len() - 1))), 1))
    } else {
        fail(ParseErrorKind::ExpectedPrimary, i)
    }
}

/// Grouping := `(` Expression `)` | Literal
pub open spec fn grouping_rule(toks: Seq<Token>, src: Seq<char>, i: int) -> Result<(ExprModel, nat), Failure>
    decreases remaining(toks, i), 12nat,
{
    if is_kind(toks, i, TokenKind::LParen) {
        match expression_rule(toks, src, i + 1) {
            Err(f) => Err(f),
            Ok((e, n)) => if is_kind(toks, i + 1 + n, TokenKind::RParen) {
                Ok((ExprModel::Grouping(Box::new(e)), n + 2))
            } else {
                fail(ParseErrorKind::ExpectedGroupClose, i + 1 + n)
            },
        }
    } else {
        literal_rule(toks, src, i)
    }
}

/// Arguments after `(`: Expression (`,` Expression)* `)`.
pub open spec fn arguments_rule(toks: Seq<Token>, src: Seq<char>, j: int) -> Result<(Seq<ExprModel>, nat), Failure>
    decreases remaining(toks, j), 21nat,
{
    match expression_rule(toks, src, j) {
        Err(f) => Err(f),
        Ok((e, n)) => if is_kind(toks, j + n, TokenKind::Comma) {
            match arguments_rule(toks, src, j + n + 1) {
                Err(f) => Err(f),
                Ok((rest, m)) => Ok((seq![e] + rest, n + 1 + m)),
            }
        } else if is_kind(toks, j + n, TokenKind::RParen) {
            Ok((seq![e], n + 1))
        } else {
            fail(ParseErrorKind::ExpectedArgumentsClose, j + n)
        },
    }
}

/// The postfix chain after `e`, which took `acc` tokens: (`.` IDENT | `(`
/// arguments `)`)*.
pub open spec fn postfix_rule(toks: Seq<Token>, src: Seq<char>, j: int, e: ExprModel, acc: nat) -> Result<
    (ExprModel, nat),
    Failure,
>
    decreases remaining(toks, j), 13nat,
{
    if is_kind(toks, j, TokenKind::Dot) {
        if is_kind(toks, j + 1, TokenKind::Ident) {
            postfix_rule(
                toks,
                src,
                j + 2,
                ExprModel::PropertyAccess(Some(Box::new(e)), toks[j + 1]),
                acc + 2,
            )
        } else {
            fail(ParseErrorKind::ExpectedIdentifier, j + 1)
        }
    } else if is_kind(toks, j, TokenKind::LParen) {
        if is_kind(toks, j + 1, TokenKind::RParen) {
            postfix_rule(toks, src, j + 2, ExprModel::Call(Box::new(e), seq![]), acc + 2)
        } else {
            match arguments_rule(toks, src, j + 1) {
                Err(f) => Err(f),
                Ok((args, m)) => postfix_rule(
                    toks,
                    src,
                    j + 1 + m,
                    ExprModel::Call(Box::new(e), args),
                    acc + 1 + m,
                ),
            }
        }
    } else {
        Ok((e, acc))
    }
}

/// Property := IDENT postfix-chain | Grouping
pub open spec fn property_rule(toks: Seq<Token>, src: Seq<char>, i: int) -> Result<(ExprModel, nat), Failure>
    decreases remaining(toks, i), 14nat,
{
    if is_kind(toks, i, TokenKind::Ident) {
        postfix_rule(toks, src, i + 1, ExprModel::PropertyAccess(None, toks[i]), 1)
    } else {
        grouping_rule(toks, src, i)
    }
}

/// Unary := (`!` | `-`) Unary | Property
pub open spec fn unary_rule(toks: Seq<Token>, src: Seq<char>, i: int) -> Result<(ExprModel, nat), Failure>
    decreases remaining(toks, i), 15nat,
{
    if is_kind(toks, i, TokenKind::Bang) || is_kind(toks, i, TokenKind::Minus) {
        match unary_rule(toks, src, i + 1) {
            Err(f) => Err(f),
            Ok((e, n)) => Ok((ExprModel::Unary(toks[i], Box::new(e)), n + 1)),
        }
    } else {
        property_rule(toks, src, i)
    }
}

/// The rest of a product whose left side `lhs` took `acc` tokens:
/// ((`*` | `/`) Unary)*, grouped to the left.
pub open spec fn mul_rest_rule(toks: Seq<Token>, src: Seq<char>, j: int, lhs: ExprModel, acc: nat) -> Result<
    (ExprModel, nat),
    Failure,
>
    decreases remaining(toks, j), 16nat,
{
    if is_kind(toks, j, TokenKind::Star) || is_kind(toks, j, TokenKind::Slash) {
        match unary_rule(toks, src, j + 1) {
            Err(f) => Err(f),
            Ok((rhs, m)) => mul_rest_rule(
                toks,
                src,
                j + 1 + m,
                ExprModel::Binary(toks[j], Box::new(lhs), Box::new(rhs)),
                acc + 1 + m,
            ),
        }
    } else {
        Ok((lhs, acc))
    }
}

/// Multiplication := Unary ((`*` | `/`) Unary)*
pub open spec fn mul_rule(toks: Seq<Token>, src: Seq<char>, i: int) -> Result<(ExprModel, nat), Failure>
    decreases remaining(toks, i), 17nat,
{
    match unary_rule(toks, src, i) {
        Err(f) => Err(f),
        Ok((e, n)) => mul_rest_rule(toks, src, i + n, e, n),
    }
}

/// The rest of a sum whose left side `lhs` took `acc` tokens:
/// ((`+` | `-`) Multiplication)*, grouped to the left.
pub open spec fn add_rest_rule(toks: Seq<Token>, src: Seq<char>, j: int, lhs: ExprModel, acc: nat) -> Result<
    (ExprModel, nat),
    Failure,
>
    decreases remaining(toks, j), 18nat,
{
    if is_kind(toks, j, TokenKind::Plus) || is_kind(toks, j, TokenKind::Minus) {
        match mul_rule(toks, src, j + 1) {
            Err(f) => Err(f),
            Ok((rhs, m)) => add_rest_rule(
                toks,
                src,
                j + 1 + m,
                ExprModel::Binary(toks[j], Box::new(lhs), Box::new(rhs)),
                acc + 1 + m,
            ),
        }
    } else {
        Ok((lhs, acc))
    }
}

/// Addition := Multiplication ((`+` | `-`) Multiplication)*
pub open spec fn add_rule(toks: Seq<Token>, src: Seq<char>, i: int) -> Result<(ExprModel, nat), Failure>
    decreases remaining(toks, i), 19nat,
{
    match mul_rule(toks, src, i) {
        Err(f) => Err(f),
        Ok((e, n)) => add_rest_rule(toks, src, i + n, e, n),
    }
}

/// Expression := Addition
pub open spec fn expression_rule(toks: Seq<Token>, src: Seq<char>, i: int) -> Result<(ExprModel, nat), Failure>
    decreases remaining(toks, i), 20nat,
{
    add_rule(toks, src, i)
}

/// Statement := Expression `;`
///
/// A statement takes at least one token: the count given is of those it took
/// beyond its first.
pub open spec fn expression_stmt_rule(toks: Seq<Token>, src: Seq<char>, i: int) -> Result<(StmtModel, nat), Failure> {
    match expression_rule(toks, src, i) {
        Err(f) => Err(f),
        Ok((e, n)) => if is_kind(toks, i + n, TokenKind::Semi) {
            Ok((StmtModel::Expr(e), n))
        } else {
            fail(ParseErrorKind::ExpectedSemicolon, i + n)
        },
    }
}

/// Parameter names after `(`: IDENT (`,` IDENT)* `)`.
pub open spec fn parameter_list_rule(toks: Seq<Token>, j: int) -> Result<(Seq<Token>, nat), Failure>
    decreases remaining(toks, j),
{
    if is_kind(toks, j, TokenKind::Ident) {
        if is_kind(toks, j + 1, TokenKind::Comma) {
            match parameter_list_rule(toks, j + 2) {
                Err(f) => Err(f),
                Ok((ps, m)) => Ok((seq![toks[j]] + ps, m + 2)),
            }
        } else if is_kind(toks, j + 1, TokenKind::RParen) {
            Ok((seq![toks[j]], 2))
        } else {
            fail(ParseErrorKind::ExpectedParametersClose, j + 1)
        }
    } else {
        fail(ParseErrorKind::ExpectedParameter(kind_at(toks, j)), j)
    }
}

/// Parameters after `(`: `)` | parameter names.
pub open spec fn parameters_rule(toks: Seq<Token>, j: int) -> Result<(Seq<Token>, nat), Failure> {
    if is_kind(toks, j, TokenKind::RParen) {
        Ok((seq![], 1))
    } else {
        parameter_list_rule(toks, j)
    }
}

/// Block after `{`: Declaration* `}`, ending at `}` or at the end of input.
pub open spec fn block_rule(toks: Seq<Token>, src: Seq<char>, j: int) -> Result<(Seq<StmtModel>, nat), Failure>
    decreases remaining(toks, j), 42nat,
{
    if is_kind(toks, j, TokenKind::RBrace) {
        Ok((seq![], 1))
    } else if j >= toks.len() {
        fail(ParseErrorKind::ExpectedClosingBrace, j)
    } else {
        match statement_rule(toks, src, j) {
            Err(f) => Err(f),
            Ok((st, n)) => match block_rule(toks, src, j + n + 1) {
                Err(f) => Err(f),
                Ok((rest, m)) => Ok((seq![st] + rest, n + 1 + m)),
            },
        }
    }
}

/// Declaration := `fun` IDENT `(` parameters `{` block | Statement
///
/// The count given is of the tokens taken beyond the first.
pub open spec fn fun_decl_rule(toks: Seq<Token>, src: Seq<char>, i: int) -> Result<(StmtModel, nat), Failure>
    decreases remaining(toks, i), 40nat,
{
    if is_kind(toks, i, TokenKind::Fun) {
        if !is_kind(toks, i + 1, TokenKind::Ident) {
            fail(ParseErrorKind::ExpectedIdentifier, i + 1)
        } else if !is_kind(toks, i + 2, TokenKind::LParen) {
            fail(ParseErrorKind::ExpectedOpeningParen, i + 2)
        } else {
            match parameters_rule(toks, i + 3) {
                Err(f) => Err(f),
                Ok((ps, n)) => if !is_kind(toks, i + 3 + n, TokenKind::LBrace) {
                    fail(ParseErrorKind::ExpectedOpeningBrace, i + 3 + n)
                } else {
                    match block_rule(toks, src, i + 4 + n) {
                        Err(f) => Err(f),
                        Ok((body, m)) => Ok((StmtModel::FunctionDecl(toks[i + 1], ps, body), 3 + n + m)),
                    }
                },
            }
        }
    } else {
        expression_stmt_rule(toks, src, i)
    }
}

/// A declaration; the count given is of the tokens taken beyond the first.
pub open spec fn statement_rule(toks: Seq<Token>, src: Seq<char>, i: int) -> Result<(StmtModel, nat), Failure>
    decreases remaining(toks, i), 41nat,
{
    fun_decl_rule(toks, src, i)
}

/// Program := Declaration*, up to the end of the tokens.
pub open spec fn program_rule(toks: Seq<Token>, src: Seq<char>, i: int) -> Result<Seq<StmtModel>, Failure>
    decreases remaining(toks, i),
{
    if i >= toks.len() {
        Ok(seq![])
    } else {
        match statement_rule(toks, src, i) {
            Err(f) => Err(f),
            Ok((st, n)) => match program_rule(toks, src, i + n + 1) {
                Err(f) => Err(f),
                Ok(rest) => Ok(seq![st] + rest),
            },
        }
    }
}

} // verus!
