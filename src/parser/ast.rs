//! The abstract syntax tree, and its mathematical model.
use vstd::prelude::*;

use crate::lexer::token::Token;

verus! {

/// A statement.
#[derive(Debug)]
pub enum AbstractStatement {
    Expr(AbstractExpression),
    /// A block can appear without an expression statement.
    BlockStatement(Block),
    FunctionDecl(FunctionDecl),
    Return(AbstractExpression),
}

/// An expression.
#[derive(Debug)]
pub enum AbstractExpression {
    Grouping(Box<AbstractExpression>),
    Binary(BinaryOp),
    Literal(AbstractLiteral),
    /// An inline block, as in `my_fn({ return 2+2; })`.
    BlockExpression(Block),
    PropertyAccess(PropertyAccess),
    Unary(Unary),
    Call(Call),
}

/// The value of a literal, decoded from its source text.
#[derive(Debug)]
pub enum AbstractLiteral {
    UInt(u64),
    String(String),
}

/// `obj.property`; with no `obj`, `property` is looked up in the current scope.
#[derive(Debug)]
pub struct PropertyAccess {
    pub obj: Option<Box<AbstractExpression>>,
    pub property: Token,
}

/// `fun ident(arguments) body`.
#[derive(Debug)]
pub struct FunctionDecl {
    pub ident: Token,
    pub arguments: Vec<Token>,
    pub body: Block,
}

/// A prefix operator applied to an expression.
#[derive(Debug)]
pub struct Unary {
    pub op: Token,
    pub expr: Box<AbstractExpression>,
}

/// `expr(args)`.
#[derive(Debug)]
pub struct Call {
    pub expr: Box<AbstractExpression>,
    pub args: Vec<AbstractExpression>,
}

/// A sequence of statements between braces.
#[derive(Debug)]
pub struct Block {
    pub stmts: Vec<AbstractStatement>,
}

/// `lhs operator rhs`.
#[derive(Debug)]
pub struct BinaryOp {
    pub operator: Token,
    pub lhs: Box<AbstractExpression>,
    pub rhs: Box<AbstractExpression>,
}

/// Model of a literal.
pub enum LiteralModel {
    UInt(u64),
    Str(Seq<char>),
}

/// Model of an expression.
pub enum ExprModel {
    Grouping(Box<ExprModel>),
    Binary(Token, Box<ExprModel>, Box<ExprModel>),
    Literal(LiteralModel),
    BlockExpression(Seq<StmtModel>),
    PropertyAccess(Option<Box<ExprModel>>, Token),
    Unary(Token, Box<ExprModel>),
    Call(Box<ExprModel>, Seq<ExprModel>),
}

/// Model of a statement.
pub enum StmtModel {
    Expr(ExprModel),
    Block(Seq<StmtModel>),
    FunctionDecl(Token, Seq<Token>, Seq<StmtModel>),
    Return(ExprModel),
}

impl AbstractLiteral {
    pub open spec fn view(&self) -> LiteralModel {
        match self {
            AbstractLiteral::UInt(v) => LiteralModel::UInt(*v),
            AbstractLiteral::String(s) => LiteralModel::Str(s@),
        }
    }
}

impl AbstractExpression {
    pub open spec fn view(&self) -> ExprModel
        decreases self,
    {
        match self {
            AbstractExpression::Grouping(e) => ExprModel::Grouping(Box::new(e.view())),
            AbstractExpression::Binary(b) => ExprModel::Binary(
                b.operator,
                Box::new(b.lhs.view()),
                Box::new(b.rhs.view()),
            ),
            AbstractExpression::Literal(l) => ExprModel::Literal(l.view()),
            AbstractExpression::BlockExpression(b) => ExprModel::BlockExpression(
                Seq::new(
                    b.stmts@.len(),
                    |i: int|
                        if 0 <= i < b.stmts@.len() {
                            b.stmts@[i].view()
                        } else {
                            StmtModel::Block(Seq::empty())
                        },
                ),
            ),
            AbstractExpression::PropertyAccess(p) => ExprModel::PropertyAccess(
                match p.obj {
                    Some(o) => Some(Box::new(o.view())),
                    None => None,
                },
                p.property,
            ),
            AbstractExpression::Unary(u) => ExprModel::Unary(u.op, Box::new(u.expr.view())),
            AbstractExpression::Call(c) => ExprModel::Call(
                Box::new(c.expr.view()),
                Seq::new(
                    c.args@.len(),
                    |i: int|
                        if 0 <= i < c.args@.len() {
                            c.args@[i].view()
                        } else {
                            ExprModel::Grouping(Box::new(ExprModel::BlockExpression(Seq::empty())))
                        },
                ),
            ),
        }
    }
}

impl AbstractStatement {
    pub open spec fn view(&self) -> StmtModel
        decreases self,
    {
        match self {
            AbstractStatement::Expr(e) => StmtModel::Expr(e.view()),
            AbstractStatement::BlockStatement(b) => StmtModel::Block(
                Seq::new(
                    b.stmts@.len(),
                    |i: int|
                        if 0 <= i < b.stmts@.len() {
                            b.stmts@[i].view()
                        } else {
                            StmtModel::Block(Seq::empty())
                        },
                ),
            ),
            AbstractStatement::FunctionDecl(f) => StmtModel::FunctionDecl(
                f.ident,
                f.arguments@,
                Seq::new(
                    f.body.stmts@.len(),
                    |i: int|
                        if 0 <= i < f.body.stmts@.len() {
                            f.body.stmts@[i].view()
                        } else {
                            StmtModel::Block(Seq::empty())
                        },
                ),
            ),
            AbstractStatement::Return(e) => StmtModel::Return(e.view()),
        }
    }
}

/// The models of a sequence of expressions.
pub open spec fn exprs_view(v: Seq<AbstractExpression>) -> Seq<ExprModel> {
    Seq::new(v.len(), |i: int| v[i].view())
}

/// The models of a sequence of statements.
pub open spec fn stmts_view(v: Seq<AbstractStatement>) -> Seq<StmtModel> {
    Seq::new(v.len(), |i: int| v[i].view())
}

impl Block {
    pub open spec fn view(&self) -> Seq<StmtModel> {
        stmts_view(self.stmts@)
    }
}

} // verus!
