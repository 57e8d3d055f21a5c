use vstd::prelude::*;

use crate::token::OperatorType;

verus! {

/// The expression tree the parser builds. A literal keeps the lexeme it was
/// read from; turning the lexeme into a machine number is left to the caller
/// that consumes the tree.
#[derive(Debug)]
pub enum Expr {
    /// A two-operand application; the operator may be any of the four.
    Binary { left: Box<Expr>, operator: OperatorType, right: Box<Expr> },
    /// A prefix application; the parser only ever builds it with an
    /// additive operator (plus or minus).
    Unary { operator: OperatorType, right: Box<Expr> },
    /// A parenthesized sub-expression; transparent to evaluation.
    Grouping(Box<Expr>),
    /// A number literal, as the text it was matched from.
    Literal(String),
}

/// The mathematical image of an expression tree; a literal carries the
/// characters of its lexeme.
pub enum ExprModel {
    Binary { left: Box<ExprModel>, operator: OperatorType, right: Box<ExprModel> },
    Unary { operator: OperatorType, right: Box<ExprModel> },
    Grouping(Box<ExprModel>),
    Literal(Seq<char>),
}

/// The image of a tree: the same shape, with each lexeme as a character
/// sequence.
pub open spec fn expr_model(e: Expr) -> ExprModel
    decreases e,
{
    match e {
        Expr::Binary { left, operator, right } => ExprModel::Binary {
            left: Box::new(expr_model(*left)),
            operator,
            right: Box::new(expr_model(*right)),
        },
        Expr::Unary { operator, right } => ExprModel::Unary {
            operator,
            right: Box::new(expr_model(*right)),
        },
        Expr::Grouping(inner) => ExprModel::Grouping(Box::new(expr_model(*inner))),
        Expr::Literal(lexeme) => ExprModel::Literal(lexeme@),
    }
}

impl View for Expr {
    type V = ExprModel;

    open spec fn view(&self) -> ExprModel {
        expr_model(*self)
    }
}

/// Every unary node of the tree carries an additive operator (plus or
/// minus). The parser establishes this for every tree it returns, so a
/// consumer of the tree never meets a multiplicative unary node.
pub open spec fn unary_ops_additive(e: ExprModel) -> bool
    decreases e,
{
    match e {
        ExprModel::Binary { left, operator: _, right } => unary_ops_additive(*left)
            && unary_ops_additive(*right),
        ExprModel::Unary { operator, right } => (operator == OperatorType::Add
            || operator == OperatorType::Subtract) && unary_ops_additive(*right),
        ExprModel::Grouping(inner) => unary_ops_additive(*inner),
        ExprModel::Literal(_) => true,
    }
}

} // verus!
