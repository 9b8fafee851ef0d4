//! The syntax trees built by the parser.
//!
//! An expression is an integer literal, a variable reference, or the
//! addition of two sub-expressions; every `Add` node owns exactly two
//! children, so trees are finite and acyclic by construction.  A statement
//! is a name applied to one expression, and a program is a sequence of
//! statements in source order.

use vstd::prelude::*;

verus! {

/// An arithmetic expression.
#[derive(Debug, PartialEq)]
pub enum Expr {
    IntExpr(i32),
    VarExpr(String),
    Add(Box<Expr>, Box<Expr>),
}

/// The mathematical image of an expression: the same tree over `int`
/// values and character sequences.
pub enum ExprModel {
    Int(int),
    Var(Seq<char>),
    Add(Box<ExprModel>, Box<ExprModel>),
}

impl View for Expr {
    type V = ExprModel;

    open spec fn view(&self) -> ExprModel
        decreases self,
    {
        match self {
            Expr::IntExpr(i) => ExprModel::Int(*i as int),
            Expr::VarExpr(s) => ExprModel::Var(s@),
            Expr::Add(a, b) => ExprModel::Add(Box::new((**a)@), Box::new((**b)@)),
        }
    }
}

/// A statement: a name (such as `print`) applied to one expression.
#[derive(Debug, PartialEq)]
pub struct Stmt {
    pub name: String,
    pub arg: Expr,
}

/// The mathematical image of a statement.
pub struct StmtModel {
    pub name: Seq<char>,
    pub arg: ExprModel,
}

impl View for Stmt {
    type V = StmtModel;

    open spec fn view(&self) -> StmtModel {
        StmtModel { name: self.name@, arg: self.arg@ }
    }
}

/// The models of a statement sequence.
pub open spec fn stmt_models(ss: Seq<Stmt>) -> Seq<StmtModel> {
    ss.map_values(|s: Stmt| s@)
}

} // verus!
