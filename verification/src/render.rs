//! Rendering expression trees back to prefix text.

use crate::ast::{Expr, ExprModel};
use crate::numbers::{int_string, int_text};
use vstd::prelude::*;

verus! {

/// The prefix text of an expression: a literal renders as its decimal
/// digits, a variable as its name, and an addition as `(+ left right)`.
pub open spec fn expr_text(e: ExprModel) -> Seq<char>
    decreases e,
{
    match e {
        ExprModel::Int(n) => int_text(n),
        ExprModel::Var(s) => s,
        ExprModel::Add(a, b) => seq!['(', '+', ' '] + expr_text(*a) + seq![' '] + expr_text(*b)
            + seq![')'],
    }
}

/// Render an expression to prefix text.
pub fn expr_str(e: &Expr) -> (r: String)
    ensures
        r@ == expr_text(e@),
    decreases e,
{
    match e {
        Expr::VarExpr(s) => s.clone(),
        Expr::IntExpr(i) => int_string(*i),
        Expr::Add(e1, e2) => {
            let mut s = String::from_str("(+ ");
            proof {
                reveal_strlit("(+ ");
                assert(s@ =~= seq!['(', '+', ' ']);
            }
            let left = expr_str(&**e1);
            s.append(left.as_str());
            s.append(" ");
            let right = expr_str(&**e2);
            s.append(right.as_str());
            s.append(")");
            proof {
                reveal_strlit(" ");
                reveal_strlit(")");
                assert(" "@ =~= seq![' ']);
                assert(")"@ =~= seq![')']);
                assert(s@ =~= expr_text(e@));
            }
            s
        },
    }
}

} // verus!
