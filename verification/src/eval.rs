//! Evaluation of expressions and execution of programs.
//!
//! Evaluation never fails: a literal is its own value, a variable
//! reference is always zero (a deliberate unresolved-identifier stub, not
//! an error), and addition wraps around on 32-bit overflow, following the
//! two's-complement behaviour of the machine.  Executing a program
//! evaluates the argument of every `print` statement in source order;
//! statements with any other name are silently ignored.

use crate::ast::{stmt_models, Expr, ExprModel, Stmt, StmtModel};
use vstd::prelude::*;

verus! {

/// Reduce an unbounded sum back into the 32-bit two's-complement range.
/// Sums of two 32-bit values never miss this range by more than one
/// wrap, so one adjustment is enough.
pub open spec fn wrap_to_i32(n: int) -> int {
    if n > 0x7fff_ffff {
        n - 0x1_0000_0000
    } else if n < -0x8000_0000 {
        n + 0x1_0000_0000
    } else {
        n
    }
}

/// The value of an expression.
pub open spec fn eval_model(e: ExprModel) -> int
    decreases e,
{
    match e {
        ExprModel::Int(n) => n,
        ExprModel::Var(_) => 0,
        ExprModel::Add(a, b) => wrap_to_i32(eval_model(*a) + eval_model(*b)),
    }
}

/// Evaluation is a pure function of the tree: no state anywhere in the
/// pipeline can make two evaluations of structurally equal expressions
/// disagree, so the result of `eval` is fixed by its argument alone.
pub proof fn lemma_eval_deterministic(e1: ExprModel, e2: ExprModel)
    requires
        e1 == e2,
    ensures
        eval_model(e1) == eval_model(e2),
{
}

/// Walk an expression tree and reduce it to a single integer.
pub fn eval(expr: Expr) -> (r: i32)
    ensures
        r as int == eval_model(expr@),
    decreases expr,
{
    match expr {
        Expr::IntExpr(i) => i,
        Expr::Add(e1, e2) => {
            let a = eval(*e1);
            let b = eval(*e2);
            let s: i64 = a as i64 + b as i64;
            if s > 0x7fff_ffff {
                (s - 0x1_0000_0000) as i32
            } else if s < -0x8000_0000 {
                (s + 0x1_0000_0000) as i32
            } else {
                s as i32
            }
        },
        Expr::VarExpr(_) => 0,
    }
}

/// The integers a program prints: one for each `print` statement, in
/// source order.
pub open spec fn prog_outputs(ss: Seq<StmtModel>) -> Seq<int>
    decreases ss.len(),
{
    if ss.len() == 0 {
        Seq::empty()
    } else if ss[0].name == "print"@ {
        seq![eval_model(ss[0].arg)] + prog_outputs(ss.drop_first())
    } else {
        prog_outputs(ss.drop_first())
    }
}

fn is_print(s: &String) -> (r: bool)
    ensures
        r == (s@ == "print"@),
{
    proof {
        reveal_strlit("print");
    }
    let lit: &str = "print";
    let n = s.as_str().unicode_len();
    if n != 5 {
        return false;
    }
    let mut i: usize = 0;
    while i < 5
        invariant
            i <= 5,
            n == 5 == s@.len(),
            lit@ == "print"@ && lit@.len() == 5,
            forall|j: int| 0 <= j < i ==> s@[j] == lit@[j],
        decreases 5 - i,
    {
        if s.as_str().get_char(i) != lit.get_char(i) {
            return false;
        }
        i = i + 1;
    }
    proof {
        assert(s@ =~= "print"@);
    }
    true
}

/// Execute the statements in order, collecting the printed value of each
/// `print` statement; statements with any other name are no-ops.
pub fn exec_outputs(stmts: Vec<Stmt>) -> (r: Vec<i32>)
    ensures
        r@.map_values(|x: i32| x as int) == prog_outputs(stmt_models(stmts@)),
{
    let mut rest = stmts;
    let ghost total = stmt_models(rest@);
    let mut out: Vec<i32> = Vec::new();
    proof {
        assert(out@.map_values(|x: i32| x as int) =~= Seq::<int>::empty());
    }
    while rest.len() > 0
        invariant
            out@.map_values(|x: i32| x as int) + prog_outputs(stmt_models(rest@)) =~= prog_outputs(
                total,
            ),
        decreases rest@.len(),
    {
        let ghost before = stmt_models(rest@);
        let stmt = rest.remove(0);
        proof {
            assert(stmt_models(rest@) =~= before.drop_first());
            assert(stmt@ == before[0]);
        }
        if is_print(&stmt.name) {
            let ghost prev = out@;
            out.push(eval(stmt.arg));
            proof {
                assert(out@.map_values(|x: i32| x as int) =~= prev.map_values(|x: i32| x as int)
                    + seq![eval_model(before[0].arg)]);
                assert(out@.map_values(|x: i32| x as int) + prog_outputs(stmt_models(rest@))
                    =~= prog_outputs(total));
            }
        }
    }
    proof {
        assert(stmt_models(rest@).len() == 0);
        assert(out@.map_values(|x: i32| x as int) =~= prog_outputs(total));
    }
    out
}

} // verus!
