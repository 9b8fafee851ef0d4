//! Recursive-descent parsing of the classified token stream.
//!
//! The grammar has one token of lookahead and no backtracking: an integer
//! or identifier lexeme is a leaf; `+` is followed by exactly two
//! sub-expressions; `(` is followed by one expression and a mandatory `)`.
//! A program is a sequence of statements, each an identifier followed by
//! one expression.  Parsing is all or nothing: any malformed construct
//! fails the whole program.
//!
//! The specification-level parser is written with an explicit fuel
//! parameter to bound its recursion; since every recursive step first
//! consumes at least one token, a fuel of one more than the token count is
//! always enough, and `parse_expr_spec` / `parse_prog_spec` fix the fuel
//! at that value.

use crate::ast::{Expr, ExprModel, Stmt, StmtModel, stmt_models};
use crate::lexer::{classify, lex_models, wf_lexemes, LexModel, Lexeme, LexemeType};
use crate::numbers::{int_str_val, parse_i32};
use vstd::prelude::*;

verus! {

/// Parse one expression from the front of `toks`, returning the tree and
/// the unconsumed remainder; `None` on malformed input or exhausted fuel.
pub open spec fn parse_expr_fuel(toks: Seq<LexModel>, fuel: nat) -> Option<
    (ExprModel, Seq<LexModel>),
>
    decreases fuel,
{
    if fuel == 0 || toks.len() == 0 {
        None
    } else {
        let head = toks[0];
        let rest = toks.drop_first();
        match head.kind {
            LexemeType::Int => Some((ExprModel::Int(int_str_val(head.text)), rest)),
            LexemeType::Identifier => Some((ExprModel::Var(head.text), rest)),
            LexemeType::Op => if head.text == seq!['+'] {
                match parse_expr_fuel(rest, (fuel - 1) as nat) {
                    Some(r1) => match parse_expr_fuel(r1.1, (fuel - 1) as nat) {
                        Some(r2) => Some(
                            (ExprModel::Add(Box::new(r1.0), Box::new(r2.0)), r2.1),
                        ),
                        None => None,
                    },
                    None => None,
                }
            } else {
                None
            },
            LexemeType::ParenStart => match parse_expr_fuel(rest, (fuel - 1) as nat) {
                Some(r1) => if r1.1.len() > 0 && r1.1[0].kind is ParenEnd {
                    Some((r1.0, r1.1.drop_first()))
                } else {
                    None
                },
                None => None,
            },
            LexemeType::ParenEnd => None,
        }
    }
}

/// The expression parser with always-sufficient fuel.
pub open spec fn parse_expr_spec(toks: Seq<LexModel>) -> Option<(ExprModel, Seq<LexModel>)> {
    parse_expr_fuel(toks, (toks.len() + 1) as nat)
}

/// A successful parse consumes at least one token and leaves a suffix of
/// its input.
pub proof fn lemma_parse_expr_fuel_consumes(toks: Seq<LexModel>, fuel: nat)
    ensures
        match parse_expr_fuel(toks, fuel) {
            Some(r) => r.1.len() < toks.len() && r.1 == toks.skip(toks.len() - r.1.len()),
            None => true,
        },
    decreases fuel,
{
    if fuel == 0 || toks.len() == 0 {
    } else {
        let head = toks[0];
        let rest = toks.drop_first();
        assert(rest =~= toks.skip(1));
        let f1 = (fuel - 1) as nat;
        match head.kind {
            LexemeType::Op => {
                lemma_parse_expr_fuel_consumes(rest, f1);
                if head.text == seq!['+'] {
                    match parse_expr_fuel(rest, f1) {
                        Some(r1) => {
                            lemma_parse_expr_fuel_consumes(r1.1, f1);
                            match parse_expr_fuel(r1.1, f1) {
                                Some(r2) => {
                                    assert(r2.1 =~= toks.skip(toks.len() - r2.1.len()));
                                },
                                None => {},
                            }
                        },
                        None => {},
                    }
                }
            },
            LexemeType::ParenStart => {
                lemma_parse_expr_fuel_consumes(rest, f1);
                match parse_expr_fuel(rest, f1) {
                    Some(r1) => {
                        if r1.1.len() > 0 && r1.1[0].kind is ParenEnd {
                            assert(r1.1.drop_first() =~= toks.skip(
                                toks.len() - r1.1.drop_first().len(),
                            ));
                        }
                    },
                    None => {},
                }
            },
            _ => {
                match parse_expr_fuel(toks, fuel) {
                    Some(r) => {
                        assert(r.1 =~= toks.skip(toks.len() - r.1.len()));
                    },
                    None => {},
                }
            },
        }
    }
}

/// Above the always-sufficient threshold, more fuel does not change the
/// result.
pub proof fn lemma_parse_expr_fuel_mono(toks: Seq<LexModel>, f1: nat, f2: nat)
    requires
        toks.len() + 1 <= f1 <= f2,
    ensures
        parse_expr_fuel(toks, f1) == parse_expr_fuel(toks, f2),
    decreases f1,
{
    if toks.len() == 0 {
    } else {
        let head = toks[0];
        let rest = toks.drop_first();
        let g1 = (f1 - 1) as nat;
        let g2 = (f2 - 1) as nat;
        match head.kind {
            LexemeType::Op => {
                if head.text == seq!['+'] {
                    lemma_parse_expr_fuel_mono(rest, g1, g2);
                    match parse_expr_fuel(rest, g1) {
                        Some(r1) => {
                            lemma_parse_expr_fuel_consumes(rest, g1);
                            lemma_parse_expr_fuel_mono(r1.1, (r1.1.len() + 1) as nat, g1);
                            lemma_parse_expr_fuel_mono(r1.1, (r1.1.len() + 1) as nat, g2);
                        },
                        None => {},
                    }
                }
            },
            LexemeType::ParenStart => {
                lemma_parse_expr_fuel_mono(rest, g1, g2);
            },
            _ => {},
        }
    }
}

/// A parse that succeeds keeps succeeding, with the same result, at any
/// higher fuel.
pub proof fn lemma_parse_expr_fuel_some_mono(toks: Seq<LexModel>, f1: nat, f2: nat)
    requires
        f1 <= f2,
        parse_expr_fuel(toks, f1) is Some,
    ensures
        parse_expr_fuel(toks, f2) == parse_expr_fuel(toks, f1),
    decreases f1,
{
    let head = toks[0];
    let rest = toks.drop_first();
    let g1 = (f1 - 1) as nat;
    let g2 = (f2 - 1) as nat;
    match head.kind {
        LexemeType::Op => {
            if head.text == seq!['+'] {
                lemma_parse_expr_fuel_some_mono(rest, g1, g2);
                match parse_expr_fuel(rest, g1) {
                    Some(r1) => {
                        lemma_parse_expr_fuel_some_mono(r1.1, g1, g2);
                    },
                    None => {},
                }
            }
        },
        LexemeType::ParenStart => {
            lemma_parse_expr_fuel_some_mono(rest, g1, g2);
        },
        _ => {},
    }
}

/// Parse a whole statement sequence: empty input is the empty program;
/// otherwise an identifier begins a statement whose argument is one
/// expression, and the rest of the program follows.
pub open spec fn parse_prog_fuel(toks: Seq<LexModel>, fuel: nat) -> Option<Seq<StmtModel>>
    decreases fuel,
{
    if toks.len() == 0 {
        Some(Seq::empty())
    } else if fuel == 0 {
        None
    } else if toks[0].kind is Identifier {
        match parse_expr_spec(toks.drop_first()) {
            Some(r1) => match parse_prog_fuel(r1.1, (fuel - 1) as nat) {
                Some(ss) => Some(seq![StmtModel { name: toks[0].text, arg: r1.0 }] + ss),
                None => None,
            },
            None => None,
        }
    } else {
        None
    }
}

/// The statement-sequence parser with always-sufficient fuel.
pub open spec fn parse_prog_spec(toks: Seq<LexModel>) -> Option<Seq<StmtModel>> {
    parse_prog_fuel(toks, (toks.len() + 1) as nat)
}

pub proof fn lemma_parse_prog_fuel_mono(toks: Seq<LexModel>, f1: nat, f2: nat)
    requires
        toks.len() + 1 <= f1 <= f2,
    ensures
        parse_prog_fuel(toks, f1) == parse_prog_fuel(toks, f2),
    decreases f1,
{
    if toks.len() == 0 {
    } else if toks[0].kind is Identifier {
        let rest = toks.drop_first();
        match parse_expr_spec(rest) {
            Some(r1) => {
                lemma_parse_expr_fuel_consumes(rest, (rest.len() + 1) as nat);
                lemma_parse_prog_fuel_mono(r1.1, (r1.1.len() + 1) as nat, (f1 - 1) as nat);
                lemma_parse_prog_fuel_mono(r1.1, (r1.1.len() + 1) as nat, (f2 - 1) as nat);
            },
            None => {},
        }
    }
}

fn is_plus(s: &String) -> (r: bool)
    ensures
        r == (s@ == seq!['+']),
{
    let n = s.as_str().unicode_len();
    if n == 1 {
        let c0 = s.as_str().get_char(0);
        proof {
            if c0 == '+' {
                assert(s@ =~= seq!['+']);
            }
        }
        c0 == '+'
    } else {
        false
    }
}

/// Parse one expression, consuming lexemes destructively from the front
/// of `lexs`; nested calls consume tokens in left-to-right order with no
/// backtracking.  Returns `None` exactly when the specification parser
/// fails on the input lexemes.
pub fn parse_expr(lexs: &mut Vec<Lexeme>) -> (r: Option<Expr>)
    requires
        wf_lexemes(lex_models(old(lexs)@)),
    ensures
        final(lexs)@.len() < old(lexs)@.len() || (final(lexs)@ == old(lexs)@ && r is None),
        wf_lexemes(lex_models(final(lexs)@)),
        match parse_expr_spec(lex_models(old(lexs)@)) {
            Some(er) => r is Some && r.unwrap()@ == er.0 && lex_models(final(lexs)@) == er.1,
            None => r is None,
        },
    decreases old(lexs)@.len(),
{
    let ghost toks0 = lex_models(old(lexs)@);
    if lexs.len() == 0 {
        return None;
    }
    let head = lexs.remove(0);
    let ghost rest = toks0.drop_first();
    proof {
        assert(lex_models(lexs@) =~= rest);
        assert(rest =~= toks0.skip(1));
        lemma_wf_suffix(toks0, 1);
        assert(head@ == toks0[0]);
    }
    match head.lex_type {
        LexemeType::Int => {
            proof {
                assert(classify(head.s@) is Int);
            }
            // Safe because classification established that it parses.
            let n = parse_i32(head.s.as_str()).unwrap();
            Some(Expr::IntExpr(n))
        },
        LexemeType::Identifier => Some(Expr::VarExpr(head.s)),
        LexemeType::Op => {
            if is_plus(&head.s) {
                match parse_expr(lexs) {
                    Some(e1) => {
                        proof {
                            lemma_parse_expr_fuel_consumes(rest, (rest.len() + 1) as nat);
                        }
                        let ghost r1 = parse_expr_spec(rest).unwrap();
                        proof {
                            lemma_parse_expr_fuel_mono(
                                r1.1,
                                (r1.1.len() + 1) as nat,
                                toks0.len() as nat,
                            );
                        }
                        match parse_expr(lexs) {
                            Some(e2) => Some(Expr::Add(Box::new(e1), Box::new(e2))),
                            None => None,
                        }
                    },
                    None => None,
                }
            } else {
                None
            }
        },
        LexemeType::ParenStart => {
            match parse_expr(lexs) {
                Some(e) => {
                    if lexs.len() > 0 {
                        let ghost r1 = parse_expr_spec(rest).unwrap();
                        let end_paren = lexs.remove(0);
                        proof {
                            assert(end_paren@ == r1.1[0]);
                            assert(lex_models(lexs@) =~= r1.1.drop_first());
                            lemma_parse_expr_fuel_consumes(rest, (rest.len() + 1) as nat);
                        }
                        match end_paren.lex_type {
                            LexemeType::ParenEnd => Some(e),
                            _ => None,
                        }
                    } else {
                        None
                    }
                },
                None => None,
            }
        },
        LexemeType::ParenEnd => None,
    }
}

/// Parse the whole lexeme sequence into a statement list, preserving
/// source order.  Parsing is all or nothing: any failure yields `None`
/// for the entire program.
pub fn parse(lexs: &mut Vec<Lexeme>) -> (r: Option<Vec<Stmt>>)
    requires
        wf_lexemes(lex_models(old(lexs)@)),
    ensures
        match parse_prog_spec(lex_models(old(lexs)@)) {
            Some(ss) => r is Some && stmt_models(r.unwrap()@) == ss,
            None => r is None,
        },
    decreases old(lexs)@.len(),
{
    let ghost toks0 = lex_models(old(lexs)@);
    if lexs.is_empty() {
        proof {
            assert(stmt_models(Seq::<Stmt>::empty()) =~= Seq::<StmtModel>::empty());
        }
        return Some(Vec::new());
    }
    let head = lexs.remove(0);
    let ghost rest = toks0.drop_first();
    proof {
        assert(lex_models(lexs@) =~= rest);
        assert(rest =~= toks0.skip(1));
        lemma_wf_suffix(toks0, 1);
        assert(head@ == toks0[0]);
    }
    match head.lex_type {
        LexemeType::Identifier => {
            match parse_expr(lexs) {
                Some(expr) => {
                    proof {
                        lemma_parse_expr_fuel_consumes(rest, (rest.len() + 1) as nat);
                    }
                    let ghost r1 = parse_expr_spec(rest).unwrap();
                    proof {
                        lemma_parse_prog_fuel_mono(
                            r1.1,
                            (r1.1.len() + 1) as nat,
                            toks0.len() as nat,
                        );
                    }
                    match parse(lexs) {
                        Some(mut stmts) => {
                            let stmt = Stmt { name: head.s, arg: expr };
                            let ghost tail = stmts@;
                            stmts.insert(0, stmt);
                            proof {
                                assert(stmt_models(stmts@) =~= seq![
                                    StmtModel { name: toks0[0].text, arg: r1.0 },
                                ] + stmt_models(tail));
                            }
                            Some(stmts)
                        },
                        None => None,
                    }
                },
                None => None,
            }
        },
        _ => None,
    }
}

/// Every suffix of a well-formed lexeme sequence is well formed.
pub proof fn lemma_wf_suffix(toks: Seq<LexModel>, k: int)
    requires
        wf_lexemes(toks),
        0 <= k <= toks.len(),
    ensures
        wf_lexemes(toks.skip(k)),
{
    assert forall|i: int| 0 <= i < toks.skip(k).len() implies #[trigger] toks.skip(k)[i].kind
        == classify(toks.skip(k)[i].text) by {
        assert(toks.skip(k)[i] == toks[k + i]);
    }
}

} // verus!
