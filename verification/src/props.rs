//! Relations between the pipeline's stages, chiefly the round trip:
//! rendering a well-formed expression tree to prefix text and running the
//! text back through tokenizer, classifier and parser yields the original
//! tree exactly.

use crate::lexer::{classify, classify_all, LexModel, LexemeType};
use crate::ast::ExprModel;
use crate::numbers::{int_body, int_str_val, int_text, is_int_string, lemma_int_text_props};
use crate::parser::{
    lemma_parse_expr_fuel_some_mono, parse_expr_fuel, parse_expr_spec,
};
use crate::render::expr_text;
use crate::tokenizer::{
    is_word_char, lemma_tokens_of_space, lemma_tokens_of_special, lemma_tokens_of_word, tokens_of,
};
use vstd::prelude::*;

verus! {

/// A variable name that survives a round trip: at least one character,
/// none of them whitespace or a separator, and classified as an
/// identifier (so not an operator, a parenthesis, or an integer literal).
pub open spec fn valid_var_name(s: Seq<char>) -> bool {
    &&& s.len() > 0
    &&& forall|i: int| 0 <= i < s.len() ==> is_word_char(#[trigger] s[i])
    &&& classify(s) is Identifier
}

/// A well-formed expression tree: every variable name is a valid
/// identifier token and every literal fits in 32 bits.
pub open spec fn expr_model_wf(e: ExprModel) -> bool
    decreases e,
{
    match e {
        ExprModel::Int(n) => -0x8000_0000 <= n <= 0x7fff_ffff,
        ExprModel::Var(s) => valid_var_name(s),
        ExprModel::Add(a, b) => expr_model_wf(*a) && expr_model_wf(*b),
    }
}

/// The token strings of an expression's rendering.
pub open spec fn expr_tokens(e: ExprModel) -> Seq<Seq<char>>
    decreases e,
{
    match e {
        ExprModel::Int(n) => seq![int_text(n)],
        ExprModel::Var(s) => seq![s],
        ExprModel::Add(a, b) => seq![seq!['('], seq!['+']] + expr_tokens(*a) + expr_tokens(*b)
            + seq![seq![')']],
    }
}

/// Tokenizing the rendering of a well-formed expression, followed by any
/// text that does not extend its last word, yields exactly the
/// expression's tokens followed by the tokens of the rest.
pub proof fn lemma_tokens_of_expr_text(e: ExprModel, rest: Seq<char>)
    requires
        expr_model_wf(e),
        rest.len() == 0 || !is_word_char(rest[0]),
    ensures
        tokens_of(expr_text(e) + rest) == expr_tokens(e) + tokens_of(rest),
    decreases e,
{
    match e {
        ExprModel::Int(n) => {
            lemma_int_text_props(n);
            lemma_tokens_of_word(int_text(n), rest);
        },
        ExprModel::Var(s) => {
            lemma_tokens_of_word(s, rest);
        },
        ExprModel::Add(a, b) => {
            let ta = expr_text(*a);
            let tb = expr_text(*b);
            let x5 = seq![')'] + rest;
            let x4 = tb + x5;
            let x3 = seq![' '] + x4;
            let x2 = ta + x3;
            let x1 = seq![' '] + x2;
            let x0 = seq!['+'] + x1;
            assert(expr_text(e) + rest =~= seq!['('] + x0);
            lemma_tokens_of_special('(', x0);
            lemma_tokens_of_word(seq!['+'], x1);
            lemma_tokens_of_space(' ', x2);
            lemma_tokens_of_expr_text(*a, x3);
            lemma_tokens_of_space(' ', x4);
            lemma_tokens_of_expr_text(*b, x5);
            lemma_tokens_of_special(')', rest);
            assert(tokens_of(expr_text(e) + rest) =~= expr_tokens(e) + tokens_of(rest));
        },
    }
}

/// The parser fuel needed for an expression: one level for each leaf,
/// two for each addition (one for its parentheses, one for its operator).
pub open spec fn parse_depth(e: ExprModel) -> nat
    decreases e,
{
    match e {
        ExprModel::Int(_) => 1,
        ExprModel::Var(_) => 1,
        ExprModel::Add(a, b) => 2 + if parse_depth(*a) >= parse_depth(*b) {
            parse_depth(*a)
        } else {
            parse_depth(*b)
        },
    }
}

pub proof fn lemma_parse_depth_le(e: ExprModel)
    ensures
        parse_depth(e) <= expr_tokens(e).len() + 1,
    decreases e,
{
    match e {
        ExprModel::Add(a, b) => {
            lemma_parse_depth_le(*a);
            lemma_parse_depth_le(*b);
        },
        _ => {},
    }
}

/// With enough fuel, the classified tokens of a well-formed expression,
/// followed by anything, parse back to exactly that expression with the
/// trailing lexemes untouched.
pub proof fn lemma_parse_expr_tokens(e: ExprModel, lrest: Seq<LexModel>, fuel: nat)
    requires
        expr_model_wf(e),
        fuel >= parse_depth(e),
    ensures
        parse_expr_fuel(classify_all(expr_tokens(e)) + lrest, fuel) == Some((e, lrest)),
    decreases e,
{
    let toks = classify_all(expr_tokens(e)) + lrest;
    match e {
        ExprModel::Int(n) => {
            lemma_int_text_props(n);
            let t = int_text(n);
            if t == seq!['+'] {
                assert(int_body(seq!['+']) =~= Seq::<char>::empty());
                assert(!is_int_string(t));
            }
            if t == seq!['('] {
                assert(t[0] == '(' && is_word_char(t[0]));
            }
            if t == seq![')'] {
                assert(t[0] == ')' && is_word_char(t[0]));
            }
            assert(classify(t) is Int);
            assert(toks[0] == LexModel { text: t, kind: classify(t) });
            assert(toks.drop_first() =~= lrest);
        },
        ExprModel::Var(s) => {
            assert(toks[0] == LexModel { text: s, kind: classify(s) });
            assert(toks.drop_first() =~= lrest);
        },
        ExprModel::Add(a, b) => {
            let la = classify_all(expr_tokens(*a));
            let lb = classify_all(expr_tokens(*b));
            let lp = LexModel { text: seq!['('], kind: classify(seq!['(']) };
            let lplus = LexModel { text: seq!['+'], kind: classify(seq!['+']) };
            let lrp = LexModel { text: seq![')'], kind: classify(seq![')']) };
            if seq!['('] == seq!['+'] {
                assert(seq!['('][0] == seq!['+'][0]);
            }
            if seq![')'] == seq!['+'] {
                assert(seq![')'][0] == seq!['+'][0]);
            }
            if seq![')'] == seq!['('] {
                assert(seq![')'][0] == seq!['('][0]);
            }
            assert(classify(seq!['(']) is ParenStart);
            assert(classify(seq!['+']) is Op);
            assert(classify(seq![')']) is ParenEnd);
            assert(toks =~= seq![lp, lplus] + la + lb + seq![lrp] + lrest);
            assert(toks[0] == lp);
            let g1 = (fuel - 1) as nat;
            let g2 = (fuel - 2) as nat;
            let after_a: Seq<LexModel> = lb + seq![lrp] + lrest;
            let after_b: Seq<LexModel> = seq![lrp] + lrest;
            lemma_parse_expr_tokens(*a, after_a, g2);
            lemma_parse_expr_tokens(*b, after_b, g2);
            let inner = toks.drop_first();
            assert(inner[0] == lplus);
            assert(inner.drop_first() =~= la + after_a);
            assert(la + after_a =~= la + (lb + after_b));
            assert(parse_expr_fuel(la + after_a, g2) == Some((*a, after_a)));
            assert(after_a =~= lb + after_b);
            assert(parse_expr_fuel(lb + after_b, g2) == Some((*b, after_b)));
            assert(parse_expr_fuel(inner, g1) == Some(
                (ExprModel::Add(a, b), after_b),
            ));
            assert(after_b[0] == lrp);
            assert(after_b.drop_first() =~= lrest);
            assert(parse_expr_fuel(toks, fuel) == Some((e, lrest)));
        },
    }
}

/// Round trip: rendering a well-formed expression tree to prefix text,
/// then tokenizing, classifying and parsing that text, consumes the whole
/// text and yields a tree equal to the original.
pub proof fn lemma_render_parse_round_trip(e: ExprModel)
    requires
        expr_model_wf(e),
    ensures
        parse_expr_spec(classify_all(tokens_of(expr_text(e)))) == Some(
            (e, Seq::<LexModel>::empty()),
        ),
{
    assert(expr_text(e) + Seq::<char>::empty() =~= expr_text(e));
    lemma_tokens_of_expr_text(e, Seq::<char>::empty());
    assert(tokens_of(expr_text(e)) =~= expr_tokens(e));
    let toks = classify_all(expr_tokens(e));
    assert(toks + Seq::<LexModel>::empty() =~= toks);
    lemma_parse_depth_le(e);
    lemma_parse_expr_tokens(e, Seq::<LexModel>::empty(), parse_depth(e));
    lemma_parse_expr_fuel_some_mono(toks, parse_depth(e), (toks.len() + 1) as nat);
    assert(classify_all(tokens_of(expr_text(e))) == toks);
}

} // verus!
