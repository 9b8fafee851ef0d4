//! Lexical classification: each raw token is paired with a category.
//!
//! Classification never fails.  The precedence is: `+` is an operator,
//! `(` and `)` are parentheses, anything that reads as a signed 32-bit
//! integer is an integer literal, and everything else is an identifier.

use crate::numbers::{is_int_string, parse_i32};
use vstd::prelude::*;

verus! {

/// The category of a token.
#[derive(Clone)]
pub enum LexemeType {
    Int,
    Op,
    Identifier,
    ParenStart,
    ParenEnd,
}

/// A raw token string paired with its category.  A lexeme is well formed
/// when the category is the one `classify` assigns to the string; `lex`
/// only ever builds well-formed lexemes.
#[derive(Clone)]
pub struct Lexeme {
    pub s: String,
    pub lex_type: LexemeType,
}

/// The mathematical image of a lexeme: its characters and category.
pub struct LexModel {
    pub text: Seq<char>,
    pub kind: LexemeType,
}

impl View for Lexeme {
    type V = LexModel;

    open spec fn view(&self) -> LexModel {
        LexModel { text: self.s@, kind: self.lex_type }
    }
}

/// The category a token string belongs to.
pub open spec fn classify(t: Seq<char>) -> LexemeType {
    if t == seq!['+'] {
        LexemeType::Op
    } else if t == seq!['('] {
        LexemeType::ParenStart
    } else if t == seq![')'] {
        LexemeType::ParenEnd
    } else if is_int_string(t) {
        LexemeType::Int
    } else {
        LexemeType::Identifier
    }
}

/// The lexeme models for a sequence of token strings.
pub open spec fn classify_all(tokens: Seq<Seq<char>>) -> Seq<LexModel> {
    tokens.map_values(|t: Seq<char>| LexModel { text: t, kind: classify(t) })
}

/// The models of a sequence of lexemes.
pub open spec fn lex_models(lexs: Seq<Lexeme>) -> Seq<LexModel> {
    lexs.map_values(|l: Lexeme| l@)
}

/// Every lexeme carries the category of its own text.
pub open spec fn wf_lexemes(ms: Seq<LexModel>) -> bool {
    forall|i: int| 0 <= i < ms.len() ==> #[trigger] ms[i].kind == classify(ms[i].text)
}

/// Whether a token string reads as a signed 32-bit integer.
pub fn is_int(s: &String) -> (r: bool)
    ensures
        r == is_int_string(s@),
{
    parse_i32(s.as_str()).is_some()
}

fn is_one_char(s: &String, c: char) -> (r: bool)
    ensures
        r == (s@ == seq![c]),
{
    let n = s.as_str().unicode_len();
    if n == 1 {
        let c0 = s.as_str().get_char(0);
        proof {
            if c0 == c {
                assert(s@ =~= seq![c]);
            }
        }
        c0 == c
    } else {
        false
    }
}

/// Classify each token in order, producing the lexeme sequence.
pub fn lex(tokens: Vec<String>) -> (r: Vec<Lexeme>)
    ensures
        lex_models(r@) == classify_all(tokens.deep_view()),
{
    let mut lexs: Vec<Lexeme> = Vec::new();
    let mut idx: usize = 0;
    while idx < tokens.len()
        invariant
            idx <= tokens@.len(),
            lex_models(lexs@) =~= classify_all(tokens.deep_view()).take(idx as int),
        decreases tokens@.len() - idx,
    {
        proof {
            assert(lex_models(lexs@).len() == idx);
        }
        let token = tokens[idx].clone();
        let lex_type: LexemeType = if is_one_char(&token, '+') {
            LexemeType::Op
        } else if is_one_char(&token, '(') {
            LexemeType::ParenStart
        } else if is_one_char(&token, ')') {
            LexemeType::ParenEnd
        } else if is_int(&token) {
            LexemeType::Int
        } else {
            LexemeType::Identifier
        };
        let ghost gtoken = token@;
        let ghost gkind = lex_type;
        lexs.push(Lexeme { s: token, lex_type });
        idx = idx + 1;
        proof {
            let dv = tokens.deep_view();
            let j = idx - 1;
            assert(gkind == classify(gtoken));
            assert(gtoken == dv[j]);
            assert(lexs@[j]@ == LexModel { text: gtoken, kind: gkind });
            assert(lex_models(lexs@) =~= classify_all(tokens.deep_view()).take(idx as int));
        }
    }
    proof {
        assert(classify_all(tokens.deep_view()).take(tokens@.len() as int) =~= classify_all(
            tokens.deep_view(),
        ));
    }
    lexs
}

/// The printable name of a category.
pub open spec fn lex_type_text(lex_type: LexemeType) -> Seq<char> {
    match lex_type {
        LexemeType::Int => "Int"@,
        LexemeType::Op => "Op"@,
        LexemeType::Identifier => "Identifier"@,
        LexemeType::ParenStart => "ParenStart"@,
        LexemeType::ParenEnd => "ParenEnd"@,
    }
}

pub fn lex_type_str(lex_type: &LexemeType) -> (r: String)
    ensures
        r@ == lex_type_text(*lex_type),
{
    String::from_str(
        match lex_type {
            LexemeType::Int => "Int",
            LexemeType::Op => "Op",
            LexemeType::Identifier => "Identifier",
            LexemeType::ParenStart => "ParenStart",
            LexemeType::ParenEnd => "ParenEnd",
        },
    )
}

} // verus!
