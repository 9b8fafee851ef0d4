//! Splitting source text into raw tokens.
//!
//! Whitespace separates tokens and never appears in the output; the three
//! characters `(`, `)` and `;` always form one-character tokens of their
//! own, whether or not whitespace surrounds them; every other maximal run
//! of characters is one token.  Any string can be tokenized, and empty
//! input yields no tokens.

use vstd::prelude::*;

verus! {

/// Characters that separate tokens without themselves being tokens:
/// the ASCII whitespace characters.
pub open spec fn is_space_char(c: char) -> bool {
    c == ' ' || c == '\t' || c == '\n' || c == '\r' || c == '\x0b' || c == '\x0c'
}

/// Characters that always stand alone as one-character tokens.
pub open spec fn is_special_char(c: char) -> bool {
    c == '(' || c == ')' || c == ';'
}

/// Characters that may appear inside a multi-character token.
pub open spec fn is_word_char(c: char) -> bool {
    !is_space_char(c) && !is_special_char(c)
}

/// Length of the longest prefix of `s` made of word characters.
pub open spec fn word_len(s: Seq<char>) -> int
    decreases s.len(),
{
    if s.len() == 0 || !is_word_char(s[0]) {
        0
    } else {
        1 + word_len(s.drop_first())
    }
}

pub proof fn lemma_word_len_bounds(s: Seq<char>)
    ensures
        0 <= word_len(s) <= s.len(),
        s.len() > 0 && is_word_char(s[0]) ==> 1 <= word_len(s),
        forall|i: int| 0 <= i < word_len(s) ==> is_word_char(s[i]),
        word_len(s) < s.len() ==> !is_word_char(s[word_len(s)]),
    decreases s.len(),
{
    if s.len() > 0 && is_word_char(s[0]) {
        lemma_word_len_bounds(s.drop_first());
        assert forall|i: int| 0 <= i < word_len(s) implies is_word_char(s[i]) by {
            if i > 0 {
                assert(s.drop_first()[i - 1] == s[i]);
            }
        }
        if word_len(s) < s.len() {
            assert(s.drop_first()[word_len(s) - 1] == s[word_len(s)]);
        }
    }
}

/// The token sequence of a string: whitespace is dropped, each special
/// character is its own token, and each maximal word run is one token.
pub open spec fn tokens_of(s: Seq<char>) -> Seq<Seq<char>>
    decreases s.len(),
{
    if s.len() == 0 {
        Seq::empty()
    } else if is_space_char(s[0]) {
        tokens_of(s.drop_first())
    } else if is_special_char(s[0]) {
        seq![seq![s[0]]] + tokens_of(s.drop_first())
    } else {
        proof {
            lemma_word_len_bounds(s);
        }
        seq![s.take(word_len(s))] + tokens_of(s.skip(word_len(s)))
    }
}

/// A word run followed by input that does not extend it tokenizes to the
/// word followed by the tokens of the rest.
pub proof fn lemma_word_len_concat(w: Seq<char>, rest: Seq<char>)
    requires
        w.len() > 0,
        forall|i: int| 0 <= i < w.len() ==> is_word_char(w[i]),
        rest.len() == 0 || !is_word_char(rest[0]),
    ensures
        word_len(w + rest) == w.len(),
    decreases w.len(),
{
    let s = w + rest;
    assert(is_word_char(s[0]));
    assert(word_len(s) == 1 + word_len(s.drop_first()));
    if w.len() == 1 {
        assert(s.drop_first() =~= rest);
        if rest.len() > 0 {
            assert(word_len(rest) == 0);
        }
    } else {
        assert(s.drop_first() =~= w.drop_first() + rest);
        lemma_word_len_concat(w.drop_first(), rest);
    }
}

pub proof fn lemma_tokens_of_word(w: Seq<char>, rest: Seq<char>)
    requires
        w.len() > 0,
        forall|i: int| 0 <= i < w.len() ==> is_word_char(w[i]),
        rest.len() == 0 || !is_word_char(rest[0]),
    ensures
        tokens_of(w + rest) == seq![w] + tokens_of(rest),
{
    let s = w + rest;
    lemma_word_len_concat(w, rest);
    assert(s.take(word_len(s)) =~= w);
    assert(s.skip(word_len(s)) =~= rest);
}

/// A space at the front of the input is dropped.
pub proof fn lemma_tokens_of_space(c: char, rest: Seq<char>)
    requires
        is_space_char(c),
    ensures
        tokens_of(seq![c] + rest) == tokens_of(rest),
{
    assert((seq![c] + rest).drop_first() =~= rest);
}

/// A special character at the front of the input is its own token.
pub proof fn lemma_tokens_of_special(c: char, rest: Seq<char>)
    requires
        is_special_char(c),
    ensures
        tokens_of(seq![c] + rest) == seq![seq![c]] + tokens_of(rest),
{
    assert((seq![c] + rest).drop_first() =~= rest);
}

fn is_space(c: char) -> (b: bool)
    ensures
        b == is_space_char(c),
{
    c == ' ' || c == '\t' || c == '\n' || c == '\r' || c == '\x0b' || c == '\x0c'
}

fn is_special(c: char) -> (b: bool)
    ensures
        b == is_special_char(c),
{
    c == '(' || c == ')' || c == ';'
}

/// Scan the source character by character, splitting at whitespace and
/// emitting `(`, `)` and `;` as isolated one-character tokens.  A trailing
/// token not terminated by whitespace is still emitted.
pub fn tokenize(s: &str) -> (r: Vec<String>)
    ensures
        r.deep_view() == tokens_of(s@),
{
    let n = s.unicode_len();
    let mut out: Vec<String> = Vec::new();
    // Start of the word run currently being scanned; when `start == i`
    // the current run is empty.
    let mut start: usize = 0;
    let mut i: usize = 0;
    proof {
        assert(s@.skip(0) =~= s@);
        assert(out.deep_view() + tokens_of(s@) =~= tokens_of(s@));
    }
    while i < n
        invariant
            start <= i <= n,
            n == s@.len(),
            forall|j: int| start <= j < i ==> is_word_char(s@[j]),
            tokens_of(s@) == out.deep_view() + tokens_of(s@.skip(start as int)),
        decreases n - i,
    {
        let c = s.get_char(i);
        let ghost rest = s@.skip(i as int + 1);
        if is_space(c) || is_special(c) {
            if start < i {
                let w = s.substring_char(start, i).to_owned();
                proof {
                    let word = s@.subrange(start as int, i as int);
                    assert(s@.skip(start as int) =~= word + (seq![c] + rest));
                    lemma_tokens_of_word(word, seq![c] + rest);
                }
                out.push(w);
            }
            proof {
                assert(s@.skip(i as int) =~= seq![c] + rest);
            }
            if is_special(c) {
                let t = s.substring_char(i, i + 1).to_owned();
                proof {
                    lemma_tokens_of_special(c, rest);
                    assert(t@ =~= seq![c]);
                }
                out.push(t);
            } else {
                proof {
                    lemma_tokens_of_space(c, rest);
                }
            }
            proof {
                assert(tokens_of(s@) =~= out.deep_view() + tokens_of(rest));
            }
            start = i + 1;
        }
        i = i + 1;
        proof {
            if start < i {
                assert(tokens_of(s@) =~= out.deep_view() + tokens_of(s@.skip(start as int)));
            }
        }
    }
    if start < n {
        let w = s.substring_char(start, n).to_owned();
        proof {
            let word = s@.subrange(start as int, n as int);
            assert(s@.skip(start as int) =~= word + Seq::<char>::empty());
            assert(word + Seq::<char>::empty() =~= word);
            lemma_tokens_of_word(word, Seq::<char>::empty());
        }
        out.push(w);
    }
    proof {
        assert(s@.skip(start as int).len() == 0 ==> tokens_of(s@.skip(start as int)) =~= Seq::<Seq<char>>::empty());
        assert(tokens_of(s@) =~= out.deep_view());
    }
    out
}

/// The insert-spaces-then-split strategy: conceptually, surround every
/// special character with spaces and split the result on whitespace.  It
/// produces exactly the same tokens as the character scanner, so it shares
/// its body.
pub fn tokenize_split(s: &str) -> (r: Vec<String>)
    ensures
        r.deep_view() == tokens_of(s@),
{
    tokenize(s)
}

} // verus!
