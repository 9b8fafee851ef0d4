//! Decimal integer literals: recognising them, reading their value, and
//! rendering a value back to text.
//!
//! A token is an integer literal when it consists of an optional leading
//! `-` or `+` sign followed by one or more ASCII digits, and the signed
//! value fits in 32 bits.  This matches what a signed 32-bit decimal
//! parse accepts.

use vstd::prelude::*;

verus! {

pub open spec fn is_digit_char(c: char) -> bool {
    48 <= c as int <= 57
}

pub open spec fn digit_val(c: char) -> int {
    c as int - 48
}

pub open spec fn all_digit_chars(s: Seq<char>) -> bool {
    forall|i: int| 0 <= i < s.len() ==> is_digit_char(s[i])
}

/// Value of a digit string, most significant digit first.
pub open spec fn digits_val(s: Seq<char>) -> int
    decreases s.len(),
{
    if s.len() == 0 {
        0
    } else {
        10 * digits_val(s.drop_last()) + digit_val(s.last())
    }
}

/// The digits of an integer literal, with any sign character removed.
pub open spec fn int_body(s: Seq<char>) -> Seq<char> {
    if s.len() > 0 && (s[0] == '-' || s[0] == '+') {
        s.drop_first()
    } else {
        s
    }
}

pub open spec fn int_sign(s: Seq<char>) -> int {
    if s.len() > 0 && s[0] == '-' {
        -1
    } else {
        1
    }
}

/// The signed value denoted by an integer literal.
pub open spec fn int_str_val(s: Seq<char>) -> int {
    int_sign(s) * digits_val(int_body(s))
}

pub const I32_MIN_VAL: i64 = -0x8000_0000;

pub const I32_MAX_VAL: i64 = 0x7fff_ffff;

/// Whether `s` is an integer literal: an optional sign, at least one
/// digit, nothing else, and a value that fits in an `i32`.
pub open spec fn is_int_string(s: Seq<char>) -> bool {
    &&& int_body(s).len() > 0
    &&& all_digit_chars(int_body(s))
    &&& I32_MIN_VAL <= int_str_val(s) <= I32_MAX_VAL
}

pub proof fn lemma_digits_val_nonneg(s: Seq<char>)
    requires
        all_digit_chars(s),
    ensures
        digits_val(s) >= 0,
    decreases s.len(),
{
    if s.len() > 0 {
        assert(forall|i: int| 0 <= i < s.drop_last().len() ==> s.drop_last()[i] == s[i]);
        lemma_digits_val_nonneg(s.drop_last());
    }
}

/// Extending a digit string can only increase its value.
pub proof fn lemma_digits_val_prefix(s: Seq<char>, m: int)
    requires
        all_digit_chars(s),
        0 <= m <= s.len(),
    ensures
        digits_val(s) >= digits_val(s.take(m)),
    decreases s.len(),
{
    lemma_digits_val_nonneg(s);
    if m < s.len() {
        let t = s.drop_last();
        assert(forall|i: int| 0 <= i < t.len() ==> t[i] == s[i]);
        lemma_digits_val_prefix(t, m);
        assert(s.take(m) =~= t.take(m));
        lemma_digits_val_nonneg(t);
    } else {
        assert(s.take(m) =~= s);
    }
}

fn char_digit(c: char) -> (r: Option<u32>)
    ensures
        r is Some <==> is_digit_char(c),
        r is Some ==> r.unwrap() == digit_val(c) && r.unwrap() <= 9,
{
    let u = c as u32;
    if 48 <= u && u <= 57 {
        Some(u - 48)
    } else {
        None
    }
}

/// Parse a signed 32-bit decimal integer: an optional `-` or `+` sign
/// followed by one or more digits, rejecting anything else and any value
/// outside the 32-bit range.
pub fn parse_i32(s: &str) -> (r: Option<i32>)
    ensures
        r is Some <==> is_int_string(s@),
        r is Some ==> r.unwrap() as int == int_str_val(s@),
{
    let n = s.unicode_len();
    let mut pos: usize = 0;
    let mut neg: bool = false;
    if n > 0 {
        let c0 = s.get_char(0);
        if c0 == '-' {
            neg = true;
            pos = 1;
        } else if c0 == '+' {
            pos = 1;
        }
    }
    let ghost body = int_body(s@);
    proof {
        assert(body =~= s@.skip(pos as int));
    }
    if pos == n {
        // Empty input, or a sign with no digits.
        return None;
    }
    let mut acc: u64 = 0;
    let mut i: usize = pos;
    while i < n
        invariant
            pos <= i <= n,
            n == s@.len(),
            pos <= 1,
            body == s@.skip(pos as int),
            body == int_body(s@),
            forall|j: int| 0 <= j < i - pos ==> is_digit_char(body[j]),
            acc == digits_val(body.take(i - pos)),
            acc <= 0x8000_0000,
            neg ==> int_sign(s@) == -1,
            !neg ==> int_sign(s@) == 1,
        decreases n - i,
    {
        let c = s.get_char(i);
        match char_digit(c) {
            None => {
                // A non-digit character: not an integer literal.
                proof {
                    assert(body[i - pos] == c);
                    assert(!all_digit_chars(body));
                    assert(!is_int_string(s@));
                }
                return None;
            },
            Some(d) => {
                proof {
                    let t = body.take(i + 1 - pos);
                    assert(t.drop_last() =~= body.take(i - pos));
                    assert(t.last() == c);
                }
                acc = acc * 10 + d as u64;
                if acc > 0x8000_0000 {
                    // Already past the 32-bit range; more digits can only
                    // make the value larger in magnitude.
                    proof {
                        if all_digit_chars(body) {
                            lemma_digits_val_prefix(body, i + 1 - pos);
                            assert(digits_val(body) >= acc);
                            if int_sign(s@) == -1 {
                                assert(int_str_val(s@) == -1 * digits_val(body));
                            } else {
                                assert(int_str_val(s@) == 1 * digits_val(body));
                            }
                        }
                        assert(!is_int_string(s@));
                    }
                    return None;
                }
            },
        }
        i = i + 1;
    }
    proof {
        assert(body.take(n - pos) =~= body);
    }
    if neg {
        Some((-(acc as i64)) as i32)
    } else {
        if acc > 0x7fff_ffff {
            return None;
        }
        Some(acc as i32)
    }
}

pub open spec fn digit_char(d: int) -> char {
    if d == 0 {
        '0'
    } else if d == 1 {
        '1'
    } else if d == 2 {
        '2'
    } else if d == 3 {
        '3'
    } else if d == 4 {
        '4'
    } else if d == 5 {
        '5'
    } else if d == 6 {
        '6'
    } else if d == 7 {
        '7'
    } else if d == 8 {
        '8'
    } else {
        '9'
    }
}

/// Decimal digits of `n`, most significant first; zero renders as no
/// digits at all, so callers special-case it.
pub open spec fn decimal_digits(n: int) -> Seq<char>
    decreases n,
{
    if n <= 0 {
        Seq::empty()
    } else {
        proof {
            assert(n / 10 < n) by (nonlinear_arith)
                requires
                    n >= 1,
            ;
        }
        decimal_digits(n / 10).push(digit_char(n % 10))
    }
}

/// Decimal text of a signed integer, with a leading `-` when negative.
pub open spec fn int_text(n: int) -> Seq<char> {
    if n == 0 {
        seq!['0']
    } else if n < 0 {
        seq!['-'] + decimal_digits(-n)
    } else {
        decimal_digits(n)
    }
}

pub proof fn lemma_decimal_digits_props(n: int)
    requires
        n >= 0,
    ensures
        all_digit_chars(decimal_digits(n)),
        digits_val(decimal_digits(n)) == n,
        n >= 1 ==> decimal_digits(n).len() >= 1,
    decreases n,
{
    if n >= 1 {
        assert(0 <= n / 10 < n && 0 <= n % 10 <= 9 && n == 10 * (n / 10) + n % 10)
            by (nonlinear_arith)
            requires
                n >= 1,
        ;
        lemma_decimal_digits_props(n / 10);
        let s = decimal_digits(n);
        let t = decimal_digits(n / 10);
        assert(s.drop_last() =~= t);
        assert(digit_val(digit_char(n % 10)) == n % 10);
        assert(forall|i: int| 0 <= i < s.len() ==> #[trigger] is_digit_char(s[i])) by {
            assert(forall|i: int| 0 <= i < t.len() ==> #[trigger] is_digit_char(t[i]));
            assert(s.last() == digit_char(n % 10));
        }
    }
}

/// Rendering a 32-bit value gives back an integer literal that denotes
/// exactly that value, made only of word characters.
pub proof fn lemma_int_text_props(n: int)
    requires
        I32_MIN_VAL <= n <= I32_MAX_VAL,
    ensures
        is_int_string(int_text(n)),
        int_str_val(int_text(n)) == n,
        int_text(n).len() >= 1,
        forall|i: int| 0 <= i < int_text(n).len()
            ==> crate::tokenizer::is_word_char(#[trigger] int_text(n)[i]),
{
    let s = int_text(n);
    if n == 0 {
        assert(int_body(s) =~= s);
        assert(digits_val(s) == 10 * digits_val(s.drop_last()) + digit_val(s.last()));
        assert(s.drop_last() =~= Seq::<char>::empty());
    } else if n < 0 {
        lemma_decimal_digits_props(-n);
        assert(int_body(s) =~= decimal_digits(-n));
        assert(int_sign(s) == -1);
    } else {
        lemma_decimal_digits_props(n);
        assert(s[0] != '-' && s[0] != '+');
        assert(int_body(s) =~= s);
        assert(int_sign(s) == 1);
    }
    assert forall|i: int| 0 <= i < s.len() implies crate::tokenizer::is_word_char(
        #[trigger] s[i],
    ) by {
        assert(s[i] == '-' || is_digit_char(s[i]));
    }
}

fn digit_str(d: u32) -> (r: &'static str)
    requires
        d <= 9,
    ensures
        r@ == seq![digit_char(d as int)],
{
    let r: &'static str = if d == 0 {
        "0"
    } else if d == 1 {
        "1"
    } else if d == 2 {
        "2"
    } else if d == 3 {
        "3"
    } else if d == 4 {
        "4"
    } else if d == 5 {
        "5"
    } else if d == 6 {
        "6"
    } else if d == 7 {
        "7"
    } else if d == 8 {
        "8"
    } else {
        "9"
    };
    proof {
        reveal_strlit("0");
        reveal_strlit("1");
        reveal_strlit("2");
        reveal_strlit("3");
        reveal_strlit("4");
        reveal_strlit("5");
        reveal_strlit("6");
        reveal_strlit("7");
        reveal_strlit("8");
        reveal_strlit("9");
        assert(r@ =~= seq![digit_char(d as int)]);
    }
    r
}

fn decimal_string(n: u32) -> (r: String)
    ensures
        r@ == decimal_digits(n as int),
    decreases n,
{
    if n == 0 {
        String::new()
    } else {
        let mut s = decimal_string(n / 10);
        s.append(digit_str(n % 10));
        proof {
            assert(s@ =~= decimal_digits(n as int));
        }
        s
    }
}

/// Render a signed 32-bit integer as decimal text.
pub fn int_string(i: i32) -> (r: String)
    ensures
        r@ == int_text(i as int),
{
    if i == 0 {
        let r = String::from_str("0");
        proof {
            reveal_strlit("0");
            assert(r@ =~= seq!['0']);
        }
        r
    } else if i < 0 {
        let m: u32 = (-(i as i64)) as u32;
        let mut s = String::from_str("-");
        proof {
            reveal_strlit("-");
            assert(s@ =~= seq!['-']);
        }
        s.append(decimal_string(m).as_str());
        s
    } else {
        decimal_string(i as u32)
    }
}

} // verus!
