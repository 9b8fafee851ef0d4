use prefix_calc::lexer::{is_int, lex, lex_type_str, Lexeme};
use prefix_calc::numbers::{int_string, parse_i32};
use prefix_calc::tokenizer::{tokenize, tokenize_split};

fn kinds_of(tokens: Vec<&str>) -> Vec<String> {
    let owned: Vec<String> = tokens.iter().map(|t| t.to_string()).collect();
    lex(owned).iter().map(|l| lex_type_str(&l.lex_type)).collect()
}

#[test]
fn tokenize_nested_prefix_program() {
    let expected = vec![
        "print", "(", "+", "10", "(", "+", "30", "(", "+", "(", "+", "7", "7", ")", "7", ")",
        ")", ")",
    ];
    let got = tokenize_split("print (+ 10 (+ 30 (+ (+ 7 7) 7)))");
    assert_eq!(got, expected);
    let got2 = tokenize("print (+ 10 (+ 30 (+ (+ 7 7) 7)))");
    assert_eq!(got2, expected);
}

#[test]
fn tokenize_empty_and_whitespace() {
    assert_eq!(tokenize(""), Vec::<String>::new());
    assert_eq!(tokenize(" \t\n\r "), Vec::<String>::new());
}

#[test]
fn tokenize_specials_without_spaces() {
    assert_eq!(tokenize("(a)"), vec!["(", "a", ")"]);
    assert_eq!(tokenize("a;b"), vec!["a", ";", "b"]);
    assert_eq!(tokenize_split("x(y"), vec!["x", "(", "y"]);
}

#[test]
fn tokenize_trailing_token_is_emitted() {
    assert_eq!(tokenize("print 42"), vec!["print", "42"]);
    assert_eq!(tokenize("ab"), vec!["ab"]);
}

#[test]
fn tokenize_collapses_repeated_spaces() {
    assert_eq!(tokenize("a  b"), vec!["a", "b"]);
    assert_eq!(tokenize("  a "), vec!["a"]);
}

#[test]
fn classify_core_categories() {
    assert_eq!(
        kinds_of(vec!["-10", "foo", "+", "(", ")"]),
        vec!["Int", "Identifier", "Op", "ParenStart", "ParenEnd"]
    );
}

#[test]
fn classify_edge_tokens() {
    // A leading plus sign is accepted by a signed 32-bit parse.
    assert_eq!(kinds_of(vec!["+10"]), vec!["Int"]);
    // Out of the 32-bit range: falls back to an identifier.
    assert_eq!(kinds_of(vec!["2147483648"]), vec!["Identifier"]);
    assert_eq!(kinds_of(vec!["-2147483648"]), vec!["Int"]);
    assert_eq!(kinds_of(vec!["-2147483649"]), vec!["Identifier"]);
    assert_eq!(kinds_of(vec!["10x"]), vec!["Identifier"]);
    assert_eq!(kinds_of(vec![";"]), vec!["Identifier"]);
    assert_eq!(kinds_of(vec![""]), vec!["Identifier"]);
}

#[test]
fn lexemes_keep_their_text() {
    let lexs: Vec<Lexeme> = lex(vec!["print".to_string(), "-10".to_string()]);
    assert_eq!(lexs.len(), 2);
    assert_eq!(lexs[0].s, "print");
    assert_eq!(lexs[1].s, "-10");
}

#[test]
fn is_int_accepts_signed_decimals() {
    assert!(is_int(&"123".to_string()));
    assert!(is_int(&"-5".to_string()));
    assert!(is_int(&"+7".to_string()));
    assert!(is_int(&"0012".to_string()));
    assert!(is_int(&"2147483647".to_string()));
    assert!(is_int(&"-2147483648".to_string()));
}

#[test]
fn is_int_rejects_everything_else() {
    assert!(!is_int(&"".to_string()));
    assert!(!is_int(&"-".to_string()));
    assert!(!is_int(&"+".to_string()));
    assert!(!is_int(&"1 2".to_string()));
    assert!(!is_int(&"12.5".to_string()));
    assert!(!is_int(&"2147483648".to_string()));
    assert!(!is_int(&"-2147483649".to_string()));
}

#[test]
fn parse_i32_exact_values() {
    assert_eq!(parse_i32("0"), Some(0));
    assert_eq!(parse_i32("-00123"), Some(-123));
    assert_eq!(parse_i32("+41"), Some(41));
    assert_eq!(parse_i32("2147483647"), Some(2147483647));
    assert_eq!(parse_i32("-2147483648"), Some(-2147483648));
    assert_eq!(parse_i32("99999999999999999999"), None);
}

#[test]
fn int_string_renders_decimals() {
    assert_eq!(int_string(0), "0");
    assert_eq!(int_string(61), "61");
    assert_eq!(int_string(-10), "-10");
    assert_eq!(int_string(2147483647), "2147483647");
    assert_eq!(int_string(-2147483648), "-2147483648");
}

#[test]
fn lex_type_str_names_every_category() {
    assert_eq!(
        kinds_of(vec!["1", "+", "x", "(", ")"]),
        vec!["Int", "Op", "Identifier", "ParenStart", "ParenEnd"]
    );
}
