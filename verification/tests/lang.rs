use chia_compiler::chia::lang::{
    find_reserved_token, ADDITION_PRECEDENCE, ASSIGNMENT_PRECEDENCE, BITWISE_AND_PRECEDENCE,
    BITWISE_OR_PRECEDENCE, BITWISE_XOR_PRECEDENCE, BIT_SHIFT_PRECEDENCE, LOGICAL_AND_PRECEDENCE,
    LOGICAL_OR_PRECEDENCE, MULTIPLICATION_PRECEDENCE, RELATIONAL_EQUAL_PRECEDENCE,
    RELATIONAL_UNEQUAL_PRECEDENCE, TERNARY_PRECEDENCE,
};
use chia_compiler::common::reserved::{OperatorInfo, ReservedToken};
use chia_compiler::common::text::text_eq;

const CHARS: [char; 11] = [';', ':', ',', '\n', '\r', '{', '}', '\'', '"', '(', ')'];

const KEYWORDS: [&str; 21] = [
    "mut", "volatile", "static", "extern", "return", "break", "continue", "if", "else", "do",
    "while", "for", "switch", "case", "default", "typedef", "enum", "struct", "register", "goto",
    "sizeof",
];

const OPERATORS: [&str; 38] = [
    "!", "~", ".", "::", "[", "]", "++", "--", "=", "==", "+", "-", "*", "/", "%", "&", "|", "^",
    ">", "<", ">=", ">>=", "<=", "<<=", "!=", "+=", "-=", "*=", "/=", "%=", "||", "|=", "&&",
    "&=", "^=", "<<", ">>", "?",
];

fn operator(symbol: &str) -> OperatorInfo {
    match find_reserved_token(symbol) {
        Some(ReservedToken::Operator(found, info)) => {
            assert_eq!(*found, symbol);
            *info
        }
        other => panic!("{:?} is no operator: {:?}", symbol, other),
    }
}

#[test]
fn every_reserved_character_is_found_as_itself() {
    for c in CHARS {
        let text = c.to_string();
        assert_eq!(find_reserved_token(&text), Some(&ReservedToken::Char(c)));
    }
}

#[test]
fn every_keyword_is_found_as_itself() {
    for keyword in KEYWORDS {
        assert_eq!(
            find_reserved_token(keyword),
            Some(&ReservedToken::Keyword(keyword))
        );
    }
}

#[test]
fn every_operator_is_found_as_itself() {
    for symbol in OPERATORS {
        let info = operator(symbol);
        assert!(info.is_prefix || info.is_postfix || info.is_binary || info.is_ternary);
        assert_eq!(info.precedence.is_some(), info.is_binary || info.is_ternary);
    }
}

#[test]
fn what_is_not_reserved_is_not_found() {
    for text in [
        "", "x", "int", "mu", "mutt", "Mut", " ", "\t", ";;", "+++", ">>>", "<<<", "=>", "->",
        "===", "#", "@", "0", "stat", "returns", "(;", "a+b",
    ] {
        assert_eq!(find_reserved_token(text), None, "{:?}", text);
    }
}

#[test]
fn the_proper_prefixes_of_operators_are_reserved() {
    for symbol in OPERATORS {
        for (end, _) in symbol.char_indices().skip(1) {
            assert!(
                find_reserved_token(&symbol[..end]).is_some(),
                "{:?}",
                &symbol[..end]
            );
        }
    }
}

#[test]
fn the_ranks_of_the_operators() {
    assert_eq!(MULTIPLICATION_PRECEDENCE, 10);
    assert_eq!(ADDITION_PRECEDENCE, 15);
    assert_eq!(BIT_SHIFT_PRECEDENCE, 20);
    assert_eq!(RELATIONAL_UNEQUAL_PRECEDENCE, 25);
    assert_eq!(RELATIONAL_EQUAL_PRECEDENCE, 30);
    assert_eq!(BITWISE_AND_PRECEDENCE, 35);
    assert_eq!(BITWISE_XOR_PRECEDENCE, 40);
    assert_eq!(BITWISE_OR_PRECEDENCE, 45);
    assert_eq!(LOGICAL_AND_PRECEDENCE, 50);
    assert_eq!(LOGICAL_OR_PRECEDENCE, 55);
    assert_eq!(TERNARY_PRECEDENCE, 60);
    assert_eq!(ASSIGNMENT_PRECEDENCE, 65);
    for symbol in ["*", "/", "%"] {
        assert_eq!(operator(symbol).precedence, Some(10));
    }
    for symbol in ["+", "-"] {
        assert_eq!(operator(symbol).precedence, Some(15));
    }
    for symbol in ["<<", ">>"] {
        assert_eq!(operator(symbol).precedence, Some(20));
    }
    for symbol in [">", "<", ">=", "<="] {
        assert_eq!(operator(symbol).precedence, Some(25));
    }
    for symbol in ["==", "!="] {
        assert_eq!(operator(symbol).precedence, Some(30));
    }
    assert_eq!(operator("&").precedence, Some(35));
    assert_eq!(operator("^").precedence, Some(40));
    assert_eq!(operator("|").precedence, Some(45));
    assert_eq!(operator("&&").precedence, Some(50));
    assert_eq!(operator("||").precedence, Some(55));
    assert_eq!(operator("?").precedence, Some(60));
    for symbol in [
        "=", "+=", "-=", "*=", "/=", "%=", "|=", "&=", "^=", "<<=", ">>=",
    ] {
        assert_eq!(operator(symbol).precedence, Some(65));
    }
}

#[test]
fn the_uses_of_the_operators() {
    let not = operator("!");
    assert!(not.is_prefix && !not.is_postfix && !not.is_binary && !not.is_ternary);
    let dot = operator(".");
    assert!(!dot.is_prefix && dot.is_postfix && !dot.is_binary && !dot.is_ternary);
    let increment = operator("++");
    assert!(increment.is_prefix && increment.is_postfix && !increment.is_binary);
    let plus = operator("+");
    assert!(plus.is_prefix && !plus.is_postfix && plus.is_binary && !plus.is_ternary);
    let star = operator("*");
    assert!(!star.is_prefix && !star.is_postfix && star.is_binary && !star.is_ternary);
    let question = operator("?");
    assert!(!question.is_prefix && !question.is_postfix && !question.is_binary);
    assert!(question.is_ternary);
}

#[test]
fn texts_are_compared_by_their_characters() {
    assert!(text_eq("", ""));
    assert!(text_eq("mut", "mut"));
    assert!(!text_eq("mut", "mu"));
    assert!(!text_eq("mut", "mud"));
    assert!(!text_eq("", "a"));
    assert!(text_eq("h\u{e9}llo", "h\u{e9}llo"));
    assert!(!text_eq("h\u{e9}llo", "hello"));
}
