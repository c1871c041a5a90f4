use chia_compiler::chia::lang::find_reserved_token;
use chia_compiler::common::reserved::{OperatorInfo, ReservedToken};
use chia_compiler::common::token::{NumberInfo, Token};

#[test]
fn test_number_info_to_string() {
    let whole_number = "120";
    assert_eq!(
        NumberInfo {
            whole_number,
            fractional_part: None
        }
        .to_string(),
        format!("(Number, whole number: {})", whole_number)
    );

    let whole_number = "7923";
    let fractional_part = "12443";
    assert_eq!(
        NumberInfo {
            whole_number,
            fractional_part: Some(fractional_part)
        }
        .to_string(),
        format!(
            "(Number, whole number: {}, fractional part: {})",
            whole_number, fractional_part
        )
    );
}

#[test]
fn token_display_of_identifiers_and_literals() {
    assert_eq!(
        Token::Identifier("my_id1").to_string(),
        "(Identifier, Name: my_id1)"
    );
    assert_eq!(
        Token::Char("'a'").to_string(),
        "(Char Literal, Value: 'a')"
    );
    assert_eq!(
        Token::Str("\"This is a test.\"").to_string(),
        "(String Literal, Value: \"This is a test.\")"
    );
    assert_eq!(
        Token::Number(NumberInfo {
            whole_number: "3",
            fractional_part: Some("1415"),
        })
        .to_string(),
        "(Number, whole number: 3, fractional part: 1415)"
    );
    assert_eq!(
        Token::Number(NumberInfo {
            whole_number: "42",
            fractional_part: None,
        })
        .to_string(),
        "(Number, whole number: 42)"
    );
}

#[test]
fn token_display_of_reserved_tokens() {
    let reserved_token = ReservedToken::Char('a');
    assert_eq!(
        Token::Reserved(&reserved_token).to_string(),
        "(Reserved Char, Value: 'a')"
    );
    let reserved_token = ReservedToken::Char('\n');
    assert_eq!(
        Token::Reserved(&reserved_token).to_string(),
        "(Reserved Char, Value: '\\n')"
    );
    let reserved_token = ReservedToken::Keyword("return");
    assert_eq!(
        Token::Reserved(&reserved_token).to_string(),
        "(Keyword, Name: return)"
    );
    let reserved_token = ReservedToken::Operator(
        "++",
        OperatorInfo {
            is_prefix: true,
            is_postfix: true,
            is_binary: false,
            is_ternary: false,
            precedence: None,
        },
    );
    assert_eq!(
        Token::Reserved(&reserved_token).to_string(),
        "(Operator, Value: '++')"
    );
    let semicolon = find_reserved_token(";").unwrap();
    assert_eq!(
        Token::Reserved(semicolon).to_string(),
        "(Reserved Char, Value: ';')"
    );
}

#[test]
fn token_well_formedness() {
    let ranked = ReservedToken::Operator(
        "+",
        OperatorInfo {
            is_prefix: true,
            is_postfix: false,
            is_binary: true,
            is_ternary: false,
            precedence: Some(15),
        },
    );
    assert!(Token::Reserved(&ranked).is_well_formed());
    let unranked = ReservedToken::Operator(
        "+",
        OperatorInfo {
            is_prefix: false,
            is_postfix: false,
            is_binary: true,
            is_ternary: false,
            precedence: None,
        },
    );
    assert!(!Token::Reserved(&unranked).is_well_formed());
    let ternary = ReservedToken::Operator(
        "?",
        OperatorInfo {
            is_prefix: false,
            is_postfix: false,
            is_binary: false,
            is_ternary: true,
            precedence: None,
        },
    );
    assert!(!Token::Reserved(&ternary).is_well_formed());
    let prefix = ReservedToken::Operator(
        "!",
        OperatorInfo {
            is_prefix: true,
            is_postfix: false,
            is_binary: false,
            is_ternary: false,
            precedence: None,
        },
    );
    assert!(Token::Reserved(&prefix).is_well_formed());
    assert!(Token::Identifier("x").is_well_formed());
    let keyword = ReservedToken::Keyword("mut");
    assert!(Token::Reserved(&keyword).is_well_formed());
}
