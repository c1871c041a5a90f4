use chia_compiler::chia::lang::find_reserved_token;
use chia_compiler::chia::lexer::{Lexer, LexerError};
use chia_compiler::common::position::{Position, PositionRange};
use chia_compiler::common::token::{NumberInfo, Token};

fn at(line: usize, column: usize, index: usize) -> Position {
    Position {
        line,
        column,
        index,
    }
}

fn on_first_line(first: usize, last: usize) -> PositionRange {
    PositionRange {
        start: at(1, first + 1, first),
        end: at(1, last + 1, last),
    }
}

fn reserved(text: &str) -> Token<'static> {
    Token::Reserved(find_reserved_token(text).unwrap())
}

fn whole(digits: &str) -> Token<'_> {
    Token::Number(NumberInfo {
        whole_number: digits,
        fractional_part: None,
    })
}

fn fractional<'a>(digits: &'a str, fraction: &'a str) -> Token<'a> {
    Token::Number(NumberInfo {
        whole_number: digits,
        fractional_part: Some(fraction),
    })
}

fn error(description: &str, range: PositionRange) -> LexerError {
    LexerError {
        description: String::from(description),
        position_range: range,
    }
}

fn all_tokens(source: &str) -> Vec<Result<(Token<'_>, PositionRange), LexerError>> {
    let mut lexer = Lexer::new(source);
    let mut found = Vec::new();
    loop {
        match lexer.next_token() {
            Ok(Some(pair)) => found.push(Ok(pair)),
            Ok(None) => break,
            Err(e) => found.push(Err(e)),
        }
        assert!(found.len() <= source.chars().count());
    }
    assert_eq!(lexer.next_token(), Ok(None));
    found
}

fn text_of(token: &Token) -> String {
    match token {
        Token::Identifier(name) => String::from(*name),
        Token::Reserved(reserved) => match reserved {
            chia_compiler::common::reserved::ReservedToken::Char(c) => c.to_string(),
            chia_compiler::common::reserved::ReservedToken::Keyword(name) => String::from(*name),
            chia_compiler::common::reserved::ReservedToken::Operator(symbol, _) => {
                String::from(*symbol)
            }
        },
        Token::Number(info) => match info.fractional_part {
            Some(fraction) => format!("{}.{}", info.whole_number, fraction),
            None => String::from(info.whole_number),
        },
        Token::Str(raw) => String::from(*raw),
        Token::Char(raw) => String::from(*raw),
    }
}

#[test]
fn test_lexer_error_to_string() {
    let description = "TEST";
    let range = PositionRange {
        start: Position {
            line: 1,
            column: 24,
            index: 30,
        },
        end: Position {
            line: 2,
            column: 2,
            index: 78,
        },
    };
    assert_eq!(
        LexerError {
            description: String::from(description),
            position_range: range.clone(),
        }
        .to_string(),
        format!("{} (Position: {})", description, range.to_string())
    );
}

#[test]
fn test_lexer_peek_and_consume() {
    let program = "() my_func();\r\n/* TESTING */";
    let mut lexer = Lexer::new(program);
    for c in program.chars() {
        assert_eq!(lexer.peek(), Some(c));
        lexer.consume();
    }
    assert_eq!(lexer.peek(), None);
}

#[test]
fn test_lexer_read_until() {
    let program = "\"This is a string.\\\"abc\"";
    let start_pos = Position::new();
    let mut end_pos = Position::new();
    end_pos.index = program.len() - 1;
    let end_pos = end_pos;

    let mut lexer = Lexer::new(program);
    let condition = |last_c, c| match last_c {
        Some(last_c) => last_c != '\\' && c == '"',
        _ => c == '"',
    };
    let result = lexer.read_until(condition, false);
    assert!(result.is_some());
    let result = result.unwrap();
    assert_eq!(result.start.index, start_pos.index);
    assert_eq!(result.end.index, start_pos.index);

    let mut lexer = Lexer::new(program);
    lexer.consume();
    let result = lexer.read_until(condition, false);
    assert!(result.is_some());
    let result = result.unwrap();
    assert_eq!(result.start.index, start_pos.index + 1);
    assert_eq!(result.end.index, end_pos.index);

    let mut lexer = Lexer::new(program);
    let condition = |_, c| c == ';';
    assert!(lexer.read_until(condition, false).is_none());
    let mut lexer = Lexer::new(program);
    let result = lexer.read_until(condition, true);
    assert!(result.is_some());
    let result = result.unwrap();
    assert_eq!(result.start.index, start_pos.index);
    assert_eq!(result.end.index, end_pos.index);
}

#[test]
fn a_declaration_is_split_into_its_tokens() {
    assert_eq!(
        all_tokens("int x = 5;"),
        vec![
            Ok((Token::Identifier("int"), on_first_line(0, 2))),
            Ok((Token::Identifier("x"), on_first_line(4, 4))),
            Ok((reserved("="), on_first_line(6, 6))),
            Ok((whole("5"), on_first_line(8, 8))),
            Ok((reserved(";"), on_first_line(9, 9))),
        ]
    );
}

#[test]
fn the_longest_operator_is_taken() {
    assert_eq!(
        all_tokens(">>=>>>=>"),
        vec![
            Ok((reserved(">>="), on_first_line(0, 2))),
            Ok((reserved(">>"), on_first_line(3, 4))),
            Ok((reserved(">="), on_first_line(5, 6))),
            Ok((reserved(">"), on_first_line(7, 7))),
        ]
    );
    assert_eq!(
        all_tokens("a+++b"),
        vec![
            Ok((Token::Identifier("a"), on_first_line(0, 0))),
            Ok((reserved("++"), on_first_line(1, 2))),
            Ok((reserved("+"), on_first_line(3, 3))),
            Ok((Token::Identifier("b"), on_first_line(4, 4))),
        ]
    );
    assert_eq!(
        all_tokens("a::b<<=c"),
        vec![
            Ok((Token::Identifier("a"), on_first_line(0, 0))),
            Ok((reserved("::"), on_first_line(1, 2))),
            Ok((Token::Identifier("b"), on_first_line(3, 3))),
            Ok((reserved("<<="), on_first_line(4, 6))),
            Ok((Token::Identifier("c"), on_first_line(7, 7))),
        ]
    );
}

#[test]
fn keywords_are_words_that_are_reserved() {
    assert_eq!(
        all_tokens("mut mutable static staticx do"),
        vec![
            Ok((reserved("mut"), on_first_line(0, 2))),
            Ok((Token::Identifier("mutable"), on_first_line(4, 10))),
            Ok((reserved("static"), on_first_line(12, 17))),
            Ok((Token::Identifier("staticx"), on_first_line(19, 25))),
            Ok((reserved("do"), on_first_line(27, 28))),
        ]
    );
}

#[test]
fn a_newline_is_a_token_and_opens_a_line() {
    assert_eq!(
        all_tokens("a \t\r\n  b\n\nc"),
        vec![
            Ok((
                Token::Identifier("a"),
                PositionRange {
                    start: at(1, 1, 0),
                    end: at(1, 1, 0)
                }
            )),
            Ok((
                reserved("\n"),
                PositionRange {
                    start: at(1, 5, 4),
                    end: at(1, 5, 4)
                }
            )),
            Ok((
                Token::Identifier("b"),
                PositionRange {
                    start: at(2, 3, 7),
                    end: at(2, 3, 7)
                }
            )),
            Ok((
                reserved("\n"),
                PositionRange {
                    start: at(2, 4, 8),
                    end: at(2, 4, 8)
                }
            )),
            Ok((
                reserved("\n"),
                PositionRange {
                    start: at(3, 1, 9),
                    end: at(3, 1, 9)
                }
            )),
            Ok((
                Token::Identifier("c"),
                PositionRange {
                    start: at(4, 1, 10),
                    end: at(4, 1, 10)
                }
            )),
        ]
    );
}

#[test]
fn white_space_of_every_kind_separates_tokens() {
    assert_eq!(
        all_tokens("a\u{a0}b\u{2003}c\u{3000}\u{b}d"),
        vec![
            Ok((Token::Identifier("a"), on_first_line(0, 0))),
            Ok((Token::Identifier("b"), on_first_line(2, 2))),
            Ok((Token::Identifier("c"), on_first_line(4, 4))),
            Ok((Token::Identifier("d"), on_first_line(7, 7))),
        ]
    );
    assert_eq!(all_tokens("  \t \r "), vec![]);
    assert_eq!(all_tokens(""), vec![]);
}

#[test]
fn string_and_character_literals_keep_their_quotes() {
    assert_eq!(
        all_tokens("\"abc\" 'x' \"\" \"a\\\"b\" '\\''"),
        vec![
            Ok((Token::Str("\"abc\""), on_first_line(0, 4))),
            Ok((Token::Char("'x'"), on_first_line(6, 8))),
            Ok((Token::Str("\"\""), on_first_line(10, 11))),
            Ok((Token::Str("\"a\\\"b\""), on_first_line(13, 18))),
            Ok((Token::Char("'\\''"), on_first_line(20, 23))),
        ]
    );
}

#[test]
fn a_literal_may_span_lines_and_hold_other_tokens() {
    assert_eq!(
        all_tokens("\"a;\n+\"x"),
        vec![
            Ok((
                Token::Str("\"a;\n+\""),
                PositionRange {
                    start: at(1, 1, 0),
                    end: at(2, 2, 5)
                }
            )),
            Ok((
                Token::Identifier("x"),
                PositionRange {
                    start: at(2, 3, 6),
                    end: at(2, 3, 6)
                }
            )),
        ]
    );
}

#[test]
fn an_unterminated_string_is_one_error_and_the_end() {
    let source = "\"abc";
    let mut lexer = Lexer::new(source);
    assert_eq!(
        lexer.next_token(),
        Err(error(
            "A string literal must be closed with '\"'.",
            on_first_line(0, 0)
        ))
    );
    assert_eq!(lexer.peek(), None);
    assert_eq!(lexer.next_token(), Ok(None));
}

#[test]
fn after_an_unterminated_literal_tokens_resume_at_the_semicolon() {
    assert_eq!(
        all_tokens("x = \"abc def; y"),
        vec![
            Ok((Token::Identifier("x"), on_first_line(0, 0))),
            Ok((reserved("="), on_first_line(2, 2))),
            Err(error(
                "A string literal must be closed with '\"'.",
                on_first_line(4, 4)
            )),
            Ok((reserved(";"), on_first_line(12, 12))),
            Ok((Token::Identifier("y"), on_first_line(14, 14))),
        ]
    );
    assert_eq!(
        all_tokens("'a\\'; \"b"),
        vec![
            Err(error(
                "A char literal must be closed with '\''.",
                on_first_line(0, 0)
            )),
            Ok((reserved(";"), on_first_line(4, 4))),
            Err(error(
                "A string literal must be closed with '\"'.",
                on_first_line(6, 6)
            )),
        ]
    );
}

#[test]
fn numbers_with_and_without_a_fraction() {
    assert_eq!(
        all_tokens("12 3.25 4.5f 7"),
        vec![
            Ok((whole("12"), on_first_line(0, 1))),
            Ok((fractional("3", "25"), on_first_line(3, 6))),
            Ok((fractional("4", "5f"), on_first_line(8, 11))),
            Ok((whole("7"), on_first_line(13, 13))),
        ]
    );
    assert_eq!(
        all_tokens("1+2.5;"),
        vec![
            Ok((whole("1"), on_first_line(0, 0))),
            Ok((reserved("+"), on_first_line(1, 1))),
            Ok((fractional("2", "5"), on_first_line(2, 4))),
            Ok((reserved(";"), on_first_line(5, 5))),
        ]
    );
    assert_eq!(
        all_tokens("1.5f"),
        vec![Ok((fractional("1", "5f"), on_first_line(0, 3)))]
    );
    assert_eq!(
        all_tokens("1.5.2"),
        vec![
            Ok((fractional("1", "5"), on_first_line(0, 2))),
            Ok((reserved("."), on_first_line(3, 3))),
            Ok((whole("2"), on_first_line(4, 4))),
        ]
    );
}

#[test]
fn a_fraction_needs_digits_and_an_end() {
    for (source, cursor) in [
        ("1.", 2),
        ("1. 5", 2),
        ("1.;", 2),
        ("1.f", 2),
        ("1.x", 2),
        ("1.5x", 2),
        ("1.5fx", 2),
        ("1.5ff", 2),
        ("10.a;", 3),
    ] {
        let mut lexer = Lexer::new(source);
        assert_eq!(
            lexer.next_token(),
            Err(error(
                "Number literal is invalid.",
                PositionRange {
                    start: at(1, 1, 0),
                    end: at(1, cursor + 1, cursor),
                }
            )),
            "{:?}",
            source
        );
        match source.find(';') {
            Some(semicolon) => {
                assert_eq!(
                    lexer.next_token(),
                    Ok(Some((
                        reserved(";"),
                        on_first_line(semicolon, semicolon)
                    )))
                );
            }
            None => {}
        }
        assert_eq!(lexer.next_token(), Ok(None), "{:?}", source);
    }
}

#[test]
fn a_word_that_begins_with_a_digit_is_an_error() {
    assert_eq!(
        all_tokens("1abc + 2; 5f 7"),
        vec![
            Err(error("Invalid identifier found.", on_first_line(0, 3))),
            Ok((reserved(";"), on_first_line(8, 8))),
            Err(error("Invalid identifier found.", on_first_line(10, 11))),
        ]
    );
    assert_eq!(
        all_tokens("9lives"),
        vec![Err(error(
            "Invalid identifier found.",
            on_first_line(0, 5)
        ))]
    );
}

#[test]
fn identifiers_run_up_to_a_boundary() {
    assert_eq!(
        all_tokens("my_func(a1,b_2)"),
        vec![
            Ok((Token::Identifier("my_func"), on_first_line(0, 6))),
            Ok((reserved("("), on_first_line(7, 7))),
            Ok((Token::Identifier("a1"), on_first_line(8, 9))),
            Ok((reserved(","), on_first_line(10, 10))),
            Ok((Token::Identifier("b_2"), on_first_line(11, 13))),
            Ok((reserved(")"), on_first_line(14, 14))),
        ]
    );
    assert_eq!(
        all_tokens("h\u{e9}llo#w\u{f6}rld"),
        vec![Ok((
            Token::Identifier("h\u{e9}llo#w\u{f6}rld"),
            on_first_line(0, 10)
        ))]
    );
}

#[test]
fn the_range_of_a_token_gives_back_its_text() {
    let source = "static mut int * x = foo(1, 2.5f) >>= \"s\\\"t\";\nchar c = 'c';\r\n\ty::z++ != -3 ? a : b";
    let characters: Vec<char> = source.chars().collect();
    let found = all_tokens(source);
    assert_eq!(found.len(), 33);
    for item in found {
        let (token, range) = item.unwrap();
        let from_range: String = characters[range.start.index..=range.end.index]
            .iter()
            .collect();
        assert_eq!(text_of(&token), from_range);
        assert!(range.start.line <= range.end.line);
        assert!(range.start.index <= range.end.index);
        assert!(range.start.line >= 1 && range.start.column >= 1);
    }
}

#[test]
fn every_token_of_the_tokenizer_is_well_formed() {
    for item in all_tokens("a = b + c * d ? e : f; x++ . y :: z [ 1 ] <<= >>= != ~ !") {
        let (token, _) = item.unwrap();
        assert!(token.is_well_formed());
    }
}

#[test]
fn read_until_with_and_without_an_end() {
    let mut lexer = Lexer::new("ab;cd");
    let semicolon = |_: Option<char>, c: char| c == ';';
    let range = lexer.read_until(semicolon, false).unwrap();
    assert_eq!(range, on_first_line(0, 2));
    assert_eq!(lexer.peek(), Some('c'));
    assert_eq!(lexer.read_until(semicolon, false), None);
    assert_eq!(lexer.peek(), Some('c'));
    assert_eq!(
        lexer.read_until(semicolon, true),
        Some(on_first_line(3, 4))
    );
    assert_eq!(lexer.peek(), None);
    assert_eq!(
        lexer.read_until(semicolon, true),
        Some(PositionRange {
            start: at(1, 6, 5),
            end: at(1, 6, 5)
        })
    );
    assert_eq!(lexer.read_until(semicolon, false), None);
}

#[test]
fn read_until_hands_the_character_before() {
    let mut lexer = Lexer::new("aab");
    let after_a = |last: Option<char>, c: char| last == Some('a') && c == 'b';
    assert_eq!(
        lexer.read_until(after_a, false),
        Some(on_first_line(0, 2))
    );
    let mut lexer = Lexer::new("xab");
    lexer.consume();
    lexer.consume();
    assert_eq!(lexer.read_until(after_a, false), None);
    assert_eq!(lexer.peek(), Some('b'));
}

#[test]
fn consume_stops_at_the_end() {
    let mut lexer = Lexer::new("a");
    lexer.consume();
    lexer.consume();
    lexer.consume();
    assert_eq!(lexer.peek(), None);
    assert_eq!(lexer.next_token(), Ok(None));
}

#[test]
fn lexer_error_display_is_exact() {
    assert_eq!(
        error("Number literal is invalid.", on_first_line(0, 2)).to_string(),
        "Number literal is invalid. (Position: {Start: (Line: 1, Column: 1, Index: 0), End: (Line: 1, Column: 3, Index: 2)})"
    );
}
