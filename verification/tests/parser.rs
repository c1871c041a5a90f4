use chia_compiler::chia::ast::node::{
    ASTNode, FnCall, FnDef, ProgramInfo, TypeInfo, TypeVarPair, VarDef,
};
use chia_compiler::chia::lang::find_reserved_token;
use chia_compiler::chia::lexer::Lexer;
use chia_compiler::chia::parser::{Parser, ParserError};
use chia_compiler::common::reserved::ReservedToken;
use chia_compiler::common::token::Token;

fn tokenize(source: &str) -> Vec<Token<'_>> {
    let mut lexer = Lexer::new(source);
    let mut tokens = Vec::new();
    loop {
        match lexer.next_token() {
            Ok(Some((token, _))) => tokens.push(token),
            Ok(None) => break,
            Err(error) => panic!("{}", error.to_string()),
        }
    }
    tokens
}

fn parser_on<'a, 'b>(tokens: &'a [Token<'b>]) -> Parser<'a, 'b> {
    Parser::new(String::from("test"), tokens.iter().collect())
}

fn reserved(text: &str) -> &'static ReservedToken<'static> {
    find_reserved_token(text).unwrap()
}

fn identifier<'a, 'b>(token: &'a Token<'b>) -> Box<ASTNode<'a, 'b>> {
    Box::new(ASTNode::Identifier(token))
}

fn number<'a, 'b>(token: &'a Token<'b>) -> Box<ASTNode<'a, 'b>> {
    Box::new(ASTNode::Number(token))
}

fn binary<'a, 'b>(
    operator: &str,
    left: Box<ASTNode<'a, 'b>>,
    right: Box<ASTNode<'a, 'b>>,
) -> Box<ASTNode<'a, 'b>> {
    Box::new(ASTNode::BinaryOperation(reserved(operator), left, right))
}

fn named_type<'a, 'b>(
    is_static: bool,
    is_mut: bool,
    is_volatile: bool,
    name: &'a Token<'b>,
) -> Box<ASTNode<'a, 'b>> {
    Box::new(ASTNode::Type(TypeInfo {
        is_static,
        is_mut,
        is_volatile,
        is_pointer: false,
        base_type: identifier(name),
    }))
}

fn pointer<'a, 'b>(
    is_mut: bool,
    is_volatile: bool,
    base_type: Box<ASTNode<'a, 'b>>,
) -> Box<ASTNode<'a, 'b>> {
    Box::new(ASTNode::Type(TypeInfo {
        is_static: false,
        is_mut,
        is_volatile,
        is_pointer: true,
        base_type,
    }))
}

fn variable<'a, 'b>(
    type_of_var: Box<ASTNode<'a, 'b>>,
    name: &'a Token<'b>,
    value: Option<Box<ASTNode<'a, 'b>>>,
) -> Box<ASTNode<'a, 'b>> {
    Box::new(ASTNode::Variable(VarDef {
        variable: TypeVarPair {
            type_of_var,
            identifier: identifier(name),
        },
        value,
    }))
}

fn failure<'a, 'b>(description: &str, token: Option<&'a Token<'b>>) -> ParserError<'a, 'b> {
    ParserError {
        description: String::from(description),
        token,
    }
}

#[test]
fn multiplication_binds_tighter_than_addition() {
    let tokens = tokenize("a+b*c");
    assert_eq!(tokens.len(), 5);
    let mut parser = parser_on(&tokens);
    assert_eq!(
        parser.parse_expr(),
        Ok(binary(
            "+",
            identifier(&tokens[0]),
            binary("*", identifier(&tokens[2]), identifier(&tokens[4])),
        ))
    );
}

#[test]
fn a_tighter_operator_on_the_left_is_reduced_first() {
    let tokens = tokenize("a*b+c");
    let mut parser = parser_on(&tokens);
    assert_eq!(
        parser.parse_expr(),
        Ok(binary(
            "+",
            binary("*", identifier(&tokens[0]), identifier(&tokens[2])),
            identifier(&tokens[4]),
        ))
    );
}

#[test]
fn assignment_groups_from_the_left() {
    let tokens = tokenize("a=b=c");
    let mut parser = parser_on(&tokens);
    assert_eq!(
        parser.parse_expr(),
        Ok(binary(
            "=",
            binary("=", identifier(&tokens[0]), identifier(&tokens[2])),
            identifier(&tokens[4]),
        ))
    );
}

#[test]
fn operators_of_equal_rank_group_from_the_left() {
    let tokens = tokenize("a-b+c-d");
    let mut parser = parser_on(&tokens);
    assert_eq!(
        parser.parse_expr(),
        Ok(binary(
            "-",
            binary(
                "+",
                binary("-", identifier(&tokens[0]), identifier(&tokens[2])),
                identifier(&tokens[4]),
            ),
            identifier(&tokens[6]),
        ))
    );
}

#[test]
fn looser_operators_wait_for_the_end() {
    let tokens = tokenize("a = b || c && d == e + f * g");
    let mut parser = parser_on(&tokens);
    let product = binary("*", identifier(&tokens[10]), identifier(&tokens[12]));
    let sum = binary("+", identifier(&tokens[8]), product);
    let equal = binary("==", identifier(&tokens[6]), sum);
    let and = binary("&&", identifier(&tokens[4]), equal);
    let or = binary("||", identifier(&tokens[2]), and);
    assert_eq!(
        parser.parse_expr(),
        Ok(binary("=", identifier(&tokens[0]), or))
    );
}

#[test]
fn the_ternary_mark_is_reduced_like_a_binary_operator() {
    let tokens = tokenize("a ? b + c");
    let mut parser = parser_on(&tokens);
    assert_eq!(
        parser.parse_expr(),
        Ok(binary(
            "?",
            identifier(&tokens[0]),
            binary("+", identifier(&tokens[2]), identifier(&tokens[4])),
        ))
    );
}

#[test]
fn a_call_with_two_numbers() {
    let tokens = tokenize("foo(1,2)");
    assert_eq!(tokens.len(), 6);
    let mut parser = parser_on(&tokens);
    assert_eq!(
        parser.parse_expr(),
        Ok(Box::new(ASTNode::FunctionCall(FnCall {
            fn_identifier: identifier(&tokens[0]),
            arguments: vec![number(&tokens[2]), number(&tokens[4])],
        })))
    );
}

#[test]
fn a_call_without_arguments_and_a_call_in_a_call() {
    let tokens = tokenize("f()");
    let mut parser = parser_on(&tokens);
    assert_eq!(
        parser.parse_expr(),
        Ok(Box::new(ASTNode::FunctionCall(FnCall {
            fn_identifier: identifier(&tokens[0]),
            arguments: vec![],
        })))
    );
    let tokens = tokenize("f(g(x), y + 1)");
    let mut parser = parser_on(&tokens);
    let inner = Box::new(ASTNode::FunctionCall(FnCall {
        fn_identifier: identifier(&tokens[2]),
        arguments: vec![identifier(&tokens[4])],
    }));
    assert_eq!(
        parser.parse_expr(),
        Ok(Box::new(ASTNode::FunctionCall(FnCall {
            fn_identifier: identifier(&tokens[0]),
            arguments: vec![
                inner,
                binary("+", identifier(&tokens[7]), number(&tokens[9])),
            ],
        })))
    );
}

#[test]
fn malformed_argument_lists_are_rejected() {
    let tokens = tokenize("f(1,)");
    let mut parser = parser_on(&tokens);
    assert_eq!(
        parser.parse_expr(),
        Err(failure("Expected operand.", Some(&tokens[0])))
    );
    let tokens = tokenize("f(,1)");
    let mut parser = parser_on(&tokens);
    assert_eq!(
        parser.parse_expr(),
        Err(failure("Expected operand.", Some(&tokens[0])))
    );
    let tokens = tokenize("f(1 2)");
    let mut parser = parser_on(&tokens);
    assert_eq!(
        parser.parse_expr(),
        Err(failure("Expected operand.", Some(&tokens[0])))
    );
    let tokens = tokenize("f(1");
    let mut parser = parser_on(&tokens);
    assert_eq!(
        parser.parse_expr(),
        Err(failure("Expected operand.", Some(&tokens[0])))
    );
}

#[test]
fn prefix_and_postfix_operators_wrap_the_operand() {
    let tokens = tokenize("!-x++--");
    assert_eq!(tokens.len(), 5);
    let mut parser = parser_on(&tokens);
    let first_postfix = Box::new(ASTNode::PostfixOperation(
        reserved("++"),
        identifier(&tokens[2]),
    ));
    let second_postfix = Box::new(ASTNode::PostfixOperation(reserved("--"), first_postfix));
    let inner_prefix = Box::new(ASTNode::PrefixOperation(reserved("-"), second_postfix));
    assert_eq!(
        parser.parse_expr(),
        Ok(Box::new(ASTNode::PrefixOperation(
            reserved("!"),
            inner_prefix
        )))
    );
}

#[test]
fn literals_are_operands() {
    let tokens = tokenize("\"text\" + 'c' + 1.5");
    let mut parser = parser_on(&tokens);
    assert_eq!(
        parser.parse_expr(),
        Ok(binary(
            "+",
            binary(
                "+",
                Box::new(ASTNode::String(&tokens[0])),
                Box::new(ASTNode::String(&tokens[2])),
            ),
            number(&tokens[4]),
        ))
    );
    assert_eq!(tokens[2], Token::Char("'c'"));
}

#[test]
fn an_expression_ends_before_what_is_no_operator() {
    let tokens = tokenize("a + b ; c");
    let mut parser = parser_on(&tokens);
    assert_eq!(
        parser.parse_expr(),
        Ok(binary("+", identifier(&tokens[0]), identifier(&tokens[2])))
    );
    assert_eq!(
        parser.parse_expr(),
        Err(failure("Expected operand.", Some(&tokens[3])))
    );
}

#[test]
fn a_missing_operand_is_an_error() {
    let tokens = tokenize("a +");
    let mut parser = parser_on(&tokens);
    assert_eq!(
        parser.parse_expr(),
        Err(failure("Expected operand.", None))
    );
    let tokens = tokenize("");
    let mut parser = parser_on(&tokens);
    assert_eq!(
        parser.parse_expr(),
        Err(failure("Expected operand.", None))
    );
    let tokens = tokenize("a + * b");
    let mut parser = parser_on(&tokens);
    assert_eq!(
        parser.parse_expr(),
        Err(failure("Expected operand.", Some(&tokens[2])))
    );
    assert_eq!(
        parser.parse_expr(),
        Err(failure("Expected operand.", Some(&tokens[2])))
    );
}

#[test]
fn a_parenthesized_expression_is_no_operand() {
    let tokens = tokenize("(a+b)*c");
    let mut parser = parser_on(&tokens);
    assert_eq!(
        parser.parse_expr(),
        Err(failure("Expected operand.", Some(&tokens[0])))
    );
    assert_eq!(
        parser.parse_expr_parantheses(),
        Ok(binary("+", identifier(&tokens[1]), identifier(&tokens[3])))
    );
    let tokens = tokenize("(a+b");
    let mut parser = parser_on(&tokens);
    assert_eq!(
        parser.parse_expr_parantheses(),
        Err(failure("Expected ')'.", None))
    );
    let tokens = tokenize("a+b)");
    let mut parser = parser_on(&tokens);
    assert_eq!(
        parser.parse_expr_parantheses(),
        Err(failure("Expected '('.", Some(&tokens[0])))
    );
    let tokens = tokenize("()");
    let mut parser = parser_on(&tokens);
    assert_eq!(
        parser.parse_expr_parantheses(),
        Err(failure("Expected operand.", Some(&tokens[1])))
    );
}

#[test]
fn pointers_nest_in_the_order_written() {
    let tokens = tokenize("x * mut *");
    assert_eq!(tokens.len(), 4);
    let mut parser = parser_on(&tokens);
    let base = named_type(false, false, false, &tokens[0]);
    let first = pointer(true, false, base);
    let second = pointer(false, false, first);
    assert_eq!(parser.parse_type(), Ok(second));
}

#[test]
fn qualifiers_belong_to_the_level_they_follow() {
    let tokens = tokenize("static static volatile mut mut x * * volatile mut * volatile y");
    let mut parser = parser_on(&tokens);
    let base = named_type(true, true, true, &tokens[5]);
    let first = pointer(false, false, base);
    let second = pointer(true, true, first);
    let third = pointer(false, true, second);
    assert_eq!(parser.parse_type(), Ok(third));
    let tokens = tokenize("mut x");
    let mut parser = parser_on(&tokens);
    assert_eq!(
        parser.parse_type(),
        Ok(named_type(false, true, false, &tokens[1]))
    );
}

#[test]
fn tuple_types() {
    let tokens = tokenize("(a, mut b*, (c, d)) *");
    let mut parser = parser_on(&tokens);
    let a = named_type(false, false, false, &tokens[1]);
    let b = pointer(false, false, named_type(false, true, false, &tokens[4]));
    let inner = Box::new(ASTNode::Tuple(vec![
        named_type(false, false, false, &tokens[8]),
        named_type(false, false, false, &tokens[10]),
    ]));
    let tuple = Box::new(ASTNode::Tuple(vec![a, b, inner]));
    assert_eq!(parser.parse_type(), Ok(pointer(false, false, tuple)));
}

#[test]
fn malformed_types_are_rejected_and_nothing_is_consumed() {
    let tokens = tokenize("static mut 5 x");
    let mut parser = parser_on(&tokens);
    let expected = Err(failure(
        "Expected an identifier or tuple.",
        Some(&tokens[2]),
    ));
    assert_eq!(parser.parse_type(), expected);
    assert_eq!(parser.parse_type(), expected);

    let tokens = tokenize("()");
    let mut parser = parser_on(&tokens);
    assert_eq!(
        parser.parse_type(),
        Err(failure("Expected identifier.", Some(&tokens[1])))
    );
    let tokens = tokenize("(a,)");
    let mut parser = parser_on(&tokens);
    assert_eq!(
        parser.parse_type(),
        Err(failure("Expected identifier.", Some(&tokens[3])))
    );
    let tokens = tokenize("(,a)");
    let mut parser = parser_on(&tokens);
    assert_eq!(
        parser.parse_type(),
        Err(failure("Expected identifier.", Some(&tokens[1])))
    );
    let tokens = tokenize("(a b)");
    let mut parser = parser_on(&tokens);
    assert_eq!(
        parser.parse_type(),
        Err(failure("Expected ')' or ','.", Some(&tokens[2])))
    );
    let tokens = tokenize("(a, 5)");
    let mut parser = parser_on(&tokens);
    assert_eq!(
        parser.parse_type(),
        Err(failure("Expected ')' or ','.", Some(&tokens[3])))
    );
    let tokens = tokenize("(a");
    let mut parser = parser_on(&tokens);
    assert_eq!(
        parser.parse_type(),
        Err(failure("Expected ')' or ','.", None))
    );
    let tokens = tokenize("");
    let mut parser = parser_on(&tokens);
    assert_eq!(
        parser.parse_type(),
        Err(failure("Expected an identifier or tuple.", None))
    );
}

#[test]
fn variable_declarations() {
    let tokens = tokenize("int x = 5; int y;");
    let mut parser = parser_on(&tokens);
    assert_eq!(
        parser.parse_decl(),
        Ok(variable(
            named_type(false, false, false, &tokens[0]),
            &tokens[1],
            Some(number(&tokens[3])),
        ))
    );
    assert_eq!(
        parser.parse_decl(),
        Ok(variable(
            named_type(false, false, false, &tokens[5]),
            &tokens[6],
            None,
        ))
    );
    assert_eq!(
        parser.parse_decl(),
        Err(failure("Expected an identifier or tuple.", None))
    );
}

#[test]
fn function_declarations() {
    let tokens = tokenize("int f(int a, mut char * b) void g()");
    let mut parser = parser_on(&tokens);
    assert_eq!(
        parser.parse_decl(),
        Ok(Box::new(ASTNode::Function(FnDef {
            return_type: named_type(false, false, false, &tokens[0]),
            identifier: identifier(&tokens[1]),
            arguments: vec![
                TypeVarPair {
                    type_of_var: named_type(false, false, false, &tokens[3]),
                    identifier: identifier(&tokens[4]),
                },
                TypeVarPair {
                    type_of_var: pointer(
                        false,
                        false,
                        named_type(false, true, false, &tokens[7])
                    ),
                    identifier: identifier(&tokens[9]),
                },
            ],
            body: None,
        })))
    );
    assert_eq!(
        parser.parse_decl(),
        Ok(Box::new(ASTNode::Function(FnDef {
            return_type: named_type(false, false, false, &tokens[11]),
            identifier: identifier(&tokens[12]),
            arguments: vec![],
            body: None,
        })))
    );
}

#[test]
fn malformed_declarations_are_rejected_and_nothing_is_consumed() {
    let tokens = tokenize("int = 5;");
    let mut parser = parser_on(&tokens);
    let expected = Err(failure("Expected an identifier.", Some(&tokens[1])));
    assert_eq!(parser.parse_decl(), expected);
    assert_eq!(parser.parse_decl(), expected);

    let tokens = tokenize("int x 5;");
    let mut parser = parser_on(&tokens);
    assert_eq!(
        parser.parse_decl(),
        Err(failure("Expected ';', '=' or '('.", Some(&tokens[0])))
    );
    let tokens = tokenize("int x");
    let mut parser = parser_on(&tokens);
    assert_eq!(
        parser.parse_decl(),
        Err(failure("Expected ';', '=' or '('.", Some(&tokens[0])))
    );
    let tokens = tokenize("int x = 5 6;");
    let mut parser = parser_on(&tokens);
    assert_eq!(
        parser.parse_decl(),
        Err(failure("Expected ';'.", Some(&tokens[4])))
    );
    let tokens = tokenize("int x = ;");
    let mut parser = parser_on(&tokens);
    assert_eq!(
        parser.parse_decl(),
        Err(failure("Expected operand.", Some(&tokens[3])))
    );
    let tokens = tokenize("int f(int a,)");
    let mut parser = parser_on(&tokens);
    assert_eq!(
        parser.parse_decl(),
        Err(failure(
            "Expected an identifier or tuple.",
            Some(&tokens[6])
        ))
    );
    let tokens = tokenize("int f(int a int b)");
    let mut parser = parser_on(&tokens);
    assert_eq!(
        parser.parse_decl(),
        Err(failure("Expected ',' or ')'.", Some(&tokens[5])))
    );
    let tokens = tokenize("int f(int)");
    let mut parser = parser_on(&tokens);
    assert_eq!(
        parser.parse_decl(),
        Err(failure("Expected an identifier.", Some(&tokens[4])))
    );
    let tokens = tokenize("int f(");
    let mut parser = parser_on(&tokens);
    assert_eq!(
        parser.parse_decl(),
        Err(failure("Expected an identifier or tuple.", None))
    );
}

#[test]
fn three_well_formed_declarations_make_a_program() {
    let tokens = tokenize("int x = 5; int z = x + 1; int y;");
    let mut parser = parser_on(&tokens);
    let int_x = variable(
        named_type(false, false, false, &tokens[0]),
        &tokens[1],
        Some(number(&tokens[3])),
    );
    let int_z = variable(
        named_type(false, false, false, &tokens[5]),
        &tokens[6],
        Some(binary("+", identifier(&tokens[8]), number(&tokens[10]))),
    );
    let int_y = variable(
        named_type(false, false, false, &tokens[12]),
        &tokens[13],
        None,
    );
    assert_eq!(
        parser.parse(),
        Ok(ASTNode::Program(ProgramInfo {
            name: String::from("test"),
            var_fn_defs: vec![int_x, int_z, int_y],
        }))
    );
}

#[test]
fn a_malformed_declaration_between_two_good_ones() {
    let tokens = tokenize("int x = 5; int f(int a;); int y;");
    let mut parser = parser_on(&tokens);
    assert_eq!(
        parser.parse(),
        Err(vec![
            failure("Expected ',' or ')'.", Some(&tokens[10])),
            failure("Expected an identifier or tuple.", Some(&tokens[11])),
        ])
    );
}

#[test]
fn one_error_for_each_malformed_declaration() {
    let tokens = tokenize("int x = 5; int = 6; int y;");
    let mut parser = parser_on(&tokens);
    assert_eq!(
        parser.parse(),
        Err(vec![failure("Expected an identifier.", Some(&tokens[6]))])
    );
    let tokens = tokenize("int = 6; int y; int z 7; int w = ; mut");
    let mut parser = parser_on(&tokens);
    assert_eq!(
        parser.parse(),
        Err(vec![
            failure("Expected an identifier.", Some(&tokens[1])),
            failure("Expected ';', '=' or '('.", Some(&tokens[7])),
            failure("Expected operand.", Some(&tokens[14])),
            failure("Expected an identifier or tuple.", None),
        ])
    );
}

#[test]
fn an_empty_program_and_a_second_parse() {
    let tokens = tokenize("");
    let mut parser = parser_on(&tokens);
    assert_eq!(
        parser.parse(),
        Ok(ASTNode::Program(ProgramInfo {
            name: String::from("test"),
            var_fn_defs: vec![],
        }))
    );
    let tokens = tokenize("a b;");
    let mut parser = Parser::new(String::from("main"), tokens.iter().collect());
    assert!(parser.parse().is_ok());
    assert_eq!(
        parser.parse(),
        Ok(ASTNode::Program(ProgramInfo {
            name: String::from("main"),
            var_fn_defs: vec![],
        }))
    );
}

#[test]
fn parse_error_new_keeps_its_parts() {
    let token = Token::Identifier("x");
    let error = ParserError::new(String::from("Expected ';'."), Some(&token));
    assert_eq!(error.description, "Expected ';'.");
    assert_eq!(error.token, Some(&token));
}
