//! The parser: from tokens to a syntax tree, or to the errors found.

use vstd::prelude::*;
use crate::chia::ast::node::{
    boxed_models, pair_models, ASTNode, Ast, FnCall, FnDef, ProgramInfo, TypeInfo, TypeVarPair,
    VarDef,
};
use crate::common::reserved::{ReservedSpec, ReservedToken};
use crate::common::text::text_eq;
use crate::common::token::{Token, TokenSpec};

verus! {

/// A parse error: what was expected, and the token found instead, if any.
#[derive(Debug, PartialEq, Eq)]
pub struct ParserError<'a, 'b> {
    pub description: String,
    pub token: Option<&'a Token<'b>>,
}

/// A parse error with its texts as sequences of characters.
pub struct ParseFailure {
    pub description: Seq<char>,
    pub token: Option<TokenSpec>,
}

/// The token behind an optional reference, as a mathematical value.
pub open spec fn optional_token(token: Option<&Token>) -> Option<TokenSpec> {
    match token {
        Some(t) => Some(t@),
        None => None,
    }
}

impl<'a, 'b> View for ParserError<'a, 'b> {
    type V = ParseFailure;

    open spec fn view(&self) -> ParseFailure {
        ParseFailure { description: self.description@, token: optional_token(self.token) }
    }
}

impl<'a, 'b> ParserError<'a, 'b> {
    pub fn new(description: String, token: Option<&'a Token<'b>>) -> (error: ParserError<'a, 'b>)
        ensures
            error == (ParserError { description, token }),
    {
        ParserError { description, token }
    }
}

/// What parsing from some index yields: a value and the index behind what
/// was consumed, or a failure, which consumes nothing.
pub type Parsed<T> = Result<(T, int), ParseFailure>;

/// The tokens of a list as mathematical values.
pub open spec fn token_models(tokens: Seq<&Token>) -> Seq<TokenSpec> {
    Seq::new(tokens.len(), |i: int| tokens[i]@)
}

/// The token with index `i`, if there is one.
pub open spec fn token_at(t: Seq<TokenSpec>, i: int) -> Option<TokenSpec> {
    if 0 <= i < t.len() {
        Some(t[i])
    } else {
        None
    }
}

/// Whether the token with index `i` is the punctuation character `c`.
pub open spec fn has_char(t: Seq<TokenSpec>, i: int, c: char) -> bool {
    0 <= i < t.len() && t[i].is_char(c)
}

/// Whether the token with index `i` is the keyword `name`.
pub open spec fn has_keyword(t: Seq<TokenSpec>, i: int, name: Seq<char>) -> bool {
    0 <= i < t.len() && t[i].is_keyword(name)
}

/// Whether the token with index `i` is the operator `symbol`.
pub open spec fn has_operator(t: Seq<TokenSpec>, i: int, symbol: Seq<char>) -> bool {
    0 <= i < t.len() && t[i].is_operator(symbol)
}

/// Whether the token with index `i` is an identifier.
pub open spec fn has_identifier(t: Seq<TokenSpec>, i: int) -> bool {
    0 <= i < t.len() && t[i] is Identifier
}

/// The failure that reports a missing `item`.
pub open spec fn expected(item: Seq<char>, token: Option<TokenSpec>) -> ParseFailure {
    ParseFailure { description: "Expected "@ + item + "."@, token }
}

/// The reserved token inside a token.
pub open spec fn reserved_of(token: TokenSpec) -> ReservedSpec {
    match token {
        TokenSpec::Reserved(reserved) => reserved,
        _ => ReservedSpec::Char(' '),
    }
}

// Types

/// The index behind the `static` keywords that stand from `i` on.
pub open spec fn static_end(t: Seq<TokenSpec>, i: int) -> int
    decreases t.len() - i,
{
    if has_keyword(t, i, "static"@) {
        static_end(t, i + 1)
    } else {
        i
    }
}

/// The qualifiers read so far and the index behind them.
pub struct Qualifiers {
    pub is_mut: bool,
    pub is_volatile: bool,
    pub next: int,
}

/// The qualifiers `mut` and `volatile` that stand from `i` on, in any order
/// and number, added to those already seen.
pub open spec fn qualifiers_from(
    t: Seq<TokenSpec>,
    i: int,
    is_mut: bool,
    is_volatile: bool,
) -> Qualifiers
    decreases t.len() - i,
{
    if has_keyword(t, i, "mut"@) {
        qualifiers_from(t, i + 1, true, is_volatile)
    } else if has_keyword(t, i, "volatile"@) {
        qualifiers_from(t, i + 1, is_mut, true)
    } else {
        Qualifiers { is_mut, is_volatile, next: i }
    }
}

/// A pointer to `base` with the given qualifiers.
pub open spec fn pointer_to(base: Ast, q: Qualifiers) -> Ast {
    Ast::Type {
        is_static: false,
        is_mut: q.is_mut,
        is_volatile: q.is_volatile,
        is_pointer: true,
        base: Box::new(base),
    }
}

/// The type that the `*` suffixes from `i` on make of `base`, each with the
/// qualifiers that follow it, and the index behind them. The first `*` wraps
/// the base, the next one wraps that pointer, and so on.
pub open spec fn pointers_from(t: Seq<TokenSpec>, i: int, base: Ast) -> (Ast, int)
    decreases t.len() - i,
{
    if has_operator(t, i, "*"@) {
        let q = qualifiers_from(t, i + 1, false, false);
        proof {
            lemma_qualifiers(t, i + 1, false, false);
        }
        pointers_from(t, q.next, pointer_to(base, q))
    } else {
        (base, i)
    }
}

/// The type that starts at `i`: `static` keywords, qualifiers, then an
/// identifier or a tuple of types, then pointer suffixes.
pub open spec fn type_at(t: Seq<TokenSpec>, i: int) -> Parsed<Ast>
    decreases t.len() - i, 2int,
{
    let s = static_end(t, i);
    let q = qualifiers_from(t, s, false, false);
    proof {
        lemma_static_end(t, i);
        lemma_qualifiers(t, s, false, false);
    }
    if has_identifier(t, q.next) {
        Ok(
            pointers_from(
                t,
                q.next + 1,
                Ast::Type {
                    is_static: s > i,
                    is_mut: q.is_mut,
                    is_volatile: q.is_volatile,
                    is_pointer: false,
                    base: Box::new(Ast::Identifier(t[q.next])),
                },
            ),
        )
    } else if has_char(t, q.next, '(') {
        match tuple_type_at(t, q.next) {
            Ok((tuple, k)) => Ok(pointers_from(t, k, tuple)),
            Err(e) => Err(e),
        }
    } else {
        Err(
            ParseFailure {
                description: "Expected an identifier or tuple."@,
                token: token_at(t, q.next),
            },
        )
    }
}

/// The tuple type whose `(` stands at `i`.
pub open spec fn tuple_type_at(t: Seq<TokenSpec>, i: int) -> Parsed<Ast>
    decreases t.len() - i, 1int,
{
    if has_char(t, i, '(') {
        tuple_type_items(t, i + 1, Seq::empty(), true)
    } else {
        Err(expected("left paranthesis"@, token_at(t, i)))
    }
}

/// The rest of a tuple type from `j` on, after the component types `items`:
/// types separated by commas up to the closing `)`. At least one type is
/// needed, and none may be missing before or after a comma. The definition
/// asks that a component type takes a token, which `lemma_type_advances`
/// shows of every type.
pub open spec fn tuple_type_items(
    t: Seq<TokenSpec>,
    j: int,
    items: Seq<Ast>,
    expect_type: bool,
) -> Parsed<Ast>
    decreases t.len() - j, 3int,
{
    if has_char(t, j, ')') {
        if expect_type {
            Err(expected("identifier"@, token_at(t, j)))
        } else {
            Ok((Ast::Tuple(items), j + 1))
        }
    } else if has_char(t, j, ',') {
        if expect_type {
            Err(expected("identifier"@, token_at(t, j)))
        } else {
            tuple_type_items(t, j + 1, items, true)
        }
    } else if !expect_type {
        Err(expected("')' or ','"@, token_at(t, j)))
    } else {
        match type_at(t, j) {
            Ok((node, k)) => if j < k <= t.len() {
                tuple_type_items(t, k, items.push(node), false)
            } else {
                Err(expected("')' or ','"@, token_at(t, j)))
            },
            Err(_) => Err(expected("')' or ','"@, token_at(t, j))),
        }
    }
}

// Expressions

/// The index behind the prefix operators that stand from `i` on.
pub open spec fn prefix_end(t: Seq<TokenSpec>, i: int) -> int
    decreases t.len() - i,
{
    if 0 <= i < t.len() && t[i].is_prefix_operator() {
        prefix_end(t, i + 1)
    } else {
        i
    }
}

/// The index behind the postfix operators that stand from `i` on.
pub open spec fn postfix_end(t: Seq<TokenSpec>, i: int) -> int
    decreases t.len() - i,
{
    if 0 <= i < t.len() && t[i].is_postfix_operator() {
        postfix_end(t, i + 1)
    } else {
        i
    }
}

/// `node` wrapped by the postfix operators with indices `from` up to `to`:
/// the first of them innermost.
pub open spec fn wrap_postfix(t: Seq<TokenSpec>, from: int, to: int, node: Ast) -> Ast
    decreases to - from,
{
    if from >= to {
        node
    } else {
        wrap_postfix(
            t,
            from + 1,
            to,
            Ast::PostfixOperation(reserved_of(t[from]), Box::new(node)),
        )
    }
}

/// `node` wrapped by the prefix operators with indices `from` up to `to`:
/// the last of them, the one next to the operand, innermost.
pub open spec fn wrap_prefix(t: Seq<TokenSpec>, from: int, to: int, node: Ast) -> Ast
    decreases to - from,
{
    if from >= to {
        node
    } else {
        wrap_prefix(t, from, to - 1, Ast::PrefixOperation(reserved_of(t[to - 1]), Box::new(node)))
    }
}

/// The operands after the operator `operator` has taken the last two of
/// them as its left and right side.
pub open spec fn reduce_once(operands: Seq<Ast>, operator: ReservedSpec) -> Seq<Ast> {
    let n = operands.len();
    operands.take(n - 2).push(
        Ast::BinaryOperation(operator, Box::new(operands[n - 2]), Box::new(operands[n - 1])),
    )
}

/// The two stacks after every operator on top whose rank is at most `rank`
/// has been reduced.
pub open spec fn reduce_while(operands: Seq<Ast>, operators: Seq<ReservedSpec>, rank: u32) -> (
    Seq<Ast>,
    Seq<ReservedSpec>,
)
    decreases operators.len(),
{
    if operators.len() > 0 && operands.len() >= 2 && operators.last().rank() <= rank {
        reduce_while(reduce_once(operands, operators.last()), operators.drop_last(), rank)
    } else {
        (operands, operators)
    }
}

/// The operands after all operators have been reduced, the last one first.
pub open spec fn reduce_all(operands: Seq<Ast>, operators: Seq<ReservedSpec>) -> Seq<Ast>
    decreases operators.len(),
{
    if operators.len() > 0 && operands.len() >= 2 {
        reduce_all(reduce_once(operands, operators.last()), operators.drop_last())
    } else {
        operands
    }
}

/// Where the loop of the expression engine stands.
pub struct ExprState {
    pub operands: Seq<Ast>,
    pub operators: Seq<ReservedSpec>,
    pub operand_expected: bool,
    pub next: int,
}

/// The operand that starts at `i`, if one does: an identifier, which a `(`
/// right behind it makes a function call, or a number, string or character
/// literal.
pub open spec fn operand_at(t: Seq<TokenSpec>, i: int) -> Parsed<Option<Ast>>
    decreases t.len() - i, 1int,
{
    if 0 <= i < t.len() {
        match t[i] {
            TokenSpec::Identifier(_) => if has_char(t, i + 1, '(') {
                match tuple_expr_at(t, i + 1) {
                    Ok((arguments, k)) => Ok(
                        (
                            Some(
                                Ast::FunctionCall {
                                    callee: Box::new(Ast::Identifier(t[i])),
                                    arguments,
                                },
                            ),
                            k,
                        ),
                    ),
                    Err(e) => Err(e),
                }
            } else {
                Ok((Some(Ast::Identifier(t[i])), i + 1))
            },
            TokenSpec::Number(_, _) => Ok((Some(Ast::Number(t[i])), i + 1)),
            TokenSpec::Str(_) => Ok((Some(Ast::String(t[i])), i + 1)),
            TokenSpec::Char(_) => Ok((Some(Ast::String(t[i])), i + 1)),
            TokenSpec::Reserved(_) => Ok((None, i)),
        }
    } else {
        Ok((None, i))
    }
}

/// The argument expressions whose `(` stands at `i`.
pub open spec fn tuple_expr_at(t: Seq<TokenSpec>, i: int) -> Parsed<Seq<Ast>>
    decreases t.len() - i, 0int,
{
    if has_char(t, i, '(') {
        tuple_expr_items(t, i + 1, Seq::empty(), true)
    } else {
        Err(expected("'('"@, token_at(t, i)))
    }
}

/// The rest of an argument list from `j` on, after the arguments `items`:
/// expressions separated by commas up to the closing `)`. The list may be
/// empty; no expression may be missing before or after a comma. The
/// definition asks that an argument takes a token, which
/// `lemma_expr_advances` shows of every expression.
pub open spec fn tuple_expr_items(
    t: Seq<TokenSpec>,
    j: int,
    items: Seq<Ast>,
    expect_expr: bool,
) -> Parsed<Seq<Ast>>
    decreases t.len() - j, 4int,
{
    if has_char(t, j, ')') {
        if expect_expr && items.len() > 0 {
            Err(expected("expression"@, token_at(t, j)))
        } else {
            Ok((items, j + 1))
        }
    } else if has_char(t, j, ',') {
        if expect_expr {
            Err(expected("expression"@, token_at(t, j)))
        } else {
            tuple_expr_items(t, j + 1, items, true)
        }
    } else if !expect_expr {
        Err(expected("')' or ','"@, token_at(t, j)))
    } else {
        match expr_at(t, j) {
            Ok((argument, k)) => if j < k <= t.len() {
                tuple_expr_items(t, k, items.push(argument), false)
            } else {
                Err(expected("expression"@, token_at(t, j)))
            },
            Err(e) => Err(e),
        }
    }
}

/// The state in which the loop of the expression engine ends when it goes
/// on from index `j` with the given stacks. Where an operand is expected,
/// prefix operators, one operand and postfix operators are taken and the
/// wrapped operand is pushed; without an operand the loop ends. Where an
/// operator is expected, an operator that joins two operands is taken:
/// the operators on the stack with a rank not above its own are reduced,
/// then it is pushed; any other token ends the loop. The definition asks
/// that an operand takes a token and stays within the tokens; every operand
/// does.
pub open spec fn expr_loop(
    t: Seq<TokenSpec>,
    j: int,
    operands: Seq<Ast>,
    operators: Seq<ReservedSpec>,
    operand_expected: bool,
) -> ExprState
    decreases t.len() - j, 2int,
{
    if j < 0 || j >= t.len() {
        ExprState { operands, operators, operand_expected, next: j }
    } else if operand_expected {
        let p = prefix_end(t, j);
        let stop = ExprState { operands, operators, operand_expected: true, next: p };
        proof {
            lemma_prefix_end(t, j);
        }
        match operand_at(t, p) {
            Ok((Some(operand), k)) => if p < k <= t.len() {
                let q = postfix_end(t, k);
                proof {
                    lemma_postfix_end(t, k);
                }
                let wrapped = wrap_prefix(t, j, p, wrap_postfix(t, k, q, operand));
                expr_loop(t, q, operands.push(wrapped), operators, false)
            } else {
                stop
            },
            _ => stop,
        }
    } else if t[j].is_joining_operator() {
        let reduced = reduce_while(operands, operators, reserved_of(t[j]).rank());
        expr_loop(t, j + 1, reduced.0, reduced.1.push(reserved_of(t[j])), true)
    } else {
        ExprState { operands, operators, operand_expected: false, next: j }
    }
}

/// The expression that starts at `i`: operands joined by operators, grouped
/// by rank, operators of equal rank from the left.
pub open spec fn expr_at(t: Seq<TokenSpec>, i: int) -> Parsed<Ast>
    decreases t.len() - i, 3int,
{
    let end = expr_loop(t, i, Seq::empty(), Seq::empty(), true);
    if end.operand_expected {
        Err(expected("operand"@, token_at(t, end.next)))
    } else {
        Ok((reduce_all(end.operands, end.operators)[0], end.next))
    }
}

/// The expression in parentheses whose `(` stands at `i`.
pub open spec fn expr_parentheses_at(t: Seq<TokenSpec>, i: int) -> Parsed<Ast> {
    if has_char(t, i, '(') {
        match expr_at(t, i + 1) {
            Ok((inner, k)) => if has_char(t, k, ')') {
                Ok((inner, k + 1))
            } else {
                Err(expected("')'"@, token_at(t, k)))
            },
            Err(e) => Err(e),
        }
    } else {
        Err(expected("'('"@, token_at(t, i)))
    }
}

// Declarations

/// The type and the identifier behind it that start at `i`.
pub open spec fn type_identifier_at(t: Seq<TokenSpec>, i: int) -> Parsed<(Ast, Ast)> {
    match type_at(t, i) {
        Ok((type_found, k)) => if has_identifier(t, k) {
            Ok(((type_found, Ast::Identifier(t[k])), k + 1))
        } else {
            Err(ParseFailure { description: "Expected an identifier."@, token: token_at(t, k) })
        },
        Err(e) => Err(e),
    }
}

/// The rest of a non-empty argument list from `j` on, after the arguments
/// `arguments`: a typed identifier, then either a comma and more of the
/// same, or the closing `)`.
pub open spec fn arguments_from(t: Seq<TokenSpec>, j: int, arguments: Seq<(Ast, Ast)>) -> Parsed<
    Seq<(Ast, Ast)>,
>
    decreases t.len() - j,
{
    match type_identifier_at(t, j) {
        Ok((pair, k)) => if has_char(t, k, ',') {
            proof {
                lemma_type_advances(t, j);
            }
            arguments_from(t, k + 1, arguments.push(pair))
        } else if has_char(t, k, ')') {
            Ok((arguments.push(pair), k + 1))
        } else {
            Err(ParseFailure { description: "Expected ',' or ')'."@, token: token_at(t, k) })
        },
        Err(e) => Err(e),
    }
}

/// The argument list of a function whose `(` stands at `i`: typed
/// identifiers separated by commas, or nothing, up to the closing `)`.
pub open spec fn arg_list_at(t: Seq<TokenSpec>, i: int) -> Parsed<Seq<(Ast, Ast)>> {
    if !has_char(t, i, '(') {
        Err(ParseFailure { description: "Expected '('."@, token: token_at(t, i) })
    } else if has_char(t, i + 1, ')') {
        Ok((Seq::empty(), i + 2))
    } else {
        arguments_from(t, i + 1, Seq::empty())
    }
}

/// The declaration that starts at `i`: a type and an identifier, then an
/// argument list, which makes it a function without a body, or `=` with an
/// expression and `;`, or `;` alone, which make it a variable.
pub open spec fn decl_at(t: Seq<TokenSpec>, i: int) -> Parsed<Ast> {
    match type_identifier_at(t, i) {
        Err(e) => Err(e),
        Ok(((type_found, identifier), k)) => if has_char(t, k, '(') {
            match arg_list_at(t, k) {
                Ok((arguments, m)) => Ok(
                    (
                        Ast::Function {
                            return_type: Box::new(type_found),
                            identifier: Box::new(identifier),
                            arguments,
                            body: None,
                        },
                        m,
                    ),
                ),
                Err(e) => Err(e),
            }
        } else if has_operator(t, k, "="@) {
            match expr_at(t, k + 1) {
                Ok((value, m)) => if has_char(t, m, ';') {
                    Ok(
                        (
                            Ast::Variable {
                                type_of_var: Box::new(type_found),
                                identifier: Box::new(identifier),
                                value: Some(Box::new(value)),
                            },
                            m + 1,
                        ),
                    )
                } else {
                    Err(ParseFailure { description: "Expected ';'."@, token: token_at(t, m) })
                },
                Err(e) => Err(e),
            }
        } else if has_char(t, k, ';') {
            Ok(
                (
                    Ast::Variable {
                        type_of_var: Box::new(type_found),
                        identifier: Box::new(identifier),
                        value: None,
                    },
                    k + 1,
                ),
            )
        } else {
            Err(
                ParseFailure {
                    description: "Expected ';', '=' or '('."@,
                    token: token_at(t, i),
                },
            )
        },
    }
}

/// The index of the first `;` from `i` on, or the number of tokens.
pub open spec fn semicolon_token_from(t: Seq<TokenSpec>, i: int) -> int
    decreases t.len() - i,
{
    if 0 <= i < t.len() && !t[i].is_char(';') {
        semicolon_token_from(t, i + 1)
    } else if i < t.len() {
        i
    } else {
        t.len() as int
    }
}

/// Where parsing resumes after a failed declaration at `i`: behind the next
/// `;`, or at the end of the tokens.
pub open spec fn resume_after(t: Seq<TokenSpec>, i: int) -> int {
    let semicolon = semicolon_token_from(t, i);
    if semicolon < t.len() {
        semicolon + 1
    } else {
        t.len() as int
    }
}

/// The declarations and the errors that parsing from `i` on adds to those
/// collected so far. A declaration that fails adds its error, and parsing
/// resumes behind the next `;`.
pub open spec fn program_from(
    t: Seq<TokenSpec>,
    i: int,
    definitions: Seq<Ast>,
    errors: Seq<ParseFailure>,
) -> (Seq<Ast>, Seq<ParseFailure>)
    decreases t.len() - i,
{
    if i < 0 || i >= t.len() {
        (definitions, errors)
    } else {
        proof {
            lemma_decl_advances(t, i);
            lemma_semicolon_token(t, i);
        }
        match decl_at(t, i) {
            Ok((node, k)) => program_from(t, k, definitions.push(node), errors),
            Err(e) => program_from(t, resume_after(t, i), definitions, errors.push(e)),
        }
    }
}

/// The outcome of parsing the program `name` from `i` on: the program with
/// all its declarations if none failed, else all the errors in order.
pub open spec fn program_at(t: Seq<TokenSpec>, i: int, name: Seq<char>) -> Result<
    Ast,
    Seq<ParseFailure>,
> {
    let collected = program_from(t, i, Seq::empty(), Seq::empty());
    if collected.1.len() == 0 {
        Ok(Ast::Program { name, definitions: collected.0 })
    } else {
        Err(collected.1)
    }
}

// What the grammar consumes

/// The `static` keywords end at or behind where they start, within the
/// tokens.
pub proof fn lemma_static_end(t: Seq<TokenSpec>, i: int)
    ensures
        i <= static_end(t, i),
        i <= t.len() ==> static_end(t, i) <= t.len(),
    decreases t.len() - i,
{
    if has_keyword(t, i, "static"@) {
        lemma_static_end(t, i + 1);
    }
}

/// The qualifiers end at or behind where they start, within the tokens.
pub proof fn lemma_qualifiers(t: Seq<TokenSpec>, i: int, is_mut: bool, is_volatile: bool)
    ensures
        i <= qualifiers_from(t, i, is_mut, is_volatile).next,
        i <= t.len() ==> qualifiers_from(t, i, is_mut, is_volatile).next <= t.len(),
    decreases t.len() - i,
{
    if has_keyword(t, i, "mut"@) {
        lemma_qualifiers(t, i + 1, true, is_volatile);
    } else if has_keyword(t, i, "volatile"@) {
        lemma_qualifiers(t, i + 1, is_mut, true);
    }
}

proof fn lemma_pointers(t: Seq<TokenSpec>, i: int, base: Ast)
    requires
        0 <= i <= t.len(),
    ensures
        i <= pointers_from(t, i, base).1 <= t.len(),
    decreases t.len() - i,
{
    if has_operator(t, i, "*"@) {
        let q = qualifiers_from(t, i + 1, false, false);
        lemma_qualifiers(t, i + 1, false, false);
        lemma_pointers(t, q.next, pointer_to(base, q));
    }
}

/// A type takes at least one token and stays within the tokens.
pub proof fn lemma_type_advances(t: Seq<TokenSpec>, i: int)
    ensures
        type_at(t, i) matches Ok((_, k)) ==> 0 <= i < k <= t.len(),
    decreases t.len() - i, 2int,
{
    let s = static_end(t, i);
    lemma_static_end(t, i);
    let q = qualifiers_from(t, s, false, false);
    lemma_qualifiers(t, s, false, false);
    if has_identifier(t, q.next) {
        lemma_pointers(
            t,
            q.next + 1,
            Ast::Type {
                is_static: s > i,
                is_mut: q.is_mut,
                is_volatile: q.is_volatile,
                is_pointer: false,
                base: Box::new(Ast::Identifier(t[q.next])),
            },
        );
    } else if has_char(t, q.next, '(') {
        lemma_tuple_type_items_advance(t, q.next + 1, Seq::empty(), true);
        if let Ok((tuple, k)) = tuple_type_at(t, q.next) {
            lemma_pointers(t, k, tuple);
        }
    }
}

proof fn lemma_tuple_type_items_advance(
    t: Seq<TokenSpec>,
    j: int,
    items: Seq<Ast>,
    expect_type: bool,
)
    requires
        0 <= j <= t.len(),
    ensures
        tuple_type_items(t, j, items, expect_type) matches Ok((_, k)) ==> j < k <= t.len(),
    decreases t.len() - j, 3int,
{
    if has_char(t, j, ')') {
    } else if has_char(t, j, ',') {
        if !expect_type {
            lemma_tuple_type_items_advance(t, j + 1, items, true);
        }
    } else if expect_type {
        lemma_type_advances(t, j);
        if let Ok((node, k)) = type_at(t, j) {
            lemma_tuple_type_items_advance(t, k, items.push(node), false);
        }
    }
}

/// The prefix operators end at or behind where they start, within the
/// tokens, and each token up to there is a prefix operator.
pub proof fn lemma_prefix_end(t: Seq<TokenSpec>, i: int)
    requires
        0 <= i <= t.len(),
    ensures
        i <= prefix_end(t, i) <= t.len(),
        forall|n: int| i <= n < prefix_end(t, i) ==> (#[trigger] t[n]).is_prefix_operator(),
    decreases t.len() - i,
{
    if i < t.len() && t[i].is_prefix_operator() {
        lemma_prefix_end(t, i + 1);
    }
}

/// The postfix operators end at or behind where they start, within the
/// tokens, and each token up to there is a postfix operator.
pub proof fn lemma_postfix_end(t: Seq<TokenSpec>, i: int)
    requires
        0 <= i <= t.len(),
    ensures
        i <= postfix_end(t, i) <= t.len(),
        forall|n: int| i <= n < postfix_end(t, i) ==> (#[trigger] t[n]).is_postfix_operator(),
    decreases t.len() - i,
{
    if i < t.len() && t[i].is_postfix_operator() {
        lemma_postfix_end(t, i + 1);
    }
}

/// Reducing keeps one operand more than operators.
proof fn lemma_reduce_while(operands: Seq<Ast>, operators: Seq<ReservedSpec>, rank: u32)
    requires
        operands.len() == operators.len() + 1,
    ensures
        reduce_while(operands, operators, rank).0.len() == reduce_while(
            operands,
            operators,
            rank,
        ).1.len() + 1,
    decreases operators.len(),
{
    if operators.len() > 0 && operators.last().rank() <= rank {
        lemma_reduce_while(reduce_once(operands, operators.last()), operators.drop_last(), rank);
    }
}

/// Reducing all operators leaves exactly one operand.
proof fn lemma_reduce_all(operands: Seq<Ast>, operators: Seq<ReservedSpec>)
    requires
        operands.len() == operators.len() + 1,
    ensures
        reduce_all(operands, operators).len() == 1,
    decreases operators.len(),
{
    if operators.len() > 0 {
        lemma_reduce_all(reduce_once(operands, operators.last()), operators.drop_last());
    }
}

/// The loop of the expression engine never moves back, stays within the
/// tokens, and ends with one operand more than operators unless an operand
/// is still expected.
proof fn lemma_expr_loop(
    t: Seq<TokenSpec>,
    j: int,
    operands: Seq<Ast>,
    operators: Seq<ReservedSpec>,
    operand_expected: bool,
)
    requires
        0 <= j <= t.len(),
        operands.len() == operators.len() + if operand_expected {
            0int
        } else {
            1int
        },
    ensures
        ({
            let end = expr_loop(t, j, operands, operators, operand_expected);
            &&& j <= end.next <= t.len()
            &&& !end.operand_expected ==> end.operands.len() == end.operators.len() + 1
            &&& operand_expected && !end.operand_expected ==> j < end.next
        }),
    decreases t.len() - j, 2int,
{
    if j < t.len() {
        if operand_expected {
            let p = prefix_end(t, j);
            lemma_prefix_end(t, j);
            lemma_operand_advances(t, p);
            if let Ok((Some(operand), k)) = operand_at(t, p) {
                let q = postfix_end(t, k);
                lemma_postfix_end(t, k);
                let wrapped = wrap_prefix(t, j, p, wrap_postfix(t, k, q, operand));
                lemma_expr_loop(t, q, operands.push(wrapped), operators, false);
            }
        } else if t[j].is_joining_operator() {
            let rank = reserved_of(t[j]).rank();
            lemma_reduce_while(operands, operators, rank);
            let reduced = reduce_while(operands, operators, rank);
            lemma_expr_loop(t, j + 1, reduced.0, reduced.1.push(reserved_of(t[j])), true);
        }
    }
}

proof fn lemma_operand_advances(t: Seq<TokenSpec>, i: int)
    requires
        0 <= i <= t.len(),
    ensures
        operand_at(t, i) matches Ok((Some(_), k)) ==> i < k <= t.len(),
        operand_at(t, i) matches Ok((None, k)) ==> k == i,
    decreases t.len() - i, 1int,
{
    if i < t.len() && t[i] is Identifier && has_char(t, i + 1, '(') {
        lemma_tuple_expr_items_advance(t, i + 2, Seq::empty(), true);
    }
}

proof fn lemma_tuple_expr_items_advance(
    t: Seq<TokenSpec>,
    j: int,
    items: Seq<Ast>,
    expect_expr: bool,
)
    requires
        0 <= j <= t.len(),
    ensures
        tuple_expr_items(t, j, items, expect_expr) matches Ok((_, k)) ==> j < k <= t.len(),
    decreases t.len() - j, 4int,
{
    if has_char(t, j, ')') {
    } else if has_char(t, j, ',') {
        if !expect_expr {
            lemma_tuple_expr_items_advance(t, j + 1, items, true);
        }
    } else if expect_expr {
        lemma_expr_advances(t, j);
        if let Ok((argument, k)) = expr_at(t, j) {
            lemma_tuple_expr_items_advance(t, k, items.push(argument), false);
        }
    }
}

/// An expression takes at least one token and stays within the tokens.
pub proof fn lemma_expr_advances(t: Seq<TokenSpec>, i: int)
    requires
        0 <= i <= t.len(),
    ensures
        expr_at(t, i) matches Ok((_, k)) ==> i < k <= t.len(),
    decreases t.len() - i, 3int,
{
    lemma_expr_loop(t, i, Seq::empty(), Seq::empty(), true);
}

/// A declaration takes at least one token and stays within the tokens.
pub proof fn lemma_decl_advances(t: Seq<TokenSpec>, i: int)
    ensures
        decl_at(t, i) matches Ok((_, k)) ==> 0 <= i < k <= t.len(),
{
    lemma_type_advances(t, i);
    if let Ok((pair, k)) = type_identifier_at(t, i) {
        if has_char(t, k, '(') {
            if !has_char(t, k + 1, ')') {
                lemma_arguments_advance(t, k + 1, Seq::empty());
            }
        } else if has_operator(t, k, "="@) {
            lemma_expr_advances(t, k + 1);
        }
    }
}

proof fn lemma_arguments_advance(t: Seq<TokenSpec>, j: int, arguments: Seq<(Ast, Ast)>)
    requires
        0 <= j <= t.len(),
    ensures
        arguments_from(t, j, arguments) matches Ok((_, k)) ==> j < k <= t.len(),
    decreases t.len() - j,
{
    lemma_type_advances(t, j);
    if let Ok((pair, k)) = type_identifier_at(t, j) {
        if has_char(t, k, ',') {
            lemma_arguments_advance(t, k + 1, arguments.push(pair));
        }
    }
}

/// The next `;` stands at or behind where the search starts, within the
/// tokens.
pub proof fn lemma_semicolon_token(t: Seq<TokenSpec>, i: int)
    requires
        0 <= i <= t.len(),
    ensures
        i <= semicolon_token_from(t, i) <= t.len(),
    decreases t.len() - i,
{
    if i < t.len() && !t[i].is_char(';') {
        lemma_semicolon_token(t, i + 1);
    }
}

// What a program collects

/// Nothing collected is dropped: what parsing goes on to collect begins
/// with the declarations and the errors collected so far.
pub proof fn lemma_collected_is_kept(
    t: Seq<TokenSpec>,
    i: int,
    definitions: Seq<Ast>,
    errors: Seq<ParseFailure>,
)
    ensures
        ({
            let collected = program_from(t, i, definitions, errors);
            &&& definitions.len() <= collected.0.len()
            &&& collected.0.subrange(0, definitions.len() as int) == definitions
            &&& errors.len() <= collected.1.len()
            &&& collected.1.subrange(0, errors.len() as int) == errors
        }),
    decreases t.len() - i,
{
    let collected = program_from(t, i, definitions, errors);
    if 0 <= i < t.len() {
        lemma_decl_advances(t, i);
        lemma_semicolon_token(t, i);
        match decl_at(t, i) {
            Ok((node, k)) => {
                lemma_collected_is_kept(t, k, definitions.push(node), errors);
                assert(collected.0.subrange(0, definitions.len() as int)
                    =~= collected.0.subrange(0, definitions.len() as int + 1).subrange(
                    0,
                    definitions.len() as int,
                ));
                assert(definitions.push(node).subrange(0, definitions.len() as int)
                    =~= definitions);
            },
            Err(e) => {
                lemma_collected_is_kept(t, resume_after(t, i), definitions, errors.push(e));
                assert(collected.1.subrange(0, errors.len() as int) =~= collected.1.subrange(
                    0,
                    errors.len() as int + 1,
                ).subrange(0, errors.len() as int));
                assert(errors.push(e).subrange(0, errors.len() as int) =~= errors);
            },
        }
    } else {
        assert(collected.0.subrange(0, definitions.len() as int) =~= definitions);
        assert(collected.1.subrange(0, errors.len() as int) =~= errors);
    }
}

/// A declaration that fails makes the whole parse fail, with its error the
/// first one if it is the first declaration.
pub proof fn lemma_failed_declaration_fails_the_parse(t: Seq<TokenSpec>, name: Seq<char>)
    requires
        t.len() > 0,
        decl_at(t, 0) is Err,
    ensures
        program_at(t, 0, name) matches Err(errors) && errors.len() >= 1 && Err::<
            (Ast, int),
            ParseFailure,
        >(errors[0]) == decl_at(t, 0),
{
    let e = decl_at(t, 0)->Err_0;
    lemma_semicolon_token(t, 0);
    lemma_collected_is_kept(t, resume_after(t, 0), Seq::empty(), Seq::<ParseFailure>::empty().push(e));
    let collected = program_from(t, 0, Seq::empty(), Seq::empty());
    assert(collected.1.subrange(0, 1)[0] == collected.1[0]);
}

// How pointers nest

/// The type of the identifier at `i` alone, without qualifiers.
pub open spec fn plain_type(t: Seq<TokenSpec>, i: int) -> Ast {
    Ast::Type {
        is_static: false,
        is_mut: false,
        is_volatile: false,
        is_pointer: false,
        base: Box::new(Ast::Identifier(t[i])),
    }
}

/// Pointers nest in the order written, each with the qualifiers behind its
/// own `*`: of two `*` behind a type name the first makes the inner pointer,
/// around the name, and the second the outer one, around the first.
pub proof fn lemma_pointers_nest(t: Seq<TokenSpec>, i: int)
    requires
        has_identifier(t, i),
        has_operator(t, i + 1, "*"@),
        has_operator(t, qualifiers_from(t, i + 2, false, false).next, "*"@),
        !has_operator(
            t,
            qualifiers_from(
                t,
                qualifiers_from(t, i + 2, false, false).next + 1,
                false,
                false,
            ).next,
            "*"@,
        ),
    ensures
        ({
            let inner = qualifiers_from(t, i + 2, false, false);
            let outer = qualifiers_from(t, inner.next + 1, false, false);
            type_at(t, i) == Ok::<(Ast, int), ParseFailure>(
                (pointer_to(pointer_to(plain_type(t, i), inner), outer), outer.next),
            )
        }),
{
    let inner = qualifiers_from(t, i + 2, false, false);
    let outer = qualifiers_from(t, inner.next + 1, false, false);
    let first = pointer_to(plain_type(t, i), inner);
    assert(pointers_from(t, outer.next, pointer_to(first, outer)) == (
        pointer_to(first, outer),
        outer.next,
    ));
    assert(pointers_from(t, inner.next, first) == pointers_from(
        t,
        outer.next,
        pointer_to(first, outer),
    ));
    assert(pointers_from(t, i + 1, plain_type(t, i)) == pointers_from(t, inner.next, first));
}

// How operators group

/// Whether a term stands from `j` up to `k` and has the tree `node`: prefix
/// operators, one operand and postfix operators, the operand wrapped by
/// them.
pub open spec fn is_term(t: Seq<TokenSpec>, j: int, node: Ast, k: int) -> bool {
    let p = prefix_end(t, j);
    &&& 0 <= j < t.len()
    &&& operand_at(t, p) matches Ok((Some(operand), m))
    &&& k == postfix_end(t, m)
    &&& node == wrap_prefix(t, j, p, wrap_postfix(t, m, k, operand))
}

/// Whether an operator that joins two operands stands at `j`.
pub open spec fn is_joint(t: Seq<TokenSpec>, j: int) -> bool {
    0 <= j < t.len() && t[j].is_joining_operator()
}

/// The tree of `operator` between `left` and `right`.
pub open spec fn joined(operator: ReservedSpec, left: Ast, right: Ast) -> Ast {
    Ast::BinaryOperation(operator, Box::new(left), Box::new(right))
}

/// Where an operand is expected and a term stands, the loop of the
/// expression engine pushes the term and goes on behind it.
proof fn lemma_term_step(
    t: Seq<TokenSpec>,
    j: int,
    operands: Seq<Ast>,
    operators: Seq<ReservedSpec>,
    node: Ast,
    k: int,
)
    requires
        is_term(t, j, node, k),
    ensures
        j < k <= t.len(),
        expr_loop(t, j, operands, operators, true) == expr_loop(
            t,
            k,
            operands.push(node),
            operators,
            false,
        ),
{
    let p = prefix_end(t, j);
    lemma_prefix_end(t, j);
    lemma_operand_advances(t, p);
    if let Ok((Some(operand), m)) = operand_at(t, p) {
        lemma_postfix_end(t, m);
    }
}

/// One operand alone is an expression.
pub proof fn lemma_single_term(t: Seq<TokenSpec>, i: int, a: Ast, k: int)
    requires
        is_term(t, i, a, k),
        !is_joint(t, k),
    ensures
        expr_at(t, i) == Ok::<(Ast, int), ParseFailure>((a, k)),
{
    let none = Seq::<Ast>::empty();
    let no_operators = Seq::<ReservedSpec>::empty();
    lemma_term_step(t, i, none, no_operators, a, k);
    assert(expr_loop(t, k, none.push(a), no_operators, false) == (ExprState {
        operands: none.push(a),
        operators: no_operators,
        operand_expected: false,
        next: k,
    }));
}

/// Two operands and the operator between them make one tree.
pub proof fn lemma_one_operator(t: Seq<TokenSpec>, i: int, a: Ast, k1: int, b: Ast, k2: int)
    requires
        is_term(t, i, a, k1),
        is_joint(t, k1),
        is_term(t, k1 + 1, b, k2),
        !is_joint(t, k2),
    ensures
        expr_at(t, i) == Ok::<(Ast, int), ParseFailure>((joined(reserved_of(t[k1]), a, b), k2)),
{
    let none = Seq::<Ast>::empty();
    let no_operators = Seq::<ReservedSpec>::empty();
    let o1 = reserved_of(t[k1]);
    lemma_term_step(t, i, none, no_operators, a, k1);
    let s1 = none.push(a);
    assert(reduce_while(s1, no_operators, o1.rank()) == (s1, no_operators));
    let r1 = no_operators.push(o1);
    assert(expr_loop(t, k1, s1, no_operators, false) == expr_loop(t, k1 + 1, s1, r1, true));
    lemma_term_step(t, k1 + 1, s1, r1, b, k2);
    let s2 = s1.push(b);
    assert(expr_loop(t, k2, s2, r1, false) == (ExprState {
        operands: s2,
        operators: r1,
        operand_expected: false,
        next: k2,
    }));
    assert(r1.drop_last() =~= no_operators);
    assert(reduce_once(s2, o1) =~= none.push(joined(o1, a, b)));
    assert(reduce_all(s2, r1) == reduce_all(reduce_once(s2, o1), r1.drop_last()));
    assert(reduce_all(none.push(joined(o1, a, b)), no_operators) == none.push(joined(o1, a, b)));
}

/// Of two operators in a row the ranks decide the grouping: the first one
/// takes its two operands unless the second one binds tighter, that is,
/// has the lower rank. With equal ranks the grouping is from the left.
pub proof fn lemma_rank_decides_grouping(
    t: Seq<TokenSpec>,
    i: int,
    a: Ast,
    k1: int,
    b: Ast,
    k2: int,
    c: Ast,
    k3: int,
)
    requires
        is_term(t, i, a, k1),
        is_joint(t, k1),
        is_term(t, k1 + 1, b, k2),
        is_joint(t, k2),
        is_term(t, k2 + 1, c, k3),
        !is_joint(t, k3),
    ensures
        expr_at(t, i) == Ok::<(Ast, int), ParseFailure>(
            (
                if reserved_of(t[k1]).rank() <= reserved_of(t[k2]).rank() {
                    joined(reserved_of(t[k2]), joined(reserved_of(t[k1]), a, b), c)
                } else {
                    joined(reserved_of(t[k1]), a, joined(reserved_of(t[k2]), b, c))
                },
                k3,
            ),
        ),
{
    let none = Seq::<Ast>::empty();
    let no_operators = Seq::<ReservedSpec>::empty();
    let o1 = reserved_of(t[k1]);
    let o2 = reserved_of(t[k2]);
    lemma_term_step(t, i, none, no_operators, a, k1);
    let s1 = none.push(a);
    assert(reduce_while(s1, no_operators, o1.rank()) == (s1, no_operators));
    let r1 = no_operators.push(o1);
    assert(expr_loop(t, k1, s1, no_operators, false) == expr_loop(t, k1 + 1, s1, r1, true));
    lemma_term_step(t, k1 + 1, s1, r1, b, k2);
    let s2 = s1.push(b);
    assert(r1.drop_last() =~= no_operators);
    assert(reduce_once(s2, o1) =~= none.push(joined(o1, a, b)));
    if o1.rank() <= o2.rank() {
        let s3 = none.push(joined(o1, a, b));
        assert(reduce_while(s3, no_operators, o2.rank()) == (s3, no_operators));
        assert(reduce_while(s2, r1, o2.rank()) == reduce_while(
            reduce_once(s2, o1),
            r1.drop_last(),
            o2.rank(),
        ));
        let r2 = no_operators.push(o2);
        assert(expr_loop(t, k2, s2, r1, false) == expr_loop(t, k2 + 1, s3, r2, true));
        lemma_term_step(t, k2 + 1, s3, r2, c, k3);
        let s4 = s3.push(c);
        assert(expr_loop(t, k3, s4, r2, false) == (ExprState {
            operands: s4,
            operators: r2,
            operand_expected: false,
            next: k3,
        }));
        let last = none.push(joined(o2, joined(o1, a, b), c));
        assert(r2.drop_last() =~= no_operators);
        assert(reduce_once(s4, o2) =~= last);
        assert(reduce_all(s4, r2) == reduce_all(reduce_once(s4, o2), r2.drop_last()));
        assert(reduce_all(last, no_operators) == last);
    } else {
        assert(reduce_while(s2, r1, o2.rank()) == (s2, r1));
        let r2 = r1.push(o2);
        assert(expr_loop(t, k2, s2, r1, false) == expr_loop(t, k2 + 1, s2, r2, true));
        lemma_term_step(t, k2 + 1, s2, r2, c, k3);
        let s3 = s2.push(c);
        assert(expr_loop(t, k3, s3, r2, false) == (ExprState {
            operands: s3,
            operators: r2,
            operand_expected: false,
            next: k3,
        }));
        let s4 = s1.push(joined(o2, b, c));
        let last = none.push(joined(o1, a, joined(o2, b, c)));
        assert(r2.drop_last() =~= r1);
        assert(reduce_once(s3, o2) =~= s4);
        assert(reduce_all(s3, r2) == reduce_all(reduce_once(s3, o2), r2.drop_last()));
        assert(reduce_once(s4, o1) =~= last);
        assert(reduce_all(s4, r1) == reduce_all(reduce_once(s4, o1), r1.drop_last()));
        assert(reduce_all(last, no_operators) == last);
    }
}

// The parser

/// The reserved tokens of a list as mathematical values.
pub open spec fn reserved_models(operators: Seq<&ReservedToken>) -> Seq<ReservedSpec> {
    Seq::new(operators.len(), |i: int| operators[i]@)
}

/// Whether a parser returned the argument list that `parsed` says, with the
/// cursor where it says.
pub open spec fn list_outcome(
    result: Result<Vec<Box<ASTNode>>, ParserError>,
    parsed: Parsed<Seq<Ast>>,
    before: int,
    after: int,
) -> bool {
    match parsed {
        Ok((items, k)) => result matches Ok(nodes) && boxed_models(nodes@) == items && after == k,
        Err(failure) => result matches Err(e) && e@ == failure && after == before,
    }
}

/// Whether a parser returned the operand that `parsed` says, with the cursor
/// where it says.
pub open spec fn operand_outcome(
    result: Result<Option<Box<ASTNode>>, ParserError>,
    parsed: Parsed<Option<Ast>>,
    before: int,
    after: int,
) -> bool {
    match parsed {
        Ok((Some(ast), k)) => result matches Ok(Some(node)) && node.model() == ast && after == k,
        Ok((None, k)) => result matches Ok(None) && after == k,
        Err(failure) => result matches Err(e) && e@ == failure && after == before,
    }
}

/// Whether a parser returned the typed identifier that `parsed` says, with
/// the cursor where it says.
pub open spec fn pair_outcome(
    result: Result<(Box<ASTNode>, Box<ASTNode>), ParserError>,
    parsed: Parsed<(Ast, Ast)>,
    before: int,
    after: int,
) -> bool {
    match parsed {
        Ok((pair, k)) => result matches Ok(found) && found.0.model() == pair.0 && found.1.model()
            == pair.1 && after == k,
        Err(failure) => result matches Err(e) && e@ == failure && after == before,
    }
}

/// Whether a parser returned the typed identifiers that `parsed` says, with
/// the cursor where it says.
pub open spec fn pairs_outcome(
    result: Result<Vec<TypeVarPair>, ParserError>,
    parsed: Parsed<Seq<(Ast, Ast)>>,
    before: int,
    after: int,
) -> bool {
    match parsed {
        Ok((pairs, k)) => result matches Ok(found) && pair_models(found@) == pairs && after == k,
        Err(failure) => result matches Err(e) && e@ == failure && after == before,
    }
}

/// The errors of a list as mathematical values.
pub open spec fn error_models(errors: Seq<ParserError>) -> Seq<ParseFailure> {
    Seq::new(errors.len(), |i: int| errors[i]@)
}

/// Whether `parse` returned what `outcome` says: the program, or the
/// errors.
pub open spec fn program_outcome(
    result: Result<ASTNode, Vec<ParserError>>,
    outcome: Result<Ast, Seq<ParseFailure>>,
) -> bool {
    match outcome {
        Ok(ast) => result matches Ok(node) && node.model() == ast,
        Err(failures) => result matches Err(errors) && error_models(errors@) == failures,
    }
}

/// The rank of an operator that joins two operands.
fn rank_of(operator: &ReservedToken) -> (rank: u32)
    requires
        operator@.is_joining_operator(),
        operator@.well_formed(),
    ensures
        rank == operator@.rank(),
{
    match operator {
        ReservedToken::Operator(_, info) => match info.precedence {
            Some(rank) => rank,
            None => 0,
        },
        _ => 0,
    }
}

/// The operator inside a token, if the token is one for which `postfix`
/// asks: a postfix operator, or else a prefix operator.
fn unary_operator<'a, 'b>(token: &'a Token<'b>, postfix: bool) -> (operator: Option<
    &'a ReservedToken<'b>,
>)
    ensures
        match operator {
            Some(found) => found@ == reserved_of(token@) && token@ is Reserved,
            None => true,
        },
        operator is Some <==> if postfix {
            token@.is_postfix_operator()
        } else {
            token@.is_prefix_operator()
        },
{
    match token {
        Token::Reserved(reserved_token) => match reserved_token {
            ReservedToken::Operator(_, info) => {
                let wanted = if postfix {
                    info.is_postfix
                } else {
                    info.is_prefix
                };
                if wanted {
                    Some(*reserved_token)
                } else {
                    None
                }
            },
            _ => None,
        },
        _ => None,
    }
}

/// The operator inside a token, if it is one that joins two operands.
fn joining_operator<'a, 'b>(token: &'a Token<'b>) -> (operator: Option<&'a ReservedToken<'b>>)
    ensures
        match operator {
            Some(found) => found@ == reserved_of(token@) && token@ is Reserved,
            None => true,
        },
        operator is Some <==> token@.is_joining_operator(),
{
    match token {
        Token::Reserved(reserved_token) => match reserved_token {
            ReservedToken::Operator(_, info) => {
                if info.is_binary || info.is_ternary {
                    Some(*reserved_token)
                } else {
                    None
                }
            },
            _ => None,
        },
        _ => None,
    }
}

/// Whether the token is the punctuation character `c`.
fn token_is_char(token: &Token, c: char) -> (same: bool)
    ensures
        same == token@.is_char(c),
{
    match token {
        Token::Reserved(ReservedToken::Char(found)) => *found == c,
        _ => false,
    }
}

/// Whether the token is the keyword `name`.
fn token_is_keyword(token: &Token, name: &str) -> (same: bool)
    ensures
        same == token@.is_keyword(name@),
{
    match token {
        Token::Reserved(ReservedToken::Keyword(found)) => text_eq(found, name),
        _ => false,
    }
}

/// Whether the token is the operator `symbol`.
fn token_is_operator(token: &Token, symbol: &str) -> (same: bool)
    ensures
        same == token@.is_operator(symbol@),
{
    match token {
        Token::Reserved(ReservedToken::Operator(found, _)) => text_eq(found, symbol),
        _ => false,
    }
}

/// Whether a parser returned what `parsed` says, with the cursor where it
/// says: behind what was consumed, or where it was before a failure.
pub open spec fn node_outcome(
    result: Result<Box<ASTNode>, ParserError>,
    parsed: Parsed<Ast>,
    before: int,
    after: int,
) -> bool {
    match parsed {
        Ok((ast, k)) => result matches Ok(node) && node.model() == ast && after == k,
        Err(failure) => result matches Err(e) && e@ == failure && after == before,
    }
}

/// The parser: a cursor in a list of tokens.
pub struct Parser<'a, 'b> {
    program_name: String,
    token_idx: usize,
    tokens: Vec<&'a Token<'b>>,
}

impl<'a, 'b> Parser<'a, 'b> {
    #[verifier::type_invariant]
    spec fn consistent(self) -> bool {
        &&& self.token_idx <= self.tokens@.len()
        &&& forall|i: int|
            0 <= i < self.tokens@.len() ==> (#[trigger] self.tokens@[i])@.well_formed()
    }

    /// The tokens that are parsed.
    pub closed spec fn tokens(&self) -> Seq<TokenSpec> {
        token_models(self.tokens@)
    }

    /// How many tokens the cursor has passed.
    pub closed spec fn index(&self) -> int {
        self.token_idx as int
    }

    /// The name of the program that is parsed.
    pub closed spec fn name(&self) -> Seq<char> {
        self.program_name@
    }

    /// Whether nothing but the cursor differs between two states.
    pub open spec fn same_input(&self, other: &Self) -> bool {
        self.tokens() == other.tokens() && self.name() == other.name()
    }

    /// A parser at the first of `tokens`. Every operator among them that may
    /// stand between two operands must have a rank.
    pub fn new(program_name: String, tokens: Vec<&'a Token<'b>>) -> (parser: Parser<'a, 'b>)
        requires
            forall|i: int| 0 <= i < tokens@.len() ==> (#[trigger] tokens@[i])@.well_formed(),
        ensures
            parser.tokens() == token_models(tokens@),
            parser.name() == program_name@,
            parser.index() == 0,
    {
        Parser { program_name, token_idx: 0, tokens }
    }

    /// The token under the cursor, if there is one.
    fn peek(&self) -> (token: Option<&'a Token<'b>>)
        ensures
            optional_token(token) == token_at(self.tokens(), self.index()),
            token is Some ==> token.unwrap()@.well_formed(),
            0 <= self.index() <= self.tokens().len(),
    {
        proof {
            use_type_invariant(self);
        }
        if self.token_idx < self.tokens.len() {
            return Some(self.tokens[self.token_idx]);
        }
        None
    }

    /// Moves the cursor over one token, if there is one.
    fn consume(&mut self)
        ensures
            final(self).same_input(old(self)),
            final(self).index() == if old(self).index() < old(self).tokens().len() {
                old(self).index() + 1
            } else {
                old(self).index()
            },
    {
        proof {
            use_type_invariant(&*self);
        }
        if self.token_idx < self.tokens.len() {
            self.token_idx += 1;
        }
    }

    /// Where the cursor stands.
    fn mark(&self) -> (idx: usize)
        ensures
            idx == self.index(),
            idx <= self.tokens().len(),
    {
        proof {
            use_type_invariant(self);
        }
        self.token_idx
    }

    /// Puts the cursor back to `idx`.
    fn restore(&mut self, idx: usize)
        requires
            idx <= old(self).tokens().len(),
        ensures
            final(self).same_input(old(self)),
            final(self).index() == idx,
    {
        proof {
            use_type_invariant(&*self);
        }
        self.token_idx = idx;
    }

    /// The error that reports a missing `expected_item`.
    fn generate_expect_error(expected_item: &str, token: Option<&'a Token<'b>>) -> (error:
        ParserError<'a, 'b>)
        ensures
            error@ == expected(expected_item@, optional_token(token)),
    {
        let mut description = String::from_str("Expected ");
        description.append(expected_item);
        description.append(".");
        ParserError::new(description, token)
    }

    /// Takes the keyword `keyword` if it stands under the cursor.
    fn parse_keyword(&mut self, keyword: &str) -> (token: Option<&'a Token<'b>>)
        ensures
            final(self).same_input(old(self)),
            if has_keyword(old(self).tokens(), old(self).index(), keyword@) {
                &&& optional_token(token) == token_at(old(self).tokens(), old(self).index())
                &&& token is Some
                &&& final(self).index() == old(self).index() + 1
            } else {
                &&& token is None
                &&& final(self).index() == old(self).index()
            },
    {
        match self.peek() {
            Some(token) => {
                if token_is_keyword(token, keyword) {
                    self.consume();
                    return Some(token);
                }
                None
            },
            None => None,
        }
    }

    /// Takes the `static` keywords under the cursor; tells whether there was
    /// one.
    fn parse_static(&mut self) -> (is_static: bool)
        ensures
            final(self).same_input(old(self)),
            final(self).index() == static_end(old(self).tokens(), old(self).index()),
            is_static == (final(self).index() > old(self).index()),
            old(self).index() <= final(self).index() <= old(self).tokens().len(),
    {
        let ghost t = self.tokens();
        let ghost from = self.index();
        let mut is_static = false;
        proof {
            use_type_invariant(&*self);
        }
        loop
            invariant_except_break
                static_end(t, from) == static_end(t, self.index()),
            invariant
                self.tokens() == t,
                self.name() == old(self).name(),
                from <= self.index() <= t.len(),
                is_static == (self.index() > from),
            ensures
                self.index() == static_end(t, from),
            decreases t.len() - self.index(),
        {
            if self.parse_keyword("static").is_some() {
                is_static = true;
            } else {
                break ;
            }
        }
        is_static
    }

    /// Takes the qualifiers `mut` and `volatile` under the cursor; tells
    /// which of them there were.
    fn parse_type_qualifiers(&mut self) -> (found: (bool, bool))
        ensures
            final(self).same_input(old(self)),
            (Qualifiers { is_mut: found.0, is_volatile: found.1, next: final(self).index() })
                == qualifiers_from(old(self).tokens(), old(self).index(), false, false),
            old(self).index() <= final(self).index() <= old(self).tokens().len(),
    {
        let ghost t = self.tokens();
        let ghost from = self.index();
        let mut is_mut = false;
        let mut is_volatile = false;
        proof {
            use_type_invariant(&*self);
        }
        loop
            invariant_except_break
                qualifiers_from(t, from, false, false) == qualifiers_from(
                    t,
                    self.index(),
                    is_mut,
                    is_volatile,
                ),
            invariant
                self.tokens() == t,
                self.name() == old(self).name(),
                from <= self.index() <= t.len(),
            ensures
                qualifiers_from(t, from, false, false) == (Qualifiers {
                    is_mut,
                    is_volatile,
                    next: self.index(),
                }),
            decreases t.len() - self.index(),
        {
            match self.peek() {
                Some(token) => {
                    if token_is_keyword(token, "mut") {
                        is_mut = true;
                    } else if token_is_keyword(token, "volatile") {
                        is_volatile = true;
                    } else {
                        break ;
                    }
                },
                None => {
                    break ;
                },
            }
            self.consume();
        }
        (is_mut, is_volatile)
    }

    /// The identifier under the cursor, if one stands there.
    fn peek_identifier(&self) -> (token: Option<&'a Token<'b>>)
        ensures
            if has_identifier(self.tokens(), self.index()) {
                token is Some && token.unwrap()@ == self.tokens()[self.index()]
            } else {
                token is None
            },
    {
        match self.peek() {
            Some(token) => match token {
                Token::Identifier(_) => Some(token),
                _ => None,
            },
            None => None,
        }
    }

    /// Takes the prefix operators under the cursor.
    fn parse_prefix_operators(&mut self) -> (operators: Vec<&'a ReservedToken<'b>>)
        ensures
            final(self).same_input(old(self)),
            final(self).index() == prefix_end(old(self).tokens(), old(self).index()),
            operators@.len() == final(self).index() - old(self).index(),
            forall|n: int|
                0 <= n < operators@.len() ==> (#[trigger] operators@[n])@ == reserved_of(
                    old(self).tokens()[old(self).index() + n],
                ),
    {
        let ghost t = self.tokens();
        let ghost from = self.index();
        let mut prefix_operators: Vec<&'a ReservedToken<'b>> = Vec::new();
        proof {
            use_type_invariant(&*self);
        }
        loop
            invariant_except_break
                prefix_end(t, from) == prefix_end(t, self.index()),
            invariant
                self.tokens() == t,
                self.name() == old(self).name(),
                from <= self.index() <= t.len(),
                prefix_operators@.len() == self.index() - from,
                forall|n: int|
                    0 <= n < prefix_operators@.len() ==> (#[trigger] prefix_operators@[n])@
                        == reserved_of(t[from + n]),
            ensures
                self.index() == prefix_end(t, from),
            decreases t.len() - self.index(),
        {
            match self.peek() {
                Some(token) => match unary_operator(token, false) {
                    Some(operator) => {
                        prefix_operators.push(operator);
                    },
                    None => {
                        break ;
                    },
                },
                None => {
                    break ;
                },
            }
            self.consume();
        }
        prefix_operators
    }

    /// Takes the postfix operators under the cursor.
    fn parse_postfix_operators(&mut self) -> (operators: Vec<&'a ReservedToken<'b>>)
        ensures
            final(self).same_input(old(self)),
            final(self).index() == postfix_end(old(self).tokens(), old(self).index()),
            operators@.len() == final(self).index() - old(self).index(),
            forall|n: int|
                0 <= n < operators@.len() ==> (#[trigger] operators@[n])@ == reserved_of(
                    old(self).tokens()[old(self).index() + n],
                ),
    {
        let ghost t = self.tokens();
        let ghost from = self.index();
        let mut postfix_operators: Vec<&'a ReservedToken<'b>> = Vec::new();
        proof {
            use_type_invariant(&*self);
        }
        loop
            invariant_except_break
                postfix_end(t, from) == postfix_end(t, self.index()),
            invariant
                self.tokens() == t,
                self.name() == old(self).name(),
                from <= self.index() <= t.len(),
                postfix_operators@.len() == self.index() - from,
                forall|n: int|
                    0 <= n < postfix_operators@.len() ==> (#[trigger] postfix_operators@[n])@
                        == reserved_of(t[from + n]),
            ensures
                self.index() == postfix_end(t, from),
            decreases t.len() - self.index(),
        {
            match self.peek() {
                Some(token) => match unary_operator(token, true) {
                    Some(operator) => {
                        postfix_operators.push(operator);
                    },
                    None => {
                        break ;
                    },
                },
                None => {
                    break ;
                },
            }
            self.consume();
        }
        postfix_operators
    }

    /// Parses the arguments of a call: a `(`, expressions separated by
    /// commas, or none, and a `)`.
    fn parse_tuple_expr(&mut self) -> (result: Result<
        Vec<Box<ASTNode<'a, 'b>>>,
        ParserError<'a, 'b>,
    >)
        ensures
            final(self).same_input(old(self)),
            list_outcome(
                result,
                tuple_expr_at(old(self).tokens(), old(self).index()),
                old(self).index(),
                final(self).index(),
            ),
        decreases old(self).tokens().len() - old(self).index(), 0int,
    {
        let ghost t = self.tokens();
        let ghost from = self.index();
        let last_idx = self.mark();
        match self.peek() {
            Some(token) => {
                if token_is_char(token, '(') {
                    self.consume();
                } else {
                    return Err(Self::generate_expect_error("'('", self.peek()));
                }
            },
            None => {
                return Err(Self::generate_expect_error("'('", self.peek()));
            },
        }
        let mut arguments: Vec<Box<ASTNode<'a, 'b>>> = Vec::new();
        let mut expect_expr = true;
        assert(boxed_models(arguments@) =~= Seq::empty());
        loop
            invariant_except_break
                tuple_expr_at(t, from) == tuple_expr_items(
                    t,
                    self.index(),
                    boxed_models(arguments@),
                    expect_expr,
                ),
            invariant
                self.tokens() == t,
                self.name() == old(self).name(),
                from < self.index() <= t.len(),
                last_idx == from,
                from == old(self).index(),
                t == old(self).tokens(),
            ensures
                tuple_expr_at(t, from) == Ok::<(Seq<Ast>, int), ParseFailure>(
                    (boxed_models(arguments@), self.index()),
                ),
            decreases t.len() - self.index(),
        {
            let token = self.peek();
            let closing = match token {
                Some(found) => token_is_char(found, ')'),
                None => false,
            };
            let comma = match token {
                Some(found) => token_is_char(found, ','),
                None => false,
            };
            if closing {
                if expect_expr && arguments.len() > 0 {
                    self.restore(last_idx);
                    return Err(Self::generate_expect_error("expression", token));
                }
                self.consume();
                break ;
            } else if comma {
                if expect_expr {
                    self.restore(last_idx);
                    return Err(Self::generate_expect_error("expression", token));
                }
                self.consume();
                expect_expr = true;
            } else {
                if !expect_expr {
                    self.restore(last_idx);
                    return Err(Self::generate_expect_error("')' or ','", token));
                }
                proof {
                    lemma_expr_advances(t, self.index());
                }
                match self.parse_expr() {
                    Ok(argument) => {
                        proof {
                            lemma_boxed_push(arguments@, argument);
                        }
                        arguments.push(argument);
                        expect_expr = false;
                    },
                    Err(err) => {
                        self.restore(last_idx);
                        return Err(err);
                    },
                }
            }
        }
        Ok(arguments)
    }

    /// Parses one operand, if one stands under the cursor: an identifier,
    /// with its arguments where a `(` follows it, or a literal.
    fn parse_operand(&mut self) -> (result: Result<
        Option<Box<ASTNode<'a, 'b>>>,
        ParserError<'a, 'b>,
    >)
        ensures
            final(self).same_input(old(self)),
            operand_outcome(
                result,
                operand_at(old(self).tokens(), old(self).index()),
                old(self).index(),
                final(self).index(),
            ),
        decreases old(self).tokens().len() - old(self).index(), 1int,
    {
        let last_idx = self.mark();
        match self.peek() {
            Some(token) => match token {
                Token::Identifier(_) => {
                    self.consume();
                    let opening = match self.peek() {
                        Some(next) => token_is_char(next, '('),
                        None => false,
                    };
                    if opening {
                        match self.parse_tuple_expr() {
                            Ok(args) => {
                                let callee = Box::new(ASTNode::new_identifier(token));
                                assert(callee.model() == Ast::Identifier(token@));
                                Ok(
                                    Some(
                                        Box::new(
                                            ASTNode::new_function_call(FnCall::new(callee, args)),
                                        ),
                                    ),
                                )
                            },
                            Err(err) => {
                                self.restore(last_idx);
                                Err(err)
                            },
                        }
                    } else {
                        Ok(Some(Box::new(ASTNode::new_identifier(token))))
                    }
                },
                Token::Number(_) => {
                    self.consume();
                    Ok(Some(Box::new(ASTNode::new_number(token))))
                },
                Token::Str(_) => {
                    self.consume();
                    Ok(Some(Box::new(ASTNode::new_string(token))))
                },
                Token::Char(_) => {
                    self.consume();
                    Ok(Some(Box::new(ASTNode::new_char(token))))
                },
                Token::Reserved(_) => Ok(None),
            },
            None => Ok(None),
        }
    }

    /// Reduces the operator `operator`, just taken from its stack, with the
    /// two topmost operands.
    fn reduce(
        operands: &mut Vec<Box<ASTNode<'a, 'b>>>,
        operator: &'a ReservedToken<'b>,
    )
        requires
            old(operands)@.len() >= 2,
        ensures
            boxed_models(final(operands)@) == reduce_once(boxed_models(old(operands)@), operator@),
            final(operands)@.len() == old(operands)@.len() - 1,
    {
        let ghost before = operands@;
        let operand2 = operands.pop().unwrap();
        let operand1 = operands.pop().unwrap();
        let joined = Box::new(ASTNode::BinaryOperation(operator, operand1, operand2));
        proof {
            assert(operands@.push(joined) =~= before.take(before.len() - 2).push(joined));
            lemma_boxed_reduce(before, operands@.push(joined), joined, operator@);
        }
        operands.push(joined);
    }

    /// Parses an expression: operands, each with its prefix and postfix
    /// operators, joined by binary operators and grouped by their rank. A
    /// failure leaves the cursor where it was.
    pub fn parse_expr(&mut self) -> (result: Result<Box<ASTNode<'a, 'b>>, ParserError<'a, 'b>>)
        ensures
            final(self).same_input(old(self)),
            node_outcome(
                result,
                expr_at(old(self).tokens(), old(self).index()),
                old(self).index(),
                final(self).index(),
            ),
            result is Ok ==> old(self).index() < final(self).index() <= old(self).tokens().len(),
            result is Err ==> final(self).index() == old(self).index(),
        decreases old(self).tokens().len() - old(self).index(), 3int,
    {
        proof {
            use_type_invariant(&*self);
            lemma_expr_advances(self.tokens(), self.index());
        }
        let ghost t = self.tokens();
        let ghost from = self.index();
        let mut operands: Vec<Box<ASTNode<'a, 'b>>> = Vec::new();
        let mut operators: Vec<&'a ReservedToken<'b>> = Vec::new();
        let mut operand_expected = true;
        let last_idx = self.mark();
        let ghost end = expr_loop(t, from, Seq::empty(), Seq::empty(), true);
        assert(boxed_models(operands@) =~= Seq::empty());
        assert(reserved_models(operators@) =~= Seq::empty());
        loop
            invariant_except_break
                end == expr_loop(
                    t,
                    self.index(),
                    boxed_models(operands@),
                    reserved_models(operators@),
                    operand_expected,
                ),
            invariant
                self.tokens() == t,
                self.name() == old(self).name(),
                from <= self.index() <= t.len(),
                from == old(self).index(),
                t == old(self).tokens(),
                operands@.len() == operators@.len() + if operand_expected {
                    0int
                } else {
                    1int
                },
                forall|n: int|
                    0 <= n < operators@.len() ==> (#[trigger] operators@[n])@.is_joining_operator()
                        && operators@[n]@.well_formed(),
            ensures
                end == (ExprState {
                    operands: boxed_models(operands@),
                    operators: reserved_models(operators@),
                    operand_expected,
                    next: self.index(),
                }),
            decreases t.len() - self.index(),
        {
            if self.peek().is_none() {
                break ;
            }
            if operand_expected {
                let ghost j = self.index();
                proof {
                    lemma_prefix_end(t, j);
                }
                let prefix_operators = self.parse_prefix_operators();
                let ghost p = self.index();
                proof {
                    lemma_operand_advances(t, p);
                }
                let operand = self.parse_operand();
                match operand {
                    Ok(Some(operand_node)) => {
                        let ghost k = self.index();
                        let ghost plain = operand_node.model();
                        proof {
                            lemma_postfix_end(t, k);
                        }
                        let postfix_operators = self.parse_postfix_operators();
                        let ghost q = self.index();
                        let mut wrapped = operand_node;
                        let mut n: usize = 0;
                        while n < postfix_operators.len()
                            invariant
                                0 <= n <= postfix_operators@.len(),
                                postfix_operators@.len() == q - k,
                                0 <= k <= q <= t.len(),
                                forall|m: int|
                                    0 <= m < postfix_operators@.len() ==> (
                                    #[trigger] postfix_operators@[m])@ == reserved_of(t[k + m]),
                                wrap_postfix(t, k, q, plain) == wrap_postfix(
                                    t,
                                    k + n,
                                    q,
                                    wrapped.model(),
                                ),
                            decreases postfix_operators@.len() - n,
                        {
                            wrapped =
                            Box::new(ASTNode::PostfixOperation(postfix_operators[n], wrapped));
                            n += 1;
                        }
                        let ghost inner = wrapped.model();
                        let mut n: usize = prefix_operators.len();
                        while n > 0
                            invariant
                                0 <= n <= prefix_operators@.len(),
                                prefix_operators@.len() == p - j,
                                0 <= j <= p <= t.len(),
                                forall|m: int|
                                    0 <= m < prefix_operators@.len() ==> (
                                    #[trigger] prefix_operators@[m])@ == reserved_of(t[j + m]),
                                wrap_prefix(t, j, p, inner) == wrap_prefix(
                                    t,
                                    j,
                                    j + n,
                                    wrapped.model(),
                                ),
                            decreases n,
                        {
                            n -= 1;
                            wrapped =
                            Box::new(ASTNode::PrefixOperation(prefix_operators[n], wrapped));
                        }
                        proof {
                            lemma_boxed_push(operands@, wrapped);
                        }
                        operands.push(wrapped);
                    },
                    _ => {
                        break ;
                    },
                }
            } else {
                let found = match self.peek() {
                    Some(token) => joining_operator(token),
                    None => None,
                };
                match found {
                    Some(reserved_token) => {
                        let rank = rank_of(reserved_token);
                        self.consume();
                        let ghost operands_before = boxed_models(operands@);
                        let ghost operators_before = reserved_models(operators@);
                        loop
                            invariant_except_break
                                reduce_while(operands_before, operators_before, rank)
                                    == reduce_while(
                                    boxed_models(operands@),
                                    reserved_models(operators@),
                                    rank,
                                ),
                            invariant
                                operands@.len() == operators@.len() + 1,
                                forall|n: int|
                                    0 <= n < operators@.len() ==> (
                                    #[trigger] operators@[n])@.is_joining_operator()
                                        && operators@[n]@.well_formed(),
                            ensures
                                reduce_while(operands_before, operators_before, rank) == (
                                    boxed_models(operands@),
                                    reserved_models(operators@),
                                ),
                            decreases operators@.len(),
                        {
                            let ghost stack = operators@;
                            match operators.pop() {
                                Some(other_op_token) => {
                                    proof {
                                        lemma_reserved_pop(stack);
                                        assert(stack.drop_last() =~= operators@);
                                    }
                                    if rank_of(other_op_token) <= rank {
                                        Self::reduce(&mut operands, other_op_token);
                                    } else {
                                        operators.push(other_op_token);
                                        assert(operators@ =~= stack);
                                        break ;
                                    }
                                },
                                None => {
                                    break ;
                                },
                            }
                        }
                        proof {
                            lemma_reserved_push(operators@, reserved_token);
                        }
                        operators.push(reserved_token);
                    },
                    None => {
                        break ;
                    },
                }
            }
            operand_expected = !operand_expected;
        }
        if operand_expected {
            let token = self.peek();
            self.restore(last_idx);
            return Err(Self::generate_expect_error("operand", token));
        }
        proof {
            lemma_expr_loop(t, from, Seq::empty(), Seq::empty(), true);
        }
        let ghost operands_before = boxed_models(operands@);
        let ghost operators_before = reserved_models(operators@);
        loop
            invariant_except_break
                reduce_all(operands_before, operators_before) == reduce_all(
                    boxed_models(operands@),
                    reserved_models(operators@),
                ),
            invariant
                operands@.len() == operators@.len() + 1,
            ensures
                reduce_all(operands_before, operators_before) == boxed_models(operands@),
                operands@.len() == 1,
            decreases operators@.len(),
        {
            let ghost stack = operators@;
            match operators.pop() {
                Some(op) => {
                    proof {
                        lemma_reserved_pop(stack);
                        assert(stack.drop_last() =~= operators@);
                    }
                    Self::reduce(&mut operands, op);
                },
                None => {
                    break ;
                },
            }
        }
        Ok(operands.pop().unwrap())
    }

    /// Parses an expression in parentheses. A failure leaves the cursor
    /// where it was.
    pub fn parse_expr_parantheses(&mut self) -> (result: Result<
        Box<ASTNode<'a, 'b>>,
        ParserError<'a, 'b>,
    >)
        ensures
            final(self).same_input(old(self)),
            node_outcome(
                result,
                expr_parentheses_at(old(self).tokens(), old(self).index()),
                old(self).index(),
                final(self).index(),
            ),
            result is Ok ==> old(self).index() < final(self).index() <= old(self).tokens().len(),
            result is Err ==> final(self).index() == old(self).index(),
    {
        proof {
            use_type_invariant(&*self);
            if self.index() < self.tokens().len() {
                lemma_expr_advances(self.tokens(), self.index() + 1);
            }
        }
        let last_idx = self.mark();
        let token = self.peek();
        let opening = match token {
            Some(found) => token_is_char(found, '('),
            None => false,
        };
        if opening {
            self.consume();
        } else {
            self.restore(last_idx);
            return Err(Self::generate_expect_error("'('", token));
        }
        let inner = self.parse_expr();
        match inner {
            Ok(node) => {
                let token = self.peek();
                let closing = match token {
                    Some(found) => token_is_char(found, ')'),
                    None => false,
                };
                if closing {
                    self.consume();
                    Ok(node)
                } else {
                    self.restore(last_idx);
                    Err(Self::generate_expect_error("')'", token))
                }
            },
            Err(err) => {
                self.restore(last_idx);
                Err(err)
            },
        }
    }

    /// Parses a tuple type: a `(`, at least one type, the types separated by
    /// commas, and a `)`.
    fn parse_tuple_type(&mut self) -> (result: Result<Box<ASTNode<'a, 'b>>, ParserError<'a, 'b>>)
        ensures
            final(self).same_input(old(self)),
            node_outcome(
                result,
                tuple_type_at(old(self).tokens(), old(self).index()),
                old(self).index(),
                final(self).index(),
            ),
        decreases old(self).tokens().len() - old(self).index(), 1int,
    {
        let ghost t = self.tokens();
        let ghost from = self.index();
        let last_idx = self.mark();
        match self.peek() {
            Some(token) => {
                if token_is_char(token, '(') {
                    self.consume();
                } else {
                    return Err(Self::generate_expect_error("left paranthesis", self.peek()));
                }
            },
            None => {
                return Err(Self::generate_expect_error("left paranthesis", self.peek()));
            },
        }
        let mut inner_types: Vec<Box<ASTNode<'a, 'b>>> = Vec::new();
        let mut expect_type = true;
        assert(boxed_models(inner_types@) =~= Seq::empty());
        loop
            invariant_except_break
                tuple_type_at(t, from) == tuple_type_items(
                    t,
                    self.index(),
                    boxed_models(inner_types@),
                    expect_type,
                ),
            invariant
                self.tokens() == t,
                self.name() == old(self).name(),
                from < self.index() <= t.len(),
                last_idx == from,
                from == old(self).index(),
                t == old(self).tokens(),
            ensures
                tuple_type_at(t, from) == Ok::<(Ast, int), ParseFailure>(
                    (Ast::Tuple(boxed_models(inner_types@)), self.index()),
                ),
            decreases t.len() - self.index(),
        {
            let token = self.peek();
            let closing = match token {
                Some(found) => token_is_char(found, ')'),
                None => false,
            };
            let comma = match token {
                Some(found) => token_is_char(found, ','),
                None => false,
            };
            if closing {
                if expect_type {
                    self.restore(last_idx);
                    return Err(Self::generate_expect_error("identifier", token));
                }
                self.consume();
                break ;
            } else if comma {
                if expect_type {
                    self.restore(last_idx);
                    return Err(Self::generate_expect_error("identifier", token));
                }
                expect_type = true;
                self.consume();
            } else {
                if !expect_type {
                    self.restore(last_idx);
                    return Err(Self::generate_expect_error("')' or ','", token));
                }
                proof {
                    lemma_type_advances(t, self.index());
                }
                match self.parse_type() {
                    Ok(node) => {
                        proof {
                            lemma_boxed_push(inner_types@, node);
                        }
                        expect_type = false;
                        inner_types.push(node);
                    },
                    Err(_) => {
                        self.restore(last_idx);
                        return Err(Self::generate_expect_error("')' or ','", token));
                    },
                }
            }
        }
        Ok(Box::new(ASTNode::Tuple(inner_types)))
    }

    /// Parses a type: `static` keywords, qualifiers, an identifier or a
    /// tuple type, then pointer suffixes with their qualifiers. A failure
    /// leaves the cursor where it was.
    pub fn parse_type(&mut self) -> (result: Result<Box<ASTNode<'a, 'b>>, ParserError<'a, 'b>>)
        ensures
            final(self).same_input(old(self)),
            node_outcome(
                result,
                type_at(old(self).tokens(), old(self).index()),
                old(self).index(),
                final(self).index(),
            ),
            result is Ok ==> old(self).index() < final(self).index() <= old(self).tokens().len(),
            result is Err ==> final(self).index() == old(self).index(),
        decreases old(self).tokens().len() - old(self).index(), 2int,
    {
        proof {
            use_type_invariant(&*self);
            lemma_type_advances(self.tokens(), self.index());
        }
        let ghost t = self.tokens();
        let ghost from = self.index();
        let last_idx = self.mark();
        let is_static = self.parse_static();
        let (is_mut, is_volatile) = self.parse_type_qualifiers();
        let ghost base_at = self.index();
        let mut base_type: Box<ASTNode<'a, 'b>> = match self.peek_identifier() {
            Some(identifier) => {
                self.consume();
                let name = Box::new(ASTNode::Identifier(identifier));
                assert(name.model() == Ast::Identifier(t[base_at]));
                Box::new(
                    ASTNode::Type(TypeInfo::new(is_static, is_mut, is_volatile, false, name)),
                )
            },
            None => {
                let token = self.peek();
                let opening = match token {
                    Some(found) => token_is_char(found, '('),
                    None => false,
                };
                if opening {
                    match self.parse_tuple_type() {
                        Ok(node) => {
                            proof {
                                lemma_tuple_type_items_advance(t, base_at + 1, Seq::empty(), true);
                            }
                            node
                        },
                        Err(err) => {
                            self.restore(last_idx);
                            return Err(err);
                        },
                    }
                } else {
                    self.restore(last_idx);
                    return Err(
                        ParserError::new(
                            String::from_str("Expected an identifier or tuple."),
                            token,
                        ),
                    );
                }
            },
        };
        let ghost after_base = self.index();
        let ghost base = base_type.model();
        loop
            invariant_except_break
                pointers_from(t, after_base, base) == pointers_from(t, self.index(), base_type.model()),
            invariant
                self.tokens() == t,
                self.name() == old(self).name(),
                0 <= self.index() <= t.len(),
            ensures
                pointers_from(t, after_base, base) == (base_type.model(), self.index()),
            decreases t.len() - self.index(),
        {
            let star = match self.peek() {
                Some(token) => token_is_operator(token, "*"),
                None => false,
            };
            if star {
                proof {
                    lemma_qualifiers(t, self.index() + 1, false, false);
                }
                self.consume();
                let (is_mut, is_volatile) = self.parse_type_qualifiers();
                base_type =
                Box::new(
                    ASTNode::new_type(TypeInfo::new(false, is_mut, is_volatile, true, base_type)),
                );
            } else {
                break ;
            }
        }
        Ok(base_type)
    }

    /// Parses a type and the identifier behind it. A failure leaves the
    /// cursor where it was.
    fn parse_type_identifier(&mut self) -> (result: Result<
        (Box<ASTNode<'a, 'b>>, Box<ASTNode<'a, 'b>>),
        ParserError<'a, 'b>,
    >)
        ensures
            final(self).same_input(old(self)),
            pair_outcome(
                result,
                type_identifier_at(old(self).tokens(), old(self).index()),
                old(self).index(),
                final(self).index(),
            ),
    {
        let last_idx = self.mark();
        let type_result = self.parse_type();
        match type_result {
            Err(err) => Err(err),
            Ok(type_found) => {
                let identifier = self.peek_identifier();
                match identifier {
                    None => {
                        let token = self.peek();
                        self.restore(last_idx);
                        Err(ParserError::new(String::from_str("Expected an identifier."), token))
                    },
                    Some(id) => {
                        self.consume();
                        Ok((type_found, Box::new(ASTNode::new_identifier(id))))
                    },
                }
            },
        }
    }

    /// Parses the arguments of a function: a `(`, typed identifiers
    /// separated by commas, or none, and a `)`. A failure leaves the cursor
    /// where it was.
    fn parse_arg_list(&mut self) -> (result: Result<Vec<TypeVarPair<'a, 'b>>, ParserError<'a, 'b>>)
        ensures
            final(self).same_input(old(self)),
            pairs_outcome(
                result,
                arg_list_at(old(self).tokens(), old(self).index()),
                old(self).index(),
                final(self).index(),
            ),
    {
        let ghost t = self.tokens();
        let ghost from = self.index();
        let idx_before = self.mark();
        let mut args: Vec<TypeVarPair<'a, 'b>> = Vec::new();
        assert(pair_models(args@) =~= Seq::empty());
        let opening = match self.peek() {
            Some(token) => token_is_char(token, '('),
            None => false,
        };
        if opening {
            self.consume();
        } else {
            return Err(ParserError::new(String::from_str("Expected '('."), self.peek()));
        }
        let closing = match self.peek() {
            Some(token) => token_is_char(token, ')'),
            None => false,
        };
        if closing {
            self.consume();
            return Ok(args);
        }
        loop
            invariant_except_break
                arg_list_at(t, from) == arguments_from(t, self.index(), pair_models(args@)),
            invariant
                self.tokens() == t,
                self.name() == old(self).name(),
                from < self.index() <= t.len(),
                idx_before == from,
                from == old(self).index(),
                t == old(self).tokens(),
            ensures
                arg_list_at(t, from) == Ok::<(Seq<(Ast, Ast)>, int), ParseFailure>(
                    (pair_models(args@), self.index()),
                ),
            decreases t.len() - self.index(),
        {
            proof {
                lemma_type_advances(t, self.index());
            }
            match self.parse_type_identifier() {
                Ok((type_found, id)) => {
                    let pair = TypeVarPair::new(type_found, id);
                    proof {
                        lemma_pairs_push(args@, pair);
                    }
                    args.push(pair);
                },
                Err(err) => {
                    self.restore(idx_before);
                    return Err(err);
                },
            }
            let token = self.peek();
            let comma = match token {
                Some(found) => token_is_char(found, ','),
                None => false,
            };
            let closing = match token {
                Some(found) => token_is_char(found, ')'),
                None => false,
            };
            if comma {
                self.consume();
            } else if closing {
                self.consume();
                break ;
            } else {
                self.restore(idx_before);
                return Err(ParserError::new(String::from_str("Expected ',' or ')'."), token));
            }
        }
        Ok(args)
    }

    /// Parses a declaration: a type and an identifier, then the arguments
    /// of a function, or `=` with an expression and `;`, or `;` alone. A
    /// failure leaves the cursor where it was.
    pub fn parse_decl(&mut self) -> (result: Result<Box<ASTNode<'a, 'b>>, ParserError<'a, 'b>>)
        ensures
            final(self).same_input(old(self)),
            node_outcome(
                result,
                decl_at(old(self).tokens(), old(self).index()),
                old(self).index(),
                final(self).index(),
            ),
            result is Ok ==> old(self).index() < final(self).index() <= old(self).tokens().len(),
            result is Err ==> final(self).index() == old(self).index(),
    {
        proof {
            use_type_invariant(&*self);
            lemma_decl_advances(self.tokens(), self.index());
        }
        let last_idx = self.mark();
        let type_id_result = self.parse_type_identifier();
        match type_id_result {
            Err(err) => {
                self.restore(last_idx);
                Err(err)
            },
            Ok((type_found, id)) => {
                let token = self.peek();
                let opening = match token {
                    Some(found) => token_is_char(found, '('),
                    None => false,
                };
                let assignment = match token {
                    Some(found) => token_is_operator(found, "="),
                    None => false,
                };
                let semicolon = match token {
                    Some(found) => token_is_char(found, ';'),
                    None => false,
                };
                if opening {
                    match self.parse_arg_list() {
                        Ok(args) => {
                            let node = Box::new(
                                ASTNode::new_function(FnDef::new(type_found, id, args, None)),
                            );
                            assert(node.model() == Ast::Function {
                                return_type: Box::new(type_found.model()),
                                identifier: Box::new(id.model()),
                                arguments: pair_models(args@),
                                body: None,
                            });
                            Ok(node)
                        },
                        Err(err) => {
                            self.restore(last_idx);
                            Err(err)
                        },
                    }
                } else if assignment {
                    self.consume();
                    match self.parse_expr() {
                        Ok(expr) => {
                            let token = self.peek();
                            let semicolon = match token {
                                Some(found) => token_is_char(found, ';'),
                                None => false,
                            };
                            if semicolon {
                                self.consume();
                            } else {
                                self.restore(last_idx);
                                return Err(
                                    ParserError::new(String::from_str("Expected ';'."), token),
                                );
                            }
                            let node = Box::new(
                                ASTNode::new_variable(
                                    VarDef::new(TypeVarPair::new(type_found, id), Some(expr)),
                                ),
                            );
                            assert(node.model() == Ast::Variable {
                                type_of_var: Box::new(type_found.model()),
                                identifier: Box::new(id.model()),
                                value: Some(Box::new(expr.model())),
                            });
                            Ok(node)
                        },
                        Err(err) => {
                            self.restore(last_idx);
                            Err(err)
                        },
                    }
                } else if semicolon {
                    self.consume();
                    let node = Box::new(
                        ASTNode::new_variable(VarDef::new(TypeVarPair::new(type_found, id), None)),
                    );
                    assert(node.model() == Ast::Variable {
                        type_of_var: Box::new(type_found.model()),
                        identifier: Box::new(id.model()),
                        value: None,
                    });
                    Ok(node)
                } else {
                    self.restore(last_idx);
                    Err(
                        ParserError::new(
                            String::from_str("Expected ';', '=' or '('."),
                            self.peek(),
                        ),
                    )
                }
            },
        }
    }

    /// Parses the whole program: one declaration after the other. A
    /// declaration that fails adds its error, and parsing resumes behind the
    /// next `;`. Returns the program if no declaration failed, else every
    /// error in the order found.
    pub fn parse(&mut self) -> (result: Result<ASTNode<'a, 'b>, Vec<ParserError<'a, 'b>>>)
        ensures
            final(self).same_input(old(self)),
            final(self).index() == old(self).tokens().len(),
            program_outcome(
                result,
                program_at(old(self).tokens(), old(self).index(), old(self).name()),
            ),
    {
        let ghost t = self.tokens();
        let ghost from = self.index();
        let mut definitions: Vec<Box<ASTNode<'a, 'b>>> = Vec::new();
        let mut errors: Vec<ParserError<'a, 'b>> = Vec::new();
        proof {
            use_type_invariant(&*self);
        }
        assert(boxed_models(definitions@) =~= Seq::empty());
        assert(error_models(errors@) =~= Seq::empty());
        loop
            invariant_except_break
                program_from(t, from, Seq::empty(), Seq::empty()) == program_from(
                    t,
                    self.index(),
                    boxed_models(definitions@),
                    error_models(errors@),
                ),
            invariant
                self.tokens() == t,
                self.name() == old(self).name(),
                0 <= self.index() <= t.len(),
                t == old(self).tokens(),
            ensures
                self.index() == t.len(),
                program_from(t, from, Seq::empty(), Seq::empty()) == (
                    boxed_models(definitions@),
                    error_models(errors@),
                ),
            decreases t.len() - self.index(),
        {
            if self.peek().is_none() {
                break ;
            }
            let ghost start = self.index();
            proof {
                lemma_decl_advances(t, start);
                lemma_semicolon_token(t, start);
            }
            match self.parse_decl() {
                Ok(node) => {
                    proof {
                        lemma_boxed_push(definitions@, node);
                    }
                    definitions.push(node);
                },
                Err(err) => {
                    proof {
                        lemma_errors_push(errors@, err);
                    }
                    errors.push(err);
                    loop
                        invariant_except_break
                            semicolon_token_from(t, start) == semicolon_token_from(
                                t,
                                self.index(),
                            ),
                        invariant
                            self.tokens() == t,
                            self.name() == old(self).name(),
                            start <= self.index() <= t.len(),
                        ensures
                            self.index() == semicolon_token_from(t, start),
                        decreases t.len() - self.index(),
                    {
                        match self.peek() {
                            Some(c) => {
                                if token_is_char(c, ';') {
                                    break ;
                                }
                                self.consume();
                            },
                            None => {
                                break ;
                            },
                        }
                    }
                    self.consume();
                },
            }
        }
        if errors.len() == 0 {
            Ok(ASTNode::Program(ProgramInfo::new(self.program_name.clone(), definitions)))
        } else {
            Err(errors)
        }
    }
}

/// The trees of a list that has grown by one node.
proof fn lemma_boxed_push(nodes: Seq<Box<ASTNode>>, node: Box<ASTNode>)
    ensures
        boxed_models(nodes.push(node)) == boxed_models(nodes).push(node.model()),
{
    assert(boxed_models(nodes.push(node)) =~= boxed_models(nodes).push(node.model()));
}

/// The pairs of trees of a list that has grown by one typed identifier.
proof fn lemma_pairs_push(pairs: Seq<TypeVarPair>, pair: TypeVarPair)
    ensures
        pair_models(pairs.push(pair)) == pair_models(pairs).push(pair.model()),
{
    assert(pair_models(pairs.push(pair)) =~= pair_models(pairs).push(pair.model()));
}

/// The errors of a list that has grown by one.
proof fn lemma_errors_push(errors: Seq<ParserError>, error: ParserError)
    ensures
        error_models(errors.push(error)) == error_models(errors).push(error@),
{
    assert(error_models(errors.push(error)) =~= error_models(errors).push(error@));
}

/// The stack of operators that has grown by one.
proof fn lemma_reserved_push(operators: Seq<&ReservedToken>, operator: &ReservedToken)
    ensures
        reserved_models(operators.push(operator)) == reserved_models(operators).push(operator@),
{
    assert(reserved_models(operators.push(operator)) =~= reserved_models(operators).push(
        operator@,
    ));
}

/// The stack of operators that has lost its top.
proof fn lemma_reserved_pop(operators: Seq<&ReservedToken>)
    requires
        operators.len() > 0,
    ensures
        reserved_models(operators.drop_last()) == reserved_models(operators).drop_last(),
        reserved_models(operators).last() == operators.last()@,
{
    assert(reserved_models(operators.drop_last()) =~= reserved_models(operators).drop_last());
}

/// The stack of operands after its two topmost nodes gave way to the node
/// that joins them.
proof fn lemma_boxed_reduce(
    before: Seq<Box<ASTNode>>,
    after: Seq<Box<ASTNode>>,
    joined: Box<ASTNode>,
    operator: ReservedSpec,
)
    requires
        before.len() >= 2,
        after == before.take(before.len() - 2).push(joined),
        joined.model() == Ast::BinaryOperation(
            operator,
            Box::new(before[before.len() - 2].model()),
            Box::new(before[before.len() - 1].model()),
        ),
    ensures
        boxed_models(after) == reduce_once(boxed_models(before), operator),
{
    assert(boxed_models(after) =~= reduce_once(boxed_models(before), operator));
}

} // verus!
