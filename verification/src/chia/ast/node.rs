//! The nodes of the syntax tree. A tree is built bottom-up by the parser; a
//! node owns its children and refers to the tokens it was made from.

use vstd::prelude::*;
use crate::common::reserved::{ReservedSpec, ReservedToken};
use crate::common::token::{Token, TokenSpec};

verus! {

/// The kinds of control flow.
#[derive(Clone, Copy, Debug, PartialEq, Eq)]
pub enum ControlFlowType {
    If,
    ElseIf,
    Else,
    While,
    DoWhile,
    Switch,
    SwitchCase,
    SwitchDefault,
}

/// A syntax tree as a mathematical value: children in sequences, tokens by
/// their text.
#[allow(inconsistent_fields)]
pub enum Ast {
    Program { name: Seq<char>, definitions: Seq<Ast> },
    TypeDef { name: TokenSpec, definition: Box<Ast> },
    StructDef { identifier: Box<Ast>, fields: Seq<(Ast, Ast)> },
    EnumDef { identifier: Box<Ast>, members: Seq<Ast> },
    Type { is_static: bool, is_mut: bool, is_volatile: bool, is_pointer: bool, base: Box<Ast> },
    Tuple(Seq<Ast>),
    Number(TokenSpec),
    String(TokenSpec),
    Identifier(TokenSpec),
    Expression(Box<Ast>),
    Function {
        return_type: Box<Ast>,
        identifier: Box<Ast>,
        arguments: Seq<(Ast, Ast)>,
        body: Option<Box<Ast>>,
    },
    FunctionCall { callee: Box<Ast>, arguments: Seq<Ast> },
    Variable { type_of_var: Box<Ast>, identifier: Box<Ast>, value: Option<Box<Ast>> },
    Sequence(Seq<Ast>),
    ControlFlow {
        kind: ControlFlowType,
        condition: Box<Ast>,
        body: Box<Ast>,
        next: Option<Box<Ast>>,
    },
    PrefixOperation(ReservedSpec, Box<Ast>),
    PostfixOperation(ReservedSpec, Box<Ast>),
    BinaryOperation(ReservedSpec, Box<Ast>, Box<Ast>),
}

/// A program: its name and its top-level declarations in order.
#[derive(Debug, PartialEq, Eq)]
pub struct ProgramInfo<'a, 'b> {
    pub name: String,
    pub var_fn_defs: Vec<Box<ASTNode<'a, 'b>>>,
}

/// A named type definition.
#[derive(Debug, PartialEq, Eq)]
pub struct TypeDef<'a, 'b> {
    pub name: &'a Token<'b>,
    pub definition: Box<ASTNode<'a, 'b>>,
}

/// A struct definition: its name and its fields in order.
#[derive(Debug, PartialEq, Eq)]
pub struct StructDef<'a, 'b> {
    pub identifier: Box<ASTNode<'a, 'b>>,
    pub fields: Vec<TypeVarPair<'a, 'b>>,
}

/// An enum definition: its name and its members in order.
#[derive(Debug, PartialEq, Eq)]
pub struct EnumDef<'a, 'b> {
    pub identifier: Box<ASTNode<'a, 'b>>,
    pub fields: Vec<ASTNode<'a, 'b>>,
}

/// A type: its qualifiers, whether it is a pointer, and what it is a type
/// of. A pointer has the type it points to as its base.
#[derive(Debug, PartialEq, Eq)]
pub struct TypeInfo<'a, 'b> {
    pub is_static: bool,
    pub is_mut: bool,
    pub is_volatile: bool,
    pub is_pointer: bool,
    pub base_type: Box<ASTNode<'a, 'b>>,
}

/// A type and the identifier declared with it.
#[derive(Debug, PartialEq, Eq)]
pub struct TypeVarPair<'a, 'b> {
    pub type_of_var: Box<ASTNode<'a, 'b>>,
    pub identifier: Box<ASTNode<'a, 'b>>,
}

/// A function: return type, name, arguments in order, and a body if it has
/// one.
#[derive(Debug, PartialEq, Eq)]
pub struct FnDef<'a, 'b> {
    pub return_type: Box<ASTNode<'a, 'b>>,
    pub identifier: Box<ASTNode<'a, 'b>>,
    pub arguments: Vec<TypeVarPair<'a, 'b>>,
    pub body: Option<Box<ASTNode<'a, 'b>>>,
}

/// A call: what is called and the argument expressions in order.
#[derive(Debug, PartialEq, Eq)]
pub struct FnCall<'a, 'b> {
    pub fn_identifier: Box<ASTNode<'a, 'b>>,
    pub arguments: Vec<Box<ASTNode<'a, 'b>>>,
}

/// A variable: its type and name, and the expression it starts with if it
/// has one.
#[derive(Debug, PartialEq, Eq)]
pub struct VarDef<'a, 'b> {
    pub variable: TypeVarPair<'a, 'b>,
    pub value: Option<Box<ASTNode<'a, 'b>>>,
}

/// A piece of control flow: its kind, condition and body, and the next piece
/// of the same chain if there is one.
#[derive(Debug, PartialEq, Eq)]
pub struct ControlFlowInfo<'a, 'b> {
    pub control_type: ControlFlowType,
    pub condition: Box<ASTNode<'a, 'b>>,
    pub sequence: Box<ASTNode<'a, 'b>>,
    pub next_flow: Option<Box<ASTNode<'a, 'b>>>,
}

/// A node of the syntax tree. A character literal is carried by `String`,
/// as a string literal is; the token tells the two apart.
#[derive(Debug, PartialEq, Eq)]
pub enum ASTNode<'a, 'b> {
    Program(ProgramInfo<'a, 'b>),
    TypeDef(TypeDef<'a, 'b>),
    StructDef(StructDef<'a, 'b>),
    EnumDef(EnumDef<'a, 'b>),
    Type(TypeInfo<'a, 'b>),
    Tuple(Vec<Box<ASTNode<'a, 'b>>>),
    Number(&'a Token<'b>),
    String(&'a Token<'b>),
    Identifier(&'a Token<'b>),
    Expression(Box<ASTNode<'a, 'b>>),
    Function(FnDef<'a, 'b>),
    FunctionCall(FnCall<'a, 'b>),
    Variable(VarDef<'a, 'b>),
    Sequence(Vec<Box<ASTNode<'a, 'b>>>),
    ControlFlow(ControlFlowInfo<'a, 'b>),
    PrefixOperation(&'a ReservedToken<'b>, Box<ASTNode<'a, 'b>>),
    PostfixOperation(&'a ReservedToken<'b>, Box<ASTNode<'a, 'b>>),
    BinaryOperation(&'a ReservedToken<'b>, Box<ASTNode<'a, 'b>>, Box<ASTNode<'a, 'b>>),
}

/// The trees of a list of boxed nodes.
pub open spec fn boxed_models(nodes: Seq<Box<ASTNode>>) -> Seq<Ast>
    decreases nodes,
{
    Seq::new(
        nodes.len(),
        |i: int|
            if 0 <= i < nodes.len() {
                nodes[i].model()
            } else {
                Ast::Tuple(Seq::empty())
            },
    )
}

/// The trees of a list of nodes.
pub open spec fn node_models(nodes: Seq<ASTNode>) -> Seq<Ast>
    decreases nodes,
{
    Seq::new(
        nodes.len(),
        |i: int|
            if 0 <= i < nodes.len() {
                nodes[i].model()
            } else {
                Ast::Tuple(Seq::empty())
            },
    )
}

/// The pairs of trees of a list of typed identifiers.
pub open spec fn pair_models(pairs: Seq<TypeVarPair>) -> Seq<(Ast, Ast)>
    decreases pairs,
{
    Seq::new(
        pairs.len(),
        |i: int|
            if 0 <= i < pairs.len() {
                pairs[i].model()
            } else {
                (Ast::Tuple(Seq::empty()), Ast::Tuple(Seq::empty()))
            },
    )
}

impl<'a, 'b> ProgramInfo<'a, 'b> {
    pub fn new(name: String, var_fn_defs: Vec<Box<ASTNode<'a, 'b>>>) -> (info: ProgramInfo<'a, 'b>)
        ensures
            info == (ProgramInfo { name, var_fn_defs }),
    {
        ProgramInfo { name, var_fn_defs }
    }
}

impl<'a, 'b> TypeDef<'a, 'b> {
    pub fn new(name: &'a Token<'b>, definition: Box<ASTNode<'a, 'b>>) -> (def: TypeDef<'a, 'b>)
        ensures
            def == (TypeDef { name, definition }),
    {
        TypeDef { name, definition }
    }
}

impl<'a, 'b> StructDef<'a, 'b> {
    pub fn new(identifier: Box<ASTNode<'a, 'b>>, fields: Vec<TypeVarPair<'a, 'b>>) -> (def:
        StructDef<'a, 'b>)
        ensures
            def == (StructDef { identifier, fields }),
    {
        StructDef { identifier, fields }
    }
}

impl<'a, 'b> EnumDef<'a, 'b> {
    pub fn new(identifier: Box<ASTNode<'a, 'b>>, fields: Vec<ASTNode<'a, 'b>>) -> (def: EnumDef<
        'a,
        'b,
    >)
        ensures
            def == (EnumDef { identifier, fields }),
    {
        EnumDef { identifier, fields }
    }
}

impl<'a, 'b> TypeInfo<'a, 'b> {
    pub fn new(
        is_static: bool,
        is_mut: bool,
        is_volatile: bool,
        is_pointer: bool,
        base_type: Box<ASTNode<'a, 'b>>,
    ) -> (info: TypeInfo<'a, 'b>)
        ensures
            info == (TypeInfo { is_static, is_mut, is_volatile, is_pointer, base_type }),
    {
        TypeInfo { is_static, is_mut, is_volatile, is_pointer, base_type }
    }
}

impl<'a, 'b> FnDef<'a, 'b> {
    pub fn new(
        return_type: Box<ASTNode<'a, 'b>>,
        identifier: Box<ASTNode<'a, 'b>>,
        arguments: Vec<TypeVarPair<'a, 'b>>,
        body: Option<Box<ASTNode<'a, 'b>>>,
    ) -> (def: FnDef<'a, 'b>)
        ensures
            def == (FnDef { return_type, identifier, arguments, body }),
    {
        FnDef { return_type, identifier, arguments, body }
    }
}

impl<'a, 'b> FnCall<'a, 'b> {
    pub fn new(fn_identifier: Box<ASTNode<'a, 'b>>, arguments: Vec<Box<ASTNode<'a, 'b>>>) -> (call:
        FnCall<'a, 'b>)
        ensures
            call == (FnCall { fn_identifier, arguments }),
    {
        FnCall { fn_identifier, arguments }
    }
}

impl<'a, 'b> VarDef<'a, 'b> {
    pub fn new(variable: TypeVarPair<'a, 'b>, value: Option<Box<ASTNode<'a, 'b>>>) -> (def: VarDef<
        'a,
        'b,
    >)
        ensures
            def == (VarDef { variable, value }),
    {
        VarDef { variable, value }
    }
}

impl<'a, 'b> ControlFlowInfo<'a, 'b> {
    pub fn new(
        control_type: ControlFlowType,
        condition: Box<ASTNode<'a, 'b>>,
        sequence: Box<ASTNode<'a, 'b>>,
        next_flow: Option<Box<ASTNode<'a, 'b>>>,
    ) -> (info: ControlFlowInfo<'a, 'b>)
        ensures
            info == (ControlFlowInfo { control_type, condition, sequence, next_flow }),
    {
        ControlFlowInfo { control_type, condition, sequence, next_flow }
    }
}

impl<'a, 'b> TypeVarPair<'a, 'b> {
    /// The trees of the type and of the identifier.
    pub open spec fn model(&self) -> (Ast, Ast)
        decreases self,
    {
        (self.type_of_var.model(), self.identifier.model())
    }

    pub fn new(type_of_var: Box<ASTNode<'a, 'b>>, identifier: Box<ASTNode<'a, 'b>>) -> (pair:
        TypeVarPair<'a, 'b>)
        ensures
            pair == (TypeVarPair { type_of_var, identifier }),
    {
        TypeVarPair { type_of_var, identifier }
    }
}

impl<'a, 'b> ASTNode<'a, 'b> {
    /// The tree that the node stands for.
    pub open spec fn model(&self) -> Ast
        decreases self,
    {
        match self {
            ASTNode::Program(info) => Ast::Program {
                name: info.name@,
                definitions: boxed_models(info.var_fn_defs@),
            },
            ASTNode::TypeDef(def) => Ast::TypeDef {
                name: def.name@,
                definition: Box::new(def.definition.model()),
            },
            ASTNode::StructDef(def) => Ast::StructDef {
                identifier: Box::new(def.identifier.model()),
                fields: pair_models(def.fields@),
            },
            ASTNode::EnumDef(def) => Ast::EnumDef {
                identifier: Box::new(def.identifier.model()),
                members: node_models(def.fields@),
            },
            ASTNode::Type(info) => Ast::Type {
                is_static: info.is_static,
                is_mut: info.is_mut,
                is_volatile: info.is_volatile,
                is_pointer: info.is_pointer,
                base: Box::new(info.base_type.model()),
            },
            ASTNode::Tuple(items) => Ast::Tuple(boxed_models(items@)),
            ASTNode::Number(token) => Ast::Number(token@),
            ASTNode::String(token) => Ast::String(token@),
            ASTNode::Identifier(token) => Ast::Identifier(token@),
            ASTNode::Expression(child) => Ast::Expression(Box::new(child.model())),
            ASTNode::Function(def) => Ast::Function {
                return_type: Box::new(def.return_type.model()),
                identifier: Box::new(def.identifier.model()),
                arguments: pair_models(def.arguments@),
                body: match def.body {
                    Some(body) => Some(Box::new(body.model())),
                    None => None,
                },
            },
            ASTNode::FunctionCall(call) => Ast::FunctionCall {
                callee: Box::new(call.fn_identifier.model()),
                arguments: boxed_models(call.arguments@),
            },
            ASTNode::Variable(def) => Ast::Variable {
                type_of_var: Box::new(def.variable.type_of_var.model()),
                identifier: Box::new(def.variable.identifier.model()),
                value: match def.value {
                    Some(value) => Some(Box::new(value.model())),
                    None => None,
                },
            },
            ASTNode::Sequence(children) => Ast::Sequence(boxed_models(children@)),
            ASTNode::ControlFlow(info) => Ast::ControlFlow {
                kind: info.control_type,
                condition: Box::new(info.condition.model()),
                body: Box::new(info.sequence.model()),
                next: match info.next_flow {
                    Some(next) => Some(Box::new(next.model())),
                    None => None,
                },
            },
            ASTNode::PrefixOperation(operator, operand) => Ast::PrefixOperation(
                operator@,
                Box::new(operand.model()),
            ),
            ASTNode::PostfixOperation(operator, operand) => Ast::PostfixOperation(
                operator@,
                Box::new(operand.model()),
            ),
            ASTNode::BinaryOperation(operator, left, right) => Ast::BinaryOperation(
                operator@,
                Box::new(left.model()),
                Box::new(right.model()),
            ),
        }
    }

    pub fn new_type_def(type_def: TypeDef<'a, 'b>) -> (node: ASTNode<'a, 'b>)
        ensures
            node == ASTNode::TypeDef(type_def),
    {
        ASTNode::TypeDef(type_def)
    }

    pub fn new_type(type_info: TypeInfo<'a, 'b>) -> (node: ASTNode<'a, 'b>)
        ensures
            node == ASTNode::Type(type_info),
    {
        ASTNode::Type(type_info)
    }

    pub fn new_number(token: &'a Token<'b>) -> (node: ASTNode<'a, 'b>)
        ensures
            node == ASTNode::Number(token),
    {
        ASTNode::Number(token)
    }

    pub fn new_string(token: &'a Token<'b>) -> (node: ASTNode<'a, 'b>)
        ensures
            node == ASTNode::String(token),
    {
        ASTNode::String(token)
    }

    /// The node of a character literal: that of a string literal, around the
    /// literal's own token.
    pub fn new_char(token: &'a Token<'b>) -> (node: ASTNode<'a, 'b>)
        ensures
            node == ASTNode::String(token),
    {
        ASTNode::String(token)
    }

    pub fn new_identifier(token: &'a Token<'b>) -> (node: ASTNode<'a, 'b>)
        ensures
            node == ASTNode::Identifier(token),
    {
        ASTNode::Identifier(token)
    }

    pub fn new_expression(child: Box<ASTNode<'a, 'b>>) -> (node: ASTNode<'a, 'b>)
        ensures
            node == ASTNode::Expression(child),
    {
        ASTNode::Expression(child)
    }

    pub fn new_function(def: FnDef<'a, 'b>) -> (node: ASTNode<'a, 'b>)
        ensures
            node == ASTNode::Function(def),
    {
        ASTNode::Function(def)
    }

    pub fn new_function_call(call: FnCall<'a, 'b>) -> (node: ASTNode<'a, 'b>)
        ensures
            node == ASTNode::FunctionCall(call),
    {
        ASTNode::FunctionCall(call)
    }

    pub fn new_variable(def: VarDef<'a, 'b>) -> (node: ASTNode<'a, 'b>)
        ensures
            node == ASTNode::Variable(def),
    {
        ASTNode::Variable(def)
    }

    pub fn new_sequence(children: Vec<Box<ASTNode<'a, 'b>>>) -> (node: ASTNode<'a, 'b>)
        ensures
            node == ASTNode::Sequence(children),
    {
        ASTNode::Sequence(children)
    }

    pub fn new_control_flow(info: ControlFlowInfo<'a, 'b>) -> (node: ASTNode<'a, 'b>)
        ensures
            node == ASTNode::ControlFlow(info),
    {
        ASTNode::ControlFlow(info)
    }
}

impl<'a, 'b> View for ASTNode<'a, 'b> {
    type V = Ast;

    open spec fn view(&self) -> Ast {
        self.model()
    }
}

} // verus!
