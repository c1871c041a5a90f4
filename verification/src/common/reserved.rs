//! The lexical atoms with a fixed meaning: punctuation, keywords, operators.

use vstd::prelude::*;

verus! {

/// How an operator may be used, and how tightly it binds when it stands
/// between two operands. A lower rank binds tighter.
#[derive(Clone, Copy, Debug, PartialEq, Eq)]
pub struct OperatorInfo {
    pub is_prefix: bool,
    pub is_postfix: bool,
    pub is_binary: bool,
    pub is_ternary: bool,
    pub precedence: Option<u32>,
}

/// A reserved token: a keyword, an operator with its uses, or a single
/// punctuation character.
#[derive(Clone, Copy, Debug, PartialEq, Eq)]
pub enum ReservedToken<'a> {
    Keyword(&'a str),
    Operator(&'a str, OperatorInfo),
    Char(char),
}

/// A reserved token with its text as a sequence of characters.
pub enum ReservedSpec {
    Keyword(Seq<char>),
    Operator(Seq<char>, OperatorInfo),
    Char(char),
}

impl ReservedSpec {
    /// The characters that spell the token in a source text.
    pub open spec fn text(self) -> Seq<char> {
        match self {
            ReservedSpec::Keyword(name) => name,
            ReservedSpec::Operator(symbol, _) => symbol,
            ReservedSpec::Char(c) => seq![c],
        }
    }

    /// An operator that may stand between two operands has a rank.
    pub open spec fn well_formed(self) -> bool {
        match self {
            ReservedSpec::Operator(_, info) => info.is_binary || info.is_ternary
                ==> info.precedence is Some,
            _ => true,
        }
    }

    pub open spec fn is_char(self, c: char) -> bool {
        self == ReservedSpec::Char(c)
    }

    pub open spec fn is_keyword(self, name: Seq<char>) -> bool {
        self == ReservedSpec::Keyword(name)
    }

    pub open spec fn is_operator(self, symbol: Seq<char>) -> bool {
        self matches ReservedSpec::Operator(s, _) && s == symbol
    }

    pub open spec fn is_prefix_operator(self) -> bool {
        self matches ReservedSpec::Operator(_, info) && info.is_prefix
    }

    pub open spec fn is_postfix_operator(self) -> bool {
        self matches ReservedSpec::Operator(_, info) && info.is_postfix
    }

    /// An operator that joins two operands: a binary one or the ternary mark.
    pub open spec fn is_joining_operator(self) -> bool {
        self matches ReservedSpec::Operator(_, info) && (info.is_binary || info.is_ternary)
    }

    /// The rank of an operator; zero where it has none.
    pub open spec fn rank(self) -> u32 {
        match self {
            ReservedSpec::Operator(_, info) => match info.precedence {
                Some(rank) => rank,
                None => 0,
            },
            _ => 0,
        }
    }
}

impl<'a> View for ReservedToken<'a> {
    type V = ReservedSpec;

    open spec fn view(&self) -> ReservedSpec {
        match self {
            ReservedToken::Keyword(name) => ReservedSpec::Keyword(name@),
            ReservedToken::Operator(symbol, info) => ReservedSpec::Operator(symbol@, *info),
            ReservedToken::Char(c) => ReservedSpec::Char(*c),
        }
    }
}

} // verus!
