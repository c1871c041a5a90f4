//! Tokens: what the tokenizer hands to the parser.

use vstd::prelude::*;
use crate::common::reserved::{ReservedSpec, ReservedToken};
use crate::common::text::char_string;

verus! {

/// The digits of a number literal: those before the decimal point and, where
/// there is a point, what follows it.
#[derive(Clone, Copy, Debug, PartialEq, Eq)]
pub struct NumberInfo<'a> {
    pub whole_number: &'a str,
    pub fractional_part: Option<&'a str>,
}

/// A token of the language. Literals keep their raw text, quotes included.
#[derive(Clone, Copy, Debug, PartialEq, Eq)]
pub enum Token<'a> {
    Identifier(&'a str),
    Reserved(&'a ReservedToken<'a>),
    Number(NumberInfo<'a>),
    Str(&'a str),
    Char(&'a str),
}

/// A token with its texts as sequences of characters.
pub enum TokenSpec {
    Identifier(Seq<char>),
    Reserved(ReservedSpec),
    Number(Seq<char>, Option<Seq<char>>),
    Str(Seq<char>),
    Char(Seq<char>),
}

impl TokenSpec {
    /// The characters that spell the token in a source text.
    pub open spec fn text(self) -> Seq<char> {
        match self {
            TokenSpec::Identifier(name) => name,
            TokenSpec::Reserved(reserved) => reserved.text(),
            TokenSpec::Number(whole, None) => whole,
            TokenSpec::Number(whole, Some(fraction)) => whole + seq!['.'] + fraction,
            TokenSpec::Str(raw) => raw,
            TokenSpec::Char(raw) => raw,
        }
    }

    /// A reserved token inside is well formed; every other token is.
    pub open spec fn well_formed(self) -> bool {
        match self {
            TokenSpec::Reserved(reserved) => reserved.well_formed(),
            _ => true,
        }
    }

    pub open spec fn is_char(self, c: char) -> bool {
        self matches TokenSpec::Reserved(reserved) && reserved.is_char(c)
    }

    pub open spec fn is_keyword(self, name: Seq<char>) -> bool {
        self matches TokenSpec::Reserved(reserved) && reserved.is_keyword(name)
    }

    pub open spec fn is_operator(self, symbol: Seq<char>) -> bool {
        self matches TokenSpec::Reserved(reserved) && reserved.is_operator(symbol)
    }

    pub open spec fn is_prefix_operator(self) -> bool {
        self matches TokenSpec::Reserved(reserved) && reserved.is_prefix_operator()
    }

    pub open spec fn is_postfix_operator(self) -> bool {
        self matches TokenSpec::Reserved(reserved) && reserved.is_postfix_operator()
    }

    pub open spec fn is_joining_operator(self) -> bool {
        self matches TokenSpec::Reserved(reserved) && reserved.is_joining_operator()
    }

    /// How the token reads in a diagnostic.
    pub open spec fn display(self) -> Seq<char> {
        match self {
            TokenSpec::Identifier(name) => "(Identifier, Name: "@ + name + ")"@,
            TokenSpec::Reserved(ReservedSpec::Char(c)) => if c == '\n' {
                "(Reserved Char, Value: '\\n')"@
            } else {
                "(Reserved Char, Value: '"@ + seq![c] + "')"@
            },
            TokenSpec::Reserved(ReservedSpec::Keyword(name)) => "(Keyword, Name: "@ + name + ")"@,
            TokenSpec::Reserved(ReservedSpec::Operator(symbol, _)) => "(Operator, Value: '"@
                + symbol + "')"@,
            TokenSpec::Number(whole, None) => number_display(whole, None),
            TokenSpec::Number(whole, Some(fraction)) => number_display(whole, Some(fraction)),
            TokenSpec::Char(raw) => "(Char Literal, Value: "@ + raw + ")"@,
            TokenSpec::Str(raw) => "(String Literal, Value: "@ + raw + ")"@,
        }
    }
}

/// How a number literal reads in a diagnostic.
pub open spec fn number_display(whole: Seq<char>, fraction: Option<Seq<char>>) -> Seq<char> {
    match fraction {
        Some(f) => "(Number, whole number: "@ + whole + ", fractional part: "@ + f + ")"@,
        None => "(Number, whole number: "@ + whole + ")"@,
    }
}

impl<'a> NumberInfo<'a> {
    /// The text after the decimal point, where there is one.
    pub open spec fn fraction(&self) -> Option<Seq<char>> {
        match self.fractional_part {
            Some(f) => Some(f@),
            None => None,
        }
    }

    pub fn to_string(&self) -> (s: String)
        ensures
            s@ == number_display(self.whole_number@, self.fraction()),
    {
        let mut s = String::from_str("(Number, whole number: ");
        s.append(self.whole_number);
        match self.fractional_part {
            Some(f) => {
                s.append(", fractional part: ");
                s.append(f);
            },
            None => {},
        }
        s.append(")");
        s
    }
}

impl<'a> View for Token<'a> {
    type V = TokenSpec;

    open spec fn view(&self) -> TokenSpec {
        match self {
            Token::Identifier(name) => TokenSpec::Identifier(name@),
            Token::Reserved(reserved) => TokenSpec::Reserved(reserved@),
            Token::Number(info) => TokenSpec::Number(info.whole_number@, info.fraction()),
            Token::Str(raw) => TokenSpec::Str(raw@),
            Token::Char(raw) => TokenSpec::Char(raw@),
        }
    }
}

impl<'a> Token<'a> {
    pub fn to_string(&self) -> (s: String)
        ensures
            s@ == self@.display(),
    {
        match self {
            Token::Identifier(name) => {
                let mut s = String::from_str("(Identifier, Name: ");
                s.append(name);
                s.append(")");
                s
            },
            Token::Reserved(reserved) => match reserved {
                ReservedToken::Char(c) => {
                    if *c != '\n' {
                        let mut s = String::from_str("(Reserved Char, Value: '");
                        s.append(char_string(*c).as_str());
                        s.append("')");
                        return s;
                    }
                    String::from_str("(Reserved Char, Value: '\\n')")
                },
                ReservedToken::Keyword(name) => {
                    let mut s = String::from_str("(Keyword, Name: ");
                    s.append(name);
                    s.append(")");
                    s
                },
                ReservedToken::Operator(symbol, _) => {
                    let mut s = String::from_str("(Operator, Value: '");
                    s.append(symbol);
                    s.append("')");
                    s
                },
            },
            Token::Number(info) => info.to_string(),
            Token::Char(raw) => {
                let mut s = String::from_str("(Char Literal, Value: ");
                s.append(raw);
                s.append(")");
                s
            },
            Token::Str(raw) => {
                let mut s = String::from_str("(String Literal, Value: ");
                s.append(raw);
                s.append(")");
                s
            },
        }
    }

    /// Whether a reserved operator inside that may stand between two operands
    /// has a rank.
    pub fn is_well_formed(&self) -> (ok: bool)
        ensures
            ok == self@.well_formed(),
    {
        match self {
            Token::Reserved(ReservedToken::Operator(_, info)) => !(info.is_binary
                || info.is_ternary) || info.precedence.is_some(),
            _ => true,
        }
    }
}

} // verus!
