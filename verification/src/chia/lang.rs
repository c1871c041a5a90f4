//! The reserved tokens of the language and the lookup among them.

use vstd::prelude::*;
use crate::common::reserved::{OperatorInfo, ReservedSpec, ReservedToken};
use crate::common::text::text_eq;

verus! {

pub const MULTIPLICATION_PRECEDENCE: u32 = 10;

pub const ADDITION_PRECEDENCE: u32 = 15;

pub const BIT_SHIFT_PRECEDENCE: u32 = 20;

pub const RELATIONAL_UNEQUAL_PRECEDENCE: u32 = 25;

pub const RELATIONAL_EQUAL_PRECEDENCE: u32 = 30;

pub const BITWISE_AND_PRECEDENCE: u32 = 35;

pub const BITWISE_XOR_PRECEDENCE: u32 = 40;

pub const BITWISE_OR_PRECEDENCE: u32 = 45;

pub const LOGICAL_AND_PRECEDENCE: u32 = 50;

pub const LOGICAL_OR_PRECEDENCE: u32 = 55;

pub const TERNARY_PRECEDENCE: u32 = 60;

pub const ASSIGNMENT_PRECEDENCE: u32 = 65;

/// How many reserved tokens the language has.
pub const RESERVED_TOKEN_COUNT: usize = 70;

/// An operator that only stands before its operand.
pub open spec fn prefix_only(symbol: Seq<char>) -> ReservedSpec {
    ReservedSpec::Operator(
        symbol,
        OperatorInfo {
            is_prefix: true,
            is_postfix: false,
            is_binary: false,
            is_ternary: false,
            precedence: None,
        },
    )
}

/// An operator that only stands after its operand.
pub open spec fn postfix_only(symbol: Seq<char>) -> ReservedSpec {
    ReservedSpec::Operator(
        symbol,
        OperatorInfo {
            is_prefix: false,
            is_postfix: true,
            is_binary: false,
            is_ternary: false,
            precedence: None,
        },
    )
}

/// An operator that stands before or after its operand.
pub open spec fn prefix_postfix(symbol: Seq<char>) -> ReservedSpec {
    ReservedSpec::Operator(
        symbol,
        OperatorInfo {
            is_prefix: true,
            is_postfix: true,
            is_binary: false,
            is_ternary: false,
            precedence: None,
        },
    )
}

/// An operator that only stands between two operands, with its rank.
pub open spec fn binary(symbol: Seq<char>, rank: u32) -> ReservedSpec {
    ReservedSpec::Operator(
        symbol,
        OperatorInfo {
            is_prefix: false,
            is_postfix: false,
            is_binary: true,
            is_ternary: false,
            precedence: Some(rank),
        },
    )
}

/// An operator that stands before one operand or between two, with its rank
/// between two.
pub open spec fn prefix_binary(symbol: Seq<char>, rank: u32) -> ReservedSpec {
    ReservedSpec::Operator(
        symbol,
        OperatorInfo {
            is_prefix: true,
            is_postfix: false,
            is_binary: true,
            is_ternary: false,
            precedence: Some(rank),
        },
    )
}

/// The mark of the ternary operator, with its rank.
pub open spec fn ternary(symbol: Seq<char>, rank: u32) -> ReservedSpec {
    ReservedSpec::Operator(
        symbol,
        OperatorInfo {
            is_prefix: false,
            is_postfix: false,
            is_binary: false,
            is_ternary: true,
            precedence: Some(rank),
        },
    )
}

/// The reserved token with index `i` in the table: punctuation first, then
/// the operators, then the keywords.
pub open spec fn reserved_entry(i: int) -> ReservedSpec {
    if i == 0 {
        ReservedSpec::Char(';')
    } else if i == 1 {
        ReservedSpec::Char(':')
    } else if i == 2 {
        ReservedSpec::Char(',')
    } else if i == 3 {
        ReservedSpec::Char('\n')
    } else if i == 4 {
        ReservedSpec::Char('\r')
    } else if i == 5 {
        ReservedSpec::Char('{')
    } else if i == 6 {
        ReservedSpec::Char('}')
    } else if i == 7 {
        ReservedSpec::Char('\'')
    } else if i == 8 {
        ReservedSpec::Char('"')
    } else if i == 9 {
        ReservedSpec::Char('(')
    } else if i == 10 {
        ReservedSpec::Char(')')
    } else if i == 11 {
        prefix_only("!"@)
    } else if i == 12 {
        prefix_only("~"@)
    } else if i == 13 {
        postfix_only("."@)
    } else if i == 14 {
        postfix_only("::"@)
    } else if i == 15 {
        postfix_only("["@)
    } else if i == 16 {
        postfix_only("]"@)
    } else if i == 17 {
        prefix_postfix("++"@)
    } else if i == 18 {
        prefix_postfix("--"@)
    } else if i == 19 {
        binary("="@, ASSIGNMENT_PRECEDENCE)
    } else if i == 20 {
        binary("=="@, RELATIONAL_EQUAL_PRECEDENCE)
    } else if i == 21 {
        prefix_binary("+"@, ADDITION_PRECEDENCE)
    } else if i == 22 {
        prefix_binary("-"@, ADDITION_PRECEDENCE)
    } else if i == 23 {
        binary("*"@, MULTIPLICATION_PRECEDENCE)
    } else if i == 24 {
        binary("/"@, MULTIPLICATION_PRECEDENCE)
    } else if i == 25 {
        binary("%"@, MULTIPLICATION_PRECEDENCE)
    } else if i == 26 {
        binary("&"@, BITWISE_AND_PRECEDENCE)
    } else if i == 27 {
        binary("|"@, BITWISE_OR_PRECEDENCE)
    } else if i == 28 {
        binary("^"@, BITWISE_XOR_PRECEDENCE)
    } else if i == 29 {
        binary(">"@, RELATIONAL_UNEQUAL_PRECEDENCE)
    } else if i == 30 {
        binary("<"@, RELATIONAL_UNEQUAL_PRECEDENCE)
    } else if i == 31 {
        binary(">="@, RELATIONAL_UNEQUAL_PRECEDENCE)
    } else if i == 32 {
        binary(">>="@, ASSIGNMENT_PRECEDENCE)
    } else if i == 33 {
        binary("<="@, RELATIONAL_UNEQUAL_PRECEDENCE)
    } else if i == 34 {
        binary("<<="@, ASSIGNMENT_PRECEDENCE)
    } else if i == 35 {
        binary("!="@, RELATIONAL_EQUAL_PRECEDENCE)
    } else if i == 36 {
        binary("+="@, ASSIGNMENT_PRECEDENCE)
    } else if i == 37 {
        binary("-="@, ASSIGNMENT_PRECEDENCE)
    } else if i == 38 {
        binary("*="@, ASSIGNMENT_PRECEDENCE)
    } else if i == 39 {
        binary("/="@, ASSIGNMENT_PRECEDENCE)
    } else if i == 40 {
        binary("%="@, ASSIGNMENT_PRECEDENCE)
    } else if i == 41 {
        binary("||"@, LOGICAL_OR_PRECEDENCE)
    } else if i == 42 {
        binary("|="@, ASSIGNMENT_PRECEDENCE)
    } else if i == 43 {
        binary("&&"@, LOGICAL_AND_PRECEDENCE)
    } else if i == 44 {
        binary("&="@, ASSIGNMENT_PRECEDENCE)
    } else if i == 45 {
        binary("^="@, ASSIGNMENT_PRECEDENCE)
    } else if i == 46 {
        binary("<<"@, BIT_SHIFT_PRECEDENCE)
    } else if i == 47 {
        binary(">>"@, BIT_SHIFT_PRECEDENCE)
    } else if i == 48 {
        ternary("?"@, TERNARY_PRECEDENCE)
    } else if i == 49 {
        ReservedSpec::Keyword("mut"@)
    } else if i == 50 {
        ReservedSpec::Keyword("volatile"@)
    } else if i == 51 {
        ReservedSpec::Keyword("static"@)
    } else if i == 52 {
        ReservedSpec::Keyword("extern"@)
    } else if i == 53 {
        ReservedSpec::Keyword("return"@)
    } else if i == 54 {
        ReservedSpec::Keyword("break"@)
    } else if i == 55 {
        ReservedSpec::Keyword("continue"@)
    } else if i == 56 {
        ReservedSpec::Keyword("if"@)
    } else if i == 57 {
        ReservedSpec::Keyword("else"@)
    } else if i == 58 {
        ReservedSpec::Keyword("do"@)
    } else if i == 59 {
        ReservedSpec::Keyword("while"@)
    } else if i == 60 {
        ReservedSpec::Keyword("for"@)
    } else if i == 61 {
        ReservedSpec::Keyword("switch"@)
    } else if i == 62 {
        ReservedSpec::Keyword("case"@)
    } else if i == 63 {
        ReservedSpec::Keyword("default"@)
    } else if i == 64 {
        ReservedSpec::Keyword("typedef"@)
    } else if i == 65 {
        ReservedSpec::Keyword("enum"@)
    } else if i == 66 {
        ReservedSpec::Keyword("struct"@)
    } else if i == 67 {
        ReservedSpec::Keyword("register"@)
    } else if i == 68 {
        ReservedSpec::Keyword("goto"@)
    } else {
        ReservedSpec::Keyword("sizeof"@)
    }
}

/// The first table entry from index `i` on that is spelled `text`.
pub open spec fn find_from(text: Seq<char>, i: int) -> Option<ReservedSpec>
    decreases RESERVED_TOKEN_COUNT - i,
{
    if i < 0 || i >= RESERVED_TOKEN_COUNT {
        None
    } else if reserved_entry(i).text() == text {
        Some(reserved_entry(i))
    } else {
        find_from(text, i + 1)
    }
}

/// The reserved token that is spelled exactly `text`, if there is one.
pub open spec fn find_reserved(text: Seq<char>) -> Option<ReservedSpec> {
    find_from(text, 0)
}

/// Whether `text` spells a reserved token.
pub open spec fn is_reserved(text: Seq<char>) -> bool {
    find_reserved(text) is Some
}

/// Whether the single character `c` is a reserved token.
pub open spec fn is_reserved_char(c: char) -> bool {
    is_reserved(seq![c])
}

proof fn lemma_find_from(text: Seq<char>, i: int)
    requires
        0 <= i <= RESERVED_TOKEN_COUNT,
    ensures
        match find_from(text, i) {
            Some(t) => exists|k: int|
                i <= k < RESERVED_TOKEN_COUNT && #[trigger] reserved_entry(k) == t && t.text()
                    == text,
            None => forall|k: int|
                i <= k < RESERVED_TOKEN_COUNT ==> (#[trigger] reserved_entry(k)).text() != text,
        },
    decreases RESERVED_TOKEN_COUNT - i,
{
    if i < RESERVED_TOKEN_COUNT && reserved_entry(i).text() != text {
        lemma_find_from(text, i + 1);
    }
}

/// The lookup is exact: what it finds is an entry of the table spelled as
/// the text asked for, and it finds nothing only where no entry is spelled
/// so.
pub proof fn lemma_find_reserved(text: Seq<char>)
    ensures
        match find_reserved(text) {
            Some(t) => t.text() == text && exists|k: int|
                0 <= k < RESERVED_TOKEN_COUNT && #[trigger] reserved_entry(k) == t,
            None => forall|k: int|
                0 <= k < RESERVED_TOKEN_COUNT ==> (#[trigger] reserved_entry(k)).text() != text,
        },
{
    lemma_find_from(text, 0);
}

/// Every entry of the table that may stand between two operands has a rank.
pub proof fn lemma_entries_well_formed(i: int)
    ensures
        reserved_entry(i).well_formed(),
{
}

/// Whatever the lookup finds is well formed.
pub proof fn lemma_found_well_formed(text: Seq<char>)
    ensures
        find_reserved(text) matches Some(t) ==> t.well_formed(),
{
    lemma_find_reserved(text);
    if let Some(t) = find_reserved(text) {
        let k = choose|k: int| 0 <= k < RESERVED_TOKEN_COUNT && #[trigger] reserved_entry(k) == t;
        lemma_entries_well_formed(k);
    }
}

/// No two entries of the table are spelled alike.
pub proof fn lemma_entries_distinct(i: int, j: int)
    requires
        0 <= i < j < RESERVED_TOKEN_COUNT,
    ensures
        reserved_entry(i).text() != reserved_entry(j).text(),
{
    reveal_strlit("!");
    reveal_strlit("~");
    reveal_strlit(".");
    reveal_strlit("::");
    reveal_strlit("[");
    reveal_strlit("]");
    reveal_strlit("++");
    reveal_strlit("--");
    reveal_strlit("=");
    reveal_strlit("==");
    reveal_strlit("+");
    reveal_strlit("-");
    reveal_strlit("*");
    reveal_strlit("/");
    reveal_strlit("%");
    reveal_strlit("&");
    reveal_strlit("|");
    reveal_strlit("^");
    reveal_strlit(">");
    reveal_strlit("<");
    reveal_strlit(">=");
    reveal_strlit(">>=");
    reveal_strlit("<=");
    reveal_strlit("<<=");
    reveal_strlit("!=");
    reveal_strlit("+=");
    reveal_strlit("-=");
    reveal_strlit("*=");
    reveal_strlit("/=");
    reveal_strlit("%=");
    reveal_strlit("||");
    reveal_strlit("|=");
    reveal_strlit("&&");
    reveal_strlit("&=");
    reveal_strlit("^=");
    reveal_strlit("<<");
    reveal_strlit(">>");
    reveal_strlit("?");
    reveal_strlit("mut");
    reveal_strlit("volatile");
    reveal_strlit("static");
    reveal_strlit("extern");
    reveal_strlit("return");
    reveal_strlit("break");
    reveal_strlit("continue");
    reveal_strlit("if");
    reveal_strlit("else");
    reveal_strlit("do");
    reveal_strlit("while");
    reveal_strlit("for");
    reveal_strlit("switch");
    reveal_strlit("case");
    reveal_strlit("default");
    reveal_strlit("typedef");
    reveal_strlit("enum");
    reveal_strlit("struct");
    reveal_strlit("register");
    reveal_strlit("goto");
    reveal_strlit("sizeof");
    let a = reserved_entry(i).text();
    let b = reserved_entry(j).text();
    assert(a.len() != b.len() || a[0] != b[0] || (a.len() > 1 && a[1] != b[1]) || (a.len() > 2
        && a[2] != b[2]) || (a.len() > 3 && a[3] != b[3]));
}

/// A text that some entry of the table is spelled as is reserved.
pub proof fn lemma_spelled_is_reserved(text: Seq<char>, k: int)
    requires
        0 <= k < RESERVED_TOKEN_COUNT,
        reserved_entry(k).text() == text,
    ensures
        is_reserved(text),
{
    lemma_find_reserved(text);
}

/// Every entry of the table is found under its own spelling, and it is
/// that entry which is found.
pub proof fn lemma_every_entry_is_found(k: int)
    requires
        0 <= k < RESERVED_TOKEN_COUNT,
    ensures
        find_reserved(reserved_entry(k).text()) == Some(reserved_entry(k)),
{
    let text = reserved_entry(k).text();
    lemma_find_reserved(text);
    let found = find_reserved(text).unwrap();
    let m = choose|m: int| 0 <= m < RESERVED_TOKEN_COUNT && #[trigger] reserved_entry(m) == found;
    if m < k {
        lemma_entries_distinct(m, k);
    } else if k < m {
        lemma_entries_distinct(k, m);
    }
}

/// Every beginning of an operator or of a punctuation character is
/// reserved itself: the greedy scan of the tokenizer rests on this.
pub proof fn lemma_operator_prefixes_reserved(k: int, n: int)
    requires
        0 <= k < RESERVED_TOKEN_COUNT,
        !(reserved_entry(k) is Keyword),
        1 <= n <= reserved_entry(k).text().len(),
    ensures
        is_reserved(reserved_entry(k).text().subrange(0, n)),
{
    reveal_strlit("!");
    reveal_strlit("~");
    reveal_strlit(".");
    reveal_strlit("::");
    reveal_strlit("[");
    reveal_strlit("]");
    reveal_strlit("++");
    reveal_strlit("--");
    reveal_strlit("=");
    reveal_strlit("==");
    reveal_strlit("+");
    reveal_strlit("-");
    reveal_strlit("*");
    reveal_strlit("/");
    reveal_strlit("%");
    reveal_strlit("&");
    reveal_strlit("|");
    reveal_strlit("^");
    reveal_strlit(">");
    reveal_strlit("<");
    reveal_strlit(">=");
    reveal_strlit(">>=");
    reveal_strlit("<=");
    reveal_strlit("<<=");
    reveal_strlit("!=");
    reveal_strlit("+=");
    reveal_strlit("-=");
    reveal_strlit("*=");
    reveal_strlit("/=");
    reveal_strlit("%=");
    reveal_strlit("||");
    reveal_strlit("|=");
    reveal_strlit("&&");
    reveal_strlit("&=");
    reveal_strlit("^=");
    reveal_strlit("<<");
    reveal_strlit(">>");
    reveal_strlit("?");
    let witness: int = if k == 14 && n == 1 {
        1
    } else if k == 17 && n == 1 {
        21
    } else if k == 18 && n == 1 {
        22
    } else if k == 20 && n == 1 {
        19
    } else if k == 31 && n == 1 {
        29
    } else if k == 32 && n == 1 {
        29
    } else if k == 32 && n == 2 {
        47
    } else if k == 33 && n == 1 {
        30
    } else if k == 34 && n == 1 {
        30
    } else if k == 34 && n == 2 {
        46
    } else if k == 35 && n == 1 {
        11
    } else if k == 36 && n == 1 {
        21
    } else if k == 37 && n == 1 {
        22
    } else if k == 38 && n == 1 {
        23
    } else if k == 39 && n == 1 {
        24
    } else if k == 40 && n == 1 {
        25
    } else if k == 41 && n == 1 {
        27
    } else if k == 42 && n == 1 {
        27
    } else if k == 43 && n == 1 {
        26
    } else if k == 44 && n == 1 {
        26
    } else if k == 45 && n == 1 {
        28
    } else if k == 46 && n == 1 {
        30
    } else if k == 47 && n == 1 {
        29
    } else {
        k
    };
    assert(reserved_entry(witness).text() =~= reserved_entry(k).text().subrange(0, n));
    lemma_spelled_is_reserved(reserved_entry(k).text().subrange(0, n), witness);
}

/// The single characters that are reserved tokens: the punctuation and
/// the operators of one character.
pub open spec fn is_reserved_mark(c: char) -> bool {
    ||| c == ';'
    ||| c == ':'
    ||| c == ','
    ||| c == '\n'
    ||| c == '\r'
    ||| c == '{'
    ||| c == '}'
    ||| c == '\''
    ||| c == '"'
    ||| c == '('
    ||| c == ')'
    ||| c == '!'
    ||| c == '~'
    ||| c == '.'
    ||| c == '['
    ||| c == ']'
    ||| c == '='
    ||| c == '+'
    ||| c == '-'
    ||| c == '*'
    ||| c == '/'
    ||| c == '%'
    ||| c == '&'
    ||| c == '|'
    ||| c == '^'
    ||| c == '>'
    ||| c == '<'
    ||| c == '?'
}

/// A single character is reserved exactly if it is one of the reserved
/// marks.
pub proof fn lemma_reserved_chars(c: char)
    ensures
        is_reserved_char(c) == is_reserved_mark(c),
{
    reveal_strlit("!");
    reveal_strlit("~");
    reveal_strlit(".");
    reveal_strlit("::");
    reveal_strlit("[");
    reveal_strlit("]");
    reveal_strlit("++");
    reveal_strlit("--");
    reveal_strlit("=");
    reveal_strlit("==");
    reveal_strlit("+");
    reveal_strlit("-");
    reveal_strlit("*");
    reveal_strlit("/");
    reveal_strlit("%");
    reveal_strlit("&");
    reveal_strlit("|");
    reveal_strlit("^");
    reveal_strlit(">");
    reveal_strlit("<");
    reveal_strlit(">=");
    reveal_strlit(">>=");
    reveal_strlit("<=");
    reveal_strlit("<<=");
    reveal_strlit("!=");
    reveal_strlit("+=");
    reveal_strlit("-=");
    reveal_strlit("*=");
    reveal_strlit("/=");
    reveal_strlit("%=");
    reveal_strlit("||");
    reveal_strlit("|=");
    reveal_strlit("&&");
    reveal_strlit("&=");
    reveal_strlit("^=");
    reveal_strlit("<<");
    reveal_strlit(">>");
    reveal_strlit("?");
    reveal_strlit("mut");
    reveal_strlit("volatile");
    reveal_strlit("static");
    reveal_strlit("extern");
    reveal_strlit("return");
    reveal_strlit("break");
    reveal_strlit("continue");
    reveal_strlit("if");
    reveal_strlit("else");
    reveal_strlit("do");
    reveal_strlit("while");
    reveal_strlit("for");
    reveal_strlit("switch");
    reveal_strlit("case");
    reveal_strlit("default");
    reveal_strlit("typedef");
    reveal_strlit("enum");
    reveal_strlit("struct");
    reveal_strlit("register");
    reveal_strlit("goto");
    reveal_strlit("sizeof");
    let k: int = if c == ';' {
        0
    } else if c == ':' {
        1
    } else if c == ',' {
        2
    } else if c == '\n' {
        3
    } else if c == '\r' {
        4
    } else if c == '{' {
        5
    } else if c == '}' {
        6
    } else if c == '\'' {
        7
    } else if c == '"' {
        8
    } else if c == '(' {
        9
    } else if c == ')' {
        10
    } else if c == '!' {
        11
    } else if c == '~' {
        12
    } else if c == '.' {
        13
    } else if c == '[' {
        15
    } else if c == ']' {
        16
    } else if c == '=' {
        19
    } else if c == '+' {
        21
    } else if c == '-' {
        22
    } else if c == '*' {
        23
    } else if c == '/' {
        24
    } else if c == '%' {
        25
    } else if c == '&' {
        26
    } else if c == '|' {
        27
    } else if c == '^' {
        28
    } else if c == '>' {
        29
    } else if c == '<' {
        30
    } else if c == '?' {
        48
    } else {
        -1
    };
    lemma_find_reserved(seq![c]);
    if is_reserved_mark(c) {
        assert(reserved_entry(k).text() =~= seq![c]);
    } else if let Some(found) = find_reserved(seq![c]) {
        let m = choose|m: int| 0 <= m < RESERVED_TOKEN_COUNT && #[trigger] reserved_entry(m) == found;
        assert(reserved_entry(m).text().len() == 1);
        assert(reserved_entry(m).text()[0] == c);
    }
}

/// A quote begins no reserved token but itself.
pub proof fn lemma_quote_begins_only_itself(text: Seq<char>)
    requires
        text.len() >= 2,
        text[0] == '"' || text[0] == '\'',
    ensures
        !is_reserved(text),
{
    reveal_strlit("!");
    reveal_strlit("~");
    reveal_strlit(".");
    reveal_strlit("::");
    reveal_strlit("[");
    reveal_strlit("]");
    reveal_strlit("++");
    reveal_strlit("--");
    reveal_strlit("=");
    reveal_strlit("==");
    reveal_strlit("+");
    reveal_strlit("-");
    reveal_strlit("*");
    reveal_strlit("/");
    reveal_strlit("%");
    reveal_strlit("&");
    reveal_strlit("|");
    reveal_strlit("^");
    reveal_strlit(">");
    reveal_strlit("<");
    reveal_strlit(">=");
    reveal_strlit(">>=");
    reveal_strlit("<=");
    reveal_strlit("<<=");
    reveal_strlit("!=");
    reveal_strlit("+=");
    reveal_strlit("-=");
    reveal_strlit("*=");
    reveal_strlit("/=");
    reveal_strlit("%=");
    reveal_strlit("||");
    reveal_strlit("|=");
    reveal_strlit("&&");
    reveal_strlit("&=");
    reveal_strlit("^=");
    reveal_strlit("<<");
    reveal_strlit(">>");
    reveal_strlit("?");
    reveal_strlit("mut");
    reveal_strlit("volatile");
    reveal_strlit("static");
    reveal_strlit("extern");
    reveal_strlit("return");
    reveal_strlit("break");
    reveal_strlit("continue");
    reveal_strlit("if");
    reveal_strlit("else");
    reveal_strlit("do");
    reveal_strlit("while");
    reveal_strlit("for");
    reveal_strlit("switch");
    reveal_strlit("case");
    reveal_strlit("default");
    reveal_strlit("typedef");
    reveal_strlit("enum");
    reveal_strlit("struct");
    reveal_strlit("register");
    reveal_strlit("goto");
    reveal_strlit("sizeof");
    lemma_find_reserved(text);
    if let Some(found) = find_reserved(text) {
        let m = choose|m: int| 0 <= m < RESERVED_TOKEN_COUNT && #[trigger] reserved_entry(m) == found;
        assert(reserved_entry(m).text()[0] == text[0]);
        assert(reserved_entry(m).text().len() >= 2);
    }
}

/// The entry of the table with index `i`.
fn reserved_token_at<'a>(i: usize) -> (token: &'a ReservedToken<'a>)
    requires
        i < RESERVED_TOKEN_COUNT,
    ensures
        token@ == reserved_entry(i as int),
{
    match i {
        0 => &ReservedToken::Char(';'),
        1 => &ReservedToken::Char(':'),
        2 => &ReservedToken::Char(','),
        3 => &ReservedToken::Char('\n'),
        4 => &ReservedToken::Char('\r'),
        5 => &ReservedToken::Char('{'),
        6 => &ReservedToken::Char('}'),
        7 => &ReservedToken::Char('\''),
        8 => &ReservedToken::Char('"'),
        9 => &ReservedToken::Char('('),
        10 => &ReservedToken::Char(')'),
        11 => &ReservedToken::Operator(
                "!",
                OperatorInfo {
                    is_prefix: true,
                    is_postfix: false,
                    is_binary: false,
                    is_ternary: false,
                    precedence: None,
                },
            ),
        12 => &ReservedToken::Operator(
                "~",
                OperatorInfo {
                    is_prefix: true,
                    is_postfix: false,
                    is_binary: false,
                    is_ternary: false,
                    precedence: None,
                },
            ),
        13 => &ReservedToken::Operator(
                ".",
                OperatorInfo {
                    is_prefix: false,
                    is_postfix: true,
                    is_binary: false,
                    is_ternary: false,
                    precedence: None,
                },
            ),
        14 => &ReservedToken::Operator(
                "::",
                OperatorInfo {
                    is_prefix: false,
                    is_postfix: true,
                    is_binary: false,
                    is_ternary: false,
                    precedence: None,
                },
            ),
        15 => &ReservedToken::Operator(
                "[",
                OperatorInfo {
                    is_prefix: false,
                    is_postfix: true,
                    is_binary: false,
                    is_ternary: false,
                    precedence: None,
                },
            ),
        16 => &ReservedToken::Operator(
                "]",
                OperatorInfo {
                    is_prefix: false,
                    is_postfix: true,
                    is_binary: false,
                    is_ternary: false,
                    precedence: None,
                },
            ),
        17 => &ReservedToken::Operator(
                "++",
                OperatorInfo {
                    is_prefix: true,
                    is_postfix: true,
                    is_binary: false,
                    is_ternary: false,
                    precedence: None,
                },
            ),
        18 => &ReservedToken::Operator(
                "--",
                OperatorInfo {
                    is_prefix: true,
                    is_postfix: true,
                    is_binary: false,
                    is_ternary: false,
                    precedence: None,
                },
            ),
        19 => &ReservedToken::Operator(
                "=",
                OperatorInfo {
                    is_prefix: false,
                    is_postfix: false,
                    is_binary: true,
                    is_ternary: false,
                    precedence: Some(ASSIGNMENT_PRECEDENCE),
                },
            ),
        20 => &ReservedToken::Operator(
                "==",
                OperatorInfo {
                    is_prefix: false,
                    is_postfix: false,
                    is_binary: true,
                    is_ternary: false,
                    precedence: Some(RELATIONAL_EQUAL_PRECEDENCE),
                },
            ),
        21 => &ReservedToken::Operator(
                "+",
                OperatorInfo {
                    is_prefix: true,
                    is_postfix: false,
                    is_binary: true,
                    is_ternary: false,
                    precedence: Some(ADDITION_PRECEDENCE),
                },
            ),
        22 => &ReservedToken::Operator(
                "-",
                OperatorInfo {
                    is_prefix: true,
                    is_postfix: false,
                    is_binary: true,
                    is_ternary: false,
                    precedence: Some(ADDITION_PRECEDENCE),
                },
            ),
        23 => &ReservedToken::Operator(
                "*",
                OperatorInfo {
                    is_prefix: false,
                    is_postfix: false,
                    is_binary: true,
                    is_ternary: false,
                    precedence: Some(MULTIPLICATION_PRECEDENCE),
                },
            ),
        24 => &ReservedToken::Operator(
                "/",
                OperatorInfo {
                    is_prefix: false,
                    is_postfix: false,
                    is_binary: true,
                    is_ternary: false,
                    precedence: Some(MULTIPLICATION_PRECEDENCE),
                },
            ),
        25 => &ReservedToken::Operator(
                "%",
                OperatorInfo {
                    is_prefix: false,
                    is_postfix: false,
                    is_binary: true,
                    is_ternary: false,
                    precedence: Some(MULTIPLICATION_PRECEDENCE),
                },
            ),
        26 => &ReservedToken::Operator(
                "&",
                OperatorInfo {
                    is_prefix: false,
                    is_postfix: false,
                    is_binary: true,
                    is_ternary: false,
                    precedence: Some(BITWISE_AND_PRECEDENCE),
                },
            ),
        27 => &ReservedToken::Operator(
                "|",
                OperatorInfo {
                    is_prefix: false,
                    is_postfix: false,
                    is_binary: true,
                    is_ternary: false,
                    precedence: Some(BITWISE_OR_PRECEDENCE),
                },
            ),
        28 => &ReservedToken::Operator(
                "^",
                OperatorInfo {
                    is_prefix: false,
                    is_postfix: false,
                    is_binary: true,
                    is_ternary: false,
                    precedence: Some(BITWISE_XOR_PRECEDENCE),
                },
            ),
        29 => &ReservedToken::Operator(
                ">",
                OperatorInfo {
                    is_prefix: false,
                    is_postfix: false,
                    is_binary: true,
                    is_ternary: false,
                    precedence: Some(RELATIONAL_UNEQUAL_PRECEDENCE),
                },
            ),
        30 => &ReservedToken::Operator(
                "<",
                OperatorInfo {
                    is_prefix: false,
                    is_postfix: false,
                    is_binary: true,
                    is_ternary: false,
                    precedence: Some(RELATIONAL_UNEQUAL_PRECEDENCE),
                },
            ),
        31 => &ReservedToken::Operator(
                ">=",
                OperatorInfo {
                    is_prefix: false,
                    is_postfix: false,
                    is_binary: true,
                    is_ternary: false,
                    precedence: Some(RELATIONAL_UNEQUAL_PRECEDENCE),
                },
            ),
        32 => &ReservedToken::Operator(
                ">>=",
                OperatorInfo {
                    is_prefix: false,
                    is_postfix: false,
                    is_binary: true,
                    is_ternary: false,
                    precedence: Some(ASSIGNMENT_PRECEDENCE),
                },
            ),
        33 => &ReservedToken::Operator(
                "<=",
                OperatorInfo {
                    is_prefix: false,
                    is_postfix: false,
                    is_binary: true,
                    is_ternary: false,
                    precedence: Some(RELATIONAL_UNEQUAL_PRECEDENCE),
                },
            ),
        34 => &ReservedToken::Operator(
                "<<=",
                OperatorInfo {
                    is_prefix: false,
                    is_postfix: false,
                    is_binary: true,
                    is_ternary: false,
                    precedence: Some(ASSIGNMENT_PRECEDENCE),
                },
            ),
        35 => &ReservedToken::Operator(
                "!=",
                OperatorInfo {
                    is_prefix: false,
                    is_postfix: false,
                    is_binary: true,
                    is_ternary: false,
                    precedence: Some(RELATIONAL_EQUAL_PRECEDENCE),
                },
            ),
        36 => &ReservedToken::Operator(
                "+=",
                OperatorInfo {
                    is_prefix: false,
                    is_postfix: false,
                    is_binary: true,
                    is_ternary: false,
                    precedence: Some(ASSIGNMENT_PRECEDENCE),
                },
            ),
        37 => &ReservedToken::Operator(
                "-=",
                OperatorInfo {
                    is_prefix: false,
                    is_postfix: false,
                    is_binary: true,
                    is_ternary: false,
                    precedence: Some(ASSIGNMENT_PRECEDENCE),
                },
            ),
        38 => &ReservedToken::Operator(
                "*=",
                OperatorInfo {
                    is_prefix: false,
                    is_postfix: false,
                    is_binary: true,
                    is_ternary: false,
                    precedence: Some(ASSIGNMENT_PRECEDENCE),
                },
            ),
        39 => &ReservedToken::Operator(
                "/=",
                OperatorInfo {
                    is_prefix: false,
                    is_postfix: false,
                    is_binary: true,
                    is_ternary: false,
                    precedence: Some(ASSIGNMENT_PRECEDENCE),
                },
            ),
        40 => &ReservedToken::Operator(
                "%=",
                OperatorInfo {
                    is_prefix: false,
                    is_postfix: false,
                    is_binary: true,
                    is_ternary: false,
                    precedence: Some(ASSIGNMENT_PRECEDENCE),
                },
            ),
        41 => &ReservedToken::Operator(
                "||",
                OperatorInfo {
                    is_prefix: false,
                    is_postfix: false,
                    is_binary: true,
                    is_ternary: false,
                    precedence: Some(LOGICAL_OR_PRECEDENCE),
                },
            ),
        42 => &ReservedToken::Operator(
                "|=",
                OperatorInfo {
                    is_prefix: false,
                    is_postfix: false,
                    is_binary: true,
                    is_ternary: false,
                    precedence: Some(ASSIGNMENT_PRECEDENCE),
                },
            ),
        43 => &ReservedToken::Operator(
                "&&",
                OperatorInfo {
                    is_prefix: false,
                    is_postfix: false,
                    is_binary: true,
                    is_ternary: false,
                    precedence: Some(LOGICAL_AND_PRECEDENCE),
                },
            ),
        44 => &ReservedToken::Operator(
                "&=",
                OperatorInfo {
                    is_prefix: false,
                    is_postfix: false,
                    is_binary: true,
                    is_ternary: false,
                    precedence: Some(ASSIGNMENT_PRECEDENCE),
                },
            ),
        45 => &ReservedToken::Operator(
                "^=",
                OperatorInfo {
                    is_prefix: false,
                    is_postfix: false,
                    is_binary: true,
                    is_ternary: false,
                    precedence: Some(ASSIGNMENT_PRECEDENCE),
                },
            ),
        46 => &ReservedToken::Operator(
                "<<",
                OperatorInfo {
                    is_prefix: false,
                    is_postfix: false,
                    is_binary: true,
                    is_ternary: false,
                    precedence: Some(BIT_SHIFT_PRECEDENCE),
                },
            ),
        47 => &ReservedToken::Operator(
                ">>",
                OperatorInfo {
                    is_prefix: false,
                    is_postfix: false,
                    is_binary: true,
                    is_ternary: false,
                    precedence: Some(BIT_SHIFT_PRECEDENCE),
                },
            ),
        48 => &ReservedToken::Operator(
                "?",
                OperatorInfo {
                    is_prefix: false,
                    is_postfix: false,
                    is_binary: false,
                    is_ternary: true,
                    precedence: Some(TERNARY_PRECEDENCE),
                },
            ),
        49 => &ReservedToken::Keyword("mut"),
        50 => &ReservedToken::Keyword("volatile"),
        51 => &ReservedToken::Keyword("static"),
        52 => &ReservedToken::Keyword("extern"),
        53 => &ReservedToken::Keyword("return"),
        54 => &ReservedToken::Keyword("break"),
        55 => &ReservedToken::Keyword("continue"),
        56 => &ReservedToken::Keyword("if"),
        57 => &ReservedToken::Keyword("else"),
        58 => &ReservedToken::Keyword("do"),
        59 => &ReservedToken::Keyword("while"),
        60 => &ReservedToken::Keyword("for"),
        61 => &ReservedToken::Keyword("switch"),
        62 => &ReservedToken::Keyword("case"),
        63 => &ReservedToken::Keyword("default"),
        64 => &ReservedToken::Keyword("typedef"),
        65 => &ReservedToken::Keyword("enum"),
        66 => &ReservedToken::Keyword("struct"),
        67 => &ReservedToken::Keyword("register"),
        68 => &ReservedToken::Keyword("goto"),
        _ => &ReservedToken::Keyword("sizeof"),
    }
}

/// Whether the reserved token is spelled exactly `s`.
fn spells(token: &ReservedToken, s: &str) -> (same: bool)
    ensures
        same == (token@.text() == s@),
{
    match token {
        ReservedToken::Char(c) => {
            let same = s.unicode_len() == 1 && s.get_char(0) == *c;
            assert(same == (seq![*c] =~= s@));
            same
        },
        ReservedToken::Operator(symbol, _) => text_eq(symbol, s),
        ReservedToken::Keyword(name) => text_eq(name, s),
    }
}

/// Looks `s` up among the reserved tokens. The match is exact: a prefix of a
/// reserved token is not found unless it is one itself.
pub fn find_reserved_token<'a>(s: &str) -> (found: Option<&'a ReservedToken<'a>>)
    ensures
        match found {
            Some(token) => find_reserved(s@) == Some(token@),
            None => find_reserved(s@) is None,
        },
        found matches Some(token) ==> token@.text() == s@ && token@.well_formed(),
        found is None ==> forall|k: int|
            0 <= k < RESERVED_TOKEN_COUNT ==> (#[trigger] reserved_entry(k)).text() != s@,
{
    proof {
        lemma_find_reserved(s@);
        lemma_found_well_formed(s@);
    }
    let mut i: usize = 0;
    while i < RESERVED_TOKEN_COUNT
        invariant
            0 <= i <= RESERVED_TOKEN_COUNT,
            find_reserved(s@) == find_from(s@, i as int),
        decreases RESERVED_TOKEN_COUNT - i,
    {
        let token = reserved_token_at(i);
        if spells(token, s) {
            return Some(token);
        }
        i += 1;
    }
    None
}

} // verus!
