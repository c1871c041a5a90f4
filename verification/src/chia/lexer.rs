//! The tokenizer: from source text to tokens with their places.

use vstd::prelude::*;
use crate::chia::lang::{
    find_reserved, find_reserved_token, is_reserved, is_reserved_char, lemma_find_reserved,
    lemma_found_well_formed, lemma_operator_prefixes_reserved, lemma_quote_begins_only_itself,
    lemma_reserved_chars,
    reserved_entry, RESERVED_TOKEN_COUNT,
};
use crate::common::position::{
    lemma_position_bounds, position_at, range_at, range_display, Position, PositionRange,
};
use crate::common::text::{char_is_digit, char_is_whitespace, is_digit, is_whitespace};
use crate::common::token::{NumberInfo, Token, TokenSpec};

verus! {

/// A lexical error: what is wrong, and where.
#[derive(Debug, PartialEq, Eq)]
pub struct LexerError {
    pub description: String,
    pub position_range: PositionRange,
}

impl LexerError {
    pub fn to_string(&self) -> (s: String)
        ensures
            s@ == self.description@ + " (Position: "@ + range_display(self.position_range) + ")"@,
    {
        let mut s = self.description.clone();
        s.append(" (Position: ");
        s.append(self.position_range.to_string().as_str());
        s.append(")");
        s
    }
}

/// The character with index `i`, if the text has one.
pub open spec fn char_at(src: Seq<char>, i: int) -> Option<char> {
    if 0 <= i < src.len() {
        Some(src[i])
    } else {
        None
    }
}

/// The character before index `i` in a scan that began at `from`: none for
/// the first character scanned.
pub open spec fn previous(src: Seq<char>, from: int, i: int) -> Option<char> {
    if i <= from {
        None
    } else {
        Some(src[i - 1])
    }
}

/// White space that separates tokens. A newline is a token of its own.
pub open spec fn is_blank(c: char) -> bool {
    (is_whitespace(c) || c == '\r') && c != '\n'
}

/// A character at which a number or a word ends: a reserved character or
/// white space.
pub open spec fn is_boundary(c: char) -> bool {
    is_reserved_char(c) || is_whitespace(c)
}

/// The first index from `i` on that holds no blank, or the length of the
/// text.
pub open spec fn skip_blanks(src: Seq<char>, i: int) -> int
    decreases src.len() - i,
{
    if 0 <= i < src.len() && is_blank(src[i]) {
        skip_blanks(src, i + 1)
    } else {
        i
    }
}

/// Where the greedy scan for a reserved token that starts at `start` ends,
/// given that it has reached `j`: the scan takes one more character as long
/// as the text from `start` through that character is a reserved token.
pub open spec fn reserved_end(src: Seq<char>, start: int, j: int) -> int
    decreases src.len() - j,
{
    if 0 <= start <= j < src.len() && is_reserved(src.subrange(start, j + 1)) {
        reserved_end(src, start, j + 1)
    } else {
        j
    }
}

/// Whether `current` closes a literal opened by `quote`: it is the quote and
/// no backslash stands right before it.
pub open spec fn closes(quote: char, last: Option<char>, current: char) -> bool {
    current == quote && last != Some('\\')
}

/// The index of the quote that closes a literal whose content begins at
/// `from`, searched from `j` on, or the length of the text if none does.
pub open spec fn literal_end(src: Seq<char>, quote: char, from: int, j: int) -> int
    decreases src.len() - j,
{
    if 0 <= j < src.len() && !closes(quote, previous(src, from, j), src[j]) {
        literal_end(src, quote, from, j + 1)
    } else if j < src.len() {
        j
    } else {
        src.len() as int
    }
}

/// The index of the first `;` from `i` on, or the length of the text.
pub open spec fn semicolon_from(src: Seq<char>, i: int) -> int
    decreases src.len() - i,
{
    if 0 <= i < src.len() && src[i] != ';' {
        semicolon_from(src, i + 1)
    } else if i < src.len() {
        i
    } else {
        src.len() as int
    }
}

/// The end of the run of digits that starts at `j`.
pub open spec fn digits_end(src: Seq<char>, j: int) -> int
    decreases src.len() - j,
{
    if 0 <= j < src.len() && !is_boundary(src[j]) && is_digit(src[j]) {
        digits_end(src, j + 1)
    } else {
        j
    }
}

/// The end of the run of characters from `j` on that are no boundary.
pub open spec fn word_end(src: Seq<char>, j: int) -> int
    decreases src.len() - j,
{
    if 0 <= j < src.len() && !is_boundary(src[j]) {
        word_end(src, j + 1)
    } else {
        j
    }
}

/// Whether a number may end before index `e`: the text ends there or a
/// boundary follows.
pub open spec fn number_may_end(src: Seq<char>, e: int) -> bool {
    e >= src.len() || is_boundary(src[e])
}

/// The end of the digits of a number that start at `i`, if they form a
/// valid run: at least one digit, after the decimal point (`whole` false)
/// an `f` may follow them, and then the text ends or a boundary follows.
pub open spec fn number_end(src: Seq<char>, i: int, whole: bool) -> Option<int> {
    let d = digits_end(src, i);
    if d <= i {
        None
    } else if number_may_end(src, d) {
        Some(d)
    } else if !whole && src[d] == 'f' && number_may_end(src, d + 1) {
        Some(d + 1)
    } else {
        None
    }
}

/// What one step of the tokenizer yields.
pub enum LexItem {
    /// A token, with the indices of its first and its last character.
    Token(TokenSpec, int, int),
    /// Nothing: the text has no further token.
    End,
    /// An error with its description and the indices that bound its range.
    Error(Seq<char>, int, int),
}

/// One step of the tokenizer: what it yields and where the cursor stands
/// afterwards.
pub struct LexStep {
    pub item: LexItem,
    pub next: int,
}

/// The step for a literal opened by `quote` at `start`, with the cursor at
/// `from` behind the opening quote: the literal runs through the closing
/// quote; without one it is an error, and the cursor moves to the next `;`.
pub open spec fn quoted_step(src: Seq<char>, start: int, from: int, quote: char) -> LexStep {
    let close = literal_end(src, quote, from, from);
    let raw = src.subrange(start, close + 1);
    if close < src.len() {
        LexStep {
            item: LexItem::Token(
                if quote == '"' {
                    TokenSpec::Str(raw)
                } else {
                    TokenSpec::Char(raw)
                },
                start,
                close,
            ),
            next: close + 1,
        }
    } else {
        LexStep {
            item: LexItem::Error(
                if quote == '"' {
                    "A string literal must be closed with '\"'."@
                } else {
                    "A char literal must be closed with '\''."@
                },
                start,
                start,
            ),
            next: semicolon_from(src, from),
        }
    }
}

/// The step for a number whose whole part runs from `start` to `e`.
pub open spec fn number_step(src: Seq<char>, start: int, e: int) -> LexStep {
    if char_at(src, e) == Some('.') {
        match number_end(src, e + 1, false) {
            Some(g) => LexStep {
                item: LexItem::Token(
                    TokenSpec::Number(src.subrange(start, e), Some(src.subrange(e + 1, g))),
                    start,
                    g - 1,
                ),
                next: g,
            },
            None => LexStep {
                item: LexItem::Error("Number literal is invalid."@, start, e + 1),
                next: semicolon_from(src, e + 1),
            },
        }
    } else {
        LexStep {
            item: LexItem::Token(TokenSpec::Number(src.subrange(start, e), None), start, e - 1),
            next: e,
        }
    }
}

/// The step for a word that starts at `start`: a keyword if it is reserved,
/// an error if it begins with a digit, an identifier otherwise; nothing if
/// no word starts there.
pub open spec fn word_step(src: Seq<char>, start: int) -> LexStep {
    let w = word_end(src, start);
    let word = src.subrange(start, w);
    if w <= start {
        LexStep { item: LexItem::End, next: start }
    } else {
        match find_reserved(word) {
            Some(reserved) => LexStep {
                item: LexItem::Token(TokenSpec::Reserved(reserved), start, w - 1),
                next: w,
            },
            None => if is_digit(src[start]) {
                LexStep {
                    item: LexItem::Error("Invalid identifier found."@, start, w - 1),
                    next: semicolon_from(src, w),
                }
            } else {
                LexStep { item: LexItem::Token(TokenSpec::Identifier(word), start, w - 1), next: w }
            },
        }
    }
}

/// The step of the tokenizer with the cursor at `i`. Blanks are skipped.
/// The longest reserved token that the greedy scan reaches is taken, a quote
/// opening a literal. Otherwise a number is tried, then a word.
pub open spec fn next_token_at(src: Seq<char>, i: int) -> LexStep {
    let start = skip_blanks(src, i);
    let r = reserved_end(src, start, start);
    if r > start {
        if src[start] == '"' {
            quoted_step(src, start, r, '"')
        } else if src[start] == '\'' {
            quoted_step(src, start, r, '\'')
        } else {
            LexStep {
                item: LexItem::Token(
                    TokenSpec::Reserved(find_reserved(src.subrange(start, r)).unwrap()),
                    start,
                    r - 1,
                ),
                next: r,
            }
        }
    } else {
        match number_end(src, start, true) {
            Some(e) => number_step(src, start, e),
            None => word_step(src, start),
        }
    }
}

/// Whether what the tokenizer returned is the item `item` on the text `src`.
pub open spec fn yields(
    result: Result<Option<(Token, PositionRange)>, LexerError>,
    src: Seq<char>,
    item: LexItem,
) -> bool {
    match item {
        LexItem::Token(token, first, last) => result matches Ok(Some((t, range))) && t@ == token
            && range == range_at(src, first, last),
        LexItem::End => result matches Ok(None),
        LexItem::Error(description, first, last) => result matches Err(e) && e.description@
            == description && e.position_range == range_at(src, first, last),
    }
}

/// The tokenizer: a cursor in a source text.
pub struct Lexer<'a> {
    position: Position,
    src_code: &'a str,
    length: usize,
}

impl<'a> Lexer<'a> {
    #[verifier::type_invariant]
    spec fn consistent(self) -> bool {
        &&& self.length == self.src_code@.len()
        &&& self.length < usize::MAX
        &&& self.position.index <= self.length
        &&& self.position == position_at(self.src_code@, self.position.index as int)
    }

    /// The text that is tokenized.
    pub closed spec fn source(&self) -> Seq<char> {
        self.src_code@
    }

    /// How many characters of the text the cursor has passed.
    pub closed spec fn index(&self) -> int {
        self.position.index as int
    }

    /// A tokenizer at the start of `src_code`. The text must leave room for
    /// the position behind its last character.
    pub fn new(src_code: &'a str) -> (lexer: Lexer<'a>)
        requires
            src_code@.len() < usize::MAX,
        ensures
            lexer.source() == src_code@,
            lexer.index() == 0,
    {
        Lexer { position: Position::new(), src_code, length: src_code.unicode_len() }
    }

    /// The character with index `i`, if the text has one.
    fn nth(&self, i: usize) -> (found: Option<char>)
        ensures
            found == char_at(self.source(), i as int),
    {
        proof {
            use_type_invariant(self);
        }
        if i < self.length {
            Some(self.src_code.get_char(i))
        } else {
            None
        }
    }

    /// The character under the cursor, if the text has not ended.
    pub fn peek(&self) -> (current: Option<char>)
        ensures
            current == char_at(self.source(), self.index()),
    {
        self.nth(self.position.index)
    }

    /// Moves the cursor over one character, if the text has not ended.
    pub fn consume(&mut self)
        ensures
            final(self).source() == old(self).source(),
            final(self).index() == if old(self).index() < old(self).source().len() {
                old(self).index() + 1
            } else {
                old(self).index()
            },
    {
        proof {
            use_type_invariant(&*self);
        }
        if let Some(c) = self.peek() {
            let p = self.position;
            proof {
                lemma_position_bounds(self.src_code@, p.index as int);
            }
            let next = if c == '\n' {
                Position { line: p.line + 1, column: 1, index: p.index + 1 }
            } else {
                Position { line: p.line, column: p.column + 1, index: p.index + 1 }
            };
            self.position = next;
        }
    }

    /// The position of the cursor.
    fn here(&self) -> (p: Position)
        ensures
            p == position_at(self.source(), self.index()),
            p.index == self.index(),
            self.index() <= self.source().len() < usize::MAX,
    {
        proof {
            use_type_invariant(self);
        }
        self.position
    }

    /// The text from index `from` up to index `to`.
    fn slice(&self, from: usize, to: usize) -> (text: &'a str)
        requires
            from <= to <= self.source().len(),
        ensures
            text@ == self.source().subrange(from as int, to as int),
    {
        self.src_code.substring_char(from, to)
    }

    /// Puts the cursor back to a position of this text.
    fn rewind(&mut self, p: Position)
        requires
            p.index <= old(self).source().len(),
            p == position_at(old(self).source(), p.index as int),
        ensures
            final(self).source() == old(self).source(),
            final(self).index() == p.index,
    {
        proof {
            use_type_invariant(&*self);
        }
        self.position = p;
    }

    /// Whether the character under the cursor ends a number or a word.
    fn at_boundary(&self, current: char) -> (boundary: bool)
        requires
            char_at(self.source(), self.index()) == Some(current),
        ensures
            boundary == is_boundary(current),
    {
        let i = self.here().index;
        let one = self.slice(i, i + 1);
        assert(one@ =~= seq![current]);
        find_reserved_token(one).is_some() || char_is_whitespace(current)
    }

    /// Consumes characters until `condition` accepts one, which is consumed
    /// too. The condition is asked with the character consumed before, none
    /// for the first, and the current one. Returns the range from the first
    /// to the last character consumed. If the text ends first, the range up
    /// to the end is returned where `until_end` is set; otherwise nothing is,
    /// and the cursor is put back.
    pub fn read_until<F: Fn(Option<char>, char) -> bool>(
        &mut self,
        condition: F,
        until_end: bool,
    ) -> (found: Option<PositionRange>)
        requires
            forall|last: Option<char>, current: char| call_requires(condition, (last, current)),
        ensures
            final(self).source() == old(self).source(),
            old(self).index() <= final(self).index() <= old(self).source().len(),
            ({
                let src = old(self).source();
                let from = old(self).index();
                let to = final(self).index();
                let all_refused = forall|i: int|
                    from <= i < src.len() ==> call_ensures(
                        condition,
                        (#[trigger] previous(src, from, i), src[i]),
                        false,
                    );
                ||| {
                    &&& from < to
                    &&& forall|i: int|
                        from <= i < to - 1 ==> call_ensures(
                            condition,
                            (#[trigger] previous(src, from, i), src[i]),
                            false,
                        )
                    &&& call_ensures(condition, (previous(src, from, to - 1), src[to - 1]), true)
                    &&& found == Some(range_at(src, from, to - 1))
                }
                ||| {
                    &&& all_refused
                    &&& until_end
                    &&& to == src.len()
                    &&& found == Some(range_at(src, from, if from < to { to - 1 } else { from }))
                }
                ||| {
                    &&& all_refused
                    &&& !until_end
                    &&& to == from
                    &&& found is None
                }
            }),
    {
        let start_pos = self.here();
        let ghost src = self.source();
        let ghost from = self.index();
        let mut last_char: Option<char> = None;
        let mut last_pos = start_pos;
        let mut accepted = false;
        loop
            invariant_except_break
                !accepted,
                last_char == previous(src, from, self.index()),
                last_pos == position_at(src, if from < self.index() { self.index() - 1 } else { from }),
                forall|i: int|
                    from <= i < self.index() ==> call_ensures(
                        condition,
                        (#[trigger] previous(src, from, i), src[i]),
                        false,
                    ),
            invariant
                self.source() == src,
                from <= self.index() <= src.len(),
                forall|last: Option<char>, current: char| call_requires(condition, (last, current)),
            ensures
                accepted ==> {
                    &&& from < self.index()
                    &&& forall|i: int|
                        from <= i < self.index() - 1 ==> call_ensures(
                            condition,
                            (#[trigger] previous(src, from, i), src[i]),
                            false,
                        )
                    &&& call_ensures(
                        condition,
                        (previous(src, from, self.index() - 1), src[self.index() - 1]),
                        true,
                    )
                    &&& last_pos == position_at(src, self.index() - 1)
                },
                !accepted ==> {
                    &&& self.index() == src.len()
                    &&& forall|i: int|
                        from <= i < src.len() ==> call_ensures(
                            condition,
                            (#[trigger] previous(src, from, i), src[i]),
                            false,
                        )
                    &&& last_pos == position_at(
                        src,
                        if from < self.index() {
                            self.index() - 1
                        } else {
                            from
                        },
                    )
                },
            decreases src.len() - self.index(),
        {
            match self.peek() {
                None => {
                    break ;
                },
                Some(current) => {
                    last_pos = self.here();
                    self.consume();
                    if condition(last_char, current) {
                        accepted = true;
                        break ;
                    }
                    last_char = Some(current);
                },
            }
        }
        if accepted || until_end {
            return Some(PositionRange { start: start_pos, end: last_pos });
        }
        self.rewind(start_pos);
        None
    }

    /// Scans the rest of a literal opened by `quote` at `start_pos`, with the
    /// cursor behind the opening quote. Nothing is scanned where no such
    /// quote stands at `start_pos`.
    fn scan_quoted(&mut self, start_pos: Position, quote: char) -> (result: Result<
        Option<(Token<'a>, PositionRange)>,
        LexerError,
    >)
        requires
            quote == '"' || quote == '\'',
            start_pos.index <= old(self).index(),
        ensures
            final(self).source() == old(self).source(),
            ({
                let src = old(self).source();
                let from = old(self).index();
                let close = literal_end(src, quote, from, from);
                let raw = src.subrange(start_pos.index as int, close + 1);
                if char_at(src, start_pos.index as int) != Some(quote) {
                    &&& result matches Ok(None)
                    &&& final(self).index() == from
                } else if close < src.len() {
                    &&& result matches Ok(Some((token, range)))
                    &&& token@ == if quote == '"' {
                        TokenSpec::Str(raw)
                    } else {
                        TokenSpec::Char(raw)
                    }
                    &&& range == PositionRange { start: start_pos, end: position_at(src, close) }
                    &&& final(self).index() == close + 1
                } else {
                    &&& result matches Err(e)
                    &&& e.description@ == if quote == '"' {
                        "A string literal must be closed with '\"'."@
                    } else {
                        "A char literal must be closed with '\''."@
                    }
                    &&& e.position_range == PositionRange { start: start_pos, end: start_pos }
                    &&& final(self).index() == from
                }
            }),
    {
        let ghost src = self.source();
        let ghost from = self.index();
        match self.nth(start_pos.index) {
            Some(first_char) => {
                if first_char != quote {
                    return Ok(None);
                }
            },
            None => {
                return Ok(None);
            },
        }
        let closing = |last: Option<char>, current: char| -> (b: bool)
            ensures
                b == closes(quote, last, current),
            { current == quote && (last.is_none() || last.unwrap() != '\\') };
        match self.read_until(closing, false) {
            Some(range) => {
                proof {
                    use_type_invariant(&*self);
                    lemma_literal_end(src, quote, from, from, self.index() - 1);
                    lemma_position_bounds(src, self.index() - 1);
                }
                let raw = self.slice(start_pos.index, range.end.index + 1);
                let token = if quote == '"' {
                    Token::Str(raw)
                } else {
                    Token::Char(raw)
                };
                Ok(Some((token, PositionRange { start: start_pos, end: range.end })))
            },
            None => {
                proof {
                    lemma_literal_end(src, quote, from, from, src.len() as int);
                }
                let description = if quote == '"' {
                    String::from_str("A string literal must be closed with '\"'.")
                } else {
                    String::from_str("A char literal must be closed with '\''.")
                };
                Err(
                    LexerError {
                        description,
                        position_range: PositionRange { start: start_pos, end: start_pos },
                    },
                )
            },
        }
    }

    /// Scans a string literal opened at `start_pos`; see `scan_quoted`.
    fn scan_str(&mut self, start_pos: Position) -> (result: Result<
        Option<(Token<'a>, PositionRange)>,
        LexerError,
    >)
        requires
            start_pos.index < old(self).index(),
            start_pos == position_at(old(self).source(), start_pos.index as int),
        ensures
            final(self).source() == old(self).source(),
            ({
                let src = old(self).source();
                let step = quoted_step(src, start_pos.index as int, old(self).index(), '"');
                if char_at(src, start_pos.index as int) != Some('"') {
                    &&& result matches Ok(None)
                    &&& final(self).index() == old(self).index()
                } else {
                    &&& yields(result, src, step.item)
                    &&& final(self).index() == if result is Ok {
                        step.next
                    } else {
                        old(self).index()
                    }
                }
            }),
    {
        self.scan_quoted(start_pos, '"')
    }

    /// Scans a character literal opened at `start_pos`; see `scan_quoted`.
    fn scan_char(&mut self, start_pos: Position) -> (result: Result<
        Option<(Token<'a>, PositionRange)>,
        LexerError,
    >)
        requires
            start_pos.index < old(self).index(),
            start_pos == position_at(old(self).source(), start_pos.index as int),
        ensures
            final(self).source() == old(self).source(),
            ({
                let src = old(self).source();
                let step = quoted_step(src, start_pos.index as int, old(self).index(), '\'');
                if char_at(src, start_pos.index as int) != Some('\'') {
                    &&& result matches Ok(None)
                    &&& final(self).index() == old(self).index()
                } else {
                    &&& yields(result, src, step.item)
                    &&& final(self).index() == if result is Ok {
                        step.next
                    } else {
                        old(self).index()
                    }
                }
            }),
    {
        self.scan_quoted(start_pos, '\'')
    }

    /// Scans the digits of a number: the whole part, or with `whole_number`
    /// unset the part behind the decimal point. Returns their range, or
    /// nothing, with the cursor put back, where they form no valid run.
    fn scan_number(&mut self, whole_number: bool) -> (range: Option<PositionRange>)
        ensures
            final(self).source() == old(self).source(),
            match number_end(old(self).source(), old(self).index(), whole_number) {
                Some(e) => range == Some(range_at(old(self).source(), old(self).index(), e - 1))
                    && final(self).index() == e,
                None => range is None && final(self).index() == old(self).index(),
            },
    {
        let pos_before = self.here();
        let ghost src = self.source();
        let ghost from = self.index();
        let mut last_pos = pos_before;
        let mut ended = false;
        loop
            invariant_except_break
                !ended,
                digits_end(src, from) == digits_end(src, self.index()),
                last_pos == position_at(
                    src,
                    if from < self.index() {
                        self.index() - 1
                    } else {
                        from
                    },
                ),
            invariant
                self.source() == src,
                from <= self.index() <= src.len(),
                pos_before.index == from,
            ensures
                ended ==> from < self.index() && number_end(src, from, whole_number) == Some(
                    self.index(),
                ) && last_pos == position_at(src, self.index() - 1),
                !ended ==> number_end(src, from, whole_number) is None,
            decreases src.len() - self.index(),
        {
            let some_digit = self.here().index > pos_before.index;
            match self.peek() {
                None => {
                    ended = some_digit;
                    break ;
                },
                Some(current) => {
                    if self.at_boundary(current) {
                        ended = some_digit;
                        break ;
                    } else if current == 'f' {
                        if whole_number || !some_digit {
                            break ;
                        }
                        last_pos = self.here();
                        self.consume();
                        match self.peek() {
                            Some(c) => {
                                if self.at_boundary(c) {
                                    ended = true;
                                }
                            },
                            None => {
                                ended = true;
                            },
                        }
                        break ;
                    } else if !char_is_digit(current) {
                        break ;
                    }
                    last_pos = self.here();
                    self.consume();
                },
            }
        }
        if ended {
            return Some(PositionRange { start: pos_before, end: last_pos });
        }
        self.rewind(pos_before);
        None
    }

    /// After an error, moves the cursor to the next `;`, which is not
    /// consumed, or to the end of the text.
    fn handle_result(&mut self, result: &Result<Option<(Token<'a>, PositionRange)>, LexerError>)
        ensures
            final(self).source() == old(self).source(),
            final(self).index() == if result is Ok {
                old(self).index()
            } else {
                semicolon_from(old(self).source(), old(self).index())
            },
    {
        if result.is_ok() {
            return ;
        }
        let ghost src = self.source();
        let ghost from = self.index();
        proof {
            use_type_invariant(&*self);
        }
        loop
            invariant_except_break
                semicolon_from(src, from) == semicolon_from(src, self.index()),
            invariant
                self.source() == src,
                from <= self.index() <= src.len(),
            ensures
                self.index() == semicolon_from(src, from),
            decreases src.len() - self.index(),
        {
            match self.peek() {
                Some(c) => {
                    if c == ';' {
                        break ;
                    }
                    self.consume();
                },
                None => {
                    break ;
                },
            }
        }
    }

    /// The next token with its range, nothing at the end of the text, or a
    /// lexical error. After an error the cursor stands at the next `;` or at
    /// the end of the text.
    pub fn next_token(&mut self) -> (result: Result<Option<(Token<'a>, PositionRange)>, LexerError>)
        ensures
            final(self).source() == old(self).source(),
            yields(
                result,
                old(self).source(),
                next_token_at(old(self).source(), old(self).index()).item,
            ),
            final(self).index() == next_token_at(old(self).source(), old(self).index()).next,
            old(self).index() <= final(self).index() <= old(self).source().len(),
            !(result matches Ok(None)) ==> old(self).index() < final(self).index(),
            result matches Ok(Some((token, range))) ==> {
                &&& token@.well_formed()
                &&& old(self).index() <= range.start.index <= range.end.index < old(
                    self,
                ).source().len()
                &&& token@.text() == old(self).source().subrange(
                    range.start.index as int,
                    range.end.index + 1,
                )
            },
            result is Err ==> final(self).index() == old(self).source().len() || old(
                self,
            ).source()[final(self).index()] == ';',
    {
        let ghost src = self.source();
        let ghost origin = self.index();
        proof {
            use_type_invariant(&*self);
            lemma_token_text_round_trip(src, origin);
            lemma_next_token_advances(src, origin);
            lemma_error_resumes_at_semicolon(src, origin);
            lemma_tokens_well_formed(src, origin);
            if let LexItem::Token(_, first, last) = next_token_at(src, origin).item {
                lemma_position_bounds(src, first);
                lemma_position_bounds(src, last);
            }
        }
        loop
            invariant_except_break
                skip_blanks(src, origin) == skip_blanks(src, self.index()),
            invariant
                self.source() == src,
                origin <= self.index() <= src.len(),
            ensures
                self.index() == skip_blanks(src, origin),
            decreases src.len() - self.index(),
        {
            match self.peek() {
                Some(c) => {
                    if (char_is_whitespace(c) || c == '\r') && c != '\n' {
                        self.consume();
                    } else {
                        break ;
                    }
                },
                None => {
                    break ;
                },
            }
        }
        let start_pos = self.here();
        let ghost start = self.index();
        let mut last_pos: Option<Position> = None;
        loop
            invariant_except_break
                reserved_end(src, start, start) == reserved_end(src, start, self.index()),
            invariant
                self.source() == src,
                start <= self.index() <= src.len(),
                start == start_pos.index,
                match last_pos {
                    Some(last) => start < self.index() && last == position_at(src, self.index() - 1)
                        && is_reserved(src.subrange(start, self.index())),
                    None => self.index() == start,
                },
            ensures
                self.index() == reserved_end(src, start, start),
            decreases src.len() - self.index(),
        {
            if self.peek().is_none() {
                break ;
            }
            let here = self.here();
            if find_reserved_token(self.slice(start_pos.index, here.index + 1)).is_none() {
                break ;
            } else {
                last_pos = Some(here);
                self.consume();
            }
        }
        if let Some(last) = last_pos {
            let result = self.scan_str(start_pos);
            self.handle_result(&result);
            match result {
                Ok(None) => {},
                _ => {
                    return result;
                },
            }
            let result = self.scan_char(start_pos);
            self.handle_result(&result);
            match result {
                Ok(None) => {},
                _ => {
                    return result;
                },
            }
            let here = self.here();
            let reserved = find_reserved_token(self.slice(start_pos.index, here.index)).unwrap();
            return Ok(
                Some((Token::Reserved(reserved), PositionRange { start: start_pos, end: last })),
            );
        }
        match self.scan_number(true) {
            Some(whole_range) => {
                let whole_end = self.here();
                match self.peek() {
                    Some('.') => {
                        self.consume();
                        let fraction_start = self.here();
                        match self.scan_number(false) {
                            Some(fractional_range) => {
                                let fraction_end = self.here();
                                return Ok(
                                    Some(
                                        (
                                            Token::Number(
                                                NumberInfo {
                                                    whole_number: self.slice(
                                                        start_pos.index,
                                                        whole_end.index,
                                                    ),
                                                    fractional_part: Some(
                                                        self.slice(
                                                            fraction_start.index,
                                                            fraction_end.index,
                                                        ),
                                                    ),
                                                },
                                            ),
                                            PositionRange {
                                                start: whole_range.start,
                                                end: fractional_range.end,
                                            },
                                        ),
                                    ),
                                );
                            },
                            None => {
                                let result = Err(
                                    LexerError {
                                        description: String::from_str("Number literal is invalid."),
                                        position_range: PositionRange {
                                            start: start_pos,
                                            end: self.here(),
                                        },
                                    },
                                );
                                self.handle_result(&result);
                                return result;
                            },
                        }
                    },
                    _ => {
                        return Ok(
                            Some(
                                (
                                    Token::Number(
                                        NumberInfo {
                                            whole_number: self.slice(
                                                start_pos.index,
                                                whole_end.index,
                                            ),
                                            fractional_part: None,
                                        },
                                    ),
                                    whole_range,
                                ),
                            ),
                        );
                    },
                }
            },
            None => {},
        }
        loop
            invariant_except_break
                word_end(src, start) == word_end(src, self.index()),
            invariant
                self.source() == src,
                start <= self.index() <= src.len(),
                start == start_pos.index,
                match last_pos {
                    Some(last) => start < self.index() && last == position_at(src, self.index() - 1),
                    None => self.index() == start,
                },
            ensures
                self.index() == word_end(src, start),
            decreases src.len() - self.index(),
        {
            match self.peek() {
                Some(c) => {
                    if self.at_boundary(c) {
                        break ;
                    } else {
                        last_pos = Some(self.here());
                        self.consume();
                    }
                },
                None => {
                    break ;
                },
            }
        }
        if let Some(last) = last_pos {
            let here = self.here();
            if let Some(token) = find_reserved_token(self.slice(start_pos.index, here.index)) {
                return Ok(
                    Some((Token::Reserved(token), PositionRange { start: start_pos, end: last })),
                );
            }
            if char_is_digit(self.src_code.get_char(start_pos.index)) {
                let result = Err(
                    LexerError {
                        description: String::from_str("Invalid identifier found."),
                        position_range: PositionRange { start: start_pos, end: last },
                    },
                );
                self.handle_result(&result);
                return result;
            }
            return Ok(
                Some(
                    (
                        Token::Identifier(self.slice(start_pos.index, here.index)),
                        PositionRange { start: start_pos, end: last },
                    ),
                ),
            );
        }
        Ok(None)
    }
}

/// The closing quote is at `stop` where every character from `j` up to it
/// leaves the literal open and `stop` is the end of the text or closes it.
proof fn lemma_literal_end(src: Seq<char>, quote: char, from: int, j: int, stop: int)
    requires
        0 <= from <= j <= stop <= src.len(),
        forall|i: int| j <= i < stop ==> !closes(quote, #[trigger] previous(src, from, i), src[i]),
        stop < src.len() ==> closes(quote, previous(src, from, stop), src[stop]),
    ensures
        literal_end(src, quote, from, j) == stop,
    decreases stop - j,
{
    if j < stop {
        assert(!closes(quote, previous(src, from, j), src[j]));
        lemma_literal_end(src, quote, from, j + 1, stop);
    }
}

proof fn lemma_skip_blanks(src: Seq<char>, i: int)
    requires
        0 <= i <= src.len(),
    ensures
        i <= skip_blanks(src, i) <= src.len(),
        skip_blanks(src, i) < src.len() ==> !is_blank(src[skip_blanks(src, i)]),
    decreases src.len() - i,
{
    if i < src.len() && is_blank(src[i]) {
        lemma_skip_blanks(src, i + 1);
    }
}

proof fn lemma_reserved_end(src: Seq<char>, start: int, j: int)
    requires
        0 <= start <= j <= src.len(),
        start < j ==> is_reserved(src.subrange(start, j)),
    ensures
        j <= reserved_end(src, start, j) <= src.len(),
        start < reserved_end(src, start, j) ==> is_reserved(
            src.subrange(start, reserved_end(src, start, j)),
        ),
    decreases src.len() - j,
{
    if j < src.len() && is_reserved(src.subrange(start, j + 1)) {
        lemma_reserved_end(src, start, j + 1);
    }
}

proof fn lemma_literal_end_bounds(src: Seq<char>, quote: char, from: int, j: int)
    requires
        0 <= j <= src.len(),
    ensures
        j <= literal_end(src, quote, from, j) <= src.len(),
    decreases src.len() - j,
{
    if j < src.len() && !closes(quote, previous(src, from, j), src[j]) {
        lemma_literal_end_bounds(src, quote, from, j + 1);
    }
}

proof fn lemma_semicolon_from(src: Seq<char>, i: int)
    requires
        0 <= i <= src.len(),
    ensures
        i <= semicolon_from(src, i) <= src.len(),
        semicolon_from(src, i) < src.len() ==> src[semicolon_from(src, i)] == ';',
    decreases src.len() - i,
{
    if i < src.len() && src[i] != ';' {
        lemma_semicolon_from(src, i + 1);
    }
}

proof fn lemma_digits_end(src: Seq<char>, j: int)
    requires
        0 <= j <= src.len(),
    ensures
        j <= digits_end(src, j) <= src.len(),
    decreases src.len() - j,
{
    if j < src.len() && !is_boundary(src[j]) && is_digit(src[j]) {
        lemma_digits_end(src, j + 1);
    }
}

proof fn lemma_word_end(src: Seq<char>, j: int)
    requires
        0 <= j <= src.len(),
    ensures
        j <= word_end(src, j) <= src.len(),
    decreases src.len() - j,
{
    if j < src.len() && !is_boundary(src[j]) {
        lemma_word_end(src, j + 1);
    }
}

proof fn lemma_number_end(src: Seq<char>, i: int, whole: bool)
    requires
        0 <= i <= src.len(),
    ensures
        number_end(src, i, whole) matches Some(e) ==> i < e <= src.len(),
{
    lemma_digits_end(src, i);
}

/// The range of a token gives back its text: the characters of the source
/// from the first to the last index of the range spell the token.
pub proof fn lemma_token_text_round_trip(src: Seq<char>, i: int)
    requires
        0 <= i <= src.len(),
    ensures
        next_token_at(src, i).item matches LexItem::Token(token, first, last) ==> {
            &&& i <= first <= last < src.len()
            &&& token.text() == src.subrange(first, last + 1)
        },
{
    let start = skip_blanks(src, i);
    lemma_skip_blanks(src, i);
    let r = reserved_end(src, start, start);
    lemma_reserved_end(src, start, start);
    if r > start {
        lemma_literal_end_bounds(src, '"', r, r);
        lemma_literal_end_bounds(src, '\'', r, r);
        lemma_find_reserved(src.subrange(start, r));
    } else {
        lemma_number_end(src, start, true);
        match number_end(src, start, true) {
            Some(e) => {
                if char_at(src, e) == Some('.') {
                    lemma_number_end(src, e + 1, false);
                    if let Some(g) = number_end(src, e + 1, false) {
                        assert(src.subrange(start, e) + seq!['.'] + src.subrange(e + 1, g)
                            =~= src.subrange(start, g));
                    }
                }
            },
            None => {
                lemma_word_end(src, start);
                lemma_find_reserved(src.subrange(start, word_end(src, start)));
            },
        }
    }
}

/// The tokenizer never moves back and stays within the text; whenever it
/// yields a token or an error it has moved on.
pub proof fn lemma_next_token_advances(src: Seq<char>, i: int)
    requires
        0 <= i <= src.len(),
    ensures
        i <= next_token_at(src, i).next <= src.len(),
        !(next_token_at(src, i).item is End) ==> i < next_token_at(src, i).next,
{
    let start = skip_blanks(src, i);
    lemma_skip_blanks(src, i);
    let r = reserved_end(src, start, start);
    lemma_reserved_end(src, start, start);
    if r > start {
        lemma_literal_end_bounds(src, '"', r, r);
        lemma_literal_end_bounds(src, '\'', r, r);
        lemma_semicolon_from(src, r);
    } else {
        lemma_number_end(src, start, true);
        match number_end(src, start, true) {
            Some(e) => {
                if char_at(src, e) == Some('.') {
                    lemma_number_end(src, e + 1, false);
                    lemma_semicolon_from(src, e + 1);
                }
            },
            None => {
                lemma_word_end(src, start);
                lemma_semicolon_from(src, word_end(src, start));
            },
        }
    }
}

/// After a lexical error the cursor stands at a `;` or at the end of the
/// text.
pub proof fn lemma_error_resumes_at_semicolon(src: Seq<char>, i: int)
    requires
        0 <= i <= src.len(),
    ensures
        next_token_at(src, i).item is Error ==> {
            let next = next_token_at(src, i).next;
            next == src.len() || src[next] == ';'
        },
{
    let start = skip_blanks(src, i);
    lemma_skip_blanks(src, i);
    let r = reserved_end(src, start, start);
    lemma_reserved_end(src, start, start);
    if r > start {
        lemma_semicolon_from(src, r);
    } else {
        lemma_number_end(src, start, true);
        match number_end(src, start, true) {
            Some(e) => {
                if char_at(src, e) == Some('.') {
                    lemma_semicolon_from(src, e + 1);
                }
            },
            None => {
                lemma_word_end(src, start);
                lemma_semicolon_from(src, word_end(src, start));
            },
        }
    }
}

/// Every token of the tokenizer is well formed: an operator among them
/// that may stand between two operands has a rank.
pub proof fn lemma_tokens_well_formed(src: Seq<char>, i: int)
    requires
        0 <= i <= src.len(),
    ensures
        next_token_at(src, i).item matches LexItem::Token(token, _, _) ==> token.well_formed(),
{
    let start = skip_blanks(src, i);
    lemma_skip_blanks(src, i);
    let r = reserved_end(src, start, start);
    lemma_reserved_end(src, start, start);
    if r > start {
        lemma_found_well_formed(src.subrange(start, r));
    } else {
        lemma_word_end(src, start);
        lemma_found_well_formed(src.subrange(start, word_end(src, start)));
    }
}

/// The greedy scan reaches as far as any operator or punctuation character
/// that starts at the same place: it takes the longest of them.
pub proof fn lemma_greedy_scan_takes_longest(src: Seq<char>, start: int, e: int)
    requires
        0 <= start < e <= src.len(),
        find_reserved(src.subrange(start, e)) matches Some(reserved) && !(reserved is Keyword),
    ensures
        e <= reserved_end(src, start, start),
{
    lemma_scan_reaches(src, start, start, e);
}

proof fn lemma_scan_reaches(src: Seq<char>, start: int, j: int, e: int)
    requires
        0 <= start <= j < e <= src.len(),
        find_reserved(src.subrange(start, e)) matches Some(reserved) && !(reserved is Keyword),
    ensures
        e <= reserved_end(src, start, j),
    decreases e - j,
{
    let text = src.subrange(start, e);
    lemma_find_reserved(text);
    let found = find_reserved(text).unwrap();
    let k = choose|k: int| 0 <= k < RESERVED_TOKEN_COUNT && #[trigger] reserved_entry(k) == found;
    lemma_operator_prefixes_reserved(k, j + 1 - start);
    assert(text.subrange(0, j + 1 - start) =~= src.subrange(start, j + 1));
    if j + 1 < e {
        lemma_scan_reaches(src, start, j + 1, e);
    } else {
        lemma_reserved_end(src, start, j + 1);
    }
}

/// The tokenizer yields nothing only where nothing but blanks is left.
pub proof fn lemma_end_only_at_end_of_text(src: Seq<char>, i: int)
    requires
        0 <= i <= src.len(),
    ensures
        next_token_at(src, i).item is End <==> skip_blanks(src, i) == src.len(),
{
    let start = skip_blanks(src, i);
    lemma_skip_blanks(src, i);
    let r = reserved_end(src, start, start);
    lemma_reserved_end(src, start, start);
    lemma_number_end(src, start, true);
    lemma_digits_end(src, start);
    lemma_word_end(src, start);
    lemma_reserved_chars('\n');
    if start < src.len() {
        assert(src.subrange(start, start + 1) =~= seq![src[start]]);
        if r <= start {
            if is_reserved_char(src[start]) {
                lemma_reserved_end(src, start, start + 1);
            }
            lemma_word_end(src, start + 1);
        } else {
            lemma_literal_end_bounds(src, '"', r, r);
            lemma_literal_end_bounds(src, '\'', r, r);
        }
        if let Some(e) = number_end(src, start, true) {
            if char_at(src, e) == Some('.') {
                lemma_number_end(src, e + 1, false);
            }
        }
    }
}

/// A quote opens a literal: where a quote is the first character that is
/// no blank, the step is that of the literal whose content begins behind
/// it.
pub proof fn lemma_quote_opens_literal(src: Seq<char>, i: int)
    requires
        0 <= i <= src.len(),
        skip_blanks(src, i) < src.len(),
        src[skip_blanks(src, i)] == '"' || src[skip_blanks(src, i)] == '\'',
    ensures
        next_token_at(src, i) == quoted_step(
            src,
            skip_blanks(src, i),
            skip_blanks(src, i) + 1,
            src[skip_blanks(src, i)],
        ),
{
    let start = skip_blanks(src, i);
    lemma_skip_blanks(src, i);
    lemma_reserved_chars(src[start]);
    assert(src.subrange(start, start + 1) =~= seq![src[start]]);
    if start + 1 < src.len() {
        lemma_quote_begins_only_itself(src.subrange(start, start + 2));
    }
    assert(reserved_end(src, start, start + 1) == start + 1);
    assert(reserved_end(src, start, start) == start + 1);
}

/// A literal that is not closed is an error at its opening quote, and the
/// cursor moves to the next `;` behind the quote or to the end of the text.
pub proof fn lemma_unterminated_literal(src: Seq<char>, i: int)
    requires
        0 <= i <= src.len(),
        skip_blanks(src, i) < src.len(),
        src[skip_blanks(src, i)] == '"' || src[skip_blanks(src, i)] == '\'',
        literal_end(
            src,
            src[skip_blanks(src, i)],
            skip_blanks(src, i) + 1,
            skip_blanks(src, i) + 1,
        ) >= src.len(),
    ensures
        next_token_at(src, i).item matches LexItem::Error(_, first, last) && first == skip_blanks(
            src,
            i,
        ) && last == first,
        next_token_at(src, i).next == semicolon_from(src, skip_blanks(src, i) + 1),
{
    lemma_quote_opens_literal(src, i);
}

} // verus!
