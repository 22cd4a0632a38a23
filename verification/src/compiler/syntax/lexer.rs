//! The lexer: from source text to tokens.
//!
//! The lexer reads the characters of the source and, behind them, one NUL
//! that marks the end. What it does is stated by functions on that sequence:
//! where a run of characters of one class ends, what token starts at an
//! index, and where the lexer stands behind it.

use crate::compiler::syntax::chars::{
    all_digits, char_is_alphanumeric, char_is_whitespace, digit_of, digits_value,
    lemma_leading_zero, parse_digits,
};
use crate::compiler::syntax::err::LexError;
use crate::compiler::syntax::span::{Pos, Span};
use crate::compiler::syntax::token::{Token, TokenShape, TokenType};
use std::rc::Rc;
use vstd::prelude::*;
use vstd::string::*;

verus! {

/// What the lexer reads: the characters of the source and a NUL behind them.
pub open spec fn stream(src: Seq<char>) -> Seq<char> {
    src.push('\0')
}

/// The position behind a character. A line feed right behind a carriage
/// return belongs to the line end that the carriage return began.
pub open spec fn advance(p: Pos, c: char, after_cr: bool) -> Pos {
    if c == '\n' {
        if after_cr {
            p.next_idx()
        } else {
            p.next_line()
        }
    } else if c == '\r' {
        p.next_line()
    } else {
        p.next_pos()
    }
}

/// The position of the character at an index.
pub open spec fn pos_at(s: Seq<char>, n: int) -> Pos
    decreases n,
{
    if n <= 0 {
        Pos::origin()
    } else {
        advance(pos_at(s, n - 1), s[n - 1], n >= 2 && s[n - 2] == '\r')
    }
}

/// The position that the lexer sees at an index: that of the character
/// there, or the position behind everything where nothing is left.
pub open spec fn seen_pos(s: Seq<char>, n: int) -> Pos {
    if n < s.len() {
        pos_at(s, n)
    } else {
        Pos::beyond()
    }
}

/// White space that the lexer skips between tokens.
pub open spec fn is_space(c: char) -> bool {
    c != '\0' && char_is_whitespace(c)
}

/// A character that can start an identifier: an ASCII letter or `_`.
pub open spec fn is_ident_start(c: char) -> bool {
    ('a' <= c <= 'z') || ('A' <= c <= 'Z') || c == '_'
}

/// A character that can go on an identifier: a letter, a number or `_`.
pub open spec fn is_ident_part(c: char) -> bool {
    c != '\0' && (char_is_alphanumeric(c) || c == '_')
}

/// A character that can start an operator or a delimiter.
pub open spec fn is_operator_start(c: char) -> bool {
    c == '+' || c == '-' || c == '*' || c == '/' || c == '%' || c == '<' || c == '>' || c == '='
        || c == '!' || c == '|' || c == '&' || c == '^' || c == '(' || c == ')' || c == '['
        || c == ']' || c == '{' || c == '}' || c == ',' || c == ';'
}

/// A character that ends a line comment.
pub open spec fn ends_line(c: char) -> bool {
    c == '\r' || c == '\n' || c == '\0'
}

/// A character that ends a stretch of text that is no token.
pub open spec fn ends_error(c: char) -> bool {
    char_is_whitespace(c) || c == '\0'
}

/// Where the white space that starts at an index ends.
pub open spec fn spaces_end(s: Seq<char>, at: int) -> int
    decreases s.len() - at,
{
    if 0 <= at < s.len() && is_space(s[at]) {
        spaces_end(s, at + 1)
    } else {
        at
    }
}

/// Where the run of digits of a radix that starts at an index ends.
pub open spec fn digits_end(s: Seq<char>, at: int, radix: u32) -> int
    decreases s.len() - at,
{
    if 0 <= at < s.len() && digit_of(s[at], radix) is Some {
        digits_end(s, at + 1, radix)
    } else {
        at
    }
}

/// Where the run of identifier characters that starts at an index ends.
pub open spec fn ident_end(s: Seq<char>, at: int) -> int
    decreases s.len() - at,
{
    if 0 <= at < s.len() && is_ident_part(s[at]) {
        ident_end(s, at + 1)
    } else {
        at
    }
}

/// The index of the first character at or behind an index that ends a line,
/// or the length where there is none.
pub open spec fn line_end(s: Seq<char>, at: int) -> int
    decreases s.len() - at,
{
    if 0 <= at < s.len() && !ends_line(s[at]) {
        line_end(s, at + 1)
    } else {
        at
    }
}

/// The index of the first `*/` at or behind an index, or the length where
/// there is none.
pub open spec fn block_end(s: Seq<char>, at: int) -> int
    decreases s.len() - at,
{
    if 0 <= at < s.len() {
        if s[at] == '*' && at + 1 < s.len() && s[at + 1] == '/' {
            at
        } else {
            block_end(s, at + 1)
        }
    } else {
        at
    }
}

/// Where the lexer goes on behind text that is no token: behind the first
/// white space or NUL at or behind an index, or at the length where there is
/// none.
pub open spec fn error_end(s: Seq<char>, at: int) -> int
    decreases s.len() - at,
{
    if 0 <= at < s.len() {
        if ends_error(s[at]) {
            at + 1
        } else {
            error_end(s, at + 1)
        }
    } else {
        at
    }
}

/// What the lexer finds at an index: a token kind or an error, where the
/// token's span starts, and where the lexer stands afterwards.
pub struct Scan {
    pub outcome: Result<TokenShape, LexError>,
    pub start: int,
    pub next: int,
}

/// The radix of the number that starts at an index: 16 behind `0x`, 8 behind
/// any other `0`, else 10.
pub open spec fn number_radix(s: Seq<char>, at: int) -> u32 {
    if s[at] != '0' {
        10
    } else if at + 1 < s.len() && s[at + 1] == 'x' {
        16
    } else {
        8
    }
}

/// Where the digits of the number that starts at an index begin: behind its
/// prefix.
pub open spec fn number_body(s: Seq<char>, at: int) -> int {
    if s[at] != '0' {
        at
    } else if at + 1 < s.len() && s[at + 1] == 'x' {
        at + 2
    } else {
        at + 1
    }
}

/// The number that starts at an index: the digits of its radix behind the
/// prefix, as far as they go. A number that does not fit 32 signed bits is
/// an error.
pub open spec fn scan_number(s: Seq<char>, at: int) -> Scan {
    let radix = number_radix(s, at);
    let body = number_body(s, at);
    let end = digits_end(s, body, radix);
    let value = digits_value(s.subrange(body, end), radix);
    Scan {
        outcome: if value <= i32::MAX {
            Ok(TokenShape::IntLiteral(value as i32))
        } else {
            Err(LexError::NoCause)
        },
        start: at,
        next: end,
    }
}

/// The keyword that a word is, or the identifier.
pub open spec fn word_kind(word: Seq<char>) -> TokenShape {
    if word == "const"@ {
        TokenShape::ConstKw
    } else if word == "int"@ {
        TokenShape::IntTy
    } else if word == "void"@ {
        TokenShape::VoidTy
    } else if word == "break"@ {
        TokenShape::BreakKw
    } else if word == "continue"@ {
        TokenShape::ContinueKw
    } else if word == "if"@ {
        TokenShape::IfKw
    } else if word == "else"@ {
        TokenShape::ElseKw
    } else if word == "while"@ {
        TokenShape::WhileKw
    } else if word == "return"@ {
        TokenShape::ReturnKw
    } else {
        TokenShape::Ident(word)
    }
}

/// The keyword or identifier that starts at an index: the character there
/// and the identifier characters behind it, as far as they go.
pub open spec fn scan_word(s: Seq<char>, at: int) -> Scan {
    let end = ident_end(s, at + 1);
    Scan { outcome: Ok(word_kind(s.subrange(at, end))), start: at, next: end }
}

/// The block comment whose text starts at an index: the text up to the first
/// `*/`. A comment that is not closed is an error and takes the rest of the
/// source.
pub open spec fn scan_block_comment(s: Seq<char>, at: int) -> Scan {
    let end = block_end(s, at);
    if end < s.len() {
        Scan { outcome: Ok(TokenShape::Comment(s.subrange(at, end))), start: at, next: end + 2 }
    } else {
        Scan { outcome: Err(LexError::NoCause), start: at, next: s.len() as int }
    }
}

/// The line comment whose text starts at an index: the text up to the first
/// character that ends a line, which the comment takes with it.
pub open spec fn scan_line_comment(s: Seq<char>, at: int) -> Scan {
    let end = line_end(s, at);
    Scan {
        outcome: Ok(TokenShape::Comment(s.subrange(at, end))),
        start: at,
        next: if end < s.len() {
            end + 1
        } else {
            end
        },
    }
}

/// The operator of one character, if the character is one.
pub open spec fn single_operator(c: char) -> Option<TokenShape> {
    if c == '-' {
        Some(TokenShape::Minus)
    } else if c == '+' {
        Some(TokenShape::Plus)
    } else if c == '*' {
        Some(TokenShape::Mul)
    } else if c == '/' {
        Some(TokenShape::Div)
    } else if c == '%' {
        Some(TokenShape::Mod)
    } else if c == '=' {
        Some(TokenShape::Assign)
    } else if c == '<' {
        Some(TokenShape::Lt)
    } else if c == '>' {
        Some(TokenShape::Gt)
    } else if c == '!' {
        Some(TokenShape::Not)
    } else if c == '(' {
        Some(TokenShape::LParen)
    } else if c == ')' {
        Some(TokenShape::RParen)
    } else if c == '[' {
        Some(TokenShape::LBracket)
    } else if c == ']' {
        Some(TokenShape::RBracket)
    } else if c == '{' {
        Some(TokenShape::LBrace)
    } else if c == '}' {
        Some(TokenShape::RBrace)
    } else if c == ',' {
        Some(TokenShape::Comma)
    } else if c == ';' {
        Some(TokenShape::Semicolon)
    } else {
        None
    }
}

/// The operator of two characters, if the two are one.
pub open spec fn double_operator(first: char, second: char) -> Option<TokenShape> {
    if first == '=' && second == '=' {
        Some(TokenShape::Eq)
    } else if first == '<' && second == '=' {
        Some(TokenShape::Le)
    } else if first == '>' && second == '=' {
        Some(TokenShape::Ge)
    } else if first == '!' && second == '=' {
        Some(TokenShape::Ne)
    } else if first == '|' && second == '|' {
        Some(TokenShape::Or)
    } else if first == '&' && second == '&' {
        Some(TokenShape::And)
    } else {
        None
    }
}

/// The operator, delimiter or comment that starts at an index. Two
/// characters that are one operator are taken together; `/*` and `//` open a
/// comment; a character that is no operator by itself is an error.
pub open spec fn scan_operator(s: Seq<char>, at: int) -> Scan {
    let first = s[at];
    let second = if at + 1 < s.len() {
        s[at + 1]
    } else {
        '\0'
    };
    if first == '/' && second == '*' {
        scan_block_comment(s, at + 2)
    } else if first == '/' && second == '/' {
        scan_line_comment(s, at + 2)
    } else if double_operator(first, second) is Some {
        Scan { outcome: Ok(double_operator(first, second)->0), start: at, next: at + 2 }
    } else if single_operator(first) is Some {
        Scan { outcome: Ok(single_operator(first)->0), start: at, next: at + 1 }
    } else {
        Scan { outcome: Err(LexError::NoCause), start: at, next: at + 1 }
    }
}

/// What starts at an index where a token must start: a number at a decimal
/// digit, a word at a letter or `_`, an operator or comment at an operator
/// character, and an error at anything else.
pub open spec fn scan_at(s: Seq<char>, at: int) -> Scan {
    let c = s[at];
    if '0' <= c <= '9' {
        scan_number(s, at)
    } else if is_ident_start(c) {
        scan_word(s, at)
    } else if is_operator_start(c) {
        scan_operator(s, at)
    } else {
        Scan { outcome: Err(LexError::NoCause), start: at, next: at }
    }
}

/// The next token from an index on, comments included, and where the lexer
/// stands behind it. White space is skipped first. There is no token at the
/// end or at a NUL. Text that is no token becomes an error token, and the
/// lexer goes on behind the white space that follows that text.
pub open spec fn next_from(s: Seq<char>, at: int) -> (Option<(TokenShape, Span)>, int) {
    let from = spaces_end(s, at);
    if from >= s.len() || s[from] == '\0' {
        (None, from)
    } else {
        let scan = scan_at(s, from);
        match scan.outcome {
            Ok(kind) => (
                Some((kind, Span { start: pos_at(s, scan.start), end: seen_pos(s, scan.next) })),
                scan.next,
            ),
            Err(e) => {
                let next = error_end(s, scan.next);
                (
                    Some(
                        (
                            TokenShape::Invalid(e),
                            Span { start: pos_at(s, from), end: seen_pos(s, next) },
                        ),
                    ),
                    next,
                )
            },
        }
    }
}

/// Whether there is a token and it is a comment.
pub open spec fn is_comment(token: Option<(TokenShape, Span)>) -> bool {
    match token {
        Some((kind, _)) => kind is Comment,
        None => false,
    }
}

/// The next token from an index on that is no comment, and where the lexer
/// stands behind it.
pub open spec fn next_code_from(s: Seq<char>, at: int) -> (Option<(TokenShape, Span)>, int)
    decreases s.len() - at,
{
    let (token, next) = next_from(s, at);
    if is_comment(token) && at < next <= s.len() {
        next_code_from(s, next)
    } else {
        (token, next)
    }
}

/// A run of white space ends within the text, at a character that is none.
pub proof fn lemma_spaces_end(s: Seq<char>, at: int)
    requires
        0 <= at <= s.len(),
    ensures
        at <= spaces_end(s, at) <= s.len(),
        spaces_end(s, at) < s.len() ==> !is_space(s[spaces_end(s, at)]),
    decreases s.len() - at,
{
    if at < s.len() && is_space(s[at]) {
        lemma_spaces_end(s, at + 1);
    }
}

/// A run of digits ends within the text.
pub proof fn lemma_digits_end(s: Seq<char>, at: int, radix: u32)
    requires
        0 <= at <= s.len(),
    ensures
        at <= digits_end(s, at, radix) <= s.len(),
    decreases s.len() - at,
{
    if at < s.len() && digit_of(s[at], radix) is Some {
        lemma_digits_end(s, at + 1, radix);
    }
}

/// The position of a character counts the characters before it, and neither
/// its line nor its column is more than that.
pub proof fn lemma_pos_bounds(s: Seq<char>, n: int)
    requires
        0 <= n <= usize::MAX,
    ensures
        pos_at(s, n).index == n,
        pos_at(s, n).line <= n,
        pos_at(s, n).column <= n,
    decreases n,
{
    if n > 0 {
        lemma_pos_bounds(s, n - 1);
    }
}

/// Reads characters one by one and keeps count of the position.
pub struct StringIter {
    pub chars: Vec<char>,
    /// How many items have been read.
    pub at: usize,
    pub pos: Pos,
    pub is_last_cr: bool,
}

impl StringIter {
    /// What the iterator yields, from the first item on.
    pub open spec fn items(&self) -> Seq<char> {
        stream(self.chars@)
    }

    /// The position and the flag agree with the number of items read.
    pub open spec fn wf(&self) -> bool {
        &&& self.chars@.len() < usize::MAX
        &&& self.at <= self.items().len()
        &&& self.pos == pos_at(self.items(), self.at as int)
        &&& self.is_last_cr == (self.at >= 1 && self.items()[self.at - 1] == '\r')
    }

    /// An iterator at the start of a source.
    pub fn new(src: Vec<char>) -> (r: StringIter)
        requires
            src@.len() < usize::MAX,
        ensures
            r.wf(),
            r.chars@ == src@,
            r.at == 0,
    {
        StringIter { chars: src, at: 0, pos: Pos::zero(), is_last_cr: false }
    }

    /// The next item and its position, without reading it.
    pub fn peek(&self) -> (r: Option<(Pos, char)>)
        requires
            self.wf(),
        ensures
            r == if self.at < self.items().len() {
                Some((pos_at(self.items(), self.at as int), self.items()[self.at as int]))
            } else {
                None
            },
    {
        if self.at < self.chars.len() {
            Some((self.pos, self.chars[self.at]))
        } else if self.at == self.chars.len() {
            Some((self.pos, '\0'))
        } else {
            None
        }
    }

    /// Reads the next item: yields it with its position and moves on.
    pub fn next(&mut self) -> (r: Option<(Pos, char)>)
        requires
            old(self).wf(),
        ensures
            final(self).wf(),
            final(self).chars == old(self).chars,
            r == if old(self).at < old(self).items().len() {
                Some(
                    (
                        pos_at(old(self).items(), old(self).at as int),
                        old(self).items()[old(self).at as int],
                    ),
                )
            } else {
                None
            },
            final(self).at == if old(self).at < old(self).items().len() {
                old(self).at + 1
            } else {
                old(self).at as int
            },
    {
        match self.peek() {
            Some((pos, c)) => {
                proof {
                    lemma_pos_bounds(self.items(), self.at as int);
                }
                if c == '\n' {
                    if !self.is_last_cr {
                        self.pos.move_next_line();
                    } else {
                        self.pos.move_next_idx();
                    }
                    self.is_last_cr = false;
                } else if c == '\r' {
                    self.pos.move_next_line();
                    self.is_last_cr = true;
                } else {
                    self.is_last_cr = false;
                    self.pos.move_next_pos();
                }
                self.at += 1;
                Some((pos, c))
            },
            None => None,
        }
    }
}

/// Whether what a lexing step returned is what the source holds: the kind
/// or the error, and for a token the span from its start to where the lexer
/// stands behind it.
pub open spec fn agrees(r: Result<Token, LexError>, scan: Scan, s: Seq<char>) -> bool {
    match r {
        Ok(token) => scan.outcome == Ok::<TokenShape, LexError>(token.token_type@) && token.span
            == (Span { start: pos_at(s, scan.start), end: seen_pos(s, scan.next) }),
        Err(e) => scan.outcome == Err::<TokenShape, LexError>(e),
    }
}

/// Whether a word is spelled like a given text.
fn spelled(word: &String, text: &str) -> (r: bool)
    ensures
        r == (word@ == text@),
{
    let other = String::from_str(text);
    *word == other
}

/// Splits source text into tokens. An error does not stop it: the text that
/// is no token becomes an error token, the error is recorded, and the lexer
/// goes on behind the white space that follows.
pub struct Lexer {
    pub iter: StringIter,
    /// The errors met so far, in order.
    pub err: Vec<LexError>,
}

impl Lexer {
    /// What the lexer reads: the source and a NUL behind it.
    pub open spec fn text(&self) -> Seq<char> {
        self.iter.items()
    }

    /// How many items the lexer has read.
    pub open spec fn at(&self) -> int {
        self.iter.at as int
    }

    pub open spec fn wf(&self) -> bool {
        self.iter.wf()
    }

    /// A lexer at the start of a source.
    pub fn new(src: Vec<char>) -> (r: Lexer)
        requires
            src@.len() < usize::MAX,
        ensures
            r.wf(),
            r.text() == stream(src@),
            r.at() == 0,
            r.err@.len() == 0,
    {
        Lexer { iter: StringIter::new(src), err: Vec::new() }
    }

    /// The position that the lexer stands at.
    fn seen(&self) -> (r: Pos)
        requires
            self.wf(),
        ensures
            r == seen_pos(self.text(), self.at()),
    {
        match self.iter.peek() {
            Some((pos, _)) => pos,
            None => Pos::max(),
        }
    }

    /// The next token, comments left out; `None` at the end of the source.
    pub fn next(&mut self) -> (r: Option<Token>)
        requires
            old(self).wf(),
        ensures
            final(self).wf(),
            final(self).text() == old(self).text(),
            final(self).at() == next_code_from(old(self).text(), old(self).at()).1,
            match r {
                Some(token) => next_code_from(old(self).text(), old(self).at()).0 == Some(
                    (token.token_type@, token.span),
                ),
                None => next_code_from(old(self).text(), old(self).at()).0 is None,
            },
    {
        let ghost s = self.text();
        loop
            invariant
                self.wf(),
                self.text() == s,
                s == old(self).text(),
                old(self).at() <= self.at(),
                next_code_from(s, old(self).at()) == next_code_from(s, self.at()),
            decreases s.len() - self.at(),
        {
            let ghost before = self.at();
            let token = self.next_token();
            let again = match &token {
                Some(t) => match &t.token_type {
                    TokenType::Comment(_) => true,
                    _ => false,
                },
                None => false,
            };
            if !again {
                return token;
            }
        }
    }

    /// The next token, comments included; `None` at the end of the source.
    pub fn next_token(&mut self) -> (r: Option<Token>)
        requires
            old(self).wf(),
        ensures
            final(self).wf(),
            final(self).text() == old(self).text(),
            final(self).at() == next_from(old(self).text(), old(self).at()).1,
            match r {
                Some(token) => next_from(old(self).text(), old(self).at()).0 == Some(
                    (token.token_type@, token.span),
                ) && old(self).at() < final(self).at() <= old(self).text().len(),
                None => next_from(old(self).text(), old(self).at()).0 is None,
            },
            final(self).err@ == match r {
                Some(Token { token_type: TokenType::Invalid(e), .. }) => old(self).err@.push(*e),
                _ => old(self).err@,
            },
    {
        let ghost s = self.text();
        self.skip_spaces();
        let (start, c) = match self.iter.peek() {
            None => {
                return None;
            },
            Some((pos, c)) => (pos, c),
        };
        if c == '\0' {
            return None;
        }
        let ghost from = self.at();
        let token_result = if c >= '0' && c <= '9' {
            self.lex_number()
        } else if (c >= 'a' && c <= 'z') || (c >= 'A' && c <= 'Z') || c == '_' {
            self.lex_identifier_keyword()
        } else if c == '+' || c == '-' || c == '*' || c == '/' || c == '%' || c == '<' || c == '>'
            || c == '=' || c == '!' || c == '|' || c == '&' || c == '^' || c == '(' || c == ')'
            || c == '[' || c == ']' || c == '{' || c == '}' || c == ',' || c == ';' {
            self.lex_operator()
        } else {
            Err(LexError::NoCause)
        };
        proof {
            lemma_spaces_end(s, old(self).at());
            assert(agrees(token_result, scan_at(s, from), s));
            assert(self.at() == scan_at(s, from).next);
        }
        let token = match token_result {
            Ok(token) => token,
            Err(e) => {
                let end = self.skip_error_token();
                self.err.push(e);
                Token { token_type: TokenType::Invalid(Rc::new(e)), span: Span::from(start, end) }
            },
        };
        Some(token)
    }

    /// Reads on behind text that is no token: up to and with the first white
    /// space or NUL. Returns the position that the lexer then stands at.
    pub fn skip_error_token(&mut self) -> (r: Pos)
        requires
            old(self).wf(),
        ensures
            final(self).wf(),
            final(self).text() == old(self).text(),
            final(self).err == old(self).err,
            final(self).at() == error_end(old(self).text(), old(self).at()),
            old(self).at() < old(self).text().len() ==> old(self).at() < final(self).at(),
            final(self).at() <= old(self).text().len(),
            r == seen_pos(old(self).text(), final(self).at()),
    {
        let ghost s = self.text();
        loop
            invariant
                self.wf(),
                self.text() == s,
                s == old(self).text(),
                self.err == old(self).err,
                0 <= old(self).at() <= self.at() <= s.len(),
                error_end(s, old(self).at()) == error_end(s, self.at()),
                self.at() == old(self).at() || old(self).at() < s.len(),
            decreases s.len() - self.at(),
        {
            match self.iter.next() {
                None => {
                    return self.seen();
                },
                Some((_, c)) => {
                    if c.is_whitespace() || c == '\0' {
                        return self.seen();
                    }
                },
            }
        }
    }

    /// Lexes the number that starts where the lexer stands, at a decimal
    /// digit.
    pub fn lex_number(&mut self) -> (r: Result<Token, LexError>)
        requires
            old(self).wf(),
            old(self).at() < old(self).text().len(),
            '0' <= old(self).text()[old(self).at()] <= '9',
        ensures
            final(self).wf(),
            final(self).text() == old(self).text(),
            final(self).err == old(self).err,
            final(self).at() == scan_number(old(self).text(), old(self).at()).next,
            old(self).at() <= final(self).at() < old(self).text().len(),
            r is Ok ==> old(self).at() < final(self).at(),
            agrees(r, scan_number(old(self).text(), old(self).at()), old(self).text()),
    {
        let ghost s = self.text();
        let ghost from = self.at();
        let start = self.seen();
        let first = match self.iter.peek() {
            Some((_, c)) => c,
            None => '0',
        };
        let radix: u32 = if first == '0' {
            self.iter.next();
            let hex = match self.iter.peek() {
                Some((_, c)) => c == 'x',
                None => false,
            };
            if hex {
                self.iter.next();
                16
            } else {
                8
            }
        } else {
            10
        };
        let ghost body = self.at();
        let mut number = String::from_str("0");
        proof {
            reveal_strlit("0");
            assert(number@ =~= seq!['0'] + s.subrange(body, body));
            assert(digit_of('0', radix) == Some(0u32));
        }
        loop
            invariant
                self.wf(),
                self.text() == s,
                self.err == old(self).err,
                2 <= radix <= 36,
                0 <= body <= self.at() < s.len(),
                s.len() >= 1,
                s.last() == '\0',
                digits_end(s, body, radix) == digits_end(s, self.at(), radix),
                number@ == seq!['0'] + s.subrange(body, self.at()),
                all_digits(number@, radix),
            ensures
                self.wf(),
                self.text() == s,
                self.err == old(self).err,
                body <= self.at() < s.len(),
                self.at() == digits_end(s, body, radix),
                number@ == seq!['0'] + s.subrange(body, self.at()),
                all_digits(number@, radix),
            decreases s.len() - self.at(),
        {
            let digit = match self.iter.peek() {
                Some((_, c)) => if c.is_digit(radix) {
                    Some(c)
                } else {
                    None
                },
                None => None,
            };
            match digit {
                Some(c) => {
                    let ghost was = self.at();
                    number.push(c);
                    self.iter.next();
                    proof {
                        assert(s.subrange(body, was + 1) =~= s.subrange(body, was).push(c));
                        assert(number@ =~= seq!['0'] + s.subrange(body, was + 1));
                        assert(digit_of('\0', radix) is None);
                    }
                },
                None => {
                    break;
                },
            }
        }
        let end = self.seen();
        proof {
            lemma_leading_zero(s.subrange(body, self.at()), radix);
            if body == from {
                lemma_digits_end(s, from + 1, radix);
            }
        }
        match parse_digits(number.as_str(), radix) {
            Some(i) => Ok(Token { token_type: TokenType::IntLiteral(i), span: Span::from(start, end) }),
            None => Err(LexError::NoCause),
        }
    }

    /// Lexes the keyword or identifier that starts where the lexer stands.
    pub fn lex_identifier_keyword(&mut self) -> (r: Result<Token, LexError>)
        requires
            old(self).wf(),
            old(self).at() + 1 < old(self).text().len(),
            is_ident_start(old(self).text()[old(self).at()]),
        ensures
            final(self).wf(),
            final(self).text() == old(self).text(),
            final(self).err == old(self).err,
            final(self).at() == scan_word(old(self).text(), old(self).at()).next,
            old(self).at() < final(self).at() < old(self).text().len(),
            agrees(r, scan_word(old(self).text(), old(self).at()), old(self).text()),
    {
        let ghost s = self.text();
        let ghost from = self.at();
        let start = self.seen();
        let mut ident = String::new();
        match self.iter.next() {
            Some((_, c)) => {
                ident.push(c);
            },
            None => {},
        }
        proof {
            assert(ident@ =~= s.subrange(from, from + 1));
        }
        loop
            invariant
                self.wf(),
                self.text() == s,
                self.err == old(self).err,
                0 <= from < self.at() < s.len(),
                s.last() == '\0',
                ident_end(s, from + 1) == ident_end(s, self.at()),
                ident@ == s.subrange(from, self.at()),
            ensures
                self.wf(),
                self.text() == s,
                self.err == old(self).err,
                from < self.at() < s.len(),
                self.at() == ident_end(s, from + 1),
                ident@ == s.subrange(from, self.at()),
            decreases s.len() - self.at(),
        {
            let part = match self.iter.peek() {
                Some((_, c)) => if c != '\0' && (c.is_alphanumeric() || c == '_') {
                    Some(c)
                } else {
                    None
                },
                None => None,
            };
            match part {
                Some(c) => {
                    let ghost was = self.at();
                    ident.push(c);
                    self.iter.next();
                    proof {
                        assert(s.subrange(from, was + 1) =~= s.subrange(from, was).push(c));
                    }
                },
                None => {
                    break;
                },
            }
        }
        let end = self.seen();
        let token_type = if spelled(&ident, "const") {
            TokenType::ConstKw
        } else if spelled(&ident, "int") {
            TokenType::IntTy
        } else if spelled(&ident, "void") {
            TokenType::VoidTy
        } else if spelled(&ident, "break") {
            TokenType::BreakKw
        } else if spelled(&ident, "continue") {
            TokenType::ContinueKw
        } else if spelled(&ident, "if") {
            TokenType::IfKw
        } else if spelled(&ident, "else") {
            TokenType::ElseKw
        } else if spelled(&ident, "while") {
            TokenType::WhileKw
        } else if spelled(&ident, "return") {
            TokenType::ReturnKw
        } else {
            TokenType::Ident(ident)
        };
        Ok(Token { token_type, span: Span::from(start, end) })
    }

    /// Lexes the operator, delimiter or comment that starts where the lexer
    /// stands.
    pub fn lex_operator(&mut self) -> (r: Result<Token, LexError>)
        requires
            old(self).wf(),
            old(self).at() + 1 < old(self).text().len(),
        ensures
            final(self).wf(),
            final(self).text() == old(self).text(),
            final(self).err == old(self).err,
            final(self).at() == scan_operator(old(self).text(), old(self).at()).next,
            old(self).at() < final(self).at() <= old(self).text().len(),
            agrees(r, scan_operator(old(self).text(), old(self).at()), old(self).text()),
    {
        let ghost s = self.text();
        let (start, first_char) = match self.iter.next() {
            Some(item) => item,
            None => (Pos::max(), '\0'),
        };
        let second = match self.iter.peek() {
            Some((_, c)) => c,
            None => '\0',
        };
        if first_char == '/' {
            if second == '*' {
                self.iter.next();
                return self.lex_comments(true);
            } else if second == '/' {
                self.iter.next();
                return self.lex_comments(false);
            }
        }
        let token_type = if first_char == '-' {
            TokenType::Minus
        } else if first_char == '+' {
            TokenType::Plus
        } else if first_char == '*' {
            TokenType::Mul
        } else if first_char == '/' {
            TokenType::Div
        } else if first_char == '%' {
            TokenType::Mod
        } else if first_char == '=' {
            if second == '=' {
                self.iter.next();
                TokenType::Eq
            } else {
                TokenType::Assign
            }
        } else if first_char == '<' {
            if second == '=' {
                self.iter.next();
                TokenType::Le
            } else {
                TokenType::Lt
            }
        } else if first_char == '>' {
            if second == '=' {
                self.iter.next();
                TokenType::Ge
            } else {
                TokenType::Gt
            }
        } else if first_char == '!' {
            if second == '=' {
                self.iter.next();
                TokenType::Ne
            } else {
                TokenType::Not
            }
        } else if first_char == '|' {
            if second == '|' {
                self.iter.next();
                TokenType::Or
            } else {
                return Err(LexError::NoCause);
            }
        } else if first_char == '&' {
            if second == '&' {
                self.iter.next();
                TokenType::And
            } else {
                return Err(LexError::NoCause);
            }
        } else if first_char == '(' {
            TokenType::LParen
        } else if first_char == ')' {
            TokenType::RParen
        } else if first_char == '[' {
            TokenType::LBracket
        } else if first_char == ']' {
            TokenType::RBracket
        } else if first_char == '{' {
            TokenType::LBrace
        } else if first_char == '}' {
            TokenType::RBrace
        } else if first_char == ',' {
            TokenType::Comma
        } else if first_char == ';' {
            TokenType::Semicolon
        } else {
            return Err(LexError::NoCause);
        };
        let end = self.seen();
        Ok(Token { token_type, span: Span::from(start, end) })
    }

    /// Lexes the comment whose text starts where the lexer stands, behind
    /// `/*` or `//`.
    pub fn lex_comments(&mut self, multi_line: bool) -> (r: Result<Token, LexError>)
        requires
            old(self).wf(),
            old(self).at() < old(self).text().len(),
        ensures
            final(self).wf(),
            final(self).text() == old(self).text(),
            final(self).err == old(self).err,
            final(self).at() == if multi_line {
                scan_block_comment(old(self).text(), old(self).at()).next
            } else {
                scan_line_comment(old(self).text(), old(self).at()).next
            },
            old(self).at() <= final(self).at() <= old(self).text().len(),
            agrees(
                r,
                if multi_line {
                    scan_block_comment(old(self).text(), old(self).at())
                } else {
                    scan_line_comment(old(self).text(), old(self).at())
                },
                old(self).text(),
            ),
    {
        let ghost s = self.text();
        let ghost from = self.at();
        let mut comment = String::new();
        let start = self.seen();
        proof {
            assert(comment@ =~= s.subrange(from, from));
        }
        if multi_line {
            loop
                invariant
                    self.wf(),
                    self.text() == s,
                    s == old(self).text(),
                    from == old(self).at(),
                    start == pos_at(s, from),
                    self.err == old(self).err,
                    0 <= from <= self.at() <= s.len(),
                    multi_line,
                    block_end(s, from) == block_end(s, self.at()),
                    comment@ == s.subrange(from, self.at()),
                decreases s.len() - self.at(),
            {
                let ghost was = self.at();
                match self.iter.next() {
                    None => {
                        return Err(LexError::NoCause);
                    },
                    Some((_, c)) => {
                        let closes = c == '*' && match self.iter.peek() {
                            Some((_, d)) => d == '/',
                            None => false,
                        };
                        if closes {
                            self.iter.next();
                            let end = self.seen();
                            return Ok(
                                Token {
                                    token_type: TokenType::Comment(comment),
                                    span: Span::from(start, end),
                                },
                            );
                        }
                        comment.push(c);
                        proof {
                            assert(s.subrange(from, was + 1) =~= s.subrange(from, was).push(c));
                        }
                    },
                }
            }
        } else {
            loop
                invariant
                    self.wf(),
                    self.text() == s,
                    s == old(self).text(),
                    from == old(self).at(),
                    start == pos_at(s, from),
                    self.err == old(self).err,
                    0 <= from <= self.at() <= s.len(),
                    !multi_line,
                    line_end(s, from) == line_end(s, self.at()),
                    comment@ == s.subrange(from, self.at()),
                decreases s.len() - self.at(),
            {
                let ghost was = self.at();
                match self.iter.next() {
                    None => {
                        let end = self.seen();
                        return Ok(
                            Token {
                                token_type: TokenType::Comment(comment),
                                span: Span::from(start, end),
                            },
                        );
                    },
                    Some((_, c)) => {
                        if c == '\r' || c == '\n' || c == '\0' {
                            let end = self.seen();
                            return Ok(
                                Token {
                                    token_type: TokenType::Comment(comment),
                                    span: Span::from(start, end),
                                },
                            );
                        }
                        comment.push(c);
                        proof {
                            assert(s.subrange(from, was + 1) =~= s.subrange(from, was).push(c));
                        }
                    },
                }
            }
        }
    }

    /// Reads past the white space where the lexer stands.
    pub fn skip_spaces(&mut self)
        requires
            old(self).wf(),
        ensures
            final(self).wf(),
            final(self).text() == old(self).text(),
            final(self).err == old(self).err,
            final(self).at() == spaces_end(old(self).text(), old(self).at()),
            old(self).at() <= final(self).at() <= old(self).text().len(),
    {
        let ghost s = self.text();
        loop
            invariant
                self.wf(),
                self.text() == s,
                self.err == old(self).err,
                old(self).at() <= self.at() <= s.len(),
                spaces_end(s, old(self).at()) == spaces_end(s, self.at()),
            ensures
                self.wf(),
                self.text() == s,
                self.err == old(self).err,
                old(self).at() <= self.at() <= s.len(),
                self.at() == spaces_end(s, old(self).at()),
            decreases s.len() - self.at(),
        {
            let space = match self.iter.peek() {
                Some((_, c)) => c != '\0' && c.is_whitespace(),
                None => false,
            };
            if !space {
                break;
            }
            self.iter.next();
        }
    }
}

} // verus!
