//! The lexical rules of the language: what the scanner makes of a source
//! text.
//!
//! The tokens are the punctuation `( ) { } , . - + ; / *`, the operators
//! `! != = == > >= < <=`, identifiers, reserved words, string literals in
//! double quotes and number literals of the form `d+` or `d+.d+`. Blanks, line
//! ends and comments from `//` to the end of the line separate tokens. A
//! character that starts no token and a string that is not closed are errors;
//! the scanner notes them and goes on.

use vstd::prelude::*;
use crate::number;
use crate::token::{keyword_kind, LiteralView, TokenType, TokenView};

verus! {

/// What the scanner found wrong.
#[derive(Debug, PartialEq, Eq, Clone, Copy, Structural)]
pub enum ScanErrorKind {
    UnexpectedCharacter(char),
    UnterminatedString,
    InvalidNumber,
}

/// An error of the scanner, with the line where it was found.
#[derive(Debug, PartialEq, Eq, Clone, Copy, Structural)]
pub struct ScanError {
    pub kind: ScanErrorKind,
    pub line: usize,
}

/// What a scan gives: the tokens and the errors, each in the order found.
pub struct Scanned {
    pub tokens: Seq<TokenView>,
    pub errors: Seq<ScanError>,
}

/// What the scanner finds at one place.
pub enum Lexeme {
    Token(TokenView),
    Skip,
    Error(ScanError),
}

/// One step of the scanner: what it found, and where and on which line it goes
/// on.
pub struct Step {
    pub lexeme: Lexeme,
    pub next: int,
    pub line: usize,
}

/// Whether a character is alphabetic, as `char::is_alphabetic` has it.
pub uninterp spec fn alphabetic(c: char) -> bool;

/// Whether a character is alphabetic or numeric, as `char::is_alphanumeric`
/// has it.
pub uninterp spec fn alphanumeric(c: char) -> bool;

/// A decimal digit.
pub open spec fn is_digit(c: char) -> bool {
    '0' <= c && c <= '9'
}

/// A character that continues an identifier.
pub open spec fn is_word_char(c: char) -> bool {
    alphanumeric(c) || c == '_'
}

/// The line after `line`. The count stops at the largest number.
pub open spec fn next_line(line: usize) -> usize {
    if line < usize::MAX {
        (line + 1) as usize
    } else {
        line
    }
}

/// The end of the run of digits that starts at `pos`.
pub open spec fn digits_end(chars: Seq<char>, pos: int) -> int
    decreases chars.len() - pos,
{
    if 0 <= pos < chars.len() && is_digit(chars[pos]) {
        digits_end(chars, pos + 1)
    } else {
        pos
    }
}

/// The end of the run of identifier characters that starts at `pos`.
pub open spec fn word_end(chars: Seq<char>, pos: int) -> int
    decreases chars.len() - pos,
{
    if 0 <= pos < chars.len() && is_word_char(chars[pos]) {
        word_end(chars, pos + 1)
    } else {
        pos
    }
}

/// The place of the first line end from `pos` on, or the end of the text.
pub open spec fn line_end(chars: Seq<char>, pos: int) -> int
    decreases chars.len() - pos,
{
    if 0 <= pos < chars.len() && chars[pos] != '\n' {
        line_end(chars, pos + 1)
    } else {
        pos
    }
}

/// The place of the first double quote from `pos` on, or the end of the text.
pub open spec fn quote_end(chars: Seq<char>, pos: int) -> int
    decreases chars.len() - pos,
{
    if 0 <= pos < chars.len() && chars[pos] != '"' {
        quote_end(chars, pos + 1)
    } else {
        pos
    }
}

/// The line reached from `line` over the characters `chars[from..to]`.
pub open spec fn line_after(chars: Seq<char>, from: int, to: int, line: usize) -> usize
    decreases to - from,
{
    if from >= to {
        line
    } else if chars[from] == '\n' {
        line_after(chars, from + 1, to, next_line(line))
    } else {
        line_after(chars, from + 1, to, line)
    }
}

/// The end of the number literal that starts at `pos`: digits, and a fraction
/// if a dot and a digit follow them.
pub open spec fn number_end(chars: Seq<char>, pos: int) -> int {
    let whole = digits_end(chars, pos);
    if whole + 1 < chars.len() && chars[whole] == '.' && is_digit(chars[whole + 1]) {
        digits_end(chars, whole + 1)
    } else {
        whole
    }
}

/// The token of the characters `chars[start..end]`, with a payload.
pub open spec fn token(
    kind: TokenType,
    chars: Seq<char>,
    start: int,
    end: int,
    literal: LiteralView,
    line: usize,
) -> TokenView {
    TokenView { kind, lexeme: chars.subrange(start, end), literal, line, offset: end as usize }
}

/// The kind of the punctuation or operator that starts with `c`, which `=`
/// may follow; `None` where `c` starts none.
pub open spec fn punctuation(c: char, followed: bool) -> Option<TokenType> {
    if c == '(' {
        Some(TokenType::LEFTPAREN)
    } else if c == ')' {
        Some(TokenType::RIGHTPAREN)
    } else if c == '{' {
        Some(TokenType::LEFTBRACE)
    } else if c == '}' {
        Some(TokenType::RIGHTBRACE)
    } else if c == ',' {
        Some(TokenType::COMMA)
    } else if c == '.' {
        Some(TokenType::DOT)
    } else if c == '-' {
        Some(TokenType::MINUS)
    } else if c == '+' {
        Some(TokenType::PLUS)
    } else if c == ';' {
        Some(TokenType::SEMICOLON)
    } else if c == '*' {
        Some(TokenType::STAR)
    } else if c == '/' {
        Some(TokenType::SLASH)
    } else if c == '!' {
        Some(
            if followed {
                TokenType::BANGEQUAL
            } else {
                TokenType::BANG
            },
        )
    } else if c == '=' {
        Some(
            if followed {
                TokenType::EQUALEQUAL
            } else {
                TokenType::EQUAL
            },
        )
    } else if c == '<' {
        Some(
            if followed {
                TokenType::LESSEQUAL
            } else {
                TokenType::LESS
            },
        )
    } else if c == '>' {
        Some(
            if followed {
                TokenType::GREATEREQUAL
            } else {
                TokenType::GREATER
            },
        )
    } else {
        None
    }
}

/// Whether the operator that starts with `c` takes a following `=` with it.
pub open spec fn pairs_with_equal(c: char) -> bool {
    c == '!' || c == '=' || c == '<' || c == '>'
}

/// What the scanner finds at `pos`, which is a place in the text.
pub open spec fn step(chars: Seq<char>, pos: int, line: usize) -> Step {
    let c = chars[pos];
    let followed = pos + 1 < chars.len() && chars[pos + 1] == '=';
    if c == '/' && pos + 1 < chars.len() && chars[pos + 1] == '/' {
        Step { lexeme: Lexeme::Skip, next: line_end(chars, pos + 2), line }
    } else if punctuation(c, followed) is Some {
        let end = if pairs_with_equal(c) && followed {
            pos + 2
        } else {
            pos + 1
        };
        Step {
            lexeme: Lexeme::Token(token(punctuation(c, followed)->0, chars, pos, end, LiteralView::Nil, line)),
            next: end,
            line,
        }
    } else if c == ' ' || c == '\r' || c == '\t' {
        Step { lexeme: Lexeme::Skip, next: pos + 1, line }
    } else if c == '\n' {
        Step { lexeme: Lexeme::Skip, next: pos + 1, line: next_line(line) }
    } else if c == '"' {
        let close = quote_end(chars, pos + 1);
        let last = line_after(chars, pos + 1, close, line);
        if close >= chars.len() {
            Step {
                lexeme: Lexeme::Error(ScanError { kind: ScanErrorKind::UnterminatedString, line: last }),
                next: close,
                line: last,
            }
        } else {
            Step {
                lexeme: Lexeme::Token(
                    token(
                        TokenType::STRING,
                        chars,
                        pos,
                        close + 1,
                        LiteralView::Text(chars.subrange(pos + 1, close)),
                        last,
                    ),
                ),
                next: close + 1,
                line: last,
            }
        }
    } else if is_digit(c) {
        let end = number_end(chars, pos);
        match number::decimal_bits(chars.subrange(pos, end)) {
            Some(bits) => Step {
                lexeme: Lexeme::Token(token(TokenType::NUMBER, chars, pos, end, LiteralView::Number(bits), line)),
                next: end,
                line,
            },
            None => Step {
                lexeme: Lexeme::Error(ScanError { kind: ScanErrorKind::InvalidNumber, line }),
                next: end,
                line,
            },
        }
    } else if alphabetic(c) {
        let end = word_end(chars, pos + 1);
        let kind = match keyword_kind(chars.subrange(pos, end)) {
            Some(kind) => kind,
            None => TokenType::IDENTIFIER,
        };
        Step { lexeme: Lexeme::Token(token(kind, chars, pos, end, LiteralView::Nil, line)), next: end, line }
    } else {
        Step {
            lexeme: Lexeme::Error(ScanError { kind: ScanErrorKind::UnexpectedCharacter(c), line }),
            next: pos + 1,
            line,
        }
    }
}

/// What was found so far, with what one more step found.
pub open spec fn note(found: Scanned, lexeme: Lexeme) -> Scanned {
    match lexeme {
        Lexeme::Token(token) => Scanned { tokens: found.tokens.push(token), errors: found.errors },
        Lexeme::Skip => found,
        Lexeme::Error(error) => Scanned { tokens: found.tokens, errors: found.errors.push(error) },
    }
}

/// The token that closes the stream.
pub open spec fn end_token(chars: Seq<char>, line: usize) -> TokenView {
    TokenView {
        kind: TokenType::EOF,
        lexeme: Seq::empty(),
        literal: LiteralView::Nil,
        line,
        offset: chars.len() as usize,
    }
}

/// The scan of the text from `pos` on: `found` holds what was found before.
pub open spec fn scan_from(chars: Seq<char>, pos: int, line: usize, found: Scanned) -> Scanned
    decreases chars.len() - pos,
{
    if !(0 <= pos < chars.len()) {
        Scanned { tokens: found.tokens.push(end_token(chars, line)), errors: found.errors }
    } else {
        let here = step(chars, pos, line);
        if !(pos < here.next <= chars.len()) {
            Scanned { tokens: found.tokens.push(end_token(chars, line)), errors: found.errors }
        } else {
            scan_from(chars, here.next, here.line, note(found, here.lexeme))
        }
    }
}

/// The scan of a text: lines are counted from 1.
pub open spec fn scan(chars: Seq<char>) -> Scanned {
    scan_from(chars, 0, 1, Scanned { tokens: Seq::empty(), errors: Seq::empty() })
}

} // verus!
