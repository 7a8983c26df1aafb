//! The scanner: from a source text to its tokens.

use vstd::prelude::*;
use vstd::string::*;
use crate::lexing;
use crate::lexing::{ScanError, ScanErrorKind, Scanned};
use crate::number;
use crate::text::{chars_of, text_of_range};
use crate::token::{keyword, tokens_view, LiteralView, Token, TokenLiteral, TokenType};

verus! {

/// `char::is_alphabetic` of std: whether the character has the Unicode
/// property `Alphabetic`.
#[verifier::external_body]
fn is_alphabetic(c: char) -> (r: bool)
    ensures
        r == lexing::alphabetic(c),
{
    c.is_alphabetic()
}

/// `char::is_alphanumeric` of std: whether the character is alphabetic or
/// numeric in the sense of Unicode.
#[verifier::external_body]
fn is_alphanumeric(c: char) -> (r: bool)
    ensures
        r == lexing::alphanumeric(c),
{
    c.is_alphanumeric()
}

fn is_digit(c: char) -> (r: bool)
    ensures
        r == lexing::is_digit(c),
{
    '0' <= c && c <= '9'
}

fn next_line(line: usize) -> (r: usize)
    ensures
        r == lexing::next_line(line),
{
    if line < usize::MAX {
        line + 1
    } else {
        line
    }
}

/// The first double quote from `pos` on is not before `pos` nor after the end
/// of the text.
proof fn lemma_quote_end_bounds(chars: Seq<char>, pos: int)
    requires
        0 <= pos <= chars.len(),
    ensures
        pos <= lexing::quote_end(chars, pos) <= chars.len(),
    decreases chars.len() - pos,
{
    if pos < chars.len() && chars[pos] != '"' {
        lemma_quote_end_bounds(chars, pos + 1);
    }
}

/// The characters of the source, what was found so far, and the place and
/// the line of the scan.
pub struct Scanner {
    source: Vec<char>,
    tokens: Vec<Token>,
    errors: Vec<ScanError>,
    start: usize,
    current: usize,
    line: usize,
}

impl Scanner {
    /// The characters of the source text.
    pub closed spec fn source(&self) -> Seq<char> {
        self.source@
    }

    /// What has been found so far.
    pub closed spec fn found(&self) -> Scanned {
        Scanned { tokens: tokens_view(self.tokens@), errors: self.errors@ }
    }

    /// The place of the next character to read.
    pub closed spec fn position(&self) -> int {
        self.current as int
    }

    /// The line of the next character to read.
    pub closed spec fn line(&self) -> usize {
        self.line
    }

    /// The scan stands inside the source.
    pub closed spec fn wf(&self) -> bool {
        self.start <= self.current <= self.source.len()
    }

    /// A scanner at the start of a source text.
    pub fn build(_source: &String) -> (r: Scanner)
        ensures
            r.wf(),
            r.source() == _source@,
            r.found() == (Scanned { tokens: Seq::empty(), errors: Seq::empty() }),
            r.position() == 0,
            r.line() == 1,
    {
        let r = Scanner {
            source: chars_of(_source.as_str()),
            tokens: Vec::new(),
            errors: Vec::new(),
            start: 0,
            current: 0,
            line: 1,
        };
        assert(tokens_view(r.tokens@) =~= Seq::empty());
        r
    }

    /// Scans the rest of the text: the tokens, closed by the end-of-stream
    /// token, and the errors.
    pub fn scan(self) -> (r: (Vec<Token>, Vec<ScanError>))
        requires
            self.wf(),
        ensures
            lexing::scan_from(self.source(), self.position(), self.line(), self.found()) == (Scanned {
                tokens: tokens_view(r.0@),
                errors: r.1@,
            }),
            crate::grammar::well_formed(tokens_view(r.0@)),
    {
        let mut scanner = self;
        while !scanner.is_at_end()
            invariant
                scanner.wf(),
                scanner.source == self.source,
                lexing::scan_from(self.source(), self.position(), self.line(), self.found())
                    == lexing::scan_from(
                    scanner.source(),
                    scanner.position(),
                    scanner.line(),
                    scanner.found(),
                ),
            decreases scanner.source.len() - scanner.current,
        {
            scanner.start = scanner.current;
            scanner.scan_token();
        }
        let end = Token::build(TokenType::EOF, "", TokenLiteral::Nil, scanner.line, scanner.current);
        proof {
            reveal_strlit("");
            assert(end@.lexeme =~= Seq::<char>::empty());
            assert(tokens_view(scanner.tokens@.push(end)) =~= tokens_view(scanner.tokens@).push(end@));
        }
        scanner.tokens.push(end);
        (scanner.tokens, scanner.errors)
    }

    /// Scans the rest of the text and gives its tokens, closed by the
    /// end-of-stream token.
    pub fn scan_tokens(self) -> (r: Vec<Token>)
        requires
            self.wf(),
        ensures
            tokens_view(r@) == lexing::scan_from(
                self.source(),
                self.position(),
                self.line(),
                self.found(),
            ).tokens,
            crate::grammar::well_formed(tokens_view(r@)),
    {
        self.scan().0
    }

    fn is_at_end(&self) -> (r: bool)
        requires
            self.wf(),
        ensures
            r == (self.current >= self.source.len()),
    {
        self.current >= self.source.len()
    }

    /// Scans one lexeme.
    fn scan_token(&mut self)
        requires
            old(self).wf(),
            old(self).start == old(self).current,
            old(self).current < old(self).source.len(),
        ensures
            final(self).wf(),
            final(self).source == old(self).source,
            final(self).current > old(self).current,
            final(self).position() == lexing::step(old(self).source(), old(self).position(), old(self).line()).next,
            final(self).line() == lexing::step(old(self).source(), old(self).position(), old(self).line()).line,
            final(self).found() == lexing::note(
                old(self).found(),
                lexing::step(old(self).source(), old(self).position(), old(self).line()).lexeme,
            ),
    {
        let c = self._advance();
        match c {
            '(' => self._add_token(TokenType::LEFTPAREN),
            ')' => self._add_token(TokenType::RIGHTPAREN),
            '{' => self._add_token(TokenType::LEFTBRACE),
            '}' => self._add_token(TokenType::RIGHTBRACE),
            ',' => self._add_token(TokenType::COMMA),
            '.' => self._add_token(TokenType::DOT),
            '-' => self._add_token(TokenType::MINUS),
            '+' => self._add_token(TokenType::PLUS),
            ';' => self._add_token(TokenType::SEMICOLON),
            '*' => self._add_token(TokenType::STAR),
            '"' => self._string(),
            '!' => {
                if self._match_char('=') {
                    self._add_token(TokenType::BANGEQUAL);
                } else {
                    self._add_token(TokenType::BANG);
                }
            },
            '=' => {
                if self._match_char('=') {
                    self._add_token(TokenType::EQUALEQUAL);
                } else {
                    self._add_token(TokenType::EQUAL);
                }
            },
            '<' => {
                if self._match_char('=') {
                    self._add_token(TokenType::LESSEQUAL);
                } else {
                    self._add_token(TokenType::LESS);
                }
            },
            '>' => {
                if self._match_char('=') {
                    self._add_token(TokenType::GREATEREQUAL);
                } else {
                    self._add_token(TokenType::GREATER);
                }
            },
            '/' => {
                if self._match_char('/') {
                    self.skip_line();
                } else {
                    self._add_token(TokenType::SLASH);
                }
            },
            ' ' | '\r' | '\t' => {},
            '\n' => {
                self.line = next_line(self.line);
            },
            _ => {
                if is_digit(c) {
                    self._number();
                } else if is_alphabetic(c) {
                    self._identifier();
                } else {
                    self.errors.push(ScanError { kind: ScanErrorKind::UnexpectedCharacter(c), line: self.line });
                }
            },
        }
    }

    /// Skips the rest of the line, up to its end.
    fn skip_line(&mut self)
        requires
            old(self).wf(),
        ensures
            final(self).wf(),
            final(self).source == old(self).source,
            final(self).tokens == old(self).tokens,
            final(self).errors == old(self).errors,
            final(self).start == old(self).start,
            final(self).line == old(self).line,
            final(self).current == lexing::line_end(old(self).source@, old(self).current as int),
            final(self).current >= old(self).current,
    {
        while self.current < self.source.len() && self.source[self.current] != '\n'
            invariant
                self.wf(),
                self.source == old(self).source,
                self.tokens == old(self).tokens,
                self.errors == old(self).errors,
                self.start == old(self).start,
                self.line == old(self).line,
                old(self).current <= self.current,
                lexing::line_end(old(self).source@, old(self).current as int) == lexing::line_end(
                    self.source@,
                    self.current as int,
                ),
            decreases self.source.len() - self.current,
        {
            self.current = self.current + 1;
        }
    }

    /// Adds the token of the characters from `start` to `current`.
    fn add_token(&mut self, token_type: TokenType, literal: TokenLiteral)
        requires
            old(self).wf(),
        ensures
            final(self).wf(),
            final(self).source == old(self).source,
            final(self).errors == old(self).errors,
            final(self).start == old(self).start,
            final(self).current == old(self).current,
            final(self).line == old(self).line,
            tokens_view(final(self).tokens@) == tokens_view(old(self).tokens@).push(
                lexing::token(
                    token_type,
                    old(self).source@,
                    old(self).start as int,
                    old(self).current as int,
                    literal@,
                    old(self).line,
                ),
            ),
    {
        let sub_string = text_of_range(&self.source, self.start, self.current);
        let token = Token::build(token_type, sub_string.as_str(), literal, self.line, self.current);
        proof {
            assert(tokens_view(self.tokens@.push(token)) =~= tokens_view(self.tokens@).push(token@));
        }
        self.tokens.push(token);
    }

    fn _identifier(&mut self)
        requires
            old(self).wf(),
            old(self).start + 1 == old(self).current,
        ensures
            final(self).wf(),
            final(self).source == old(self).source,
            final(self).errors == old(self).errors,
            final(self).line == old(self).line,
            final(self).current == lexing::word_end(old(self).source@, old(self).current as int),
            final(self).current >= old(self).current,
            tokens_view(final(self).tokens@) == tokens_view(old(self).tokens@).push(
                lexing::token(
                    match crate::token::keyword_kind(
                        old(self).source@.subrange(old(self).start as int, final(self).current as int),
                    ) {
                        Some(kind) => kind,
                        None => TokenType::IDENTIFIER,
                    },
                    old(self).source@,
                    old(self).start as int,
                    final(self).current as int,
                    LiteralView::Nil,
                    old(self).line,
                ),
            ),
    {
        while self.current < self.source.len() && (is_alphanumeric(self.source[self.current])
            || self.source[self.current] == '_')
            invariant
                self.wf(),
                self.source == old(self).source,
                self.tokens == old(self).tokens,
                self.errors == old(self).errors,
                self.start == old(self).start,
                self.line == old(self).line,
                old(self).current <= self.current,
                lexing::word_end(old(self).source@, old(self).current as int) == lexing::word_end(
                    self.source@,
                    self.current as int,
                ),
            decreases self.source.len() - self.current,
        {
            self.current = self.current + 1;
        }
        let text = text_of_range(&self.source, self.start, self.current);
        match keyword(&text) {
            Some(t) => self.add_token(t, TokenLiteral::Nil),
            None => self.add_token(TokenType::IDENTIFIER, TokenLiteral::Nil),
        }
    }

    /// Steps over a run of digits.
    fn digits(&mut self)
        requires
            old(self).wf(),
        ensures
            final(self).wf(),
            final(self).source == old(self).source,
            final(self).tokens == old(self).tokens,
            final(self).errors == old(self).errors,
            final(self).start == old(self).start,
            final(self).line == old(self).line,
            final(self).current == lexing::digits_end(old(self).source@, old(self).current as int),
            final(self).current >= old(self).current,
    {
        while self.current < self.source.len() && is_digit(self.source[self.current])
            invariant
                self.wf(),
                self.source == old(self).source,
                self.tokens == old(self).tokens,
                self.errors == old(self).errors,
                self.start == old(self).start,
                self.line == old(self).line,
                old(self).current <= self.current,
                lexing::digits_end(old(self).source@, old(self).current as int) == lexing::digits_end(
                    self.source@,
                    self.current as int,
                ),
            decreases self.source.len() - self.current,
        {
            self.current = self.current + 1;
        }
    }

    fn _number(&mut self)
        requires
            old(self).wf(),
            old(self).start + 1 == old(self).current,
            lexing::is_digit(old(self).source@[old(self).start as int]),
        ensures
            final(self).wf(),
            final(self).source == old(self).source,
            final(self).line == old(self).line,
            final(self).current == lexing::number_end(old(self).source@, old(self).start as int),
            final(self).current > old(self).start,
            final(self).found() == lexing::note(
                old(self).found(),
                lexing::step(old(self).source@, old(self).start as int, old(self).line).lexeme,
            ),
    {
        self.digits();
        // Look for a fractional part.
        if self.current < self.source.len() && self.source.len() - self.current > 1
            && self.source[self.current] == '.' && is_digit(self.source[self.current + 1]) {
            // Consume the "."
            self.current = self.current + 1;
            self.digits();
        }
        let text = text_of_range(&self.source, self.start, self.current);
        match number::parse_decimal(text.as_str()) {
            Some(bits) => self.add_token(TokenType::NUMBER, TokenLiteral::Number(bits)),
            None => {
                self.errors.push(ScanError { kind: ScanErrorKind::InvalidNumber, line: self.line });
            },
        }
    }

    fn _string(&mut self)
        requires
            old(self).wf(),
            old(self).start + 1 == old(self).current,
            old(self).source@[old(self).start as int] == '"',
        ensures
            final(self).wf(),
            final(self).source == old(self).source,
            final(self).current > old(self).start,
            final(self).current == lexing::step(old(self).source@, old(self).start as int, old(self).line).next,
            final(self).line == lexing::step(old(self).source@, old(self).start as int, old(self).line).line,
            final(self).found() == lexing::note(
                old(self).found(),
                lexing::step(old(self).source@, old(self).start as int, old(self).line).lexeme,
            ),
    {
        proof {
            lemma_quote_end_bounds(self.source@, self.current as int);
        }
        while self.current < self.source.len() && self.source[self.current] != '"'
            invariant
                self.wf(),
                self.source == old(self).source,
                self.tokens == old(self).tokens,
                self.errors == old(self).errors,
                self.start == old(self).start,
                old(self).current <= self.current,
                lexing::quote_end(old(self).source@, old(self).current as int) == lexing::quote_end(
                    self.source@,
                    self.current as int,
                ),
                lexing::line_after(
                    old(self).source@,
                    old(self).current as int,
                    lexing::quote_end(old(self).source@, old(self).current as int),
                    old(self).line,
                ) == lexing::line_after(
                    self.source@,
                    self.current as int,
                    lexing::quote_end(old(self).source@, old(self).current as int),
                    self.line,
                ),
                self.current <= lexing::quote_end(old(self).source@, old(self).current as int),
            decreases self.source.len() - self.current,
        {
            proof {
                lemma_quote_end_bounds(self.source@, self.current + 1);
            }
            if self.source[self.current] == '\n' {
                self.line = next_line(self.line);
            }
            self.current = self.current + 1;
        }
        if self.is_at_end() {
            self.errors.push(ScanError { kind: ScanErrorKind::UnterminatedString, line: self.line });
            return ;
        }
        // The closing ".
        self.current = self.current + 1;
        // Trim the surrounding quotes.
        let var_string = text_of_range(&self.source, self.start + 1, self.current - 1);
        self.add_token(TokenType::STRING, TokenLiteral::String(var_string));
    }

    fn _add_token(&mut self, token_type: TokenType)
        requires
            old(self).wf(),
        ensures
            final(self).wf(),
            final(self).source == old(self).source,
            final(self).errors == old(self).errors,
            final(self).start == old(self).start,
            final(self).current == old(self).current,
            final(self).line == old(self).line,
            tokens_view(final(self).tokens@) == tokens_view(old(self).tokens@).push(
                lexing::token(
                    token_type,
                    old(self).source@,
                    old(self).start as int,
                    old(self).current as int,
                    LiteralView::Nil,
                    old(self).line,
                ),
            ),
    {
        self.add_token(token_type, TokenLiteral::Nil);
    }

    /// Steps over the next character if it is the expected one.
    fn _match_char(&mut self, expected: char) -> (r: bool)
        requires
            old(self).wf(),
        ensures
            final(self).wf(),
            final(self).source == old(self).source,
            final(self).tokens == old(self).tokens,
            final(self).errors == old(self).errors,
            final(self).start == old(self).start,
            final(self).line == old(self).line,
            r == (old(self).current < old(self).source.len() && old(self).source@[old(self).current as int]
                == expected),
            final(self).current == if r {
                old(self).current + 1
            } else {
                old(self).current as int
            },
    {
        if self.is_at_end() {
            return false;
        }
        if self.source[self.current] != expected {
            return false;
        }
        self.current = self.current + 1;
        true
    }

    /// The next character, which is stepped over.
    fn _advance(&mut self) -> (c: char)
        requires
            old(self).wf(),
            old(self).current < old(self).source.len(),
        ensures
            final(self).wf(),
            final(self).source == old(self).source,
            final(self).tokens == old(self).tokens,
            final(self).errors == old(self).errors,
            final(self).start == old(self).start,
            final(self).line == old(self).line,
            final(self).current == old(self).current + 1,
            c == old(self).source@[old(self).current as int],
    {
        let c = self.source[self.current];
        self.current = self.current + 1;
        c
    }
}

} // verus!
