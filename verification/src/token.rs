//! Tokens: what the scanner hands to the parser.

use vstd::prelude::*;
use vstd::string::*;
use crate::text::is_word;

verus! {

/// The kinds of tokens.
#[allow(non_camel_case_types)]
#[derive(Debug, PartialEq, Eq, Hash, Clone, Copy, Structural)]
pub enum TokenType {
    // Single-character tokens.
    LEFTPAREN,
    RIGHTPAREN,
    LEFTBRACE,
    RIGHTBRACE,
    COMMA,
    DOT,
    MINUS,
    PLUS,
    SEMICOLON,
    SLASH,
    STAR,
    // One or two character tokens.
    BANG,
    BANGEQUAL,
    EQUAL,
    EQUALEQUAL,
    GREATER,
    GREATEREQUAL,
    LESS,
    LESSEQUAL,
    AND,
    OR,
    // Literals.
    IDENTIFIER,
    STRING,
    NUMBER,
    // Keywords.
    CLASS,
    ELSE,
    FALSE,
    FUN,
    FOR,
    IF,
    NIL,
    PRINT,
    RETURN,
    SUPER,
    THIS,
    TRUE,
    VAR,
    WHILE,
    EOF,
}

/// The payload of a token: a number as its binary64 pattern, the contents of a
/// string literal, a boolean, or nothing.
#[derive(Debug)]
pub enum TokenLiteral {
    Number(u64),
    String(String),
    Bool(bool),
    Nil,
}

/// The mathematical value of a [`TokenLiteral`].
pub enum LiteralView {
    Number(u64),
    Text(Seq<char>),
    Bool(bool),
    Nil,
}

impl View for TokenLiteral {
    type V = LiteralView;

    open spec fn view(&self) -> LiteralView {
        match self {
            TokenLiteral::Number(bits) => LiteralView::Number(*bits),
            TokenLiteral::String(text) => LiteralView::Text(text@),
            TokenLiteral::Bool(b) => LiteralView::Bool(*b),
            TokenLiteral::Nil => LiteralView::Nil,
        }
    }
}

impl Clone for TokenLiteral {
    fn clone(&self) -> (r: Self)
        ensures
            r@ == self@,
    {
        match self {
            TokenLiteral::Number(bits) => TokenLiteral::Number(*bits),
            TokenLiteral::String(text) => TokenLiteral::String(text.clone()),
            TokenLiteral::Bool(b) => TokenLiteral::Bool(*b),
            TokenLiteral::Nil => TokenLiteral::Nil,
        }
    }
}

/// A token: its kind, its text, its payload, and the line and the offset in
/// the source at which it ends.
#[derive(Debug)]
pub struct Token {
    pub _type: TokenType,
    pub lexeme: String,
    pub literal: TokenLiteral,
    pub line: usize,
    pub offset: usize,
}

/// The mathematical value of a [`Token`].
pub struct TokenView {
    pub kind: TokenType,
    pub lexeme: Seq<char>,
    pub literal: LiteralView,
    pub line: usize,
    pub offset: usize,
}

impl View for Token {
    type V = TokenView;

    open spec fn view(&self) -> TokenView {
        TokenView {
            kind: self._type,
            lexeme: self.lexeme@,
            literal: self.literal@,
            line: self.line,
            offset: self.offset,
        }
    }
}

impl Clone for Token {
    fn clone(&self) -> (r: Self)
        ensures
            r@ == self@,
    {
        Token {
            _type: self._type,
            lexeme: self.lexeme.clone(),
            literal: self.literal.clone(),
            line: self.line,
            offset: self.offset,
        }
    }
}

impl Token {
    /// A token of the given parts.
    pub fn build(
        token_type: TokenType,
        lexeme: &str,
        literal: TokenLiteral,
        line: usize,
        offset: usize,
    ) -> (r: Token)
        ensures
            r@ == (TokenView {
                kind: token_type,
                lexeme: lexeme@,
                literal: literal@,
                line: line,
                offset: offset,
            }),
    {
        Token { _type: token_type, lexeme: String::from_str(lexeme), literal, line, offset }
    }
}

/// The views of a sequence of tokens.
pub open spec fn tokens_view(tokens: Seq<Token>) -> Seq<TokenView> {
    Seq::new(tokens.len(), |i: int| tokens[i]@)
}

/// The reserved word that a text spells, if it spells one.
pub open spec fn keyword_kind(text: Seq<char>) -> Option<TokenType> {
    if text == "and"@ {
        Some(TokenType::AND)
    } else if text == "class"@ {
        Some(TokenType::CLASS)
    } else if text == "else"@ {
        Some(TokenType::ELSE)
    } else if text == "false"@ {
        Some(TokenType::FALSE)
    } else if text == "for"@ {
        Some(TokenType::FOR)
    } else if text == "fun"@ {
        Some(TokenType::FUN)
    } else if text == "if"@ {
        Some(TokenType::IF)
    } else if text == "nil"@ {
        Some(TokenType::NIL)
    } else if text == "or"@ {
        Some(TokenType::OR)
    } else if text == "print"@ {
        Some(TokenType::PRINT)
    } else if text == "return"@ {
        Some(TokenType::RETURN)
    } else if text == "super"@ {
        Some(TokenType::SUPER)
    } else if text == "this"@ {
        Some(TokenType::THIS)
    } else if text == "true"@ {
        Some(TokenType::TRUE)
    } else if text == "var"@ {
        Some(TokenType::VAR)
    } else if text == "while"@ {
        Some(TokenType::WHILE)
    } else {
        None
    }
}

/// The reserved word that a text spells, if it spells one.
pub fn keyword(text: &String) -> (r: Option<TokenType>)
    ensures
        r == keyword_kind(text@),
{
    if is_word(text, "and") {
        Some(TokenType::AND)
    } else if is_word(text, "class") {
        Some(TokenType::CLASS)
    } else if is_word(text, "else") {
        Some(TokenType::ELSE)
    } else if is_word(text, "false") {
        Some(TokenType::FALSE)
    } else if is_word(text, "for") {
        Some(TokenType::FOR)
    } else if is_word(text, "fun") {
        Some(TokenType::FUN)
    } else if is_word(text, "if") {
        Some(TokenType::IF)
    } else if is_word(text, "nil") {
        Some(TokenType::NIL)
    } else if is_word(text, "or") {
        Some(TokenType::OR)
    } else if is_word(text, "print") {
        Some(TokenType::PRINT)
    } else if is_word(text, "return") {
        Some(TokenType::RETURN)
    } else if is_word(text, "super") {
        Some(TokenType::SUPER)
    } else if is_word(text, "this") {
        Some(TokenType::THIS)
    } else if is_word(text, "true") {
        Some(TokenType::TRUE)
    } else if is_word(text, "var") {
        Some(TokenType::VAR)
    } else if is_word(text, "while") {
        Some(TokenType::WHILE)
    } else {
        None
    }
}

} // verus!
