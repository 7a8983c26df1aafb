//! The carriers of parse errors, static errors and runtime errors.

use vstd::prelude::*;
use vstd::string::*;
use crate::text::{push_decimal, decimal_text};
use crate::token::{Token, TokenView};
use crate::value::LoxValue;

verus! {

/// What the parser found wrong.
#[derive(Debug, PartialEq, Eq, Clone, Copy, Structural)]
pub enum ParseErrorKind {
    ExpectFunctionName,
    ExpectLeftParenAfterFunctionName,
    TooManyParameters,
    ExpectParameterName,
    ExpectRightParenAfterParameters,
    ExpectLeftBraceBeforeFunctionBody,
    ExpectVariableName,
    ExpectSemicolonAfterVariableDeclaration,
    ExpectLeftParenAfterFor,
    ExpectSemicolonAfterLoopCondition,
    ExpectRightParenAfterForClauses,
    ExpectLeftParenAfterIf,
    ExpectRightParenAfterIfCondition,
    ExpectSemicolonAfterValue,
    ExpectSemicolonAfterReturnValue,
    ExpectLeftParenAfterWhile,
    ExpectRightParenAfterCondition,
    ExpectRightBraceAfterBlock,
    InvalidAssignmentTarget,
    TooManyArguments,
    ExpectRightParenAfterArguments,
    ExpectRightParenAfterExpression,
    ExpectExpression,
}

impl ParseErrorKind {
    /// The message of a parse error of this kind.
    pub open spec fn text(self) -> Seq<char> {
        match self {
            ParseErrorKind::ExpectFunctionName => "Expect function name."@,
            ParseErrorKind::ExpectLeftParenAfterFunctionName => "Expect '(' after function name."@,
            ParseErrorKind::TooManyParameters => "Cannot have more than 255 parameters."@,
            ParseErrorKind::ExpectParameterName => "Expect parameter name."@,
            ParseErrorKind::ExpectRightParenAfterParameters => "Expect ')' after parameters."@,
            ParseErrorKind::ExpectLeftBraceBeforeFunctionBody => "Expect '{' before function body."@,
            ParseErrorKind::ExpectVariableName => "Expect variable name."@,
            ParseErrorKind::ExpectSemicolonAfterVariableDeclaration => "Expect ';' after variable declaration."@,
            ParseErrorKind::ExpectLeftParenAfterFor => "Expect '(' after 'for'."@,
            ParseErrorKind::ExpectSemicolonAfterLoopCondition => "Expect ';' after loop condition."@,
            ParseErrorKind::ExpectRightParenAfterForClauses => "Expect ')' after for clauses."@,
            ParseErrorKind::ExpectLeftParenAfterIf => "Expect '(' after 'if'."@,
            ParseErrorKind::ExpectRightParenAfterIfCondition => "Expect ')' after if condition."@,
            ParseErrorKind::ExpectSemicolonAfterValue => "Expect ';' after value."@,
            ParseErrorKind::ExpectSemicolonAfterReturnValue => "Expect ';' after return value."@,
            ParseErrorKind::ExpectLeftParenAfterWhile => "Expect '(' after 'while'."@,
            ParseErrorKind::ExpectRightParenAfterCondition => "Expect ')' after condition."@,
            ParseErrorKind::ExpectRightBraceAfterBlock => "Expect '}' after block."@,
            ParseErrorKind::InvalidAssignmentTarget => "Invalid assignment target."@,
            ParseErrorKind::TooManyArguments => "Cannot have more than 255 arguments."@,
            ParseErrorKind::ExpectRightParenAfterArguments => "Expect ')' after arguments."@,
            ParseErrorKind::ExpectRightParenAfterExpression => "Expect ')' after expression."@,
            ParseErrorKind::ExpectExpression => "Expect expression."@,
        }
    }

    /// The message of a parse error of this kind.
    pub fn message(self) -> (r: &'static str)
        ensures
            r@ == self.text(),
    {
        match self {
            ParseErrorKind::ExpectFunctionName => "Expect function name.",
            ParseErrorKind::ExpectLeftParenAfterFunctionName => "Expect '(' after function name.",
            ParseErrorKind::TooManyParameters => "Cannot have more than 255 parameters.",
            ParseErrorKind::ExpectParameterName => "Expect parameter name.",
            ParseErrorKind::ExpectRightParenAfterParameters => "Expect ')' after parameters.",
            ParseErrorKind::ExpectLeftBraceBeforeFunctionBody => "Expect '{' before function body.",
            ParseErrorKind::ExpectVariableName => "Expect variable name.",
            ParseErrorKind::ExpectSemicolonAfterVariableDeclaration => "Expect ';' after variable declaration.",
            ParseErrorKind::ExpectLeftParenAfterFor => "Expect '(' after 'for'.",
            ParseErrorKind::ExpectSemicolonAfterLoopCondition => "Expect ';' after loop condition.",
            ParseErrorKind::ExpectRightParenAfterForClauses => "Expect ')' after for clauses.",
            ParseErrorKind::ExpectLeftParenAfterIf => "Expect '(' after 'if'.",
            ParseErrorKind::ExpectRightParenAfterIfCondition => "Expect ')' after if condition.",
            ParseErrorKind::ExpectSemicolonAfterValue => "Expect ';' after value.",
            ParseErrorKind::ExpectSemicolonAfterReturnValue => "Expect ';' after return value.",
            ParseErrorKind::ExpectLeftParenAfterWhile => "Expect '(' after 'while'.",
            ParseErrorKind::ExpectRightParenAfterCondition => "Expect ')' after condition.",
            ParseErrorKind::ExpectRightBraceAfterBlock => "Expect '}' after block.",
            ParseErrorKind::InvalidAssignmentTarget => "Invalid assignment target.",
            ParseErrorKind::TooManyArguments => "Cannot have more than 255 arguments.",
            ParseErrorKind::ExpectRightParenAfterArguments => "Expect ')' after arguments.",
            ParseErrorKind::ExpectRightParenAfterExpression => "Expect ')' after expression.",
            ParseErrorKind::ExpectExpression => "Expect expression.",
        }
    }
}

/// A parse error: what is wrong, and the position of the token where the
/// parser noticed it.
#[derive(Debug, PartialEq, Eq, Clone, Copy, Structural)]
pub struct ParseError {
    pub kind: ParseErrorKind,
    pub line: usize,
    pub column: usize,
}

/// The text `<label> at line <line> column <column>: <message>`.
pub open spec fn located_text(label: Seq<char>, line: usize, column: usize, message: Seq<char>) -> Seq<char> {
    label + " at line "@ + decimal_text(line as nat) + " column "@ + decimal_text(column as nat)
        + ": "@ + message
}

/// The text `<label> at line <line> column <column>: <message>`.
pub fn located(label: &str, line: usize, column: usize, message: &str) -> (r: String)
    ensures
        r@ == located_text(label@, line, column, message@),
{
    let mut r = String::from_str(label);
    r.append(" at line ");
    push_decimal(&mut r, line);
    r.append(" column ");
    push_decimal(&mut r, column);
    r.append(": ");
    r.append(message);
    r
}

impl ParseError {
    /// The error of a given kind at a token.
    pub fn new(token: &Token, kind: ParseErrorKind) -> (r: ParseError)
        ensures
            r == ParseError::at(token@, kind),
    {
        ParseError { kind, line: token.line, column: token.offset }
    }

    /// The error of a given kind at a token.
    pub open spec fn at(token: TokenView, kind: ParseErrorKind) -> ParseError {
        ParseError { kind, line: token.line, column: token.offset }
    }

    /// The line that reports this error.
    pub open spec fn text(self) -> Seq<char> {
        located_text("ParseError"@, self.line, self.column, self.kind.text())
    }

    /// The line that reports this error.
    pub fn to_string(&self) -> (r: String)
        ensures
            r@ == self.text(),
    {
        located("ParseError", self.line, self.column, self.kind.message())
    }
}

/// A static error, found before the program runs.
#[derive(Debug, PartialEq, Eq, Clone, Copy, Structural)]
pub enum StaticErrorKind {
    ReadInOwnInitializer,
}

impl StaticErrorKind {
    /// The message of a static error of this kind.
    pub open spec fn text(self) -> Seq<char> {
        match self {
            StaticErrorKind::ReadInOwnInitializer => "Can't read local variable in its own initializer."@,
        }
    }

    /// The message of a static error of this kind.
    pub fn message(self) -> (r: &'static str)
        ensures
            r@ == self.text(),
    {
        match self {
            StaticErrorKind::ReadInOwnInitializer => "Can't read local variable in its own initializer.",
        }
    }
}

/// A static error: what is wrong, and the position of the offending name.
#[derive(Debug, PartialEq, Eq, Clone, Copy, Structural)]
pub struct StaticError {
    pub kind: StaticErrorKind,
    pub line: usize,
    pub column: usize,
}

impl StaticError {
    /// The error of a given kind at a token.
    pub open spec fn at(token: TokenView, kind: StaticErrorKind) -> StaticError {
        StaticError { kind, line: token.line, column: token.offset }
    }

    /// The error of a given kind at a token.
    pub fn new(token: &Token, kind: StaticErrorKind) -> (r: StaticError)
        ensures
            r == StaticError::at(token@, kind),
    {
        StaticError { kind, line: token.line, column: token.offset }
    }

    /// The line that reports this error.
    pub open spec fn text(self) -> Seq<char> {
        located_text("StaticError"@, self.line, self.column, self.kind.text())
    }

    /// The line that reports this error.
    pub fn to_string(&self) -> (r: String)
        ensures
            r@ == self.text(),
    {
        located("StaticError", self.line, self.column, self.kind.message())
    }
}

/// What went wrong while the program ran.
#[derive(Debug, PartialEq, Eq, Clone, Copy, Structural)]
pub enum RuntimeErrorKind {
    /// The operand of unary `-` is no number.
    OperandMustBeNumber,
    /// An operand of a comparison or of `-`, `*`, `/` is no number.
    OperandsMustBeNumbers,
    /// The operands of `+` are neither two numbers nor two strings.
    OperandsMustBeTwoNumbersOrTwoStrings,
    /// The callee of a call is no function.
    NotCallable,
    /// A function was called with the wrong number of arguments.
    WrongArity { expected: usize, got: usize },
    /// A name is bound in no enclosing frame.
    UndefinedVariable,
    /// A resolved name is missing from the frame that the resolver computed.
    MissingLocal,
    /// The operator token of a unary or binary node is no operator.
    UnknownOperator,
    /// The frame that a function was declared in is not in the environment.
    LostClosure,
    /// Calls are nested deeper than the interpreter allows.
    StackOverflow,
    /// A loop ran for more rounds than the interpreter allows.
    LoopLimit,
}

/// A runtime error: what went wrong, and the token where it did. A loop that
/// ran out of rounds has no token to point at.
#[derive(Debug)]
pub struct RuntimeError {
    pub kind: RuntimeErrorKind,
    pub token: Option<Token>,
}

/// The mathematical value of a [`RuntimeError`].
pub struct RuntimeErrorView {
    pub kind: RuntimeErrorKind,
    pub token: Option<TokenView>,
}

impl View for RuntimeError {
    type V = RuntimeErrorView;

    open spec fn view(&self) -> RuntimeErrorView {
        RuntimeErrorView {
            kind: self.kind,
            token: match self.token {
                Some(token) => Some(token@),
                None => None,
            },
        }
    }
}

impl RuntimeErrorView {
    /// The error of a given kind at a token.
    pub open spec fn at(token: TokenView, kind: RuntimeErrorKind) -> RuntimeErrorView {
        RuntimeErrorView { kind, token: Some(token) }
    }

    /// The lexeme of the token of this error; empty where it has none.
    pub open spec fn lexeme(self) -> Seq<char> {
        match self.token {
            Some(token) => token.lexeme,
            None => Seq::empty(),
        }
    }

    /// The message of this error, without its position.
    pub open spec fn message(self) -> Seq<char> {
        match self.kind {
            RuntimeErrorKind::OperandMustBeNumber => "Operand must be a number."@,
            RuntimeErrorKind::OperandsMustBeNumbers => "Operands must be numbers."@,
            RuntimeErrorKind::OperandsMustBeTwoNumbersOrTwoStrings => "Operands must be two numbers or two strings."@,
            RuntimeErrorKind::NotCallable => "Can only call functions and classes."@,
            RuntimeErrorKind::WrongArity { expected, got } => "Expected "@ + decimal_text(
                expected as nat,
            ) + " arguments but got "@ + decimal_text(got as nat) + "."@,
            RuntimeErrorKind::UndefinedVariable => "Undefined variable '"@ + self.lexeme() + "'."@,
            RuntimeErrorKind::MissingLocal => "Unresolved local variable '"@ + self.lexeme() + "'."@,
            RuntimeErrorKind::UnknownOperator => "Unknown operator."@,
            RuntimeErrorKind::LostClosure => "The function has lost its closure."@,
            RuntimeErrorKind::StackOverflow => "Stack overflow."@,
            RuntimeErrorKind::LoopLimit => "Loop limit reached."@,
        }
    }

    /// The line that reports this error.
    pub open spec fn text(self) -> Seq<char> {
        match self.token {
            Some(token) => located_text("RuntimeError"@, token.line, token.offset, self.message()),
            None => "RuntimeError: "@ + self.message(),
        }
    }
}

impl RuntimeError {
    /// The error of a given kind at a token.
    pub fn new(token: &Token, kind: RuntimeErrorKind) -> (r: RuntimeError)
        ensures
            r@ == RuntimeErrorView::at(token@, kind),
    {
        RuntimeError { kind, token: Some(token.clone()) }
    }

    /// The error of a given kind, with no token to point at.
    pub fn unplaced(kind: RuntimeErrorKind) -> (r: RuntimeError)
        ensures
            r@ == (RuntimeErrorView { kind, token: None }),
    {
        RuntimeError { kind, token: None }
    }

    /// Appends the lexeme of the token of this error, if it has one.
    fn push_lexeme(&self, text: &mut String)
        ensures
            final(text)@ == old(text)@ + self@.lexeme(),
    {
        match &self.token {
            Some(token) => {
                text.append(token.lexeme.as_str());
            },
            None => {
                assert(old(text)@ + Seq::<char>::empty() =~= old(text)@);
            },
        }
    }

    /// The message of this error, without its position.
    pub fn message(&self) -> (r: String)
        ensures
            r@ == self@.message(),
    {
        match self.kind {
            RuntimeErrorKind::OperandMustBeNumber => String::from_str("Operand must be a number."),
            RuntimeErrorKind::OperandsMustBeNumbers => String::from_str("Operands must be numbers."),
            RuntimeErrorKind::OperandsMustBeTwoNumbersOrTwoStrings => String::from_str(
                "Operands must be two numbers or two strings.",
            ),
            RuntimeErrorKind::NotCallable => String::from_str("Can only call functions and classes."),
            RuntimeErrorKind::WrongArity { expected, got } => {
                let mut r = String::from_str("Expected ");
                push_decimal(&mut r, expected);
                r.append(" arguments but got ");
                push_decimal(&mut r, got);
                r.append(".");
                r
            },
            RuntimeErrorKind::UndefinedVariable => {
                let mut r = String::from_str("Undefined variable '");
                self.push_lexeme(&mut r);
                r.append("'.");
                r
            },
            RuntimeErrorKind::MissingLocal => {
                let mut r = String::from_str("Unresolved local variable '");
                self.push_lexeme(&mut r);
                r.append("'.");
                r
            },
            RuntimeErrorKind::UnknownOperator => String::from_str("Unknown operator."),
            RuntimeErrorKind::LostClosure => String::from_str("The function has lost its closure."),
            RuntimeErrorKind::StackOverflow => String::from_str("Stack overflow."),
            RuntimeErrorKind::LoopLimit => String::from_str("Loop limit reached."),
        }
    }

    /// The line that reports this error.
    pub fn to_string(&self) -> (r: String)
        ensures
            r@ == self@.text(),
    {
        let message = self.message();
        match &self.token {
            Some(token) => located("RuntimeError", token.line, token.offset, message.as_str()),
            None => {
                let mut r = String::from_str("RuntimeError: ");
                r.append(message.as_str());
                r
            },
        }
    }
}

/// The carrier of a `return` that unwinds to the call it ends. It is no
/// error, and it never leaves the interpreter.
pub struct RuntimeReturn(pub LoxValue);

impl RuntimeReturn {
    /// The carrier of a returned value.
    pub fn new(_value: LoxValue) -> (r: RuntimeReturn)
        ensures
            r.0 == _value,
    {
        RuntimeReturn(_value)
    }

    /// The line that describes this carrier.
    pub fn to_string(&self) -> (r: String)
        ensures
            r@ == "LoxFunctionReturn"@,
    {
        String::from_str("LoxFunctionReturn")
    }
}

/// What every carrier of the evaluator can do: describe itself in a line.
pub trait RuntimeErrorT {
    /// The line that describes the carrier.
    spec fn description(&self) -> Seq<char>;

    fn describe(&self) -> (r: String)
        ensures
            r@ == self.description(),
    ;
}

impl RuntimeErrorT for RuntimeError {
    open spec fn description(&self) -> Seq<char> {
        self@.text()
    }

    fn describe(&self) -> (r: String) {
        self.to_string()
    }
}

impl RuntimeErrorT for RuntimeReturn {
    open spec fn description(&self) -> Seq<char> {
        "LoxFunctionReturn"@
    }

    fn describe(&self) -> (r: String) {
        self.to_string()
    }
}

/// What stops a statement before its end.
pub enum Interrupt {
    Return(RuntimeReturn),
    Error(RuntimeError),
}

} // verus!
