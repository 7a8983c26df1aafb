//! The grammar of the language, as a function from a token sequence to the
//! tree it denotes.
//!
//! ```text
//! program     -> declaration* EOF
//! declaration -> "fun" function | "var" var_decl | statement
//! function    -> IDENT "(" ( IDENT ( "," IDENT )* )? ")" "{" block
//! var_decl    -> IDENT ( "=" expression )? ";"
//! statement   -> "for" for | "if" if | "print" print | "return" return
//!              | "while" while | "{" block | expression ";"
//! block       -> declaration* "}"
//! expression  -> assignment
//! assignment  -> IDENT "=" assignment | infix(or)
//! infix(l)    -> operand(l) ( operator(l) operand(l) )*
//! unary       -> ( "!" | "-" ) unary | call
//! call        -> primary ( "(" ( expression ( "," expression )* )? ")" )*
//! primary     -> NUMBER | STRING | "true" | "false" | "nil" | IDENT
//!              | "(" expression ")"
//! ```
//!
//! Each function takes the position of the first token it looks at and, where
//! it succeeds, gives the position of the first token it left untouched. The
//! first error ends the parse.

use vstd::prelude::*;
use crate::token::{TokenType, TokenView, LiteralView};
use crate::ast::{ExprView, StmtView, FunctionView};
use crate::errors::{ParseError, ParseErrorKind};

verus! {

/// The largest number of parameters of a function and of arguments of a call.
pub const MAX_ARITY: usize = 255;

/// The levels of infix operators, from the tightest to the loosest.
pub const FACTOR: u8 = 0;

/// The level of `-` and `+`.
pub const TERM: u8 = 1;

/// The level of `>`, `>=`, `<` and `<=`.
pub const COMPARISON: u8 = 2;

/// The level of `!=` and `==`.
pub const EQUALITY: u8 = 3;

/// The level of `and`.
pub const AND: u8 = 4;

/// The level of `or`.
pub const OR: u8 = 5;

/// The outcome of parsing one construct.
pub enum Parse<T> {
    /// The construct, and the position of the first token after it.
    Done { value: T, next: int },
    /// The first error met.
    Failed { error: ParseError },
}

/// A token sequence that the parser accepts as input: it ends with the
/// end-of-stream token.
pub open spec fn well_formed(ts: Seq<TokenView>) -> bool {
    ts.len() > 0 && ts.last().kind == TokenType::EOF
}

/// The parser stands at the end-of-stream token, or outside the sequence.
pub open spec fn at_end(ts: Seq<TokenView>, pos: int) -> bool {
    !(0 <= pos < ts.len()) || ts[pos].kind == TokenType::EOF
}

/// The token at `pos` is of the given kind, and is not the end of the stream.
pub open spec fn check(ts: Seq<TokenView>, pos: int, kind: TokenType) -> bool {
    !at_end(ts, pos) && ts[pos].kind == kind
}

/// Parsing only moves forward and never passes the end-of-stream token. The
/// grammar below is well-founded because of it; `onward` says so at each place
/// where one construct is parsed after another.
pub open spec fn onward<T>(r: Parse<T>, from: int, len: nat) -> Parse<T> {
    match r {
        Parse::Done { value, next } => if from <= next < len {
            r
        } else {
            Parse::Failed { error: ParseError { kind: ParseErrorKind::ExpectExpression, line: 0, column: 0 } }
        },
        Parse::Failed { error } => r,
    }
}

/// Steps over a token of the given kind, or fails with the given error at the
/// token found instead.
pub open spec fn consume(ts: Seq<TokenView>, pos: int, kind: TokenType, error: ParseErrorKind) -> Parse<()> {
    if check(ts, pos, kind) {
        Parse::Done { value: (), next: pos + 1 }
    } else {
        Parse::Failed { error: ParseError::at(ts[pos], error) }
    }
}

/// Whether a token kind is an infix operator of the given level.
pub open spec fn is_operator(level: u8, kind: TokenType) -> bool {
    if level == FACTOR {
        kind == TokenType::SLASH || kind == TokenType::STAR
    } else if level == TERM {
        kind == TokenType::MINUS || kind == TokenType::PLUS
    } else if level == COMPARISON {
        kind == TokenType::GREATER || kind == TokenType::GREATEREQUAL || kind == TokenType::LESS || kind
            == TokenType::LESSEQUAL
    } else if level == EQUALITY {
        kind == TokenType::BANGEQUAL || kind == TokenType::EQUALEQUAL
    } else if level == AND {
        kind == TokenType::AND
    } else {
        kind == TokenType::OR
    }
}

/// The node of an infix operator: `and` and `or` short-circuit, the others do
/// not.
pub open spec fn infix_node(level: u8, left: ExprView, operator: TokenView, right: ExprView) -> ExprView {
    if level >= AND {
        ExprView::Logical { left: Box::new(left), operator, right: Box::new(right) }
    } else {
        ExprView::Binary { left: Box::new(left), operator, right: Box::new(right) }
    }
}

/// A literal, a variable, or an expression in parentheses.
pub open spec fn primary(ts: Seq<TokenView>, pos: int) -> Parse<ExprView>
    decreases ts.len() - pos, 0int,
{
    let token = ts[pos];
    if check(ts, pos, TokenType::FALSE) {
        Parse::Done { value: ExprView::Literal { value: LiteralView::Bool(false) }, next: pos + 1 }
    } else if check(ts, pos, TokenType::TRUE) {
        Parse::Done { value: ExprView::Literal { value: LiteralView::Bool(true) }, next: pos + 1 }
    } else if check(ts, pos, TokenType::NIL) {
        Parse::Done { value: ExprView::Literal { value: LiteralView::Nil }, next: pos + 1 }
    } else if check(ts, pos, TokenType::NUMBER) || check(ts, pos, TokenType::STRING) {
        Parse::Done { value: ExprView::Literal { value: token.literal }, next: pos + 1 }
    } else if check(ts, pos, TokenType::IDENTIFIER) {
        Parse::Done { value: ExprView::Variable { name: token, id: pos as usize }, next: pos + 1 }
    } else if check(ts, pos, TokenType::LEFTPAREN) {
        match onward(expression(ts, pos + 1), pos + 1, ts.len()) {
            Parse::Failed { error } => Parse::Failed { error },
            Parse::Done { value, next } => match consume(
                ts,
                next,
                TokenType::RIGHTPAREN,
                ParseErrorKind::ExpectRightParenAfterExpression,
            ) {
                Parse::Failed { error } => Parse::Failed { error },
                Parse::Done { value: _, next: after } => Parse::Done {
                    value: ExprView::Group { expression: Box::new(value) },
                    next: after,
                },
            },
        }
    } else {
        Parse::Failed { error: ParseError::at(token, ParseErrorKind::ExpectExpression) }
    }
}

/// The arguments of a call, from the first one on: `acc` holds those parsed
/// so far.
pub open spec fn arguments(ts: Seq<TokenView>, pos: int, acc: Seq<ExprView>) -> Parse<Seq<ExprView>>
    decreases ts.len() - pos, 24int,
{
    if acc.len() >= MAX_ARITY {
        Parse::Failed { error: ParseError::at(ts[pos], ParseErrorKind::TooManyArguments) }
    } else {
        match onward(expression(ts, pos), pos, ts.len()) {
            Parse::Failed { error } => Parse::Failed { error },
            Parse::Done { value, next } => if check(ts, next, TokenType::COMMA) {
                arguments(ts, next + 1, acc.push(value))
            } else {
                Parse::Done { value: acc.push(value), next }
            },
        }
    }
}

/// A call, from the token after its opening parenthesis on.
pub open spec fn finish_call(ts: Seq<TokenView>, callee: ExprView, pos: int) -> Parse<ExprView>
    decreases ts.len() - pos, 25int,
{
    let listed = if check(ts, pos, TokenType::RIGHTPAREN) {
        Parse::Done { value: Seq::empty(), next: pos }
    } else {
        onward(arguments(ts, pos, Seq::empty()), pos, ts.len())
    };
    match listed {
        Parse::Failed { error } => Parse::Failed { error },
        Parse::Done { value: arguments, next } => match consume(
            ts,
            next,
            TokenType::RIGHTPAREN,
            ParseErrorKind::ExpectRightParenAfterArguments,
        ) {
            Parse::Failed { error } => Parse::Failed { error },
            Parse::Done { value: _, next: after } => Parse::Done {
                value: ExprView::Call { callee: Box::new(callee), paren: ts[next], arguments },
                next: after,
            },
        },
    }
}

/// The calls that follow a callee.
pub open spec fn call_rest(ts: Seq<TokenView>, callee: ExprView, pos: int) -> Parse<ExprView>
    decreases ts.len() - pos, 1int,
{
    if check(ts, pos, TokenType::LEFTPAREN) {
        match onward(finish_call(ts, callee, pos + 1), pos + 1, ts.len()) {
            Parse::Failed { error } => Parse::Failed { error },
            Parse::Done { value, next } => call_rest(ts, value, next),
        }
    } else {
        Parse::Done { value: callee, next: pos }
    }
}

/// A primary expression, and the calls that follow it.
pub open spec fn call(ts: Seq<TokenView>, pos: int) -> Parse<ExprView>
    decreases ts.len() - pos, 2int,
{
    match onward(primary(ts, pos), pos, ts.len()) {
        Parse::Failed { error } => Parse::Failed { error },
        Parse::Done { value, next } => call_rest(ts, value, next),
    }
}

/// A call, or `!` or `-` before a unary expression.
pub open spec fn unary(ts: Seq<TokenView>, pos: int) -> Parse<ExprView>
    decreases ts.len() - pos, 3int,
{
    if check(ts, pos, TokenType::BANG) || check(ts, pos, TokenType::MINUS) {
        match unary(ts, pos + 1) {
            Parse::Failed { error } => Parse::Failed { error },
            Parse::Done { value, next } => Parse::Done {
                value: ExprView::Unary { operator: ts[pos], right: Box::new(value) },
                next,
            },
        }
    } else {
        call(ts, pos)
    }
}

/// An operand of an infix operator of the given level.
pub open spec fn operand(ts: Seq<TokenView>, pos: int, level: u8) -> Parse<ExprView>
    decreases ts.len() - pos, 5 + 3 * level,
{
    if level == FACTOR {
        unary(ts, pos)
    } else {
        infix(ts, pos, (level - 1) as u8)
    }
}

/// The operators of one level that follow a left operand, with their right
/// operands: they associate to the left.
pub open spec fn infix_rest(ts: Seq<TokenView>, left: ExprView, pos: int, level: u8) -> Parse<ExprView>
    decreases ts.len() - pos, 4 + 3 * level,
{
    if !at_end(ts, pos) && is_operator(level, ts[pos].kind) {
        match onward(operand(ts, pos + 1, level), pos + 1, ts.len()) {
            Parse::Failed { error } => Parse::Failed { error },
            Parse::Done { value, next } => infix_rest(ts, infix_node(level, left, ts[pos], value), next, level),
        }
    } else {
        Parse::Done { value: left, next: pos }
    }
}

/// A chain of infix operators of one level.
pub open spec fn infix(ts: Seq<TokenView>, pos: int, level: u8) -> Parse<ExprView>
    decreases ts.len() - pos, 6 + 3 * level,
{
    match onward(operand(ts, pos, level), pos, ts.len()) {
        Parse::Failed { error } => Parse::Failed { error },
        Parse::Done { value, next } => infix_rest(ts, value, next, level),
    }
}

/// An assignment, which associates to the right, or what stands in its place.
/// The target of `=` must be a variable; the value is parsed before the target
/// is looked at.
pub open spec fn assignment(ts: Seq<TokenView>, pos: int) -> Parse<ExprView>
    decreases ts.len() - pos, 22int,
{
    match onward(infix(ts, pos, OR), pos, ts.len()) {
        Parse::Failed { error } => Parse::Failed { error },
        Parse::Done { value: target, next } => if check(ts, next, TokenType::EQUAL) {
            match assignment(ts, next + 1) {
                Parse::Failed { error } => Parse::Failed { error },
                Parse::Done { value, next: after } => match target {
                    ExprView::Variable { name, id } => Parse::Done {
                        value: ExprView::Assign { name, value: Box::new(value), id },
                        next: after,
                    },
                    _ => Parse::Failed {
                        error: ParseError::at(ts[next], ParseErrorKind::InvalidAssignmentTarget),
                    },
                },
            }
        } else {
            Parse::Done { value: target, next }
        },
    }
}

/// An expression: an assignment, or what stands in its place.
pub open spec fn expression(ts: Seq<TokenView>, pos: int) -> Parse<ExprView>
    decreases ts.len() - pos, 23int,
{
    assignment(ts, pos)
}

/// An expression statement.
pub open spec fn expression_statement(ts: Seq<TokenView>, pos: int) -> Parse<StmtView>
    decreases ts.len() - pos, 26int,
{
    match onward(expression(ts, pos), pos, ts.len()) {
        Parse::Failed { error } => Parse::Failed { error },
        Parse::Done { value, next } => match consume(
            ts,
            next,
            TokenType::SEMICOLON,
            ParseErrorKind::ExpectSemicolonAfterValue,
        ) {
            Parse::Failed { error } => Parse::Failed { error },
            Parse::Done { value: _, next: after } => Parse::Done {
                value: StmtView::Expression { expression: value },
                next: after,
            },
        },
    }
}

/// A `print` statement, from the token after `print` on.
pub open spec fn print_statement(ts: Seq<TokenView>, pos: int) -> Parse<StmtView>
    decreases ts.len() - pos, 26int,
{
    match onward(expression(ts, pos), pos, ts.len()) {
        Parse::Failed { error } => Parse::Failed { error },
        Parse::Done { value, next } => match consume(
            ts,
            next,
            TokenType::SEMICOLON,
            ParseErrorKind::ExpectSemicolonAfterValue,
        ) {
            Parse::Failed { error } => Parse::Failed { error },
            Parse::Done { value: _, next: after } => Parse::Done {
                value: StmtView::Print { expression: value },
                next: after,
            },
        },
    }
}

/// An expression that may be left out: it is absent where the token of the
/// given kind stands in its place.
pub open spec fn optional_expression(ts: Seq<TokenView>, pos: int, closer: TokenType) -> Parse<
    Option<ExprView>,
>
    decreases ts.len() - pos, 24int,
{
    if check(ts, pos, closer) {
        Parse::Done { value: None, next: pos }
    } else {
        match expression(ts, pos) {
            Parse::Failed { error } => Parse::Failed { error },
            Parse::Done { value, next } => Parse::Done { value: Some(value), next },
        }
    }
}

/// A `return` statement, from the token after `return` on.
pub open spec fn return_statement(ts: Seq<TokenView>, pos: int) -> Parse<StmtView>
    decreases ts.len() - pos, 26int,
{
    match onward(optional_expression(ts, pos, TokenType::SEMICOLON), pos, ts.len()) {
        Parse::Failed { error } => Parse::Failed { error },
        Parse::Done { value, next } => match consume(
            ts,
            next,
            TokenType::SEMICOLON,
            ParseErrorKind::ExpectSemicolonAfterReturnValue,
        ) {
            Parse::Failed { error } => Parse::Failed { error },
            Parse::Done { value: _, next: after } => Parse::Done {
                value: StmtView::Return { keyword: ts[pos - 1], value },
                next: after,
            },
        },
    }
}

/// A variable declaration, from the token after `var` on.
pub open spec fn var_declaration(ts: Seq<TokenView>, pos: int) -> Parse<StmtView>
    decreases ts.len() - pos, 26int,
{
    if !check(ts, pos, TokenType::IDENTIFIER) {
        Parse::Failed { error: ParseError::at(ts[pos], ParseErrorKind::ExpectVariableName) }
    } else {
        let initializer = if check(ts, pos + 1, TokenType::EQUAL) {
            match onward(expression(ts, pos + 2), pos + 2, ts.len()) {
                Parse::Failed { error } => Parse::Failed { error },
                Parse::Done { value, next } => Parse::Done { value: Some(value), next },
            }
        } else {
            Parse::Done { value: None, next: pos + 1 }
        };
        match initializer {
            Parse::Failed { error } => Parse::Failed { error },
            Parse::Done { value, next } => match consume(
                ts,
                next,
                TokenType::SEMICOLON,
                ParseErrorKind::ExpectSemicolonAfterVariableDeclaration,
            ) {
                Parse::Failed { error } => Parse::Failed { error },
                Parse::Done { value: _, next: after } => Parse::Done {
                    value: StmtView::Var { name: ts[pos], initializer: value },
                    next: after,
                },
            },
        }
    }
}

/// A parenthesized condition: `(`, an expression, `)`.
pub open spec fn condition(
    ts: Seq<TokenView>,
    pos: int,
    opening: ParseErrorKind,
    closing: ParseErrorKind,
) -> Parse<ExprView>
    decreases ts.len() - pos, 26int,
{
    if !check(ts, pos, TokenType::LEFTPAREN) {
        Parse::Failed { error: ParseError::at(ts[pos], opening) }
    } else {
        match onward(expression(ts, pos + 1), pos + 1, ts.len()) {
            Parse::Failed { error } => Parse::Failed { error },
            Parse::Done { value, next } => match consume(ts, next, TokenType::RIGHTPAREN, closing) {
                Parse::Failed { error } => Parse::Failed { error },
                Parse::Done { value: _, next: after } => Parse::Done { value, next: after },
            },
        }
    }
}

/// A `while` statement, from the token after `while` on.
pub open spec fn while_statement(ts: Seq<TokenView>, pos: int) -> Parse<StmtView>
    decreases ts.len() - pos, 27int,
{
    match onward(
        condition(
            ts,
            pos,
            ParseErrorKind::ExpectLeftParenAfterWhile,
            ParseErrorKind::ExpectRightParenAfterCondition,
        ),
        pos + 1,
        ts.len(),
    ) {
        Parse::Failed { error } => Parse::Failed { error },
        Parse::Done { value: condition, next } => match statement(ts, next) {
            Parse::Failed { error } => Parse::Failed { error },
            Parse::Done { value: body, next: after } => Parse::Done {
                value: StmtView::While { condition, body: Box::new(body) },
                next: after,
            },
        },
    }
}

/// An `if` statement, from the token after `if` on. An `else` belongs to the
/// nearest `if`.
pub open spec fn if_statement(ts: Seq<TokenView>, pos: int) -> Parse<StmtView>
    decreases ts.len() - pos, 27int,
{
    match onward(
        condition(
            ts,
            pos,
            ParseErrorKind::ExpectLeftParenAfterIf,
            ParseErrorKind::ExpectRightParenAfterIfCondition,
        ),
        pos + 1,
        ts.len(),
    ) {
        Parse::Failed { error } => Parse::Failed { error },
        Parse::Done { value: condition, next } => match onward(statement(ts, next), next, ts.len()) {
            Parse::Failed { error } => Parse::Failed { error },
            Parse::Done { value: then_branch, next: after } => if check(ts, after, TokenType::ELSE) {
                match statement(ts, after + 1) {
                    Parse::Failed { error } => Parse::Failed { error },
                    Parse::Done { value: else_branch, next: last } => Parse::Done {
                        value: StmtView::If {
                            condition,
                            then_branch: Box::new(then_branch),
                            else_branch: Some(Box::new(else_branch)),
                        },
                        next: last,
                    },
                }
            } else {
                Parse::Done {
                    value: StmtView::If { condition, then_branch: Box::new(then_branch), else_branch: None },
                    next: after,
                }
            },
        },
    }
}

/// The first clause of a `for` statement: nothing, a variable declaration or
/// an expression statement.
pub open spec fn for_initializer(ts: Seq<TokenView>, pos: int) -> Parse<Option<StmtView>>
    decreases ts.len() - pos, 27int,
{
    if check(ts, pos, TokenType::SEMICOLON) {
        Parse::Done { value: None, next: pos + 1 }
    } else if check(ts, pos, TokenType::VAR) {
        match var_declaration(ts, pos + 1) {
            Parse::Failed { error } => Parse::Failed { error },
            Parse::Done { value, next } => Parse::Done { value: Some(value), next },
        }
    } else {
        match expression_statement(ts, pos) {
            Parse::Failed { error } => Parse::Failed { error },
            Parse::Done { value, next } => Parse::Done { value: Some(value), next },
        }
    }
}

/// The statement that a `for` statement stands for:
/// `{ initializer; while (condition) { body; increment; } }`, where an absent
/// condition is `true`, the increment is appended only if there is one, and
/// the outer block is there only if there is an initializer.
pub open spec fn desugar_for(
    initializer: Option<StmtView>,
    condition: Option<ExprView>,
    increment: Option<ExprView>,
    body: StmtView,
) -> StmtView {
    let body = match increment {
        Some(increment) => StmtView::Block {
            statements: seq![body, StmtView::Expression { expression: increment }],
        },
        None => body,
    };
    let condition = match condition {
        Some(condition) => condition,
        None => ExprView::Literal { value: LiteralView::Bool(true) },
    };
    let repeat = StmtView::While { condition, body: Box::new(body) };
    match initializer {
        Some(initializer) => StmtView::Block { statements: seq![initializer, repeat] },
        None => repeat,
    }
}

/// A `for` statement, from the token after `for` on.
pub open spec fn for_statement(ts: Seq<TokenView>, pos: int) -> Parse<StmtView>
    decreases ts.len() - pos, 28int,
{
    if !check(ts, pos, TokenType::LEFTPAREN) {
        Parse::Failed { error: ParseError::at(ts[pos], ParseErrorKind::ExpectLeftParenAfterFor) }
    } else {
        match onward(for_initializer(ts, pos + 1), pos + 1, ts.len()) {
            Parse::Failed { error } => Parse::Failed { error },
            Parse::Done { value: initializer, next } => match onward(
                optional_expression(ts, next, TokenType::SEMICOLON),
                next,
                ts.len(),
            ) {
                Parse::Failed { error } => Parse::Failed { error },
                Parse::Done { value: condition, next: second } => if !check(ts, second, TokenType::SEMICOLON) {
                    Parse::Failed {
                        error: ParseError::at(ts[second], ParseErrorKind::ExpectSemicolonAfterLoopCondition),
                    }
                } else {
                    match onward(
                        optional_expression(ts, second + 1, TokenType::RIGHTPAREN),
                        second + 1,
                        ts.len(),
                    ) {
                        Parse::Failed { error } => Parse::Failed { error },
                        Parse::Done { value: increment, next: third } => if !check(
                            ts,
                            third,
                            TokenType::RIGHTPAREN,
                        ) {
                            Parse::Failed {
                                error: ParseError::at(
                                    ts[third],
                                    ParseErrorKind::ExpectRightParenAfterForClauses,
                                ),
                            }
                        } else {
                            match statement(ts, third + 1) {
                                Parse::Failed { error } => Parse::Failed { error },
                                Parse::Done { value: body, next: after } => Parse::Done {
                                    value: desugar_for(initializer, condition, increment, body),
                                    next: after,
                                },
                            }
                        },
                    }
                },
            }
        }
    }
}

/// The declarations of a block and its closing brace, from the token after
/// the opening brace on: `acc` holds the declarations parsed so far.
pub open spec fn block(ts: Seq<TokenView>, pos: int, acc: Seq<StmtView>) -> Parse<Seq<StmtView>>
    decreases ts.len() - pos, 32int,
{
    if check(ts, pos, TokenType::RIGHTBRACE) {
        Parse::Done { value: acc, next: pos + 1 }
    } else if at_end(ts, pos) {
        Parse::Failed { error: ParseError::at(ts[pos], ParseErrorKind::ExpectRightBraceAfterBlock) }
    } else {
        match onward(declaration(ts, pos), pos + 1, ts.len()) {
            Parse::Failed { error } => Parse::Failed { error },
            Parse::Done { value, next } => block(ts, next, acc.push(value)),
        }
    }
}

/// A statement that is no declaration; its first token tells which.
pub open spec fn statement(ts: Seq<TokenView>, pos: int) -> Parse<StmtView>
    decreases ts.len() - pos, 30int,
{
    if check(ts, pos, TokenType::FOR) {
        for_statement(ts, pos + 1)
    } else if check(ts, pos, TokenType::IF) {
        if_statement(ts, pos + 1)
    } else if check(ts, pos, TokenType::PRINT) {
        print_statement(ts, pos + 1)
    } else if check(ts, pos, TokenType::RETURN) {
        return_statement(ts, pos + 1)
    } else if check(ts, pos, TokenType::WHILE) {
        while_statement(ts, pos + 1)
    } else if check(ts, pos, TokenType::LEFTBRACE) {
        match block(ts, pos + 1, Seq::empty()) {
            Parse::Failed { error } => Parse::Failed { error },
            Parse::Done { value, next } => Parse::Done { value: StmtView::Block { statements: value }, next },
        }
    } else {
        expression_statement(ts, pos)
    }
}

/// The parameters of a function, from the first one on: `acc` holds those
/// parsed so far.
pub open spec fn parameters(ts: Seq<TokenView>, pos: int, acc: Seq<TokenView>) -> Parse<Seq<TokenView>>
    decreases ts.len() - pos,
{
    if acc.len() >= MAX_ARITY {
        Parse::Failed { error: ParseError::at(ts[pos], ParseErrorKind::TooManyParameters) }
    } else if !check(ts, pos, TokenType::IDENTIFIER) {
        Parse::Failed { error: ParseError::at(ts[pos], ParseErrorKind::ExpectParameterName) }
    } else if check(ts, pos + 1, TokenType::COMMA) {
        parameters(ts, pos + 2, acc.push(ts[pos]))
    } else {
        Parse::Done { value: acc.push(ts[pos]), next: pos + 1 }
    }
}

/// A function declaration, from the token after `fun` on.
pub open spec fn function(ts: Seq<TokenView>, pos: int) -> Parse<StmtView>
    decreases ts.len() - pos, 33int,
{
    if !check(ts, pos, TokenType::IDENTIFIER) {
        Parse::Failed { error: ParseError::at(ts[pos], ParseErrorKind::ExpectFunctionName) }
    } else if !check(ts, pos + 1, TokenType::LEFTPAREN) {
        Parse::Failed { error: ParseError::at(ts[pos + 1], ParseErrorKind::ExpectLeftParenAfterFunctionName) }
    } else {
        let listed = if check(ts, pos + 2, TokenType::RIGHTPAREN) {
            Parse::Done { value: Seq::empty(), next: pos + 2 }
        } else {
            onward(parameters(ts, pos + 2, Seq::empty()), pos + 2, ts.len())
        };
        match listed {
            Parse::Failed { error } => Parse::Failed { error },
            Parse::Done { value: params, next } => if !check(ts, next, TokenType::RIGHTPAREN) {
                Parse::Failed {
                    error: ParseError::at(ts[next], ParseErrorKind::ExpectRightParenAfterParameters),
                }
            } else if !check(ts, next + 1, TokenType::LEFTBRACE) {
                Parse::Failed {
                    error: ParseError::at(ts[next + 1], ParseErrorKind::ExpectLeftBraceBeforeFunctionBody),
                }
            } else {
                match block(ts, next + 2, Seq::empty()) {
                    Parse::Failed { error } => Parse::Failed { error },
                    Parse::Done { value: body, next: after } => Parse::Done {
                        value: StmtView::Function { declaration: FunctionView { name: ts[pos], params, body } },
                        next: after,
                    },
                }
            },
        }
    }
}

/// A function declaration, a variable declaration, or a statement.
pub open spec fn declaration(ts: Seq<TokenView>, pos: int) -> Parse<StmtView>
    decreases ts.len() - pos, 31int,
{
    if check(ts, pos, TokenType::FUN) {
        function(ts, pos + 1)
    } else if check(ts, pos, TokenType::VAR) {
        var_declaration(ts, pos + 1)
    } else {
        statement(ts, pos)
    }
}

/// The declarations of a program, up to the end of the stream: `acc` holds
/// those parsed so far.
pub open spec fn program(ts: Seq<TokenView>, pos: int, acc: Seq<StmtView>) -> Result<
    Seq<StmtView>,
    ParseError,
>
    decreases ts.len() - pos,
{
    if at_end(ts, pos) {
        Ok(acc)
    } else {
        match onward(declaration(ts, pos), pos + 1, ts.len()) {
            Parse::Failed { error } => Err(error),
            Parse::Done { value, next } => program(ts, next, acc.push(value)),
        }
    }
}

/// A statement starts at `pos`: the token before it is a `;`, or the token
/// there is a keyword that opens a statement.
pub open spec fn statement_boundary(ts: Seq<TokenView>, pos: int) -> bool {
    let kind = ts[pos].kind;
    ts[pos - 1].kind == TokenType::SEMICOLON || kind == TokenType::CLASS || kind == TokenType::FUN || kind
        == TokenType::VAR || kind == TokenType::FOR || kind == TokenType::IF || kind == TokenType::WHILE
        || kind == TokenType::PRINT || kind == TokenType::RETURN
}

/// The first position from `pos` on that is the end of the stream or the start
/// of a statement.
pub open spec fn resume_scan(ts: Seq<TokenView>, pos: int) -> int
    decreases ts.len() - pos,
{
    if at_end(ts, pos) || statement_boundary(ts, pos) {
        pos
    } else {
        resume_scan(ts, pos + 1)
    }
}

/// Where parsing resumes after an error at `pos`: the offending token is
/// skipped, and so is all that follows it up to the start of a statement.
pub open spec fn resume_point(ts: Seq<TokenView>, pos: int) -> int {
    if at_end(ts, pos) {
        pos
    } else {
        resume_scan(ts, pos + 1)
    }
}

/// No call in the expression passes more arguments than a call may.
pub open spec fn expr_bounded(e: ExprView) -> bool
    decreases e,
{
    match e {
        ExprView::Binary { left, operator, right } => expr_bounded(*left) && expr_bounded(*right),
        ExprView::Logical { left, operator, right } => expr_bounded(*left) && expr_bounded(*right),
        ExprView::Group { expression } => expr_bounded(*expression),
        ExprView::Literal { value } => true,
        ExprView::Unary { operator, right } => expr_bounded(*right),
        ExprView::Variable { name, id } => true,
        ExprView::Assign { name, value, id } => expr_bounded(*value),
        ExprView::Call { callee, paren, arguments } => expr_bounded(*callee) && arguments.len() <= MAX_ARITY
            && exprs_bounded(arguments),
    }
}

/// Every expression of the sequence is within the limit.
pub open spec fn exprs_bounded(es: Seq<ExprView>) -> bool
    decreases es,
{
    forall|i: int| 0 <= i < es.len() ==> expr_bounded(#[trigger] es[i])
}

/// An expression that may be absent is within the limit.
pub open spec fn option_bounded(e: Option<ExprView>) -> bool {
    match e {
        Some(e) => expr_bounded(e),
        None => true,
    }
}

/// No function in the statement has more parameters, and no call passes more
/// arguments, than the limit allows.
pub open spec fn stmt_bounded(s: StmtView) -> bool
    decreases s,
{
    match s {
        StmtView::Expression { expression } => expr_bounded(expression),
        StmtView::Print { expression } => expr_bounded(expression),
        StmtView::Var { name, initializer } => option_bounded(initializer),
        StmtView::Block { statements } => stmts_bounded(statements),
        StmtView::If { condition, then_branch, else_branch } => expr_bounded(condition) && stmt_bounded(
            *then_branch,
        ) && match else_branch {
            Some(else_branch) => stmt_bounded(*else_branch),
            None => true,
        },
        StmtView::While { condition, body } => expr_bounded(condition) && stmt_bounded(*body),
        StmtView::Function { declaration } => declaration.params.len() <= MAX_ARITY && stmts_bounded(
            declaration.body,
        ),
        StmtView::Return { keyword, value } => option_bounded(value),
    }
}

/// Every statement of the sequence is within the limit.
pub open spec fn stmts_bounded(ss: Seq<StmtView>) -> bool
    decreases ss,
{
    forall|i: int| 0 <= i < ss.len() ==> stmt_bounded(#[trigger] ss[i])
}

/// Rewriting a `for` statement keeps its parts within the limit.
pub proof fn lemma_desugar_for_bounded(
    initializer: Option<StmtView>,
    condition: Option<ExprView>,
    increment: Option<ExprView>,
    body: StmtView,
)
    requires
        match initializer {
            Some(s) => stmt_bounded(s),
            None => true,
        },
        option_bounded(condition),
        option_bounded(increment),
        stmt_bounded(body),
    ensures
        stmt_bounded(desugar_for(initializer, condition, increment, body)),
{
    let inner = match increment {
        Some(increment) => StmtView::Block {
            statements: seq![body, StmtView::Expression { expression: increment }],
        },
        None => body,
    };
    assert(stmt_bounded(inner)) by {
        match increment {
            Some(increment) => {
                let items = seq![body, StmtView::Expression { expression: increment }];
                assert(items[0] == body);
                assert(items[1] == StmtView::Expression { expression: increment });
                assert(stmts_bounded(items));
            },
            None => {},
        }
    }
    let test = match condition {
        Some(condition) => condition,
        None => ExprView::Literal { value: LiteralView::Bool(true) },
    };
    assert(expr_bounded(test));
    let repeat = StmtView::While { condition: test, body: Box::new(inner) };
    assert(stmt_bounded(repeat));
    match initializer {
        Some(initializer) => {
            let items = seq![initializer, repeat];
            assert(items[0] == initializer);
            assert(items[1] == repeat);
            assert(stmts_bounded(items));
        },
        None => {},
    }
}

} // verus!
