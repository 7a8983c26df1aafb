//! Parsing the rendering of a program gives the program again.
//!
//! The proof goes statement by statement. For each form of statement one
//! lemma says where the tokens of its rendering stand, one says what the
//! grammar makes of tokens that stand so, and one puts the two together.

use vstd::prelude::*;
use crate::ast::{ExprView, FunctionView, StmtView};
use crate::binding::is_declaration;
use crate::errors::{ParseError, ParseErrorKind};
use crate::grammar;
use crate::grammar::{
    block, check, condition, declaration, expression, expression_statement, function, if_statement,
    optional_expression, parameters, print_statement, program, return_statement, statement, var_declaration,
    while_statement, Parse,
};
use crate::rendering::{
    canonical, canonical_items, canonical_stmt, closed, holds, lemma_first_stmt_token, lemma_first_token,
    lemma_holds_split, lemma_reparse_condition, lemma_reparse_expression, lemma_reparse_params, mark,
    relabel_expr, relabel_items, relabel_stmt, render_expr, render_items, render_params, render_program,
    render_stmt, starts_expression, stops,
};
use crate::token::{TokenType, TokenView};

verus! {

/// What the grammar makes of the tokens from `p` on as a declaration.
#[verifier::opaque]
pub open spec fn decl_at(ts: Seq<TokenView>, p: int) -> Parse<StmtView> {
    declaration(ts, p)
}

/// What the grammar makes of the tokens from `p` on as a statement.
#[verifier::opaque]
pub open spec fn stmt_at(ts: Seq<TokenView>, p: int) -> Parse<StmtView> {
    statement(ts, p)
}

/// What the grammar makes of the tokens from `p` on as an expression.
#[verifier::opaque]
pub open spec fn expr_at(ts: Seq<TokenView>, p: int) -> Parse<ExprView> {
    expression(ts, p)
}

/// What the grammar makes of the tokens from `p` on as a condition in its
/// parentheses.
#[verifier::opaque]
pub open spec fn cond_at(ts: Seq<TokenView>, p: int, opening: ParseErrorKind, closing: ParseErrorKind) -> Parse<
    ExprView,
> {
    condition(ts, p, opening, closing)
}

/// What the grammar makes of the tokens from `p` on as the rest of a block.
#[verifier::opaque]
pub open spec fn block_at(ts: Seq<TokenView>, p: int, acc: Seq<StmtView>) -> Parse<Seq<StmtView>> {
    block(ts, p, acc)
}

/// What the grammar makes of the tokens from `p` on as the rest of a program.
#[verifier::opaque]
pub open spec fn program_at(ts: Seq<TokenView>, p: int, acc: Seq<StmtView>) -> Result<Seq<StmtView>, ParseError> {
    program(ts, p, acc)
}

/// What the grammar makes of the tokens from `p` on as parameters.
#[verifier::opaque]
pub open spec fn params_at(ts: Seq<TokenView>, p: int, acc: Seq<TokenView>) -> Parse<Seq<TokenView>> {
    parameters(ts, p, acc)
}

/// The rendering of a statement stands in the tokens from `p` on, and what
/// stands behind it lets the statement end there: behind a statement that is
/// not closed stands no `else`.
pub open spec fn placed_at(ts: Seq<TokenView>, p: int, s: StmtView) -> bool {
    &&& canonical_stmt(s)
    &&& holds(ts, p, render_stmt(s))
    &&& 0 <= p
    &&& p + render_stmt(s).len() < ts.len()
    &&& !closed(s) ==> ts[p + render_stmt(s).len()].kind != TokenType::ELSE
}

/// The grammar makes the statement again, with the ids of the places where
/// it is rendered, of the tokens from `p` on.
pub open spec fn reparsed(ts: Seq<TokenView>, p: int, s: StmtView) -> bool {
    &&& decl_at(ts, p) == (Parse::Done { value: relabel_stmt(s, p), next: p + render_stmt(s).len() })
    &&& !is_declaration(s) ==> stmt_at(ts, p) == (Parse::Done {
        value: relabel_stmt(s, p),
        next: p + render_stmt(s).len(),
    })
}

/// Parsing the rendering of an expression as a whole expression gives the
/// expression again, where the token behind it ends every expression.
pub proof fn lemma_expression_again(ts: Seq<TokenView>, p: int, e: ExprView)
    requires
        canonical(e),
        holds(ts, p, render_expr(e)),
        p + render_expr(e).len() < ts.len(),
        stops(ts[p + render_expr(e).len()].kind, 9),
    ensures
        expr_at(ts, p) == (Parse::Done { value: relabel_expr(e, p), next: p + render_expr(e).len() }),
{
    reveal(expr_at);
    lemma_reparse_expression(ts, p, e);
}

/// Parsing the rendering of a condition in its parentheses gives the
/// condition again.
pub proof fn lemma_condition_again(
    ts: Seq<TokenView>,
    p: int,
    e: ExprView,
    opening: ParseErrorKind,
    closing: ParseErrorKind,
)
    requires
        canonical(e),
        holds(ts, p, seq![mark(TokenType::LEFTPAREN)] + render_expr(e) + seq![mark(TokenType::RIGHTPAREN)]),
        p + render_expr(e).len() + 2 < ts.len(),
    ensures
        cond_at(ts, p, opening, closing) == (Parse::Done {
            value: relabel_expr(e, p + 1),
            next: p + render_expr(e).len() + 2,
        }),
{
    reveal(cond_at);
    lemma_reparse_condition(ts, p, e, opening, closing);
}

/// Parsing the rendering of the parameters of a function gives the
/// parameters again.
pub proof fn lemma_params_again(ts: Seq<TokenView>, p: int, params: Seq<TokenView>)
    requires
        crate::rendering::all_identifiers(params),
        0 < params.len() <= grammar::MAX_ARITY,
        holds(ts, p, render_params(params, 0)),
        p + render_params(params, 0).len() < ts.len(),
        ts[p + render_params(params, 0).len()].kind != TokenType::COMMA,
    ensures
        params_at(ts, p, Seq::empty()) == (Parse::Done {
            value: params,
            next: p + render_params(params, 0).len(),
        }),
        0 <= p < ts.len(),
        ts[p].kind == TokenType::IDENTIFIER,
{
    reveal(params_at);
    reveal(holds);
    lemma_reparse_params(ts, p, params, 0, Seq::empty());
    assert(Seq::<TokenView>::empty() + params.subrange(0, params.len() as int) =~= params);
    assert(ts[p + 0] == render_params(params, 0)[0]);
    assert(render_params(params, 0)[0] == params[0]);
}

/// A token that is not the end of the stream and is of the kind.
pub open spec fn kind_at(ts: Seq<TokenView>, p: int, kind: TokenType) -> bool {
    0 <= p < ts.len() && ts[p].kind == kind && kind != TokenType::EOF
}

/// Where no keyword of a statement stands, an expression statement is
/// parsed; where neither `fun` nor `var` stands, a declaration is a statement.
pub proof fn lemma_parse_expression_statement(ts: Seq<TokenView>, p: int, e: ExprView, q: int)
    requires
        0 <= p < ts.len(),
        starts_expression(ts[p].kind),
        expr_at(ts, p) == (Parse::Done { value: e, next: q }),
        p <= q < ts.len(),
        kind_at(ts, q, TokenType::SEMICOLON),
    ensures
        stmt_at(ts, p) == (Parse::Done { value: StmtView::Expression { expression: e }, next: q + 1 }),
        decl_at(ts, p) == stmt_at(ts, p),
{
    reveal(decl_at);
    reveal(stmt_at);
    reveal(expr_at);
    reveal(cond_at);
    reveal(block_at);
    reveal(program_at);
    reveal(params_at);
    assert(expression_statement(ts, p) == (Parse::Done {
        value: StmtView::Expression { expression: e },
        next: q + 1,
    }));
}

/// Where `print` stands before an expression and a `;`, a `print` statement
/// is parsed.
pub proof fn lemma_parse_print(ts: Seq<TokenView>, p: int, e: ExprView, q: int)
    requires
        kind_at(ts, p, TokenType::PRINT),
        expr_at(ts, p + 1) == (Parse::Done { value: e, next: q }),
        p + 1 <= q < ts.len(),
        kind_at(ts, q, TokenType::SEMICOLON),
    ensures
        stmt_at(ts, p) == (Parse::Done { value: StmtView::Print { expression: e }, next: q + 1 }),
        decl_at(ts, p) == stmt_at(ts, p),
{
    reveal(decl_at);
    reveal(stmt_at);
    reveal(expr_at);
    reveal(cond_at);
    reveal(block_at);
    reveal(program_at);
    reveal(params_at);
    assert(print_statement(ts, p + 1) == (Parse::Done { value: StmtView::Print { expression: e }, next: q + 1 }));
}

/// Where `return` stands before an expression and a `;`, a `return`
/// statement with a value is parsed.
pub proof fn lemma_parse_return_value(ts: Seq<TokenView>, p: int, e: ExprView, q: int)
    requires
        kind_at(ts, p, TokenType::RETURN),
        0 <= p + 1 < ts.len(),
        starts_expression(ts[p + 1].kind),
        expr_at(ts, p + 1) == (Parse::Done { value: e, next: q }),
        p + 1 <= q < ts.len(),
        kind_at(ts, q, TokenType::SEMICOLON),
    ensures
        stmt_at(ts, p) == (Parse::Done {
            value: StmtView::Return { keyword: ts[p], value: Some(e) },
            next: q + 1,
        }),
        decl_at(ts, p) == stmt_at(ts, p),
{
    reveal(decl_at);
    reveal(stmt_at);
    reveal(expr_at);
    reveal(cond_at);
    reveal(block_at);
    reveal(program_at);
    reveal(params_at);
    assert(optional_expression(ts, p + 1, TokenType::SEMICOLON) == (Parse::Done { value: Some(e), next: q }));
    assert(return_statement(ts, p + 1) == (Parse::Done {
        value: StmtView::Return { keyword: ts[p], value: Some(e) },
        next: q + 1,
    }));
}

/// Where `return` stands before a `;`, a `return` statement without a value
/// is parsed.
pub proof fn lemma_parse_return_nothing(ts: Seq<TokenView>, p: int)
    requires
        kind_at(ts, p, TokenType::RETURN),
        kind_at(ts, p + 1, TokenType::SEMICOLON),
        p + 2 < ts.len(),
    ensures
        stmt_at(ts, p) == (Parse::Done {
            value: StmtView::Return { keyword: ts[p], value: None },
            next: p + 2,
        }),
        decl_at(ts, p) == stmt_at(ts, p),
{
    reveal(decl_at);
    reveal(stmt_at);
    reveal(expr_at);
    reveal(cond_at);
    reveal(block_at);
    reveal(program_at);
    reveal(params_at);
    assert(optional_expression(ts, p + 1, TokenType::SEMICOLON) == (Parse::Done {
        value: None::<ExprView>,
        next: p + 1,
    }));
    assert(return_statement(ts, p + 1) == (Parse::Done {
        value: StmtView::Return { keyword: ts[p], value: None },
        next: p + 2,
    }));
}

/// Where `var`, a name and `=` stand before an expression and a `;`, a
/// variable declaration with an initializer is parsed.
pub proof fn lemma_parse_var_value(ts: Seq<TokenView>, p: int, e: ExprView, q: int)
    requires
        kind_at(ts, p, TokenType::VAR),
        kind_at(ts, p + 1, TokenType::IDENTIFIER),
        kind_at(ts, p + 2, TokenType::EQUAL),
        expr_at(ts, p + 3) == (Parse::Done { value: e, next: q }),
        p + 3 <= q < ts.len(),
        kind_at(ts, q, TokenType::SEMICOLON),
    ensures
        decl_at(ts, p) == (Parse::Done {
            value: StmtView::Var { name: ts[p + 1], initializer: Some(e) },
            next: q + 1,
        }),
{
    reveal(decl_at);
    reveal(stmt_at);
    reveal(expr_at);
    reveal(cond_at);
    reveal(block_at);
    reveal(program_at);
    reveal(params_at);
    assert(var_declaration(ts, p + 1) == (Parse::Done {
        value: StmtView::Var { name: ts[p + 1], initializer: Some(e) },
        next: q + 1,
    }));
}

/// Where `var`, a name and `;` stand, a variable declaration without an
/// initializer is parsed.
pub proof fn lemma_parse_var_nothing(ts: Seq<TokenView>, p: int)
    requires
        kind_at(ts, p, TokenType::VAR),
        kind_at(ts, p + 1, TokenType::IDENTIFIER),
        kind_at(ts, p + 2, TokenType::SEMICOLON),
    ensures
        decl_at(ts, p) == (Parse::Done {
            value: StmtView::Var { name: ts[p + 1], initializer: None },
            next: p + 3,
        }),
{
    reveal(decl_at);
    reveal(stmt_at);
    reveal(expr_at);
    reveal(cond_at);
    reveal(block_at);
    reveal(program_at);
    reveal(params_at);
    assert(var_declaration(ts, p + 1) == (Parse::Done {
        value: StmtView::Var { name: ts[p + 1], initializer: None },
        next: p + 3,
    }));
}

/// Where `{` stands before the rest of a block, a block is parsed.
pub proof fn lemma_parse_block(ts: Seq<TokenView>, p: int, items: Seq<StmtView>, q: int)
    requires
        kind_at(ts, p, TokenType::LEFTBRACE),
        block_at(ts, p + 1, Seq::empty()) == (Parse::Done { value: items, next: q }),
    ensures
        stmt_at(ts, p) == (Parse::Done { value: StmtView::Block { statements: items }, next: q }),
        decl_at(ts, p) == stmt_at(ts, p),
{
    reveal(decl_at);
    reveal(stmt_at);
    reveal(expr_at);
    reveal(cond_at);
    reveal(block_at);
    reveal(program_at);
    reveal(params_at);
}

/// Where `while` stands before a condition and a statement, a `while`
/// statement is parsed.
pub proof fn lemma_parse_while(ts: Seq<TokenView>, p: int, c: ExprView, at: int, body: StmtView, q: int)
    requires
        kind_at(ts, p, TokenType::WHILE),
        cond_at(ts,
            p + 1,
            ParseErrorKind::ExpectLeftParenAfterWhile,
            ParseErrorKind::ExpectRightParenAfterCondition,
        ) == (Parse::Done { value: c, next: at }),
        p + 2 <= at < ts.len(),
        stmt_at(ts, at) == (Parse::Done { value: body, next: q }),
    ensures
        stmt_at(ts, p) == (Parse::Done {
            value: StmtView::While { condition: c, body: Box::new(body) },
            next: q,
        }),
        decl_at(ts, p) == stmt_at(ts, p),
{
    reveal(decl_at);
    reveal(stmt_at);
    reveal(expr_at);
    reveal(cond_at);
    reveal(block_at);
    reveal(program_at);
    reveal(params_at);
    assert(while_statement(ts, p + 1) == (Parse::Done {
        value: StmtView::While { condition: c, body: Box::new(body) },
        next: q,
    }));
}

/// Where `if` stands before a condition and a statement behind which no
/// `else` stands, an `if` statement without an `else` is parsed.
pub proof fn lemma_parse_if(ts: Seq<TokenView>, p: int, c: ExprView, at: int, then: StmtView, q: int)
    requires
        kind_at(ts, p, TokenType::IF),
        cond_at(ts, p + 1, ParseErrorKind::ExpectLeftParenAfterIf, ParseErrorKind::ExpectRightParenAfterIfCondition)
            == (Parse::Done { value: c, next: at }),
        p + 2 <= at < ts.len(),
        stmt_at(ts, at) == (Parse::Done { value: then, next: q }),
        at <= q < ts.len(),
        ts[q].kind != TokenType::ELSE,
    ensures
        stmt_at(ts, p) == (Parse::Done {
            value: StmtView::If { condition: c, then_branch: Box::new(then), else_branch: None },
            next: q,
        }),
        decl_at(ts, p) == stmt_at(ts, p),
{
    reveal(decl_at);
    reveal(stmt_at);
    reveal(expr_at);
    reveal(cond_at);
    reveal(block_at);
    reveal(program_at);
    reveal(params_at);
    assert(if_statement(ts, p + 1) == (Parse::Done {
        value: StmtView::If { condition: c, then_branch: Box::new(then), else_branch: None },
        next: q,
    }));
}

/// Where `if` stands before a condition, a statement, `else` and another
/// statement, an `if` statement with an `else` is parsed.
pub proof fn lemma_parse_if_else(
    ts: Seq<TokenView>,
    p: int,
    c: ExprView,
    at: int,
    then: StmtView,
    word: int,
    other: StmtView,
    q: int,
)
    requires
        kind_at(ts, p, TokenType::IF),
        cond_at(ts, p + 1, ParseErrorKind::ExpectLeftParenAfterIf, ParseErrorKind::ExpectRightParenAfterIfCondition)
            == (Parse::Done { value: c, next: at }),
        p + 2 <= at < ts.len(),
        stmt_at(ts, at) == (Parse::Done { value: then, next: word }),
        at <= word < ts.len(),
        kind_at(ts, word, TokenType::ELSE),
        stmt_at(ts, word + 1) == (Parse::Done { value: other, next: q }),
    ensures
        stmt_at(ts, p) == (Parse::Done {
            value: StmtView::If { condition: c, then_branch: Box::new(then), else_branch: Some(Box::new(other)) },
            next: q,
        }),
        decl_at(ts, p) == stmt_at(ts, p),
{
    reveal(decl_at);
    reveal(stmt_at);
    reveal(expr_at);
    reveal(cond_at);
    reveal(block_at);
    reveal(program_at);
    reveal(params_at);
    assert(if_statement(ts, p + 1) == (Parse::Done {
        value: StmtView::If { condition: c, then_branch: Box::new(then), else_branch: Some(Box::new(other)) },
        next: q,
    }));
}

/// Where `fun`, a name, parameters in parentheses and a block stand, a
/// function declaration is parsed.
pub proof fn lemma_parse_function(
    ts: Seq<TokenView>,
    p: int,
    params: Seq<TokenView>,
    at: int,
    body: Seq<StmtView>,
    q: int,
)
    requires
        kind_at(ts, p, TokenType::FUN),
        kind_at(ts, p + 1, TokenType::IDENTIFIER),
        kind_at(ts, p + 2, TokenType::LEFTPAREN),
        if params.len() == 0 {
            at == p + 3
        } else {
            !check(ts, p + 3, TokenType::RIGHTPAREN) && params_at(ts, p + 3, Seq::empty()) == (Parse::Done {
                value: params,
                next: at,
            })
        },
        p + 3 <= at < ts.len(),
        kind_at(ts, at, TokenType::RIGHTPAREN),
        kind_at(ts, at + 1, TokenType::LEFTBRACE),
        block_at(ts, at + 2, Seq::empty()) == (Parse::Done { value: body, next: q }),
    ensures
        decl_at(ts, p) == (Parse::Done {
            value: StmtView::Function { declaration: FunctionView { name: ts[p + 1], params, body } },
            next: q,
        }),
{
    reveal(decl_at);
    reveal(stmt_at);
    reveal(expr_at);
    reveal(cond_at);
    reveal(block_at);
    reveal(program_at);
    reveal(params_at);
    if params.len() == 0 {
        assert(params =~= Seq::<TokenView>::empty());
    }
    assert(function(ts, p + 1) == (Parse::Done {
        value: StmtView::Function { declaration: FunctionView { name: ts[p + 1], params, body } },
        next: q,
    }));
}

/// Where a declaration stands in a block, the rest of the block is parsed
/// behind it.
pub proof fn lemma_parse_block_item(ts: Seq<TokenView>, p: int, acc: Seq<StmtView>, s: StmtView, q: int)
    requires
        0 <= p < ts.len(),
        ts[p].kind != TokenType::RIGHTBRACE,
        ts[p].kind != TokenType::EOF,
        decl_at(ts, p) == (Parse::Done { value: s, next: q }),
        p + 1 <= q < ts.len(),
    ensures
        block_at(ts, p, acc) == block_at(ts, q, acc.push(s)),
{
    reveal(decl_at);
    reveal(stmt_at);
    reveal(expr_at);
    reveal(cond_at);
    reveal(block_at);
    reveal(program_at);
    reveal(params_at);
}

/// Where `}` stands, the block ends.
pub proof fn lemma_parse_block_end(ts: Seq<TokenView>, p: int, acc: Seq<StmtView>)
    requires
        kind_at(ts, p, TokenType::RIGHTBRACE),
    ensures
        block_at(ts, p, acc) == (Parse::Done { value: acc, next: p + 1 }),
{
    reveal(decl_at);
    reveal(stmt_at);
    reveal(expr_at);
    reveal(cond_at);
    reveal(block_at);
    reveal(program_at);
    reveal(params_at);
}

/// Where a declaration stands in a program, the rest of the program is
/// parsed behind it.
pub proof fn lemma_parse_program_item(ts: Seq<TokenView>, p: int, acc: Seq<StmtView>, s: StmtView, q: int)
    requires
        0 <= p < ts.len(),
        ts[p].kind != TokenType::EOF,
        decl_at(ts, p) == (Parse::Done { value: s, next: q }),
        p + 1 <= q < ts.len(),
    ensures
        program_at(ts, p, acc) == program_at(ts, q, acc.push(s)),
{
    reveal(decl_at);
    reveal(stmt_at);
    reveal(expr_at);
    reveal(cond_at);
    reveal(block_at);
    reveal(program_at);
    reveal(params_at);
}

/// Where the end of the stream stands, the program ends.
pub proof fn lemma_parse_program_end(ts: Seq<TokenView>, p: int, acc: Seq<StmtView>)
    requires
        0 <= p < ts.len(),
        ts[p].kind == TokenType::EOF,
    ensures
        program_at(ts, p, acc) == Ok::<Seq<StmtView>, ParseError>(acc),
{
    reveal(decl_at);
    reveal(stmt_at);
    reveal(expr_at);
    reveal(cond_at);
    reveal(block_at);
    reveal(program_at);
    reveal(params_at);
}

/// Where the rendering of an expression statement stands.
pub proof fn lemma_layout_expression(ts: Seq<TokenView>, p: int, s: StmtView)
    requires
        s is Expression,
        holds(ts, p, render_stmt(s)),
    ensures
        holds(ts, p, render_expr(s->Expression_expression)),
        ts[p + render_expr(s->Expression_expression).len()] == mark(TokenType::SEMICOLON),
        render_stmt(s).len() == render_expr(s->Expression_expression).len() + 1,
        canonical_stmt(s) ==> 0 <= p < ts.len() && starts_expression(ts[p].kind),
{
    reveal(holds);
    let e = s->Expression_expression;
    let semi = seq![mark(TokenType::SEMICOLON)];
    lemma_holds_split(ts, p, render_expr(e), semi);
    assert(ts[p + render_expr(e).len() + 0] == semi[0]);
    if canonical_stmt(s) {
        lemma_first_token(e);
        assert(ts[p + 0] == render_expr(e)[0]);
    }
}

/// Where the rendering of a `print` statement stands.
pub proof fn lemma_layout_print(ts: Seq<TokenView>, p: int, s: StmtView)
    requires
        s is Print,
        holds(ts, p, render_stmt(s)),
    ensures
        ts[p] == mark(TokenType::PRINT),
        holds(ts, p + 1, render_expr(s->Print_expression)),
        ts[p + 1 + render_expr(s->Print_expression).len()] == mark(TokenType::SEMICOLON),
        render_stmt(s).len() == render_expr(s->Print_expression).len() + 2,
{
    reveal(holds);
    let e = s->Print_expression;
    let head = seq![mark(TokenType::PRINT)];
    let semi = seq![mark(TokenType::SEMICOLON)];
    lemma_holds_split(ts, p, head + render_expr(e), semi);
    lemma_holds_split(ts, p, head, render_expr(e));
    assert(ts[p + 0] == head[0]);
    assert(ts[p + 1 + render_expr(e).len() + 0] == semi[0]);
}

/// Where the rendering of a `return` statement stands.
pub proof fn lemma_layout_return(ts: Seq<TokenView>, p: int, s: StmtView)
    requires
        s is Return,
        holds(ts, p, render_stmt(s)),
    ensures
        ts[p] == s->Return_keyword,
        match s->Return_value {
            Some(e) => {
                &&& holds(ts, p + 1, render_expr(e))
                &&& ts[p + 1 + render_expr(e).len()] == mark(TokenType::SEMICOLON)
                &&& render_stmt(s).len() == render_expr(e).len() + 2
                &&& canonical(e) ==> 0 <= p + 1 < ts.len() && starts_expression(ts[p + 1].kind)
            },
            None => ts[p + 1] == mark(TokenType::SEMICOLON) && render_stmt(s).len() == 2,
        },
{
    reveal(holds);
    let keyword = s->Return_keyword;
    match s->Return_value {
        Some(e) => {
            let semi = seq![mark(TokenType::SEMICOLON)];
            lemma_holds_split(ts, p, seq![keyword] + render_expr(e), semi);
            lemma_holds_split(ts, p, seq![keyword], render_expr(e));
            assert(ts[p + 0] == seq![keyword][0]);
            assert(ts[p + 1 + render_expr(e).len() + 0] == semi[0]);
            if canonical(e) {
                lemma_first_token(e);
                assert(ts[p + 1 + 0] == render_expr(e)[0]);
            }
        },
        None => {
            let all = seq![keyword, mark(TokenType::SEMICOLON)];
            assert(ts[p + 0] == all[0]);
            assert(ts[p + 1] == all[1]);
        },
    }
}

/// Where the rendering of a variable declaration stands.
pub proof fn lemma_layout_var(ts: Seq<TokenView>, p: int, s: StmtView)
    requires
        s is Var,
        holds(ts, p, render_stmt(s)),
    ensures
        ts[p] == mark(TokenType::VAR),
        ts[p + 1] == s->Var_name,
        match s->Var_initializer {
            Some(e) => {
                &&& ts[p + 2] == mark(TokenType::EQUAL)
                &&& holds(ts, p + 3, render_expr(e))
                &&& ts[p + 3 + render_expr(e).len()] == mark(TokenType::SEMICOLON)
                &&& render_stmt(s).len() == render_expr(e).len() + 4
            },
            None => ts[p + 2] == mark(TokenType::SEMICOLON) && render_stmt(s).len() == 3,
        },
{
    reveal(holds);
    let name = s->Var_name;
    match s->Var_initializer {
        Some(e) => {
            let head = seq![mark(TokenType::VAR), name, mark(TokenType::EQUAL)];
            let semi = seq![mark(TokenType::SEMICOLON)];
            lemma_holds_split(ts, p, head + render_expr(e), semi);
            lemma_holds_split(ts, p, head, render_expr(e));
            assert(ts[p + 0] == head[0]);
            assert(ts[p + 1] == head[1]);
            assert(ts[p + 2] == head[2]);
            assert(ts[p + 3 + render_expr(e).len() + 0] == semi[0]);
        },
        None => {
            let all = seq![mark(TokenType::VAR), name, mark(TokenType::SEMICOLON)];
            assert(ts[p + 0] == all[0]);
            assert(ts[p + 1] == all[1]);
            assert(ts[p + 2] == all[2]);
        },
    }
}

/// Where the rendering of a block stands.
pub proof fn lemma_layout_block(ts: Seq<TokenView>, p: int, s: StmtView)
    requires
        s is Block,
        holds(ts, p, render_stmt(s)),
    ensures
        ts[p] == mark(TokenType::LEFTBRACE),
        holds(ts, p + 1, render_items(s->Block_statements, 0)),
        ts[p + 1 + render_items(s->Block_statements, 0).len()] == mark(TokenType::RIGHTBRACE),
        render_stmt(s).len() == render_items(s->Block_statements, 0).len() + 2,
{
    reveal(holds);
    let items = render_items(s->Block_statements, 0);
    let open = seq![mark(TokenType::LEFTBRACE)];
    let close = seq![mark(TokenType::RIGHTBRACE)];
    lemma_holds_split(ts, p, open + items, close);
    lemma_holds_split(ts, p, open, items);
    assert(ts[p + 0] == open[0]);
    assert(ts[p + 1 + items.len() + 0] == close[0]);
}

/// Where a keyword, a condition in its parentheses and a statement stand that
/// are rendered one after the other.
pub proof fn lemma_layout_guarded(
    ts: Seq<TokenView>,
    p: int,
    keyword: TokenType,
    c: ExprView,
    rest: Seq<TokenView>,
)
    requires
        holds(
            ts,
            p,
            seq![mark(keyword), mark(TokenType::LEFTPAREN)] + render_expr(c) + seq![mark(TokenType::RIGHTPAREN)]
                + rest,
        ),
    ensures
        ts[p] == mark(keyword),
        holds(
            ts,
            p + 1,
            seq![mark(TokenType::LEFTPAREN)] + render_expr(c) + seq![mark(TokenType::RIGHTPAREN)],
        ),
        holds(ts, p + 3 + render_expr(c).len(), rest),
{
    reveal(holds);
    let head = seq![mark(keyword), mark(TokenType::LEFTPAREN)];
    let open = seq![mark(TokenType::LEFTPAREN)];
    let close = seq![mark(TokenType::RIGHTPAREN)];
    let front = head + render_expr(c) + close;
    lemma_holds_split(ts, p, front, rest);
    assert(front =~= seq![mark(keyword)] + (open + render_expr(c) + close));
    lemma_holds_split(ts, p, seq![mark(keyword)], open + render_expr(c) + close);
    assert(ts[p + 0] == seq![mark(keyword)][0]);
}

/// Where the rendering of a `while` statement stands.
pub proof fn lemma_layout_while(ts: Seq<TokenView>, p: int, s: StmtView)
    requires
        s is While,
        holds(ts, p, render_stmt(s)),
    ensures
        ts[p] == mark(TokenType::WHILE),
        holds(
            ts,
            p + 1,
            seq![mark(TokenType::LEFTPAREN)] + render_expr(s->While_condition) + seq![
                mark(TokenType::RIGHTPAREN),
            ],
        ),
        holds(ts, p + 3 + render_expr(s->While_condition).len(), render_stmt(*s->While_body)),
        render_stmt(s).len() == 3 + render_expr(s->While_condition).len() + render_stmt(*s->While_body).len(),
{
    reveal(holds);
    lemma_layout_guarded(ts, p, TokenType::WHILE, s->While_condition, render_stmt(*s->While_body));
}

/// Where the rendering of an `if` statement stands.
pub proof fn lemma_layout_if(ts: Seq<TokenView>, p: int, s: StmtView)
    requires
        s is If,
        holds(ts, p, render_stmt(s)),
    ensures
        ts[p] == mark(TokenType::IF),
        holds(
            ts,
            p + 1,
            seq![mark(TokenType::LEFTPAREN)] + render_expr(s->If_condition) + seq![mark(TokenType::RIGHTPAREN)],
        ),
        holds(ts, p + 3 + render_expr(s->If_condition).len(), render_stmt(*s->If_then_branch)),
        match s->If_else_branch {
            Some(other) => {
                let word = p + 3 + render_expr(s->If_condition).len() + render_stmt(*s->If_then_branch).len();
                &&& ts[word] == mark(TokenType::ELSE)
                &&& holds(ts, word + 1, render_stmt(*other))
                &&& render_stmt(s).len() == word + 1 + render_stmt(*other).len() - p
            },
            None => render_stmt(s).len() == 3 + render_expr(s->If_condition).len() + render_stmt(
                *s->If_then_branch,
            ).len(),
        },
{
    reveal(holds);
    let c = s->If_condition;
    let then = render_stmt(*s->If_then_branch);
    match s->If_else_branch {
        Some(other) => {
            let word = seq![mark(TokenType::ELSE)];
            let tail = then + word + render_stmt(*other);
            assert(render_stmt(s) =~= seq![mark(TokenType::IF), mark(TokenType::LEFTPAREN)] + render_expr(c)
                + seq![mark(TokenType::RIGHTPAREN)] + tail);
            lemma_layout_guarded(ts, p, TokenType::IF, c, tail);
            let at = p + 3 + render_expr(c).len();
            lemma_holds_split(ts, at, then + word, render_stmt(*other));
            lemma_holds_split(ts, at, then, word);
            assert(ts[at + then.len() + 0] == word[0]);
        },
        None => {
            lemma_layout_guarded(ts, p, TokenType::IF, c, then);
        },
    }
}

/// Where the rendering of a function declaration stands.
pub proof fn lemma_layout_function(ts: Seq<TokenView>, p: int, s: StmtView)
    requires
        s is Function,
        holds(ts, p, render_stmt(s)),
    ensures
        ts[p] == mark(TokenType::FUN),
        ts[p + 1] == s->Function_declaration.name,
        ts[p + 2] == mark(TokenType::LEFTPAREN),
        holds(ts, p + 3, render_params(s->Function_declaration.params, 0)),
        ({
            let at = p + 3 + render_params(s->Function_declaration.params, 0).len();
            &&& ts[at] == mark(TokenType::RIGHTPAREN)
            &&& ts[at + 1] == mark(TokenType::LEFTBRACE)
            &&& holds(ts, at + 2, render_items(s->Function_declaration.body, 0))
            &&& ts[at + 2 + render_items(s->Function_declaration.body, 0).len()] == mark(TokenType::RIGHTBRACE)
            &&& render_stmt(s).len() == at + 3 + render_items(s->Function_declaration.body, 0).len() - p
        }),
{
    reveal(holds);
    let f = s->Function_declaration;
    let head = seq![mark(TokenType::FUN), f.name, mark(TokenType::LEFTPAREN)];
    let middle = seq![mark(TokenType::RIGHTPAREN), mark(TokenType::LEFTBRACE)];
    let close = seq![mark(TokenType::RIGHTBRACE)];
    let listed = render_params(f.params, 0);
    let body = render_items(f.body, 0);
    lemma_holds_split(ts, p, head + listed + middle + body, close);
    lemma_holds_split(ts, p, head + listed + middle, body);
    lemma_holds_split(ts, p, head + listed, middle);
    lemma_holds_split(ts, p, head, listed);
    assert(ts[p + 0] == head[0]);
    assert(ts[p + 1] == head[1]);
    assert(ts[p + 2] == head[2]);
    let at = p + 3 + listed.len();
    assert(ts[at + 0] == middle[0]);
    assert(ts[at + 1] == middle[1]);
    assert(ts[at + 2 + body.len() + 0] == close[0]);
}

/// Where the rendering of the first of some statements stands, and what
/// stands behind it.
pub proof fn lemma_layout_items(ts: Seq<TokenView>, p: int, ss: Seq<StmtView>, i: int)
    requires
        canonical_items(ss),
        0 <= i < ss.len(),
        holds(ts, p, render_items(ss, i)),
        p + render_items(ss, i).len() < ts.len(),
        0 <= p,
        ts[p + render_items(ss, i).len()].kind != TokenType::ELSE,
    ensures
        placed_at(ts, p, ss[i]),
        p < ts.len(),
        holds(ts, p + render_stmt(ss[i]).len(), render_items(ss, i + 1)),
        render_items(ss, i).len() == render_stmt(ss[i]).len() + render_items(ss, i + 1).len(),
        render_stmt(ss[i]).len() > 0,
        ts[p].kind != TokenType::RIGHTBRACE,
        ts[p].kind != TokenType::EOF,
        ts[p].kind != TokenType::ELSE,
{
    reveal(holds);
    let s = ss[i];
    lemma_first_stmt_token(s);
    lemma_holds_split(ts, p, render_stmt(s), render_items(ss, i + 1));
    assert(ts[p + 0] == render_stmt(s)[0]);
    let next = p + render_stmt(s).len();
    if i + 1 < ss.len() {
        lemma_first_stmt_token(ss[i + 1]);
        lemma_holds_split(ts, next, render_stmt(ss[i + 1]), render_items(ss, i + 2));
        assert(ts[next + 0] == render_stmt(ss[i + 1])[0]);
    } else {
        assert(render_items(ss, i + 1) =~= Seq::<TokenView>::empty());
    }
}

/// Parsing the rendering of a statement gives the statement again.
pub proof fn lemma_reparse_stmt(ts: Seq<TokenView>, p: int, s: StmtView)
    requires
        placed_at(ts, p, s),
    ensures
        reparsed(ts, p, s),
    decreases s, 0int, 1int,
{
    match s {
        StmtView::Expression { .. } => {
            lemma_reparse_expression_stmt(ts, p, s);
        },
        StmtView::Print { .. } => {
            lemma_reparse_print(ts, p, s);
        },
        StmtView::Var { .. } => {
            lemma_reparse_var(ts, p, s);
        },
        StmtView::Block { .. } => {
            lemma_reparse_block_stmt(ts, p, s);
        },
        StmtView::If { .. } => {
            lemma_reparse_if(ts, p, s);
        },
        StmtView::While { .. } => {
            lemma_reparse_while(ts, p, s);
        },
        StmtView::Function { .. } => {
            lemma_reparse_function(ts, p, s);
        },
        StmtView::Return { .. } => {
            lemma_reparse_return(ts, p, s);
        },
    }
}

/// Parsing the rendering of an expression statement gives it again.
pub proof fn lemma_reparse_expression_stmt(ts: Seq<TokenView>, p: int, s: StmtView)
    requires
        s is Expression,
        placed_at(ts, p, s),
    ensures
        reparsed(ts, p, s),
{
    let e = s->Expression_expression;
    lemma_layout_expression(ts, p, s);
    lemma_expression_again(ts, p, e);
    lemma_parse_expression_statement(ts, p, relabel_expr(e, p), p + render_expr(e).len());
}

/// Parsing the rendering of a `print` statement gives it again.
pub proof fn lemma_reparse_print(ts: Seq<TokenView>, p: int, s: StmtView)
    requires
        s is Print,
        placed_at(ts, p, s),
    ensures
        reparsed(ts, p, s),
{
    let e = s->Print_expression;
    lemma_layout_print(ts, p, s);
    lemma_expression_again(ts, p + 1, e);
    lemma_parse_print(ts, p, relabel_expr(e, p + 1), p + 1 + render_expr(e).len());
}

/// Parsing the rendering of a `return` statement gives it again.
pub proof fn lemma_reparse_return(ts: Seq<TokenView>, p: int, s: StmtView)
    requires
        s is Return,
        placed_at(ts, p, s),
    ensures
        reparsed(ts, p, s),
{
    if s->Return_value is Some {
        lemma_reparse_return_value(ts, p, s);
    } else {
        lemma_reparse_return_nothing(ts, p, s);
    }
}

/// Parsing the rendering of a `return` statement with a value gives it
/// again.
pub proof fn lemma_reparse_return_value(ts: Seq<TokenView>, p: int, s: StmtView)
    requires
        s is Return,
        s->Return_value is Some,
        placed_at(ts, p, s),
    ensures
        reparsed(ts, p, s),
{
    let e = s->Return_value->0;
    lemma_layout_return(ts, p, s);
    lemma_expression_again(ts, p + 1, e);
    lemma_parse_return_value(ts, p, relabel_expr(e, p + 1), p + 1 + render_expr(e).len());
    assert(relabel_stmt(s, p) == StmtView::Return { keyword: ts[p], value: Some(relabel_expr(e, p + 1)) });
}

/// Parsing the rendering of a `return` statement without a value gives it
/// again.
pub proof fn lemma_reparse_return_nothing(ts: Seq<TokenView>, p: int, s: StmtView)
    requires
        s is Return,
        s->Return_value is None,
        placed_at(ts, p, s),
    ensures
        reparsed(ts, p, s),
{
    lemma_layout_return(ts, p, s);
    lemma_parse_return_nothing(ts, p);
    assert(relabel_stmt(s, p) == StmtView::Return { keyword: ts[p], value: None });
}

/// Parsing the rendering of a variable declaration gives it again.
pub proof fn lemma_reparse_var(ts: Seq<TokenView>, p: int, s: StmtView)
    requires
        s is Var,
        placed_at(ts, p, s),
    ensures
        reparsed(ts, p, s),
{
    if s->Var_initializer is Some {
        lemma_reparse_var_value(ts, p, s);
    } else {
        lemma_reparse_var_nothing(ts, p, s);
    }
}

/// Parsing the rendering of a variable declaration with an initializer
/// gives it again.
pub proof fn lemma_reparse_var_value(ts: Seq<TokenView>, p: int, s: StmtView)
    requires
        s is Var,
        s->Var_initializer is Some,
        placed_at(ts, p, s),
    ensures
        reparsed(ts, p, s),
{
    let e = s->Var_initializer->0;
    lemma_layout_var(ts, p, s);
    lemma_expression_again(ts, p + 3, e);
    lemma_parse_var_value(ts, p, relabel_expr(e, p + 3), p + 3 + render_expr(e).len());
    assert(relabel_stmt(s, p) == StmtView::Var { name: ts[p + 1], initializer: Some(relabel_expr(e, p + 3)) });
}

/// Parsing the rendering of a variable declaration without an initializer
/// gives it again.
pub proof fn lemma_reparse_var_nothing(ts: Seq<TokenView>, p: int, s: StmtView)
    requires
        s is Var,
        s->Var_initializer is None,
        placed_at(ts, p, s),
    ensures
        reparsed(ts, p, s),
{
    lemma_layout_var(ts, p, s);
    lemma_parse_var_nothing(ts, p);
    assert(relabel_stmt(s, p) == StmtView::Var { name: ts[p + 1], initializer: None });
}

/// Parsing the rendering of a block gives it again.
pub proof fn lemma_reparse_block_stmt(ts: Seq<TokenView>, p: int, s: StmtView)
    requires
        s is Block,
        placed_at(ts, p, s),
    ensures
        reparsed(ts, p, s),
    decreases s, 0int, 0int,
{
    let items = s->Block_statements;
    lemma_layout_block(ts, p, s);
    lemma_reparse_block(ts, p + 1, items, 0, Seq::empty());
    assert(Seq::<StmtView>::empty() + relabel_items(items, 0, p + 1) =~= relabel_items(items, 0, p + 1));
    lemma_parse_block(ts, p, relabel_items(items, 0, p + 1), p + 2 + render_items(items, 0).len());
}

/// Parsing the rendering of the statements of a block, with the closing
/// brace, gives the statements again.
pub proof fn lemma_reparse_block(ts: Seq<TokenView>, p: int, ss: Seq<StmtView>, i: int, acc: Seq<StmtView>)
    requires
        canonical_items(ss),
        0 <= i <= ss.len(),
        holds(ts, p, render_items(ss, i)),
        0 <= p,
        p + render_items(ss, i).len() + 1 < ts.len(),
        ts[p + render_items(ss, i).len()] == mark(TokenType::RIGHTBRACE),
    ensures
        block_at(ts, p, acc) == (Parse::Done {
            value: acc + relabel_items(ss, i, p),
            next: p + render_items(ss, i).len() + 1,
        }),
    decreases ss, ss.len() - i, 0int,
{
    if i < ss.len() {
        let s = ss[i];
        lemma_layout_items(ts, p, ss, i);
        let next = p + render_stmt(s).len();
        lemma_reparse_stmt(ts, p, s);
        lemma_parse_block_item(ts, p, acc, relabel_stmt(s, p), next);
        lemma_reparse_block(ts, next, ss, i + 1, acc.push(relabel_stmt(s, p)));
        assert(acc.push(relabel_stmt(s, p)) + relabel_items(ss, i + 1, next) =~= acc + relabel_items(ss, i, p));
    } else {
        assert(render_items(ss, i) =~= Seq::<TokenView>::empty());
        lemma_parse_block_end(ts, p, acc);
        assert(acc + relabel_items(ss, i, p) =~= acc);
    }
}

/// Parsing the rendering of a `while` statement gives it again.
pub proof fn lemma_reparse_while(ts: Seq<TokenView>, p: int, s: StmtView)
    requires
        s is While,
        placed_at(ts, p, s),
    ensures
        reparsed(ts, p, s),
    decreases s, 0int, 0int,
{
    let c = s->While_condition;
    let body = *s->While_body;
    lemma_layout_while(ts, p, s);
    let at = p + 3 + render_expr(c).len();
    lemma_condition_again(
        ts,
        p + 1,
        c,
        ParseErrorKind::ExpectLeftParenAfterWhile,
        ParseErrorKind::ExpectRightParenAfterCondition,
    );
    lemma_reparse_stmt(ts, at, body);
    lemma_parse_while(ts, p, relabel_expr(c, p + 2), at, relabel_stmt(body, at), at + render_stmt(body).len());
}

/// Parsing the rendering of an `if` statement gives it again.
pub proof fn lemma_reparse_if(ts: Seq<TokenView>, p: int, s: StmtView)
    requires
        s is If,
        placed_at(ts, p, s),
    ensures
        reparsed(ts, p, s),
    decreases s, 0int, 0int,
{
    let c = s->If_condition;
    let then = *s->If_then_branch;
    lemma_layout_if(ts, p, s);
    let at = p + 3 + render_expr(c).len();
    let word = at + render_stmt(then).len();
    lemma_condition_again(
        ts,
        p + 1,
        c,
        ParseErrorKind::ExpectLeftParenAfterIf,
        ParseErrorKind::ExpectRightParenAfterIfCondition,
    );
    lemma_reparse_stmt(ts, at, then);
    if s->If_else_branch is Some {
        let other = *s->If_else_branch->0;
        lemma_reparse_stmt(ts, word + 1, other);
        lemma_if_else_done(ts, p, s);
    } else {
        lemma_if_only_done(ts, p, s);
    }
}

/// An `if` statement with an `else` is parsed again where its parts are.
pub proof fn lemma_if_else_done(ts: Seq<TokenView>, p: int, s: StmtView)
    requires
        s is If,
        s->If_else_branch is Some,
        canonical_stmt(s),
        kind_at(ts, p, TokenType::IF),
        ({
            let c = s->If_condition;
            let then = *s->If_then_branch;
            let other = *s->If_else_branch->0;
            let at = p + 3 + render_expr(c).len();
            let word = at + render_stmt(then).len();
            &&& cond_at(
                ts,
                p + 1,
                ParseErrorKind::ExpectLeftParenAfterIf,
                ParseErrorKind::ExpectRightParenAfterIfCondition,
            ) == (Parse::Done { value: relabel_expr(c, p + 2), next: at })
            &&& at < ts.len()
            &&& reparsed(ts, at, then)
            &&& word < ts.len()
            &&& kind_at(ts, word, TokenType::ELSE)
            &&& reparsed(ts, word + 1, other)
            &&& render_stmt(s).len() == word + 1 + render_stmt(other).len() - p
        }),
    ensures
        reparsed(ts, p, s),
{
    let c = s->If_condition;
    let then = *s->If_then_branch;
    let other = *s->If_else_branch->0;
    let at = p + 3 + render_expr(c).len();
    let word = at + render_stmt(then).len();
    lemma_parse_if_else(
        ts,
        p,
        relabel_expr(c, p + 2),
        at,
        relabel_stmt(then, at),
        word,
        relabel_stmt(other, word + 1),
        word + 1 + render_stmt(other).len(),
    );
    assert(relabel_stmt(s, p) == StmtView::If {
        condition: relabel_expr(c, p + 2),
        then_branch: Box::new(relabel_stmt(then, at)),
        else_branch: Some(Box::new(relabel_stmt(other, word + 1))),
    });
}

/// An `if` statement without an `else` is parsed again where its parts are.
pub proof fn lemma_if_only_done(ts: Seq<TokenView>, p: int, s: StmtView)
    requires
        s is If,
        s->If_else_branch is None,
        canonical_stmt(s),
        kind_at(ts, p, TokenType::IF),
        ({
            let c = s->If_condition;
            let then = *s->If_then_branch;
            let at = p + 3 + render_expr(c).len();
            let word = at + render_stmt(then).len();
            &&& cond_at(
                ts,
                p + 1,
                ParseErrorKind::ExpectLeftParenAfterIf,
                ParseErrorKind::ExpectRightParenAfterIfCondition,
            ) == (Parse::Done { value: relabel_expr(c, p + 2), next: at })
            &&& at < ts.len()
            &&& reparsed(ts, at, then)
            &&& word < ts.len()
            &&& ts[word].kind != TokenType::ELSE
            &&& render_stmt(s).len() == word - p
        }),
    ensures
        reparsed(ts, p, s),
{
    let c = s->If_condition;
    let then = *s->If_then_branch;
    let at = p + 3 + render_expr(c).len();
    let word = at + render_stmt(then).len();
    lemma_parse_if(ts, p, relabel_expr(c, p + 2), at, relabel_stmt(then, at), word);
    assert(relabel_stmt(s, p) == StmtView::If {
        condition: relabel_expr(c, p + 2),
        then_branch: Box::new(relabel_stmt(then, at)),
        else_branch: None,
    });
}

/// Parsing the rendering of a function declaration gives it again.
pub proof fn lemma_reparse_function(ts: Seq<TokenView>, p: int, s: StmtView)
    requires
        s is Function,
        placed_at(ts, p, s),
    ensures
        reparsed(ts, p, s),
    decreases s, 0int, 0int,
{
    let f = s->Function_declaration;
    lemma_layout_function(ts, p, s);
    let at = p + 3 + render_params(f.params, 0).len();
    if f.params.len() > 0 {
        lemma_params_again(ts, p + 3, f.params);
    } else {
        assert(render_params(f.params, 0) =~= Seq::<TokenView>::empty());
    }
    lemma_reparse_block(ts, at + 2, f.body, 0, Seq::empty());
    assert(Seq::<StmtView>::empty() + relabel_items(f.body, 0, at + 2) =~= relabel_items(f.body, 0, at + 2));
    lemma_parse_function(
        ts,
        p,
        f.params,
        at,
        relabel_items(f.body, 0, at + 2),
        at + 3 + render_items(f.body, 0).len(),
    );
}

/// Parsing the rendering of the statements of a program, with the end of the
/// stream, gives the statements again.
pub proof fn lemma_reparse_program(ts: Seq<TokenView>, p: int, ss: Seq<StmtView>, i: int, acc: Seq<StmtView>)
    requires
        canonical_items(ss),
        0 <= i <= ss.len(),
        holds(ts, p, render_items(ss, i)),
        0 <= p,
        p + render_items(ss, i).len() + 1 == ts.len(),
        ts[p + render_items(ss, i).len()] == mark(TokenType::EOF),
    ensures
        program_at(ts, p, acc) == Ok::<Seq<StmtView>, ParseError>(acc + relabel_items(ss, i, p)),
    decreases ss.len() - i,
{
    if i < ss.len() {
        let s = ss[i];
        lemma_layout_items(ts, p, ss, i);
        let next = p + render_stmt(s).len();
        lemma_reparse_stmt(ts, p, s);
        lemma_parse_program_item(ts, p, acc, relabel_stmt(s, p), next);
        lemma_reparse_program(ts, next, ss, i + 1, acc.push(relabel_stmt(s, p)));
        assert(acc.push(relabel_stmt(s, p)) + relabel_items(ss, i + 1, next) =~= acc + relabel_items(ss, i, p));
    } else {
        assert(render_items(ss, i) =~= Seq::<TokenView>::empty());
        lemma_parse_program_end(ts, p, acc);
        assert(acc + relabel_items(ss, i, p) =~= acc);
    }
}

/// Parsing the rendering of a program gives the program again: the same
/// statements, with the ids of the places where they are rendered.
pub proof fn lemma_roundtrip(ss: Seq<StmtView>)
    requires
        canonical_items(ss),
    ensures
        grammar::well_formed(render_program(ss)),
        program(render_program(ss), 0, Seq::empty()) == Ok::<Seq<StmtView>, ParseError>(
            relabel_items(ss, 0, 0),
        ),
{
    reveal(holds);
    let ts = render_program(ss);
    let end = seq![mark(TokenType::EOF)];
    lemma_holds_whole(render_items(ss, 0), end);
    lemma_holds_split(ts, 0, render_items(ss, 0), end);
    let at = render_items(ss, 0).len() as int;
    assert(ts[0 + at + 0] == end[0]);
    assert(ts.last() == end[0]);
    lemma_reparse_program(ts, 0, ss, 0, Seq::empty());
    assert(Seq::<StmtView>::empty() + relabel_items(ss, 0, 0) =~= relabel_items(ss, 0, 0));
    reveal(program_at);
}

/// Tokens stand in themselves.
pub proof fn lemma_holds_whole(a: Seq<TokenView>, b: Seq<TokenView>)
    ensures
        holds(a + b, 0, a + b),
{
    reveal(holds);
}

/// The expressions without their ids.
pub open spec fn shape_of_exprs(es: Seq<ExprView>) -> Seq<ExprView>
    decreases es,
{
    Seq::new(
        es.len(),
        |i: int|
            if 0 <= i < es.len() {
                shape_of_expr(es[i])
            } else {
                ExprView::Literal { value: crate::token::LiteralView::Nil }
            },
    )
}

/// The expression without its ids: what is left is its structure and the
/// tokens that it keeps.
pub open spec fn shape_of_expr(e: ExprView) -> ExprView
    decreases e,
{
    match e {
        ExprView::Binary { left, operator, right } => ExprView::Binary {
            left: Box::new(shape_of_expr(*left)),
            operator,
            right: Box::new(shape_of_expr(*right)),
        },
        ExprView::Logical { left, operator, right } => ExprView::Logical {
            left: Box::new(shape_of_expr(*left)),
            operator,
            right: Box::new(shape_of_expr(*right)),
        },
        ExprView::Group { expression } => ExprView::Group { expression: Box::new(shape_of_expr(*expression)) },
        ExprView::Literal { value } => e,
        ExprView::Unary { operator, right } => ExprView::Unary {
            operator,
            right: Box::new(shape_of_expr(*right)),
        },
        ExprView::Variable { name, id } => ExprView::Variable { name, id: 0 },
        ExprView::Assign { name, value, id } => ExprView::Assign {
            name,
            value: Box::new(shape_of_expr(*value)),
            id: 0,
        },
        ExprView::Call { callee, paren, arguments } => ExprView::Call {
            callee: Box::new(shape_of_expr(*callee)),
            paren,
            arguments: shape_of_exprs(arguments),
        },
    }
}

/// The expression that may be absent, without its ids.
pub open spec fn shape_of_option(e: Option<ExprView>) -> Option<ExprView> {
    match e {
        Some(e) => Some(shape_of_expr(e)),
        None => None,
    }
}

/// The statements without their ids.
pub open spec fn shape_of_stmts(ss: Seq<StmtView>) -> Seq<StmtView>
    decreases ss,
{
    Seq::new(
        ss.len(),
        |i: int|
            if 0 <= i < ss.len() {
                shape_of_stmt(ss[i])
            } else {
                StmtView::Block { statements: Seq::empty() }
            },
    )
}

/// The statement without its ids.
pub open spec fn shape_of_stmt(s: StmtView) -> StmtView
    decreases s,
{
    match s {
        StmtView::Expression { expression } => StmtView::Expression { expression: shape_of_expr(expression) },
        StmtView::Print { expression } => StmtView::Print { expression: shape_of_expr(expression) },
        StmtView::Var { name, initializer } => StmtView::Var { name, initializer: shape_of_option(initializer) },
        StmtView::Block { statements } => StmtView::Block { statements: shape_of_stmts(statements) },
        StmtView::If { condition, then_branch, else_branch } => StmtView::If {
            condition: shape_of_expr(condition),
            then_branch: Box::new(shape_of_stmt(*then_branch)),
            else_branch: match else_branch {
                Some(else_branch) => Some(Box::new(shape_of_stmt(*else_branch))),
                None => None,
            },
        },
        StmtView::While { condition, body } => StmtView::While {
            condition: shape_of_expr(condition),
            body: Box::new(shape_of_stmt(*body)),
        },
        StmtView::Function { declaration } => StmtView::Function {
            declaration: FunctionView {
                name: declaration.name,
                params: declaration.params,
                body: shape_of_stmts(declaration.body),
            },
        },
        StmtView::Return { keyword, value } => StmtView::Return { keyword, value: shape_of_option(value) },
    }
}

/// Giving an expression other ids leaves its shape.
pub proof fn lemma_relabel_expr_shape(e: ExprView, p: int)
    ensures
        shape_of_expr(relabel_expr(e, p)) == shape_of_expr(e),
    decreases e,
{
    match e {
        ExprView::Binary { left, operator, right } => {
            lemma_relabel_expr_shape(*left, p);
            lemma_relabel_expr_shape(*right, p + render_expr(*left).len() + 1);
        },
        ExprView::Logical { left, operator, right } => {
            lemma_relabel_expr_shape(*left, p);
            lemma_relabel_expr_shape(*right, p + render_expr(*left).len() + 1);
        },
        ExprView::Group { expression } => {
            lemma_relabel_expr_shape(*expression, p + 1);
        },
        ExprView::Literal { value } => {},
        ExprView::Unary { operator, right } => {
            lemma_relabel_expr_shape(*right, p + 1);
        },
        ExprView::Variable { name, id } => {},
        ExprView::Assign { name, value, id } => {
            lemma_relabel_expr_shape(*value, p + 2);
        },
        ExprView::Call { callee, paren, arguments } => {
            lemma_relabel_expr_shape(*callee, p);
            let at = p + render_expr(*callee).len() + 1;
            lemma_relabel_args_shape(arguments, 0, at);
            assert(crate::rendering::relabel_args(arguments, 0, at).len() == arguments.len());
            assert(shape_of_exprs(crate::rendering::relabel_args(arguments, 0, at)) =~= shape_of_exprs(arguments))
                by {
                assert forall|k: int| 0 <= k < arguments.len() implies shape_of_expr(
                    crate::rendering::relabel_args(arguments, 0, at)[k],
                ) == shape_of_expr(arguments[k]) by {}
            }
        },
    }
}

/// Giving the arguments of a call other ids leaves the shape of each.
pub proof fn lemma_relabel_args_shape(args: Seq<ExprView>, i: int, p: int)
    requires
        0 <= i <= args.len(),
    ensures
        crate::rendering::relabel_args(args, i, p).len() == args.len() - i,
        forall|k: int|
            0 <= k < args.len() - i ==> shape_of_expr(#[trigger] crate::rendering::relabel_args(args, i, p)[k])
                == shape_of_expr(args[i + k]),
    decreases args, args.len() - i,
{
    if i < args.len() {
        lemma_relabel_expr_shape(args[i], p);
        let next = p + render_expr(args[i]).len() + 1;
        lemma_relabel_args_shape(args, i + 1, next);
        let rest = crate::rendering::relabel_args(args, i + 1, next);
        let all = crate::rendering::relabel_args(args, i, p);
        assert(all == seq![relabel_expr(args[i], p)] + rest);
        assert forall|k: int| 0 <= k < args.len() - i implies shape_of_expr(#[trigger] all[k]) == shape_of_expr(
            args[i + k],
        ) by {
            if k > 0 {
                assert(all[k] == rest[k - 1]);
            }
        }
    }
}

/// Giving a statement other ids leaves its shape.
pub proof fn lemma_relabel_stmt_shape(s: StmtView, p: int)
    ensures
        shape_of_stmt(relabel_stmt(s, p)) == shape_of_stmt(s),
    decreases s,
{
    match s {
        StmtView::Expression { expression } => {
            lemma_relabel_expr_shape(expression, p);
        },
        StmtView::Print { expression } => {
            lemma_relabel_expr_shape(expression, p + 1);
        },
        StmtView::Var { name, initializer } => {
            match initializer {
                Some(e) => {
                    lemma_relabel_expr_shape(e, p + 3);
                },
                None => {},
            }
        },
        StmtView::Block { statements } => {
            lemma_relabel_items_shape(statements, 0, p + 1);
            lemma_shape_of_items(statements, relabel_items(statements, 0, p + 1));
        },
        StmtView::If { condition, then_branch, else_branch } => {
            let then_at = p + 3 + render_expr(condition).len();
            lemma_relabel_expr_shape(condition, p + 2);
            lemma_relabel_stmt_shape(*then_branch, then_at);
            match else_branch {
                Some(else_branch) => {
                    lemma_relabel_stmt_shape(*else_branch, then_at + render_stmt(*then_branch).len() + 1);
                },
                None => {},
            }
        },
        StmtView::While { condition, body } => {
            lemma_relabel_expr_shape(condition, p + 2);
            lemma_relabel_stmt_shape(*body, p + 3 + render_expr(condition).len());
        },
        StmtView::Function { declaration } => {
            let at = p + 5 + render_params(declaration.params, 0).len();
            lemma_relabel_items_shape(declaration.body, 0, at);
            lemma_shape_of_items(declaration.body, relabel_items(declaration.body, 0, at));
        },
        StmtView::Return { keyword, value } => {
            match value {
                Some(e) => {
                    lemma_relabel_expr_shape(e, p + 1);
                },
                None => {},
            }
        },
    }
}

/// Statements of the same shape, one by one, are of the same shape together.
pub proof fn lemma_shape_of_items(a: Seq<StmtView>, b: Seq<StmtView>)
    requires
        a.len() == b.len(),
        forall|k: int| 0 <= k < a.len() ==> shape_of_stmt(#[trigger] b[k]) == shape_of_stmt(a[k]),
    ensures
        shape_of_stmts(b) == shape_of_stmts(a),
{
    assert(shape_of_stmts(b) =~= shape_of_stmts(a));
}

/// Giving the statements of a list other ids leaves the shape of each.
pub proof fn lemma_relabel_items_shape(ss: Seq<StmtView>, i: int, p: int)
    requires
        0 <= i <= ss.len(),
    ensures
        relabel_items(ss, i, p).len() == ss.len() - i,
        forall|k: int|
            0 <= k < ss.len() - i ==> shape_of_stmt(#[trigger] relabel_items(ss, i, p)[k]) == shape_of_stmt(
                ss[i + k],
            ),
    decreases ss, ss.len() - i,
{
    if i < ss.len() {
        lemma_relabel_stmt_shape(ss[i], p);
        let next = p + render_stmt(ss[i]).len();
        lemma_relabel_items_shape(ss, i + 1, next);
        let rest = relabel_items(ss, i + 1, next);
        let all = relabel_items(ss, i, p);
        assert(all == seq![relabel_stmt(ss[i], p)] + rest);
        assert forall|k: int| 0 <= k < ss.len() - i implies shape_of_stmt(#[trigger] all[k]) == shape_of_stmt(
            ss[i + k],
        ) by {
            if k > 0 {
                assert(all[k] == rest[k - 1]);
            }
        }
    }
}

/// Parsing is a left inverse of rendering. The rendering of a program as the
/// parser makes it is a sequence of tokens that the parser accepts, and what
/// the grammar makes of it is the program again: the same statements, of the
/// same shape, with the ids of the places where they are rendered.
pub proof fn lemma_render_then_parse(ss: Seq<StmtView>)
    requires
        canonical_items(ss),
    ensures
        grammar::well_formed(render_program(ss)),
        program(render_program(ss), 0, Seq::empty()) == Ok::<Seq<StmtView>, ParseError>(
            relabel_items(ss, 0, 0),
        ),
        shape_of_stmts(relabel_items(ss, 0, 0)) == shape_of_stmts(ss),
{
    lemma_roundtrip(ss);
    lemma_relabel_items_shape(ss, 0, 0);
    lemma_shape_of_items(ss, relabel_items(ss, 0, 0));
}

} // verus!
