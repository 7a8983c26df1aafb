//! The rules of lexical scoping: what the resolver computes for a program.
//!
//! The resolver walks the program once, with a stack of local scopes. A scope
//! maps each name declared in it to whether the name is ready: a name is not
//! ready while its own initializer is resolved. Global names are not tracked.
//! For each `Variable` and `Assign` node whose name some local scope holds, the
//! resolver records the number of scopes between the innermost scope and the
//! first one, going outward, that holds the name.

use vstd::prelude::*;
use crate::ast::{ExprView, FunctionView, StmtView};
use crate::errors::{StaticError, StaticErrorKind};
use crate::token::TokenView;

verus! {

/// A stack of local scopes; the innermost scope is the last.
pub type Scopes = Seq<Map<Seq<char>, bool>>;

/// What resolving a statement leaves behind.
pub struct Resolved {
    pub scopes: Scopes,
    pub table: Map<usize, nat>,
}

/// The innermost scope holds `name` with the given readiness; at top level,
/// where there is no local scope, nothing changes.
pub open spec fn mark(scopes: Scopes, name: Seq<char>, ready: bool) -> Scopes {
    if scopes.len() == 0 {
        scopes
    } else {
        scopes.update(scopes.len() - 1, scopes.last().insert(name, ready))
    }
}

/// `name` is declared in the innermost scope, and not ready.
pub open spec fn declare(scopes: Scopes, name: Seq<char>) -> Scopes {
    mark(scopes, name, false)
}

/// `name` is ready in the innermost scope.
pub open spec fn define(scopes: Scopes, name: Seq<char>) -> Scopes {
    mark(scopes, name, true)
}

/// The innermost scope holds `name`, not ready.
pub open spec fn unready(scopes: Scopes, name: Seq<char>) -> bool {
    scopes.len() > 0 && scopes.last().contains_key(name) && !scopes.last()[name]
}

/// The number of scopes to skip, counting from `hops` on, before the first
/// scope that holds `name`; `None` where no scope does.
pub open spec fn distance(scopes: Scopes, name: Seq<char>, hops: nat) -> Option<nat>
    decreases scopes.len() - hops,
{
    if hops >= scopes.len() {
        None
    } else if scopes[scopes.len() - 1 - hops].contains_key(name) {
        Some(hops)
    } else {
        distance(scopes, name, hops + 1)
    }
}

/// The table with the distance of the node `id`, which names `name`, where a
/// local scope holds the name.
pub open spec fn note(table: Map<usize, nat>, scopes: Scopes, id: usize, name: Seq<char>) -> Map<usize, nat> {
    match distance(scopes, name, 0) {
        Some(d) => table.insert(id, d),
        None => table,
    }
}

/// Resolves an expression: notes each of its variables, and fails where one
/// is read in its own initializer.
pub open spec fn resolve_expr(e: ExprView, scopes: Scopes, table: Map<usize, nat>) -> Result<
    Map<usize, nat>,
    StaticError,
>
    decreases e,
{
    match e {
        ExprView::Binary { left, operator, right } => match resolve_expr(*left, scopes, table) {
            Ok(table) => resolve_expr(*right, scopes, table),
            Err(error) => Err(error),
        },
        ExprView::Logical { left, operator, right } => match resolve_expr(*left, scopes, table) {
            Ok(table) => resolve_expr(*right, scopes, table),
            Err(error) => Err(error),
        },
        ExprView::Group { expression } => resolve_expr(*expression, scopes, table),
        ExprView::Literal { value } => Ok(table),
        ExprView::Unary { operator, right } => resolve_expr(*right, scopes, table),
        ExprView::Variable { name, id } => if unready(scopes, name.lexeme) {
            Err(StaticError::at(name, StaticErrorKind::ReadInOwnInitializer))
        } else {
            Ok(note(table, scopes, id, name.lexeme))
        },
        ExprView::Assign { name, value, id } => match resolve_expr(*value, scopes, table) {
            Ok(table) => Ok(note(table, scopes, id, name.lexeme)),
            Err(error) => Err(error),
        },
        ExprView::Call { callee, paren, arguments } => match resolve_expr(*callee, scopes, table) {
            Ok(table) => resolve_exprs(arguments, 0, scopes, table),
            Err(error) => Err(error),
        },
    }
}

/// Resolves the expressions `es[i..]` in order.
pub open spec fn resolve_exprs(es: Seq<ExprView>, i: int, scopes: Scopes, table: Map<usize, nat>) -> Result<
    Map<usize, nat>,
    StaticError,
>
    decreases es, es.len() - i,
{
    if !(0 <= i < es.len()) {
        Ok(table)
    } else {
        match resolve_expr(es[i], scopes, table) {
            Ok(table) => resolve_exprs(es, i + 1, scopes, table),
            Err(error) => Err(error),
        }
    }
}

/// Resolves an expression that may be absent.
pub open spec fn resolve_option(e: Option<ExprView>, scopes: Scopes, table: Map<usize, nat>) -> Result<
    Map<usize, nat>,
    StaticError,
>
    decreases e,
{
    match e {
        Some(e) => resolve_expr(e, scopes, table),
        None => Ok(table),
    }
}

/// The scopes with each of the parameters `params[i..]` declared and ready in
/// the innermost one.
pub open spec fn with_params(scopes: Scopes, params: Seq<TokenView>, i: int) -> Scopes
    decreases params.len() - i,
{
    if !(0 <= i < params.len()) {
        scopes
    } else {
        with_params(define(declare(scopes, params[i].lexeme), params[i].lexeme), params, i + 1)
    }
}

/// Resolves the parameters and the body of a function in one new scope.
pub open spec fn resolve_function(f: FunctionView, scopes: Scopes, table: Map<usize, nat>) -> Result<
    Resolved,
    StaticError,
>
    decreases f,
{
    match resolve_stmts(f.body, 0, with_params(scopes.push(Map::empty()), f.params, 0), table) {
        Ok(inner) => Ok(Resolved { scopes: inner.scopes.drop_last(), table: inner.table }),
        Err(error) => Err(error),
    }
}

/// Resolves a statement: a block and a function open a scope, a declaration
/// adds its name to the innermost one.
pub open spec fn resolve_stmt(s: StmtView, scopes: Scopes, table: Map<usize, nat>) -> Result<
    Resolved,
    StaticError,
>
    decreases s,
{
    match s {
        StmtView::Expression { expression } => match resolve_expr(expression, scopes, table) {
            Ok(table) => Ok(Resolved { scopes, table }),
            Err(error) => Err(error),
        },
        StmtView::Print { expression } => match resolve_expr(expression, scopes, table) {
            Ok(table) => Ok(Resolved { scopes, table }),
            Err(error) => Err(error),
        },
        StmtView::Var { name, initializer } => match resolve_option(
            initializer,
            declare(scopes, name.lexeme),
            table,
        ) {
            Ok(table) => Ok(Resolved { scopes: define(declare(scopes, name.lexeme), name.lexeme), table }),
            Err(error) => Err(error),
        },
        StmtView::Block { statements } => match resolve_stmts(
            statements,
            0,
            scopes.push(Map::empty()),
            table,
        ) {
            Ok(inner) => Ok(Resolved { scopes: inner.scopes.drop_last(), table: inner.table }),
            Err(error) => Err(error),
        },
        StmtView::If { condition, then_branch, else_branch } => match resolve_expr(condition, scopes, table) {
            Ok(table) => match resolve_stmt(*then_branch, scopes, table) {
                Ok(after) => match else_branch {
                    Some(else_branch) => resolve_stmt(*else_branch, after.scopes, after.table),
                    None => Ok(after),
                },
                Err(error) => Err(error),
            },
            Err(error) => Err(error),
        },
        StmtView::While { condition, body } => match resolve_expr(condition, scopes, table) {
            Ok(table) => resolve_stmt(*body, scopes, table),
            Err(error) => Err(error),
        },
        StmtView::Function { declaration } => resolve_function(
            declaration,
            define(declare(scopes, declaration.name.lexeme), declaration.name.lexeme),
            table,
        ),
        StmtView::Return { keyword, value } => match resolve_option(value, scopes, table) {
            Ok(table) => Ok(Resolved { scopes, table }),
            Err(error) => Err(error),
        },
    }
}

/// Resolves the statements `ss[i..]` in order.
pub open spec fn resolve_stmts(ss: Seq<StmtView>, i: int, scopes: Scopes, table: Map<usize, nat>) -> Result<
    Resolved,
    StaticError,
>
    decreases ss, ss.len() - i,
{
    if !(0 <= i < ss.len()) {
        Ok(Resolved { scopes, table })
    } else {
        match resolve_stmt(ss[i], scopes, table) {
            Ok(after) => resolve_stmts(ss, i + 1, after.scopes, after.table),
            Err(error) => Err(error),
        }
    }
}

/// Resolves a program: no local scope is open at its top level.
pub open spec fn resolve_program(ss: Seq<StmtView>, table: Map<usize, nat>) -> Result<
    Map<usize, nat>,
    StaticError,
> {
    match resolve_stmts(ss, 0, Seq::empty(), table) {
        Ok(after) => Ok(after.table),
        Err(error) => Err(error),
    }
}

} // verus!
