//! Why the table that the resolver fills agrees with the scoping rules.
//!
//! The resolver writes one entry for each variable that a local scope holds.
//! Where no two variables of a program share an id, no entry is overwritten,
//! and the table that is left at the end holds for each variable what the
//! rules gave when the resolver passed it.

use vstd::prelude::*;
use crate::ast::{ExprView, FunctionView, StmtView};
use crate::binding::{
    after, all_ready, expr_agrees, exprs_agree, found, function_agrees, is_declaration, lemma_exec_items,
    lemma_settled_marked, noted, settled, sound_env, sound_value, stmt_agrees, stmts_agree,
};
use crate::environment::EnvironmentView;
use crate::function::CallableView;
use crate::semantics::{run, Machine, Setting};
use crate::value::ValueView;
use crate::errors::StaticError;
use crate::scoping::{
    declare, define, distance, note, resolve_expr, resolve_exprs, resolve_function, resolve_stmt,
    resolve_stmts, unready, with_params, Scopes,
};
use crate::token::TokenView;

verus! {

/// The ids of the variables of an expression.
pub open spec fn expr_ids(e: ExprView) -> Set<usize>
    decreases e,
{
    match e {
        ExprView::Binary { left, operator, right } => expr_ids(*left) + expr_ids(*right),
        ExprView::Logical { left, operator, right } => expr_ids(*left) + expr_ids(*right),
        ExprView::Group { expression } => expr_ids(*expression),
        ExprView::Literal { value } => Set::empty(),
        ExprView::Unary { operator, right } => expr_ids(*right),
        ExprView::Variable { name, id } => set![id],
        ExprView::Assign { name, value, id } => expr_ids(*value).insert(id),
        ExprView::Call { callee, paren, arguments } => expr_ids(*callee) + exprs_ids(arguments, 0),
    }
}

/// The ids of the variables of the expressions `es[i..]`.
pub open spec fn exprs_ids(es: Seq<ExprView>, i: int) -> Set<usize>
    decreases es, es.len() - i,
{
    if !(0 <= i < es.len()) {
        Set::empty()
    } else {
        expr_ids(es[i]) + exprs_ids(es, i + 1)
    }
}

/// The ids of the variables of an expression that may be absent.
pub open spec fn option_ids(e: Option<ExprView>) -> Set<usize> {
    match e {
        Some(e) => expr_ids(e),
        None => Set::empty(),
    }
}

/// The ids of the variables of a statement.
pub open spec fn stmt_ids(s: StmtView) -> Set<usize>
    decreases s,
{
    match s {
        StmtView::Expression { expression } => expr_ids(expression),
        StmtView::Print { expression } => expr_ids(expression),
        StmtView::Var { name, initializer } => option_ids(initializer),
        StmtView::Block { statements } => stmts_ids(statements, 0),
        StmtView::If { condition, then_branch, else_branch } => expr_ids(condition) + stmt_ids(*then_branch)
            + match else_branch {
            Some(else_branch) => stmt_ids(*else_branch),
            None => Set::empty(),
        },
        StmtView::While { condition, body } => expr_ids(condition) + stmt_ids(*body),
        StmtView::Function { declaration } => stmts_ids(declaration.body, 0),
        StmtView::Return { keyword, value } => option_ids(value),
    }
}

/// The ids of the variables of the statements `ss[i..]`.
pub open spec fn stmts_ids(ss: Seq<StmtView>, i: int) -> Set<usize>
    decreases ss, ss.len() - i,
{
    if !(0 <= i < ss.len()) {
        Set::empty()
    } else {
        stmt_ids(ss[i]) + stmts_ids(ss, i + 1)
    }
}

/// No two variables of the expression share an id.
pub open spec fn expr_unique(e: ExprView) -> bool
    decreases e,
{
    match e {
        ExprView::Binary { left, operator, right } => expr_unique(*left) && expr_unique(*right) && expr_ids(
            *left,
        ).disjoint(expr_ids(*right)),
        ExprView::Logical { left, operator, right } => expr_unique(*left) && expr_unique(*right) && expr_ids(
            *left,
        ).disjoint(expr_ids(*right)),
        ExprView::Group { expression } => expr_unique(*expression),
        ExprView::Literal { value } => true,
        ExprView::Unary { operator, right } => expr_unique(*right),
        ExprView::Variable { name, id } => true,
        ExprView::Assign { name, value, id } => expr_unique(*value) && !expr_ids(*value).contains(id),
        ExprView::Call { callee, paren, arguments } => expr_unique(*callee) && exprs_unique(arguments, 0)
            && expr_ids(*callee).disjoint(exprs_ids(arguments, 0)),
    }
}

/// No two variables of the expressions `es[i..]` share an id.
pub open spec fn exprs_unique(es: Seq<ExprView>, i: int) -> bool
    decreases es, es.len() - i,
{
    if !(0 <= i < es.len()) {
        true
    } else {
        expr_unique(es[i]) && exprs_unique(es, i + 1) && expr_ids(es[i]).disjoint(exprs_ids(es, i + 1))
    }
}

/// No two variables of an expression that may be absent share an id.
pub open spec fn option_unique(e: Option<ExprView>) -> bool {
    match e {
        Some(e) => expr_unique(e),
        None => true,
    }
}

/// No two variables of the statement share an id.
pub open spec fn stmt_unique(s: StmtView) -> bool
    decreases s,
{
    match s {
        StmtView::Expression { expression } => expr_unique(expression),
        StmtView::Print { expression } => expr_unique(expression),
        StmtView::Var { name, initializer } => option_unique(initializer),
        StmtView::Block { statements } => stmts_unique(statements, 0),
        StmtView::If { condition, then_branch, else_branch } => {
            &&& expr_unique(condition)
            &&& stmt_unique(*then_branch)
            &&& expr_ids(condition).disjoint(stmt_ids(*then_branch))
            &&& match else_branch {
                Some(else_branch) => stmt_unique(*else_branch) && (expr_ids(condition) + stmt_ids(
                    *then_branch,
                )).disjoint(stmt_ids(*else_branch)),
                None => true,
            }
        },
        StmtView::While { condition, body } => expr_unique(condition) && stmt_unique(*body) && expr_ids(
            condition,
        ).disjoint(stmt_ids(*body)),
        StmtView::Function { declaration } => stmts_unique(declaration.body, 0),
        StmtView::Return { keyword, value } => option_unique(value),
    }
}

/// No two variables of the statements `ss[i..]` share an id.
pub open spec fn stmts_unique(ss: Seq<StmtView>, i: int) -> bool
    decreases ss, ss.len() - i,
{
    if !(0 <= i < ss.len()) {
        true
    } else {
        stmt_unique(ss[i]) && stmts_unique(ss, i + 1) && stmt_ids(ss[i]).disjoint(stmts_ids(ss, i + 1))
    }
}

/// No assignment in the expression is to the name `pending`.
pub open spec fn quiet(e: ExprView, pending: Seq<char>) -> bool
    decreases e,
{
    match e {
        ExprView::Binary { left, operator, right } => quiet(*left, pending) && quiet(*right, pending),
        ExprView::Logical { left, operator, right } => quiet(*left, pending) && quiet(*right, pending),
        ExprView::Group { expression } => quiet(*expression, pending),
        ExprView::Literal { value } => true,
        ExprView::Unary { operator, right } => quiet(*right, pending),
        ExprView::Variable { name, id } => true,
        ExprView::Assign { name, value, id } => quiet(*value, pending) && name.lexeme != pending,
        ExprView::Call { callee, paren, arguments } => quiet(*callee, pending) && exprs_quiet(
            arguments,
            pending,
        ),
    }
}

/// No assignment in the expressions is to the name `pending`.
pub open spec fn exprs_quiet(es: Seq<ExprView>, pending: Seq<char>) -> bool
    decreases es,
{
    forall|i: int| 0 <= i < es.len() ==> quiet(#[trigger] es[i], pending)
}

/// Declarations stand only in lists of statements, and no local variable is
/// assigned in its own initializer. `local` says whether the statement stands
/// in a local scope.
pub open spec fn stmt_orderly(s: StmtView, local: bool) -> bool
    decreases s,
{
    match s {
        StmtView::Var { name, initializer } => match initializer {
            Some(e) => local ==> quiet(e, name.lexeme),
            None => true,
        },
        StmtView::Block { statements } => stmts_orderly(statements, true),
        StmtView::If { condition, then_branch, else_branch } => {
            &&& !is_declaration(*then_branch)
            &&& stmt_orderly(*then_branch, local)
            &&& match else_branch {
                Some(else_branch) => !is_declaration(*else_branch) && stmt_orderly(*else_branch, local),
                None => true,
            }
        },
        StmtView::While { condition, body } => !is_declaration(*body) && stmt_orderly(*body, local),
        StmtView::Function { declaration } => stmts_orderly(declaration.body, true),
        _ => true,
    }
}

/// Every statement of the sequence is orderly.
pub open spec fn stmts_orderly(ss: Seq<StmtView>, local: bool) -> bool
    decreases ss,
{
    forall|i: int| 0 <= i < ss.len() ==> stmt_orderly(#[trigger] ss[i], local)
}

/// The table holds nothing for the ids.
pub open spec fn fresh(table: Map<usize, nat>, ids: Set<usize>) -> bool {
    forall|id: usize| ids.contains(id) ==> !#[trigger] table.contains_key(id)
}

/// The two tables hold the same for every id outside `ids`, and the second
/// holds nothing else outside what the first holds and `ids`.
pub open spec fn written(before: Map<usize, nat>, after: Map<usize, nat>, ids: Set<usize>) -> bool {
    forall|id: usize|
        #![trigger after.contains_key(id)]
        #![trigger before.contains_key(id)]
        !ids.contains(id) ==> after.contains_key(id) == before.contains_key(id) && (before.contains_key(id)
            ==> after[id] == before[id])
}

/// The two tables hold the same for every id of `ids`.
pub open spec fn same_on(a: Map<usize, nat>, b: Map<usize, nat>, ids: Set<usize>) -> bool {
    forall|id: usize|
        #![trigger a.contains_key(id)]
        #![trigger b.contains_key(id)]
        ids.contains(id) ==> a.contains_key(id) == b.contains_key(id) && (a.contains_key(id) ==> a[id]
            == b[id])
}

/// Tables that hold the same for some ids hold the same for fewer.
pub proof fn lemma_same_on_subset(a: Map<usize, nat>, b: Map<usize, nat>, big: Set<usize>, small: Set<usize>)
    requires
        same_on(a, b, big),
        small.subset_of(big),
    ensures
        same_on(a, b, small),
{
}

/// Whether the table agrees on an expression depends only on what it holds
/// for the ids of the expression.
pub proof fn lemma_expr_agrees_same(e: ExprView, scopes: Scopes, a: Map<usize, nat>, b: Map<usize, nat>)
    requires
        expr_agrees(e, scopes, a),
        same_on(a, b, expr_ids(e)),
    ensures
        expr_agrees(e, scopes, b),
    decreases e, 1int,
{
    match e {
        ExprView::Binary { left, operator, right } => {
            lemma_same_on_subset(a, b, expr_ids(e), expr_ids(*left));
            lemma_same_on_subset(a, b, expr_ids(e), expr_ids(*right));
            lemma_expr_agrees_same(*left, scopes, a, b);
            lemma_expr_agrees_same(*right, scopes, a, b);
            assert(expr_agrees(e, scopes, b));
        },
        ExprView::Logical { left, operator, right } => {
            lemma_same_on_subset(a, b, expr_ids(e), expr_ids(*left));
            lemma_same_on_subset(a, b, expr_ids(e), expr_ids(*right));
            lemma_expr_agrees_same(*left, scopes, a, b);
            lemma_expr_agrees_same(*right, scopes, a, b);
            assert(expr_agrees(e, scopes, b));
        },
        ExprView::Group { expression } => {
            lemma_expr_agrees_same(*expression, scopes, a, b);
            assert(expr_agrees(e, scopes, b));
        },
        ExprView::Literal { value } => {
            assert(expr_agrees(e, scopes, b));
        },
        ExprView::Unary { operator, right } => {
            lemma_expr_agrees_same(*right, scopes, a, b);
            assert(expr_agrees(e, scopes, b));
        },
        ExprView::Variable { name, id } => {
            assert(expr_ids(e).contains(id));
            assert(expr_agrees(e, scopes, b));
        },
        ExprView::Assign { name, value, id } => {
            assert(expr_ids(e).contains(id));
            lemma_same_on_subset(a, b, expr_ids(e), expr_ids(*value));
            lemma_expr_agrees_same(*value, scopes, a, b);
            assert(expr_agrees(e, scopes, b));
        },
        ExprView::Call { callee, paren, arguments } => {
            lemma_same_on_subset(a, b, expr_ids(e), expr_ids(*callee));
            lemma_same_on_subset(a, b, expr_ids(e), exprs_ids(arguments, 0));
            lemma_expr_agrees_same(*callee, scopes, a, b);
            assert(exprs_agree(arguments, scopes, a));
            assert forall|i: int| 0 <= i < arguments.len() implies expr_agrees(
                #[trigger] arguments[i],
                scopes,
                b,
            ) by {
                lemma_exprs_ids_member(arguments, 0, i);
                lemma_same_on_subset(a, b, exprs_ids(arguments, 0), expr_ids(arguments[i]));
                lemma_expr_agrees_same(arguments[i], scopes, a, b);
            }
            assert(exprs_agree(arguments, scopes, b));
            assert(expr_agrees(*callee, scopes, b));
            assert(expr_agrees(e, scopes, b));
        },
    }
}

/// The ids of an expression of a sequence are among the ids of the sequence.
pub proof fn lemma_exprs_ids_member(es: Seq<ExprView>, from: int, i: int)
    requires
        0 <= from <= i < es.len(),
    ensures
        expr_ids(es[i]).subset_of(exprs_ids(es, from)),
    decreases i - from,
{
    if from < i {
        lemma_exprs_ids_member(es, from + 1, i);
    }
}

/// The ids of a statement of a sequence are among the ids of the sequence.
pub proof fn lemma_stmts_ids_member(ss: Seq<StmtView>, from: int, i: int)
    requires
        0 <= from <= i < ss.len(),
    ensures
        stmt_ids(ss[i]).subset_of(stmts_ids(ss, from)),
    decreases i - from,
{
    if from < i {
        lemma_stmts_ids_member(ss, from + 1, i);
    }
}

/// Whether the table agrees on a statement depends only on what it holds for
/// the ids of the statement.
pub proof fn lemma_stmt_agrees_same(s: StmtView, scopes: Scopes, a: Map<usize, nat>, b: Map<usize, nat>)
    requires
        stmt_agrees(s, scopes, a),
        same_on(a, b, stmt_ids(s)),
    ensures
        stmt_agrees(s, scopes, b),
    decreases s, 0int,
{
    match s {
        StmtView::Expression { expression } => {
            lemma_expr_agrees_same(expression, scopes, a, b);
        },
        StmtView::Print { expression } => {
            lemma_expr_agrees_same(expression, scopes, a, b);
        },
        StmtView::Var { name, initializer } => {
            match initializer {
                Some(e) => {
                    lemma_expr_agrees_same(e, declare(scopes, name.lexeme), a, b);
                },
                None => {},
            }
        },
        StmtView::Block { statements } => {
            lemma_stmts_agree_same(statements, 0, scopes.push(Map::empty()), a, b);
        },
        StmtView::If { condition, then_branch, else_branch } => {
            lemma_same_on_subset(a, b, stmt_ids(s), expr_ids(condition));
            lemma_same_on_subset(a, b, stmt_ids(s), stmt_ids(*then_branch));
            lemma_expr_agrees_same(condition, scopes, a, b);
            lemma_stmt_agrees_same(*then_branch, scopes, a, b);
            match else_branch {
                Some(else_branch) => {
                    lemma_same_on_subset(a, b, stmt_ids(s), stmt_ids(*else_branch));
                    lemma_stmt_agrees_same(*else_branch, scopes, a, b);
                },
                None => {},
            }
        },
        StmtView::While { condition, body } => {
            lemma_same_on_subset(a, b, stmt_ids(s), expr_ids(condition));
            lemma_same_on_subset(a, b, stmt_ids(s), stmt_ids(*body));
            lemma_expr_agrees_same(condition, scopes, a, b);
            lemma_stmt_agrees_same(*body, scopes, a, b);
        },
        StmtView::Function { declaration } => {
            let opened = define(declare(scopes, declaration.name.lexeme), declaration.name.lexeme);
            assert(function_agrees(declaration, opened, a));
            assert(stmt_ids(s) == stmts_ids(declaration.body, 0));
            lemma_stmts_agree_same(
                declaration.body,
                0,
                with_params(opened.push(Map::empty()), declaration.params, 0),
                a,
                b,
            );
            assert(function_agrees(declaration, opened, b));
        },
        StmtView::Return { keyword, value } => {
            match value {
                Some(e) => {
                    lemma_expr_agrees_same(e, scopes, a, b);
                },
                None => {},
            }
        },
    }
}

/// Whether the table agrees on a list of statements depends only on what it
/// holds for the ids of the list.
pub proof fn lemma_stmts_agree_same(
    ss: Seq<StmtView>,
    i: int,
    scopes: Scopes,
    a: Map<usize, nat>,
    b: Map<usize, nat>,
)
    requires
        stmts_agree(ss, i, scopes, a),
        same_on(a, b, stmts_ids(ss, i)),
    ensures
        stmts_agree(ss, i, scopes, b),
    decreases ss, ss.len() - i,
{
    if 0 <= i < ss.len() {
        lemma_same_on_subset(a, b, stmts_ids(ss, i), stmt_ids(ss[i]));
        lemma_same_on_subset(a, b, stmts_ids(ss, i), stmts_ids(ss, i + 1));
        lemma_stmt_agrees_same(ss[i], scopes, a, b);
        lemma_stmts_agree_same(ss, i + 1, after(ss[i], scopes), a, b);
    }
}

/// What was written for some ids leaves the table the same for ids apart from
/// them.
pub proof fn lemma_written_same(before: Map<usize, nat>, after: Map<usize, nat>, ids: Set<usize>, others: Set<usize>)
    requires
        written(before, after, ids),
        ids.disjoint(others),
    ensures
        same_on(before, after, others),
        same_on(after, before, others),
{
}

/// Writing for some ids and then for others is writing for all of them.
pub proof fn lemma_written_then(
    a: Map<usize, nat>,
    b: Map<usize, nat>,
    c: Map<usize, nat>,
    first: Set<usize>,
    second: Set<usize>,
)
    requires
        written(a, b, first),
        written(b, c, second),
    ensures
        written(a, c, first + second),
{
    assert forall|id: usize|
        #![trigger c.contains_key(id)]
        #![trigger a.contains_key(id)]
        !(first + second).contains(id) implies c.contains_key(id) == a.contains_key(id) && (a.contains_key(id)
        ==> c[id] == a[id]) by {
        assert(!first.contains(id));
        assert(!second.contains(id));
        assert(b.contains_key(id) == a.contains_key(id));
    }
}

/// A table that is fresh for some ids is still fresh for them after writing
/// for ids apart from them.
pub proof fn lemma_fresh_written(before: Map<usize, nat>, after: Map<usize, nat>, ids: Set<usize>, others: Set<usize>)
    requires
        written(before, after, ids),
        ids.disjoint(others),
        fresh(before, others),
    ensures
        fresh(after, others),
{
    assert forall|id: usize| others.contains(id) implies !#[trigger] after.contains_key(id) by {
        assert(!ids.contains(id));
        assert(!before.contains_key(id));
    }
}

/// A table that is fresh for some ids is fresh for fewer.
pub proof fn lemma_fresh_subset(table: Map<usize, nat>, big: Set<usize>, small: Set<usize>)
    requires
        fresh(table, big),
        small.subset_of(big),
    ensures
        fresh(table, small),
{
}

/// Noting a variable writes for its id only, and makes the table hold what
/// the rules give.
pub proof fn lemma_note(table: Map<usize, nat>, scopes: Scopes, id: usize, name: Seq<char>)
    requires
        !table.contains_key(id),
        !unready(scopes, name),
    ensures
        noted(note(table, scopes, id, name), scopes, id, name),
        written(table, note(table, scopes, id, name), set![id]),
{
}

/// The table that the resolver leaves behind an expression agrees with the
/// scoping rules on it, and was written for the ids of the expression only.
/// `pending` is the name whose initializer is being resolved, if any.
pub proof fn lemma_resolved_expr(e: ExprView, scopes: Scopes, table: Map<usize, nat>, pending: Option<Seq<char>>)
    requires
        resolve_expr(e, scopes, table) is Ok,
        expr_unique(e),
        fresh(table, expr_ids(e)),
        forall|n: Seq<char>| unready(scopes, n) ==> pending == Some(n),
        pending is Some ==> quiet(e, pending->0),
    ensures
        expr_agrees(e, scopes, resolve_expr(e, scopes, table)->Ok_0),
        written(table, resolve_expr(e, scopes, table)->Ok_0, expr_ids(e)),
    decreases e, 0int,
{
    match e {
        ExprView::Binary { left, operator, right } => {
            let (left, right) = (*left, *right);
            lemma_fresh_subset(table, expr_ids(e), expr_ids(left));
            lemma_fresh_subset(table, expr_ids(e), expr_ids(right));
            lemma_resolved_expr(left, scopes, table, pending);
            let first = resolve_expr(left, scopes, table)->Ok_0;
            lemma_fresh_written(table, first, expr_ids(left), expr_ids(right));
            lemma_resolved_expr(right, scopes, first, pending);
            let second = resolve_expr(right, scopes, first)->Ok_0;
            lemma_written_same(first, second, expr_ids(right), expr_ids(left));
            lemma_expr_agrees_same(left, scopes, first, second);
            lemma_written_then(table, first, second, expr_ids(left), expr_ids(right));
        },
        ExprView::Logical { left, operator, right } => {
            let (left, right) = (*left, *right);
            lemma_fresh_subset(table, expr_ids(e), expr_ids(left));
            lemma_fresh_subset(table, expr_ids(e), expr_ids(right));
            lemma_resolved_expr(left, scopes, table, pending);
            let first = resolve_expr(left, scopes, table)->Ok_0;
            lemma_fresh_written(table, first, expr_ids(left), expr_ids(right));
            lemma_resolved_expr(right, scopes, first, pending);
            let second = resolve_expr(right, scopes, first)->Ok_0;
            lemma_written_same(first, second, expr_ids(right), expr_ids(left));
            lemma_expr_agrees_same(left, scopes, first, second);
            lemma_written_then(table, first, second, expr_ids(left), expr_ids(right));
        },
        ExprView::Group { expression } => {
            lemma_resolved_expr(*expression, scopes, table, pending);
        },
        ExprView::Literal { value } => {},
        ExprView::Unary { operator, right } => {
            lemma_resolved_expr(*right, scopes, table, pending);
        },
        ExprView::Variable { name, id } => {
            assert(expr_ids(e).contains(id));
            lemma_note(table, scopes, id, name.lexeme);
        },
        ExprView::Assign { name, value, id } => {
            lemma_fresh_subset(table, expr_ids(e), expr_ids(*value));
            lemma_resolved_expr(*value, scopes, table, pending);
            let first = resolve_expr(*value, scopes, table)->Ok_0;
            assert(expr_ids(e).contains(id));
            assert(!first.contains_key(id));
            lemma_note(first, scopes, id, name.lexeme);
            let second = note(first, scopes, id, name.lexeme);
            lemma_written_same(first, second, set![id], expr_ids(*value));
            lemma_expr_agrees_same(*value, scopes, first, second);
            lemma_written_then(table, first, second, expr_ids(*value), set![id]);
            assert(expr_ids(*value) + set![id] =~= expr_ids(e));
        },
        ExprView::Call { callee, paren, arguments } => {
            lemma_fresh_subset(table, expr_ids(e), expr_ids(*callee));
            lemma_resolved_expr(*callee, scopes, table, pending);
            let first = resolve_expr(*callee, scopes, table)->Ok_0;
            lemma_fresh_subset(table, expr_ids(e), exprs_ids(arguments, 0));
            lemma_fresh_written(table, first, expr_ids(*callee), exprs_ids(arguments, 0));
            lemma_resolved_exprs(arguments, 0, scopes, first, pending);
            let second = resolve_exprs(arguments, 0, scopes, first)->Ok_0;
            lemma_written_same(first, second, exprs_ids(arguments, 0), expr_ids(*callee));
            lemma_expr_agrees_same(*callee, scopes, first, second);
            lemma_written_then(table, first, second, expr_ids(*callee), exprs_ids(arguments, 0));
            assert(exprs_agree(arguments, scopes, second));
        },
    }
}

/// The table that the resolver leaves behind the arguments of a call agrees
/// with the scoping rules on each of them.
pub proof fn lemma_resolved_exprs(
    es: Seq<ExprView>,
    i: int,
    scopes: Scopes,
    table: Map<usize, nat>,
    pending: Option<Seq<char>>,
)
    requires
        0 <= i,
        resolve_exprs(es, i, scopes, table) is Ok,
        exprs_unique(es, i),
        fresh(table, exprs_ids(es, i)),
        forall|n: Seq<char>| unready(scopes, n) ==> pending == Some(n),
        pending is Some ==> exprs_quiet(es, pending->0),
    ensures
        forall|k: int|
            i <= k < es.len() ==> expr_agrees(#[trigger] es[k], scopes, resolve_exprs(es, i, scopes, table)->Ok_0),
        written(table, resolve_exprs(es, i, scopes, table)->Ok_0, exprs_ids(es, i)),
    decreases es, es.len() - i,
{
    if i < es.len() {
        lemma_fresh_subset(table, exprs_ids(es, i), expr_ids(es[i]));
        lemma_fresh_subset(table, exprs_ids(es, i), exprs_ids(es, i + 1));
        lemma_resolved_expr(es[i], scopes, table, pending);
        let first = resolve_expr(es[i], scopes, table)->Ok_0;
        lemma_fresh_written(table, first, expr_ids(es[i]), exprs_ids(es, i + 1));
        lemma_resolved_exprs(es, i + 1, scopes, first, pending);
        let second = resolve_exprs(es, i + 1, scopes, first)->Ok_0;
        lemma_written_same(first, second, exprs_ids(es, i + 1), expr_ids(es[i]));
        lemma_expr_agrees_same(es[i], scopes, first, second);
        lemma_written_then(table, first, second, expr_ids(es[i]), exprs_ids(es, i + 1));
    }
}

/// In settled scopes no name is unready.
pub proof fn lemma_settled_ready(scopes: Scopes)
    requires
        settled(scopes),
    ensures
        forall|n: Seq<char>| !unready(scopes, n),
{
    assert forall|n: Seq<char>| !unready(scopes, n) by {
        if scopes.len() > 0 && scopes.last().contains_key(n) {
            assert(all_ready(scopes[scopes.len() - 1]));
            assert(scopes.last()[n]);
        }
    }
}

/// While a name is declared in settled scopes, it is the only one that is
/// unready.
pub proof fn lemma_declared_unready(scopes: Scopes, name: Seq<char>)
    requires
        settled(scopes),
    ensures
        forall|n: Seq<char>| unready(declare(scopes, name), n) ==> n == name && scopes.len() > 0,
{
    assert forall|n: Seq<char>| unready(declare(scopes, name), n) implies n == name && scopes.len() > 0 by {
        if scopes.len() > 0 && n != name {
            assert(all_ready(scopes[scopes.len() - 1]));
            if scopes.last().contains_key(n) {
                assert(scopes.last()[n]);
            }
        }
    }
}

/// A statement changes the innermost scope only.
pub proof fn lemma_after_outer(s: StmtView, scopes: Scopes)
    ensures
        after(s, scopes).len() == scopes.len(),
        after(s, scopes).drop_last() == scopes.drop_last(),
{
    assert(after(s, scopes).drop_last() =~= scopes.drop_last());
}

/// Declaring the parameters changes the innermost scope only, and leaves the
/// scopes settled.
pub proof fn lemma_with_params(scopes: Scopes, params: Seq<TokenView>, i: int)
    requires
        0 <= i,
        settled(scopes),
    ensures
        with_params(scopes, params, i).len() == scopes.len(),
        with_params(scopes, params, i).drop_last() == scopes.drop_last(),
        settled(with_params(scopes, params, i)),
    decreases params.len() - i,
{
    if i < params.len() {
        let name = params[i].lexeme;
        let marked = define(declare(scopes, name), name);
        lemma_settled_marked(scopes, name);
        assert(marked.drop_last() =~= scopes.drop_last());
        lemma_with_params(marked, params, i + 1);
    }
}

/// Pushing an empty scope on settled scopes leaves them settled.
pub proof fn lemma_settled_push(scopes: Scopes)
    requires
        settled(scopes),
    ensures
        settled(scopes.push(Map::empty())),
        scopes.push(Map::<Seq<char>, bool>::empty()).drop_last() == scopes,
{
    let inner = scopes.push(Map::<Seq<char>, bool>::empty());
    assert(inner.drop_last() =~= scopes);
    assert forall|i: int| 0 <= i < inner.len() implies all_ready(#[trigger] inner[i]) by {
        if i < scopes.len() {
            assert(inner[i] == scopes[i]);
        }
    }
}

/// The table that the resolver leaves behind a function agrees with the
/// scoping rules on it.
pub proof fn lemma_resolved_function(f: FunctionView, scopes: Scopes, table: Map<usize, nat>)
    requires
        resolve_function(f, scopes, table) is Ok,
        settled(scopes),
        stmts_unique(f.body, 0),
        fresh(table, stmts_ids(f.body, 0)),
        stmts_orderly(f.body, true),
    ensures
        resolve_function(f, scopes, table)->Ok_0.scopes == scopes,
        function_agrees(f, scopes, resolve_function(f, scopes, table)->Ok_0.table),
        written(table, resolve_function(f, scopes, table)->Ok_0.table, stmts_ids(f.body, 0)),
    decreases f, 0int, 0int,
{
    lemma_settled_push(scopes);
    let pushed = scopes.push(Map::<Seq<char>, bool>::empty());
    lemma_with_params(pushed, f.params, 0);
    let inner = with_params(pushed, f.params, 0);
    lemma_resolved_stmts(f.body, 0, inner, table);
}

/// The table that the resolver leaves behind a list of statements agrees with
/// the scoping rules on each of them.
pub proof fn lemma_resolved_stmts(ss: Seq<StmtView>, i: int, scopes: Scopes, table: Map<usize, nat>)
    requires
        0 <= i,
        resolve_stmts(ss, i, scopes, table) is Ok,
        settled(scopes),
        stmts_unique(ss, i),
        fresh(table, stmts_ids(ss, i)),
        stmts_orderly(ss, scopes.len() > 0),
    ensures
        stmts_agree(ss, i, scopes, resolve_stmts(ss, i, scopes, table)->Ok_0.table),
        written(table, resolve_stmts(ss, i, scopes, table)->Ok_0.table, stmts_ids(ss, i)),
        resolve_stmts(ss, i, scopes, table)->Ok_0.scopes.len() == scopes.len(),
        resolve_stmts(ss, i, scopes, table)->Ok_0.scopes.drop_last() == scopes.drop_last(),
    decreases ss, ss.len() - i, 0int,
{
    if i < ss.len() {
        lemma_fresh_subset(table, stmts_ids(ss, i), stmt_ids(ss[i]));
        lemma_fresh_subset(table, stmts_ids(ss, i), stmts_ids(ss, i + 1));
        lemma_resolved_stmt(ss[i], scopes, table);
        let first = resolve_stmt(ss[i], scopes, table)->Ok_0;
        crate::binding::lemma_after_settled(ss[i], scopes);
        lemma_after_outer(ss[i], scopes);
        lemma_fresh_written(table, first.table, stmt_ids(ss[i]), stmts_ids(ss, i + 1));
        lemma_resolved_stmts(ss, i + 1, first.scopes, first.table);
        let second = resolve_stmts(ss, i + 1, first.scopes, first.table)->Ok_0;
        lemma_written_same(first.table, second.table, stmts_ids(ss, i + 1), stmt_ids(ss[i]));
        lemma_stmt_agrees_same(ss[i], scopes, first.table, second.table);
        lemma_written_then(table, first.table, second.table, stmt_ids(ss[i]), stmts_ids(ss, i + 1));
    }
}

/// The table that the resolver leaves behind a statement agrees with the
/// scoping rules on it, and the scopes that it leaves are those that the
/// rules give.
pub proof fn lemma_resolved_stmt(s: StmtView, scopes: Scopes, table: Map<usize, nat>)
    requires
        resolve_stmt(s, scopes, table) is Ok,
        settled(scopes),
        stmt_unique(s),
        fresh(table, stmt_ids(s)),
        stmt_orderly(s, scopes.len() > 0),
    ensures
        resolve_stmt(s, scopes, table)->Ok_0.scopes == after(s, scopes),
        stmt_agrees(s, scopes, resolve_stmt(s, scopes, table)->Ok_0.table),
        written(table, resolve_stmt(s, scopes, table)->Ok_0.table, stmt_ids(s)),
    decreases s, 0int, 1int,
{
    lemma_settled_ready(scopes);
    match s {
        StmtView::Expression { expression } => {
            lemma_resolved_expr(expression, scopes, table, None);
        },
        StmtView::Print { expression } => {
            lemma_resolved_expr(expression, scopes, table, None);
        },
        StmtView::Var { name, initializer } => {
            lemma_declared_unready(scopes, name.lexeme);
            match initializer {
                Some(e) => {
                    let pending = if scopes.len() > 0 {
                        Some(name.lexeme)
                    } else {
                        None
                    };
                    lemma_resolved_expr(e, declare(scopes, name.lexeme), table, pending);
                },
                None => {},
            }
        },
        StmtView::Block { statements } => {
            lemma_settled_push(scopes);
            lemma_resolved_stmts(statements, 0, scopes.push(Map::empty()), table);
        },
        StmtView::If { condition, then_branch, else_branch } => {
            lemma_fresh_subset(table, stmt_ids(s), expr_ids(condition));
            lemma_fresh_subset(table, stmt_ids(s), stmt_ids(*then_branch));
            lemma_resolved_expr(condition, scopes, table, None);
            let first = resolve_expr(condition, scopes, table)->Ok_0;
            lemma_fresh_written(table, first, expr_ids(condition), stmt_ids(*then_branch));
            lemma_resolved_stmt(*then_branch, scopes, first);
            let second = resolve_stmt(*then_branch, scopes, first)->Ok_0;
            lemma_written_same(first, second.table, stmt_ids(*then_branch), expr_ids(condition));
            lemma_expr_agrees_same(condition, scopes, first, second.table);
            lemma_written_then(table, first, second.table, expr_ids(condition), stmt_ids(*then_branch));
            match else_branch {
                Some(else_branch) => {
                    let head = expr_ids(condition) + stmt_ids(*then_branch);
                    lemma_fresh_subset(table, stmt_ids(s), stmt_ids(*else_branch));
                    lemma_fresh_written(table, second.table, head, stmt_ids(*else_branch));
                    lemma_resolved_stmt(*else_branch, scopes, second.table);
                    let third = resolve_stmt(*else_branch, scopes, second.table)->Ok_0;
                    lemma_written_same(second.table, third.table, stmt_ids(*else_branch), head);
                    lemma_same_on_subset(second.table, third.table, head, expr_ids(condition));
                    lemma_same_on_subset(second.table, third.table, head, stmt_ids(*then_branch));
                    lemma_expr_agrees_same(condition, scopes, second.table, third.table);
                    lemma_stmt_agrees_same(*then_branch, scopes, second.table, third.table);
                    lemma_written_then(table, second.table, third.table, head, stmt_ids(*else_branch));
                },
                None => {
                    assert(stmt_ids(s) =~= expr_ids(condition) + stmt_ids(*then_branch));
                },
            }
        },
        StmtView::While { condition, body } => {
            lemma_fresh_subset(table, stmt_ids(s), expr_ids(condition));
            lemma_fresh_subset(table, stmt_ids(s), stmt_ids(*body));
            lemma_resolved_expr(condition, scopes, table, None);
            let first = resolve_expr(condition, scopes, table)->Ok_0;
            lemma_fresh_written(table, first, expr_ids(condition), stmt_ids(*body));
            lemma_resolved_stmt(*body, scopes, first);
            let second = resolve_stmt(*body, scopes, first)->Ok_0;
            lemma_written_same(first, second.table, stmt_ids(*body), expr_ids(condition));
            lemma_expr_agrees_same(condition, scopes, first, second.table);
            lemma_written_then(table, first, second.table, expr_ids(condition), stmt_ids(*body));
        },
        StmtView::Function { declaration } => {
            let name = declaration.name.lexeme;
            lemma_settled_marked(scopes, name);
            lemma_resolved_function(declaration, define(declare(scopes, name), name), table);
        },
        StmtView::Return { keyword, value } => {
            match value {
                Some(e) => {
                    lemma_resolved_expr(e, scopes, table, None);
                },
                None => {},
            }
        },
    }
}

/// The environment of a new interpreter: one global frame that binds `clock`.
pub open spec fn starting_env() -> EnvironmentView {
    EnvironmentView::initial().define("clock"@, ValueView::Callable(CallableView::Clock))
}

/// The environment of a new interpreter is sound for every table.
pub proof fn lemma_starting_env(table: Map<usize, nat>)
    ensures
        starting_env().wf(),
        sound_env(starting_env(), table),
{
    let env = starting_env();
    assert(env.frames.len() == 1);
    assert forall|i: int, n: Seq<char>|
        0 <= i < env.frames.len() && env.frames[i].bindings.contains_key(n) implies sound_value(
        env,
        table,
        #[trigger] env.frames[i].bindings[n],
    ) by {
        assert(n == "clock"@);
    }
}

/// A resolved variable is always found. Take a program in which no two
/// variables share an id, declarations stand only in lists of statements, and
/// no local variable is assigned in its own initializer. If the resolver
/// accepts it, then running it with the table that the resolver filled, from a
/// sound environment, never fails for a resolved variable that is missing
/// from the frame at its distance.
pub proof fn lemma_resolved_variables_are_found(
    stmts: Seq<StmtView>,
    table: Map<usize, nat>,
    clock: u64,
    m: Machine,
    depth: nat,
    steps: nat,
)
    requires
        crate::scoping::resolve_program(stmts, Map::empty()) == Ok::<Map<usize, nat>, StaticError>(table),
        stmts_unique(stmts, 0),
        stmts_orderly(stmts, false),
        m.env.wf(),
        sound_env(m.env, table),
    ensures
        match run(Setting { locals: table, clock }, stmts, m, depth, steps).1 {
            Ok(_) => true,
            Err(error) => found(error),
        },
{
    let none = Seq::<Map<Seq<char>, bool>>::empty();
    assert(settled(none));
    lemma_resolved_stmts(stmts, 0, none, Map::empty());
    lemma_exec_items(Setting { locals: table, clock }, stmts, 0, m, depth, steps, none);
}

/// Every id of the set names a token from `lo` up to, but not at, `hi`.
pub open spec fn within(ids: Set<usize>, lo: int, hi: int) -> bool {
    forall|id: usize| #[trigger] ids.contains(id) ==> lo <= id < hi
}

/// Declarations stand only in lists of statements: no branch of an `if` and
/// no body of a `while` is a declaration.
pub open spec fn stmt_placed(s: StmtView) -> bool
    decreases s,
{
    match s {
        StmtView::Block { statements } => stmts_placed(statements),
        StmtView::If { condition, then_branch, else_branch } => {
            &&& !is_declaration(*then_branch)
            &&& stmt_placed(*then_branch)
            &&& match else_branch {
                Some(else_branch) => !is_declaration(*else_branch) && stmt_placed(*else_branch),
                None => true,
            }
        },
        StmtView::While { condition, body } => !is_declaration(*body) && stmt_placed(*body),
        StmtView::Function { declaration } => stmts_placed(declaration.body),
        _ => true,
    }
}

/// Every statement of the sequence has its declarations in lists.
pub open spec fn stmts_placed(ss: Seq<StmtView>) -> bool
    decreases ss,
{
    forall|i: int| 0 <= i < ss.len() ==> stmt_placed(#[trigger] ss[i])
}

/// No local variable is assigned in its own initializer. `local` says whether
/// the statement stands in a local scope.
pub open spec fn stmt_patient(s: StmtView, local: bool) -> bool
    decreases s,
{
    match s {
        StmtView::Var { name, initializer } => match initializer {
            Some(e) => local ==> quiet(e, name.lexeme),
            None => true,
        },
        StmtView::Block { statements } => stmts_patient(statements, true),
        StmtView::If { condition, then_branch, else_branch } => stmt_patient(*then_branch, local) && match else_branch {
            Some(else_branch) => stmt_patient(*else_branch, local),
            None => true,
        },
        StmtView::While { condition, body } => stmt_patient(*body, local),
        StmtView::Function { declaration } => stmts_patient(declaration.body, true),
        _ => true,
    }
}

/// No statement of the sequence assigns a local variable in its own
/// initializer.
pub open spec fn stmts_patient(ss: Seq<StmtView>, local: bool) -> bool
    decreases ss,
{
    forall|i: int| 0 <= i < ss.len() ==> stmt_patient(#[trigger] ss[i], local)
}

/// A statement that is placed and patient is orderly.
pub proof fn lemma_orderly(s: StmtView, local: bool)
    requires
        stmt_placed(s),
        stmt_patient(s, local),
    ensures
        stmt_orderly(s, local),
    decreases s,
{
    match s {
        StmtView::Block { statements } => {
            lemma_all_orderly(statements, true);
        },
        StmtView::If { condition, then_branch, else_branch } => {
            lemma_orderly(*then_branch, local);
            match else_branch {
                Some(else_branch) => {
                    lemma_orderly(*else_branch, local);
                },
                None => {},
            }
        },
        StmtView::While { condition, body } => {
            lemma_orderly(*body, local);
        },
        StmtView::Function { declaration } => {
            lemma_all_orderly(declaration.body, true);
        },
        _ => {},
    }
}

/// Statements that are placed and patient are orderly.
pub proof fn lemma_all_orderly(ss: Seq<StmtView>, local: bool)
    requires
        stmts_placed(ss),
        stmts_patient(ss, local),
    ensures
        stmts_orderly(ss, local),
    decreases ss,
{
    assert forall|i: int| 0 <= i < ss.len() implies stmt_orderly(#[trigger] ss[i], local) by {
        lemma_orderly(ss[i], local);
    }
}

/// Sets that are each apart from a third are, together, apart from it.
pub proof fn lemma_disjoint_union(a: Set<usize>, b: Set<usize>, c: Set<usize>)
    ensures
        (a + b).disjoint(c) == (a.disjoint(c) && b.disjoint(c)),
        c.disjoint(a + b) == (c.disjoint(a) && c.disjoint(b)),
{
    if a.disjoint(c) && b.disjoint(c) {
        assert((a + b).disjoint(c));
    }
    if (a + b).disjoint(c) {
        assert forall|x: usize| a.contains(x) implies !c.contains(x) by {
            assert((a + b).contains(x));
        }
        assert forall|x: usize| b.contains(x) implies !c.contains(x) by {
            assert((a + b).contains(x));
        }
    }
    if c.disjoint(a) && c.disjoint(b) {
        assert(c.disjoint(a + b));
    }
    if c.disjoint(a + b) {
        assert forall|x: usize| c.contains(x) implies !a.contains(x) by {
            if a.contains(x) {
                assert((a + b).contains(x));
            }
        }
        assert forall|x: usize| c.contains(x) implies !b.contains(x) by {
            if b.contains(x) {
                assert((a + b).contains(x));
            }
        }
    }
}

/// The ids of a list with one more expression at its end; the longer list has
/// no id twice where the list and the expression have none, and none in
/// common.
pub proof fn lemma_exprs_ids_push(es: Seq<ExprView>, e: ExprView, i: int)
    requires
        0 <= i <= es.len(),
    ensures
        exprs_ids(es.push(e), i) == exprs_ids(es, i) + expr_ids(e),
        exprs_unique(es, i) && expr_unique(e) && exprs_ids(es, i).disjoint(expr_ids(e)) ==> exprs_unique(
            es.push(e),
            i,
        ),
    decreases es.len() - i,
{
    let more = es.push(e);
    if i < es.len() {
        lemma_exprs_ids_push(es, e, i + 1);
        assert(more[i] == es[i]);
        assert(exprs_ids(more, i) =~= exprs_ids(es, i) + expr_ids(e));
        lemma_disjoint_union(expr_ids(es[i]), exprs_ids(es, i + 1), expr_ids(e));
        lemma_disjoint_union(exprs_ids(es, i + 1), expr_ids(e), expr_ids(es[i]));
        if exprs_unique(es, i) && expr_unique(e) && exprs_ids(es, i).disjoint(expr_ids(e)) {
            assert(exprs_ids(es, i) == expr_ids(es[i]) + exprs_ids(es, i + 1));
            assert(exprs_unique(more, i + 1));
            assert(exprs_ids(more, i + 1) == exprs_ids(es, i + 1) + expr_ids(e));
            assert(expr_ids(more[i]).disjoint(exprs_ids(more, i + 1)));
            assert(exprs_unique(more, i));
        }
    } else {
        assert(more[i] == e);
        assert(exprs_ids(more, i + 1) =~= Set::<usize>::empty());
        assert(exprs_ids(more, i) =~= exprs_ids(es, i) + expr_ids(e));
        assert(exprs_unique(more, i + 1));
        if expr_unique(e) {
            assert(expr_ids(more[i]).disjoint(exprs_ids(more, i + 1)));
            assert(exprs_unique(more, i));
        }
    }
}

/// The ids of a list with one more statement at its end; the longer list has
/// no id twice where the list and the statement have none, and none in
/// common.
pub proof fn lemma_stmts_ids_push(ss: Seq<StmtView>, s: StmtView, i: int)
    requires
        0 <= i <= ss.len(),
    ensures
        stmts_ids(ss.push(s), i) == stmts_ids(ss, i) + stmt_ids(s),
        stmts_unique(ss, i) && stmt_unique(s) && stmts_ids(ss, i).disjoint(stmt_ids(s)) ==> stmts_unique(
            ss.push(s),
            i,
        ),
    decreases ss.len() - i,
{
    let more = ss.push(s);
    if i < ss.len() {
        lemma_stmts_ids_push(ss, s, i + 1);
        assert(more[i] == ss[i]);
        assert(stmts_ids(more, i) =~= stmts_ids(ss, i) + stmt_ids(s));
        lemma_disjoint_union(stmt_ids(ss[i]), stmts_ids(ss, i + 1), stmt_ids(s));
        lemma_disjoint_union(stmts_ids(ss, i + 1), stmt_ids(s), stmt_ids(ss[i]));
        if stmts_unique(ss, i) && stmt_unique(s) && stmts_ids(ss, i).disjoint(stmt_ids(s)) {
            assert(stmts_ids(ss, i) == stmt_ids(ss[i]) + stmts_ids(ss, i + 1));
            assert(stmts_unique(more, i + 1));
            assert(stmts_ids(more, i + 1) == stmts_ids(ss, i + 1) + stmt_ids(s));
            assert(stmt_ids(more[i]).disjoint(stmts_ids(more, i + 1)));
            assert(stmts_unique(more, i));
        }
    } else {
        assert(more[i] == s);
        assert(stmts_ids(more, i + 1) =~= Set::<usize>::empty());
        assert(stmts_ids(more, i) =~= stmts_ids(ss, i) + stmt_ids(s));
        assert(stmts_unique(more, i + 1));
        if stmt_unique(s) {
            assert(stmt_ids(more[i]).disjoint(stmts_ids(more, i + 1)));
            assert(stmts_unique(more, i));
        }
    }
}

/// An expression as the parser makes it: no two of its variables share an id,
/// and every id names a token of the expression.
pub open spec fn expr_tidy(e: ExprView, lo: int, hi: int) -> bool {
    expr_unique(e) && within(expr_ids(e), lo, hi)
}

/// Expressions as the parser makes them.
pub open spec fn exprs_tidy(es: Seq<ExprView>, lo: int, hi: int) -> bool {
    exprs_unique(es, 0) && within(exprs_ids(es, 0), lo, hi)
}

/// An expression that may be absent, as the parser makes it.
pub open spec fn option_tidy(e: Option<ExprView>, lo: int, hi: int) -> bool {
    match e {
        Some(e) => expr_tidy(e, lo, hi),
        None => true,
    }
}

/// A statement as the parser makes it: no two of its variables share an id,
/// every id names a token of the statement, and its declarations stand in
/// lists.
pub open spec fn stmt_tidy(s: StmtView, lo: int, hi: int) -> bool {
    stmt_unique(s) && within(stmt_ids(s), lo, hi) && stmt_placed(s)
}

/// Statements as the parser makes them.
pub open spec fn stmts_tidy(ss: Seq<StmtView>, lo: int, hi: int) -> bool {
    stmts_unique(ss, 0) && within(stmts_ids(ss, 0), lo, hi) && stmts_placed(ss)
}

/// Rewriting a `for` statement keeps it tidy: its parts come one after the
/// other in the tokens.
pub proof fn lemma_desugar_for_tidy(
    initializer: Option<StmtView>,
    condition: Option<ExprView>,
    increment: Option<ExprView>,
    body: StmtView,
    at_first: int,
    at_second: int,
    at_third: int,
    at_fourth: int,
    at_fifth: int,
)
    requires
        at_first <= at_second <= at_third <= at_fourth <= at_fifth,
        match initializer {
            Some(s) => stmt_tidy(s, at_first, at_second),
            None => true,
        },
        option_tidy(condition, at_second, at_third),
        option_tidy(increment, at_third, at_fourth),
        stmt_tidy(body, at_fourth, at_fifth),
        !is_declaration(body),
    ensures
        stmt_tidy(crate::grammar::desugar_for(initializer, condition, increment, body), at_first, at_fifth),
        !is_declaration(crate::grammar::desugar_for(initializer, condition, increment, body)),
{
    let inner = match increment {
        Some(increment) => StmtView::Block {
            statements: seq![body, StmtView::Expression { expression: increment }],
        },
        None => body,
    };
    assert(stmt_tidy(inner, at_third, at_fifth) && !is_declaration(inner)) by {
        match increment {
            Some(increment) => {
                let last = StmtView::Expression { expression: increment };
                let items = seq![body, last];
                assert(items[0] == body);
                assert(items[1] == last);
                assert(stmts_placed(items));
                assert(stmt_ids(last) == expr_ids(increment));
                assert(stmt_unique(last));
                assert(stmts_ids(items, 2) =~= Set::<usize>::empty());
                assert(stmts_ids(items, 1) == stmt_ids(items[1]) + stmts_ids(items, 2));
                assert(stmts_ids(items, 1) =~= expr_ids(increment));
                assert(stmts_ids(items, 0) == stmt_ids(items[0]) + stmts_ids(items, 1));
                assert(stmts_ids(items, 0) =~= stmt_ids(body) + expr_ids(increment));
                assert(stmts_unique(items, 2));
                assert(stmt_ids(items[1]).disjoint(stmts_ids(items, 2)));
                assert(stmts_unique(items, 1));
                assert(stmt_ids(body).disjoint(expr_ids(increment)));
                assert(stmts_unique(items, 0));
            },
            None => {},
        }
    }
    let test = match condition {
        Some(condition) => condition,
        None => ExprView::Literal { value: crate::token::LiteralView::Bool(true) },
    };
    assert(expr_tidy(test, at_second, at_third));
    let repeat = StmtView::While { condition: test, body: Box::new(inner) };
    assert(stmt_ids(repeat) =~= expr_ids(test) + stmt_ids(inner));
    assert(expr_ids(test).disjoint(stmt_ids(inner)));
    assert(stmt_tidy(repeat, at_second, at_fifth));
    match initializer {
        Some(initializer) => {
            let items = seq![initializer, repeat];
            assert(items[0] == initializer);
            assert(items[1] == repeat);
            assert(stmts_placed(items));
            assert(stmts_ids(items, 2) =~= Set::<usize>::empty());
            assert(stmts_ids(items, 1) == stmt_ids(items[1]) + stmts_ids(items, 2));
            assert(stmts_ids(items, 1) =~= stmt_ids(repeat));
            assert(stmts_ids(items, 0) == stmt_ids(items[0]) + stmts_ids(items, 1));
            assert(stmts_ids(items, 0) =~= stmt_ids(initializer) + stmt_ids(repeat));
            assert(stmts_unique(items, 2));
            assert(stmt_ids(items[1]).disjoint(stmts_ids(items, 2)));
            assert(stmts_unique(items, 1));
            assert(stmt_ids(initializer).disjoint(stmt_ids(repeat)));
            assert(stmts_unique(items, 0));
        },
        None => {},
    }
}

} // verus!
