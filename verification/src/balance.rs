//! Why every scope that is entered is left again.
//!
//! Entering a scope moves the cursor of the environment to a new frame and
//! counts one more open scope; leaving it moves the cursor back and counts one
//! fewer. However an evaluation ends, with a value, with a `return` that
//! unwinds through blocks, or with a runtime error, the cursor stands where it
//! stood and the count is what it was.

use vstd::prelude::*;
use crate::ast::{ExprView, FunctionView, StmtView};
use crate::environment::{lemma_hop_in_range, EnvironmentView};
use crate::function::CallableView;
use crate::semantics::{
    bind_params, call_function, call_value, eval, eval_args, eval_option, exec, exec_items, exec_while, run,
    store, Machine, Setting,
};
use crate::token::TokenView;
use crate::value::ValueView;

verus! {

/// The environment `after` is sound, and differs from `before` by bindings
/// and by frames that were added only: the cursor and the count of open
/// scopes are the same.
pub open spec fn balanced(before: EnvironmentView, after: EnvironmentView) -> bool {
    after.wf() && after.extends(before)
}

/// An environment that is balanced against a second, which is balanced
/// against a third, is balanced against the third.
pub proof fn lemma_balanced_then(a: EnvironmentView, b: EnvironmentView, c: EnvironmentView)
    requires
        balanced(a, b),
        balanced(b, c),
    ensures
        balanced(a, c),
{
    assert forall|i: int| 0 <= i < a.frames.len() implies (#[trigger] c.frames[i]).ancestor
        == a.frames[i].ancestor by {
        assert(b.frames[i].ancestor == a.frames[i].ancestor);
    }
}

/// Binding a name in a frame leaves the environment balanced.
pub proof fn lemma_bind_balanced(env: EnvironmentView, index: int, name: Seq<char>, value: ValueView)
    requires
        env.wf(),
        0 <= index < env.frames.len(),
    ensures
        balanced(env, env.bind(index, name, value)),
{
}

/// Writing a variable leaves the environment balanced.
pub proof fn lemma_store_balanced(setting: Setting, env: EnvironmentView, name: TokenView, id: usize, value: ValueView)
    requires
        env.wf(),
    ensures
        store(setting, env, name, id, value) is Ok ==> balanced(env, store(setting, env, name, id, value)->Ok_0),
{
    if setting.locals.contains_key(id) {
        if let Some(index) = env.locate(setting.locals[id], name.lexeme) {
            lemma_hop_in_range(env, env.current, setting.locals[id]);
            lemma_bind_balanced(env, index, name.lexeme, value);
        }
    } else {
        if env.frames[0].bindings.contains_key(name.lexeme) {
            lemma_bind_balanced(env, 0, name.lexeme, value);
        }
    }
}

/// Binding the parameters leaves the environment balanced.
pub proof fn lemma_bind_params_balanced(env: EnvironmentView, params: Seq<TokenView>, args: Seq<ValueView>, i: int)
    requires
        env.wf(),
        0 <= i,
    ensures
        balanced(env, bind_params(env, params, args, i)),
    decreases params.len() - i,
{
    if i < params.len() {
        let bound = env.define(params[i].lexeme, args[i]);
        lemma_bind_balanced(env, env.current, params[i].lexeme, args[i]);
        lemma_bind_params_balanced(bound, params, args, i + 1);
        lemma_balanced_then(env, bound, bind_params(bound, params, args, i + 1));
    }
}

/// Evaluating an expression leaves the environment balanced.
pub proof fn lemma_eval_balanced(setting: Setting, e: ExprView, m: Machine, depth: nat, steps: nat)
    requires
        m.env.wf(),
    ensures
        balanced(m.env, eval(setting, e, m, depth, steps).machine.env),
    decreases 3 * depth + 1, steps, e, 0int,
{
    match e {
        ExprView::Literal { value } => {},
        ExprView::Group { expression } => {
            lemma_eval_balanced(setting, *expression, m, depth, steps);
        },
        ExprView::Variable { name, id } => {},
        ExprView::Assign { name, value, id } => {
            lemma_eval_balanced(setting, *value, m, depth, steps);
            let right = eval(setting, *value, m, depth, steps);
            if let Ok(v) = right.result {
                lemma_store_balanced(setting, right.machine.env, name, id, v);
                if let Ok(env) = store(setting, right.machine.env, name, id, v) {
                    lemma_balanced_then(m.env, right.machine.env, env);
                }
            }
        },
        ExprView::Unary { operator, right } => {
            lemma_eval_balanced(setting, *right, m, depth, steps);
        },
        ExprView::Binary { left, operator, right } => {
            lemma_eval_balanced(setting, *left, m, depth, steps);
            let first = eval(setting, *left, m, depth, steps);
            if first.result is Ok {
                lemma_eval_balanced(setting, *right, first.machine, depth, steps);
                lemma_balanced_then(
                    m.env,
                    first.machine.env,
                    eval(setting, *right, first.machine, depth, steps).machine.env,
                );
            }
        },
        ExprView::Logical { left, operator, right } => {
            lemma_eval_balanced(setting, *left, m, depth, steps);
            let first = eval(setting, *left, m, depth, steps);
            if first.result is Ok {
                lemma_eval_balanced(setting, *right, first.machine, depth, steps);
                lemma_balanced_then(
                    m.env,
                    first.machine.env,
                    eval(setting, *right, first.machine, depth, steps).machine.env,
                );
            }
        },
        ExprView::Call { callee, paren, arguments } => {
            lemma_eval_balanced(setting, *callee, m, depth, steps);
            let first = eval(setting, *callee, m, depth, steps);
            if let Ok(function) = first.result {
                lemma_eval_args_balanced(setting, arguments, 0, Seq::empty(), first.machine, depth, steps);
                let (machine, listed) = eval_args(
                    setting,
                    arguments,
                    0,
                    Seq::empty(),
                    first.machine,
                    depth,
                    steps,
                );
                lemma_balanced_then(m.env, first.machine.env, machine.env);
                if let Ok(args) = listed {
                    lemma_call_value_balanced(setting, function, args, paren, machine, depth, steps);
                    lemma_balanced_then(
                        m.env,
                        machine.env,
                        call_value(setting, function, args, paren, machine, depth, steps).machine.env,
                    );
                }
            }
        },
    }
}

/// Evaluating the arguments of a call leaves the environment balanced.
pub proof fn lemma_eval_args_balanced(
    setting: Setting,
    args: Seq<ExprView>,
    i: int,
    acc: Seq<ValueView>,
    m: Machine,
    depth: nat,
    steps: nat,
)
    requires
        m.env.wf(),
    ensures
        balanced(m.env, eval_args(setting, args, i, acc, m, depth, steps).0.env),
    decreases 3 * depth + 1, steps, args, args.len() - i,
{
    if 0 <= i < args.len() {
        lemma_eval_balanced(setting, args[i], m, depth, steps);
        let first = eval(setting, args[i], m, depth, steps);
        if let Ok(value) = first.result {
            lemma_eval_args_balanced(setting, args, i + 1, acc.push(value), first.machine, depth, steps);
            lemma_balanced_then(
                m.env,
                first.machine.env,
                eval_args(setting, args, i + 1, acc.push(value), first.machine, depth, steps).0.env,
            );
        }
    }
}

/// Calling a value leaves the environment balanced.
pub proof fn lemma_call_value_balanced(
    setting: Setting,
    callee: ValueView,
    args: Seq<ValueView>,
    paren: TokenView,
    m: Machine,
    depth: nat,
    steps: nat,
)
    requires
        m.env.wf(),
    ensures
        balanced(m.env, call_value(setting, callee, args, paren, m, depth, steps).machine.env),
    decreases 3 * depth, 1int, callee, 0int,
{
    match callee {
        ValueView::Callable(callable) => {
            if args.len() == callable.arity() {
                match callable {
                    CallableView::Clock => {},
                    CallableView::Function { declaration, closure } => {
                        lemma_call_function_balanced(setting, declaration, closure, args, paren, m, depth, steps);
                    },
                }
            }
        },
        _ => {},
    }
}

/// Calling a function leaves the environment balanced: however the body
/// ends, the frame of the caller is current again.
pub proof fn lemma_call_function_balanced(
    setting: Setting,
    declaration: FunctionView,
    closure: int,
    args: Seq<ValueView>,
    paren: TokenView,
    m: Machine,
    depth: nat,
    steps: nat,
)
    requires
        m.env.wf(),
    ensures
        balanced(m.env, call_function(setting, declaration, closure, args, paren, m, depth, steps).machine.env),
    decreases 3 * depth, 0int, declaration, 0int,
{
    if depth > 0 && 0 <= closure < m.env.frames.len() {
        let opened = m.env.enter(closure);
        assert(opened.wf());
        lemma_bind_params_balanced(opened, declaration.params, args, 0);
        let entered = bind_params(opened, declaration.params, args, 0);
        let start = Machine { env: entered, output: m.output };
        lemma_exec_items_balanced(setting, declaration.body, 0, start, (depth - 1) as nat, steps);
        let body = exec_items(setting, declaration.body, 0, start, (depth - 1) as nat, steps);
        lemma_balanced_then(opened, entered, body.machine.env);
        let left = body.machine.env.leave(m.env.current);
        assert forall|i: int| 0 <= i < m.env.frames.len() implies (#[trigger] left.frames[i]).ancestor
            == m.env.frames[i].ancestor by {
            assert(opened.frames[i] == m.env.frames[i]);
            assert(body.machine.env.frames[i].ancestor == opened.frames[i].ancestor);
        }
    }
}

/// Executing the statements of a list leaves the environment balanced.
pub proof fn lemma_exec_items_balanced(
    setting: Setting,
    stmts: Seq<StmtView>,
    i: int,
    m: Machine,
    depth: nat,
    steps: nat,
)
    requires
        m.env.wf(),
    ensures
        balanced(m.env, exec_items(setting, stmts, i, m, depth, steps).machine.env),
    decreases 3 * depth + 2, steps, stmts, stmts.len() - i,
{
    if 0 <= i < stmts.len() {
        lemma_exec_balanced(setting, stmts[i], m, depth, steps);
        let first = exec(setting, stmts[i], m, depth, steps);
        if first.signal is Normal {
            lemma_exec_items_balanced(setting, stmts, i + 1, first.machine, depth, steps);
            lemma_balanced_then(
                m.env,
                first.machine.env,
                exec_items(setting, stmts, i + 1, first.machine, depth, steps).machine.env,
            );
        }
    }
}

/// Running a loop leaves the environment balanced.
pub proof fn lemma_exec_while_balanced(setting: Setting, s: StmtView, m: Machine, depth: nat, steps: nat)
    requires
        m.env.wf(),
    ensures
        balanced(m.env, exec_while(setting, s, m, depth, steps).machine.env),
    decreases 3 * depth + 2, steps, s, 0int,
{
    match s {
        StmtView::While { condition, body } => {
            lemma_eval_balanced(setting, condition, m, depth, steps);
            let tested = eval(setting, condition, m, depth, steps);
            if let Ok(value) = tested.result {
                if value.truthy() && steps > 0 {
                    lemma_exec_balanced(setting, *body, tested.machine, depth, steps);
                    let round = exec(setting, *body, tested.machine, depth, steps);
                    lemma_balanced_then(m.env, tested.machine.env, round.machine.env);
                    if round.signal is Normal {
                        lemma_exec_while_balanced(setting, s, round.machine, depth, (steps - 1) as nat);
                        lemma_balanced_then(
                            m.env,
                            round.machine.env,
                            exec_while(setting, s, round.machine, depth, (steps - 1) as nat).machine.env,
                        );
                    }
                }
            }
        },
        _ => {},
    }
}

/// Executing a block leaves the environment balanced: however the
/// statements of the block end, the scope of the block is left.
pub proof fn lemma_exec_block_balanced(setting: Setting, s: StmtView, m: Machine, depth: nat, steps: nat)
    requires
        s is Block,
        m.env.wf(),
    ensures
        balanced(m.env, exec(setting, s, m, depth, steps).machine.env),
    decreases 3 * depth + 2, steps, s, 0int,
{
    match s {
        StmtView::Block { statements } => {
            let opened = m.env.enter_scope(false);
            assert(opened.wf());
            let start = Machine { env: opened, output: m.output };
            lemma_exec_items_balanced(setting, statements, 0, start, depth, steps);
            let body = exec_items(setting, statements, 0, start, depth, steps);
            assert(body.machine.env.frames[opened.current].ancestor == opened.frames[opened.current].ancestor);
            let left = body.machine.env.exit_scope();
            assert forall|i: int| 0 <= i < m.env.frames.len() implies (#[trigger] left.frames[i]).ancestor
                == m.env.frames[i].ancestor by {
                assert(opened.frames[i] == m.env.frames[i]);
                assert(body.machine.env.frames[i].ancestor == opened.frames[i].ancestor);
            }
        },
        _ => {},
    }
}

/// Executing a statement leaves the environment balanced.
pub proof fn lemma_exec_balanced(setting: Setting, s: StmtView, m: Machine, depth: nat, steps: nat)
    requires
        m.env.wf(),
    ensures
        balanced(m.env, exec(setting, s, m, depth, steps).machine.env),
    decreases 3 * depth + 2, steps, s, 1int,
{
    match s {
        StmtView::Expression { expression } => {
            lemma_eval_balanced(setting, expression, m, depth, steps);
        },
        StmtView::Print { expression } => {
            lemma_eval_balanced(setting, expression, m, depth, steps);
        },
        StmtView::Var { name, initializer } => {
            match initializer {
                Some(e) => {
                    lemma_eval_balanced(setting, e, m, depth, steps);
                },
                None => {},
            }
            let value = eval_option(setting, initializer, m, depth, steps);
            if let Ok(v) = value.result {
                lemma_bind_balanced(value.machine.env, value.machine.env.current, name.lexeme, v);
                lemma_balanced_then(m.env, value.machine.env, value.machine.env.define(name.lexeme, v));
            }
        },
        StmtView::Block { statements } => {
            lemma_exec_block_balanced(setting, s, m, depth, steps);
        },
        StmtView::If { condition, then_branch, else_branch } => {
            lemma_eval_balanced(setting, condition, m, depth, steps);
            let tested = eval(setting, condition, m, depth, steps);
            if let Ok(value) = tested.result {
                if value.truthy() {
                    lemma_exec_balanced(setting, *then_branch, tested.machine, depth, steps);
                    lemma_balanced_then(
                        m.env,
                        tested.machine.env,
                        exec(setting, *then_branch, tested.machine, depth, steps).machine.env,
                    );
                } else {
                    match else_branch {
                        Some(else_branch) => {
                            lemma_exec_balanced(setting, *else_branch, tested.machine, depth, steps);
                            lemma_balanced_then(
                                m.env,
                                tested.machine.env,
                                exec(setting, *else_branch, tested.machine, depth, steps).machine.env,
                            );
                        },
                        None => {},
                    }
                }
            }
        },
        StmtView::While { condition, body } => {
            lemma_exec_while_balanced(setting, s, m, depth, steps);
        },
        StmtView::Function { declaration } => {},
        StmtView::Return { keyword, value } => {
            match value {
                Some(e) => {
                    lemma_eval_balanced(setting, e, m, depth, steps);
                },
                None => {},
            }
            let returned = eval_option(setting, value, m, depth, steps);
            assert(balanced(m.env, returned.machine.env));
        },
    }
}

/// Across a whole run, however it ends, every scope that was entered has been
/// left: the cursor of the environment and the count of open scopes are what
/// they were.
pub proof fn lemma_run_balanced(setting: Setting, stmts: Seq<StmtView>, m: Machine, depth: nat, steps: nat)
    requires
        m.env.wf(),
    ensures
        run(setting, stmts, m, depth, steps).0.env.wf(),
        run(setting, stmts, m, depth, steps).0.env.current == m.env.current,
        run(setting, stmts, m, depth, steps).0.env.depth == m.env.depth,
{
    lemma_exec_items_balanced(setting, stmts, 0, m, depth, steps);
}

} // verus!
