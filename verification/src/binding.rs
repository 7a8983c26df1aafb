//! Why a resolved variable is always found.
//!
//! The resolver fixes, for a variable of a local scope, the number of frames
//! between the frame that is current when the variable is used and the frame
//! that binds it. This module states what makes that number right, and proves
//! that an evaluator that runs a program with a table that agrees with the
//! scoping rules never misses a resolved variable.

use vstd::prelude::*;
use crate::ast::{ExprView, FunctionView, StmtView};
use crate::environment::{lemma_hop_in_range, EnvironmentView, FrameView};
use crate::errors::{RuntimeErrorKind, RuntimeErrorView};
use crate::function::CallableView;
use crate::scoping::{declare, define, distance, unready, with_params, Scopes};
use crate::semantics::{
    bind_params, call_function, call_value, eval, eval_args, eval_option, exec, exec_items, exec_while,
    lookup, store, Evaluated, Executed, Machine, Setting, Signal,
};
use crate::token::TokenView;
use crate::value::ValueView;

verus! {

/// Every name of the scope is ready.
pub open spec fn all_ready(scope: Map<Seq<char>, bool>) -> bool {
    forall|n: Seq<char>| scope.contains_key(n) ==> #[trigger] scope[n]
}

/// Every name of every scope is ready: no initializer is being resolved.
pub open spec fn settled(scopes: Scopes) -> bool {
    forall|i: int| 0 <= i < scopes.len() ==> all_ready(#[trigger] scopes[i])
}

/// Every name of every scope but the innermost is ready.
pub open spec fn outer_settled(scopes: Scopes) -> bool {
    forall|i: int| 0 <= i < scopes.len() - 1 ==> all_ready(#[trigger] scopes[i])
}

/// The table holds for the node `id`, which names `name`, what the scoping
/// rules give: the distance of the first scope that holds the name, or
/// nothing where no scope does. The name is not one whose own initializer is
/// being resolved.
pub open spec fn noted(table: Map<usize, nat>, scopes: Scopes, id: usize, name: Seq<char>) -> bool {
    &&& !unready(scopes, name)
    &&& match distance(scopes, name, 0) {
        Some(d) => table.contains_key(id) && table[id] == d,
        None => !table.contains_key(id),
    }
}

/// The table agrees with the scoping rules on every variable of the
/// expression.
pub open spec fn expr_agrees(e: ExprView, scopes: Scopes, table: Map<usize, nat>) -> bool
    decreases e,
{
    match e {
        ExprView::Binary { left, operator, right } => expr_agrees(*left, scopes, table) && expr_agrees(
            *right,
            scopes,
            table,
        ),
        ExprView::Logical { left, operator, right } => expr_agrees(*left, scopes, table) && expr_agrees(
            *right,
            scopes,
            table,
        ),
        ExprView::Group { expression } => expr_agrees(*expression, scopes, table),
        ExprView::Literal { value } => true,
        ExprView::Unary { operator, right } => expr_agrees(*right, scopes, table),
        ExprView::Variable { name, id } => noted(table, scopes, id, name.lexeme),
        ExprView::Assign { name, value, id } => expr_agrees(*value, scopes, table) && noted(
            table,
            scopes,
            id,
            name.lexeme,
        ),
        ExprView::Call { callee, paren, arguments } => expr_agrees(*callee, scopes, table) && exprs_agree(
            arguments,
            scopes,
            table,
        ),
    }
}

/// The table agrees with the scoping rules on every expression of the
/// sequence.
pub open spec fn exprs_agree(es: Seq<ExprView>, scopes: Scopes, table: Map<usize, nat>) -> bool
    decreases es,
{
    forall|i: int| 0 <= i < es.len() ==> expr_agrees(#[trigger] es[i], scopes, table)
}

/// The table agrees with the scoping rules on an expression that may be
/// absent.
pub open spec fn option_agrees(e: Option<ExprView>, scopes: Scopes, table: Map<usize, nat>) -> bool {
    match e {
        Some(e) => expr_agrees(e, scopes, table),
        None => true,
    }
}

/// A statement that adds a name to the scope it stands in.
pub open spec fn is_declaration(s: StmtView) -> bool {
    s is Var || s is Function
}

/// The scopes behind a statement: a declaration adds its name, ready, to the
/// innermost scope; nothing else changes the scopes of the statements that
/// follow.
pub open spec fn after(s: StmtView, scopes: Scopes) -> Scopes {
    match s {
        StmtView::Var { name, initializer } => define(declare(scopes, name.lexeme), name.lexeme),
        StmtView::Function { declaration } => define(
            declare(scopes, declaration.name.lexeme),
            declaration.name.lexeme,
        ),
        _ => scopes,
    }
}

/// The table agrees with the scoping rules on the parameters and the body of
/// a function declared where `scopes` are open.
pub open spec fn function_agrees(f: FunctionView, scopes: Scopes, table: Map<usize, nat>) -> bool
    decreases f,
{
    stmts_agree(f.body, 0, with_params(scopes.push(Map::empty()), f.params, 0), table)
}

/// The table agrees with the scoping rules on every variable of the
/// statement, and declarations stand only in lists of statements: no branch
/// of an `if` and no body of a `while` is a declaration.
pub open spec fn stmt_agrees(s: StmtView, scopes: Scopes, table: Map<usize, nat>) -> bool
    decreases s,
{
    match s {
        StmtView::Expression { expression } => expr_agrees(expression, scopes, table),
        StmtView::Print { expression } => expr_agrees(expression, scopes, table),
        StmtView::Var { name, initializer } => option_agrees(initializer, declare(scopes, name.lexeme), table),
        StmtView::Block { statements } => stmts_agree(statements, 0, scopes.push(Map::empty()), table),
        StmtView::If { condition, then_branch, else_branch } => {
            &&& expr_agrees(condition, scopes, table)
            &&& !is_declaration(*then_branch)
            &&& stmt_agrees(*then_branch, scopes, table)
            &&& match else_branch {
                Some(else_branch) => !is_declaration(*else_branch) && stmt_agrees(*else_branch, scopes, table),
                None => true,
            }
        },
        StmtView::While { condition, body } => {
            &&& expr_agrees(condition, scopes, table)
            &&& !is_declaration(*body)
            &&& stmt_agrees(*body, scopes, table)
        },
        StmtView::Function { declaration } => function_agrees(
            declaration,
            define(declare(scopes, declaration.name.lexeme), declaration.name.lexeme),
            table,
        ),
        StmtView::Return { keyword, value } => option_agrees(value, scopes, table),
    }
}

/// The table agrees with the scoping rules on the statements `ss[i..]`, each
/// in the scopes that the ones before it leave.
pub open spec fn stmts_agree(ss: Seq<StmtView>, i: int, scopes: Scopes, table: Map<usize, nat>) -> bool
    decreases ss, ss.len() - i,
{
    if !(0 <= i < ss.len()) {
        true
    } else {
        stmt_agrees(ss[i], scopes, table) && stmts_agree(ss, i + 1, after(ss[i], scopes), table)
    }
}

/// The frames from `frame` through its ancestors bind what the scopes, from
/// the innermost outward, hold ready.
pub open spec fn covers(env: EnvironmentView, frame: int, scopes: Scopes) -> bool
    decreases scopes.len(),
{
    if scopes.len() == 0 {
        true
    } else {
        &&& 0 <= frame < env.frames.len()
        &&& forall|n: Seq<char>|
            scopes.last().contains_key(n) && scopes.last()[n] ==> #[trigger] env.frames[frame].bindings.contains_key(
                n,
            )
        &&& scopes.len() > 1 ==> env.frames[frame].ancestor is Some && covers(
            env,
            env.frames[frame].ancestor->0,
            scopes.drop_last(),
        )
    }
}

/// The scopes that were open where a function was declared, as far as the
/// evaluator needs them: all their names are ready, the table agrees with the
/// scoping rules on the function, and the frame that the function keeps,
/// with its ancestors, binds what the scopes hold.
pub open spec fn witnesses(
    env: EnvironmentView,
    table: Map<usize, nat>,
    declaration: FunctionView,
    closure: int,
    scopes: Scopes,
) -> bool {
    &&& settled(scopes)
    &&& function_agrees(declaration, scopes, table)
    &&& covers(env, closure, scopes)
    &&& 0 <= closure < env.frames.len()
}

/// A value that can be called safely: for a function of the program, some
/// scopes witness it.
pub open spec fn sound_value(env: EnvironmentView, table: Map<usize, nat>, value: ValueView) -> bool {
    match value {
        ValueView::Callable(CallableView::Function { declaration, closure }) => witnessed(
            env,
            table,
            declaration,
            closure,
        ),
        _ => true,
    }
}

/// Some scopes witness the function.
pub open spec fn witnessed(
    env: EnvironmentView,
    table: Map<usize, nat>,
    declaration: FunctionView,
    closure: int,
) -> bool {
    exists|scopes: Scopes| #[trigger] witnesses(env, table, declaration, closure, scopes)
}

/// Every value of the sequence is sound.
pub open spec fn sound_values(env: EnvironmentView, table: Map<usize, nat>, values: Seq<ValueView>) -> bool {
    forall|i: int| 0 <= i < values.len() ==> sound_value(env, table, #[trigger] values[i])
}

/// Every value bound in any frame is sound.
pub open spec fn sound_env(env: EnvironmentView, table: Map<usize, nat>) -> bool {
    forall|i: int, n: Seq<char>|
        0 <= i < env.frames.len() && env.frames[i].bindings.contains_key(n) ==> sound_value(
            env,
            table,
            #[trigger] env.frames[i].bindings[n],
        )
}

/// The frame `after` binds every name that the frame `before` binds, and has
/// the same ancestor.
pub open spec fn frame_grows(before: FrameView, after: FrameView) -> bool {
    &&& after.ancestor == before.ancestor
    &&& forall|n: Seq<char>| before.bindings.contains_key(n) ==> #[trigger] after.bindings.contains_key(n)
}

/// Every frame of `before` is in `after`, with the same ancestor and with at
/// least the same names.
pub open spec fn grows(before: EnvironmentView, after: EnvironmentView) -> bool {
    &&& after.frames.len() >= before.frames.len()
    &&& forall|i: int| 0 <= i < before.frames.len() ==> frame_grows(before.frames[i], #[trigger] after.frames[i])
}

/// A runtime error other than a resolved variable that is missing.
pub open spec fn found(error: RuntimeErrorView) -> bool {
    error.kind != RuntimeErrorKind::MissingLocal
}

/// A function that some scopes witness is sound.
pub proof fn lemma_witnessed(
    env: EnvironmentView,
    table: Map<usize, nat>,
    declaration: FunctionView,
    closure: int,
    scopes: Scopes,
)
    requires
        witnesses(env, table, declaration, closure, scopes),
    ensures
        sound_value(env, table, ValueView::Callable(CallableView::Function { declaration, closure })),
{
}

/// An environment has grown from itself.
pub proof fn lemma_grows_reflexive(env: EnvironmentView)
    ensures
        grows(env, env),
{
}

/// Growing twice is growing.
pub proof fn lemma_grows_transitive(a: EnvironmentView, b: EnvironmentView, c: EnvironmentView)
    requires
        grows(a, b),
        grows(b, c),
    ensures
        grows(a, c),
{
    assert forall|i: int| 0 <= i < a.frames.len() implies frame_grows(a.frames[i], #[trigger] c.frames[i]) by {
        assert(frame_grows(a.frames[i], b.frames[i]));
        assert(frame_grows(b.frames[i], c.frames[i]));
    }
}

/// What the frames cover, they still cover after they have grown.
pub proof fn lemma_covers_grows(before: EnvironmentView, after: EnvironmentView, frame: int, scopes: Scopes)
    requires
        grows(before, after),
        covers(before, frame, scopes),
    ensures
        covers(after, frame, scopes),
    decreases scopes.len(),
{
    if scopes.len() > 0 {
        assert(frame_grows(before.frames[frame], after.frames[frame]));
        if scopes.len() > 1 {
            lemma_covers_grows(before, after, before.frames[frame].ancestor->0, scopes.drop_last());
        }
    }
}

/// A sound value is still sound after the frames have grown.
pub proof fn lemma_sound_value_grows(
    before: EnvironmentView,
    after: EnvironmentView,
    table: Map<usize, nat>,
    value: ValueView,
)
    requires
        grows(before, after),
        sound_value(before, table, value),
    ensures
        sound_value(after, table, value),
{
    match value {
        ValueView::Callable(CallableView::Function { declaration, closure }) => {
            let scopes = choose|scopes: Scopes| witnesses(before, table, declaration, closure, scopes);
            lemma_covers_grows(before, after, closure, scopes);
            assert(witnesses(after, table, declaration, closure, scopes));
        },
        _ => {},
    }
}

/// Counting the scopes to skip from one scope further out is counting them
/// in the scopes without the innermost.
pub proof fn lemma_distance_outward(scopes: Scopes, name: Seq<char>, hops: nat)
    requires
        scopes.len() > 0,
    ensures
        distance(scopes, name, hops + 1) == match distance(scopes.drop_last(), name, hops) {
            Some(d) => Some(d + 1),
            None => None,
        },
    decreases scopes.len() - hops,
{
    let outer = scopes.drop_last();
    if hops + 1 < scopes.len() {
        assert(outer[outer.len() - 1 - hops] == scopes[scopes.len() - 1 - (hops + 1)]);
        if !scopes[scopes.len() - 1 - (hops + 1)].contains_key(name) {
            lemma_distance_outward(scopes, name, hops + 1);
        }
    }
}

/// A name that the scopes hold at some distance is bound in the frame at that
/// distance.
pub proof fn lemma_covered_is_bound(env: EnvironmentView, frame: int, scopes: Scopes, name: Seq<char>)
    requires
        covers(env, frame, scopes),
        outer_settled(scopes),
        !unready(scopes, name),
        distance(scopes, name, 0) is Some,
    ensures
        env.hop(frame, distance(scopes, name, 0)->0) is Some,
        env.frames[env.hop(frame, distance(scopes, name, 0)->0)->0].bindings.contains_key(name),
    decreases scopes.len(),
{
    if scopes.len() > 0 {
        if scopes.last().contains_key(name) {
            assert(scopes.last()[name]);
        } else {
            lemma_distance_outward(scopes, name, 0);
            let outer = scopes.drop_last();
            assert(distance(outer, name, 0) is Some);
            assert(outer.len() > 0);
            assert(outer_settled(outer)) by {
                assert forall|i: int| 0 <= i < outer.len() - 1 implies all_ready(#[trigger] outer[i]) by {
                    assert(outer[i] == scopes[i]);
                }
            }
            assert(all_ready(scopes[scopes.len() - 2]));
            assert(outer.last() == scopes[scopes.len() - 2]);
            lemma_covered_is_bound(env, env.frames[frame].ancestor->0, outer, name);
        }
    }
}

/// Binding a sound value in a frame keeps the environment sound.
pub proof fn lemma_bind(env: EnvironmentView, table: Map<usize, nat>, index: int, name: Seq<char>, value: ValueView)
    requires
        env.wf(),
        sound_env(env, table),
        sound_value(env, table, value),
        0 <= index < env.frames.len(),
    ensures
        env.bind(index, name, value).wf(),
        grows(env, env.bind(index, name, value)),
        sound_env(env.bind(index, name, value), table),
        env.bind(index, name, value).current == env.current,
        env.bind(index, name, value).depth == env.depth,
        env.bind(index, name, value).frames.len() == env.frames.len(),
        env.bind(index, name, value).frames[index].bindings.contains_key(name),
{
    let after = env.bind(index, name, value);
    assert(grows(env, after));
    assert forall|i: int, n: Seq<char>|
        0 <= i < after.frames.len() && after.frames[i].bindings.contains_key(n) implies sound_value(
        after,
        table,
        #[trigger] after.frames[i].bindings[n],
    ) by {
        if i == index && n == name {
            lemma_sound_value_grows(env, after, table, value);
        } else {
            assert(env.frames[i].bindings.contains_key(n));
            assert(after.frames[i].bindings[n] == env.frames[i].bindings[n]);
            lemma_sound_value_grows(env, after, table, env.frames[i].bindings[n]);
        }
    }
}

/// Entering a scope keeps the environment sound; the new frame is empty and
/// current.
pub proof fn lemma_enter(env: EnvironmentView, table: Map<usize, nat>, ancestor: int)
    requires
        env.wf(),
        sound_env(env, table),
        0 <= ancestor < env.frames.len(),
    ensures
        env.enter(ancestor).wf(),
        grows(env, env.enter(ancestor)),
        sound_env(env.enter(ancestor), table),
        env.enter(ancestor).current == env.frames.len(),
        env.enter(ancestor).depth == env.depth + 1,
        env.enter(ancestor).frames.len() == env.frames.len() + 1,
        env.enter(ancestor).frames[env.frames.len() as int].ancestor == Some(ancestor),
        env.enter(ancestor).frames[env.frames.len() as int].bindings == Map::<Seq<char>, ValueView>::empty(),
{
    let after = env.enter(ancestor);
    assert(grows(env, after));
    assert forall|i: int, n: Seq<char>|
        0 <= i < after.frames.len() && after.frames[i].bindings.contains_key(n) implies sound_value(
        after,
        table,
        #[trigger] after.frames[i].bindings[n],
    ) by {
        assert(i < env.frames.len());
        assert(after.frames[i] == env.frames[i]);
        lemma_sound_value_grows(env, after, table, env.frames[i].bindings[n]);
    }
}

/// Leaving a scope for a frame of the environment keeps it sound.
pub proof fn lemma_leave(env: EnvironmentView, table: Map<usize, nat>, cursor: int)
    requires
        env.wf(),
        sound_env(env, table),
        0 <= cursor < env.frames.len(),
        env.depth > 0,
    ensures
        env.leave(cursor).wf(),
        grows(env, env.leave(cursor)),
        grows(env.leave(cursor), env),
        sound_env(env.leave(cursor), table),
        env.leave(cursor).current == cursor,
        env.leave(cursor).depth == env.depth - 1,
{
    let after = env.leave(cursor);
    assert(grows(env, after));
    assert forall|i: int, n: Seq<char>|
        0 <= i < after.frames.len() && after.frames[i].bindings.contains_key(n) implies sound_value(
        after,
        table,
        #[trigger] after.frames[i].bindings[n],
    ) by {
        lemma_sound_value_grows(env, after, table, env.frames[i].bindings[n]);
    }
}

/// The machine is fit to run what was resolved in `scopes`: its environment
/// is sound, and the frames from the current one on cover the scopes.
pub open spec fn fit(m: Machine, table: Map<usize, nat>, scopes: Scopes) -> bool {
    &&& m.env.wf()
    &&& sound_env(m.env, table)
    &&& covers(m.env, m.env.current, scopes)
}

/// What every step keeps: the environment is sound and has only grown, and
/// the frame that was current is current.
pub open spec fn kept(before: Machine, after: Machine, table: Map<usize, nat>) -> bool {
    &&& after.env.wf()
    &&& grows(before.env, after.env)
    &&& after.env.current == before.env.current
    &&& after.env.depth == before.env.depth
    &&& sound_env(after.env, table)
}

/// An evaluation that missed no resolved variable and gave a sound value.
pub open spec fn well_evaluated(before: Machine, r: Evaluated, table: Map<usize, nat>) -> bool {
    &&& kept(before, r.machine, table)
    &&& match r.result {
        Ok(value) => sound_value(r.machine.env, table, value),
        Err(error) => found(error),
    }
}

/// An execution that missed no resolved variable; where it ended normally, the
/// frames cover the scopes behind the statement.
pub open spec fn well_executed(before: Machine, r: Executed, table: Map<usize, nat>, scopes: Scopes) -> bool {
    &&& kept(before, r.machine, table)
    &&& match r.signal {
        Signal::Normal => covers(r.machine.env, r.machine.env.current, scopes),
        Signal::Return(value) => sound_value(r.machine.env, table, value),
        Signal::Error(error) => found(error),
    }
}

proof fn lemma_kept_then(a: Machine, b: Machine, c: Machine, table: Map<usize, nat>)
    requires
        kept(a, b, table),
        kept(b, c, table),
    ensures
        kept(a, c, table),
{
    lemma_grows_transitive(a.env, b.env, c.env);
}

proof fn lemma_fit_kept(a: Machine, b: Machine, table: Map<usize, nat>, scopes: Scopes)
    requires
        fit(a, table, scopes),
        kept(a, b, table),
    ensures
        fit(b, table, scopes),
{
    lemma_covers_grows(a.env, b.env, a.env.current, scopes);
}

/// Reading a variable misses no resolved one, and gives a sound value.
pub proof fn lemma_lookup(setting: Setting, env: EnvironmentView, name: TokenView, id: usize, scopes: Scopes)
    requires
        env.wf(),
        sound_env(env, setting.locals),
        covers(env, env.current, scopes),
        outer_settled(scopes),
        noted(setting.locals, scopes, id, name.lexeme),
    ensures
        match lookup(setting, env, name, id) {
            Ok(value) => sound_value(env, setting.locals, value),
            Err(error) => found(error),
        },
{
    if setting.locals.contains_key(id) {
        lemma_covered_is_bound(env, env.current, scopes, name.lexeme);
        let index = env.hop(env.current, setting.locals[id])->0;
        lemma_hop_in_range(env, env.current, setting.locals[id]);
        assert(sound_value(env, setting.locals, env.frames[index].bindings[name.lexeme]));
    } else {
        if env.frames[0].bindings.contains_key(name.lexeme) {
            assert(sound_value(env, setting.locals, env.frames[0].bindings[name.lexeme]));
        }
    }
}

/// Writing a variable misses no resolved one, and keeps the environment
/// sound.
pub proof fn lemma_store(
    setting: Setting,
    env: EnvironmentView,
    name: TokenView,
    id: usize,
    value: ValueView,
    scopes: Scopes,
)
    requires
        env.wf(),
        sound_env(env, setting.locals),
        sound_value(env, setting.locals, value),
        covers(env, env.current, scopes),
        outer_settled(scopes),
        noted(setting.locals, scopes, id, name.lexeme),
    ensures
        match store(setting, env, name, id, value) {
            Ok(after) => {
                &&& after.wf()
                &&& grows(env, after)
                &&& after.current == env.current
                &&& after.depth == env.depth
                &&& sound_env(after, setting.locals)
            },
            Err(error) => found(error),
        },
{
    if setting.locals.contains_key(id) {
        lemma_covered_is_bound(env, env.current, scopes, name.lexeme);
        lemma_hop_in_range(env, env.current, setting.locals[id]);
        let index = env.hop(env.current, setting.locals[id])->0;
        lemma_bind(env, setting.locals, index, name.lexeme, value);
    } else {
        if env.frames[0].bindings.contains_key(name.lexeme) {
            lemma_bind(env, setting.locals, 0, name.lexeme, value);
        }
    }
}

/// While the initializer of a name is resolved, the frames cover the scopes
/// as they did before.
pub proof fn lemma_declare(env: EnvironmentView, frame: int, scopes: Scopes, name: Seq<char>)
    requires
        covers(env, frame, scopes),
        settled(scopes),
    ensures
        covers(env, frame, declare(scopes, name)),
        outer_settled(declare(scopes, name)),
        declare(scopes, name).len() == scopes.len(),
{
    if scopes.len() > 0 {
        let marked = declare(scopes, name);
        assert(marked.drop_last() =~= scopes.drop_last());
        assert forall|n: Seq<char>| marked.last().contains_key(n) && marked.last()[n] implies #[trigger] env.frames[frame].bindings.contains_key(
            n,
        ) by {
            assert(n != name);
            assert(scopes.last().contains_key(n) && scopes.last()[n]);
        }
        assert forall|i: int| 0 <= i < marked.len() - 1 implies all_ready(#[trigger] marked[i]) by {
            assert(marked[i] == scopes[i]);
        }
    }
}

/// Once a name is bound in the frame, the frames cover the scopes with the
/// name declared and ready.
pub proof fn lemma_declared(env: EnvironmentView, frame: int, scopes: Scopes, name: Seq<char>)
    requires
        covers(env, frame, scopes),
        settled(scopes),
        scopes.len() > 0 ==> 0 <= frame < env.frames.len() && env.frames[frame].bindings.contains_key(name),
    ensures
        covers(env, frame, define(declare(scopes, name), name)),
        settled(define(declare(scopes, name), name)),
        define(declare(scopes, name), name).len() == scopes.len(),
{
    if scopes.len() > 0 {
        let marked = define(declare(scopes, name), name);
        assert(marked.drop_last() =~= scopes.drop_last());
        assert forall|n: Seq<char>| marked.last().contains_key(n) && marked.last()[n] implies #[trigger] env.frames[frame].bindings.contains_key(
            n,
        ) by {
            if n != name {
                assert(scopes.last().contains_key(n) && scopes.last()[n]);
            }
        }
        assert forall|i: int| 0 <= i < marked.len() implies all_ready(#[trigger] marked[i]) by {
            if i < marked.len() - 1 {
                assert(marked[i] == scopes[i]);
            } else {
                assert(all_ready(scopes[i]));
                assert forall|n: Seq<char>| marked[i].contains_key(n) implies #[trigger] marked[i][n] by {
                    if n != name {
                        assert(scopes[i].contains_key(n));
                        assert(scopes[i][n]);
                    }
                }
            }
        }
    }
}

/// A declaration leaves the scopes settled.
pub proof fn lemma_after_settled(s: StmtView, scopes: Scopes)
    requires
        settled(scopes),
    ensures
        settled(after(s, scopes)),
        after(s, scopes).len() == scopes.len(),
{
    match s {
        StmtView::Var { name, initializer } => {
            lemma_settled_marked(scopes, name.lexeme);
        },
        StmtView::Function { declaration } => {
            lemma_settled_marked(scopes, declaration.name.lexeme);
        },
        _ => {},
    }
}

/// Declaring a name and making it ready leaves the scopes settled.
pub proof fn lemma_settled_marked(scopes: Scopes, name: Seq<char>)
    requires
        settled(scopes),
    ensures
        settled(define(declare(scopes, name), name)),
        define(declare(scopes, name), name).len() == scopes.len(),
{
    if scopes.len() > 0 {
        let marked = define(declare(scopes, name), name);
        assert forall|i: int| 0 <= i < marked.len() implies all_ready(#[trigger] marked[i]) by {
            if i < marked.len() - 1 {
                assert(marked[i] == scopes[i]);
            } else {
                assert(all_ready(scopes[i]));
                assert forall|n: Seq<char>| marked[i].contains_key(n) implies #[trigger] marked[i][n] by {
                    if n != name {
                        assert(scopes[i].contains_key(n));
                        assert(scopes[i][n]);
                    }
                }
            }
        }
    }
}

/// Binding the parameters to sound arguments keeps the machine fit for the
/// scopes with the parameters declared.
pub proof fn lemma_bind_params(
    env: EnvironmentView,
    table: Map<usize, nat>,
    params: Seq<TokenView>,
    args: Seq<ValueView>,
    i: int,
    scopes: Scopes,
)
    requires
        env.wf(),
        sound_env(env, table),
        sound_values(env, table, args),
        args.len() == params.len(),
        0 <= i <= params.len(),
        covers(env, env.current, scopes),
        settled(scopes),
    ensures
        bind_params(env, params, args, i).wf(),
        grows(env, bind_params(env, params, args, i)),
        sound_env(bind_params(env, params, args, i), table),
        bind_params(env, params, args, i).current == env.current,
        bind_params(env, params, args, i).depth == env.depth,
        covers(bind_params(env, params, args, i), env.current, with_params(scopes, params, i)),
        settled(with_params(scopes, params, i)),
    decreases params.len() - i,
{
    if i < params.len() {
        let name = params[i].lexeme;
        let bound = env.define(name, args[i]);
        lemma_bind(env, table, env.current, name, args[i]);
        lemma_covers_grows(env, bound, env.current, scopes);
        lemma_declared(bound, env.current, scopes, name);
        assert forall|k: int| 0 <= k < args.len() implies sound_value(bound, table, #[trigger] args[k]) by {
            lemma_sound_value_grows(env, bound, table, args[k]);
        }
        lemma_bind_params(bound, table, params, args, i + 1, define(declare(scopes, name), name));
        lemma_grows_transitive(env, bound, bind_params(bound, params, args, i + 1));
    }
}

/// Evaluating an expression that the table agrees on misses no resolved
/// variable.
pub proof fn lemma_eval(setting: Setting, e: ExprView, m: Machine, depth: nat, steps: nat, scopes: Scopes)
    requires
        fit(m, setting.locals, scopes),
        outer_settled(scopes),
        expr_agrees(e, scopes, setting.locals),
    ensures
        well_evaluated(m, eval(setting, e, m, depth, steps), setting.locals),
    decreases 3 * depth + 1, steps, e, 0int,
{
    let table = setting.locals;
    lemma_grows_reflexive(m.env);
    match e {
        ExprView::Literal { value } => {},
        ExprView::Group { expression } => {
            lemma_eval(setting, *expression, m, depth, steps, scopes);
        },
        ExprView::Variable { name, id } => {
            lemma_lookup(setting, m.env, name, id, scopes);
        },
        ExprView::Assign { name, value, id } => {
            lemma_eval(setting, *value, m, depth, steps, scopes);
            let right = eval(setting, *value, m, depth, steps);
            if let Ok(v) = right.result {
                lemma_fit_kept(m, right.machine, table, scopes);
                lemma_store(setting, right.machine.env, name, id, v, scopes);
                if let Ok(env) = store(setting, right.machine.env, name, id, v) {
                    lemma_grows_transitive(m.env, right.machine.env, env);
                    lemma_sound_value_grows(right.machine.env, env, table, v);
                }
            }
        },
        ExprView::Unary { operator, right } => {
            lemma_eval(setting, *right, m, depth, steps, scopes);
        },
        ExprView::Binary { left, operator, right } => {
            lemma_eval(setting, *left, m, depth, steps, scopes);
            let first = eval(setting, *left, m, depth, steps);
            if first.result is Ok {
                lemma_fit_kept(m, first.machine, table, scopes);
                lemma_eval(setting, *right, first.machine, depth, steps, scopes);
                let second = eval(setting, *right, first.machine, depth, steps);
                lemma_kept_then(m, first.machine, second.machine, table);
            }
        },
        ExprView::Logical { left, operator, right } => {
            lemma_eval(setting, *left, m, depth, steps, scopes);
            let first = eval(setting, *left, m, depth, steps);
            if first.result is Ok {
                lemma_fit_kept(m, first.machine, table, scopes);
                lemma_eval(setting, *right, first.machine, depth, steps, scopes);
                let second = eval(setting, *right, first.machine, depth, steps);
                lemma_kept_then(m, first.machine, second.machine, table);
            }
        },
        ExprView::Call { callee, paren, arguments } => {
            lemma_eval(setting, *callee, m, depth, steps, scopes);
            let first = eval(setting, *callee, m, depth, steps);
            if let Ok(function) = first.result {
                lemma_fit_kept(m, first.machine, table, scopes);
                lemma_eval_args(setting, arguments, 0, Seq::empty(), first.machine, depth, steps, scopes);
                let (machine, listed) = eval_args(
                    setting,
                    arguments,
                    0,
                    Seq::empty(),
                    first.machine,
                    depth,
                    steps,
                );
                lemma_kept_then(m, first.machine, machine, table);
                if let Ok(args) = listed {
                    lemma_sound_value_grows(first.machine.env, machine.env, table, function);
                    lemma_call_value(setting, function, args, paren, machine, depth, steps);
                    let called = call_value(setting, function, args, paren, machine, depth, steps);
                    lemma_kept_then(m, machine, called.machine, table);
                }
            }
        },
    }
}

/// Evaluating the arguments of a call misses no resolved variable.
pub proof fn lemma_eval_args(
    setting: Setting,
    args: Seq<ExprView>,
    i: int,
    acc: Seq<ValueView>,
    m: Machine,
    depth: nat,
    steps: nat,
    scopes: Scopes,
)
    requires
        fit(m, setting.locals, scopes),
        outer_settled(scopes),
        exprs_agree(args, scopes, setting.locals),
        sound_values(m.env, setting.locals, acc),
    ensures
        kept(m, eval_args(setting, args, i, acc, m, depth, steps).0, setting.locals),
        match eval_args(setting, args, i, acc, m, depth, steps).1 {
            Ok(values) => sound_values(
                eval_args(setting, args, i, acc, m, depth, steps).0.env,
                setting.locals,
                values,
            ),
            Err(error) => found(error),
        },
    decreases 3 * depth + 1, steps, args, args.len() - i,
{
    let table = setting.locals;
    lemma_grows_reflexive(m.env);
    if 0 <= i < args.len() {
        lemma_eval(setting, args[i], m, depth, steps, scopes);
        let first = eval(setting, args[i], m, depth, steps);
        if let Ok(value) = first.result {
            lemma_fit_kept(m, first.machine, table, scopes);
            let next = acc.push(value);
            assert forall|k: int| 0 <= k < next.len() implies sound_value(
                first.machine.env,
                table,
                #[trigger] next[k],
            ) by {
                if k < acc.len() {
                    lemma_sound_value_grows(m.env, first.machine.env, table, acc[k]);
                }
            }
            lemma_eval_args(setting, args, i + 1, next, first.machine, depth, steps, scopes);
            lemma_kept_then(
                m,
                first.machine,
                eval_args(setting, args, i + 1, next, first.machine, depth, steps).0,
                table,
            );
        }
    }
}

/// Calling a sound value with sound arguments misses no resolved variable.
pub proof fn lemma_call_value(
    setting: Setting,
    callee: ValueView,
    args: Seq<ValueView>,
    paren: TokenView,
    m: Machine,
    depth: nat,
    steps: nat,
)
    requires
        m.env.wf(),
        sound_env(m.env, setting.locals),
        sound_value(m.env, setting.locals, callee),
        sound_values(m.env, setting.locals, args),
    ensures
        well_evaluated(m, call_value(setting, callee, args, paren, m, depth, steps), setting.locals),
    decreases 3 * depth, 1int, callee, 0int,
{
    lemma_grows_reflexive(m.env);
    match callee {
        ValueView::Callable(callable) => {
            if args.len() == callable.arity() {
                match callable {
                    CallableView::Clock => {},
                    CallableView::Function { declaration, closure } => {
                        lemma_call_function(setting, declaration, closure, args, paren, m, depth, steps);
                    },
                }
            }
        },
        _ => {},
    }
}

/// Calling a sound function with sound arguments misses no resolved
/// variable.
pub proof fn lemma_call_function(
    setting: Setting,
    declaration: FunctionView,
    closure: int,
    args: Seq<ValueView>,
    paren: TokenView,
    m: Machine,
    depth: nat,
    steps: nat,
)
    requires
        m.env.wf(),
        sound_env(m.env, setting.locals),
        sound_value(
            m.env,
            setting.locals,
            ValueView::Callable(CallableView::Function { declaration, closure }),
        ),
        sound_values(m.env, setting.locals, args),
        args.len() == declaration.params.len(),
    ensures
        well_evaluated(
            m,
            call_function(setting, declaration, closure, args, paren, m, depth, steps),
            setting.locals,
        ),
    decreases 3 * depth, 0int, declaration, 0int,
{
    let table = setting.locals;
    lemma_grows_reflexive(m.env);
    if depth > 0 && 0 <= closure < m.env.frames.len() {
        let scopes = choose|scopes: Scopes| witnesses(m.env, table, declaration, closure, scopes);
        let inner = scopes.push(Map::<Seq<char>, bool>::empty());
        let opened = m.env.enter(closure);
        lemma_enter(m.env, table, closure);
        lemma_covers_grows(m.env, opened, closure, scopes);
        assert(inner.drop_last() =~= scopes);
        assert(covers(opened, opened.current, inner));
        assert(settled(inner)) by {
            assert forall|i: int| 0 <= i < inner.len() implies all_ready(#[trigger] inner[i]) by {
                if i < scopes.len() {
                    assert(inner[i] == scopes[i]);
                }
            }
        }
        assert forall|k: int| 0 <= k < args.len() implies sound_value(opened, table, #[trigger] args[k]) by {
            lemma_sound_value_grows(m.env, opened, table, args[k]);
        }
        lemma_bind_params(opened, table, declaration.params, args, 0, inner);
        let entered = bind_params(opened, declaration.params, args, 0);
        let start = Machine { env: entered, output: m.output };
        let within = with_params(inner, declaration.params, 0);
        lemma_exec_items(setting, declaration.body, 0, start, (depth - 1) as nat, steps, within);
        let body = exec_items(setting, declaration.body, 0, start, (depth - 1) as nat, steps);
        lemma_grows_transitive(m.env, opened, entered);
        lemma_grows_transitive(m.env, entered, body.machine.env);
        lemma_leave(body.machine.env, table, m.env.current);
        let left = body.machine.env.leave(m.env.current);
        lemma_grows_transitive(m.env, body.machine.env, left);
        match body.signal {
            Signal::Return(value) => {
                lemma_sound_value_grows(body.machine.env, left, table, value);
            },
            _ => {},
        }
    }
}

/// Executing the statements of a list that the table agrees on misses no
/// resolved variable.
pub proof fn lemma_exec_items(
    setting: Setting,
    stmts: Seq<StmtView>,
    i: int,
    m: Machine,
    depth: nat,
    steps: nat,
    scopes: Scopes,
)
    requires
        fit(m, setting.locals, scopes),
        settled(scopes),
        stmts_agree(stmts, i, scopes, setting.locals),
    ensures
        kept(m, exec_items(setting, stmts, i, m, depth, steps).machine, setting.locals),
        match exec_items(setting, stmts, i, m, depth, steps).signal {
            Signal::Normal => true,
            Signal::Return(value) => sound_value(
                exec_items(setting, stmts, i, m, depth, steps).machine.env,
                setting.locals,
                value,
            ),
            Signal::Error(error) => found(error),
        },
    decreases 3 * depth + 2, steps, stmts, stmts.len() - i,
{
    let table = setting.locals;
    lemma_grows_reflexive(m.env);
    if 0 <= i < stmts.len() {
        lemma_exec(setting, stmts[i], m, depth, steps, scopes);
        let first = exec(setting, stmts[i], m, depth, steps);
        if first.signal is Normal {
            lemma_after_settled(stmts[i], scopes);
            lemma_exec_items(setting, stmts, i + 1, first.machine, depth, steps, after(stmts[i], scopes));
            lemma_kept_then(
                m,
                first.machine,
                exec_items(setting, stmts, i + 1, first.machine, depth, steps).machine,
                table,
            );
        }
    }
}

/// Running a loop that the table agrees on misses no resolved variable.
pub proof fn lemma_exec_while(setting: Setting, s: StmtView, m: Machine, depth: nat, steps: nat, scopes: Scopes)
    requires
        s is While,
        fit(m, setting.locals, scopes),
        settled(scopes),
        stmt_agrees(s, scopes, setting.locals),
    ensures
        well_executed(m, exec_while(setting, s, m, depth, steps), setting.locals, scopes),
    decreases 3 * depth + 2, steps, s, 0int,
{
    let table = setting.locals;
    lemma_grows_reflexive(m.env);
    match s {
        StmtView::While { condition, body } => {
            lemma_eval(setting, condition, m, depth, steps, scopes);
            let tested = eval(setting, condition, m, depth, steps);
            lemma_fit_kept(m, tested.machine, table, scopes);
            if let Ok(value) = tested.result {
                if value.truthy() && steps > 0 {
                    lemma_exec(setting, *body, tested.machine, depth, steps, scopes);
                    let round = exec(setting, *body, tested.machine, depth, steps);
                    lemma_kept_then(m, tested.machine, round.machine, table);
                    if round.signal is Normal {
                        lemma_exec_while(setting, s, round.machine, depth, (steps - 1) as nat, scopes);
                        lemma_kept_then(
                            m,
                            round.machine,
                            exec_while(setting, s, round.machine, depth, (steps - 1) as nat).machine,
                            table,
                        );
                    }
                }
            }
        },
        _ => {},
    }
}

/// Executing a statement that the table agrees on misses no resolved
/// variable.
pub proof fn lemma_exec(setting: Setting, s: StmtView, m: Machine, depth: nat, steps: nat, scopes: Scopes)
    requires
        fit(m, setting.locals, scopes),
        settled(scopes),
        stmt_agrees(s, scopes, setting.locals),
    ensures
        well_executed(m, exec(setting, s, m, depth, steps), setting.locals, after(s, scopes)),
    decreases 3 * depth + 2, steps, s, 1int,
{
    match s {
        StmtView::Expression { .. } => {
            lemma_exec_expression(setting, s, m, depth, steps, scopes);
        },
        StmtView::Print { .. } => {
            lemma_exec_print(setting, s, m, depth, steps, scopes);
        },
        StmtView::Var { .. } => {
            lemma_exec_var(setting, s, m, depth, steps, scopes);
        },
        StmtView::Block { .. } => {
            lemma_exec_block(setting, s, m, depth, steps, scopes);
        },
        StmtView::If { .. } => {
            lemma_exec_if(setting, s, m, depth, steps, scopes);
        },
        StmtView::While { condition, body } => {
            lemma_exec_while(setting, s, m, depth, steps, scopes);
        },
        StmtView::Function { .. } => {
            lemma_exec_function(setting, s, m, depth, steps, scopes);
        },
        StmtView::Return { .. } => {
            lemma_exec_return(setting, s, m, depth, steps, scopes);
        },
    }
}

/// Executing an expression statement that the table agrees on misses no resolved variable.
pub proof fn lemma_exec_expression(setting: Setting, s: StmtView, m: Machine, depth: nat, steps: nat, scopes: Scopes)
    requires
        s is Expression,
        fit(m, setting.locals, scopes),
        settled(scopes),
        stmt_agrees(s, scopes, setting.locals),
    ensures
        well_executed(m, exec(setting, s, m, depth, steps), setting.locals, after(s, scopes)),
    decreases 3 * depth + 2, steps, s, 0int,
{
    let table = setting.locals;
    lemma_grows_reflexive(m.env);
    match s {
        StmtView::Expression { expression } => {
            lemma_eval(setting, expression, m, depth, steps, scopes);
            lemma_fit_kept(m, eval(setting, expression, m, depth, steps).machine, table, scopes);
        },
        _ => {},
    }
}

/// Executing a `print` statement that the table agrees on misses no resolved variable.
pub proof fn lemma_exec_print(setting: Setting, s: StmtView, m: Machine, depth: nat, steps: nat, scopes: Scopes)
    requires
        s is Print,
        fit(m, setting.locals, scopes),
        settled(scopes),
        stmt_agrees(s, scopes, setting.locals),
    ensures
        well_executed(m, exec(setting, s, m, depth, steps), setting.locals, after(s, scopes)),
    decreases 3 * depth + 2, steps, s, 0int,
{
    let table = setting.locals;
    lemma_grows_reflexive(m.env);
    match s {
        StmtView::Print { expression } => {
            lemma_eval(setting, expression, m, depth, steps, scopes);
            lemma_fit_kept(m, eval(setting, expression, m, depth, steps).machine, table, scopes);
        },
        _ => {},
    }
}

/// Executing a variable declaration that the table agrees on misses no resolved variable.
pub proof fn lemma_exec_var(setting: Setting, s: StmtView, m: Machine, depth: nat, steps: nat, scopes: Scopes)
    requires
        s is Var,
        fit(m, setting.locals, scopes),
        settled(scopes),
        stmt_agrees(s, scopes, setting.locals),
    ensures
        well_executed(m, exec(setting, s, m, depth, steps), setting.locals, after(s, scopes)),
    decreases 3 * depth + 2, steps, s, 0int,
{
    let table = setting.locals;
    lemma_grows_reflexive(m.env);
    match s {
        StmtView::Var { name, initializer } => {
            lemma_declare(m.env, m.env.current, scopes, name.lexeme);
            let opened = declare(scopes, name.lexeme);
            match initializer {
                Some(e) => {
                    lemma_eval(setting, e, m, depth, steps, opened);
                },
                None => {},
            }
            let value = eval_option(setting, initializer, m, depth, steps);
            if let Ok(v) = value.result {
                lemma_fit_kept(m, value.machine, table, scopes);
                lemma_bind(value.machine.env, table, value.machine.env.current, name.lexeme, v);
                let bound = value.machine.env.define(name.lexeme, v);
                lemma_covers_grows(value.machine.env, bound, bound.current, scopes);
                lemma_declared(bound, bound.current, scopes, name.lexeme);
                lemma_grows_transitive(m.env, value.machine.env, bound);
            }
        },
        _ => {},
    }
}

/// Executing a block that the table agrees on misses no resolved variable.
pub proof fn lemma_exec_block(setting: Setting, s: StmtView, m: Machine, depth: nat, steps: nat, scopes: Scopes)
    requires
        s is Block,
        fit(m, setting.locals, scopes),
        settled(scopes),
        stmt_agrees(s, scopes, setting.locals),
    ensures
        well_executed(m, exec(setting, s, m, depth, steps), setting.locals, after(s, scopes)),
    decreases 3 * depth + 2, steps, s, 0int,
{
    let table = setting.locals;
    lemma_grows_reflexive(m.env);
    match s {
        StmtView::Block { statements } => {
            let inner = scopes.push(Map::<Seq<char>, bool>::empty());
            let opened = m.env.enter_scope(false);
            lemma_enter(m.env, table, m.env.current);
            lemma_covers_grows(m.env, opened, m.env.current, scopes);
            assert(inner.drop_last() =~= scopes);
            assert(covers(opened, opened.current, inner));
            assert(settled(inner)) by {
                assert forall|i: int| 0 <= i < inner.len() implies all_ready(#[trigger] inner[i]) by {
                    if i < scopes.len() {
                        assert(inner[i] == scopes[i]);
                    }
                }
            }
            let start = Machine { env: opened, output: m.output };
            lemma_exec_items(setting, statements, 0, start, depth, steps, inner);
            let body = exec_items(setting, statements, 0, start, depth, steps);
            assert(frame_grows(opened.frames[opened.current], body.machine.env.frames[opened.current]));
            lemma_leave(body.machine.env, table, m.env.current);
            let left = body.machine.env.exit_scope();
            lemma_grows_transitive(m.env, opened, body.machine.env);
            lemma_grows_transitive(m.env, body.machine.env, left);
            lemma_covers_grows(m.env, left, m.env.current, scopes);
            match body.signal {
                Signal::Return(value) => {
                    lemma_sound_value_grows(body.machine.env, left, table, value);
                },
                _ => {},
            }
        },
        _ => {},
    }
}

/// Executing an `if` statement that the table agrees on misses no resolved variable.
pub proof fn lemma_exec_if(setting: Setting, s: StmtView, m: Machine, depth: nat, steps: nat, scopes: Scopes)
    requires
        s is If,
        fit(m, setting.locals, scopes),
        settled(scopes),
        stmt_agrees(s, scopes, setting.locals),
    ensures
        well_executed(m, exec(setting, s, m, depth, steps), setting.locals, after(s, scopes)),
    decreases 3 * depth + 2, steps, s, 0int,
{
    let table = setting.locals;
    lemma_grows_reflexive(m.env);
    match s {
        StmtView::If { condition, then_branch, else_branch } => {
            lemma_eval(setting, condition, m, depth, steps, scopes);
            let tested = eval(setting, condition, m, depth, steps);
            lemma_fit_kept(m, tested.machine, table, scopes);
            if let Ok(value) = tested.result {
                if value.truthy() {
                    lemma_exec(setting, *then_branch, tested.machine, depth, steps, scopes);
                    lemma_kept_then(
                        m,
                        tested.machine,
                        exec(setting, *then_branch, tested.machine, depth, steps).machine,
                        table,
                    );
                } else {
                    match else_branch {
                        Some(else_branch) => {
                            lemma_exec(setting, *else_branch, tested.machine, depth, steps, scopes);
                            lemma_kept_then(
                                m,
                                tested.machine,
                                exec(setting, *else_branch, tested.machine, depth, steps).machine,
                                table,
                            );
                        },
                        None => {},
                    }
                }
            }
        },
        _ => {},
    }
}

/// Executing a function declaration that the table agrees on misses no resolved variable.
pub proof fn lemma_exec_function(setting: Setting, s: StmtView, m: Machine, depth: nat, steps: nat, scopes: Scopes)
    requires
        s is Function,
        fit(m, setting.locals, scopes),
        settled(scopes),
        stmt_agrees(s, scopes, setting.locals),
    ensures
        well_executed(m, exec(setting, s, m, depth, steps), setting.locals, after(s, scopes)),
    decreases 3 * depth + 2, steps, s, 0int,
{
    let table = setting.locals;
    lemma_grows_reflexive(m.env);
    match s {
        StmtView::Function { declaration } => {
            let name = declaration.name.lexeme;
            let value = ValueView::Callable(CallableView::Function { declaration, closure: m.env.current });
            let bound = m.env.define(name, value);
            let marked = define(declare(scopes, name), name);
            // The function is sound in the environment that binds it.
            assert(grows(m.env, bound));
            lemma_covers_grows(m.env, bound, m.env.current, scopes);
            lemma_declared(bound, m.env.current, scopes, name);
            lemma_witnessed(bound, table, declaration, m.env.current, marked);
            assert forall|i: int, n: Seq<char>|
                0 <= i < bound.frames.len() && bound.frames[i].bindings.contains_key(n) implies sound_value(
                bound,
                table,
                #[trigger] bound.frames[i].bindings[n],
            ) by {
                if !(i == m.env.current && n == name) {
                    assert(m.env.frames[i].bindings.contains_key(n));
                    assert(bound.frames[i].bindings[n] == m.env.frames[i].bindings[n]);
                    lemma_sound_value_grows(m.env, bound, table, m.env.frames[i].bindings[n]);
                }
            }
        },
        _ => {},
    }
}

/// Executing a `return` statement that the table agrees on misses no resolved variable.
pub proof fn lemma_exec_return(setting: Setting, s: StmtView, m: Machine, depth: nat, steps: nat, scopes: Scopes)
    requires
        s is Return,
        fit(m, setting.locals, scopes),
        settled(scopes),
        stmt_agrees(s, scopes, setting.locals),
    ensures
        well_executed(m, exec(setting, s, m, depth, steps), setting.locals, after(s, scopes)),
    decreases 3 * depth + 2, steps, s, 0int,
{
    let table = setting.locals;
    lemma_grows_reflexive(m.env);
    match s {
        StmtView::Return { keyword, value } => {
            match value {
                Some(e) => {
                    lemma_eval(setting, e, m, depth, steps, scopes);
                },
                None => {},
            }
            let returned = eval_option(setting, value, m, depth, steps);
            assert(well_evaluated(m, returned, table));
        },
        _ => {},
    }
}

} // verus!
