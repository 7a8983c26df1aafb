//! The meaning of a program: what evaluating an expression and executing a
//! statement do to the environment and to the output.
//!
//! Evaluation is defined for two budgets. `depth` is the number of nested
//! calls still allowed: a call made when it is zero fails with a stack
//! overflow. `steps` is the number of rounds still allowed to a loop: a round
//! begun when it is zero fails. Both are there to make every evaluation end.

use vstd::prelude::*;
use crate::ast::{ExprView, FunctionView, StmtView};
use crate::environment::EnvironmentView;
use crate::errors::{RuntimeErrorKind, RuntimeErrorView};
use crate::function::CallableView;
use crate::number;
use crate::token::{TokenType, TokenView};
use crate::value::ValueView;

verus! {

/// What stays the same while a program runs.
pub struct Setting {
    /// The table of resolved distances.
    pub locals: Map<usize, nat>,
    /// What `clock` returns: seconds since the Unix epoch, as a binary64
    /// pattern.
    pub clock: u64,
}

/// What a running program changes.
pub struct Machine {
    pub env: EnvironmentView,
    /// The lines printed so far.
    pub output: Seq<Seq<char>>,
}

/// How the execution of a statement ended.
pub enum Signal {
    /// The statement ran to its end.
    Normal,
    /// A `return` is unwinding to the call that it ends.
    Return(ValueView),
    /// A runtime error is unwinding to the top.
    Error(RuntimeErrorView),
}

/// The outcome of evaluating an expression.
pub struct Evaluated {
    pub machine: Machine,
    pub result: Result<ValueView, RuntimeErrorView>,
}

/// The outcome of executing a statement.
pub struct Executed {
    pub machine: Machine,
    pub signal: Signal,
}

/// Reading the variable of the node `id`: in the frame at the resolved
/// distance where the node has one, else in the global frame.
pub open spec fn lookup(setting: Setting, env: EnvironmentView, name: TokenView, id: usize) -> Result<
    ValueView,
    RuntimeErrorView,
> {
    if setting.locals.contains_key(id) {
        match env.get_at(setting.locals[id], name.lexeme) {
            Some(value) => Ok(value),
            None => Err(RuntimeErrorView::at(name, RuntimeErrorKind::MissingLocal)),
        }
    } else {
        match env.get_global(name.lexeme) {
            Some(value) => Ok(value),
            None => Err(RuntimeErrorView::at(name, RuntimeErrorKind::UndefinedVariable)),
        }
    }
}

/// Writing the variable of the node `id`: in the frame at the resolved
/// distance where the node has one, else in the global frame.
pub open spec fn store(
    setting: Setting,
    env: EnvironmentView,
    name: TokenView,
    id: usize,
    value: ValueView,
) -> Result<EnvironmentView, RuntimeErrorView> {
    if setting.locals.contains_key(id) {
        match env.assign_at(setting.locals[id], name.lexeme, value) {
            Some(env) => Ok(env),
            None => Err(RuntimeErrorView::at(name, RuntimeErrorKind::MissingLocal)),
        }
    } else {
        match env.assign_global(name.lexeme, value) {
            Some(env) => Ok(env),
            None => Err(RuntimeErrorView::at(name, RuntimeErrorKind::UndefinedVariable)),
        }
    }
}

/// The value of a unary operator applied to a value.
pub open spec fn unary_op(operator: TokenView, right: ValueView) -> Result<ValueView, RuntimeErrorView> {
    if operator.kind == TokenType::BANG {
        Ok(ValueView::Bool(!right.truthy()))
    } else if operator.kind == TokenType::MINUS {
        match right {
            ValueView::Number(bits) => Ok(ValueView::Number(number::spec_negate(bits))),
            _ => Err(RuntimeErrorView::at(operator, RuntimeErrorKind::OperandMustBeNumber)),
        }
    } else {
        Err(RuntimeErrorView::at(operator, RuntimeErrorKind::UnknownOperator))
    }
}

/// The value of an arithmetic or comparison operator applied to two numbers.
pub open spec fn numeric_op(kind: TokenType, a: u64, b: u64) -> ValueView {
    if kind == TokenType::GREATER {
        ValueView::Bool(number::spec_less(b, a))
    } else if kind == TokenType::GREATEREQUAL {
        ValueView::Bool(number::spec_less_equal(b, a))
    } else if kind == TokenType::LESS {
        ValueView::Bool(number::spec_less(a, b))
    } else if kind == TokenType::LESSEQUAL {
        ValueView::Bool(number::spec_less_equal(a, b))
    } else if kind == TokenType::MINUS {
        ValueView::Number(number::difference_bits(a, b))
    } else if kind == TokenType::SLASH {
        ValueView::Number(number::quotient_bits(a, b))
    } else if kind == TokenType::STAR {
        ValueView::Number(number::product_bits(a, b))
    } else {
        ValueView::Number(number::sum_bits(a, b))
    }
}

/// Whether a token kind is an operator that takes two numbers and nothing
/// else.
pub open spec fn is_numeric_operator(kind: TokenType) -> bool {
    kind == TokenType::GREATER || kind == TokenType::GREATEREQUAL || kind == TokenType::LESS || kind
        == TokenType::LESSEQUAL || kind == TokenType::MINUS || kind == TokenType::SLASH || kind
        == TokenType::STAR
}

/// The value of a binary operator applied to two values.
pub open spec fn binary_op(operator: TokenView, left: ValueView, right: ValueView) -> Result<
    ValueView,
    RuntimeErrorView,
> {
    let kind = operator.kind;
    if kind == TokenType::EQUALEQUAL {
        Ok(ValueView::Bool(left.equals(right)))
    } else if kind == TokenType::BANGEQUAL {
        Ok(ValueView::Bool(!left.equals(right)))
    } else if kind == TokenType::PLUS {
        match (left, right) {
            (ValueView::Number(a), ValueView::Number(b)) => Ok(numeric_op(kind, a, b)),
            (ValueView::Text(a), ValueView::Text(b)) => Ok(ValueView::Text(a + b)),
            _ => Err(RuntimeErrorView::at(operator, RuntimeErrorKind::OperandsMustBeTwoNumbersOrTwoStrings)),
        }
    } else if is_numeric_operator(kind) {
        match (left, right) {
            (ValueView::Number(a), ValueView::Number(b)) => Ok(numeric_op(kind, a, b)),
            _ => Err(RuntimeErrorView::at(operator, RuntimeErrorKind::OperandsMustBeNumbers)),
        }
    } else {
        Err(RuntimeErrorView::at(operator, RuntimeErrorKind::UnknownOperator))
    }
}

/// Whether the left operand of `and` or `or` settles the result: a truthy one
/// does for `or`, a falsy one for every other operator token, which stands for
/// `and`.
pub open spec fn settles(operator: TokenView, left: ValueView) -> bool {
    if operator.kind == TokenType::OR {
        left.truthy()
    } else {
        !left.truthy()
    }
}

/// The environment with the parameters `params[i..]` bound, in the current
/// frame, to the arguments at the same places.
pub open spec fn bind_params(env: EnvironmentView, params: Seq<TokenView>, args: Seq<ValueView>, i: int) -> EnvironmentView
    decreases params.len() - i,
{
    if !(0 <= i < params.len()) {
        env
    } else {
        bind_params(env.define(params[i].lexeme, args[i]), params, args, i + 1)
    }
}

/// What a call returns for the way its body ended.
pub open spec fn call_result(signal: Signal) -> Result<ValueView, RuntimeErrorView> {
    match signal {
        Signal::Normal => Ok(ValueView::Nil),
        Signal::Return(value) => Ok(value),
        Signal::Error(error) => Err(error),
    }
}

/// Calls a function of the program. A new frame, whose ancestor is the frame
/// that the function was declared in, becomes current; the parameters are
/// bound in it, and the body runs in it. However the body ends, the frame that
/// was current before the call is current after it.
pub open spec fn call_function(
    setting: Setting,
    declaration: FunctionView,
    closure: int,
    args: Seq<ValueView>,
    paren: TokenView,
    m: Machine,
    depth: nat,
    steps: nat,
) -> Evaluated
    decreases 3 * depth, 0int, declaration, 0int,
{
    if depth == 0 {
        Evaluated { machine: m, result: Err(RuntimeErrorView::at(paren, RuntimeErrorKind::StackOverflow)) }
    } else if !(0 <= closure < m.env.frames.len()) {
        Evaluated { machine: m, result: Err(RuntimeErrorView::at(paren, RuntimeErrorKind::LostClosure)) }
    } else {
        let entered = bind_params(m.env.enter(closure), declaration.params, args, 0);
        let body = exec_items(
            setting,
            declaration.body,
            0,
            Machine { env: entered, output: m.output },
            (depth - 1) as nat,
            steps,
        );
        Evaluated {
            machine: Machine { env: body.machine.env.leave(m.env.current), output: body.machine.output },
            result: call_result(body.signal),
        }
    }
}

/// Calls a value with arguments already evaluated.
pub open spec fn call_value(
    setting: Setting,
    callee: ValueView,
    args: Seq<ValueView>,
    paren: TokenView,
    m: Machine,
    depth: nat,
    steps: nat,
) -> Evaluated
    decreases 3 * depth, 1int, callee, 0int,
{
    match callee {
        ValueView::Callable(callable) => if args.len() != callable.arity() {
            Evaluated {
                machine: m,
                result: Err(
                    RuntimeErrorView::at(
                        paren,
                        RuntimeErrorKind::WrongArity {
                            expected: callable.arity() as usize,
                            got: args.len() as usize,
                        },
                    ),
                ),
            }
        } else {
            match callable {
                CallableView::Clock => Evaluated { machine: m, result: Ok(ValueView::Number(setting.clock)) },
                CallableView::Function { declaration, closure } => call_function(
                    setting,
                    declaration,
                    closure,
                    args,
                    paren,
                    m,
                    depth,
                    steps,
                ),
            }
        },
        _ => Evaluated { machine: m, result: Err(RuntimeErrorView::at(paren, RuntimeErrorKind::NotCallable)) },
    }
}

/// Evaluates the arguments `args[i..]` of a call from left to right: `acc`
/// holds the values of those before.
pub open spec fn eval_args(
    setting: Setting,
    args: Seq<ExprView>,
    i: int,
    acc: Seq<ValueView>,
    m: Machine,
    depth: nat,
    steps: nat,
) -> (Machine, Result<Seq<ValueView>, RuntimeErrorView>)
    decreases 3 * depth + 1, steps, args, args.len() - i,
{
    if !(0 <= i < args.len()) {
        (m, Ok(acc))
    } else {
        let first = eval(setting, args[i], m, depth, steps);
        match first.result {
            Ok(value) => eval_args(setting, args, i + 1, acc.push(value), first.machine, depth, steps),
            Err(error) => (first.machine, Err(error)),
        }
    }
}

/// Evaluates an expression: operands before operators, from left to right.
pub open spec fn eval(setting: Setting, e: ExprView, m: Machine, depth: nat, steps: nat) -> Evaluated
    decreases 3 * depth + 1, steps, e, 0int,
{
    match e {
        ExprView::Literal { value } => Evaluated { machine: m, result: Ok(ValueView::of_literal(value)) },
        ExprView::Group { expression } => eval(setting, *expression, m, depth, steps),
        ExprView::Variable { name, id } => Evaluated { machine: m, result: lookup(setting, m.env, name, id) },
        ExprView::Assign { name, value, id } => {
            let right = eval(setting, *value, m, depth, steps);
            match right.result {
                Ok(value) => match store(setting, right.machine.env, name, id, value) {
                    Ok(env) => Evaluated {
                        machine: Machine { env, output: right.machine.output },
                        result: Ok(value),
                    },
                    Err(error) => Evaluated { machine: right.machine, result: Err(error) },
                },
                Err(error) => right,
            }
        },
        ExprView::Unary { operator, right } => {
            let right = eval(setting, *right, m, depth, steps);
            match right.result {
                Ok(value) => Evaluated { machine: right.machine, result: unary_op(operator, value) },
                Err(error) => right,
            }
        },
        ExprView::Binary { left, operator, right } => {
            let left = eval(setting, *left, m, depth, steps);
            match left.result {
                Ok(a) => {
                    let right = eval(setting, *right, left.machine, depth, steps);
                    match right.result {
                        Ok(b) => Evaluated { machine: right.machine, result: binary_op(operator, a, b) },
                        Err(error) => right,
                    }
                },
                Err(error) => left,
            }
        },
        ExprView::Logical { left, operator, right } => {
            let left = eval(setting, *left, m, depth, steps);
            match left.result {
                Ok(a) => if settles(operator, a) {
                    left
                } else {
                    eval(setting, *right, left.machine, depth, steps)
                },
                Err(error) => left,
            }
        },
        ExprView::Call { callee, paren, arguments } => {
            let callee = eval(setting, *callee, m, depth, steps);
            match callee.result {
                Ok(function) => {
                    let (machine, listed) = eval_args(
                        setting,
                        arguments,
                        0,
                        Seq::empty(),
                        callee.machine,
                        depth,
                        steps,
                    );
                    match listed {
                        Ok(args) => call_value(setting, function, args, paren, machine, depth, steps),
                        Err(error) => Evaluated { machine, result: Err(error) },
                    }
                },
                Err(error) => callee,
            }
        },
    }
}

/// Evaluates an expression that may be absent: its value is `nil` then.
pub open spec fn eval_option(setting: Setting, e: Option<ExprView>, m: Machine, depth: nat, steps: nat) -> Evaluated
    decreases 3 * depth + 1, steps, e, 1int,
{
    match e {
        Some(e) => eval(setting, e, m, depth, steps),
        None => Evaluated { machine: m, result: Ok(ValueView::Nil) },
    }
}

/// Executes the statements `stmts[i..]` in order, up to the first that does
/// not end normally.
pub open spec fn exec_items(
    setting: Setting,
    stmts: Seq<StmtView>,
    i: int,
    m: Machine,
    depth: nat,
    steps: nat,
) -> Executed
    decreases 3 * depth + 2, steps, stmts, stmts.len() - i,
{
    if !(0 <= i < stmts.len()) {
        Executed { machine: m, signal: Signal::Normal }
    } else {
        let first = exec(setting, stmts[i], m, depth, steps);
        match first.signal {
            Signal::Normal => exec_items(setting, stmts, i + 1, first.machine, depth, steps),
            _ => first,
        }
    }
}

/// Runs a `while` statement: the condition is evaluated before every round,
/// and a round that does not end normally ends the loop.
pub open spec fn exec_while(setting: Setting, s: StmtView, m: Machine, depth: nat, steps: nat) -> Executed
    decreases 3 * depth + 2, steps, s, 0int,
{
    match s {
        StmtView::While { condition, body } => {
            let tested = eval(setting, condition, m, depth, steps);
            match tested.result {
                Err(error) => Executed { machine: tested.machine, signal: Signal::Error(error) },
                Ok(value) => if !value.truthy() {
                    Executed { machine: tested.machine, signal: Signal::Normal }
                } else if steps == 0 {
                    Executed {
                        machine: tested.machine,
                        signal: Signal::Error(
                            RuntimeErrorView { kind: RuntimeErrorKind::LoopLimit, token: None },
                        ),
                    }
                } else {
                    let round = exec(setting, *body, tested.machine, depth, steps);
                    match round.signal {
                        Signal::Normal => exec_while(setting, s, round.machine, depth, (steps - 1) as nat),
                        _ => round,
                    }
                },
            }
        },
        _ => Executed { machine: m, signal: Signal::Normal },
    }
}

/// Executes a statement.
pub open spec fn exec(setting: Setting, s: StmtView, m: Machine, depth: nat, steps: nat) -> Executed
    decreases 3 * depth + 2, steps, s, 1int,
{
    match s {
        StmtView::Expression { expression } => {
            let value = eval(setting, expression, m, depth, steps);
            match value.result {
                Ok(_) => Executed { machine: value.machine, signal: Signal::Normal },
                Err(error) => Executed { machine: value.machine, signal: Signal::Error(error) },
            }
        },
        StmtView::Print { expression } => {
            let value = eval(setting, expression, m, depth, steps);
            match value.result {
                Ok(value_) => Executed {
                    machine: Machine { env: value.machine.env, output: value.machine.output.push(value_.text()) },
                    signal: Signal::Normal,
                },
                Err(error) => Executed { machine: value.machine, signal: Signal::Error(error) },
            }
        },
        StmtView::Var { name, initializer } => {
            let value = eval_option(setting, initializer, m, depth, steps);
            match value.result {
                Ok(value_) => Executed {
                    machine: Machine {
                        env: value.machine.env.define(name.lexeme, value_),
                        output: value.machine.output,
                    },
                    signal: Signal::Normal,
                },
                Err(error) => Executed { machine: value.machine, signal: Signal::Error(error) },
            }
        },
        StmtView::Block { statements } => {
            let inner = exec_items(
                setting,
                statements,
                0,
                Machine { env: m.env.enter_scope(false), output: m.output },
                depth,
                steps,
            );
            Executed {
                machine: Machine { env: inner.machine.env.exit_scope(), output: inner.machine.output },
                signal: inner.signal,
            }
        },
        StmtView::If { condition, then_branch, else_branch } => {
            let tested = eval(setting, condition, m, depth, steps);
            match tested.result {
                Ok(value) => if value.truthy() {
                    exec(setting, *then_branch, tested.machine, depth, steps)
                } else {
                    match else_branch {
                        Some(else_branch) => exec(setting, *else_branch, tested.machine, depth, steps),
                        None => Executed { machine: tested.machine, signal: Signal::Normal },
                    }
                },
                Err(error) => Executed { machine: tested.machine, signal: Signal::Error(error) },
            }
        },
        StmtView::While { condition, body } => exec_while(setting, s, m, depth, steps),
        StmtView::Function { declaration } => Executed {
            machine: Machine {
                env: m.env.define(
                    declaration.name.lexeme,
                    ValueView::Callable(
                        CallableView::Function { declaration, closure: m.env.current },
                    ),
                ),
                output: m.output,
            },
            signal: Signal::Normal,
        },
        StmtView::Return { keyword, value } => {
            let value = eval_option(setting, value, m, depth, steps);
            match value.result {
                Ok(value_) => Executed { machine: value.machine, signal: Signal::Return(value_) },
                Err(error) => Executed { machine: value.machine, signal: Signal::Error(error) },
            }
        },
    }
}

/// Runs a program: its statements in order, up to the first runtime error. A
/// `return` at the top level ends the program.
pub open spec fn run(setting: Setting, stmts: Seq<StmtView>, m: Machine, depth: nat, steps: nat) -> (Machine, Result<(), RuntimeErrorView>) {
    let done = exec_items(setting, stmts, 0, m, depth, steps);
    (
        done.machine,
        match done.signal {
            Signal::Error(error) => Err(error),
            _ => Ok(()),
        },
    )
}

/// `and` and `or` short-circuit. Where the left operand fails, or settles the
/// result, the right operand is not evaluated: the outcome, the environment
/// and the output are those of the left operand. Otherwise the right operand
/// is evaluated after the left one, and its outcome is the outcome of the
/// whole.
pub proof fn lemma_short_circuit(
    setting: Setting,
    left: ExprView,
    operator: TokenView,
    right: ExprView,
    m: Machine,
    depth: nat,
    steps: nat,
)
    ensures
        ({
            let whole = eval(
                setting,
                ExprView::Logical { left: Box::new(left), operator, right: Box::new(right) },
                m,
                depth,
                steps,
            );
            let first = eval(setting, left, m, depth, steps);
            match first.result {
                Err(_) => whole == first,
                Ok(value) => if settles(operator, value) {
                    whole == first
                } else {
                    whole == eval(setting, right, first.machine, depth, steps)
                },
            }
        }),
{
}

/// The left operand of `or` settles the result exactly where it is truthy, the
/// left operand of `and` exactly where it is not.
pub proof fn lemma_settles(operator: TokenView, left: ValueView)
    ensures
        operator.kind == TokenType::OR ==> settles(operator, left) == left.truthy(),
        operator.kind == TokenType::AND ==> settles(operator, left) == !left.truthy(),
{
}

/// Division of two numbers never fails, whatever the divisor: it gives their
/// quotient as a number.
pub proof fn lemma_division(operator: TokenView, a: u64, b: u64)
    requires
        operator.kind == TokenType::SLASH,
    ensures
        binary_op(operator, ValueView::Number(a), ValueView::Number(b)) == Ok::<ValueView, RuntimeErrorView>(
            ValueView::Number(number::quotient_bits(a, b)),
        ),
{
}

/// `+` takes two numbers or two strings: a string and a number, in either
/// order, are a runtime error.
pub proof fn lemma_plus_does_not_coerce(operator: TokenView, text: Seq<char>, bits: u64)
    requires
        operator.kind == TokenType::PLUS,
    ensures
        binary_op(operator, ValueView::Text(text), ValueView::Number(bits)) == Err::<
            ValueView,
            RuntimeErrorView,
        >(RuntimeErrorView::at(operator, RuntimeErrorKind::OperandsMustBeTwoNumbersOrTwoStrings)),
        binary_op(operator, ValueView::Number(bits), ValueView::Text(text)) == Err::<
            ValueView,
            RuntimeErrorView,
        >(RuntimeErrorView::at(operator, RuntimeErrorKind::OperandsMustBeTwoNumbersOrTwoStrings)),
{
}

/// `!nil` is true, and `!` of any number, zero too, is false.
pub proof fn lemma_not(operator: TokenView, bits: u64)
    requires
        operator.kind == TokenType::BANG,
    ensures
        unary_op(operator, ValueView::Nil) == Ok::<ValueView, RuntimeErrorView>(ValueView::Bool(true)),
        unary_op(operator, ValueView::Number(bits)) == Ok::<ValueView, RuntimeErrorView>(
            ValueView::Bool(false),
        ),
{
}

} // verus!
