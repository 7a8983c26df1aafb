//! The evaluator: walks the tree and does what the program says.

use vstd::prelude::*;
use vstd::string::*;
use crate::ast::{exprs_view, option_view, stmts_view, Expr, Function, Stmt};
use crate::environment::Environment;
use crate::errors::{Interrupt, RuntimeError, RuntimeErrorKind, RuntimeErrorView, RuntimeReturn};
use crate::function::{builtin_function_clock, CallableView, LoxCallable, LoxFunction};
use crate::locals::Locals;
use crate::number;
use crate::semantics;
use crate::semantics::{Evaluated, Executed, Machine, Setting, Signal};
use crate::token::{Token, TokenType};
use crate::value::{is_equal, is_truthy, values_view, LoxValue, ValueView};

verus! {

/// The number of nested calls that an interpreter allows unless told
/// otherwise.
pub const DEFAULT_MAX_DEPTH: usize = 200;

/// The number of rounds that an interpreter allows to a loop unless told
/// otherwise.
pub const DEFAULT_MAX_STEPS: u64 = 0xffff_ffff_ffff_ffff;

/// The evaluator: the environment, the table of resolved distances, the
/// output so far, and the budgets.
pub struct Interpreter {
    pub environment: Environment,
    /// The table of resolved distances.
    pub locals: Locals,
    /// The lines printed so far.
    pub output: Vec<String>,
    /// What `clock` returns: seconds since the Unix epoch, as a binary64
    /// pattern.
    pub clock: u64,
    /// The number of nested calls allowed.
    pub max_depth: usize,
    /// The number of rounds allowed to a loop.
    pub max_steps: u64,
}

/// The views of a sequence of lines.
pub open spec fn lines_view(lines: Seq<String>) -> Seq<Seq<char>> {
    Seq::new(lines.len(), |i: int| lines[i]@)
}

/// The view of the result of an evaluation.
pub open spec fn result_view(r: Result<LoxValue, RuntimeError>) -> Result<ValueView, RuntimeErrorView> {
    match r {
        Ok(value) => Ok(value@),
        Err(error) => Err(error@),
    }
}

/// The view of the way an execution ended.
pub open spec fn signal_view(r: Result<(), Interrupt>) -> Signal {
    match r {
        Ok(_) => Signal::Normal,
        Err(Interrupt::Return(value)) => Signal::Return(value.0@),
        Err(Interrupt::Error(error)) => Signal::Error(error@),
    }
}

/// The view of the result of a run.
pub open spec fn run_view(r: Result<(), RuntimeError>) -> Result<(), RuntimeErrorView> {
    match r {
        Ok(_) => Ok(()),
        Err(error) => Err(error@),
    }
}

/// The two operands of an operator that takes numbers only.
pub fn check_number_operands(operator: &Token, left: &LoxValue, right: &LoxValue) -> (r: Result<
    (u64, u64),
    RuntimeError,
>)
    ensures
        match r {
            Ok((a, b)) => left@ == ValueView::Number(a) && right@ == ValueView::Number(b),
            Err(error) => !(left@ is Number && right@ is Number) && error@ == RuntimeErrorView::at(
                operator@,
                RuntimeErrorKind::OperandsMustBeNumbers,
            ),
        },
{
    match (left, right) {
        (LoxValue::Number(a), LoxValue::Number(b)) => Ok((*a, *b)),
        _ => Err(RuntimeError::new(operator, RuntimeErrorKind::OperandsMustBeNumbers)),
    }
}

/// The operand of an operator that takes a number only.
pub fn check_number_operand(operator: &Token, operand: &LoxValue) -> (r: Result<u64, RuntimeError>)
    ensures
        match r {
            Ok(a) => operand@ == ValueView::Number(a),
            Err(error) => !(operand@ is Number) && error@ == RuntimeErrorView::at(
                operator@,
                RuntimeErrorKind::OperandMustBeNumber,
            ),
        },
{
    match operand {
        LoxValue::Number(a) => Ok(*a),
        _ => Err(RuntimeError::new(operator, RuntimeErrorKind::OperandMustBeNumber)),
    }
}

/// The value of a unary operator applied to a value.
pub fn unary_op(operator: &Token, right: LoxValue) -> (r: Result<LoxValue, RuntimeError>)
    ensures
        result_view(r) == semantics::unary_op(operator@, right@),
{
    match operator._type {
        TokenType::BANG => Ok(LoxValue::Bool(!is_truthy(&right))),
        TokenType::MINUS => {
            let a = check_number_operand(operator, &right)?;
            Ok(LoxValue::Number(number::negate(a)))
        },
        _ => Err(RuntimeError::new(operator, RuntimeErrorKind::UnknownOperator)),
    }
}

/// The value of an arithmetic or comparison operator applied to two numbers.
/// Division by zero is no error: it gives an infinity or a NaN.
pub fn numeric_op(kind: TokenType, a: u64, b: u64) -> (r: LoxValue)
    requires
        semantics::is_numeric_operator(kind) || kind == TokenType::PLUS,
    ensures
        r@ == semantics::numeric_op(kind, a, b),
        kind == TokenType::SLASH && number::is_zero(b) ==> exists|bits: u64|
            r@ == ValueView::Number(bits) && (number::is_nan(bits) || number::is_infinite(bits)),
{
    match kind {
        TokenType::GREATER => LoxValue::Bool(number::less(b, a)),
        TokenType::GREATEREQUAL => LoxValue::Bool(number::less_equal(b, a)),
        TokenType::LESS => LoxValue::Bool(number::less(a, b)),
        TokenType::LESSEQUAL => LoxValue::Bool(number::less_equal(a, b)),
        TokenType::MINUS => LoxValue::Number(number::difference(a, b)),
        TokenType::SLASH => LoxValue::Number(number::quotient(a, b)),
        TokenType::STAR => LoxValue::Number(number::product(a, b)),
        _ => LoxValue::Number(number::sum(a, b)),
    }
}

/// The value of a binary operator applied to two values.
pub fn binary_op(operator: &Token, left: LoxValue, right: LoxValue) -> (r: Result<LoxValue, RuntimeError>)
    ensures
        result_view(r) == semantics::binary_op(operator@, left@, right@),
{
    match operator._type {
        TokenType::EQUALEQUAL => Ok(LoxValue::Bool(is_equal(&left, &right))),
        TokenType::BANGEQUAL => Ok(LoxValue::Bool(!is_equal(&left, &right))),
        TokenType::PLUS => match (left, right) {
            (LoxValue::Number(a), LoxValue::Number(b)) => Ok(numeric_op(TokenType::PLUS, a, b)),
            (LoxValue::String(a), LoxValue::String(b)) => Ok(LoxValue::String(a.concat(b.as_str()))),
            _ => Err(RuntimeError::new(operator, RuntimeErrorKind::OperandsMustBeTwoNumbersOrTwoStrings)),
        },
        TokenType::GREATER
        | TokenType::GREATEREQUAL
        | TokenType::LESS
        | TokenType::LESSEQUAL
        | TokenType::MINUS
        | TokenType::SLASH
        | TokenType::STAR => {
            let (a, b) = check_number_operands(operator, &left, &right)?;
            Ok(numeric_op(operator._type, a, b))
        },
        _ => Err(RuntimeError::new(operator, RuntimeErrorKind::UnknownOperator)),
    }
}

impl Interpreter {
    /// What stays the same while a program runs.
    pub open spec fn setting(&self) -> Setting {
        Setting { locals: self.locals@, clock: self.clock }
    }

    /// What a running program changes.
    pub open spec fn machine(&self) -> Machine {
        Machine { env: self.environment@, output: lines_view(self.output@) }
    }

    /// The environment is sound.
    pub open spec fn wf(&self) -> bool {
        self.environment.wf()
    }

    /// What holds between the interpreter before and after any evaluation,
    /// however it ends: the table, the clock and the budgets are the same, no
    /// frame is gone, and every scope entered has been left, so that the frame
    /// that was current is current again.
    pub open spec fn steady(&self, before: &Interpreter) -> bool {
        &&& self.wf()
        &&& self.setting() == before.setting()
        &&& self.max_depth == before.max_depth
        &&& self.max_steps == before.max_steps
        &&& self.environment@.extends(before.environment@)
    }

    /// An interpreter whose global frame binds `clock`, with an empty table,
    /// no output, and the clock at zero.
    pub fn new() -> (r: Self)
        ensures
            r.wf(),
            r.environment@ == crate::environment::EnvironmentView::initial().define(
                "clock"@,
                ValueView::Callable(CallableView::Clock),
            ),
            r.locals@ == Map::<usize, nat>::empty(),
            r.output@ == Seq::<String>::empty(),
            r.clock == 0,
            r.max_depth == DEFAULT_MAX_DEPTH,
            r.max_steps == DEFAULT_MAX_STEPS,
    {
        let mut env = Environment::new();
        env.define("clock", LoxValue::Callable(builtin_function_clock()));
        Interpreter {
            environment: env,
            locals: Locals::new(),
            output: Vec::new(),
            clock: 0,
            max_depth: DEFAULT_MAX_DEPTH,
            max_steps: DEFAULT_MAX_STEPS,
        }
    }

    /// Forgets the program that ran before: the environment is that of a new
    /// interpreter again, and the table is empty. The output, the clock and the
    /// budgets stay.
    pub fn restart(&mut self)
        ensures
            final(self).wf(),
            final(self).environment@ == crate::environment::EnvironmentView::initial().define(
                "clock"@,
                ValueView::Callable(CallableView::Clock),
            ),
            final(self).locals@ == Map::<usize, nat>::empty(),
            final(self).output == old(self).output,
            final(self).clock == old(self).clock,
            final(self).max_depth == old(self).max_depth,
            final(self).max_steps == old(self).max_steps,
    {
        let mut env = Environment::new();
        env.define("clock", LoxValue::Callable(builtin_function_clock()));
        self.environment = env;
        self.locals = Locals::new();
    }

    /// Runs a program: its statements in order, up to the first runtime
    /// error. A `return` at the top level ends the program.
    pub fn interpret(&mut self, stmts: &Vec<Stmt>) -> (r: Result<(), RuntimeError>)
        requires
            old(self).wf(),
        ensures
            final(self).steady(old(self)),
            semantics::run(
                old(self).setting(),
                stmts_view(stmts@),
                old(self).machine(),
                old(self).max_depth as nat,
                old(self).max_steps as nat,
            ) == (final(self).machine(), run_view(r)),
    {
        let depth = self.max_depth;
        let steps = self.max_steps;
        match self.execute_items(stmts, depth, steps) {
            Err(Interrupt::Error(error)) => Err(error),
            _ => Ok(()),
        }
    }

    /// Records the distance of a `Variable` or `Assign` node.
    pub fn resolve(&mut self, id: usize, depth: usize)
        ensures
            final(self).locals@ == old(self).locals@.insert(id, depth as nat),
            final(self).environment == old(self).environment,
            final(self).output == old(self).output,
            final(self).clock == old(self).clock,
            final(self).max_depth == old(self).max_depth,
            final(self).max_steps == old(self).max_steps,
    {
        self.locals.record(id, depth);
    }

    /// Reads the variable of the node `id`.
    fn lookup_variable(&self, name: &Token, id: usize) -> (r: Result<LoxValue, RuntimeError>)
        requires
            self.wf(),
        ensures
            result_view(r) == semantics::lookup(self.setting(), self.environment@, name@, id),
    {
        match self.locals.get(id) {
            Some(distance) => match self.environment.get_at(distance, name.lexeme.as_str()) {
                Ok(value) => Ok(value),
                Err(_) => Err(RuntimeError::new(name, RuntimeErrorKind::MissingLocal)),
            },
            None => match self.environment.get_global(name.lexeme.as_str()) {
                Ok(value) => Ok(value),
                Err(_) => Err(RuntimeError::new(name, RuntimeErrorKind::UndefinedVariable)),
            },
        }
    }

    /// Writes the variable of the node `id`.
    fn assign_variable(&mut self, name: &Token, id: usize, value: LoxValue) -> (r: Result<(), RuntimeError>)
        requires
            old(self).wf(),
        ensures
            final(self).steady(old(self)),
            final(self).output == old(self).output,
            match r {
                Ok(_) => semantics::store(old(self).setting(), old(self).environment@, name@, id, value@)
                    == Ok::<crate::environment::EnvironmentView, RuntimeErrorView>(final(self).environment@),
                Err(error) => semantics::store(old(self).setting(), old(self).environment@, name@, id, value@)
                    == Err::<crate::environment::EnvironmentView, RuntimeErrorView>(error@)
                    && final(self).environment@ == old(self).environment@,
            },
    {
        match self.locals.get(id) {
            Some(distance) => match self.environment.assign_at(distance, name.lexeme.as_str(), value) {
                Ok(_) => Ok(()),
                Err(_) => Err(RuntimeError::new(name, RuntimeErrorKind::MissingLocal)),
            },
            None => match self.environment.assign_global(name.lexeme.as_str(), value) {
                Ok(_) => Ok(()),
                Err(_) => Err(RuntimeError::new(name, RuntimeErrorKind::UndefinedVariable)),
            },
        }
    }

    /// Executes the statements of a list in order, up to the first that does
    /// not end normally.
    pub fn execute_items(&mut self, stmts: &Vec<Stmt>, depth: usize, steps: u64) -> (r: Result<
        (),
        Interrupt,
    >)
        requires
            old(self).wf(),
        ensures
            final(self).steady(old(self)),
            semantics::exec_items(
                old(self).setting(),
                stmts_view(stmts@),
                0,
                old(self).machine(),
                depth as nat,
                steps as nat,
            ) == (Executed { machine: final(self).machine(), signal: signal_view(r) }),
        decreases 3 * depth + 2, steps, stmts, stmts.len(),
    {
        let mut i: usize = 0;
        while i < stmts.len()
            invariant
                self.steady(old(self)),
                i <= stmts.len(),
                forall|k: int| 0 <= k < stmts.len() ==> decreases_to!(stmts => #[trigger] stmts[k]),
                semantics::exec_items(
                    old(self).setting(),
                    stmts_view(stmts@),
                    0,
                    old(self).machine(),
                    depth as nat,
                    steps as nat,
                ) == semantics::exec_items(
                    self.setting(),
                    stmts_view(stmts@),
                    i as int,
                    self.machine(),
                    depth as nat,
                    steps as nat,
                ),
            decreases stmts.len() - i,
        {
            match self.execute(&stmts[i], depth, steps) {
                Ok(_) => {},
                Err(interrupt) => {
                    return Err(interrupt);
                },
            }
            i = i + 1;
        }
        Ok(())
    }

    /// Executes a statement.
    pub fn execute(&mut self, stmt: &Stmt, depth: usize, steps: u64) -> (r: Result<(), Interrupt>)
        requires
            old(self).wf(),
        ensures
            final(self).steady(old(self)),
            semantics::exec(old(self).setting(), stmt@, old(self).machine(), depth as nat, steps as nat) == (
            Executed { machine: final(self).machine(), signal: signal_view(r) }),
        decreases 3 * depth + 2, steps, stmt, 1int,
    {
        match stmt {
            Stmt::Expression(_) => self.visit_expression(stmt, depth, steps),
            Stmt::Print(_) => self.visit_print(stmt, depth, steps),
            Stmt::Var(_) => self.visit_var(stmt, depth, steps),
            Stmt::Block(_) => self.visit_block(stmt, depth, steps),
            Stmt::If(_) => self.visit_if(stmt, depth, steps),
            Stmt::While(_) => self.visit_while(stmt, depth, steps),
            Stmt::Function(_) => self.visit_function(stmt, depth, steps),
            Stmt::Return(_) => self.visit_return(stmt, depth, steps),
        }
    }

    fn visit_expression(&mut self, stmt: &Stmt, depth: usize, steps: u64) -> (r: Result<(), Interrupt>)
        requires
            old(self).wf(),
            stmt is Expression,
        ensures
            final(self).steady(old(self)),
            semantics::exec(old(self).setting(), stmt@, old(self).machine(), depth as nat, steps as nat) == (
            Executed { machine: final(self).machine(), signal: signal_view(r) }),
        decreases 3 * depth + 2, steps, stmt, 0int,
    {
        match stmt {
            Stmt::Expression(s) => match self.evaluate(&s.expression, depth, steps) {
                Ok(_) => Ok(()),
                Err(error) => Err(Interrupt::Error(error)),
            },
            _ => Ok(()),
        }
    }

    fn visit_print(&mut self, stmt: &Stmt, depth: usize, steps: u64) -> (r: Result<(), Interrupt>)
        requires
            old(self).wf(),
            stmt is Print,
        ensures
            final(self).steady(old(self)),
            semantics::exec(old(self).setting(), stmt@, old(self).machine(), depth as nat, steps as nat) == (
            Executed { machine: final(self).machine(), signal: signal_view(r) }),
        decreases 3 * depth + 2, steps, stmt, 0int,
    {
        match stmt {
            Stmt::Print(s) => match self.evaluate(&s.expression, depth, steps) {
                Ok(value) => {
                    let line = value.to_string();
                    let ghost before = self.output@;
                    self.output.push(line);
                    assert(lines_view(self.output@) =~= lines_view(before).push(value@.text()));
                    Ok(())
                },
                Err(error) => Err(Interrupt::Error(error)),
            },
            _ => Ok(()),
        }
    }

    /// Evaluates an expression that may be absent: its value is `nil` then.
    fn evaluate_option(&mut self, expr: &Option<Expr>, depth: usize, steps: u64) -> (r: Result<
        LoxValue,
        RuntimeError,
    >)
        requires
            old(self).wf(),
        ensures
            final(self).steady(old(self)),
            semantics::eval_option(
                old(self).setting(),
                option_view(*expr),
                old(self).machine(),
                depth as nat,
                steps as nat,
            ) == (Evaluated { machine: final(self).machine(), result: result_view(r) }),
        decreases 3 * depth + 1, steps, expr, 1int,
    {
        match expr {
            Some(expr) => self.evaluate(expr, depth, steps),
            None => Ok(LoxValue::Nil),
        }
    }

    fn visit_var(&mut self, stmt: &Stmt, depth: usize, steps: u64) -> (r: Result<(), Interrupt>)
        requires
            old(self).wf(),
            stmt is Var,
        ensures
            final(self).steady(old(self)),
            semantics::exec(old(self).setting(), stmt@, old(self).machine(), depth as nat, steps as nat) == (
            Executed { machine: final(self).machine(), signal: signal_view(r) }),
        decreases 3 * depth + 2, steps, stmt, 0int,
    {
        match stmt {
            Stmt::Var(s) => match self.evaluate_option(&s.initializer, depth, steps) {
                Ok(value) => {
                    self.environment.define(s.name.lexeme.as_str(), value);
                    Ok(())
                },
                Err(error) => Err(Interrupt::Error(error)),
            },
            _ => Ok(()),
        }
    }

    fn visit_block(&mut self, stmt: &Stmt, depth: usize, steps: u64) -> (r: Result<(), Interrupt>)
        requires
            old(self).wf(),
            stmt is Block,
        ensures
            final(self).steady(old(self)),
            semantics::exec(old(self).setting(), stmt@, old(self).machine(), depth as nat, steps as nat) == (
            Executed { machine: final(self).machine(), signal: signal_view(r) }),
        decreases 3 * depth + 2, steps, stmt, 0int,
    {
        match stmt {
            Stmt::Block(s) => {
                self.environment.enter_scope(false);
                let r = self.execute_items(&s.statements, depth, steps);
                self.environment.exit_scope();
                r
            },
            _ => Ok(()),
        }
    }

    fn visit_if(&mut self, stmt: &Stmt, depth: usize, steps: u64) -> (r: Result<(), Interrupt>)
        requires
            old(self).wf(),
            stmt is If,
        ensures
            final(self).steady(old(self)),
            semantics::exec(old(self).setting(), stmt@, old(self).machine(), depth as nat, steps as nat) == (
            Executed { machine: final(self).machine(), signal: signal_view(r) }),
        decreases 3 * depth + 2, steps, stmt, 0int,
    {
        match stmt {
            Stmt::If(s) => match self.evaluate(&s.condition, depth, steps) {
                Ok(value) => if is_truthy(&value) {
                    self.execute(&s.then_branch, depth, steps)
                } else {
                    match &s.else_branch {
                        Some(else_branch) => self.execute(else_branch, depth, steps),
                        None => Ok(()),
                    }
                },
                Err(error) => Err(Interrupt::Error(error)),
            },
            _ => Ok(()),
        }
    }

    fn visit_function(&mut self, stmt: &Stmt, depth: usize, steps: u64) -> (r: Result<(), Interrupt>)
        requires
            old(self).wf(),
            stmt is Function,
        ensures
            final(self).steady(old(self)),
            semantics::exec(old(self).setting(), stmt@, old(self).machine(), depth as nat, steps as nat) == (
            Executed { machine: final(self).machine(), signal: signal_view(r) }),
    {
        match stmt {
            Stmt::Function(f) => {
                let function = LoxFunction::new(f, self.environment.current());
                self.environment.define(
                    f.name.lexeme.as_str(),
                    LoxValue::Callable(LoxCallable::Function(function)),
                );
                Ok(())
            },
            _ => Ok(()),
        }
    }

    fn visit_return(&mut self, stmt: &Stmt, depth: usize, steps: u64) -> (r: Result<(), Interrupt>)
        requires
            old(self).wf(),
            stmt is Return,
        ensures
            final(self).steady(old(self)),
            semantics::exec(old(self).setting(), stmt@, old(self).machine(), depth as nat, steps as nat) == (
            Executed { machine: final(self).machine(), signal: signal_view(r) }),
        decreases 3 * depth + 2, steps, stmt, 0int,
    {
        match stmt {
            Stmt::Return(s) => match self.evaluate_option(&s.value, depth, steps) {
                Ok(value) => Err(Interrupt::Return(RuntimeReturn::new(value))),
                Err(error) => Err(Interrupt::Error(error)),
            },
            _ => Ok(()),
        }
    }

    fn visit_while(&mut self, stmt: &Stmt, depth: usize, steps: u64) -> (r: Result<(), Interrupt>)
        requires
            old(self).wf(),
            stmt is While,
        ensures
            final(self).steady(old(self)),
            semantics::exec(old(self).setting(), stmt@, old(self).machine(), depth as nat, steps as nat) == (
            Executed { machine: final(self).machine(), signal: signal_view(r) }),
        decreases 3 * depth + 2, steps, stmt, 0int,
    {
        match stmt {
            Stmt::While(s) => {
                let mut left = steps;
                loop
                    invariant
                        self.steady(old(self)),
                        left <= steps,
                        stmt == Stmt::While(*s),
                        semantics::exec_while(
                            old(self).setting(),
                            stmt@,
                            old(self).machine(),
                            depth as nat,
                            steps as nat,
                        ) == semantics::exec_while(
                            self.setting(),
                            stmt@,
                            self.machine(),
                            depth as nat,
                            left as nat,
                        ),
                    decreases left,
                {
                    match self.evaluate(&s.condition, depth, left) {
                        Ok(value) => {
                            if !is_truthy(&value) {
                                return Ok(());
                            }
                        },
                        Err(error) => {
                            return Err(Interrupt::Error(error));
                        },
                    }
                    if left == 0 {
                        return Err(Interrupt::Error(RuntimeError::unplaced(RuntimeErrorKind::LoopLimit)));
                    }
                    match self.execute(&s.body, depth, left) {
                        Ok(_) => {},
                        Err(interrupt) => {
                            return Err(interrupt);
                        },
                    }
                    left = left - 1;
                }
            },
            _ => Ok(()),
        }
    }

    /// Evaluates an expression: operands before operators, from left to
    /// right.
    pub fn evaluate(&mut self, expr: &Expr, depth: usize, steps: u64) -> (r: Result<LoxValue, RuntimeError>)
        requires
            old(self).wf(),
        ensures
            final(self).steady(old(self)),
            semantics::eval(old(self).setting(), expr@, old(self).machine(), depth as nat, steps as nat) == (
            Evaluated { machine: final(self).machine(), result: result_view(r) }),
        decreases 3 * depth + 1, steps, expr, 2int,
    {
        match expr {
            Expr::Literal(_) => self.visit_literal(expr),
            Expr::Group(_) => self.visit_grouping(expr, depth, steps),
            Expr::Variable(_) => self.visit_variable(expr),
            Expr::Assign(_) => self.visit_assign(expr, depth, steps),
            Expr::Unary(_) => self.visit_unary(expr, depth, steps),
            Expr::Binary(_) => self.visit_binary(expr, depth, steps),
            Expr::Logical(_) => self.visit_logical(expr, depth, steps),
            Expr::Call(_) => self.visit_call(expr, depth, steps),
        }
    }

    fn visit_literal(&self, expr: &Expr) -> (r: Result<LoxValue, RuntimeError>)
        requires
            expr is Literal,
        ensures
            forall|setting: Setting, m: Machine, depth: nat, steps: nat|
                #[trigger] semantics::eval(setting, expr@, m, depth, steps) == (Evaluated {
                    machine: m,
                    result: result_view(r),
                }),
    {
        match expr {
            Expr::Literal(e) => Ok(LoxValue::of_literal(&e.value)),
            _ => Ok(LoxValue::Nil),
        }
    }

    fn visit_grouping(&mut self, expr: &Expr, depth: usize, steps: u64) -> (r: Result<LoxValue, RuntimeError>)
        requires
            old(self).wf(),
            expr is Group,
        ensures
            final(self).steady(old(self)),
            semantics::eval(old(self).setting(), expr@, old(self).machine(), depth as nat, steps as nat) == (
            Evaluated { machine: final(self).machine(), result: result_view(r) }),
        decreases 3 * depth + 1, steps, expr, 1int,
    {
        match expr {
            Expr::Group(e) => self.evaluate(&e.expression, depth, steps),
            _ => Ok(LoxValue::Nil),
        }
    }

    fn visit_variable(&self, expr: &Expr) -> (r: Result<LoxValue, RuntimeError>)
        requires
            self.wf(),
            expr is Variable,
        ensures
            forall|depth: nat, steps: nat|
                #[trigger] semantics::eval(self.setting(), expr@, self.machine(), depth, steps) == (Evaluated {
                    machine: self.machine(),
                    result: result_view(r),
                }),
    {
        match expr {
            Expr::Variable(e) => self.lookup_variable(&e.name, e.id),
            _ => Ok(LoxValue::Nil),
        }
    }

    fn visit_assign(&mut self, expr: &Expr, depth: usize, steps: u64) -> (r: Result<LoxValue, RuntimeError>)
        requires
            old(self).wf(),
            expr is Assign,
        ensures
            final(self).steady(old(self)),
            semantics::eval(old(self).setting(), expr@, old(self).machine(), depth as nat, steps as nat) == (
            Evaluated { machine: final(self).machine(), result: result_view(r) }),
        decreases 3 * depth + 1, steps, expr, 1int,
    {
        match expr {
            Expr::Assign(e) => {
                let value = self.evaluate(&e.value, depth, steps)?;
                self.assign_variable(&e.name, e.id, value.clone())?;
                Ok(value)
            },
            _ => Ok(LoxValue::Nil),
        }
    }

    fn visit_unary(&mut self, expr: &Expr, depth: usize, steps: u64) -> (r: Result<LoxValue, RuntimeError>)
        requires
            old(self).wf(),
            expr is Unary,
        ensures
            final(self).steady(old(self)),
            semantics::eval(old(self).setting(), expr@, old(self).machine(), depth as nat, steps as nat) == (
            Evaluated { machine: final(self).machine(), result: result_view(r) }),
        decreases 3 * depth + 1, steps, expr, 1int,
    {
        match expr {
            Expr::Unary(e) => {
                let right = self.evaluate(&e.right, depth, steps)?;
                unary_op(&e.operator, right)
            },
            _ => Ok(LoxValue::Nil),
        }
    }

    fn visit_binary(&mut self, expr: &Expr, depth: usize, steps: u64) -> (r: Result<LoxValue, RuntimeError>)
        requires
            old(self).wf(),
            expr is Binary,
        ensures
            final(self).steady(old(self)),
            semantics::eval(old(self).setting(), expr@, old(self).machine(), depth as nat, steps as nat) == (
            Evaluated { machine: final(self).machine(), result: result_view(r) }),
        decreases 3 * depth + 1, steps, expr, 1int,
    {
        match expr {
            Expr::Binary(e) => {
                let left = self.evaluate(&e.left, depth, steps)?;
                let right = self.evaluate(&e.right, depth, steps)?;
                binary_op(&e.operator, left, right)
            },
            _ => Ok(LoxValue::Nil),
        }
    }

    fn visit_logical(&mut self, expr: &Expr, depth: usize, steps: u64) -> (r: Result<LoxValue, RuntimeError>)
        requires
            old(self).wf(),
            expr is Logical,
        ensures
            final(self).steady(old(self)),
            semantics::eval(old(self).setting(), expr@, old(self).machine(), depth as nat, steps as nat) == (
            Evaluated { machine: final(self).machine(), result: result_view(r) }),
        decreases 3 * depth + 1, steps, expr, 1int,
    {
        match expr {
            Expr::Logical(e) => {
                let left = self.evaluate(&e.left, depth, steps)?;
                let settled = if e.operator._type == TokenType::OR {
                    is_truthy(&left)
                } else {
                    !is_truthy(&left)
                };
                if settled {
                    return Ok(left);
                }
                self.evaluate(&e.right, depth, steps)
            },
            _ => Ok(LoxValue::Nil),
        }
    }

    /// Evaluates the arguments of a call from left to right.
    fn evaluate_arguments(&mut self, expr: &Expr, depth: usize, steps: u64) -> (r: Result<
        Vec<LoxValue>,
        RuntimeError,
    >)
        requires
            old(self).wf(),
            expr is Call,
        ensures
            final(self).steady(old(self)),
            semantics::eval_args(
                old(self).setting(),
                expr@->arguments,
                0,
                Seq::empty(),
                old(self).machine(),
                depth as nat,
                steps as nat,
            ) == (
                final(self).machine(),
                match r {
                    Ok(values) => Ok::<Seq<ValueView>, RuntimeErrorView>(values_view(values@)),
                    Err(error) => Err::<Seq<ValueView>, RuntimeErrorView>(error@),
                },
            ),
        decreases 3 * depth + 1, steps, expr, 0int,
    {
        match expr {
            Expr::Call(e) => {
                let mut arguments: Vec<LoxValue> = Vec::new();
                let mut i: usize = 0;
                assert(values_view(arguments@) =~= Seq::empty());
                while i < e.arguments.len()
                    invariant
                        self.steady(old(self)),
                        i <= e.arguments.len(),
                        expr@->arguments == exprs_view(e.arguments@),
                        forall|k: int|
                            0 <= k < e.arguments.len() ==> decreases_to!(expr => #[trigger] e.arguments[k]),
                        semantics::eval_args(
                            old(self).setting(),
                            exprs_view(e.arguments@),
                            0,
                            Seq::empty(),
                            old(self).machine(),
                            depth as nat,
                            steps as nat,
                        ) == semantics::eval_args(
                            self.setting(),
                            exprs_view(e.arguments@),
                            i as int,
                            values_view(arguments@),
                            self.machine(),
                            depth as nat,
                            steps as nat,
                        ),
                    decreases e.arguments.len() - i,
                {
                    let argument = self.evaluate(&e.arguments[i], depth, steps)?;
                    assert(values_view(arguments@.push(argument)) =~= values_view(arguments@).push(argument@));
                    arguments.push(argument);
                    i = i + 1;
                }
                Ok(arguments)
            },
            _ => Ok(Vec::new()),
        }
    }

    fn visit_call(&mut self, expr: &Expr, depth: usize, steps: u64) -> (r: Result<LoxValue, RuntimeError>)
        requires
            old(self).wf(),
            expr is Call,
        ensures
            final(self).steady(old(self)),
            semantics::eval(old(self).setting(), expr@, old(self).machine(), depth as nat, steps as nat) == (
            Evaluated { machine: final(self).machine(), result: result_view(r) }),
        decreases 3 * depth + 1, steps, expr, 1int,
    {
        match expr {
            Expr::Call(e) => {
                let callee = self.evaluate(&e.callee, depth, steps)?;
                let arguments = self.evaluate_arguments(expr, depth, steps)?;
                self.call_value(callee, arguments, &e.paren, depth, steps)
            },
            _ => Ok(LoxValue::Nil),
        }
    }

    /// Calls a value with arguments already evaluated.
    pub fn call_value(
        &mut self,
        callee: LoxValue,
        arguments: Vec<LoxValue>,
        paren: &Token,
        depth: usize,
        steps: u64,
    ) -> (r: Result<LoxValue, RuntimeError>)
        requires
            old(self).wf(),
        ensures
            final(self).steady(old(self)),
            semantics::call_value(
                old(self).setting(),
                callee@,
                values_view(arguments@),
                paren@,
                old(self).machine(),
                depth as nat,
                steps as nat,
            ) == (Evaluated { machine: final(self).machine(), result: result_view(r) }),
        decreases 3 * depth, 1int, callee, 0int,
    {
        match callee {
            LoxValue::Callable(callable) => {
                let expected = callable.arity();
                if arguments.len() != expected {
                    return Err(
                        RuntimeError::new(
                            paren,
                            RuntimeErrorKind::WrongArity { expected, got: arguments.len() },
                        ),
                    );
                }
                match callable {
                    LoxCallable::Clock => Ok(LoxValue::Number(self.clock)),
                    LoxCallable::Function(function) => self.call_function(
                        &function,
                        arguments,
                        paren,
                        depth,
                        steps,
                    ),
                }
            },
            _ => Err(RuntimeError::new(paren, RuntimeErrorKind::NotCallable)),
        }
    }

    /// Calls a function of the program.
    fn call_function(
        &mut self,
        function: &LoxFunction,
        arguments: Vec<LoxValue>,
        paren: &Token,
        depth: usize,
        steps: u64,
    ) -> (r: Result<LoxValue, RuntimeError>)
        requires
            old(self).wf(),
            arguments.len() == function.declaration@.params.len(),
        ensures
            final(self).steady(old(self)),
            semantics::call_function(
                old(self).setting(),
                function.declaration@,
                function.closure as int,
                values_view(arguments@),
                paren@,
                old(self).machine(),
                depth as nat,
                steps as nat,
            ) == (Evaluated { machine: final(self).machine(), result: result_view(r) }),
        decreases 3 * depth, 0int, function.declaration, 0int,
    {
        if depth == 0 {
            return Err(RuntimeError::new(paren, RuntimeErrorKind::StackOverflow));
        }
        if function.closure >= self.environment.frames() {
            return Err(RuntimeError::new(paren, RuntimeErrorKind::LostClosure));
        }
        let declaration: &Function = &function.declaration;
        let caller = self.environment.enter(function.closure);
        let ghost args = values_view(arguments@);
        let ghost entered = old(self).environment@.enter(function.closure as int);
        let mut bound: usize = 0;
        while bound < declaration.params.len()
            invariant
                self.wf(),
                self.setting() == old(self).setting(),
                self.max_depth == old(self).max_depth,
                self.max_steps == old(self).max_steps,
                self.output == old(self).output,
                bound <= declaration.params.len(),
                self.environment@.extends(entered),
                semantics::bind_params(entered, declaration@.params, args, 0) == semantics::bind_params(
                    self.environment@,
                    declaration@.params,
                    args,
                    bound as int,
                ),
                arguments.len() == declaration.params.len(),
                values_view(arguments@) == args,
            decreases declaration.params.len() - bound,
        {
            assert(declaration@.params[bound as int] == declaration.params[bound as int]@);
            assert(args[bound as int] == arguments[bound as int]@);
            let value = arguments[bound].clone();
            self.environment.define(declaration.params[bound].lexeme.as_str(), value);
            bound = bound + 1;
        }
        let r = self.execute_items(&declaration.body.statements, depth - 1, steps);
        self.environment.leave(caller);
        match r {
            Ok(_) => Ok(LoxValue::Nil),
            Err(Interrupt::Return(value)) => Ok(value.0),
            Err(Interrupt::Error(error)) => Err(error),
        }
    }
}

} // verus!
