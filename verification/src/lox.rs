//! The whole pipeline: scan, parse, resolve, run.

use vstd::prelude::*;
use vstd::string::*;
use crate::agreement::{
    lemma_all_orderly, lemma_resolved_variables_are_found, lemma_starting_env, starting_env, stmts_patient,
};
use crate::ast::{stmts_view, Stmt, StmtView};
use crate::astprinter::{stmt_text, AstPrinter};
use crate::clock;
use crate::errors::{ParseError, RuntimeError, RuntimeErrorKind, RuntimeErrorView, StaticError};
use crate::grammar;
use crate::interpreter::Interpreter;
use crate::lexing;
use crate::lexing::ScanError;
use crate::parser::Parser;
use crate::scanner::Scanner;
use crate::scope_resolver::ScopeResolver;
use crate::scoping;
use crate::semantics;
use crate::semantics::{Machine, Setting};
use crate::token::{tokens_view, Token};

verus! {

/// How far a run goes.
#[allow(non_camel_case_types)]
#[derive(Debug, PartialEq, Eq, Clone, Copy, Structural)]
pub enum LoxOption {
    /// Scan, and show the tokens.
    TOKEN,
    /// Scan and parse, and show the tree.
    AST,
    /// Scan, parse, resolve and run.
    INTERPRET,
}

/// What stopped a run.
pub enum LoxError {
    Scan(ScanError),
    Parse(ParseError),
    Static(StaticError),
    Runtime(RuntimeError),
}

/// How a run ended.
pub enum RunResult {
    /// The tokens of the source.
    Tokens(Vec<Token>),
    /// The tree of the source, one line for each statement.
    Tree(Vec<String>),
    /// The program ran to its end.
    Finished,
    /// The run stopped at an error.
    Failed(LoxError),
}

/// The exit status for a usage error.
pub const EXIT_USAGE: u8 = 64;

/// The exit status for a scan, parse or static error.
pub const EXIT_DATA: u8 = 65;

/// The exit status for a runtime error.
pub const EXIT_SOFTWARE: u8 = 70;

impl RunResult {
    /// The exit status of a process that ends with this run: 0 on success, 65
    /// after a scan, parse or static error, 70 after a runtime error.
    pub open spec fn status(&self) -> u8 {
        match self {
            RunResult::Failed(LoxError::Runtime(_)) => EXIT_SOFTWARE,
            RunResult::Failed(_) => EXIT_DATA,
            _ => 0,
        }
    }

    /// The exit status of a process that ends with this run.
    pub fn exit_code(&self) -> (r: u8)
        ensures
            r == self.status(),
    {
        match self {
            RunResult::Failed(LoxError::Runtime(_)) => EXIT_SOFTWARE,
            RunResult::Failed(_) => EXIT_DATA,
            _ => 0,
        }
    }
}

/// The lines that show a tree: the text of each statement behind a label.
pub open spec fn tree_lines(stmts: Seq<StmtView>) -> Seq<Seq<char>> {
    Seq::new(stmts.len(), |i: int| "[AstPrinter]: "@ + stmt_text(stmts[i]))
}

/// An interpreter, with a record of whether a run has failed.
pub struct Lox {
    pub interpreter: Interpreter,
    pub had_runtime_error: bool,
    pub had_error: bool,
}

impl Lox {
    /// A new interpreter, and no error seen.
    pub fn new() -> (r: Self)
        ensures
            r.interpreter.wf(),
            !r.had_runtime_error,
            !r.had_error,
            r.interpreter.environment@ == starting_env(),
            r.interpreter.locals@ == Map::<usize, nat>::empty(),
            r.interpreter.output@ == Seq::<String>::empty(),
            r.interpreter.clock == 0,
            r.interpreter.max_depth == crate::interpreter::DEFAULT_MAX_DEPTH,
            r.interpreter.max_steps == crate::interpreter::DEFAULT_MAX_STEPS,
    {
        Self { interpreter: Interpreter::new(), had_runtime_error: false, had_error: false }
    }

    /// The lines that show a tree.
    pub fn show_tree(stmts: &Vec<Stmt>) -> (r: Vec<String>)
        ensures
            crate::interpreter::lines_view(r@) == tree_lines(stmts_view(stmts@)),
    {
        let printer = AstPrinter::new();
        let mut lines: Vec<String> = Vec::new();
        let mut i: usize = 0;
        while i < stmts.len()
            invariant
                i <= stmts.len(),
                lines.len() == i,
                forall|k: int|
                    0 <= k < i ==> (#[trigger] lines[k])@ == "[AstPrinter]: "@ + stmt_text(stmts[k]@),
            decreases stmts.len() - i,
        {
            let mut line = String::from_str("[AstPrinter]: ");
            let text = printer.print_stmt(&stmts[i]);
            line.append(text.as_str());
            lines.push(line);
            i = i + 1;
        }
        assert(crate::interpreter::lines_view(lines@) =~= tree_lines(stmts_view(stmts@)));
        lines
    }

    /// Runs a source text as far as `option` says. A program starts in the
    /// environment of a new interpreter, with a table of resolved distances
    /// made for it; the lines that it prints are added to the output of the
    /// interpreter. The clock is read once, before the program starts.
    pub fn run(&mut self, source: &String, option: LoxOption) -> (r: RunResult)
        requires
            old(self).interpreter.wf(),
        ensures
            final(self).interpreter.wf(),
            final(self).had_error == (old(self).had_error || r is Failed),
            final(self).had_runtime_error == (old(self).had_runtime_error || r.status() == EXIT_SOFTWARE),
            Lox::ran(
                source@,
                option,
                old(self).interpreter,
                final(self).interpreter,
                r,
            ),
    {
        let (tokens, errors) = Scanner::build(source).scan();
        if errors.len() > 0 {
            self.had_error = true;
            return RunResult::Failed(LoxError::Scan(errors[0]));
        }
        if option == LoxOption::TOKEN {
            return RunResult::Tokens(tokens);
        }
        let stmts = match Parser::new(tokens).parse() {
            Ok(stmts) => stmts,
            Err(error) => {
                self.had_error = true;
                return RunResult::Failed(LoxError::Parse(error));
            },
        };
        if option == LoxOption::AST {
            return RunResult::Tree(Lox::show_tree(&stmts));
        }
        self.interpreter.restart();
        let mut resolver = ScopeResolver::new();
        match resolver.resolve(&stmts, &mut self.interpreter.locals) {
            Ok(_) => {},
            Err(error) => {
                self.had_error = true;
                return RunResult::Failed(LoxError::Static(error));
            },
        }
        self.interpreter.clock = clock::now();
        proof {
            let table = self.interpreter.locals@;
            lemma_starting_env(table);
            if stmts_patient(stmts_view(stmts@), false) {
                lemma_all_orderly(stmts_view(stmts@), false);
                lemma_resolved_variables_are_found(
                    stmts_view(stmts@),
                    table,
                    self.interpreter.clock,
                    self.interpreter.machine(),
                    self.interpreter.max_depth as nat,
                    self.interpreter.max_steps as nat,
                );
            }
        }
        match self.interpreter.interpret(&stmts) {
            Ok(_) => RunResult::Finished,
            Err(error) => {
                self.had_error = true;
                self.had_runtime_error = true;
                RunResult::Failed(LoxError::Runtime(error))
            },
        }
    }

    /// What a run does. A scan error stops it before anything else. The
    /// tokens and the tree are shown without touching the interpreter. A
    /// parse error stops the run before the resolver, a static error before
    /// the evaluator. The program runs in the environment of a new
    /// interpreter, with the output that the interpreter had, with the table
    /// that the resolver filled and with the clock as the interpreter has it
    /// afterwards. Unless the program assigns a local variable in its own
    /// initializer, the run does not fail for a resolved variable that is
    /// missing.
    pub open spec fn ran(
        source: Seq<char>,
        option: LoxOption,
        before: Interpreter,
        after: Interpreter,
        r: RunResult,
    ) -> bool {
        let scanned = lexing::scan(source);
        let parsed = grammar::program(scanned.tokens, 0, Seq::empty());
        if scanned.errors.len() > 0 {
            r == RunResult::Failed(LoxError::Scan(scanned.errors[0])) && after == before
        } else if option == LoxOption::TOKEN {
            r is Tokens && tokens_view(r->Tokens_0@) == scanned.tokens && after == before
        } else {
            match parsed {
                Err(error) => r == RunResult::Failed(LoxError::Parse(error)) && after == before,
                Ok(stmts) => if option == LoxOption::AST {
                    r is Tree && crate::interpreter::lines_view(r->Tree_0@) == tree_lines(stmts) && after
                        == before
                } else {
                    match scoping::resolve_program(stmts, Map::empty()) {
                        Err(error) => r == RunResult::Failed(LoxError::Static(error)) && after.machine() == (
                        Machine { env: starting_env(), output: before.machine().output }),
                        Ok(table) => {
                            &&& after.locals@ == table
                            &&& stmts_patient(stmts, false) ==> !(r is Failed && r->Failed_0 is Runtime
                                && r->Failed_0->Runtime_0.kind == RuntimeErrorKind::MissingLocal)
                            &&& semantics::run(
                                Setting { locals: table, clock: after.clock },
                                stmts,
                                Machine { env: starting_env(), output: before.machine().output },
                                before.max_depth as nat,
                                before.max_steps as nat,
                            ) == (
                                after.machine(),
                                match r {
                                    RunResult::Finished => Ok::<(), RuntimeErrorView>(()),
                                    RunResult::Failed(LoxError::Runtime(error)) => Err::<(), RuntimeErrorView>(
                                        error@,
                                    ),
                                    _ => Ok::<(), RuntimeErrorView>(()),
                                },
                            )
                            &&& (r is Finished || (r is Failed && r->Failed_0 is Runtime))
                        },
                    }
                },
            }
        }
    }
}

} // verus!
