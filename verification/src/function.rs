//! What can be called: functions of the program and the native clock.

use vstd::prelude::*;
use vstd::string::*;
use std::rc::Rc;
use crate::ast::{Function, FunctionView};

verus! {

/// `Rc::clone` of std: another handle to the same declaration.
#[verifier::external_body]
pub(crate) fn share(declaration: &Rc<Function>) -> (r: Rc<Function>)
    ensures
        r == *declaration,
{
    Rc::clone(declaration)
}

/// A function of the program: its declaration, and the frame that was current
/// where the declaration was executed.
pub struct LoxFunction {
    pub declaration: Rc<Function>,
    pub closure: usize,
}

/// A value that can be called.
pub enum LoxCallable {
    /// A function of the program.
    Function(LoxFunction),
    /// The native `clock`.
    Clock,
}

/// The mathematical value of a [`LoxCallable`].
pub enum CallableView {
    Function { declaration: FunctionView, closure: int },
    Clock,
}

impl LoxFunction {
    /// The function of a declaration executed while `closure` was the current
    /// frame.
    pub fn new(declaration: &Rc<Function>, closure: usize) -> (r: Self)
        ensures
            r.declaration@ == declaration@,
            r.closure == closure,
    {
        LoxFunction { declaration: share(declaration), closure }
    }
}

impl Clone for LoxFunction {
    fn clone(&self) -> (r: Self)
        ensures
            r.declaration@ == self.declaration@,
            r.closure == self.closure,
    {
        LoxFunction { declaration: share(&self.declaration), closure: self.closure }
    }
}

impl View for LoxCallable {
    type V = CallableView;

    open spec fn view(&self) -> CallableView {
        match self {
            LoxCallable::Function(f) => CallableView::Function {
                declaration: f.declaration@,
                closure: f.closure as int,
            },
            LoxCallable::Clock => CallableView::Clock,
        }
    }
}

impl CallableView {
    /// The number of arguments that a call must pass.
    pub open spec fn arity(self) -> nat {
        match self {
            CallableView::Function { declaration, closure } => declaration.params.len(),
            CallableView::Clock => 0,
        }
    }

    /// What `print` writes for this value.
    pub open spec fn text(self) -> Seq<char> {
        match self {
            CallableView::Function { declaration, closure } => "<fn "@ + declaration.name.lexeme + ">"@,
            CallableView::Clock => "<native fn clock>"@,
        }
    }
}

impl Clone for LoxCallable {
    fn clone(&self) -> (r: Self)
        ensures
            r@ == self@,
    {
        match self {
            LoxCallable::Function(f) => LoxCallable::Function(f.clone()),
            LoxCallable::Clock => LoxCallable::Clock,
        }
    }
}

impl LoxCallable {
    /// The number of arguments that a call must pass.
    pub fn arity(&self) -> (r: usize)
        ensures
            r == self@.arity(),
    {
        match self {
            LoxCallable::Function(f) => f.declaration.params.len(),
            LoxCallable::Clock => 0,
        }
    }

    /// What `print` writes for this value.
    pub fn to_string(&self) -> (r: String)
        ensures
            r@ == self@.text(),
    {
        match self {
            LoxCallable::Function(f) => {
                let mut r = String::from_str("<fn ");
                r.append(f.declaration.name.lexeme.as_str());
                r.append(">");
                r
            },
            LoxCallable::Clock => String::from_str("<native fn clock>"),
        }
    }
}

/// The native `clock`, as a value to call.
pub fn builtin_function_clock() -> (r: LoxCallable)
    ensures
        r@ == CallableView::Clock,
{
    LoxCallable::Clock
}

} // verus!
