//! The values of the language.

use vstd::prelude::*;
use vstd::string::*;
use crate::function::{CallableView, LoxCallable};
use crate::number;
use crate::token::{LiteralView, TokenLiteral};

verus! {

/// A value at run time. A number is held as its binary64 pattern.
pub enum LoxValue {
    Number(u64),
    String(String),
    Bool(bool),
    Nil,
    Callable(LoxCallable),
}

/// The mathematical value of a [`LoxValue`].
pub enum ValueView {
    Number(u64),
    Text(Seq<char>),
    Bool(bool),
    Nil,
    Callable(CallableView),
}

impl View for LoxValue {
    type V = ValueView;

    open spec fn view(&self) -> ValueView {
        match self {
            LoxValue::Number(bits) => ValueView::Number(*bits),
            LoxValue::String(text) => ValueView::Text(text@),
            LoxValue::Bool(b) => ValueView::Bool(*b),
            LoxValue::Nil => ValueView::Nil,
            LoxValue::Callable(c) => ValueView::Callable(c@),
        }
    }
}

/// The views of a sequence of values.
pub open spec fn values_view(values: Seq<LoxValue>) -> Seq<ValueView> {
    Seq::new(values.len(), |i: int| values[i]@)
}

impl ValueView {
    /// Every value is truthy but `nil` and `false`.
    pub open spec fn truthy(self) -> bool {
        match self {
            ValueView::Nil => false,
            ValueView::Bool(b) => b,
            _ => true,
        }
    }

    /// The equality of `==`: numbers by IEEE-754, strings and booleans by
    /// value, `nil` with `nil`; values of different kinds are never equal, and
    /// a callable equals nothing.
    pub open spec fn equals(self, other: ValueView) -> bool {
        match (self, other) {
            (ValueView::Number(a), ValueView::Number(b)) => number::spec_equal(a, b),
            (ValueView::Text(a), ValueView::Text(b)) => a == b,
            (ValueView::Bool(a), ValueView::Bool(b)) => a == b,
            (ValueView::Nil, ValueView::Nil) => true,
            _ => false,
        }
    }

    /// Two values are of the same kind.
    pub open spec fn same_kind(self, other: ValueView) -> bool {
        match (self, other) {
            (ValueView::Number(_), ValueView::Number(_)) => true,
            (ValueView::Text(_), ValueView::Text(_)) => true,
            (ValueView::Bool(_), ValueView::Bool(_)) => true,
            (ValueView::Nil, ValueView::Nil) => true,
            (ValueView::Callable(_), ValueView::Callable(_)) => true,
            _ => false,
        }
    }

    /// What `print` writes for this value.
    pub open spec fn text(self) -> Seq<char> {
        match self {
            ValueView::Number(bits) => number::text_of(bits),
            ValueView::Text(text) => text,
            ValueView::Bool(b) => if b {
                "true"@
            } else {
                "false"@
            },
            ValueView::Nil => "nil"@,
            ValueView::Callable(c) => c.text(),
        }
    }

    /// The value of a literal.
    pub open spec fn of_literal(literal: LiteralView) -> ValueView {
        match literal {
            LiteralView::Number(bits) => ValueView::Number(bits),
            LiteralView::Text(text) => ValueView::Text(text),
            LiteralView::Bool(b) => ValueView::Bool(b),
            LiteralView::Nil => ValueView::Nil,
        }
    }
}

impl Clone for LoxValue {
    fn clone(&self) -> (r: Self)
        ensures
            r@ == self@,
    {
        match self {
            LoxValue::Number(bits) => LoxValue::Number(*bits),
            LoxValue::String(text) => LoxValue::String(text.clone()),
            LoxValue::Bool(b) => LoxValue::Bool(*b),
            LoxValue::Nil => LoxValue::Nil,
            LoxValue::Callable(c) => LoxValue::Callable(c.clone()),
        }
    }
}

impl Default for LoxValue {
    fn default() -> (r: Self)
        ensures
            r@ == ValueView::Nil,
    {
        LoxValue::Nil
    }
}

impl LoxValue {
    /// The value of a literal.
    pub fn of_literal(literal: &TokenLiteral) -> (r: LoxValue)
        ensures
            r@ == ValueView::of_literal(literal@),
    {
        match literal {
            TokenLiteral::Number(bits) => LoxValue::Number(*bits),
            TokenLiteral::String(text) => LoxValue::String(text.clone()),
            TokenLiteral::Bool(b) => LoxValue::Bool(*b),
            TokenLiteral::Nil => LoxValue::Nil,
        }
    }

    /// What `print` writes for this value.
    pub fn to_string(&self) -> (r: String)
        ensures
            r@ == self@.text(),
    {
        match self {
            LoxValue::Number(bits) => number::to_text(*bits),
            LoxValue::String(text) => text.clone(),
            LoxValue::Bool(b) => if *b {
                String::from_str("true")
            } else {
                String::from_str("false")
            },
            LoxValue::Nil => String::from_str("nil"),
            LoxValue::Callable(c) => c.to_string(),
        }
    }
}

/// Whether a value counts as true.
pub fn is_truthy(object: &LoxValue) -> (r: bool)
    ensures
        r == object@.truthy(),
{
    match object {
        LoxValue::Nil => false,
        LoxValue::Bool(b) => *b,
        _ => true,
    }
}

/// Whether two values are equal under `==`.
pub fn is_equal(a: &LoxValue, b: &LoxValue) -> (r: bool)
    ensures
        r == a@.equals(b@),
{
    match (a, b) {
        (LoxValue::Number(x), LoxValue::Number(y)) => number::equal(*x, *y),
        (LoxValue::String(x), LoxValue::String(y)) => *x == *y,
        (LoxValue::Bool(x), LoxValue::Bool(y)) => *x == *y,
        (LoxValue::Nil, LoxValue::Nil) => true,
        _ => false,
    }
}

/// Equality is reflexive on every value but a NaN and a callable.
pub proof fn lemma_equals_reflexive(a: ValueView)
    ensures
        a.equals(a) == match a {
            ValueView::Number(bits) => !number::is_nan(bits),
            ValueView::Callable(_) => false,
            _ => true,
        },
{
}

/// Equality is symmetric.
pub proof fn lemma_equals_symmetric(a: ValueView, b: ValueView)
    ensures
        a.equals(b) == b.equals(a),
{
}

/// Equality is transitive.
pub proof fn lemma_equals_transitive(a: ValueView, b: ValueView, c: ValueView)
    requires
        a.equals(b),
        b.equals(c),
    ensures
        a.equals(c),
{
}

/// Values of different kinds are never equal.
pub proof fn lemma_equals_same_kind(a: ValueView, b: ValueView)
    requires
        a.equals(b),
    ensures
        a.same_kind(b),
{
}

} // verus!
