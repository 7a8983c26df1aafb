//! The syntax tree: expressions and statements, and their mathematical views.
//!
//! Every `Variable` and `Assign` node carries an `id`: the index, in the token
//! sequence it was parsed from, of the token that names the variable. The id is
//! the node's identity in the table of resolved distances.

use vstd::prelude::*;
use std::rc::Rc;
use crate::token::{Token, TokenLiteral, TokenView, LiteralView};

verus! {

/// An arithmetic, comparison or equality operator between two operands.
pub struct Binary {
    pub left: Box<Expr>,
    pub operator: Token,
    pub right: Box<Expr>,
}

/// An expression in parentheses.
pub struct Group {
    pub expression: Box<Expr>,
}

/// A unary operator before its operand.
pub struct Unary {
    pub operator: Token,
    pub right: Box<Expr>,
}

/// A literal value.
pub struct Literal {
    pub value: TokenLiteral,
}

/// The use of a variable.
pub struct Variable {
    pub name: Token,
    pub id: usize,
}

/// An assignment to a variable.
pub struct Assign {
    pub name: Token,
    pub value: Box<Expr>,
    pub id: usize,
}

/// `and` or `or` between two operands; the right one is evaluated only where
/// the left one does not settle the result.
pub struct Logical {
    pub left: Box<Expr>,
    pub operator: Token,
    pub right: Box<Expr>,
}

/// A call; `paren` is the parenthesis that closes its arguments.
pub struct Call {
    pub callee: Box<Expr>,
    pub paren: Token,
    pub arguments: Vec<Expr>,
}

/// An expression.
pub enum Expr {
    Binary(Binary),
    Group(Group),
    Literal(Literal),
    Unary(Unary),
    Variable(Variable),
    Assign(Assign),
    Logical(Logical),
    Call(Call),
}

/// An expression evaluated for what it does.
pub struct Expression {
    pub expression: Expr,
}

/// A `print` statement.
pub struct Print {
    pub expression: Expr,
}

/// A variable declaration, with or without an initializer.
pub struct Var {
    pub name: Token,
    pub initializer: Option<Expr>,
}

/// Statements in braces.
pub struct Block {
    pub statements: Vec<Stmt>,
}

/// An `if` statement, with or without an `else`.
pub struct If {
    pub condition: Expr,
    pub then_branch: Box<Stmt>,
    pub else_branch: Option<Box<Stmt>>,
}

/// A `while` statement; a `for` statement is rewritten as one.
pub struct While {
    pub condition: Expr,
    pub body: Box<Stmt>,
}

/// A function declaration.
pub struct Function {
    pub name: Token,
    pub params: Vec<Token>,
    pub body: Block,
}

/// A `return` statement, with or without a value.
pub struct Return {
    pub keyword: Token,
    pub value: Option<Expr>,
}

/// A statement. A function declaration is shared with the functions made of
/// it.
pub enum Stmt {
    Expression(Expression),
    Print(Print),
    Var(Var),
    Block(Block),
    If(If),
    While(While),
    Function(Rc<Function>),
    Return(Return),
}

/// The mathematical value of an [`Expr`].
#[allow(inconsistent_fields)]
pub enum ExprView {
    Binary { left: Box<ExprView>, operator: TokenView, right: Box<ExprView> },
    Group { expression: Box<ExprView> },
    Literal { value: LiteralView },
    Unary { operator: TokenView, right: Box<ExprView> },
    Variable { name: TokenView, id: usize },
    Assign { name: TokenView, value: Box<ExprView>, id: usize },
    Logical { left: Box<ExprView>, operator: TokenView, right: Box<ExprView> },
    Call { callee: Box<ExprView>, paren: TokenView, arguments: Seq<ExprView> },
}

/// The mathematical value of a [`Function`] declaration.
pub struct FunctionView {
    pub name: TokenView,
    pub params: Seq<TokenView>,
    pub body: Seq<StmtView>,
}

/// The mathematical value of a [`Stmt`].
#[allow(inconsistent_fields)]
pub enum StmtView {
    Expression { expression: ExprView },
    Print { expression: ExprView },
    Var { name: TokenView, initializer: Option<ExprView> },
    Block { statements: Seq<StmtView> },
    If { condition: ExprView, then_branch: Box<StmtView>, else_branch: Option<Box<StmtView>> },
    While { condition: ExprView, body: Box<StmtView> },
    Function { declaration: FunctionView },
    Return { keyword: TokenView, value: Option<ExprView> },
}

/// The views of a sequence of expressions.
pub open spec fn exprs_view(exprs: Seq<Expr>) -> Seq<ExprView>
    decreases exprs,
{
    Seq::new(
        exprs.len(),
        |i: int|
            if 0 <= i < exprs.len() {
                exprs[i]@
            } else {
                ExprView::Literal { value: LiteralView::Nil }
            },
    )
}

/// The views of a sequence of statements.
pub open spec fn stmts_view(stmts: Seq<Stmt>) -> Seq<StmtView>
    decreases stmts,
{
    Seq::new(
        stmts.len(),
        |i: int|
            if 0 <= i < stmts.len() {
                stmts[i]@
            } else {
                StmtView::Block { statements: Seq::empty() }
            },
    )
}

/// The view of an optional expression.
pub open spec fn option_view(expr: Option<Expr>) -> Option<ExprView>
    decreases expr,
{
    match expr {
        Some(e) => Some(e@),
        None => None,
    }
}

/// The view of an optional statement.
pub open spec fn option_stmt_view(stmt: Option<Stmt>) -> Option<StmtView>
    decreases stmt,
{
    match stmt {
        Some(s) => Some(s@),
        None => None,
    }
}

impl Expr {
    /// The mathematical value of the expression.
    pub open spec fn view(&self) -> ExprView
        decreases self,
    {
        match self {
            Expr::Binary(e) => ExprView::Binary {
                left: Box::new(e.left@),
                operator: e.operator@,
                right: Box::new(e.right@),
            },
            Expr::Group(e) => ExprView::Group { expression: Box::new(e.expression@) },
            Expr::Literal(e) => ExprView::Literal { value: e.value@ },
            Expr::Unary(e) => ExprView::Unary { operator: e.operator@, right: Box::new(e.right@) },
            Expr::Variable(e) => ExprView::Variable { name: e.name@, id: e.id },
            Expr::Assign(e) => ExprView::Assign {
                name: e.name@,
                value: Box::new(e.value@),
                id: e.id,
            },
            Expr::Logical(e) => ExprView::Logical {
                left: Box::new(e.left@),
                operator: e.operator@,
                right: Box::new(e.right@),
            },
            Expr::Call(e) => ExprView::Call {
                callee: Box::new(e.callee@),
                paren: e.paren@,
                arguments: exprs_view(e.arguments@),
            },
        }
    }
}

impl Function {
    /// The mathematical value of the declaration.
    pub open spec fn view(&self) -> FunctionView
        decreases self,
    {
        FunctionView {
            name: self.name@,
            params: crate::token::tokens_view(self.params@),
            body: stmts_view(self.body.statements@),
        }
    }
}

impl Stmt {
    /// The mathematical value of the statement.
    pub open spec fn view(&self) -> StmtView
        decreases self,
    {
        match self {
            Stmt::Expression(s) => StmtView::Expression { expression: s.expression@ },
            Stmt::Print(s) => StmtView::Print { expression: s.expression@ },
            Stmt::Var(s) => StmtView::Var { name: s.name@, initializer: option_view(s.initializer) },
            Stmt::Block(s) => StmtView::Block { statements: stmts_view(s.statements@) },
            Stmt::If(s) => StmtView::If {
                condition: s.condition@,
                then_branch: Box::new(s.then_branch@),
                else_branch: match s.else_branch {
                    Some(e) => Some(Box::new(e@)),
                    None => None,
                },
            },
            Stmt::While(s) => StmtView::While { condition: s.condition@, body: Box::new(s.body@) },
            Stmt::Function(f) => StmtView::Function { declaration: f@ },
            Stmt::Return(s) => StmtView::Return { keyword: s.keyword@, value: option_view(s.value) },
        }
    }
}

impl Binary {
    /// The expression `left operator right`.
    pub fn build(left: Expr, operator: Token, right: Expr) -> (r: Expr)
        ensures
            r@ == (ExprView::Binary {
                left: Box::new(left@),
                operator: operator@,
                right: Box::new(right@),
            }),
    {
        Expr::Binary(Binary { left: Box::new(left), operator, right: Box::new(right) })
    }
}

impl Group {
    /// The expression in parentheses.
    pub fn build(expression: Expr) -> (r: Expr)
        ensures
            r@ == (ExprView::Group { expression: Box::new(expression@) }),
    {
        Expr::Group(Group { expression: Box::new(expression) })
    }
}

impl Unary {
    /// The expression `operator right`.
    pub fn build(operator: Token, right: Expr) -> (r: Expr)
        ensures
            r@ == (ExprView::Unary { operator: operator@, right: Box::new(right@) }),
    {
        Expr::Unary(Unary { operator, right: Box::new(right) })
    }
}

impl Literal {
    /// The literal of a value.
    pub fn build(value: TokenLiteral) -> (r: Expr)
        ensures
            r@ == (ExprView::Literal { value: value@ }),
    {
        Expr::Literal(Literal { value })
    }
}

impl Variable {
    /// The use of the variable `name`, as the node `id`.
    pub fn build(name: Token, id: usize) -> (r: Expr)
        ensures
            r@ == (ExprView::Variable { name: name@, id: id }),
    {
        Expr::Variable(Variable { name, id })
    }
}

impl Assign {
    /// The assignment of `value` to the variable `name`, as the node `id`.
    pub fn build(name: Token, value: Expr, id: usize) -> (r: Expr)
        ensures
            r@ == (ExprView::Assign { name: name@, value: Box::new(value@), id: id }),
    {
        Expr::Assign(Assign { name, value: Box::new(value), id })
    }
}

impl Logical {
    /// The expression `left operator right`.
    pub fn build(left: Expr, operator: Token, right: Expr) -> (r: Expr)
        ensures
            r@ == (ExprView::Logical {
                left: Box::new(left@),
                operator: operator@,
                right: Box::new(right@),
            }),
    {
        Expr::Logical(Logical { left: Box::new(left), operator, right: Box::new(right) })
    }
}

impl Call {
    /// The call of `callee` with `arguments`.
    pub fn build(callee: Expr, paren: Token, arguments: Vec<Expr>) -> (r: Expr)
        ensures
            r@ == (ExprView::Call {
                callee: Box::new(callee@),
                paren: paren@,
                arguments: exprs_view(arguments@),
            }),
    {
        Expr::Call(Call { callee: Box::new(callee), paren, arguments })
    }
}

impl Expression {
    /// The statement of an expression.
    pub fn build(expression: Expr) -> (r: Stmt)
        ensures
            r@ == (StmtView::Expression { expression: expression@ }),
    {
        Stmt::Expression(Expression { expression })
    }
}

impl Print {
    /// The statement of an expression.
    pub fn build(expression: Expr) -> (r: Stmt)
        ensures
            r@ == (StmtView::Print { expression: expression@ }),
    {
        Stmt::Print(Print { expression })
    }
}

impl Var {
    /// The declaration of the variable `name`.
    pub fn build(name: Token, initializer: Option<Expr>) -> (r: Stmt)
        ensures
            r@ == (StmtView::Var { name: name@, initializer: option_view(initializer) }),
    {
        Stmt::Var(Var { name, initializer })
    }
}

impl Block {
    /// The block of some statements.
    pub fn build(statements: Vec<Stmt>) -> (r: Stmt)
        ensures
            r@ == (StmtView::Block { statements: stmts_view(statements@) }),
    {
        Stmt::Block(Block { statements })
    }
}

impl If {
    /// The `if` statement of a condition and its branches.
    pub fn build(condition: Expr, then_branch: Stmt, else_branch: Option<Stmt>) -> (r: Stmt)
        ensures
            r@ == (StmtView::If {
                condition: condition@,
                then_branch: Box::new(then_branch@),
                else_branch: match else_branch {
                    Some(e) => Some(Box::new(e@)),
                    None => None,
                },
            }),
    {
        let else_branch = match else_branch {
            Some(e) => Some(Box::new(e)),
            None => None,
        };
        Stmt::If(If { condition, then_branch: Box::new(then_branch), else_branch })
    }
}

impl While {
    /// The `while` statement of a condition and a body.
    pub fn build(condition: Expr, body: Stmt) -> (r: Stmt)
        ensures
            r@ == (StmtView::While { condition: condition@, body: Box::new(body@) }),
    {
        Stmt::While(While { condition, body: Box::new(body) })
    }
}

impl Function {
    /// The declaration of the function `name`.
    pub fn build(name: Token, params: Vec<Token>, body: Vec<Stmt>) -> (r: Stmt)
        ensures
            r@ == (StmtView::Function {
                declaration: FunctionView {
                    name: name@,
                    params: crate::token::tokens_view(params@),
                    body: stmts_view(body@),
                },
            }),
    {
        let declaration = Function { name, params, body: Block { statements: body } };
        assert(declaration@.body == stmts_view(body@));
        let r = Stmt::Function(Rc::new(declaration));
        assert(r@ == StmtView::Function { declaration: declaration@ });
        r
    }
}

impl Return {
    /// The `return` statement at `keyword`.
    pub fn build(keyword: Token, value: Option<Expr>) -> (r: Stmt)
        ensures
            r@ == (StmtView::Return { keyword: keyword@, value: option_view(value) }),
    {
        Stmt::Return(Return { keyword, value })
    }
}

} // verus!
