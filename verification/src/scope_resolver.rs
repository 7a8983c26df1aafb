//! The resolver: a walk over the program, before it runs, that fills the table
//! of resolved distances.

use vstd::prelude::*;
use crate::ast::{exprs_view, stmts_view, Expr, Function, Stmt};
use crate::errors::{StaticError, StaticErrorKind};
use crate::locals::Locals;
use crate::scoping;
use crate::scoping::Resolved;
use crate::token::Token;

verus! {

/// The readiness that a list of entries gives to each name: a later entry for
/// a name hides the earlier ones.
pub open spec fn readiness_of(names: Seq<String>, ready: Seq<bool>) -> Map<Seq<char>, bool>
    decreases names.len(),
{
    if names.len() == 0 || names.len() != ready.len() {
        Map::empty()
    } else {
        readiness_of(names.drop_last(), ready.drop_last()).insert(names.last()@, ready.last())
    }
}

proof fn lemma_readiness_push(names: Seq<String>, ready: Seq<bool>, name: String, state: bool)
    requires
        names.len() == ready.len(),
    ensures
        readiness_of(names.push(name), ready.push(state)) == readiness_of(names, ready).insert(name@, state),
{
    assert(names.push(name).drop_last() =~= names);
    assert(ready.push(state).drop_last() =~= ready);
}

proof fn lemma_readiness_absent(names: Seq<String>, ready: Seq<bool>, name: Seq<char>)
    requires
        names.len() == ready.len(),
        forall|k: int| 0 <= k < names.len() ==> names[k]@ != name,
    ensures
        !readiness_of(names, ready).contains_key(name),
    decreases names.len(),
{
    if names.len() > 0 {
        lemma_readiness_absent(names.drop_last(), ready.drop_last(), name);
    }
}

proof fn lemma_readiness_found(names: Seq<String>, ready: Seq<bool>, name: Seq<char>, i: int)
    requires
        names.len() == ready.len(),
        0 <= i < names.len(),
        names[i]@ == name,
        forall|k: int| i < k < names.len() ==> names[k]@ != name,
    ensures
        readiness_of(names, ready).contains_key(name),
        readiness_of(names, ready)[name] == ready[i],
    decreases names.len(),
{
    if i < names.len() - 1 {
        lemma_readiness_found(names.drop_last(), ready.drop_last(), name, i);
    }
}

/// One local scope: its names and their readiness, entry by entry.
pub struct Scope {
    names: Vec<String>,
    ready: Vec<bool>,
}

impl Scope {
    /// The readiness of each name of the scope.
    pub closed spec fn view(&self) -> Map<Seq<char>, bool> {
        readiness_of(self.names@, self.ready@)
    }

    closed spec fn inv(&self) -> bool {
        self.names.len() == self.ready.len()
    }

    fn new() -> (r: Scope)
        ensures
            r.inv(),
            r@ == Map::<Seq<char>, bool>::empty(),
    {
        Scope { names: Vec::new(), ready: Vec::new() }
    }

    /// The readiness of `name` in this scope, if the scope holds it.
    fn get(&self, name: &String) -> (r: Option<bool>)
        requires
            self.inv(),
        ensures
            r == if self@.contains_key(name@) {
                Some(self@[name@])
            } else {
                None
            },
    {
        let mut i: usize = self.names.len();
        while i > 0
            invariant
                self.inv(),
                i <= self.names.len(),
                forall|k: int| i <= k < self.names.len() ==> self.names[k]@ != name@,
            decreases i,
        {
            i = i - 1;
            if self.names[i] == *name {
                proof {
                    lemma_readiness_found(self.names@, self.ready@, name@, i as int);
                }
                return Some(self.ready[i]);
            }
        }
        proof {
            lemma_readiness_absent(self.names@, self.ready@, name@);
        }
        None
    }

    fn insert(&mut self, name: String, state: bool)
        requires
            old(self).inv(),
        ensures
            final(self).inv(),
            final(self)@ == old(self)@.insert(name@, state),
    {
        proof {
            lemma_readiness_push(self.names@, self.ready@, name, state);
        }
        self.names.push(name);
        self.ready.push(state);
    }
}

/// The stack of the local scopes that are open.
pub struct ScopeResolver {
    scopes: Vec<Scope>,
}

impl ScopeResolver {
    /// The stack of local scopes; the innermost scope is the last.
    pub closed spec fn view(&self) -> scoping::Scopes {
        Seq::new(self.scopes.len() as nat, |i: int| self.scopes[i]@)
    }

    /// Every scope holds as many marks as names.
    pub closed spec fn inv(&self) -> bool {
        forall|i: int| 0 <= i < self.scopes.len() ==> (#[trigger] self.scopes[i]).inv()
    }

    /// A resolver at the top level of a program: no local scope is open.
    pub fn new() -> (r: Self)
        ensures
            r.inv(),
            r@ == Seq::<Map<Seq<char>, bool>>::empty(),
    {
        let r = Self { scopes: Vec::new() };
        assert(r@ =~= Seq::<Map<Seq<char>, bool>>::empty());
        r
    }

    /// Resolves the statements of a program in order, and records the distance
    /// of each local name in `locals`. Stops at the first static error.
    pub fn resolve(&mut self, statements: &Vec<Stmt>, locals: &mut Locals) -> (r: Result<(), StaticError>)
        requires
            old(self).inv(),
        ensures
            final(self).inv(),
            r is Ok ==> final(self)@.len() == old(self)@.len(),
            match r {
                Ok(_) => scoping::resolve_stmts(stmts_view(statements@), 0, old(self)@, old(locals)@) == Ok::<Resolved, StaticError>(
                    Resolved { scopes: final(self)@, table: final(locals)@ },
                ),
                Err(error) => scoping::resolve_stmts(stmts_view(statements@), 0, old(self)@, old(locals)@)
                    == Err::<Resolved, StaticError>(error),
            },
        decreases statements,
    {
        let mut i: usize = 0;
        while i < statements.len()
            invariant
                self.inv(),
                i <= statements.len(),
                self@.len() == old(self)@.len(),
                forall|k: int| 0 <= k < statements.len() ==> decreases_to!(statements => #[trigger] statements[k]),
                scoping::resolve_stmts(stmts_view(statements@), 0, old(self)@, old(locals)@)
                    == scoping::resolve_stmts(stmts_view(statements@), i as int, self@, locals@),
            decreases statements.len() - i,
        {
            self.resolve_stmt(&statements[i], locals)?;
            i = i + 1;
        }
        Ok(())
    }

    fn begin_scope(&mut self)
        requires
            old(self).inv(),
        ensures
            final(self).inv(),
            final(self)@ == old(self)@.push(Map::empty()),
    {
        self.scopes.push(Scope::new());
        assert(self@ =~= old(self)@.push(Map::empty()));
    }

    fn end_scope(&mut self)
        requires
            old(self).inv(),
            old(self)@.len() > 0,
        ensures
            final(self).inv(),
            final(self)@ == old(self)@.drop_last(),
    {
        self.scopes.pop();
        assert(self@ =~= old(self)@.drop_last());
    }

    /// Records the distance of the node `id`, which names `name`, where a
    /// local scope holds the name.
    fn resolve_local(&self, id: usize, name: &Token, locals: &mut Locals)
        requires
            self.inv(),
        ensures
            final(locals)@ == scoping::note(old(locals)@, self@, id, name@.lexeme),
    {
        let mut hops: usize = 0;
        while hops < self.scopes.len()
            invariant
                self.inv(),
                hops <= self.scopes.len(),
                locals@ == old(locals)@,
                scoping::distance(self@, name@.lexeme, 0) == scoping::distance(self@, name@.lexeme, hops as nat),
            decreases self.scopes.len() - hops,
        {
            let index = self.scopes.len() - 1 - hops;
            assert(self@[index as int] == self.scopes[index as int]@);
            if self.scopes[index].get(&name.lexeme).is_some() {
                locals.record(id, hops);
                return ;
            }
            hops = hops + 1;
        }
    }

    fn resolve_function(&mut self, func: &Function, locals: &mut Locals) -> (r: Result<(), StaticError>)
        requires
            old(self).inv(),
        ensures
            final(self).inv(),
            r is Ok ==> final(self)@.len() == old(self)@.len(),
            match r {
                Ok(_) => scoping::resolve_function(func@, old(self)@, old(locals)@) == Ok::<Resolved, StaticError>(
                    Resolved { scopes: final(self)@, table: final(locals)@ },
                ),
                Err(error) => scoping::resolve_function(func@, old(self)@, old(locals)@) == Err::<
                    Resolved,
                    StaticError,
                >(error),
            },
        decreases func,
    {
        self.begin_scope();
        let mut i: usize = 0;
        while i < func.params.len()
            invariant
                self.inv(),
                i <= func.params.len(),
                self@.len() == old(self)@.len() + 1,
                scoping::with_params(old(self)@.push(Map::empty()), func@.params, 0) == scoping::with_params(
                    self@,
                    func@.params,
                    i as int,
                ),
            decreases func.params.len() - i,
        {
            assert(func@.params[i as int] == func.params[i as int]@);
            self.declare(&func.params[i]);
            self.define(&func.params[i]);
            i = i + 1;
        }
        self.resolve(&func.body.statements, locals)?;
        self.end_scope();
        Ok(())
    }

    fn resolve_stmt(&mut self, stmt: &Stmt, locals: &mut Locals) -> (r: Result<(), StaticError>)
        requires
            old(self).inv(),
        ensures
            final(self).inv(),
            r is Ok ==> final(self)@.len() == old(self)@.len(),
            match r {
                Ok(_) => scoping::resolve_stmt(stmt@, old(self)@, old(locals)@) == Ok::<Resolved, StaticError>(
                    Resolved { scopes: final(self)@, table: final(locals)@ },
                ),
                Err(error) => scoping::resolve_stmt(stmt@, old(self)@, old(locals)@) == Err::<
                    Resolved,
                    StaticError,
                >(error),
            },
        decreases stmt,
    {
        match stmt {
            Stmt::Expression(s) => self.resolve_expr(&s.expression, locals),
            Stmt::Print(s) => self.resolve_expr(&s.expression, locals),
            Stmt::Var(s) => {
                self.declare(&s.name);
                if let Some(initializer) = &s.initializer {
                    self.resolve_expr(initializer, locals)?;
                }
                self.define(&s.name);
                Ok(())
            },
            Stmt::Block(s) => {
                self.begin_scope();
                self.resolve(&s.statements, locals)?;
                self.end_scope();
                Ok(())
            },
            Stmt::If(s) => {
                self.resolve_expr(&s.condition, locals)?;
                self.resolve_stmt(&s.then_branch, locals)?;
                if let Some(else_branch) = &s.else_branch {
                    self.resolve_stmt(else_branch, locals)?;
                }
                Ok(())
            },
            Stmt::While(s) => {
                self.resolve_expr(&s.condition, locals)?;
                self.resolve_stmt(&s.body, locals)
            },
            Stmt::Function(f) => {
                self.declare(&f.name);
                self.define(&f.name);
                self.resolve_function(f, locals)
            },
            Stmt::Return(s) => {
                if let Some(value) = &s.value {
                    self.resolve_expr(value, locals)?;
                }
                Ok(())
            },
        }
    }

    fn resolve_expr(&self, expr: &Expr, locals: &mut Locals) -> (r: Result<(), StaticError>)
        requires
            self.inv(),
        ensures
            match r {
                Ok(_) => scoping::resolve_expr(expr@, self@, old(locals)@) == Ok::<Map<usize, nat>, StaticError>(final(locals)@),
                Err(error) => scoping::resolve_expr(expr@, self@, old(locals)@) == Err::<
                    Map<usize, nat>,
                    StaticError,
                >(error),
            },
        decreases expr,
    {
        match expr {
            Expr::Binary(e) => {
                self.resolve_expr(&e.left, locals)?;
                self.resolve_expr(&e.right, locals)
            },
            Expr::Logical(e) => {
                self.resolve_expr(&e.left, locals)?;
                self.resolve_expr(&e.right, locals)
            },
            Expr::Group(e) => self.resolve_expr(&e.expression, locals),
            Expr::Literal(_) => Ok(()),
            Expr::Unary(e) => self.resolve_expr(&e.right, locals),
            Expr::Variable(e) => {
                if self.is_unready(&e.name) {
                    return Err(StaticError::new(&e.name, StaticErrorKind::ReadInOwnInitializer));
                }
                self.resolve_local(e.id, &e.name, locals);
                Ok(())
            },
            Expr::Assign(e) => {
                self.resolve_expr(&e.value, locals)?;
                self.resolve_local(e.id, &e.name, locals);
                Ok(())
            },
            Expr::Call(e) => {
                self.resolve_expr(&e.callee, locals)?;
                let mut i: usize = 0;
                while i < e.arguments.len()
                    invariant
                        self.inv(),
                        i <= e.arguments.len(),
                        forall|k: int|
                            0 <= k < e.arguments.len() ==> decreases_to!(expr => #[trigger] e.arguments[k]),
                        scoping::resolve_expr(expr@, self@, old(locals)@) == scoping::resolve_exprs(
                            exprs_view(e.arguments@),
                            i as int,
                            self@,
                            locals@,
                        ),
                    decreases e.arguments.len() - i,
                {
                    self.resolve_expr(&e.arguments[i], locals)?;
                    i = i + 1;
                }
                Ok(())
            },
        }
    }

    /// Whether the innermost scope holds the name, not ready.
    fn is_unready(&self, token: &Token) -> (r: bool)
        requires
            self.inv(),
        ensures
            r == scoping::unready(self@, token@.lexeme),
    {
        if self.scopes.len() == 0 {
            return false;
        }
        let last = self.scopes.len() - 1;
        assert(self@.last() == self.scopes[last as int]@);
        match self.scopes[last].get(&token.lexeme) {
            Some(ready) => !ready,
            None => false,
        }
    }

    fn declare(&mut self, token: &Token)
        requires
            old(self).inv(),
        ensures
            final(self).inv(),
            final(self)@ == scoping::declare(old(self)@, token@.lexeme),
    {
        self.mark(token, false);
    }

    fn define(&mut self, token: &Token)
        requires
            old(self).inv(),
        ensures
            final(self).inv(),
            final(self)@ == scoping::define(old(self)@, token@.lexeme),
    {
        self.mark(token, true);
    }

    fn mark(&mut self, token: &Token, ready: bool)
        requires
            old(self).inv(),
        ensures
            final(self).inv(),
            final(self)@ == scoping::mark(old(self)@, token@.lexeme, ready),
    {
        if self.scopes.len() == 0 {
            return ;
        }
        let last = self.scopes.len() - 1;
        assert(self@.last() == self.scopes[last as int]@);
        self.scopes[last].insert(token.lexeme.clone(), ready);
        assert(self@ =~= scoping::mark(old(self)@, token@.lexeme, ready));
    }
}

} // verus!
