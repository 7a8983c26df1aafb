//! The parser: recursive descent over a token sequence.

use vstd::prelude::*;
use crate::ast::{
    exprs_view, option_stmt_view, option_view, stmts_view, Assign, Binary, Block, Call, Expr, ExprView, Expression, Function,
    Group, If, Literal, Logical, Print, Return, Stmt, StmtView, Unary, Var, Variable, While,
};
use crate::agreement::{
    expr_ids, exprs_ids, expr_tidy, exprs_tidy, lemma_desugar_for_tidy, lemma_exprs_ids_push, lemma_stmts_ids_push, option_tidy,
    stmt_tidy, stmts_tidy,
};
use crate::binding::is_declaration;
use crate::roundtrip::{lemma_render_then_parse, shape_of_stmts};
use crate::rendering::{
    relabel_items, render_program,
    all_canonical, all_identifiers, canonical, canonical_items, canonical_option, canonical_stmt, closed,
    lemma_desugar_for_canonical, lemma_level_operator, rank,
};
use crate::errors::{ParseError, ParseErrorKind};
use crate::grammar;
use crate::grammar::Parse;
use crate::token::{tokens_view, Token, TokenLiteral, TokenType, TokenView};

verus! {

/// The tokens, and the position of the next one to read.
pub struct Parser {
    current: usize,
    tokens: Vec<Token>,
}

/// What a parsing step that gave `r` and stopped at `next` says of the grammar.
pub open spec fn expr_outcome(r: Result<Expr, ParseError>, next: int) -> Parse<ExprView> {
    match r {
        Ok(e) => Parse::Done { value: e@, next },
        Err(error) => Parse::Failed { error },
    }
}

/// What a parsing step that gave `r` and stopped at `next` says of the grammar.
pub open spec fn stmt_outcome(r: Result<Stmt, ParseError>, next: int) -> Parse<StmtView> {
    match r {
        Ok(s) => Parse::Done { value: s@, next },
        Err(error) => Parse::Failed { error },
    }
}

/// What parsing a program that gave `r` says of the grammar.
pub open spec fn program_outcome(r: Result<Vec<Stmt>, ParseError>) -> Result<Seq<StmtView>, ParseError> {
    match r {
        Ok(stmts) => Ok(stmts_view(stmts@)),
        Err(error) => Err(error),
    }
}

/// The views of a list with one more expression at its end.
pub proof fn lemma_exprs_view_push(exprs: Seq<Expr>, e: Expr)
    ensures
        exprs_view(exprs.push(e)) == exprs_view(exprs).push(e@),
{
    assert(exprs_view(exprs.push(e)) =~= exprs_view(exprs).push(e@));
}

/// The views of a list with one more statement at its end.
pub proof fn lemma_stmts_view_push(stmts: Seq<Stmt>, s: Stmt)
    ensures
        stmts_view(stmts.push(s)) == stmts_view(stmts).push(s@),
{
    assert(stmts_view(stmts.push(s)) =~= stmts_view(stmts).push(s@));
}

/// The views of a list with one more token at its end.
pub proof fn lemma_tokens_view_push(tokens: Seq<Token>, t: Token)
    ensures
        tokens_view(tokens.push(t)) == tokens_view(tokens).push(t@),
{
    assert(tokens_view(tokens.push(t)) =~= tokens_view(tokens).push(t@));
}

impl Parser {
    /// The token sequence that this parser reads.
    pub closed spec fn source(&self) -> Seq<TokenView> {
        tokens_view(self.tokens@)
    }

    /// The position of the next token to read.
    pub closed spec fn position(&self) -> int {
        self.current as int
    }

    /// The parser stands inside a sequence that ends with the end-of-stream
    /// token.
    pub closed spec fn wf(&self) -> bool {
        grammar::well_formed(self.source()) && self.current < self.tokens.len()
    }

    /// The parser has the same input as `before` and has not moved back.
    spec fn follows(&self, before: &Parser) -> bool {
        self.tokens == before.tokens && self.wf() && before.current <= self.current
    }

    /// A parser at the start of `tokens`.
    pub fn new(tokens: Vec<Token>) -> (r: Self)
        requires
            grammar::well_formed(tokens_view(tokens@)),
        ensures
            r.wf(),
            r.source() == tokens_view(tokens@),
            r.position() == 0,
    {
        Self { current: 0, tokens }
    }

    /// Parses the program that the tokens from the current position on spell:
    /// its declarations in order, or the first error. No function of the
    /// program has more parameters, and no call more arguments, than the limit
    /// allows; no two variables share an id; and parsing the rendering of the
    /// program gives the program again, up to the ids.
    pub fn parse(self) -> (r: Result<Vec<Stmt>, ParseError>)
        requires
            self.wf(),
        ensures
            program_outcome(r) == grammar::program(self.source(), self.position(), Seq::empty()),
            r is Ok ==> grammar::stmts_bounded(stmts_view(r->Ok_0@)),
            r is Ok ==> stmts_tidy(stmts_view(r->Ok_0@), self.position(), self.source().len() as int),
            r is Ok ==> canonical_items(stmts_view(r->Ok_0@)),
            r is Ok ==> grammar::well_formed(render_program(stmts_view(r->Ok_0@))),
            r is Ok ==> grammar::program(render_program(stmts_view(r->Ok_0@)), 0, Seq::empty()) == Ok::<
                Seq<StmtView>,
                ParseError,
            >(relabel_items(stmts_view(r->Ok_0@), 0, 0)),
            r is Ok ==> shape_of_stmts(relabel_items(stmts_view(r->Ok_0@), 0, 0)) == shape_of_stmts(
                stmts_view(r->Ok_0@),
            ),
    {
        let mut parser = self;
        let mut stmts: Vec<Stmt> = Vec::new();
        assert(stmts_view(stmts@) =~= Seq::empty());
        while !parser._is_end()
            invariant
                parser.follows(&self),
                grammar::stmts_bounded(stmts_view(stmts@)),
                stmts_tidy(stmts_view(stmts@), self.current as int, parser.current as int),
                canonical_items(stmts_view(stmts@)),
                grammar::program(self.source(), self.position(), Seq::empty()) == grammar::program(
                    self.source(),
                    parser.current as int,
                    stmts_view(stmts@),
                ),
            decreases parser.tokens.len() - parser.current,
        {
            let ghost before = parser.current as int;
            let stmt = parser.declaration()?;
            proof {
                lemma_stmts_view_push(stmts@, stmt);
                lemma_stmts_ids_push(stmts_view(stmts@), stmt@, 0);
            }
            stmts.push(stmt);
        }
        proof {
            lemma_render_then_parse(stmts_view(stmts@));
        }
        Ok(stmts)
    }

    /// Parses one expression from the current position on, and stops behind
    /// it.
    pub fn parse_expression(&mut self) -> (r: Result<Expr, ParseError>)
        requires
            old(self).wf(),
        ensures
            final(self).wf(),
            final(self).source() == old(self).source(),
            r is Ok ==> grammar::expr_bounded(r->Ok_0@),
            r is Ok ==> expr_tidy(r->Ok_0@, old(self).position(), final(self).position()),
            r is Ok ==> canonical(r->Ok_0@),
            expr_outcome(r, final(self).position()) == grammar::expression(
                old(self).source(),
                old(self).position(),
            ),
    {
        self.expression()
    }

    fn declaration(&mut self) -> (r: Result<Stmt, ParseError>)
        requires
            old(self).wf(),
        ensures
            final(self).follows(old(self)),
            r is Ok ==> old(self).current < final(self).current,
            r is Ok ==> grammar::stmt_bounded(r->Ok_0@),
            r is Ok ==> stmt_tidy(r->Ok_0@, old(self).current as int, final(self).current as int),
            r is Ok ==> canonical_stmt(r->Ok_0@),
            r is Ok && !closed(r->Ok_0@) ==> final(self).source()[final(self).current as int].kind != TokenType::ELSE,
            stmt_outcome(r, final(self).current as int) == grammar::declaration(
                old(self).source(),
                old(self).current as int,
            ),
        decreases old(self).tokens.len() - old(self).current, 31int,
    {
        if self._check(TokenType::FUN) {
            self._advance();
            return self.function();
        }
        if self._check(TokenType::VAR) {
            self._advance();
            return self.var_declaration();
        }
        self.statement()
    }

    fn function(&mut self) -> (r: Result<Stmt, ParseError>)
        requires
            old(self).wf(),
        ensures
            final(self).follows(old(self)),
            r is Ok ==> old(self).current < final(self).current,
            r is Ok ==> grammar::stmt_bounded(r->Ok_0@),
            r is Ok ==> stmt_tidy(r->Ok_0@, old(self).current as int, final(self).current as int),
            r is Ok ==> canonical_stmt(r->Ok_0@),
            r is Ok && !closed(r->Ok_0@) ==> final(self).source()[final(self).current as int].kind != TokenType::ELSE,
            stmt_outcome(r, final(self).current as int) == grammar::function(
                old(self).source(),
                old(self).current as int,
            ),
        decreases old(self).tokens.len() - old(self).current, 33int,
    {
        let ghost ts = self.source();
        let ghost start = self.current as int;
        let name_at = self.current;
        self._consume(TokenType::IDENTIFIER, ParseErrorKind::ExpectFunctionName)?;
        let name = self.tokens[name_at].clone();
        self._consume(TokenType::LEFTPAREN, ParseErrorKind::ExpectLeftParenAfterFunctionName)?;
        let mut params: Vec<Token> = Vec::new();
        assert(tokens_view(params@) =~= Seq::empty());
        let mut more = !self._check(TokenType::RIGHTPAREN);
        let ghost listed = if grammar::check(ts, start + 2, TokenType::RIGHTPAREN) {
            Parse::Done { value: Seq::<TokenView>::empty(), next: start + 2 }
        } else {
            grammar::parameters(ts, start + 2, Seq::empty())
        };
        while more
            invariant
                self.follows(old(self)),
                ts == old(self).source(),
                start == old(self).current,
                start + 2 <= self.current,
                params.len() <= grammar::MAX_ARITY,
                all_identifiers(tokens_view(params@)),
                listed is Failed ==> grammar::function(ts, start) == (Parse::<StmtView>::Failed {
                    error: listed->error,
                }),
                more ==> listed == grammar::parameters(ts, self.current as int, tokens_view(params@)),
                !more ==> listed == (Parse::Done { value: tokens_view(params@), next: self.current as int }),
            decreases self.tokens.len() - self.current, if more { 1int } else { 0int },
        {
            if params.len() >= 255 {
                return Err(ParseError::new(self._peek(), ParseErrorKind::TooManyParameters));
            }
            let at = self.current;
            self._consume(TokenType::IDENTIFIER, ParseErrorKind::ExpectParameterName)?;
            let param = self.tokens[at].clone();
            proof {
                lemma_tokens_view_push(params@, param);
            }
            params.push(param);
            if self._check(TokenType::COMMA) {
                self._advance();
            } else {
                more = false;
            }
        }
        self._consume(TokenType::RIGHTPAREN, ParseErrorKind::ExpectRightParenAfterParameters)?;
        self._consume(TokenType::LEFTBRACE, ParseErrorKind::ExpectLeftBraceBeforeFunctionBody)?;
        let body = self.block()?;
        Ok(Function::build(name, params, body))
    }

    fn var_declaration(&mut self) -> (r: Result<Stmt, ParseError>)
        requires
            old(self).wf(),
        ensures
            final(self).follows(old(self)),
            r is Ok ==> old(self).current < final(self).current,
            r is Ok ==> grammar::stmt_bounded(r->Ok_0@),
            r is Ok ==> stmt_tidy(r->Ok_0@, old(self).current as int, final(self).current as int),
            r is Ok ==> canonical_stmt(r->Ok_0@),
            r is Ok && !closed(r->Ok_0@) ==> final(self).source()[final(self).current as int].kind != TokenType::ELSE,
            stmt_outcome(r, final(self).current as int) == grammar::var_declaration(
                old(self).source(),
                old(self).current as int,
            ),
        decreases old(self).tokens.len() - old(self).current, 26int,
    {
        let name_at = self.current;
        self._consume(TokenType::IDENTIFIER, ParseErrorKind::ExpectVariableName)?;
        let name = self.tokens[name_at].clone();
        let initializer = if self._check(TokenType::EQUAL) {
            self._advance();
            Some(self.expression()?)
        } else {
            None
        };
        self._consume(TokenType::SEMICOLON, ParseErrorKind::ExpectSemicolonAfterVariableDeclaration)?;
        Ok(Var::build(name, initializer))
    }

    #[verifier::rlimit(40)]
    fn statement(&mut self) -> (r: Result<Stmt, ParseError>)
        requires
            old(self).wf(),
        ensures
            final(self).follows(old(self)),
            r is Ok ==> old(self).current < final(self).current,
            r is Ok ==> grammar::stmt_bounded(r->Ok_0@),
            r is Ok ==> !is_declaration(r->Ok_0@),
            r is Ok ==> stmt_tidy(r->Ok_0@, old(self).current as int, final(self).current as int),
            r is Ok ==> canonical_stmt(r->Ok_0@),
            r is Ok && !closed(r->Ok_0@) ==> final(self).source()[final(self).current as int].kind != TokenType::ELSE,
            stmt_outcome(r, final(self).current as int) == grammar::statement(
                old(self).source(),
                old(self).current as int,
            ),
        decreases old(self).tokens.len() - old(self).current, 30int,
    {
        if self._check(TokenType::FOR) {
            self._advance();
            return self.for_statement();
        }
        if self._check(TokenType::IF) {
            self._advance();
            return self.if_statement();
        }
        if self._check(TokenType::PRINT) {
            self._advance();
            return self.print_statement();
        }
        if self._check(TokenType::RETURN) {
            self._advance();
            return self.return_statement();
        }
        if self._check(TokenType::WHILE) {
            self._advance();
            return self.while_statement();
        }
        if self._check(TokenType::LEFTBRACE) {
            self._advance();
            let statements = self.block()?;
            return Ok(Block::build(statements));
        }
        self.expression_statement()
    }

    #[verifier::rlimit(60)]
    fn for_statement(&mut self) -> (r: Result<Stmt, ParseError>)
        requires
            old(self).wf(),
        ensures
            final(self).follows(old(self)),
            r is Ok ==> old(self).current < final(self).current,
            r is Ok ==> grammar::stmt_bounded(r->Ok_0@),
            r is Ok ==> !is_declaration(r->Ok_0@),
            r is Ok ==> stmt_tidy(r->Ok_0@, old(self).current as int, final(self).current as int),
            r is Ok ==> canonical_stmt(r->Ok_0@),
            r is Ok && !closed(r->Ok_0@) ==> final(self).source()[final(self).current as int].kind != TokenType::ELSE,
            stmt_outcome(r, final(self).current as int) == grammar::for_statement(
                old(self).source(),
                old(self).current as int,
            ),
        decreases old(self).tokens.len() - old(self).current, 28int,
    {
        self._consume(TokenType::LEFTPAREN, ParseErrorKind::ExpectLeftParenAfterFor)?;
        let ghost at_first = self.current as int;
        let initializer = if self._check(TokenType::SEMICOLON) {
            self._advance();
            None
        } else if self._check(TokenType::VAR) {
            self._advance();
            Some(self.var_declaration()?)
        } else {
            Some(self.expression_statement()?)
        };
        let ghost at_second = self.current as int;
        let condition = self.optional_expression(TokenType::SEMICOLON)?;
        self._consume(TokenType::SEMICOLON, ParseErrorKind::ExpectSemicolonAfterLoopCondition)?;
        let ghost at_third = self.current as int;
        let increment = self.optional_expression(TokenType::RIGHTPAREN)?;
        self._consume(TokenType::RIGHTPAREN, ParseErrorKind::ExpectRightParenAfterForClauses)?;
        let ghost at_fourth = self.current as int;
        let body = self.statement()?;
        proof {
            lemma_desugar_for_canonical(
                option_stmt_view(initializer),
                option_view(condition),
                option_view(increment),
                body@,
            );
            lemma_desugar_for_tidy(
                option_stmt_view(initializer),
                option_view(condition),
                option_view(increment),
                body@,
                at_first,
                at_second,
                at_third,
                at_fourth,
                self.current as int,
            );
            grammar::lemma_desugar_for_bounded(
                option_stmt_view(initializer),
                option_view(condition),
                option_view(increment),
                body@,
            );
        }
        Ok(desugar_for(initializer, condition, increment, body))
    }

    fn if_statement(&mut self) -> (r: Result<Stmt, ParseError>)
        requires
            old(self).wf(),
        ensures
            final(self).follows(old(self)),
            r is Ok ==> old(self).current < final(self).current,
            r is Ok ==> grammar::stmt_bounded(r->Ok_0@),
            r is Ok ==> !is_declaration(r->Ok_0@),
            r is Ok ==> stmt_tidy(r->Ok_0@, old(self).current as int, final(self).current as int),
            r is Ok ==> canonical_stmt(r->Ok_0@),
            r is Ok && !closed(r->Ok_0@) ==> final(self).source()[final(self).current as int].kind != TokenType::ELSE,
            stmt_outcome(r, final(self).current as int) == grammar::if_statement(
                old(self).source(),
                old(self).current as int,
            ),
        decreases old(self).tokens.len() - old(self).current, 27int,
    {
        let condition = self.condition(
            ParseErrorKind::ExpectLeftParenAfterIf,
            ParseErrorKind::ExpectRightParenAfterIfCondition,
        )?;
        let then_branch = self.statement()?;
        let else_branch = if self._check(TokenType::ELSE) {
            self._advance();
            Some(self.statement()?)
        } else {
            None
        };
        Ok(If::build(condition, then_branch, else_branch))
    }

    fn print_statement(&mut self) -> (r: Result<Stmt, ParseError>)
        requires
            old(self).wf(),
        ensures
            final(self).follows(old(self)),
            r is Ok ==> old(self).current < final(self).current,
            r is Ok ==> grammar::stmt_bounded(r->Ok_0@),
            r is Ok ==> !is_declaration(r->Ok_0@),
            r is Ok ==> stmt_tidy(r->Ok_0@, old(self).current as int, final(self).current as int),
            r is Ok ==> canonical_stmt(r->Ok_0@),
            r is Ok && !closed(r->Ok_0@) ==> final(self).source()[final(self).current as int].kind != TokenType::ELSE,
            stmt_outcome(r, final(self).current as int) == grammar::print_statement(
                old(self).source(),
                old(self).current as int,
            ),
        decreases old(self).tokens.len() - old(self).current, 26int,
    {
        let value = self.expression()?;
        self._consume(TokenType::SEMICOLON, ParseErrorKind::ExpectSemicolonAfterValue)?;
        Ok(Print::build(value))
    }

    fn return_statement(&mut self) -> (r: Result<Stmt, ParseError>)
        requires
            old(self).wf(),
            old(self).current > 0,
            old(self).source()[old(self).current - 1].kind == TokenType::RETURN,
        ensures
            final(self).follows(old(self)),
            r is Ok ==> old(self).current < final(self).current,
            r is Ok ==> grammar::stmt_bounded(r->Ok_0@),
            r is Ok ==> !is_declaration(r->Ok_0@),
            r is Ok ==> stmt_tidy(r->Ok_0@, old(self).current as int, final(self).current as int),
            r is Ok ==> canonical_stmt(r->Ok_0@),
            r is Ok && !closed(r->Ok_0@) ==> final(self).source()[final(self).current as int].kind != TokenType::ELSE,
            stmt_outcome(r, final(self).current as int) == grammar::return_statement(
                old(self).source(),
                old(self).current as int,
            ),
        decreases old(self).tokens.len() - old(self).current, 26int,
    {
        let keyword = self._previous().clone();
        let value = self.optional_expression(TokenType::SEMICOLON)?;
        self._consume(TokenType::SEMICOLON, ParseErrorKind::ExpectSemicolonAfterReturnValue)?;
        Ok(Return::build(keyword, value))
    }

    fn while_statement(&mut self) -> (r: Result<Stmt, ParseError>)
        requires
            old(self).wf(),
        ensures
            final(self).follows(old(self)),
            r is Ok ==> old(self).current < final(self).current,
            r is Ok ==> grammar::stmt_bounded(r->Ok_0@),
            r is Ok ==> !is_declaration(r->Ok_0@),
            r is Ok ==> stmt_tidy(r->Ok_0@, old(self).current as int, final(self).current as int),
            r is Ok ==> canonical_stmt(r->Ok_0@),
            r is Ok && !closed(r->Ok_0@) ==> final(self).source()[final(self).current as int].kind != TokenType::ELSE,
            stmt_outcome(r, final(self).current as int) == grammar::while_statement(
                old(self).source(),
                old(self).current as int,
            ),
        decreases old(self).tokens.len() - old(self).current, 27int,
    {
        let condition = self.condition(
            ParseErrorKind::ExpectLeftParenAfterWhile,
            ParseErrorKind::ExpectRightParenAfterCondition,
        )?;
        let body = self.statement()?;
        Ok(While::build(condition, body))
    }

    /// A parenthesized condition.
    fn condition(&mut self, opening: ParseErrorKind, closing: ParseErrorKind) -> (r: Result<
        Expr,
        ParseError,
    >)
        requires
            old(self).wf(),
        ensures
            final(self).follows(old(self)),
            r is Ok ==> old(self).current < final(self).current,
            r is Ok ==> grammar::expr_bounded(r->Ok_0@),
            r is Ok ==> expr_tidy(r->Ok_0@, old(self).current as int, final(self).current as int),
            r is Ok ==> canonical(r->Ok_0@) && rank(r->Ok_0@) <= 9,
            expr_outcome(r, final(self).current as int) == grammar::condition(
                old(self).source(),
                old(self).current as int,
                opening,
                closing,
            ),
        decreases old(self).tokens.len() - old(self).current, 26int,
    {
        self._consume(TokenType::LEFTPAREN, opening)?;
        let condition = self.expression()?;
        self._consume(TokenType::RIGHTPAREN, closing)?;
        Ok(condition)
    }

    /// An expression, unless the token that closes its place stands there.
    fn optional_expression(&mut self, closer: TokenType) -> (r: Result<Option<Expr>, ParseError>)
        requires
            old(self).wf(),
        ensures
            final(self).follows(old(self)),
            r is Ok ==> grammar::option_bounded(option_view(r->Ok_0)),
            r is Ok ==> option_tidy(option_view(r->Ok_0), old(self).current as int, final(self).current as int),
            r is Ok ==> canonical_option(option_view(r->Ok_0)),
            match r {
                Ok(value) => grammar::optional_expression(
                    old(self).source(),
                    old(self).current as int,
                    closer,
                ) == (Parse::Done { value: option_view(value), next: final(self).current as int }),
                Err(error) => grammar::optional_expression(
                    old(self).source(),
                    old(self).current as int,
                    closer,
                ) == (Parse::<Option<ExprView>>::Failed { error }),
            },
        decreases old(self).tokens.len() - old(self).current, 24int,
    {
        if self._check(closer) {
            Ok(None)
        } else {
            Ok(Some(self.expression()?))
        }
    }

    /// The declarations of a block and its closing brace.
    fn block(&mut self) -> (r: Result<Vec<Stmt>, ParseError>)
        requires
            old(self).wf(),
        ensures
            final(self).follows(old(self)),
            r is Ok ==> old(self).current < final(self).current,
            r is Ok ==> grammar::stmts_bounded(stmts_view(r->Ok_0@)),
            r is Ok ==> stmts_tidy(stmts_view(r->Ok_0@), old(self).current as int, final(self).current as int),
            r is Ok ==> canonical_items(stmts_view(r->Ok_0@)),
            match r {
                Ok(stmts) => grammar::block(old(self).source(), old(self).current as int, Seq::empty()) == (
                Parse::Done { value: stmts_view(stmts@), next: final(self).current as int }),
                Err(error) => grammar::block(old(self).source(), old(self).current as int, Seq::empty())
                    == (Parse::<Seq<StmtView>>::Failed { error }),
            },
        decreases old(self).tokens.len() - old(self).current, 32int,
    {
        let mut statements: Vec<Stmt> = Vec::new();
        assert(stmts_view(statements@) =~= Seq::empty());
        while !self._check(TokenType::RIGHTBRACE) && !self._is_end()
            invariant
                self.follows(old(self)),
                grammar::stmts_bounded(stmts_view(statements@)),
                stmts_tidy(stmts_view(statements@), old(self).current as int, self.current as int),
                canonical_items(stmts_view(statements@)),
                grammar::block(old(self).source(), old(self).current as int, Seq::empty()) == grammar::block(
                    old(self).source(),
                    self.current as int,
                    stmts_view(statements@),
                ),
            decreases self.tokens.len() - self.current,
        {
            let stmt = self.declaration()?;
            proof {
                lemma_stmts_view_push(statements@, stmt);
                lemma_stmts_ids_push(stmts_view(statements@), stmt@, 0);
            }
            statements.push(stmt);
        }
        self._consume(TokenType::RIGHTBRACE, ParseErrorKind::ExpectRightBraceAfterBlock)?;
        Ok(statements)
    }

    fn expression_statement(&mut self) -> (r: Result<Stmt, ParseError>)
        requires
            old(self).wf(),
        ensures
            final(self).follows(old(self)),
            r is Ok ==> old(self).current < final(self).current,
            r is Ok ==> grammar::stmt_bounded(r->Ok_0@),
            r is Ok ==> !is_declaration(r->Ok_0@),
            r is Ok ==> stmt_tidy(r->Ok_0@, old(self).current as int, final(self).current as int),
            r is Ok ==> canonical_stmt(r->Ok_0@),
            r is Ok && !closed(r->Ok_0@) ==> final(self).source()[final(self).current as int].kind != TokenType::ELSE,
            stmt_outcome(r, final(self).current as int) == grammar::expression_statement(
                old(self).source(),
                old(self).current as int,
            ),
        decreases old(self).tokens.len() - old(self).current, 26int,
    {
        let value = self.expression()?;
        self._consume(TokenType::SEMICOLON, ParseErrorKind::ExpectSemicolonAfterValue)?;
        Ok(Expression::build(value))
    }

    fn expression(&mut self) -> (r: Result<Expr, ParseError>)
        requires
            old(self).wf(),
        ensures
            final(self).follows(old(self)),
            r is Ok ==> old(self).current < final(self).current,
            r is Ok ==> grammar::expr_bounded(r->Ok_0@),
            r is Ok ==> expr_tidy(r->Ok_0@, old(self).current as int, final(self).current as int),
            r is Ok ==> canonical(r->Ok_0@) && rank(r->Ok_0@) <= 9,
            expr_outcome(r, final(self).current as int) == grammar::expression(
                old(self).source(),
                old(self).current as int,
            ),
        decreases old(self).tokens.len() - old(self).current, 23int,
    {
        self.assignment()
    }

    fn assignment(&mut self) -> (r: Result<Expr, ParseError>)
        requires
            old(self).wf(),
        ensures
            final(self).follows(old(self)),
            r is Ok ==> old(self).current < final(self).current,
            r is Ok ==> grammar::expr_bounded(r->Ok_0@),
            r is Ok ==> expr_tidy(r->Ok_0@, old(self).current as int, final(self).current as int),
            r is Ok ==> canonical(r->Ok_0@) && rank(r->Ok_0@) <= 9,
            expr_outcome(r, final(self).current as int) == grammar::assignment(
                old(self).source(),
                old(self).current as int,
            ),
        decreases old(self).tokens.len() - old(self).current, 22int,
    {
        let expr = self.or()?;
        if self._check(TokenType::EQUAL) {
            let equals_at = self.current;
            self._advance();
            let value = self.assignment()?;
            return match expr {
                Expr::Variable(x) => {
                    let ghost target = expr_ids(expr@);
                    let ghost rest = expr_ids(value@);
                    let assign = Assign::build(x.name, value, x.id);
                    proof {
                        assert(target.contains(x.id));
                        assert(expr_ids(assign@) =~= rest.insert(x.id));
                        assert(!rest.contains(x.id));
                    }
                    Ok(assign)
                },
                _ => Err(ParseError::new(&self.tokens[equals_at], ParseErrorKind::InvalidAssignmentTarget)),
            };
        }
        Ok(expr)
    }

    fn or(&mut self) -> (r: Result<Expr, ParseError>)
        requires
            old(self).wf(),
        ensures
            final(self).follows(old(self)),
            r is Ok ==> old(self).current < final(self).current,
            r is Ok ==> grammar::expr_bounded(r->Ok_0@),
            r is Ok ==> expr_tidy(r->Ok_0@, old(self).current as int, final(self).current as int),
            r is Ok ==> canonical(r->Ok_0@) && rank(r->Ok_0@) <= 8,
            expr_outcome(r, final(self).current as int) == grammar::infix(
                old(self).source(),
                old(self).current as int,
                grammar::OR,
            ),
        decreases old(self).tokens.len() - old(self).current, 21int, 1int,
    {
        self.infix(grammar::OR)
    }

    fn and(&mut self) -> (r: Result<Expr, ParseError>)
        requires
            old(self).wf(),
        ensures
            final(self).follows(old(self)),
            r is Ok ==> old(self).current < final(self).current,
            r is Ok ==> grammar::expr_bounded(r->Ok_0@),
            r is Ok ==> expr_tidy(r->Ok_0@, old(self).current as int, final(self).current as int),
            r is Ok ==> canonical(r->Ok_0@) && rank(r->Ok_0@) <= 7,
            expr_outcome(r, final(self).current as int) == grammar::infix(
                old(self).source(),
                old(self).current as int,
                grammar::AND,
            ),
        decreases old(self).tokens.len() - old(self).current, 18int, 1int,
    {
        self.infix(grammar::AND)
    }

    fn equality(&mut self) -> (r: Result<Expr, ParseError>)
        requires
            old(self).wf(),
        ensures
            final(self).follows(old(self)),
            r is Ok ==> old(self).current < final(self).current,
            r is Ok ==> grammar::expr_bounded(r->Ok_0@),
            r is Ok ==> expr_tidy(r->Ok_0@, old(self).current as int, final(self).current as int),
            r is Ok ==> canonical(r->Ok_0@) && rank(r->Ok_0@) <= 6,
            expr_outcome(r, final(self).current as int) == grammar::infix(
                old(self).source(),
                old(self).current as int,
                grammar::EQUALITY,
            ),
        decreases old(self).tokens.len() - old(self).current, 15int, 1int,
    {
        self.infix(grammar::EQUALITY)
    }

    fn comparison(&mut self) -> (r: Result<Expr, ParseError>)
        requires
            old(self).wf(),
        ensures
            final(self).follows(old(self)),
            r is Ok ==> old(self).current < final(self).current,
            r is Ok ==> grammar::expr_bounded(r->Ok_0@),
            r is Ok ==> expr_tidy(r->Ok_0@, old(self).current as int, final(self).current as int),
            r is Ok ==> canonical(r->Ok_0@) && rank(r->Ok_0@) <= 5,
            expr_outcome(r, final(self).current as int) == grammar::infix(
                old(self).source(),
                old(self).current as int,
                grammar::COMPARISON,
            ),
        decreases old(self).tokens.len() - old(self).current, 12int, 1int,
    {
        self.infix(grammar::COMPARISON)
    }

    fn term(&mut self) -> (r: Result<Expr, ParseError>)
        requires
            old(self).wf(),
        ensures
            final(self).follows(old(self)),
            r is Ok ==> old(self).current < final(self).current,
            r is Ok ==> grammar::expr_bounded(r->Ok_0@),
            r is Ok ==> expr_tidy(r->Ok_0@, old(self).current as int, final(self).current as int),
            r is Ok ==> canonical(r->Ok_0@) && rank(r->Ok_0@) <= 4,
            expr_outcome(r, final(self).current as int) == grammar::infix(
                old(self).source(),
                old(self).current as int,
                grammar::TERM,
            ),
        decreases old(self).tokens.len() - old(self).current, 9int, 1int,
    {
        self.infix(grammar::TERM)
    }

    fn factor(&mut self) -> (r: Result<Expr, ParseError>)
        requires
            old(self).wf(),
        ensures
            final(self).follows(old(self)),
            r is Ok ==> old(self).current < final(self).current,
            r is Ok ==> grammar::expr_bounded(r->Ok_0@),
            r is Ok ==> expr_tidy(r->Ok_0@, old(self).current as int, final(self).current as int),
            r is Ok ==> canonical(r->Ok_0@) && rank(r->Ok_0@) <= 3,
            expr_outcome(r, final(self).current as int) == grammar::infix(
                old(self).source(),
                old(self).current as int,
                grammar::FACTOR,
            ),
        decreases old(self).tokens.len() - old(self).current, 6int, 1int,
    {
        self.infix(grammar::FACTOR)
    }

    /// An operand of an infix operator of the given level: a chain of the next
    /// tighter level, or a unary expression below the tightest.
    fn operand(&mut self, level: u8) -> (r: Result<Expr, ParseError>)
        requires
            old(self).wf(),
            level <= grammar::OR,
        ensures
            final(self).follows(old(self)),
            r is Ok ==> old(self).current < final(self).current,
            r is Ok ==> grammar::expr_bounded(r->Ok_0@),
            r is Ok ==> expr_tidy(r->Ok_0@, old(self).current as int, final(self).current as int),
            r is Ok ==> canonical(r->Ok_0@) && rank(r->Ok_0@) <= 2 + level,
            expr_outcome(r, final(self).current as int) == grammar::operand(
                old(self).source(),
                old(self).current as int,
                level,
            ),
        decreases old(self).tokens.len() - old(self).current, 5 + 3 * level, 0int,
    {
        if level == grammar::OR {
            self.and()
        } else if level == grammar::AND {
            self.equality()
        } else if level == grammar::EQUALITY {
            self.comparison()
        } else if level == grammar::COMPARISON {
            self.term()
        } else if level == grammar::TERM {
            self.factor()
        } else {
            self.unary()
        }
    }

    /// Whether the current token is an infix operator of the given level.
    fn at_operator(&self, level: u8) -> (r: bool)
        requires
            self.wf(),
        ensures
            r == (!grammar::at_end(self.source(), self.current as int) && grammar::is_operator(
                level,
                self.source()[self.current as int].kind,
            )),
    {
        if level == grammar::FACTOR {
            self._check(TokenType::SLASH) || self._check(TokenType::STAR)
        } else if level == grammar::TERM {
            self._check(TokenType::MINUS) || self._check(TokenType::PLUS)
        } else if level == grammar::COMPARISON {
            self._check(TokenType::GREATER) || self._check(TokenType::GREATEREQUAL) || self._check(
                TokenType::LESS,
            ) || self._check(TokenType::LESSEQUAL)
        } else if level == grammar::EQUALITY {
            self._check(TokenType::BANGEQUAL) || self._check(TokenType::EQUALEQUAL)
        } else if level == grammar::AND {
            self._check(TokenType::AND)
        } else {
            self._check(TokenType::OR)
        }
    }

    /// A chain of infix operators of one level, which associate to the left.
    fn infix(&mut self, level: u8) -> (r: Result<Expr, ParseError>)
        requires
            old(self).wf(),
            level <= grammar::OR,
        ensures
            final(self).follows(old(self)),
            r is Ok ==> old(self).current < final(self).current,
            r is Ok ==> grammar::expr_bounded(r->Ok_0@),
            r is Ok ==> expr_tidy(r->Ok_0@, old(self).current as int, final(self).current as int),
            r is Ok ==> canonical(r->Ok_0@) && rank(r->Ok_0@) <= 3 + level,
            expr_outcome(r, final(self).current as int) == grammar::infix(
                old(self).source(),
                old(self).current as int,
                level,
            ),
        decreases old(self).tokens.len() - old(self).current, 6 + 3 * level, 0int,
    {
        let mut expr = self.operand(level)?;
        while self.at_operator(level)
            invariant
                self.follows(old(self)),
                old(self).current < self.current,
                level <= grammar::OR,
                grammar::expr_bounded(expr@),
                expr_tidy(expr@, old(self).current as int, self.current as int),
                canonical(expr@),
                rank(expr@) <= 3 + level,
                grammar::infix(old(self).source(), old(self).current as int, level) == grammar::infix_rest(
                    old(self).source(),
                    expr@,
                    self.current as int,
                    level,
                ),
            decreases self.tokens.len() - self.current,
        {
            let operator = self._peek().clone();
            proof {
                lemma_level_operator(operator@.kind, level);
            }
            self._advance();
            let right = self.operand(level)?;
            expr = if level >= grammar::AND {
                Logical::build(expr, operator, right)
            } else {
                Binary::build(expr, operator, right)
            };
        }
        Ok(expr)
    }

    fn unary(&mut self) -> (r: Result<Expr, ParseError>)
        requires
            old(self).wf(),
        ensures
            final(self).follows(old(self)),
            r is Ok ==> old(self).current < final(self).current,
            r is Ok ==> grammar::expr_bounded(r->Ok_0@),
            r is Ok ==> expr_tidy(r->Ok_0@, old(self).current as int, final(self).current as int),
            r is Ok ==> canonical(r->Ok_0@) && rank(r->Ok_0@) <= 2,
            expr_outcome(r, final(self).current as int) == grammar::unary(
                old(self).source(),
                old(self).current as int,
            ),
        decreases old(self).tokens.len() - old(self).current, 3int,
    {
        if self._check(TokenType::BANG) || self._check(TokenType::MINUS) {
            let operator = self._peek().clone();
            self._advance();
            let right = self.unary()?;
            return Ok(Unary::build(operator, right));
        }
        self.call()
    }

    fn call(&mut self) -> (r: Result<Expr, ParseError>)
        requires
            old(self).wf(),
        ensures
            final(self).follows(old(self)),
            r is Ok ==> old(self).current < final(self).current,
            r is Ok ==> grammar::expr_bounded(r->Ok_0@),
            r is Ok ==> expr_tidy(r->Ok_0@, old(self).current as int, final(self).current as int),
            r is Ok ==> canonical(r->Ok_0@) && rank(r->Ok_0@) <= 1,
            expr_outcome(r, final(self).current as int) == grammar::call(
                old(self).source(),
                old(self).current as int,
            ),
        decreases old(self).tokens.len() - old(self).current, 2int,
    {
        let mut expr = self.primary()?;
        while self._check(TokenType::LEFTPAREN)
            invariant
                self.follows(old(self)),
                old(self).current < self.current,
                grammar::expr_bounded(expr@),
                expr_tidy(expr@, old(self).current as int, self.current as int),
                canonical(expr@),
                rank(expr@) <= 1,
                grammar::call(old(self).source(), old(self).current as int) == grammar::call_rest(
                    old(self).source(),
                    expr@,
                    self.current as int,
                ),
            decreases self.tokens.len() - self.current,
        {
            self._advance();
            expr = self.finish_call(expr, Ghost(old(self).current as int))?;
        }
        Ok(expr)
    }

    fn finish_call(&mut self, callee: Expr, Ghost(lo): Ghost<int>) -> (r: Result<Expr, ParseError>)
        requires
            old(self).wf(),
            grammar::expr_bounded(callee@),
            lo <= old(self).current,
            expr_tidy(callee@, lo, old(self).current as int),
            canonical(callee@),
            rank(callee@) <= 1,
        ensures
            final(self).follows(old(self)),
            r is Ok ==> old(self).current < final(self).current,
            r is Ok ==> grammar::expr_bounded(r->Ok_0@),
            r is Ok ==> expr_tidy(r->Ok_0@, lo, final(self).current as int),
            r is Ok ==> canonical(r->Ok_0@) && rank(r->Ok_0@) <= 1,
            expr_outcome(r, final(self).current as int) == grammar::finish_call(
                old(self).source(),
                callee@,
                old(self).current as int,
            ),
        decreases old(self).tokens.len() - old(self).current, 25int,
    {
        let ghost ts = self.source();
        let ghost start = self.current as int;
        let mut arguments: Vec<Expr> = Vec::new();
        assert(exprs_view(arguments@) =~= Seq::empty());
        let mut more = !self._check(TokenType::RIGHTPAREN);
        let ghost listed = if grammar::check(ts, start, TokenType::RIGHTPAREN) {
            Parse::Done { value: Seq::<ExprView>::empty(), next: start }
        } else {
            grammar::arguments(ts, start, Seq::empty())
        };
        while more
            invariant
                self.follows(old(self)),
                ts == old(self).source(),
                start == old(self).current,
                arguments.len() <= grammar::MAX_ARITY,
                grammar::exprs_bounded(exprs_view(arguments@)),
                exprs_tidy(exprs_view(arguments@), start, self.current as int),
                expr_tidy(callee@, lo, start),
                all_canonical(exprs_view(arguments@)),
                listed is Failed ==> grammar::finish_call(ts, callee@, start) == (Parse::<ExprView>::Failed {
                    error: listed->error,
                }),
                more ==> listed == grammar::arguments(ts, self.current as int, exprs_view(arguments@)),
                !more ==> listed == (Parse::Done { value: exprs_view(arguments@), next: self.current as int }),
            decreases self.tokens.len() - self.current, if more { 1int } else { 0int },
        {
            if arguments.len() >= 255 {
                return Err(ParseError::new(self._peek(), ParseErrorKind::TooManyArguments));
            }
            let argument = self.expression()?;
            proof {
                lemma_exprs_view_push(arguments@, argument);
                lemma_exprs_ids_push(exprs_view(arguments@), argument@, 0);
            }
            arguments.push(argument);
            if self._check(TokenType::COMMA) {
                self._advance();
            } else {
                more = false;
            }
        }
        let paren_at = self.current;
        self._consume(TokenType::RIGHTPAREN, ParseErrorKind::ExpectRightParenAfterArguments)?;
        let paren = self.tokens[paren_at].clone();
        let ghost callee_ids = expr_ids(callee@);
        let ghost listed_ids = exprs_ids(exprs_view(arguments@), 0);
        let call = Call::build(callee, paren, arguments);
        proof {
            assert(expr_ids(call@) =~= callee_ids + listed_ids);
            assert(callee_ids.disjoint(listed_ids));
        }
        Ok(call)
    }

    fn primary(&mut self) -> (r: Result<Expr, ParseError>)
        requires
            old(self).wf(),
        ensures
            final(self).follows(old(self)),
            r is Ok ==> old(self).current < final(self).current,
            r is Ok ==> grammar::expr_bounded(r->Ok_0@),
            r is Ok ==> expr_tidy(r->Ok_0@, old(self).current as int, final(self).current as int),
            r is Ok ==> canonical(r->Ok_0@) && rank(r->Ok_0@) <= 0,
            expr_outcome(r, final(self).current as int) == grammar::primary(
                old(self).source(),
                old(self).current as int,
            ),
        decreases old(self).tokens.len() - old(self).current, 0int,
    {
        if self._check(TokenType::FALSE) {
            self._advance();
            return Ok(Literal::build(TokenLiteral::Bool(false)));
        }
        if self._check(TokenType::TRUE) {
            self._advance();
            return Ok(Literal::build(TokenLiteral::Bool(true)));
        }
        if self._check(TokenType::NIL) {
            self._advance();
            return Ok(Literal::build(TokenLiteral::Nil));
        }
        if self._check(TokenType::NUMBER) || self._check(TokenType::STRING) {
            let value = self._peek().literal.clone();
            self._advance();
            return Ok(Literal::build(value));
        }
        if self._check(TokenType::IDENTIFIER) {
            let id = self.current;
            let name = self._peek().clone();
            self._advance();
            return Ok(Variable::build(name, id));
        }
        if self._check(TokenType::LEFTPAREN) {
            self._advance();
            let expr = self.expression()?;
            self._consume(TokenType::RIGHTPAREN, ParseErrorKind::ExpectRightParenAfterExpression)?;
            return Ok(Group::build(expr));
        }
        Err(ParseError::new(self._peek(), ParseErrorKind::ExpectExpression))
    }

    fn _check(&self, _type: TokenType) -> (r: bool)
        requires
            self.wf(),
        ensures
            r == grammar::check(self.source(), self.current as int, _type),
    {
        if self._is_end() {
            return false;
        }
        self._peek()._type == _type
    }

    fn _advance(&mut self)
        requires
            old(self).wf(),
            !grammar::at_end(old(self).source(), old(self).current as int),
        ensures
            final(self).follows(old(self)),
            final(self).current == old(self).current + 1,
    {
        assert(self.source()[self.current as int] == self.tokens[self.current as int]@);
        assert(self.source().last() == self.tokens[self.tokens.len() - 1]@);
        self.current = self.current + 1;
    }

    fn _is_end(&self) -> (r: bool)
        requires
            self.wf(),
        ensures
            r == grammar::at_end(self.source(), self.current as int),
    {
        self._peek()._type == TokenType::EOF
    }

    fn _peek(&self) -> (r: &Token)
        requires
            self.wf(),
        ensures
            r@ == self.source()[self.current as int],
            *r == self.tokens[self.current as int],
    {
        &self.tokens[self.current]
    }

    fn _previous(&self) -> (r: &Token)
        requires
            self.wf(),
            self.current > 0,
        ensures
            r@ == self.source()[self.current - 1],
    {
        &self.tokens[self.current - 1]
    }

    fn _consume(&mut self, _type: TokenType, error: ParseErrorKind) -> (r: Result<(), ParseError>)
        requires
            old(self).wf(),
        ensures
            final(self).follows(old(self)),
            match r {
                Ok(_) => final(self).current == old(self).current + 1 && grammar::check(
                    old(self).source(),
                    old(self).current as int,
                    _type,
                ),
                Err(e) => !grammar::check(old(self).source(), old(self).current as int, _type) && e
                    == ParseError::at(old(self).source()[old(self).current as int], error),
            },
    {
        if self._check(_type) {
            self._advance();
            return Ok(());
        }
        Err(ParseError::new(self._peek(), error))
    }

    /// After an error: skips tokens up to the start of the next statement,
    /// which is the token after a `;` or a keyword that opens a statement.
    pub fn synchronize(&mut self)
        requires
            old(self).wf(),
        ensures
            final(self).wf(),
            final(self).source() == old(self).source(),
            final(self).position() == grammar::resume_point(old(self).source(), old(self).position()),
    {
        if self._is_end() {
            return ;
        }
        self._advance();
        while !self._is_end() && !self.at_boundary()
            invariant
                self.follows(old(self)),
                self.current > 0,
                grammar::resume_point(old(self).source(), old(self).current as int)
                    == grammar::resume_scan(self.source(), self.current as int),
            decreases self.tokens.len() - self.current,
        {
            self._advance();
        }
    }

    /// Whether a statement starts at the current token.
    fn at_boundary(&self) -> (r: bool)
        requires
            self.wf(),
            self.current > 0,
        ensures
            r == grammar::statement_boundary(self.source(), self.current as int),
    {
        if self._previous()._type == TokenType::SEMICOLON {
            return true;
        }
        match self._peek()._type {
            TokenType::CLASS
            | TokenType::FUN
            | TokenType::VAR
            | TokenType::FOR
            | TokenType::IF
            | TokenType::WHILE
            | TokenType::PRINT
            | TokenType::RETURN => true,
            _ => false,
        }
    }
}

/// The statement that a `for` statement stands for.
pub fn desugar_for(
    initializer: Option<Stmt>,
    condition: Option<Expr>,
    increment: Option<Expr>,
    body: Stmt,
) -> (r: Stmt)
    ensures
        r@ == grammar::desugar_for(
            option_stmt_view(initializer),
            option_view(condition),
            option_view(increment),
            body@,
        ),
{
    let mut body = body;
    if let Some(increment) = increment {
        let ghost first = body@;
        let mut statements: Vec<Stmt> = Vec::new();
        statements.push(body);
        statements.push(Expression::build(increment));
        assert(stmts_view(statements@) =~= seq![first, StmtView::Expression { expression: increment@ }]);
        body = Block::build(statements);
    }
    let condition = match condition {
        Some(condition) => condition,
        None => Literal::build(TokenLiteral::Bool(true)),
    };
    body = While::build(condition, body);
    if let Some(initializer) = initializer {
        let ghost first = initializer@;
        let ghost second = body@;
        let mut statements: Vec<Stmt> = Vec::new();
        statements.push(initializer);
        statements.push(body);
        assert(stmts_view(statements@) =~= seq![first, second]);
        body = Block::build(statements);
    }
    body
}

} // verus!
