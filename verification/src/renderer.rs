//! Writing a tree out as the tokens that spell it.

use vstd::prelude::*;
use vstd::string::*;
use crate::ast::{exprs_view, stmts_view, Expr, Stmt};
use crate::number;
use crate::parser::lemma_tokens_view_push;
use crate::rendering;
use crate::token::{tokens_view, Token, TokenLiteral, TokenType, TokenView};

verus! {

/// A token written anew: it has its kind and its spelling, and no place in a
/// source.
pub fn mark(kind: TokenType) -> (r: Token)
    ensures
        r@ == rendering::mark(kind),
{
    let lexeme = match kind {
        TokenType::LEFTPAREN => "(",
        TokenType::RIGHTPAREN => ")",
        TokenType::LEFTBRACE => "{",
        TokenType::RIGHTBRACE => "}",
        TokenType::COMMA => ",",
        TokenType::SEMICOLON => ";",
        TokenType::EQUAL => "=",
        TokenType::ELSE => "else",
        TokenType::FALSE => "false",
        TokenType::FUN => "fun",
        TokenType::IF => "if",
        TokenType::NIL => "nil",
        TokenType::PRINT => "print",
        TokenType::TRUE => "true",
        TokenType::VAR => "var",
        TokenType::WHILE => "while",
        _ => "",
    };
    proof {
        reveal_strlit("");
        assert(""@ =~= Seq::<char>::empty());
    }
    Token::build(kind, lexeme, TokenLiteral::Nil, 0, 0)
}

/// The token that spells a literal.
pub fn literal_token(value: &TokenLiteral) -> (r: Token)
    ensures
        r@ == rendering::literal_token(value@),
{
    match value {
        TokenLiteral::Bool(b) => mark(
            if *b {
                TokenType::TRUE
            } else {
                TokenType::FALSE
            },
        ),
        TokenLiteral::Nil => mark(TokenType::NIL),
        TokenLiteral::Number(bits) => {
            let lexeme = number::to_text(*bits);
            Token { _type: TokenType::NUMBER, lexeme, literal: TokenLiteral::Number(*bits), line: 0, offset: 0 }
        },
        TokenLiteral::String(text) => {
            let mut lexeme = String::from_str("\"");
            lexeme.append(text.as_str());
            lexeme.append("\"");
            Token { _type: TokenType::STRING, lexeme, literal: TokenLiteral::String(text.clone()), line: 0, offset: 0 }
        },
    }
}

/// Appends a token.
fn put(out: &mut Vec<Token>, token: Token)
    ensures
        tokens_view(final(out)@) == tokens_view(old(out)@) + seq![token@],
{
    proof {
        lemma_tokens_view_push(out@, token);
        assert(tokens_view(out@).push(token@) =~= tokens_view(out@) + seq![token@]);
    }
    out.push(token);
}

/// Appends the tokens that spell an expression.
pub fn write_expr(e: &Expr, out: &mut Vec<Token>)
    ensures
        tokens_view(final(out)@) == tokens_view(old(out)@) + rendering::render_expr(e@),
    decreases e, 1int,
{
    let ghost before = tokens_view(out@);
    match e {
        Expr::Binary(b) => {
            write_expr(&b.left, out);
            put(out, b.operator.clone());
            write_expr(&b.right, out);
            assert(tokens_view(out@) =~= before + (rendering::render_expr(b.left@) + seq![b.operator@]
                + rendering::render_expr(b.right@)));
        },
        Expr::Logical(b) => {
            write_expr(&b.left, out);
            put(out, b.operator.clone());
            write_expr(&b.right, out);
            assert(tokens_view(out@) =~= before + (rendering::render_expr(b.left@) + seq![b.operator@]
                + rendering::render_expr(b.right@)));
        },
        Expr::Group(g) => {
            put(out, mark(TokenType::LEFTPAREN));
            write_expr(&g.expression, out);
            put(out, mark(TokenType::RIGHTPAREN));
            assert(tokens_view(out@) =~= before + (seq![rendering::mark(TokenType::LEFTPAREN)]
                + rendering::render_expr(g.expression@) + seq![rendering::mark(TokenType::RIGHTPAREN)]));
        },
        Expr::Literal(l) => {
            put(out, literal_token(&l.value));
        },
        Expr::Unary(u) => {
            put(out, u.operator.clone());
            write_expr(&u.right, out);
            assert(tokens_view(out@) =~= before + (seq![u.operator@] + rendering::render_expr(u.right@)));
        },
        Expr::Variable(v) => {
            put(out, v.name.clone());
        },
        Expr::Assign(a) => {
            put(out, a.name.clone());
            put(out, mark(TokenType::EQUAL));
            write_expr(&a.value, out);
            assert(tokens_view(out@) =~= before + (seq![a.name@, rendering::mark(TokenType::EQUAL)]
                + rendering::render_expr(a.value@)));
        },
        Expr::Call(_) => {
            write_call(e, out);
        },
    }
}

/// Appends the tokens that spell a call.
fn write_call(e: &Expr, out: &mut Vec<Token>)
    requires
        e is Call,
    ensures
        tokens_view(final(out)@) == tokens_view(old(out)@) + rendering::render_expr(e@),
    decreases e, 0int,
{
    let ghost before = tokens_view(out@);
    match e {
        Expr::Call(c) => {
            write_expr(&c.callee, out);
            put(out, mark(TokenType::LEFTPAREN));
            let ghost head = tokens_view(out@);
            let ghost args = exprs_view(c.arguments@);
            let mut i: usize = 0;
            while i < c.arguments.len()
                invariant
                    i <= c.arguments.len(),
                    args == exprs_view(c.arguments@),
                    forall|k: int| 0 <= k < c.arguments.len() ==> decreases_to!(e => #[trigger] c.arguments[k]),
                    head + rendering::render_args(args, 0) == tokens_view(out@) + rendering::render_args(
                        args,
                        i as int,
                    ),
                decreases c.arguments.len() - i,
            {
                let ghost so_far = tokens_view(out@);
                write_expr(&c.arguments[i], out);
                if i + 1 < c.arguments.len() {
                    put(out, mark(TokenType::COMMA));
                }
                assert(so_far + rendering::render_args(args, i as int) =~= tokens_view(out@)
                    + rendering::render_args(args, i + 1));
                i = i + 1;
            }
            assert(tokens_view(out@) + rendering::render_args(args, i as int) =~= tokens_view(out@));
            put(out, c.paren.clone());
            assert(tokens_view(out@) =~= before + (rendering::render_expr(c.callee@) + seq![
                rendering::mark(TokenType::LEFTPAREN),
            ] + rendering::render_args(args, 0) + seq![c.paren@]));
        },
        _ => {},
    }
}

/// Appends the tokens that spell the statements of a list.
pub fn write_items(stmts: &Vec<Stmt>, out: &mut Vec<Token>)
    ensures
        tokens_view(final(out)@) == tokens_view(old(out)@) + rendering::render_items(stmts_view(stmts@), 0),
    decreases stmts, 0int,
{
    let ghost before = tokens_view(out@);
    let ghost items = stmts_view(stmts@);
    let mut i: usize = 0;
    while i < stmts.len()
        invariant
            i <= stmts.len(),
            items == stmts_view(stmts@),
            forall|k: int| 0 <= k < stmts.len() ==> decreases_to!(stmts => #[trigger] stmts[k]),
            before + rendering::render_items(items, 0) == tokens_view(out@) + rendering::render_items(
                items,
                i as int,
            ),
        decreases stmts.len() - i,
    {
        let ghost so_far = tokens_view(out@);
        write_stmt(&stmts[i], out);
        assert(so_far + rendering::render_items(items, i as int) =~= tokens_view(out@)
            + rendering::render_items(items, i + 1));
        i = i + 1;
    }
    assert(tokens_view(out@) + rendering::render_items(items, i as int) =~= tokens_view(out@));
}

/// Appends the names of the parameters, with commas between them.
fn write_params(params: &Vec<Token>, out: &mut Vec<Token>)
    ensures
        tokens_view(final(out)@) == tokens_view(old(out)@) + rendering::render_params(tokens_view(params@), 0),
{
    let ghost before = tokens_view(out@);
    let ghost names = tokens_view(params@);
    let mut i: usize = 0;
    while i < params.len()
        invariant
            i <= params.len(),
            names == tokens_view(params@),
            before + rendering::render_params(names, 0) == tokens_view(out@) + rendering::render_params(
                names,
                i as int,
            ),
        decreases params.len() - i,
    {
        let ghost so_far = tokens_view(out@);
        put(out, params[i].clone());
        if i + 1 < params.len() {
            put(out, mark(TokenType::COMMA));
        }
        assert(so_far + rendering::render_params(names, i as int) =~= tokens_view(out@)
            + rendering::render_params(names, i + 1));
        i = i + 1;
    }
    assert(tokens_view(out@) + rendering::render_params(names, i as int) =~= tokens_view(out@));
}

/// Appends the tokens that spell a statement.
pub fn write_stmt(s: &Stmt, out: &mut Vec<Token>)
    ensures
        tokens_view(final(out)@) == tokens_view(old(out)@) + rendering::render_stmt(s@),
    decreases s, 1int,
{
    let ghost before = tokens_view(out@);
    match s {
        Stmt::Expression(x) => {
            write_expr(&x.expression, out);
            put(out, mark(TokenType::SEMICOLON));
            assert(tokens_view(out@) =~= before + (rendering::render_expr(x.expression@) + seq![
                rendering::mark(TokenType::SEMICOLON),
            ]));
        },
        Stmt::Print(x) => {
            put(out, mark(TokenType::PRINT));
            write_expr(&x.expression, out);
            put(out, mark(TokenType::SEMICOLON));
            assert(tokens_view(out@) =~= before + (seq![rendering::mark(TokenType::PRINT)]
                + rendering::render_expr(x.expression@) + seq![rendering::mark(TokenType::SEMICOLON)]));
        },
        Stmt::Var(x) => {
            put(out, mark(TokenType::VAR));
            put(out, x.name.clone());
            match &x.initializer {
                Some(e) => {
                    put(out, mark(TokenType::EQUAL));
                    write_expr(e, out);
                    put(out, mark(TokenType::SEMICOLON));
                    assert(tokens_view(out@) =~= before + (seq![
                        rendering::mark(TokenType::VAR),
                        x.name@,
                        rendering::mark(TokenType::EQUAL),
                    ] + rendering::render_expr(e@) + seq![rendering::mark(TokenType::SEMICOLON)]));
                },
                None => {
                    put(out, mark(TokenType::SEMICOLON));
                    assert(tokens_view(out@) =~= before + seq![
                        rendering::mark(TokenType::VAR),
                        x.name@,
                        rendering::mark(TokenType::SEMICOLON),
                    ]);
                },
            }
        },
        Stmt::Block(x) => {
            put(out, mark(TokenType::LEFTBRACE));
            write_items(&x.statements, out);
            put(out, mark(TokenType::RIGHTBRACE));
            assert(tokens_view(out@) =~= before + (seq![rendering::mark(TokenType::LEFTBRACE)]
                + rendering::render_items(stmts_view(x.statements@), 0) + seq![
                rendering::mark(TokenType::RIGHTBRACE),
            ]));
        },
        Stmt::If(_) => {
            write_if(s, out);
        },
        Stmt::While(x) => {
            put(out, mark(TokenType::WHILE));
            put(out, mark(TokenType::LEFTPAREN));
            write_expr(&x.condition, out);
            put(out, mark(TokenType::RIGHTPAREN));
            write_stmt(&x.body, out);
            assert(tokens_view(out@) =~= before + (seq![
                rendering::mark(TokenType::WHILE),
                rendering::mark(TokenType::LEFTPAREN),
            ] + rendering::render_expr(x.condition@) + seq![rendering::mark(TokenType::RIGHTPAREN)]
                + rendering::render_stmt(x.body@)));
        },
        Stmt::Function(_) => {
            write_function(s, out);
        },
        Stmt::Return(x) => {
            put(out, x.keyword.clone());
            match &x.value {
                Some(e) => {
                    write_expr(e, out);
                    put(out, mark(TokenType::SEMICOLON));
                    assert(tokens_view(out@) =~= before + (seq![x.keyword@] + rendering::render_expr(e@) + seq![
                        rendering::mark(TokenType::SEMICOLON),
                    ]));
                },
                None => {
                    put(out, mark(TokenType::SEMICOLON));
                    assert(tokens_view(out@) =~= before + seq![
                        x.keyword@,
                        rendering::mark(TokenType::SEMICOLON),
                    ]);
                },
            }
        },
    }
}

/// Appends the tokens that spell an `if` statement.
fn write_if(s: &Stmt, out: &mut Vec<Token>)
    requires
        s is If,
    ensures
        tokens_view(final(out)@) == tokens_view(old(out)@) + rendering::render_stmt(s@),
    decreases s, 0int,
{
    let ghost before = tokens_view(out@);
    match s {
        Stmt::If(x) => {
            put(out, mark(TokenType::IF));
            put(out, mark(TokenType::LEFTPAREN));
            write_expr(&x.condition, out);
            put(out, mark(TokenType::RIGHTPAREN));
            write_stmt(&x.then_branch, out);
            let ghost front = seq![rendering::mark(TokenType::IF), rendering::mark(TokenType::LEFTPAREN)]
                + rendering::render_expr(x.condition@) + seq![rendering::mark(TokenType::RIGHTPAREN)]
                + rendering::render_stmt(x.then_branch@);
            assert(tokens_view(out@) =~= before + front);
            match &x.else_branch {
                Some(other) => {
                    put(out, mark(TokenType::ELSE));
                    write_stmt(other, out);
                    assert(tokens_view(out@) =~= before + (front + seq![rendering::mark(TokenType::ELSE)]
                        + rendering::render_stmt(other@)));
                },
                None => {},
            }
        },
        _ => {},
    }
}

/// Appends the tokens that spell a function declaration.
fn write_function(s: &Stmt, out: &mut Vec<Token>)
    requires
        s is Function,
    ensures
        tokens_view(final(out)@) == tokens_view(old(out)@) + rendering::render_stmt(s@),
    decreases s, 0int,
{
    let ghost before = tokens_view(out@);
    match s {
        Stmt::Function(f) => {
            put(out, mark(TokenType::FUN));
            put(out, f.name.clone());
            put(out, mark(TokenType::LEFTPAREN));
            write_params(&f.params, out);
            put(out, mark(TokenType::RIGHTPAREN));
            put(out, mark(TokenType::LEFTBRACE));
            write_items(&f.body.statements, out);
            put(out, mark(TokenType::RIGHTBRACE));
            assert(f@.name == f.name@);
            assert(f@.params == tokens_view(f.params@));
            assert(f@.body == stmts_view(f.body.statements@));
            assert(tokens_view(out@) =~= before + (seq![
                rendering::mark(TokenType::FUN),
                f@.name,
                rendering::mark(TokenType::LEFTPAREN),
            ] + rendering::render_params(f@.params, 0) + seq![
                rendering::mark(TokenType::RIGHTPAREN),
                rendering::mark(TokenType::LEFTBRACE),
            ] + rendering::render_items(f@.body, 0) + seq![rendering::mark(TokenType::RIGHTBRACE)]));
        },
        _ => {},
    }
}

/// The tokens that spell a program: its statements, and the end of the
/// stream.
pub fn render(stmts: &Vec<Stmt>) -> (r: Vec<Token>)
    ensures
        tokens_view(r@) == rendering::render_program(stmts_view(stmts@)),
{
    let mut out: Vec<Token> = Vec::new();
    assert(tokens_view(out@) =~= Seq::<TokenView>::empty());
    write_items(stmts, &mut out);
    put(&mut out, mark(TokenType::EOF));
    assert(tokens_view(out@) =~= rendering::render_items(stmts_view(stmts@), 0) + seq![
        rendering::mark(TokenType::EOF),
    ]);
    out
}

} // verus!
