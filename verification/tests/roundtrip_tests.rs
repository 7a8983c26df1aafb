use rlox::ast::Stmt;
use rlox::astprinter::AstPrinter;
use rlox::parser::Parser;
use rlox::renderer::{literal_token, mark, render, write_expr};
use rlox::scanner::Scanner;
use rlox::token::{Token, TokenLiteral, TokenType};

fn parse(source: &str) -> Vec<Stmt> {
    Parser::new(Scanner::build(&source.to_string()).scan_tokens()).parse().unwrap()
}

fn tree(stmts: &Vec<Stmt>) -> Vec<String> {
    let printer = AstPrinter::new();
    stmts.iter().map(|s| printer.print_stmt(s)).collect()
}

fn text(tokens: &Vec<Token>) -> String {
    let words: Vec<&str> = tokens.iter().map(|t| t.lexeme.as_str()).collect();
    words.join(" ")
}

const PROGRAMS: [&str; 14] = [
    "",
    "print 1 + 2 * 3 + 4;",
    "print nil or \"x\"; print 0 or \"y\"; print false and crash;",
    "var a = \"global\"; { var a = \"local\"; print a; } print a;",
    "var s = 0; for (var i = 0; i < 4; i = i + 1) { s = s + i; } print s;",
    "var a = \"global\"; { fun showA() { print a; } showA(); var a = \"block\"; showA(); }",
    "fun f() { while (true) { return 42; } } print f();",
    "a = b = c or d and e == f != g < h <= i > j >= k - l + m / n * -o;",
    "print !(-(1 - -2) * (3 + 4))(5, 6)(7)() + f(g(h(1)))(2);",
    "if (a) if (b) c; else d; if (a) { if (b) c; } else d;",
    "if (a) while (b) if (c) d; else e; else f;",
    "for (;;) print 1; for (a = 1; a < 2;) {} for (; a; a = a + 1) if (a) b;",
    "fun f(a, b, c) { var x; var y = a; return; } fun g() {} return f;",
    "print 0.5 + 12.25; print \"a b\"; print true; print false; print nil; { { } }",
];

#[test]
fn parsing_the_rendering_gives_the_tree_again() {
    for source in PROGRAMS {
        let first = parse(source);
        let tokens = render(&first);
        assert_eq!(tokens.last().unwrap()._type, TokenType::EOF);
        let second = Parser::new(tokens).parse().unwrap();
        assert_eq!(tree(&second), tree(&first), "{}", source);
        // The rendering of the second tree is that of the first, token for token.
        let again = render(&second);
        let once = render(&first);
        assert_eq!(text(&again), text(&once));
        assert_eq!(again.len(), once.len());
    }
}

#[test]
fn scanning_the_text_of_the_rendering_gives_the_tree_again() {
    for source in PROGRAMS {
        let first = parse(source);
        let written = text(&render(&first));
        let second = parse(&written);
        assert_eq!(tree(&second), tree(&first), "{}", written);
    }
}

#[test]
fn a_rendering_spells_the_program() {
    let stmts = parse("for (var i = 0; i < 2; i = i + 1) print -i * (i + 1);");
    assert_eq!(
        text(&render(&stmts)),
        "{ var i = 0 ; while ( i < 2 ) { print - i * ( i + 1 ) ; i = i + 1 ; } } "
    );
    let stmts = parse("fun f(a, b) { return \"s\"; } if (f(1, 2)) print 1; else print 2;");
    assert_eq!(
        text(&render(&stmts)),
        "fun f ( a , b ) { return \"s\" ; } if ( f ( 1 , 2 ) ) print 1 ; else print 2 ; "
    );
}

#[test]
fn ids_follow_the_places_in_the_rendering() {
    let first = parse("for (var i = 0; i < 2; i = i + 1) print i;");
    let second = Parser::new(render(&first)).parse().unwrap();
    // { var i = 0 ; while ( i < 2 ) { print i ; i = i + 1 ; } }
    match &second[0] {
        Stmt::Block(b) => match &b.statements[1] {
            Stmt::While(w) => match &w.condition {
                rlox::ast::Expr::Binary(c) => match c.left.as_ref() {
                    rlox::ast::Expr::Variable(v) => assert_eq!(v.id, 8),
                    _ => panic!("no variable"),
                },
                _ => panic!("no comparison"),
            },
            _ => panic!("no loop"),
        },
        _ => panic!("no block"),
    }
}

#[test]
fn tokens_written_anew() {
    let t = mark(TokenType::LEFTBRACE);
    assert_eq!(t._type, TokenType::LEFTBRACE);
    assert_eq!(t.lexeme, "{");
    assert_eq!(t.line, 0);
    assert_eq!(mark(TokenType::ELSE).lexeme, "else");
    assert_eq!(mark(TokenType::EOF).lexeme, "");
    let t = literal_token(&TokenLiteral::Number(2.5f64.to_bits()));
    assert_eq!(t._type, TokenType::NUMBER);
    assert_eq!(t.lexeme, "2.5");
    assert!(matches!(t.literal, TokenLiteral::Number(bits) if bits == 2.5f64.to_bits()));
    let t = literal_token(&TokenLiteral::String("a".to_string()));
    assert_eq!(t._type, TokenType::STRING);
    assert_eq!(t.lexeme, "\"a\"");
    assert_eq!(literal_token(&TokenLiteral::Bool(true))._type, TokenType::TRUE);
    assert_eq!(literal_token(&TokenLiteral::Bool(false))._type, TokenType::FALSE);
    assert_eq!(literal_token(&TokenLiteral::Nil)._type, TokenType::NIL);
    let mut parser = Parser::new(Scanner::build(&"a + 1".to_string()).scan_tokens());
    let e = parser.parse_expression().unwrap();
    let mut out = vec![mark(TokenType::PRINT)];
    write_expr(&e, &mut out);
    assert_eq!(text(&out), "print a + 1");
}
