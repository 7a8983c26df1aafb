use rlox::ast::{Assign, Binary, Call, Group, Literal, Logical, Unary, Variable};
use rlox::astprinter::AstPrinter;
use rlox::logger::Logger;
use rlox::token::{Token, TokenLiteral, TokenType};

fn easy_number(num: f64) -> rlox::ast::Expr {
    Literal::build(TokenLiteral::Number(num.to_bits()))
}

fn easy_token(_type: TokenType, lexeme: &str) -> Token {
    Token { _type, lexeme: lexeme.to_owned(), literal: TokenLiteral::Nil, line: 1, offset: 1 }
}

#[test]
fn astprinter_test1() {
    let minus = easy_token(TokenType::MINUS, "-");
    let multi = easy_token(TokenType::STAR, "*");
    let _123 = easy_number(123.0);
    let _45dot67 = easy_number(45.67);

    let expression = Binary::build(Unary::build(minus, _123), multi, Group::build(_45dot67));

    let ast_parser = AstPrinter::new();
    let output = ast_parser.print_expr(&expression);

    assert_eq!("(* (- 123) (group 45.67))", output.as_str());
}

#[test]
fn exprvisiter_test1() {
    let minus = Token {
        _type: TokenType::MINUS,
        lexeme: "-".to_owned(),
        literal: TokenLiteral::Nil,
        line: 1,
        offset: 1,
    };
    let multi = Token {
        _type: TokenType::STAR,
        lexeme: "*".to_owned(),
        literal: TokenLiteral::Nil,
        line: 1,
        offset: 1,
    };
    let expression = Binary::build(
        Unary::build(minus, Literal::build(TokenLiteral::Number(123.0f64.to_bits()))),
        multi,
        Group::build(Literal::build(TokenLiteral::Number(45.67f64.to_bits()))),
    );

    let ast_parser = AstPrinter::new();
    let output = ast_parser.print(&expression);

    assert_eq!("(* (- 123) (group 45.67))", output.as_str());
}

#[test]
fn every_kind_of_expression_has_a_text() {
    let printer = AstPrinter::new();
    let a = || Variable::build(easy_token(TokenType::IDENTIFIER, "a"), 0);
    assert_eq!(printer.print_expr(&a()), "a");
    assert_eq!(printer.print_expr(&Assign::build(easy_token(TokenType::IDENTIFIER, "b"), a(), 0)), "b = a");
    assert_eq!(
        printer.print_expr(&Logical::build(a(), easy_token(TokenType::OR, "or"), easy_number(1.0))),
        "(or a 1)"
    );
    assert_eq!(printer.print_expr(&Literal::build(TokenLiteral::String("s".to_string()))), "s");
    assert_eq!(printer.print_expr(&Literal::build(TokenLiteral::Bool(true))), "true");
    assert_eq!(printer.print_expr(&Literal::build(TokenLiteral::Nil)), "nil");
    assert_eq!(
        printer.print_expr(&Call::build(a(), easy_token(TokenType::RIGHTPAREN, ")"), vec![easy_number(1.0), a()])),
        "(call a 1 a)"
    );
}

#[test]
fn the_logger_keeps_its_reports() {
    let mut logger = Logger::new();
    assert!(!logger.had_error);
    logger.error(3, "Unexpected character.");
    logger.report(12, "end", "Unterminated string.");
    assert!(logger.had_error);
    assert_eq!(
        logger.lines,
        vec!["[line 3] Error: Unexpected character. at ", "[line 12] Error: Unterminated string. at end"]
    );
}
