use rlox::ast::{Expr, Stmt};
use rlox::astprinter::AstPrinter;
use rlox::errors::{ParseError, ParseErrorKind};
use rlox::parser::{desugar_for, Parser};
use rlox::scanner::Scanner;
use rlox::token::{Token, TokenLiteral, TokenType};

fn easy_test(source: String) -> String {
    let scanner = Scanner::build(&source);
    let tokens = scanner.scan_tokens();
    let mut parser = Parser::new(tokens);
    let expression = parser.parse_expression().unwrap();
    let ast_parser = AstPrinter::new();
    ast_parser.print_expr(&expression)
}

fn parse(source: &str) -> Result<Vec<Stmt>, ParseError> {
    Parser::new(Scanner::build(&source.to_string()).scan_tokens()).parse()
}

fn tree(source: &str) -> Vec<String> {
    let printer = AstPrinter::new();
    match parse(source) {
        Ok(stmts) => stmts.iter().map(|s| printer.print_stmt(s)).collect(),
        Err(e) => panic!("{}", e.to_string()),
    }
}

fn error(source: &str) -> ParseError {
    match parse(source) {
        Ok(_) => panic!("parsed"),
        Err(e) => e,
    }
}

#[test]
fn parser_test1() {
    let source: String = "(1 + 2) * (4 - 3);".to_string();
    let output = easy_test(source);

    assert_eq!("(* (group (+ 1 2)) (group (- 4 3)))", output.as_str());
}

#[test]
fn parser_test2() {
    let source: String = "1 >= 99 + 5.2 == 2.2 > 3.3;".to_string();
    let output = easy_test(source);

    assert_eq!("(== (>= 1 (+ 99 5.2)) (> 2.2 3.3))", output.as_str());
}

#[test]
fn mod_test1() {
    let source: String = "(1 + 2) * (4 - 3);".to_string();
    let output = easy_test(source);

    assert_eq!("(* (group (+ 1 2)) (group (- 4 3)))", output.as_str());
}

#[test]
fn mod_test2() {
    let source: String = "1 >= 99 + 5.2 == 2.2 > 3.3;".to_string();
    let output = easy_test(source);

    assert_eq!("(== (>= 1 (+ 99 5.2)) (> 2.2 3.3))", output.as_str());
}

#[test]
fn binary_operators_associate_to_the_left() {
    assert_eq!(easy_test("1 - 2 - 3".to_string()), "(- (- 1 2) 3)");
    assert_eq!(easy_test("8 / 4 / 2".to_string()), "(/ (/ 8 4) 2)");
    assert_eq!(easy_test("1 < 2 < 3".to_string()), "(< (< 1 2) 3)");
    assert_eq!(easy_test("1 == 2 != 3".to_string()), "(!= (== 1 2) 3)");
    assert_eq!(easy_test("a or b or c".to_string()), "(or (or a b) c)");
    assert_eq!(easy_test("a and b and c".to_string()), "(and (and a b) c)");
}

#[test]
fn precedence_from_tight_to_loose() {
    assert_eq!(easy_test("1 + 2 * 3 + 4".to_string()), "(+ (+ 1 (* 2 3)) 4)");
    assert_eq!(easy_test("a or b and c == d < e + f * -g".to_string()), "(or a (and b (== c (< d (+ e (* f (- g)))))))");
    assert_eq!(easy_test("!-!x".to_string()), "(! (- (! x)))");
    assert_eq!(easy_test("-f(1)(2)".to_string()), "(- (call (call f 1) 2))");
}

#[test]
fn assignment_associates_to_the_right() {
    assert_eq!(easy_test("a = b = c".to_string()), "a = b = c");
    assert_eq!(easy_test("a = b or c".to_string()), "a = (or b c)");
}

#[test]
fn literals() {
    assert_eq!(easy_test("true".to_string()), "true");
    assert_eq!(easy_test("false".to_string()), "false");
    assert_eq!(easy_test("nil".to_string()), "nil");
    assert_eq!(easy_test("\"text\"".to_string()), "text");
    assert_eq!(easy_test("12.5".to_string()), "12.5");
}

#[test]
fn calls_and_their_arguments() {
    assert_eq!(easy_test("f()".to_string()), "(call f)");
    assert_eq!(easy_test("f(1, a + 2, g(3))".to_string()), "(call f 1 (+ a 2) (call g 3))");
}

#[test]
fn variable_and_assignment_nodes_carry_the_index_of_their_name() {
    let stmts = parse("var a = 1; a = a + 2;").unwrap();
    match &stmts[1] {
        Stmt::Expression(s) => match &s.expression {
            Expr::Assign(assign) => {
                assert_eq!(assign.id, 5);
                assert_eq!(assign.name.lexeme, "a");
                match assign.value.as_ref() {
                    Expr::Binary(b) => match b.left.as_ref() {
                        Expr::Variable(v) => assert_eq!(v.id, 7),
                        _ => panic!("no variable"),
                    },
                    _ => panic!("no binary"),
                }
            },
            _ => panic!("no assignment"),
        },
        _ => panic!("no expression statement"),
    }
}

#[test]
fn statements() {
    assert_eq!(tree("print 1;"), vec!["(print 1)"]);
    assert_eq!(tree("1;"), vec!["( 1 )"]);
    assert_eq!(tree("var a; var b = 2;"), vec!["( var a )", "( var b = 2 )"]);
    assert_eq!(tree("{ 1; { 2; } }"), vec!["{\n( 1 )\n{\n( 2 )\n}\n}"]);
    assert_eq!(tree("{}"), vec!["{\n}"]);
    assert_eq!(tree("if (a) 1; else 2;"), vec!["if a ( ( 1 ) )  else ( ( 2 ) ) \n"]);
    assert_eq!(tree("if (a) 1;"), vec!["if a ( ( 1 ) ) \n"]);
    assert_eq!(tree("while (a) 1;"), vec!["( while a (( 1 ))\n"]);
    assert_eq!(tree("return; return 1;"), vec!["(return)", "(return 1)"]);
    assert_eq!(tree("fun f(a, b) { return a; }"), vec!["( fun f ( a b ) {\n(return a)\n} )"]);
    assert_eq!(tree("fun f() {}"), vec!["( fun f ( ) {\n} )"]);
}

#[test]
fn an_else_belongs_to_the_nearest_if() {
    assert_eq!(
        tree("if (a) if (b) 1; else 2;"),
        vec!["if a ( if b ( ( 1 ) )  else ( ( 2 ) ) \n ) \n"]
    );
}

#[test]
fn for_is_rewritten_as_while() {
    assert_eq!(
        tree("for (var i = 0; i < 4; i = i + 1) print i;"),
        tree("{ var i = 0; while (i < 4) { print i; i = i + 1; } }")
    );
    assert_eq!(tree("for (;;) print 1;"), tree("while (true) print 1;"));
    assert_eq!(tree("for (; a;) print 1;"), tree("while (a) print 1;"));
    assert_eq!(tree("for (a = 1;;) print 1;"), tree("{ a = 1; while (true) print 1; }"));
    assert_eq!(tree("for (;; a = 1) print 1;"), tree("while (true) { print 1; a = 1; }"));
}

#[test]
fn desugaring_builds_the_blocks_only_where_needed() {
    let body = parse("print 1;").unwrap().remove(0);
    let printer = AstPrinter::new();
    assert_eq!(printer.print_stmt(&desugar_for(None, None, None, body)), "( while true ((print 1))\n");
}

#[test]
fn errors_name_the_token_where_they_were_noticed() {
    assert_eq!(error("1 +"), ParseError { kind: ParseErrorKind::ExpectExpression, line: 1, column: 3 });
    assert_eq!(error("(1"), ParseError { kind: ParseErrorKind::ExpectRightParenAfterExpression, line: 1, column: 2 });
    assert_eq!(error("1"), ParseError { kind: ParseErrorKind::ExpectSemicolonAfterValue, line: 1, column: 1 });
    assert_eq!(error("print 1"), ParseError { kind: ParseErrorKind::ExpectSemicolonAfterValue, line: 1, column: 7 });
    assert_eq!(error("var 1;").kind, ParseErrorKind::ExpectVariableName);
    assert_eq!(error("var a = 1").kind, ParseErrorKind::ExpectSemicolonAfterVariableDeclaration);
    assert_eq!(error("{ 1;").kind, ParseErrorKind::ExpectRightBraceAfterBlock);
    assert_eq!(error("if a").kind, ParseErrorKind::ExpectLeftParenAfterIf);
    assert_eq!(error("if (a 1;").kind, ParseErrorKind::ExpectRightParenAfterIfCondition);
    assert_eq!(error("while a").kind, ParseErrorKind::ExpectLeftParenAfterWhile);
    assert_eq!(error("while (a 1;").kind, ParseErrorKind::ExpectRightParenAfterCondition);
    assert_eq!(error("for a").kind, ParseErrorKind::ExpectLeftParenAfterFor);
    assert_eq!(error("for (;a 1)").kind, ParseErrorKind::ExpectSemicolonAfterLoopCondition);
    assert_eq!(error("for (;;a 1").kind, ParseErrorKind::ExpectRightParenAfterForClauses);
    assert_eq!(error("return 1").kind, ParseErrorKind::ExpectSemicolonAfterReturnValue);
    assert_eq!(error("fun 1").kind, ParseErrorKind::ExpectFunctionName);
    assert_eq!(error("fun f 1").kind, ParseErrorKind::ExpectLeftParenAfterFunctionName);
    assert_eq!(error("fun f(1").kind, ParseErrorKind::ExpectParameterName);
    assert_eq!(error("fun f(a 1").kind, ParseErrorKind::ExpectRightParenAfterParameters);
    assert_eq!(error("fun f(a) 1").kind, ParseErrorKind::ExpectLeftBraceBeforeFunctionBody);
    assert_eq!(error("f(1 2);").kind, ParseErrorKind::ExpectRightParenAfterArguments);
    assert_eq!(error("\n\n  1 +").line, 3);
}

#[test]
fn the_target_of_an_assignment_must_be_a_variable() {
    let e = error("a + b = c;");
    assert_eq!(e.kind, ParseErrorKind::InvalidAssignmentTarget);
    // The error points at the `=`.
    assert_eq!(e.column, 7);
    assert_eq!(error("(a) = 1;").kind, ParseErrorKind::InvalidAssignmentTarget);
    assert_eq!(error("1 = 2;").kind, ParseErrorKind::InvalidAssignmentTarget);
}

#[test]
fn the_first_error_ends_the_parse() {
    assert_eq!(error("print 1; print; print 2 print").kind, ParseErrorKind::ExpectExpression);
    assert_eq!(error("print 1; print; print 2 print").column, 15);
}

#[test]
fn the_text_of_a_parse_error() {
    let e = error("1 +");
    assert_eq!(e.to_string(), "ParseError at line 1 column 3: Expect expression.");
    assert_eq!(e.kind.message(), "Expect expression.");
    assert_eq!(ParseErrorKind::TooManyArguments.message(), "Cannot have more than 255 arguments.");
    assert_eq!(ParseErrorKind::TooManyParameters.message(), "Cannot have more than 255 parameters.");
    assert_eq!(ParseErrorKind::InvalidAssignmentTarget.message(), "Invalid assignment target.");
}

fn names(n: usize) -> String {
    let mut parts: Vec<String> = Vec::new();
    for i in 0..n {
        parts.push(format!("a{}", i));
    }
    parts.join(", ")
}

#[test]
fn a_function_takes_255_parameters_and_no_more() {
    let accepted = parse(&format!("fun f({}) {{}}", names(255))).unwrap();
    match &accepted[0] {
        Stmt::Function(f) => assert_eq!(f.params.len(), 255),
        _ => panic!("no function"),
    }
    let e = error(&format!("fun f({}) {{}}", names(256)));
    assert_eq!(e.kind, ParseErrorKind::TooManyParameters);
}

#[test]
fn a_call_takes_255_arguments_and_no_more() {
    let accepted = parse(&format!("f({});", names(255))).unwrap();
    match &accepted[0] {
        Stmt::Expression(s) => match &s.expression {
            Expr::Call(c) => assert_eq!(c.arguments.len(), 255),
            _ => panic!("no call"),
        },
        _ => panic!("no expression statement"),
    }
    let e = error(&format!("f({});", names(256)));
    assert_eq!(e.kind, ParseErrorKind::TooManyArguments);
}

fn token(kind: TokenType, lexeme: &str) -> Token {
    Token::build(kind, lexeme, TokenLiteral::Nil, 1, 1)
}

#[test]
fn synchronize_skips_to_the_next_statement() {
    let tokens = Scanner::build(&"1 + + 2; print 3;".to_string()).scan_tokens();
    let mut parser = Parser::new(tokens);
    assert!(parser.parse_expression().is_err());
    parser.synchronize();
    let rest = parser.parse().unwrap();
    let printer = AstPrinter::new();
    assert_eq!(printer.print_stmt(&rest[0]), "(print 3)");

    let tokens = Scanner::build(&"+ 1 2 var a;".to_string()).scan_tokens();
    let mut parser = Parser::new(tokens);
    assert!(parser.parse_expression().is_err());
    parser.synchronize();
    let rest = parser.parse().unwrap();
    assert_eq!(printer.print_stmt(&rest[0]), "( var a )");

    let mut parser = Parser::new(vec![token(TokenType::EOF, "")]);
    parser.synchronize();
    assert_eq!(parser.parse().unwrap().len(), 0);
}

#[test]
fn parse_of_nothing() {
    assert_eq!(parse("").unwrap().len(), 0);
}

#[test]
fn every_parse_error_has_its_message() {
    let expected = [
        (ParseErrorKind::ExpectFunctionName, "Expect function name."),
        (ParseErrorKind::ExpectLeftParenAfterFunctionName, "Expect '(' after function name."),
        (ParseErrorKind::TooManyParameters, "Cannot have more than 255 parameters."),
        (ParseErrorKind::ExpectParameterName, "Expect parameter name."),
        (ParseErrorKind::ExpectRightParenAfterParameters, "Expect ')' after parameters."),
        (ParseErrorKind::ExpectLeftBraceBeforeFunctionBody, "Expect '{' before function body."),
        (ParseErrorKind::ExpectVariableName, "Expect variable name."),
        (ParseErrorKind::ExpectSemicolonAfterVariableDeclaration, "Expect ';' after variable declaration."),
        (ParseErrorKind::ExpectLeftParenAfterFor, "Expect '(' after 'for'."),
        (ParseErrorKind::ExpectSemicolonAfterLoopCondition, "Expect ';' after loop condition."),
        (ParseErrorKind::ExpectRightParenAfterForClauses, "Expect ')' after for clauses."),
        (ParseErrorKind::ExpectLeftParenAfterIf, "Expect '(' after 'if'."),
        (ParseErrorKind::ExpectRightParenAfterIfCondition, "Expect ')' after if condition."),
        (ParseErrorKind::ExpectSemicolonAfterValue, "Expect ';' after value."),
        (ParseErrorKind::ExpectSemicolonAfterReturnValue, "Expect ';' after return value."),
        (ParseErrorKind::ExpectLeftParenAfterWhile, "Expect '(' after 'while'."),
        (ParseErrorKind::ExpectRightParenAfterCondition, "Expect ')' after condition."),
        (ParseErrorKind::ExpectRightBraceAfterBlock, "Expect '}' after block."),
        (ParseErrorKind::InvalidAssignmentTarget, "Invalid assignment target."),
        (ParseErrorKind::TooManyArguments, "Cannot have more than 255 arguments."),
        (ParseErrorKind::ExpectRightParenAfterArguments, "Expect ')' after arguments."),
        (ParseErrorKind::ExpectRightParenAfterExpression, "Expect ')' after expression."),
        (ParseErrorKind::ExpectExpression, "Expect expression."),
    ];
    for (kind, text) in expected {
        assert_eq!(kind.message(), text);
        let e = ParseError::new(&token(TokenType::SEMICOLON, ";"), kind);
        assert_eq!(e.kind, kind);
        assert_eq!(e.to_string(), format!("ParseError at line 1 column 1: {}", text));
    }
}
