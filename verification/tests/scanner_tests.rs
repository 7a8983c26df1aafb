use rlox::lexing::{ScanError, ScanErrorKind};
use rlox::scanner::Scanner;
use rlox::token::{keyword, Token, TokenLiteral, TokenType};

fn scan(source: &str) -> Vec<Token> {
    Scanner::build(&source.to_string()).scan_tokens()
}

fn kinds(source: &str) -> Vec<TokenType> {
    scan(source).iter().map(|t| t._type).collect()
}

#[test]
fn scanner_test1() {
    let source: String = "(1 + 2) * (4 - 3);".to_string();
    let scanner = Scanner::build(&source);
    let tokens = scanner.scan_tokens();

    assert_eq!(tokens.len(), 13);
    assert_eq!(tokens[0]._type, TokenType::LEFTPAREN);
    assert_eq!(tokens[1]._type, TokenType::NUMBER);
    assert_eq!(tokens[2]._type, TokenType::PLUS);
    assert_eq!(tokens[3]._type, TokenType::NUMBER);
    assert_eq!(tokens[4]._type, TokenType::RIGHTPAREN);
    assert_eq!(tokens[5]._type, TokenType::STAR);
    assert_eq!(tokens[6]._type, TokenType::LEFTPAREN);
    assert_eq!(tokens[7]._type, TokenType::NUMBER);
    assert_eq!(tokens[8]._type, TokenType::MINUS);
    assert_eq!(tokens[9]._type, TokenType::NUMBER);
    assert_eq!(tokens[10]._type, TokenType::RIGHTPAREN);
    assert_eq!(tokens[11]._type, TokenType::SEMICOLON);
    assert_eq!(tokens[12]._type, TokenType::EOF);
}

#[test]
fn scanner_test2() {
    let source: String = "1 >= 2 and 4 < 3;".to_string();
    let scanner = Scanner::build(&source);
    let tokens = scanner.scan_tokens();

    assert_eq!(tokens.len(), 9);
    assert_eq!(tokens[0]._type, TokenType::NUMBER);
    assert_eq!(tokens[1]._type, TokenType::GREATEREQUAL);
    assert_eq!(tokens[2]._type, TokenType::NUMBER);
    assert_eq!(tokens[3]._type, TokenType::AND);
    assert_eq!(tokens[4]._type, TokenType::NUMBER);
    assert_eq!(tokens[5]._type, TokenType::LESS);
    assert_eq!(tokens[6]._type, TokenType::NUMBER);
    assert_eq!(tokens[7]._type, TokenType::SEMICOLON);
    assert_eq!(tokens[8]._type, TokenType::EOF);
}

#[test]
fn scanner_test3() {
    let source: String = "1 >= 99 + 5.2 or 2.2 < 3.3;".to_string();
    let scanner = Scanner::build(&source);
    let tokens = scanner.scan_tokens();

    assert_eq!(tokens.len(), 11);
    assert_eq!(tokens[0]._type, TokenType::NUMBER);
    assert_eq!(tokens[1]._type, TokenType::GREATEREQUAL);
    assert_eq!(tokens[2]._type, TokenType::NUMBER);
    assert_eq!(tokens[3]._type, TokenType::PLUS);
    assert_eq!(tokens[4]._type, TokenType::NUMBER);
    assert_eq!(tokens[5]._type, TokenType::OR);
    assert_eq!(tokens[6]._type, TokenType::NUMBER);
    assert_eq!(tokens[7]._type, TokenType::LESS);
    assert_eq!(tokens[8]._type, TokenType::NUMBER);
    assert_eq!(tokens[9]._type, TokenType::SEMICOLON);
    assert_eq!(tokens[10]._type, TokenType::EOF);
}

#[test]
fn empty_source_gives_the_end_token_alone() {
    let tokens = scan("");
    assert_eq!(tokens.len(), 1);
    assert_eq!(tokens[0]._type, TokenType::EOF);
    assert_eq!(tokens[0].lexeme, "");
    assert_eq!(tokens[0].line, 1);
    assert_eq!(tokens[0].offset, 0);
}

#[test]
fn punctuation_and_operators() {
    assert_eq!(
        kinds("(){},.-+;/*"),
        vec![
            TokenType::LEFTPAREN,
            TokenType::RIGHTPAREN,
            TokenType::LEFTBRACE,
            TokenType::RIGHTBRACE,
            TokenType::COMMA,
            TokenType::DOT,
            TokenType::MINUS,
            TokenType::PLUS,
            TokenType::SEMICOLON,
            TokenType::SLASH,
            TokenType::STAR,
            TokenType::EOF,
        ]
    );
    assert_eq!(
        kinds("! != = == > >= < <="),
        vec![
            TokenType::BANG,
            TokenType::BANGEQUAL,
            TokenType::EQUAL,
            TokenType::EQUALEQUAL,
            TokenType::GREATER,
            TokenType::GREATEREQUAL,
            TokenType::LESS,
            TokenType::LESSEQUAL,
            TokenType::EOF,
        ]
    );
    assert_eq!(kinds("==="), vec![TokenType::EQUALEQUAL, TokenType::EQUAL, TokenType::EOF]);
}

#[test]
fn reserved_words_and_identifiers() {
    assert_eq!(
        kinds("and class else false for fun if nil or print return super this true var while"),
        vec![
            TokenType::AND,
            TokenType::CLASS,
            TokenType::ELSE,
            TokenType::FALSE,
            TokenType::FOR,
            TokenType::FUN,
            TokenType::IF,
            TokenType::NIL,
            TokenType::OR,
            TokenType::PRINT,
            TokenType::RETURN,
            TokenType::SUPER,
            TokenType::THIS,
            TokenType::TRUE,
            TokenType::VAR,
            TokenType::WHILE,
            TokenType::EOF,
        ]
    );
    let tokens = scan("orchid fun_1 andy");
    assert_eq!(tokens[0]._type, TokenType::IDENTIFIER);
    assert_eq!(tokens[0].lexeme, "orchid");
    assert_eq!(tokens[1]._type, TokenType::IDENTIFIER);
    assert_eq!(tokens[1].lexeme, "fun_1");
    assert_eq!(tokens[2]._type, TokenType::IDENTIFIER);
    assert!(matches!(tokens[0].literal, TokenLiteral::Nil));
    assert_eq!(keyword(&"while".to_string()), Some(TokenType::WHILE));
    assert_eq!(keyword(&"whale".to_string()), None);
}

#[test]
fn number_literals_carry_their_value() {
    let tokens = scan("12 3.5 0.1 7.");
    let expected = [12.0f64, 3.5, 0.1, 7.0];
    for i in 0..4 {
        assert_eq!(tokens[i]._type, TokenType::NUMBER);
        match tokens[i].literal {
            TokenLiteral::Number(bits) => assert_eq!(bits, expected[i].to_bits()),
            _ => panic!("no number"),
        }
    }
    assert_eq!(tokens[0].lexeme, "12");
    assert_eq!(tokens[1].lexeme, "3.5");
    // A trailing dot is no part of the number.
    assert_eq!(tokens[3].lexeme, "7");
    assert_eq!(tokens[4]._type, TokenType::DOT);
    assert_eq!(tokens[5]._type, TokenType::EOF);
}

#[test]
fn number_literals_are_correctly_rounded() {
    let texts = [
        "0.30000000000000004",
        "123456789012345678901234567890",
        "9007199254740993",
        "0.000000000000000000000000000001",
        "3.141592653589793238462643383279",
        "179769313486231570000000000000000000000",
    ];
    for text in texts {
        let tokens = scan(text);
        let expected: f64 = text.parse().unwrap();
        match tokens[0].literal {
            TokenLiteral::Number(bits) => assert_eq!(bits, expected.to_bits(), "{}", text),
            _ => panic!("no number"),
        }
    }
}

#[test]
fn a_leading_dot_is_no_number() {
    assert_eq!(kinds(".5"), vec![TokenType::DOT, TokenType::NUMBER, TokenType::EOF]);
}

#[test]
fn string_literals_carry_their_contents() {
    let tokens = scan("\"hello\" \"a\nb\"");
    assert_eq!(tokens[0]._type, TokenType::STRING);
    assert_eq!(tokens[0].lexeme, "\"hello\"");
    match &tokens[0].literal {
        TokenLiteral::String(text) => assert_eq!(text, "hello"),
        _ => panic!("no string"),
    }
    assert_eq!(tokens[0].line, 1);
    match &tokens[1].literal {
        TokenLiteral::String(text) => assert_eq!(text, "a\nb"),
        _ => panic!("no string"),
    }
    // A line end inside a string counts.
    assert_eq!(tokens[1].line, 2);
    assert_eq!(tokens[2]._type, TokenType::EOF);
    assert_eq!(tokens[2].line, 2);
}

#[test]
fn comments_and_blanks_are_dropped() {
    let tokens = scan("// nothing here\n1 // one\n\t 2\r\n");
    assert_eq!(tokens.len(), 3);
    assert_eq!(tokens[0]._type, TokenType::NUMBER);
    assert_eq!(tokens[0].line, 2);
    assert_eq!(tokens[1]._type, TokenType::NUMBER);
    assert_eq!(tokens[1].line, 3);
    assert_eq!(tokens[2]._type, TokenType::EOF);
    assert_eq!(tokens[2].line, 4);
}

#[test]
fn offsets_point_behind_the_lexeme() {
    let tokens = scan("var ab = 12;");
    assert_eq!(tokens[0].offset, 3);
    assert_eq!(tokens[1].offset, 6);
    assert_eq!(tokens[2].offset, 8);
    assert_eq!(tokens[3].offset, 11);
    assert_eq!(tokens[4].offset, 12);
    assert_eq!(tokens[5].offset, 12);
}

#[test]
fn an_unexpected_character_is_an_error_and_the_scan_goes_on() {
    let (tokens, errors) = Scanner::build(&"1 @ 2 #".to_string()).scan();
    assert_eq!(tokens.len(), 3);
    assert_eq!(
        errors,
        vec![
            ScanError { kind: ScanErrorKind::UnexpectedCharacter('@'), line: 1 },
            ScanError { kind: ScanErrorKind::UnexpectedCharacter('#'), line: 1 },
        ]
    );
}

#[test]
fn an_underscore_starts_no_identifier() {
    let (tokens, errors) = Scanner::build(&"_a".to_string()).scan();
    assert_eq!(errors, vec![ScanError { kind: ScanErrorKind::UnexpectedCharacter('_'), line: 1 }]);
    assert_eq!(tokens[0]._type, TokenType::IDENTIFIER);
    assert_eq!(tokens[0].lexeme, "a");
}

#[test]
fn an_open_string_is_an_error() {
    let (tokens, errors) = Scanner::build(&"1 \"abc\ndef".to_string()).scan();
    assert_eq!(tokens.len(), 2);
    assert_eq!(tokens[1]._type, TokenType::EOF);
    assert_eq!(errors, vec![ScanError { kind: ScanErrorKind::UnterminatedString, line: 2 }]);
}

#[test]
fn letters_of_other_alphabets_make_identifiers() {
    let tokens = scan("var größe = 1;");
    assert_eq!(tokens[1]._type, TokenType::IDENTIFIER);
    assert_eq!(tokens[1].lexeme, "größe");
    assert_eq!(tokens[1].offset, 9);
}
