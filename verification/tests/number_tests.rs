use rlox::interpreter::binary_op;
use rlox::number;
use rlox::token::{Token, TokenLiteral, TokenType};
use rlox::value::LoxValue;

fn operator(kind: TokenType, lexeme: &str) -> Token {
    Token::build(kind, lexeme, TokenLiteral::Nil, 1, 1)
}

fn apply(kind: TokenType, lexeme: &str, a: f64, b: f64) -> f64 {
    let r = binary_op(
        &operator(kind, lexeme),
        LoxValue::Number(a.to_bits()),
        LoxValue::Number(b.to_bits()),
    );
    match r {
        Ok(LoxValue::Number(bits)) => f64::from_bits(bits),
        _ => panic!("no number"),
    }
}

fn compare(kind: TokenType, lexeme: &str, a: f64, b: f64) -> bool {
    let r = binary_op(
        &operator(kind, lexeme),
        LoxValue::Number(a.to_bits()),
        LoxValue::Number(b.to_bits()),
    );
    match r {
        Ok(LoxValue::Bool(b)) => b,
        _ => panic!("no boolean"),
    }
}

fn samples() -> Vec<f64> {
    let mut v = vec![
        0.0,
        -0.0,
        1.0,
        -1.0,
        2.0,
        3.0,
        0.1,
        0.2,
        0.3,
        5.2,
        45.67,
        1e-7,
        1e15,
        1e16,
        9007199254740992.0,
        9007199254740993.0,
        1e300,
        1e-300,
        5e-324,
        2.2250738585072014e-308,
        1.7976931348623157e308,
        f64::INFINITY,
        f64::NEG_INFINITY,
        123456789.125,
        -98765.4321,
    ];
    // A fixed pseudo-random walk over bit patterns.
    let mut state: u64 = 0x9e3779b97f4a7c15;
    for _ in 0..200 {
        state ^= state << 13;
        state ^= state >> 7;
        state ^= state << 17;
        let x = f64::from_bits(state);
        if !x.is_nan() {
            v.push(x);
        }
    }
    v
}

#[test]
fn sum_agrees_with_the_hardware() {
    for a in samples() {
        for b in samples() {
            let expected = a + b;
            let got = apply(TokenType::PLUS, "+", a, b);
            if expected.is_nan() {
                assert!(got.is_nan());
            } else {
                assert_eq!(got.to_bits(), expected.to_bits(), "{} + {}", a, b);
            }
        }
    }
}

#[test]
fn difference_agrees_with_the_hardware() {
    for a in samples() {
        for b in samples() {
            let expected = a - b;
            let got = apply(TokenType::MINUS, "-", a, b);
            if expected.is_nan() {
                assert!(got.is_nan());
            } else {
                assert_eq!(got.to_bits(), expected.to_bits(), "{} - {}", a, b);
            }
        }
    }
}

#[test]
fn product_agrees_with_the_hardware() {
    for a in samples() {
        for b in samples() {
            let expected = a * b;
            let got = apply(TokenType::STAR, "*", a, b);
            if expected.is_nan() {
                assert!(got.is_nan());
            } else {
                assert_eq!(got.to_bits(), expected.to_bits(), "{} * {}", a, b);
            }
        }
    }
}

#[test]
fn quotient_agrees_with_the_hardware() {
    for a in samples() {
        for b in samples() {
            let expected = a / b;
            let got = apply(TokenType::SLASH, "/", a, b);
            if expected.is_nan() {
                assert!(got.is_nan());
            } else {
                assert_eq!(got.to_bits(), expected.to_bits(), "{} / {}", a, b);
            }
        }
    }
}

#[test]
fn exact_arithmetic_values() {
    assert_eq!(apply(TokenType::PLUS, "+", 1.0, 2.0), 3.0);
    assert_eq!(apply(TokenType::MINUS, "-", 1.0, 2.0), -1.0);
    assert_eq!(apply(TokenType::STAR, "*", 6.0, 7.0), 42.0);
    assert_eq!(apply(TokenType::SLASH, "/", 1.0, 4.0), 0.25);
    assert_eq!(apply(TokenType::PLUS, "+", 0.1, 0.2), 0.30000000000000004);
}

#[test]
fn division_by_zero_gives_infinity_or_nan() {
    assert_eq!(apply(TokenType::SLASH, "/", 1.0, 0.0), f64::INFINITY);
    assert_eq!(apply(TokenType::SLASH, "/", -1.0, 0.0), f64::NEG_INFINITY);
    assert_eq!(apply(TokenType::SLASH, "/", 1.0, -0.0), f64::NEG_INFINITY);
    assert!(apply(TokenType::SLASH, "/", 0.0, 0.0).is_nan());
    assert!(number::infinite(apply(TokenType::SLASH, "/", 5.0, 0.0).to_bits()));
    assert!(number::nan(apply(TokenType::SLASH, "/", 0.0, 0.0).to_bits()));
}

#[test]
fn comparisons_agree_with_the_hardware() {
    let mut values = samples();
    values.push(f64::NAN);
    for a in values.iter().copied() {
        for b in values.iter().copied() {
            assert_eq!(compare(TokenType::LESS, "<", a, b), a < b, "{} < {}", a, b);
            assert_eq!(compare(TokenType::LESSEQUAL, "<=", a, b), a <= b, "{} <= {}", a, b);
            assert_eq!(compare(TokenType::GREATER, ">", a, b), a > b, "{} > {}", a, b);
            assert_eq!(compare(TokenType::GREATEREQUAL, ">=", a, b), a >= b, "{} >= {}", a, b);
            assert_eq!(compare(TokenType::EQUALEQUAL, "==", a, b), a == b, "{} == {}", a, b);
            assert_eq!(compare(TokenType::BANGEQUAL, "!=", a, b), a != b, "{} != {}", a, b);
            assert_eq!(number::equal(a.to_bits(), b.to_bits()), a == b);
            assert_eq!(number::less(a.to_bits(), b.to_bits()), a < b);
            assert_eq!(number::less_equal(a.to_bits(), b.to_bits()), a <= b);
        }
    }
}

#[test]
fn classification_and_negation() {
    assert!(number::nan(f64::NAN.to_bits()));
    assert!(!number::nan(1.0f64.to_bits()));
    assert!(number::infinite(f64::INFINITY.to_bits()));
    assert!(number::infinite(f64::NEG_INFINITY.to_bits()));
    assert!(number::zero(0.0f64.to_bits()));
    assert!(number::zero((-0.0f64).to_bits()));
    assert!(!number::zero(5e-324f64.to_bits()));
    assert!(number::negative((-2.5f64).to_bits()));
    assert!(!number::negative(2.5f64.to_bits()));
    for a in samples() {
        assert_eq!(number::negate(a.to_bits()), (-a).to_bits());
    }
}

#[test]
fn equality_laws_on_samples() {
    let mut values = samples();
    values.push(f64::NAN);
    for a in values.iter().copied() {
        assert_eq!(number::equal(a.to_bits(), a.to_bits()), !a.is_nan());
        for b in values.iter().copied() {
            assert_eq!(number::equal(a.to_bits(), b.to_bits()), number::equal(b.to_bits(), a.to_bits()));
        }
    }
    assert!(number::equal(0.0f64.to_bits(), (-0.0f64).to_bits()));
}

#[test]
fn text_of_numbers_is_the_shortest_that_reads_back() {
    let values = [
        0.0, 1.0, -1.0, 11.0, 123.0, 45.67, 5.2, 2.2, 3.3, 0.1, 0.2, 0.30000000000000004, 1000.0, 1e15,
        1e16, 1e21, 1e-7, 0.001, 123456789.125, -98765.4321, 9007199254740992.0, 99.0, 6.0, 42.0, 2.5,
        1e-300, 5e-324, 0.5, 100.0, 4503599627370497.5, 9007199254740991.0, 1.5e300, 1e100, 1e23,
        72057594037927936.0, 4611686018427387904.0, 1.7976931348623157e308, 15511210043330985984000000.0,
        -1e21, -123456789012345678.0,
    ];
    for x in values {
        assert_eq!(number::to_text(f64::to_bits(x)), format!("{}", x), "{:e}", x);
    }
}

#[test]
fn text_of_special_numbers() {
    assert_eq!(number::to_text(f64::NAN.to_bits()), "NaN");
    assert_eq!(number::to_text(f64::INFINITY.to_bits()), "inf");
    assert_eq!(number::to_text(f64::NEG_INFINITY.to_bits()), "-inf");
    assert_eq!(number::to_text((-0.0f64).to_bits()), "-0");
    assert_eq!(number::to_text(0.0f64.to_bits()), "0");
}

#[test]
fn text_of_a_large_number_ends_in_zeros() {
    // 1e23 is no binary64 value; the shortest digits that read back as the
    // value nearest to it are written, and zeros behind them.
    assert_eq!(number::to_text(1e23f64.to_bits()), "100000000000000000000000");
    assert_eq!(number::to_text(4611686018427387904.0f64.to_bits()), "4611686018427388000");
    assert_eq!(number::to_text((-1e21f64).to_bits()), "-1000000000000000000000");
}

#[test]
fn text_agrees_with_the_hardware_on_samples() {
    for x in samples() {
        if x.is_finite() {
            assert_eq!(number::to_text(x.to_bits()), format!("{}", x), "{:e}", x);
        }
    }
}

#[test]
fn scientific_texts_are_written_out() {
    assert_eq!(number::to_positional("1.0E+3"), Some("1000".to_string()));
    assert_eq!(number::to_positional("1.5E+3"), Some("1500".to_string()));
    assert_eq!(number::to_positional("-1.25E+2"), Some("-125".to_string()));
    assert_eq!(number::to_positional("7.0E+0"), Some("7".to_string()));
    assert_eq!(number::to_positional("1.2500E+4"), Some("12500".to_string()));
    assert_eq!(number::to_positional("1.25E+1"), None);
    assert_eq!(number::to_positional("1.25E-1"), None);
    assert_eq!(number::to_positional("1.25"), None);
    assert_eq!(number::to_positional("1.25E+"), None);
    assert_eq!(number::to_positional("1.2x5E+3"), None);
    assert_eq!(number::to_positional("1.25E+3x"), None);
    assert_eq!(number::to_positional("1.0E+401"), None);
    assert_eq!(number::to_positional("E+3"), None);
    assert_eq!(number::to_positional(""), None);
}

#[test]
fn text_of_a_number_reads_back_as_the_number() {
    for x in samples() {
        if x.is_finite() {
            let text = number::to_text(x.to_bits());
            let back: f64 = text.parse().unwrap();
            assert_eq!(back.to_bits(), x.to_bits(), "{}", text);
        }
    }
}

#[test]
fn exponent_mark_is_found() {
    assert!(number::contains_exponent_mark("1.0E+3"));
    assert!(!number::contains_exponent_mark("1000"));
    assert!(!number::contains_exponent_mark(""));
    assert!(number::same_number(Some(3), 3));
    assert!(!number::same_number(Some(3), 4));
    assert!(!number::same_number(None, 4));
}
