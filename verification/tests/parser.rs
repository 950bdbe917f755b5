use rawk::lexer::Lexer;
use rawk::parser::{evaluate, Expr, ParseError, Parser};
use rawk::token::{Token, TokenSpan, TokenType};

fn lex(source: &str) -> Vec<Token> {
    let mut l = Lexer::from_string(String::from(source));
    l.lex_tokens().unwrap()
}

fn parse(source: &str) -> Result<Expr, ParseError> {
    let mut parser = Parser::new(lex(source), String::new());
    parser.parse()
}

#[test]
fn test_pasic_parsing() {
    let mut parser = Parser::new(
        vec![
            Token {
                token_type: TokenType::Int,
                lexeme: String::from("3"),
                span: TokenSpan { start: 0, end: 1 },
            },
            Token {
                token_type: TokenType::Plus,
                lexeme: String::from("+"),
                span: TokenSpan { start: 0, end: 1 },
            },
            Token {
                token_type: TokenType::Int,
                lexeme: String::from("2"),
                span: TokenSpan { start: 0, end: 1 },
            },
        ],
        "".to_string(),
    );

    let expr = parser.expression().unwrap();

    assert!(matches!(
        expr,
        Expr::Binary {
            left: _,
            operator: _,
            right: _
        }
    ));

    if let Expr::Binary {
        left,
        operator,
        right,
    } = expr
    {
        assert!(operator.token_type == TokenType::Plus);

        assert!(matches!(*left, Expr::LiteralInt(3)));
        assert!(matches!(*right, Expr::LiteralInt(2)));
    }
}

#[test]
fn test_match_tokens() {
    let mut parser = Parser::new(
        vec![
            Token {
                token_type: TokenType::Int,
                lexeme: String::from("3"),
                span: TokenSpan { start: 0, end: 1 },
            },
            Token {
                token_type: TokenType::Plus,
                lexeme: String::from("+"),
                span: TokenSpan { start: 0, end: 1 },
            },
            Token {
                token_type: TokenType::Int,
                lexeme: String::from("2"),
                span: TokenSpan { start: 0, end: 1 },
            },
        ],
        "".to_string(),
    );

    let matched_int = if parser.check(TokenType::Int) {
        parser.advance();
        true
    } else {
        false
    };
    assert!(matched_int);

    let matched_int_or_plus = if parser.check(TokenType::Int) {
        parser.advance();
        true
    } else if parser.check(TokenType::Plus) {
        parser.advance();
        true
    } else {
        false
    };
    assert!(matched_int_or_plus);
}

#[test]
fn test_precedence_multiplication_binds_tighter() {
    let expr = parse("3 + 2 * 2").unwrap();
    match expr {
        Expr::Binary {
            left,
            operator,
            right,
        } => {
            assert_eq!(operator.token_type, TokenType::Plus);
            assert!(matches!(*left, Expr::LiteralInt(3)));
            match *right {
                Expr::Binary {
                    left,
                    operator,
                    right,
                } => {
                    assert_eq!(operator.token_type, TokenType::Star);
                    assert!(matches!(*left, Expr::LiteralInt(2)));
                    assert!(matches!(*right, Expr::LiteralInt(2)));
                }
                other => panic!("expected a product on the right, got {:?}", other),
            }
        }
        other => panic!("expected a sum at the top, got {:?}", other),
    }
}

#[test]
fn test_parenthesization_overrides_precedence() {
    let expr = parse("(3 + 2) * 2").unwrap();
    match expr {
        Expr::Binary {
            left,
            operator,
            right,
        } => {
            assert_eq!(operator.token_type, TokenType::Star);
            assert!(matches!(*right, Expr::LiteralInt(2)));
            match *left {
                Expr::Grouping(inner) => match *inner {
                    Expr::Binary {
                        left,
                        operator,
                        right,
                    } => {
                        assert_eq!(operator.token_type, TokenType::Plus);
                        assert!(matches!(*left, Expr::LiteralInt(3)));
                        assert!(matches!(*right, Expr::LiteralInt(2)));
                    }
                    other => panic!("expected a sum inside the grouping, got {:?}", other),
                },
                other => panic!("expected a grouping on the left, got {:?}", other),
            }
        }
        other => panic!("expected a product at the top, got {:?}", other),
    }
}

#[test]
fn test_unary_right_associativity() {
    let expr = parse("- - 3").unwrap();
    match expr {
        Expr::Unary { operator, right } => {
            assert_eq!(operator.token_type, TokenType::Minus);
            match *right {
                Expr::Unary { operator, right } => {
                    assert_eq!(operator.token_type, TokenType::Minus);
                    assert!(matches!(*right, Expr::LiteralInt(3)));
                }
                other => panic!("expected a nested unary, got {:?}", other),
            }
        }
        other => panic!("expected a unary at the top, got {:?}", other),
    }
}

#[test]
fn test_missing_closing_paren() {
    let err = parse("(3 + 2").unwrap_err();
    match err {
        ParseError::ExpectedToken { expected, found } => {
            assert_eq!(expected, TokenType::Rightparen);
            assert!(found.is_none());
        }
        other => panic!("expected a missing-terminator error, got {:?}", other),
    }
}

#[test]
fn test_missing_closing_paren_with_trailing_token() {
    let err = parse("(3 + 2 ;").unwrap_err();
    match err {
        ParseError::ExpectedToken { expected, found } => {
            assert_eq!(expected, TokenType::Rightparen);
            assert_eq!(found.unwrap().token_type, TokenType::Semicolon);
        }
        other => panic!("expected a missing-terminator error, got {:?}", other),
    }
}

#[test]
fn test_expected_expression_error() {
    let err = parse("+").unwrap_err();
    match err {
        ParseError::ExpectedExpression { found } => {
            assert_eq!(found.unwrap().token_type, TokenType::Plus);
        }
        other => panic!("expected an expected-expression error, got {:?}", other),
    }

    let err = parse("3 +").unwrap_err();
    match err {
        ParseError::ExpectedExpression { found } => {
            assert!(found.is_none());
        }
        other => panic!("expected an expected-expression error, got {:?}", other),
    }
}

#[test]
fn test_int_literal_overflow_is_a_parse_error() {
    let err = parse("99999999999999999999").unwrap_err();
    match err {
        ParseError::InvalidIntLiteral { token } => {
            assert_eq!(token.lexeme, "99999999999999999999");
        }
        other => panic!("expected an invalid-literal error, got {:?}", other),
    }

    let expr = parse("9223372036854775807").unwrap();
    assert!(matches!(expr, Expr::LiteralInt(9223372036854775807)));
}

#[test]
fn test_literal_parsing() {
    assert!(matches!(parse("true").unwrap(), Expr::LiteralTrue));
    assert!(matches!(parse("false").unwrap(), Expr::LiteralFalse));
    assert!(matches!(parse("null").unwrap(), Expr::LiteralNull));
    assert!(matches!(parse("42").unwrap(), Expr::LiteralInt(42)));
    match parse("3.14").unwrap() {
        Expr::LiteralDouble(text) => assert_eq!(text, "3.14"),
        other => panic!("expected a float literal, got {:?}", other),
    }
    match parse("\"hi\"").unwrap() {
        Expr::LiteralString(text) => assert_eq!(text, "hi"),
        other => panic!("expected a string literal, got {:?}", other),
    }
}

#[test]
fn test_equality_and_comparison_levels() {
    let expr = parse("1 < 2 == 3 > 4").unwrap();
    match expr {
        Expr::Binary { left, operator, right } => {
            assert_eq!(operator.token_type, TokenType::Equalequal);
            match *left {
                Expr::Binary { operator, .. } => assert_eq!(operator.token_type, TokenType::Less),
                other => panic!("expected a comparison on the left, got {:?}", other),
            }
            match *right {
                Expr::Binary { operator, .. } => {
                    assert_eq!(operator.token_type, TokenType::Greater)
                }
                other => panic!("expected a comparison on the right, got {:?}", other),
            }
        }
        other => panic!("expected an equality at the top, got {:?}", other),
    }
}

#[test]
fn test_left_associativity_of_subtraction() {
    // 10 - 4 - 3 folds left: (10 - 4) - 3.
    let expr = parse("10 - 4 - 3").unwrap();
    assert_eq!(evaluate(expr), Some(3));
}

#[test]
fn test_evaluate_arithmetic() {
    assert_eq!(evaluate(parse("3 + 2 * 2").unwrap()), Some(7));
    assert_eq!(evaluate(parse("(3 + 2) * 2").unwrap()), Some(10));
    assert_eq!(evaluate(parse("- - 3").unwrap()), Some(3));
    assert_eq!(evaluate(parse("7 / 2").unwrap()), Some(3));
    assert_eq!(evaluate(parse("(0 - 7) / 2").unwrap()), Some(-3));
    assert_eq!(evaluate(parse("1 / 0").unwrap()), None);
    assert_eq!(evaluate(parse("9223372036854775807 + 1").unwrap()), None);
    assert_eq!(evaluate(parse("true").unwrap()), None);
    assert_eq!(evaluate(parse("1 == 1").unwrap()), None);
}

#[test]
fn test_consume_token() {
    let mut parser = Parser::new(lex(")"), String::new());
    let t = parser.consume_token(TokenType::Rightparen).unwrap();
    assert_eq!(t.token_type, TokenType::Rightparen);
    assert!(parser.is_at_end());
    let err = parser.consume_token(TokenType::Rightparen).unwrap_err();
    assert!(matches!(
        err,
        ParseError::ExpectedToken {
            expected: TokenType::Rightparen,
            found: None,
        }
    ));
}

#[test]
fn test_lex_then_parse_round() {
    // The operator token inside the tree keeps its source span.
    let expr = parse("1 + 2").unwrap();
    match expr {
        Expr::Binary { operator, .. } => {
            assert_eq!(operator.token_type, TokenType::Plus);
            assert_eq!(operator.span, TokenSpan { start: 2, end: 3 });
            assert_eq!(operator.lexeme, "+");
        }
        other => panic!("expected a sum, got {:?}", other),
    }
}
