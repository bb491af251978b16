use calculator::calculate::{calculate, calculate_binary_expr, EvalError, Rat};
use calculator::lexer::{LexError, Lexer, Token, Tokentype};
use calculator::parser::{digits_to_i64, BinOp, Expr, ParseError, Parser};
use calculator::{evaluate_expression, CalcError};

fn chars(s: &str) -> Vec<char> {
    s.chars().collect()
}

fn eval(s: &str) -> Result<Rat, CalcError> {
    evaluate_expression(chars(s)).map(|ev| ev.value)
}

fn eval_ok(s: &str) -> Rat {
    eval(s).expect("expected successful evaluation")
}

#[test]
fn precedence_multiplication_binds_tighter() {
    let v = eval_ok("2 + 3 * 4");
    assert!(v.eq_int(14));
    assert!(!v.eq_int(20));
}

#[test]
fn precedence_parentheses_reset() {
    let v = eval_ok("(2 + 3) * 4");
    assert!(v.eq_int(20));
    assert!(!v.eq_int(14));
}

#[test]
fn left_associative_subtraction() {
    let v = eval_ok("10 - 2 - 3");
    assert!(v.eq_int(5));
    assert!(!v.eq_int(11));
}

#[test]
fn left_associative_division() {
    let v = eval_ok("8 / 4 / 2");
    assert!(v.eq_int(1));
    assert!(!v.eq_int(4));
}

#[test]
fn whitespace_insensitive_results() {
    let tight = eval("1+2");
    let spaced = eval(" 1 + 2 ");
    assert_eq!(tight, spaced);
    assert!(tight.unwrap().eq_int(3));
    let tabs = eval("\t2\n*\r3 ");
    assert_eq!(tabs, eval("2*3"));
}

#[test]
fn nested_parentheses() {
    let v = eval_ok("((1+2)*(3+4))");
    assert!(v.eq_int(21));
}

#[test]
fn error_missing_right_operand() {
    match eval("1 + ") {
        Err(CalcError::Parse(ParseError::UnexpectedToken { expected, found, position })) => {
            assert_eq!(expected, Tokentype::Number);
            assert_eq!(found, Tokentype::EoF);
            assert_eq!(position, 2);
        }
        other => panic!("expected an unexpected-token parse error, got {:?}", other),
    }
}

#[test]
fn error_unbalanced_paren() {
    assert_eq!(eval("(1 + 2"), Err(CalcError::Parse(ParseError::UnbalancedParen)));
}

#[test]
fn error_trailing_input() {
    assert_eq!(eval("1 2"), Err(CalcError::Parse(ParseError::TrailingInput)));
}

#[test]
fn error_division_by_zero() {
    assert_eq!(eval("5 / 0"), Err(CalcError::Eval(EvalError::DivisionByZero)));
}

#[test]
fn error_unexpected_character() {
    assert_eq!(
        eval("1 & 2"),
        Err(CalcError::Lex(LexError::UnexpectedCharacter { character: '&', position: 2 }))
    );
}

#[test]
fn error_decimal_point_rejected() {
    assert_eq!(
        eval("1.5"),
        Err(CalcError::Lex(LexError::UnexpectedCharacter { character: '.', position: 1 }))
    );
}

#[test]
fn error_empty_input_is_parse_error() {
    match eval("") {
        Err(CalcError::Parse(ParseError::UnexpectedToken { expected, found, .. })) => {
            assert_eq!(expected, Tokentype::Number);
            assert_eq!(found, Tokentype::EoF);
        }
        other => panic!("expected a parse error on empty input, got {:?}", other),
    }
}

#[test]
fn error_number_too_large_for_leaf() {
    assert_eq!(
        eval("9223372036854775808"),
        Err(CalcError::Parse(ParseError::InvalidNumber { position: 0 }))
    );
    assert!(eval_ok("9223372036854775807").eq_int(9223372036854775807));
}

#[test]
fn error_overflow_during_evaluation() {
    assert_eq!(
        eval("9223372036854775807 + 1"),
        Err(CalcError::Eval(EvalError::Overflow))
    );
}

#[test]
fn division_keeps_exact_fractions() {
    let v = eval_ok("5 / 2");
    assert_eq!(v.num, 5);
    assert_eq!(v.den, 2);
    assert!(!v.eq_int(2));
    assert!(!v.eq_int(3));
}

#[test]
fn evaluation_is_deterministic() {
    let a = eval("(7 - 2) * 3 / 5");
    let b = eval("(7 - 2) * 3 / 5");
    assert_eq!(a, b);
    let bad_a = eval("3 * * 4");
    let bad_b = eval("3 * * 4");
    assert_eq!(bad_a, bad_b);
}

#[test]
fn retokenizing_is_token_for_token_identical() {
    let mut first = Lexer::new(chars("12 + (34 * 5)"));
    let mut second = Lexer::new(chars("12 + (34 * 5)"));
    let a = first.tokenize().unwrap();
    let b = second.tokenize().unwrap();
    assert_eq!(a.len(), b.len());
    for (x, y) in a.iter().zip(b.iter()) {
        assert_eq!(x.value, y.value);
        assert_eq!(x.token_type, y.token_type);
    }
}

#[test]
fn tokenizer_scenario() {
    let mut lexer = Lexer::new(chars("12+(3)"));
    let tokens = lexer.tokenize().unwrap();
    let kinds: Vec<Tokentype> = tokens.iter().map(|t| t.token_type).collect();
    assert_eq!(
        kinds,
        vec![
            Tokentype::Number,
            Tokentype::Operator,
            Tokentype::OpenParen,
            Tokentype::Number,
            Tokentype::CloseParen,
            Tokentype::EoF,
        ]
    );
    let values: Vec<String> = tokens.iter().map(|t| t.value.iter().collect()).collect();
    assert_eq!(values, vec!["12", "+", "(", "3", ")", ""]);
}

#[test]
fn tokenizer_empty_input_yields_only_end_marker() {
    let mut lexer = Lexer::new(chars(""));
    let tokens = lexer.tokenize().unwrap();
    assert_eq!(tokens.len(), 1);
    assert_eq!(tokens[0].token_type, Tokentype::EoF);
}

#[test]
fn tokenizer_lone_operator_is_not_a_lex_error() {
    let mut lexer = Lexer::new(chars("+"));
    let tokens = lexer.tokenize().unwrap();
    assert_eq!(tokens.len(), 2);
    assert_eq!(tokens[0].token_type, Tokentype::Operator);
    assert_eq!(tokens[1].token_type, Tokentype::EoF);
}

#[test]
fn lexer_cursor_methods() {
    let mut lexer = Lexer::new(chars("ab"));
    assert!(!lexer.is_at_end());
    assert_eq!(lexer.at(), Some('a'));
    lexer.advance();
    assert_eq!(lexer.at(), Some('b'));
    lexer.advance();
    assert!(lexer.is_at_end());
    assert_eq!(lexer.at(), None);
}

#[test]
fn parser_builds_left_leaning_chain() {
    let mut lexer = Lexer::new(chars("1-2-3"));
    let tokens = lexer.tokenize().unwrap();
    let mut parser = Parser::new(tokens);
    let ast = parser.parse().unwrap();
    let expected = Expr::BinaryExpr {
        left: Box::new(Expr::BinaryExpr {
            left: Box::new(Expr::Number(1)),
            operator: BinOp::Sub,
            right: Box::new(Expr::Number(2)),
        }),
        operator: BinOp::Sub,
        right: Box::new(Expr::Number(3)),
    };
    assert_eq!(ast, expected);
}

#[test]
fn parser_precedence_shape() {
    let mut lexer = Lexer::new(chars("2+3*4"));
    let tokens = lexer.tokenize().unwrap();
    let mut parser = Parser::new(tokens);
    let ast = parser.parse().unwrap();
    let expected = Expr::BinaryExpr {
        left: Box::new(Expr::Number(2)),
        operator: BinOp::Add,
        right: Box::new(Expr::BinaryExpr {
            left: Box::new(Expr::Number(3)),
            operator: BinOp::Mul,
            right: Box::new(Expr::Number(4)),
        }),
    };
    assert_eq!(ast, expected);
}

#[test]
fn parser_cursor_methods() {
    let mut lexer = Lexer::new(chars("1+2"));
    let tokens = lexer.tokenize().unwrap();
    let mut parser = Parser::new(tokens);
    assert!(parser.not_eof());
    assert_eq!(parser.at().token_type, Tokentype::Number);
    let first = parser.eat();
    assert_eq!(first.value, vec!['1']);
    match parser.expect(Tokentype::Operator) {
        Ok(t) => assert_eq!(t.value, vec!['+']),
        Err(e) => panic!("expected the operator token, got {:?}", e),
    }
    match parser.expect(Tokentype::Operator) {
        Err(ParseError::UnexpectedToken { expected, found, position }) => {
            assert_eq!(expected, Tokentype::Operator);
            assert_eq!(found, Tokentype::Number);
            assert_eq!(position, 2);
        }
        other => panic!("expected an unexpected-token error, got {:?}", other),
    }
    parser.eat();
    assert!(!parser.not_eof());
}

#[test]
fn token_new_keeps_value_and_kind() {
    let t = Token::new(vec!['4', '2'], Tokentype::Number);
    assert_eq!(t.value, vec!['4', '2']);
    assert_eq!(t.token_type, Tokentype::Number);
}

#[test]
fn digits_to_i64_reads_base_ten() {
    assert_eq!(digits_to_i64(&vec!['0']), Some(0));
    assert_eq!(digits_to_i64(&vec!['1', '0', '7']), Some(107));
    assert_eq!(digits_to_i64(&vec![]), None);
    assert_eq!(digits_to_i64(&vec!['1', 'x']), None);
    assert_eq!(
        digits_to_i64(&chars("9223372036854775807")),
        Some(9223372036854775807)
    );
    assert_eq!(digits_to_i64(&chars("9223372036854775808")), None);
}

#[test]
fn calculate_walks_a_hand_built_tree() {
    let tree = Expr::BinaryExpr {
        left: Box::new(Expr::Number(6)),
        operator: BinOp::Div,
        right: Box::new(Expr::BinaryExpr {
            left: Box::new(Expr::Number(5)),
            operator: BinOp::Sub,
            right: Box::new(Expr::Number(2)),
        }),
    };
    let v = calculate(&tree).unwrap();
    assert!(v.eq_int(2));
}

#[test]
fn calculate_binary_expr_combines_rationals() {
    let half = Rat { num: 1, den: 2 };
    let third = Rat { num: 1, den: 3 };
    let sum = calculate_binary_expr(half, third, BinOp::Add).unwrap();
    assert_eq!(sum.num, 5);
    assert_eq!(sum.den, 6);
    let quotient = calculate_binary_expr(half, third, BinOp::Div).unwrap();
    assert_eq!(quotient.num, 3);
    assert_eq!(quotient.den, 2);
    assert_eq!(
        calculate_binary_expr(half, Rat { num: 0, den: 7 }, BinOp::Div),
        Err(EvalError::DivisionByZero)
    );
}

#[test]
fn ast_is_returned_alongside_the_value() {
    let ev = evaluate_expression(chars("4*2")).unwrap();
    assert!(ev.value.eq_int(8));
    let expected = Expr::BinaryExpr {
        left: Box::new(Expr::Number(4)),
        operator: BinOp::Mul,
        right: Box::new(Expr::Number(2)),
    };
    assert_eq!(ev.ast, expected);
}
