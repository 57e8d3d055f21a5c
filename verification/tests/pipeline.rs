use calc::ast::Expr;
use calc::errors::ScanError;
use calc::parser::Parser;
use calc::scanning::scan;
use calc::token::{OperatorType, Token, TokenType};

/// Walk a tree and compute its double-precision value, the way a consumer
/// of the library evaluates: unary minus negates, unary plus is identity,
/// division follows IEEE semantics.
fn eval(expr: &Expr) -> f64 {
    match expr {
        Expr::Literal(lexeme) => lexeme.parse::<f64>().expect("literal lexeme is a number"),
        Expr::Grouping(inner) => eval(inner),
        Expr::Binary { left, operator, right } => {
            let l = eval(left);
            let r = eval(right);
            match operator {
                OperatorType::Add => l + r,
                OperatorType::Subtract => l - r,
                OperatorType::Multiply => l * r,
                OperatorType::Divide => l / r,
            }
        }
        Expr::Unary { operator, right } => {
            let r = eval(right);
            match operator {
                OperatorType::Add => 0.0 + r,
                OperatorType::Subtract => 0.0 - r,
                OperatorType::Multiply | OperatorType::Divide => unreachable!(),
            }
        }
    }
}

/// Scan, parse and evaluate one input; `None` when either stage fails.
fn run(source: &str) -> Option<f64> {
    let tokens = scan(source.to_string()).ok()?;
    let mut parser = Parser::new(tokens);
    let expr = parser.parse()?;
    Some(eval(&expr))
}

fn parse_tree(source: &str) -> Option<Expr> {
    let tokens = scan(source.to_string()).ok()?;
    let mut parser = Parser::new(tokens);
    parser.parse()
}

#[test]
fn scan_number_token_round_trips() {
    let tokens = scan("12.5".to_string()).unwrap();
    assert_eq!(tokens.len(), 2);
    assert_eq!(tokens[0].kind, TokenType::Operand);
    assert_eq!(tokens[0].lexeme, "12.5");
    assert_eq!(tokens[0].position, 0);
    assert_eq!(tokens[1].kind, TokenType::Eof);
    assert_eq!(tokens[1].position, 4);
    assert_eq!(tokens[0].lexeme.parse::<f64>().unwrap(), 12.5);
}

#[test]
fn scan_integer_token_round_trips() {
    let tokens = scan("007".to_string()).unwrap();
    assert_eq!(tokens.len(), 2);
    assert_eq!(tokens[0].kind, TokenType::Operand);
    assert_eq!(tokens[0].lexeme, "007");
    assert_eq!(tokens[0].lexeme.parse::<f64>().unwrap(), 7.0);
}

#[test]
fn scan_reports_unexpected_char_at_offset() {
    assert_eq!(
        scan("1+a".to_string()).unwrap_err(),
        ScanError::UnexpectedChar('a', 2)
    );
    assert_eq!(
        scan("@".to_string()).unwrap_err(),
        ScanError::UnexpectedChar('@', 0)
    );
    assert_eq!(
        scan("12 # 3".to_string()).unwrap_err(),
        ScanError::UnexpectedChar('#', 3)
    );
}

#[test]
fn scan_rejects_stray_decimal_point() {
    assert_eq!(
        scan(".".to_string()).unwrap_err(),
        ScanError::UnexpectedChar('.', 0)
    );
    // the point after "1" is not followed by a digit, so it is not part of
    // the number and fails at its own offset
    assert_eq!(
        scan("1.".to_string()).unwrap_err(),
        ScanError::UnexpectedChar('.', 1)
    );
    assert_eq!(
        scan("1.x".to_string()).unwrap_err(),
        ScanError::UnexpectedChar('.', 1)
    );
}

#[test]
fn scan_consumes_at_most_one_decimal_point() {
    // "1.2" is one number; the second point cannot join it and fails
    assert_eq!(
        scan("1.2.3".to_string()).unwrap_err(),
        ScanError::UnexpectedChar('.', 3)
    );
    let tokens = scan("1.2".to_string()).unwrap();
    assert_eq!(tokens[0].lexeme, "1.2");
}

#[test]
fn scan_tokenizes_symbols() {
    let tokens = scan("(1+2)*3/4-5".to_string()).unwrap();
    let kinds: Vec<TokenType> = tokens.iter().map(|t| t.kind).collect();
    assert_eq!(
        kinds,
        vec![
            TokenType::LeftParen,
            TokenType::Operand,
            TokenType::Operator(OperatorType::Add),
            TokenType::Operand,
            TokenType::RightParen,
            TokenType::Operator(OperatorType::Multiply),
            TokenType::Operand,
            TokenType::Operator(OperatorType::Divide),
            TokenType::Operand,
            TokenType::Operator(OperatorType::Subtract),
            TokenType::Operand,
            TokenType::Eof,
        ]
    );
    assert_eq!(tokens[0].position, 0);
    assert_eq!(tokens[5].position, 5);
    assert_eq!(tokens[11].position, 11);
}

#[test]
fn subtraction_is_left_associative() {
    assert_eq!(run("8-4-2").unwrap(), 2.0);
    assert_eq!(run("16/4/2").unwrap(), 2.0);
}

#[test]
fn left_associative_tree_shape() {
    let tree = parse_tree("8-4-2").unwrap();
    match tree {
        Expr::Binary { left, operator, right } => {
            assert_eq!(operator, OperatorType::Subtract);
            assert!(matches!(*left, Expr::Binary { .. }));
            assert!(matches!(*right, Expr::Literal(_)));
        }
        other => panic!("expected a binary root, got {:?}", other),
    }
}

#[test]
fn multiplication_binds_tighter_than_addition() {
    assert_eq!(run("2+3*4").unwrap(), 14.0);
    assert_eq!(run("(2+3)*4").unwrap(), 20.0);
}

#[test]
fn unary_binds_tighter_than_binary() {
    assert_eq!(run("-3+4").unwrap(), 1.0);
    assert_eq!(run("-3*4").unwrap(), -12.0);
}

#[test]
fn unary_operators_chain() {
    assert_eq!(run("--3").unwrap(), 3.0);
    assert_eq!(run("+-+3").unwrap(), -3.0);
}

#[test]
fn unmatched_parenthesis_fails() {
    assert!(parse_tree("(1+2").is_none());
    assert!(parse_tree("1+2)").is_none());
}

#[test]
fn division_by_zero_follows_ieee() {
    assert_eq!(run("1/0").unwrap(), f64::INFINITY);
    assert!(run("0/0").unwrap().is_nan());
}

#[test]
fn whitespace_is_insignificant() {
    assert_eq!(run("  1   +   2 ").unwrap(), 3.0);
    assert_eq!(run("1+2").unwrap(), 3.0);
    assert_eq!(run("\t7 *\n( 2 - 1 )\r").unwrap(), 7.0);
}

#[test]
fn empty_or_blank_input_fails_to_parse() {
    assert!(parse_tree("").is_none());
    assert!(parse_tree("   ").is_none());
    let tokens = scan("   ".to_string()).unwrap();
    assert_eq!(tokens.len(), 1);
    assert_eq!(tokens[0].kind, TokenType::Eof);
}

#[test]
fn pipeline_is_deterministic() {
    let first = parse_tree("1+2*(3-4)").unwrap();
    let second = parse_tree("1+2*(3-4)").unwrap();
    assert_eq!(format!("{:?}", first), format!("{:?}", second));
    assert_eq!(eval(&first), eval(&second));
    assert_eq!(eval(&first), -1.0);
}

#[test]
fn trailing_operator_fails() {
    assert!(parse_tree("1+").is_none());
    assert!(parse_tree("*1").is_none());
}

#[test]
fn token_accessors() {
    let t = Token::new(TokenType::Operator(OperatorType::Add), "+".to_string(), 3);
    assert_eq!(t.kind, TokenType::Operator(OperatorType::Add));
    assert_eq!(t.lexeme, "+");
    assert_eq!(t.position, 3);
    assert_eq!(t.operator_type(), Some(OperatorType::Add));
    let n = Token::new(TokenType::Operand, "5".to_string(), 0);
    assert_eq!(n.operator_type(), None);
}

#[test]
fn literal_lexeme_outside_number_grammar_fails_to_parse() {
    // a hand-built operand token whose lexeme is no plain number is a
    // conversion failure, which the parser reports as a parse failure
    let tokens = vec![
        Token::new(TokenType::Operand, "1e5".to_string(), 0),
        Token::new(TokenType::Eof, String::new(), 3),
    ];
    let mut parser = Parser::new(tokens);
    assert!(parser.parse().is_none());
}

#[test]
fn grouping_is_value_transparent() {
    assert_eq!(run("((7))").unwrap(), 7.0);
    let tree = parse_tree("(7)").unwrap();
    assert!(matches!(tree, Expr::Grouping(_)));
}
