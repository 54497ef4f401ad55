use arith_ast::ast::evaluator::EvaluationError;
use arith_ast::ast::evaluator::Evaluator;
use arith_ast::ast::lexer::Lexer;
use arith_ast::ast::lexer::TextSpan;
use arith_ast::ast::lexer::Token;
use arith_ast::ast::lexer::TokenKind;
use arith_ast::ast::parser::Parser;
use arith_ast::ast::ASTBinaryOperator;
use arith_ast::ast::ASTBinaryOperatorKind;
use arith_ast::ast::ASTExpression;
use arith_ast::ast::ASTStatement;
use arith_ast::ast::AST;

fn evaluate(input: &str) -> (Option<i64>, Option<EvaluationError>) {
    let mut parser = Parser::from_input(input);
    let mut ast = AST::new();
    loop {
        match parser.next_statement() {
            Ok(Some(statement)) => ast.add_statement(statement),
            Ok(None) => break,
            Err(e) => panic!("unexpected parse failure: {:?}", e),
        }
    }
    let mut eval = Evaluator::new();
    ast.visit(&mut eval);
    (eval.last_value, eval.error)
}

#[test]
fn multiplication_binds_tighter_than_addition() {
    assert_eq!(evaluate("2 + 3 * 4"), (Some(14), None));
}

#[test]
fn multiplication_first_on_the_left_too() {
    assert_eq!(evaluate("2 * 3 + 4"), (Some(10), None));
}

#[test]
fn subtraction_is_left_associative() {
    assert_eq!(evaluate("10 - 2 - 3"), (Some(5), None));
}

#[test]
fn division_is_left_associative() {
    assert_eq!(evaluate("100 / 10 / 5"), (Some(2), None));
}

#[test]
fn parentheses_override_precedence() {
    assert_eq!(evaluate("(2 + 3) * 4"), (Some(20), None));
}

#[test]
fn nested_parentheses_evaluate_inside_out() {
    assert_eq!(evaluate("7 + 3 * (10 / (12 / (3 + 1) - 1))"), (Some(22), None));
}

#[test]
fn division_truncates_toward_zero() {
    assert_eq!(evaluate("7 / 2"), (Some(3), None));
}

#[test]
fn division_by_zero_is_an_evaluation_failure() {
    let (value, error) = evaluate("1 / 0");
    assert_eq!(error, Some(EvaluationError::DivisionByZero));
    assert_eq!(value, None);
}

#[test]
fn addition_overflow_is_an_evaluation_failure() {
    let (value, error) = evaluate("9223372036854775807 + 1");
    assert_eq!(error, Some(EvaluationError::Overflow));
    assert_eq!(value, None);
}

#[test]
fn division_overflow_is_an_evaluation_failure() {
    let (value, error) = evaluate("(0 - 9223372036854775807 - 1) / (0 - 1)");
    assert_eq!(error, Some(EvaluationError::Overflow));
    assert_eq!(value, None);
}

#[test]
fn large_negative_value_evaluates() {
    assert_eq!(evaluate("0 - 9223372036854775807 - 1"), (Some(i64::MIN), None));
}

#[test]
fn missing_operand_is_a_parse_failure() {
    let mut parser = Parser::from_input("1 +");
    assert!(parser.next_statement().is_err());
    assert!(parser.next_statement().is_err());
}

#[test]
fn unmatched_parenthesis_is_a_parse_failure() {
    let mut parser = Parser::from_input("(1 + 2");
    assert!(parser.next_statement().is_err());
    assert!(parser.next_statement().is_err());
}

#[test]
fn trailing_tokens_are_a_parse_failure() {
    let mut parser = Parser::from_input("1 2");
    assert!(parser.next_statement().is_err());
}

#[test]
fn unknown_character_is_a_parse_failure() {
    let mut parser = Parser::from_input("1 ? 2");
    assert!(parser.next_statement().is_err());
}

#[test]
fn unary_minus_is_not_supported() {
    let mut parser = Parser::from_input("-5");
    assert!(parser.next_statement().is_err());
}

#[test]
fn empty_input_yields_no_statement() {
    let mut parser = Parser::from_input("");
    assert!(matches!(parser.next_statement(), Ok(None)));
}

#[test]
fn whitespace_only_input_yields_no_statement() {
    let mut parser = Parser::from_input("   ");
    assert!(matches!(parser.next_statement(), Ok(None)));
}

#[test]
fn fresh_parser_has_no_statements() {
    let mut parser = Parser::new();
    assert!(matches!(parser.next_statement(), Ok(None)));
}

#[test]
fn parser_from_pre_lexed_tokens() {
    let input = "6 / 2";
    let mut lexer = Lexer::new(input);
    let mut tokens = Vec::new();
    while let Some(token) = lexer.next_token() {
        tokens.push(token);
    }
    let mut parser = Parser::from_tokens(tokens);
    let mut ast = AST::new();
    while let Ok(Some(statement)) = parser.next_statement() {
        ast.add_statement(statement);
    }
    let mut eval = Evaluator::new();
    ast.visit(&mut eval);
    assert_eq!(eval.last_value, Some(3));
}

#[test]
fn parser_from_hand_built_tokens() {
    let tokens = vec![
        Token::new(TokenKind::Number(8), TextSpan::new(0, 1, String::from("8"))),
        Token::new(TokenKind::Minus, TextSpan::new(1, 2, String::from("-"))),
        Token::new(TokenKind::Number(5), TextSpan::new(2, 3, String::from("5"))),
        Token::new(TokenKind::EOF, TextSpan::new(3, 3, String::new())),
    ];
    let mut parser = Parser::from_tokens(tokens);
    let statement = parser.next_statement().unwrap().unwrap();
    let mut eval = Evaluator::new();
    let mut ast = AST::new();
    ast.add_statement(statement);
    ast.visit(&mut eval);
    assert_eq!(eval.last_value, Some(3));
    assert_eq!(eval.error, None);
}

#[test]
fn form_feed_separates_tokens() {
    assert_eq!(evaluate("1\u{000C}+2"), (Some(3), None));
}

#[test]
fn no_break_space_separates_tokens() {
    assert_eq!(evaluate("1\u{00A0}+\u{00A0}2"), (Some(3), None));
}

#[test]
fn single_number_evaluates_to_itself() {
    assert_eq!(evaluate("42"), (Some(42), None));
}

#[test]
fn a_failed_evaluator_stays_failed() {
    let mut ast = AST::new();
    let division = ASTExpression::binary(
        ASTBinaryOperator::new(
            ASTBinaryOperatorKind::Divide,
            Token::new(TokenKind::Slash, TextSpan::new(1, 2, String::from("/"))),
        ),
        ASTExpression::number(1),
        ASTExpression::number(0),
    );
    ast.add_statement(ASTStatement::expression(division));
    ast.add_statement(ASTStatement::expression(ASTExpression::number(5)));
    let mut eval = Evaluator::new();
    ast.visit(&mut eval);
    assert_eq!(eval.error, Some(EvaluationError::DivisionByZero));
    assert_eq!(eval.last_value, None);
}

#[test]
fn operator_precedence_values() {
    let span = || TextSpan::new(0, 1, String::from("+"));
    let add = ASTBinaryOperator::new(ASTBinaryOperatorKind::Add, Token::new(TokenKind::Plus, span()));
    let sub = ASTBinaryOperator::new(
        ASTBinaryOperatorKind::Subtract,
        Token::new(TokenKind::Minus, span()),
    );
    let mul = ASTBinaryOperator::new(
        ASTBinaryOperatorKind::Multiply,
        Token::new(TokenKind::Asterisk, span()),
    );
    let div = ASTBinaryOperator::new(
        ASTBinaryOperatorKind::Divide,
        Token::new(TokenKind::Slash, span()),
    );
    assert_eq!(add.precedence(), 1);
    assert_eq!(sub.precedence(), 1);
    assert_eq!(mul.precedence(), 2);
    assert_eq!(div.precedence(), 2);
}
