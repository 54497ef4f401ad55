use arith_ast::ast::do_visit_binary_expression;
use arith_ast::ast::do_visit_expression;
use arith_ast::ast::do_visit_parenthesized_expression;
use arith_ast::ast::do_visit_statement;
use arith_ast::ast::parser::Parser;
use arith_ast::ast::ASTBinaryExpression;
use arith_ast::ast::ASTExpression;
use arith_ast::ast::ASTNumberExpression;
use arith_ast::ast::ASTParenthesizedExpression;
use arith_ast::ast::ASTStatement;
use arith_ast::ast::ASTVisitor;
use arith_ast::ast::AST;

fn parse_to_ast(input: &str) -> AST {
    let mut parser = Parser::from_input(input);
    let mut ast = AST::new();
    loop {
        match parser.next_statement() {
            Ok(Some(statement)) => ast.add_statement(statement),
            Ok(None) => break,
            Err(e) => panic!("unexpected parse failure: {:?}", e),
        }
    }
    ast
}

#[test]
fn printing_a_number_statement() {
    let ast = parse_to_ast("42");
    let expected = "Statement: \n  Expression: \n    Number: 42\n";
    assert_eq!(ast.visualize(), expected);
}

#[test]
fn printing_a_binary_statement() {
    let ast = parse_to_ast("1 + 2");
    let expected = "Statement: \n  Expression: \n    Binary Expression: \n      Operator: Add\n      Expression: \n        Number: 1\n      Expression: \n        Number: 2\n";
    assert_eq!(ast.visualize(), expected);
}

#[test]
fn printing_a_parenthesized_statement() {
    let ast = parse_to_ast("(7)");
    let expected = "Statement: \n  Expression: \n    Parenthesized Expression: \n      Expression: \n        Number: 7\n";
    assert_eq!(ast.visualize(), expected);
}

#[test]
fn printing_a_negative_number() {
    let mut ast = AST::new();
    ast.add_statement(ASTStatement::expression(ASTExpression::number(-5)));
    let expected = "Statement: \n  Expression: \n    Number: -5\n";
    assert_eq!(ast.visualize(), expected);
}

#[test]
fn printing_twice_is_identical() {
    let ast = parse_to_ast("7 + 3 * (10 / (12 / (3 + 1) - 1))");
    let first = ast.visualize();
    let second = ast.visualize();
    assert_eq!(first, second);
}

#[test]
fn printing_an_empty_tree_is_empty() {
    let ast = AST::new();
    assert_eq!(ast.visualize(), "");
}

struct NumberCollector {
    numbers: Vec<i64>,
}

// Outside `verus!` the visitor's ghost postcondition hooks are plain
// trait items; an unverified visitor gives them the trivial predicate.
impl ASTVisitor for NumberCollector {
    fn stmt_post(_: Self, _: Self, _: arith_ast::ast::StmtView) -> bool {
        true
    }

    fn expr_post(_: Self, _: Self, _: arith_ast::ast::ExprView) -> bool {
        true
    }

    fn number_post(_: Self, _: Self, _: i64) -> bool {
        true
    }

    fn binary_post(_: Self, _: Self, _: arith_ast::ast::ExprView) -> bool {
        true
    }

    fn paren_post(_: Self, _: Self, _: arith_ast::ast::ExprView) -> bool {
        true
    }

    fn visit_number(&mut self, number: &ASTNumberExpression) {
        self.numbers.push(number.number);
    }

    fn visit_statement(&mut self, statement: &ASTStatement) {
        do_visit_statement(self, statement);
    }

    fn visit_expression(&mut self, expr: &ASTExpression) {
        do_visit_expression(self, expr);
    }

    fn visit_binary_expression(&mut self, expr: &ASTBinaryExpression) {
        do_visit_binary_expression(self, expr);
    }

    fn visit_parenthesized_expression(&mut self, expr: &ASTParenthesizedExpression) {
        do_visit_parenthesized_expression(self, expr);
    }
}

#[test]
fn default_traversal_visits_numbers_left_to_right() {
    let ast = parse_to_ast("1 + 2 * (3 - 4)");
    let mut collector = NumberCollector { numbers: Vec::new() };
    ast.visit(&mut collector);
    assert_eq!(collector.numbers, vec![1, 2, 3, 4]);
}
