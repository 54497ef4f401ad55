//! The evaluator: a visitor that reduces an expression tree to a single
//! signed 64-bit integer, reporting division by zero and arithmetic
//! overflow as evaluation failures instead of producing a value.

use crate::ast::ASTBinaryExpression;
use crate::ast::ASTBinaryOperatorKind;
use crate::ast::ASTExpression;
use crate::ast::ASTExpressionKind;
use crate::ast::ASTNumberExpression;
use crate::ast::ASTParenthesizedExpression;
use crate::ast::ASTStatement;
use crate::ast::ASTStatementKind;
use crate::ast::ASTVisitor;
use crate::ast::ExprView;
use crate::ast::StmtView;
use vstd::prelude::*;

verus! {

/// The ways an evaluation can fail fatally.
#[derive(Debug, Clone, Copy, PartialEq, Eq, Structural)]
pub enum EvaluationError {
    DivisionByZero,
    Overflow,
}

/// Truncating integer division (rounding toward zero), as the machine
/// divides signed integers.
pub open spec fn div_trunc(x: int, d: int) -> int
    recommends
        d != 0,
{
    if x == 0 {
        0
    } else if x > 0 && d > 0 {
        x / d
    } else if x < 0 && d < 0 {
        (x * -1) / (d * -1)
    } else if x < 0 {
        ((x * -1) / d) * -1
    } else {
        (x / (d * -1)) * -1
    }
}

/// The value of one binary operator applied to two evaluated operands:
/// a result outside the signed 64-bit range is an `Overflow` failure,
/// and a zero divisor is a `DivisionByZero` failure.
pub open spec fn eval_binop(op: ASTBinaryOperatorKind, l: i64, r: i64) -> Result<
    i64,
    EvaluationError,
> {
    match op {
        ASTBinaryOperatorKind::Add => if l + r > i64::MAX || l + r < i64::MIN {
            Err(EvaluationError::Overflow)
        } else {
            Ok((l + r) as i64)
        },
        ASTBinaryOperatorKind::Subtract => if l - r > i64::MAX || l - r < i64::MIN {
            Err(EvaluationError::Overflow)
        } else {
            Ok((l - r) as i64)
        },
        ASTBinaryOperatorKind::Multiply => if l * r > i64::MAX || l * r < i64::MIN {
            Err(EvaluationError::Overflow)
        } else {
            Ok((l * r) as i64)
        },
        ASTBinaryOperatorKind::Divide => if r == 0 {
            Err(EvaluationError::DivisionByZero)
        } else {
            let q = div_trunc(l as int, r as int);
            if q > i64::MAX || q < i64::MIN {
                Err(EvaluationError::Overflow)
            } else {
                Ok(q as i64)
            }
        },
    }
}

/// The value of an expression: a number is itself, parentheses are
/// transparent, and a binary node evaluates its left operand fully, then
/// its right operand, then applies the operator; the first failure is
/// the expression's result.
pub open spec fn eval_expr(e: ExprView) -> Result<i64, EvaluationError>
    decreases e,
{
    match e {
        ExprView::Number(n) => Ok(n),
        ExprView::Parenthesized(inner) => eval_expr(*inner),
        ExprView::Binary(op, left, right) => match eval_expr(*left) {
            Err(er) => Err(er),
            Ok(lv) => match eval_expr(*right) {
                Err(er) => Err(er),
                Ok(rv) => eval_binop(op, lv, rv),
            },
        },
    }
}

/// The value of a statement: the value of its expression.
pub open spec fn eval_stmt(s: StmtView) -> Result<i64, EvaluationError> {
    match s {
        StmtView::Expression(e) => eval_expr(e),
    }
}

/// A visitor that evaluates the trees it is shown: after a visit,
/// `last_value` holds the value of the last sub-tree evaluated, or
/// `error` the failure that stopped it. A failed evaluator stays failed
/// and never overwrites its error with a later value.
pub struct Evaluator {
    pub last_value: Option<i64>,
    pub error: Option<EvaluationError>,
}

/// What one visit of a tree valued `r` does to the evaluator: a failed
/// evaluator is left unchanged; otherwise a value replaces `last_value`
/// and a failure moves the evaluator into its error state.
pub open spec fn eval_visit_post(
    pre: Evaluator,
    post: Evaluator,
    r: Result<i64, EvaluationError>,
) -> bool {
    if pre.error is Some {
        post == pre
    } else {
        match r {
            Ok(v) => post.last_value == Some(v) && post.error is None,
            Err(er) => post.last_value is None && post.error == Some(er),
        }
    }
}

impl Evaluator {
    pub fn new() -> (r: Self)
        ensures
            r.last_value is None,
            r.error is None,
    {
        Self { last_value: None, error: None }
    }

    fn eval_statement(&mut self, statement: &ASTStatement)
        ensures
            eval_visit_post(*old(self), *final(self), eval_stmt(statement@)),
        decreases *statement,
    {
        match &statement.kind {
            ASTStatementKind::Expression(expr) => {
                self.eval_expression(expr);
            },
        }
    }

    fn eval_expression(&mut self, expr: &ASTExpression)
        ensures
            eval_visit_post(*old(self), *final(self), eval_expr(expr@)),
        decreases *expr,
    {
        match &expr.kind {
            ASTExpressionKind::Number(number) => {
                self.eval_number(number);
            },
            ASTExpressionKind::Binary(binary) => {
                self.eval_binary_expression(binary);
            },
            ASTExpressionKind::Parenthesized(paren) => {
                self.eval_parenthesized_expression(paren);
            },
        }
    }

    fn eval_number(&mut self, number: &ASTNumberExpression)
        ensures
            eval_visit_post(*old(self), *final(self), Ok(number.number)),
    {
        if self.error.is_none() {
            self.last_value = Some(number.number);
        }
    }

    fn eval_binary_expression(&mut self, expr: &ASTBinaryExpression)
        ensures
            eval_visit_post(
                *old(self),
                *final(self),
                eval_expr(
                    ExprView::Binary(
                        expr.operator.kind,
                        Box::new(expr.left@),
                        Box::new(expr.right@),
                    ),
                ),
            ),
        decreases *expr,
    {
        if self.error.is_some() {
            return ;
        }
        self.eval_expression(&expr.left);
        if self.error.is_some() {
            return ;
        }
        let left: i64 = self.last_value.unwrap();
        self.eval_expression(&expr.right);
        if self.error.is_some() {
            return ;
        }
        let right: i64 = self.last_value.unwrap();
        let outcome: Option<i64> = match expr.operator.kind {
            ASTBinaryOperatorKind::Add => left.checked_add(right),
            ASTBinaryOperatorKind::Subtract => left.checked_sub(right),
            ASTBinaryOperatorKind::Multiply => left.checked_mul(right),
            ASTBinaryOperatorKind::Divide => {
                if right == 0 {
                    self.last_value = None;
                    self.error = Some(EvaluationError::DivisionByZero);
                    return ;
                }
                left.checked_div(right)
            },
        };
        match outcome {
            Some(v) => {
                self.last_value = Some(v);
            },
            None => {
                self.last_value = None;
                self.error = Some(EvaluationError::Overflow);
            },
        }
    }

    fn eval_parenthesized_expression(&mut self, expr: &ASTParenthesizedExpression)
        ensures
            eval_visit_post(
                *old(self),
                *final(self),
                eval_expr(ExprView::Parenthesized(Box::new(expr.expression@))),
            ),
        decreases *expr,
    {
        self.eval_expression(&expr.expression);
    }
}

impl ASTVisitor for Evaluator {
    /// One visited statement moves the evaluator by the statement's
    /// value, per `eval_visit_post`.
    open spec fn stmt_post(pre: Self, post: Self, s: StmtView) -> bool {
        eval_visit_post(pre, post, eval_stmt(s))
    }

    open spec fn expr_post(pre: Self, post: Self, e: ExprView) -> bool {
        eval_visit_post(pre, post, eval_expr(e))
    }

    open spec fn number_post(pre: Self, post: Self, n: i64) -> bool {
        eval_visit_post(pre, post, Ok(n))
    }

    open spec fn binary_post(pre: Self, post: Self, e: ExprView) -> bool {
        eval_visit_post(pre, post, eval_expr(e))
    }

    open spec fn paren_post(pre: Self, post: Self, e: ExprView) -> bool {
        eval_visit_post(pre, post, eval_expr(e))
    }

    fn visit_number(&mut self, number: &ASTNumberExpression) {
        self.eval_number(number);
    }

    fn visit_statement(&mut self, statement: &ASTStatement) {
        self.eval_statement(statement);
    }

    fn visit_expression(&mut self, expr: &ASTExpression) {
        self.eval_expression(expr);
    }

    fn visit_binary_expression(&mut self, expr: &ASTBinaryExpression) {
        self.eval_binary_expression(expr);
    }

    fn visit_parenthesized_expression(&mut self, expr: &ASTParenthesizedExpression) {
        self.eval_parenthesized_expression(expr);
    }
}

/// The evaluator state after accounting one outcome: a failed evaluator
/// is unchanged; a value replaces `last_value`; a failure moves the
/// evaluator into its error state.
pub open spec fn eval_state_after(pre: Evaluator, r: Result<i64, EvaluationError>) -> Evaluator {
    if pre.error is Some {
        pre
    } else {
        match r {
            Ok(v) => Evaluator { last_value: Some(v), error: None },
            Err(er) => Evaluator { last_value: None, error: Some(er) },
        }
    }
}

/// The evaluator state after walking a whole statement sequence in
/// order, starting from `pre`: each statement's value folded in turn,
/// the first failure sticking.
pub open spec fn eval_fold(pre: Evaluator, stmts: Seq<StmtView>) -> Evaluator
    decreases stmts.len(),
{
    if stmts.len() == 0 {
        pre
    } else {
        eval_fold(eval_state_after(pre, eval_stmt(stmts[0])), stmts.drop_first())
    }
}

/// End-to-end evaluation: what `AST::visit` guarantees of an `Evaluator`
/// determines its final state exactly — the fold of the statements'
/// values over the starting state. In particular, after a clean
/// evaluator walks a tree, `last_value` holds the value of the last
/// statement, or `error` the first failure, with no partial value.
pub proof fn lemma_visit_evaluates(pre: Evaluator, post: Evaluator, stmts: Seq<StmtView>)
    requires
        crate::ast::visits_all::<Evaluator>(pre, post, stmts),
    ensures
        post == eval_fold(pre, stmts),
    decreases stmts.len(),
{
    if stmts.len() > 0 {
        let mid = choose|m: Evaluator|
            #[trigger] <Evaluator as ASTVisitor>::stmt_post(pre, m, stmts[0])
                && crate::ast::visits_all::<Evaluator>(m, post, stmts.drop_first());
        assert(mid == eval_state_after(pre, eval_stmt(stmts[0])));
        lemma_visit_evaluates(mid, post, stmts.drop_first());
    }
}

} // verus!
