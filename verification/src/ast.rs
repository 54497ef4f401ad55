//! The abstract syntax tree: statements, expressions, binary operators,
//! and the visitor abstraction that external behaviour (printing,
//! evaluation) uses to walk a tree without the tree depending on it.

pub mod evaluator;
pub mod lexer;
pub mod parser;

use crate::ast::lexer::Token;
use vstd::prelude::*;

verus! {

/// Mathematical image of an expression tree: the operator structure and
/// the number values, without the diagnostic tokens.
pub enum ExprView {
    Number(i64),
    Binary(ASTBinaryOperatorKind, Box<ExprView>, Box<ExprView>),
    Parenthesized(Box<ExprView>),
}

/// Mathematical image of a statement.
pub enum StmtView {
    Expression(ExprView),
}

/// The four binary operators of the language.
#[derive(Debug, Clone, Copy, PartialEq, Eq, Structural)]
pub enum ASTBinaryOperatorKind {
    Add,
    Subtract,
    Multiply,
    Divide,
}

/// A binary operator together with the token it was read from.
pub struct ASTBinaryOperator {
    pub kind: ASTBinaryOperatorKind,
    pub token: Token,
}

impl ASTBinaryOperator {
    pub fn new(kind: ASTBinaryOperatorKind, token: Token) -> (r: Self)
        ensures
            r.kind == kind,
            r.token == token,
    {
        Self { kind, token }
    }

    /// The binding strength of the operator: multiplicative operators
    /// bind tighter than additive ones.
    pub fn precedence(&self) -> (r: u8)
        ensures
            r == precedence_of(self.kind),
    {
        match self.kind {
            ASTBinaryOperatorKind::Add => 1,
            ASTBinaryOperatorKind::Subtract => 1,
            ASTBinaryOperatorKind::Multiply => 2,
            ASTBinaryOperatorKind::Divide => 2,
        }
    }
}

/// The binding strength of each operator: `Add` and `Subtract` bind at
/// level 1, `Multiply` and `Divide` at level 2 (higher binds tighter).
pub open spec fn precedence_of(kind: ASTBinaryOperatorKind) -> u8 {
    match kind {
        ASTBinaryOperatorKind::Add => 1u8,
        ASTBinaryOperatorKind::Subtract => 1u8,
        ASTBinaryOperatorKind::Multiply => 2u8,
        ASTBinaryOperatorKind::Divide => 2u8,
    }
}

/// A binary expression: an operator applied to two owned sub-expressions.
pub struct ASTBinaryExpression {
    pub left: Box<ASTExpression>,
    pub operator: ASTBinaryOperator,
    pub right: Box<ASTExpression>,
}

/// A number literal expression.
pub struct ASTNumberExpression {
    pub number: i64,
}

/// A parenthesized expression owning its inner expression.
pub struct ASTParenthesizedExpression {
    pub expression: Box<ASTExpression>,
}

/// The tagged variants an expression can take.
pub enum ASTExpressionKind {
    Number(ASTNumberExpression),
    Binary(ASTBinaryExpression),
    Parenthesized(ASTParenthesizedExpression),
}

/// An expression node of the tree.
pub struct ASTExpression {
    pub kind: ASTExpressionKind,
}

/// The tagged variants a statement can take; an open set so that future
/// statement kinds can be added.
pub enum ASTStatementKind {
    Expression(ASTExpression),
}

/// A statement node of the tree.
pub struct ASTStatement {
    pub kind: ASTStatementKind,
}

/// The mathematical image of an expression node.
pub open spec fn expr_view(e: ASTExpression) -> ExprView
    decreases e,
{
    match e.kind {
        ASTExpressionKind::Number(n) => ExprView::Number(n.number),
        ASTExpressionKind::Binary(b) => ExprView::Binary(
            b.operator.kind,
            Box::new(expr_view(*b.left)),
            Box::new(expr_view(*b.right)),
        ),
        ASTExpressionKind::Parenthesized(p) => ExprView::Parenthesized(
            Box::new(expr_view(*p.expression)),
        ),
    }
}

/// The mathematical image of a statement node.
pub open spec fn stmt_view(s: ASTStatement) -> StmtView {
    match s.kind {
        ASTStatementKind::Expression(e) => StmtView::Expression(expr_view(e)),
    }
}

impl View for ASTExpression {
    type V = ExprView;

    open spec fn view(&self) -> ExprView {
        expr_view(*self)
    }
}

impl View for ASTStatement {
    type V = StmtView;

    open spec fn view(&self) -> StmtView {
        stmt_view(*self)
    }
}

impl ASTExpression {
    pub fn new(kind: ASTExpressionKind) -> (r: Self)
        ensures
            r.kind == kind,
    {
        ASTExpression { kind }
    }

    /// A number literal expression.
    pub fn number(number: i64) -> (r: Self)
        ensures
            r@ == ExprView::Number(number),
    {
        ASTExpression::new(ASTExpressionKind::Number(ASTNumberExpression { number }))
    }

    /// A binary expression owning its two children.
    pub fn binary(operator: ASTBinaryOperator, left: ASTExpression, right: ASTExpression) -> (r:
        Self)
        ensures
            r@ == ExprView::Binary(operator.kind, Box::new(left@), Box::new(right@)),
    {
        ASTExpression::new(
            ASTExpressionKind::Binary(
                ASTBinaryExpression { left: Box::new(left), operator, right: Box::new(right) },
            ),
        )
    }

    /// A parenthesized expression owning its inner expression.
    pub fn parenthesized(expression: ASTExpression) -> (r: Self)
        ensures
            r@ == ExprView::Parenthesized(Box::new(expression@)),
    {
        ASTExpression::new(
            ASTExpressionKind::Parenthesized(
                ASTParenthesizedExpression { expression: Box::new(expression) },
            ),
        )
    }
}

/// The visitor capability set: a concrete visitor supplies the terminal
/// `visit_number` case and, per traversal method, either delegates to the
/// shared structural recursion (the `do_visit` functions below: statement
/// to its expression; binary to its children, left before right;
/// parenthesized to its inner expression) or adds behaviour around it.
pub trait ASTVisitor: Sized {
    /// What this visitor guarantees of one visit of a statement.
    spec fn stmt_post(pre: Self, post: Self, s: StmtView) -> bool;

    /// What this visitor guarantees of one visit of an expression node
    /// (header and variant together).
    spec fn expr_post(pre: Self, post: Self, e: ExprView) -> bool;

    /// What this visitor guarantees of one visit of a number variant.
    spec fn number_post(pre: Self, post: Self, n: i64) -> bool;

    /// What this visitor guarantees of one visit of a binary variant.
    spec fn binary_post(pre: Self, post: Self, e: ExprView) -> bool;

    /// What this visitor guarantees of one visit of a parenthesized
    /// variant.
    spec fn paren_post(pre: Self, post: Self, e: ExprView) -> bool;

    fn visit_number(&mut self, number: &ASTNumberExpression)
        ensures
            Self::number_post(*old(self), *final(self), number.number),
    ;

    fn visit_statement(&mut self, statement: &ASTStatement)
        ensures
            Self::stmt_post(*old(self), *final(self), statement@),
    ;

    fn visit_expression(&mut self, expr: &ASTExpression)
        ensures
            Self::expr_post(*old(self), *final(self), expr@),
    ;

    fn visit_binary_expression(&mut self, expr: &ASTBinaryExpression)
        ensures
            Self::binary_post(
                *old(self),
                *final(self),
                ExprView::Binary(expr.operator.kind, Box::new(expr.left@), Box::new(expr.right@)),
            ),
    ;

    fn visit_parenthesized_expression(&mut self, expr: &ASTParenthesizedExpression)
        ensures
            Self::paren_post(
                *old(self),
                *final(self),
                ExprView::Parenthesized(Box::new(expr.expression@)),
            ),
    ;
}

/// A full walk meeting the visitor's per-statement guarantee at every
/// step: the walk reaches `post` from `pre` through some chain of
/// intermediate states, one per statement, in order.
pub open spec fn visits_all<V: ASTVisitor>(pre: V, post: V, stmts: Seq<StmtView>) -> bool
    decreases stmts.len(),
{
    if stmts.len() == 0 {
        post == pre
    } else {
        exists|mid: V|
            #[trigger] V::stmt_post(pre, mid, stmts[0]) && visits_all(
                mid,
                post,
                stmts.drop_first(),
            )
    }
}

/// Extending a walk by one statement extends the chain by one step.
proof fn lemma_visits_all_snoc<V: ASTVisitor>(
    pre: V,
    mid: V,
    post: V,
    stmts: Seq<StmtView>,
    s: StmtView,
)
    requires
        visits_all(pre, mid, stmts),
        V::stmt_post(mid, post, s),
    ensures
        visits_all(pre, post, stmts.push(s)),
    decreases stmts.len(),
{
    let whole = stmts.push(s);
    if stmts.len() == 0 {
        assert(whole.drop_first() =~= Seq::<StmtView>::empty());
        assert(whole[0] == s);
        assert(visits_all(post, post, whole.drop_first()));
        assert(V::stmt_post(pre, post, whole[0]));
        assert(visits_all(pre, post, whole));
    } else {
        let m0 = choose|m: V|
            #[trigger] V::stmt_post(pre, m, stmts[0]) && visits_all(m, mid, stmts.drop_first());
        lemma_visits_all_snoc::<V>(m0, mid, post, stmts.drop_first(), s);
        assert(whole.drop_first() =~= stmts.drop_first().push(s));
        assert(whole[0] == stmts[0]);
        assert(V::stmt_post(pre, m0, whole[0]) && visits_all(m0, post, whole.drop_first()));
        assert(visits_all(pre, post, whole));
    }
}

/// Default traversal of a statement: visit its expression.
pub fn do_visit_statement<V: ASTVisitor>(visitor: &mut V, statement: &ASTStatement)
    ensures
        match statement@ {
            StmtView::Expression(e) => V::expr_post(*old(visitor), *final(visitor), e),
        },
{
    match &statement.kind {
        ASTStatementKind::Expression(expr) => {
            visitor.visit_expression(expr);
        },
    }
}

/// Default traversal of an expression: dispatch on its variant.
pub fn do_visit_expression<V: ASTVisitor>(visitor: &mut V, expr: &ASTExpression)
    ensures
        match expr@ {
            ExprView::Number(n) => V::number_post(*old(visitor), *final(visitor), n),
            ExprView::Binary(_, _, _) => V::binary_post(*old(visitor), *final(visitor), expr@),
            ExprView::Parenthesized(_) => V::paren_post(*old(visitor), *final(visitor), expr@),
        },
{
    match &expr.kind {
        ASTExpressionKind::Number(number) => {
            visitor.visit_number(number);
        },
        ASTExpressionKind::Binary(binary) => {
            visitor.visit_binary_expression(binary);
        },
        ASTExpressionKind::Parenthesized(paren) => {
            visitor.visit_parenthesized_expression(paren);
        },
    }
}

/// Default traversal of a binary expression: left child, then right,
/// each visit meeting the visitor's expression guarantee, chained through
/// the state between the two visits.
pub fn do_visit_binary_expression<V: ASTVisitor>(visitor: &mut V, expr: &ASTBinaryExpression)
    ensures
        exists|mid: V|
            #[trigger] V::expr_post(*old(visitor), mid, expr.left@) && V::expr_post(
                mid,
                *final(visitor),
                expr.right@,
            ),
{
    visitor.visit_expression(&expr.left);
    let ghost mid = *visitor;
    visitor.visit_expression(&expr.right);
    proof {
        assert(V::expr_post(*old(visitor), mid, expr.left@) && V::expr_post(
            mid,
            *visitor,
            expr.right@,
        ));
    }
}

/// Default traversal of a parenthesized expression: its inner expression.
pub fn do_visit_parenthesized_expression<V: ASTVisitor>(
    visitor: &mut V,
    expr: &ASTParenthesizedExpression,
)
    ensures
        V::expr_post(*old(visitor), *final(visitor), expr.expression@),
{
    visitor.visit_expression(&expr.expression);
}

/// An ordered sequence of statements; insertion order is parse order and
/// the order every visitor walks them in.
pub struct AST {
    pub statements: Vec<ASTStatement>,
}

impl View for AST {
    type V = Seq<StmtView>;

    open spec fn view(&self) -> Seq<StmtView> {
        self.statements@.map_values(|s: ASTStatement| stmt_view(s))
    }
}

impl AST {
    pub fn new() -> (r: Self)
        ensures
            r@ == Seq::<StmtView>::empty(),
    {
        let r = AST { statements: Vec::new() };
        proof {
            assert(r@ =~= Seq::<StmtView>::empty());
        }
        r
    }

    pub fn add_statement(&mut self, statement: ASTStatement)
        ensures
            final(self)@ == old(self)@.push(statement@),
    {
        self.statements.push(statement);
        proof {
            assert(final(self)@ =~= old(self)@.push(statement@));
        }
    }

    /// Walks every statement in order with the given visitor: the
    /// visitor's state moves through the chain of its per-statement
    /// guarantees, one statement after the other.
    pub fn visit<V: ASTVisitor>(&self, visitor: &mut V)
        ensures
            visits_all(*old(visitor), *final(visitor), self@),
    {
        let n: usize = self.statements.len();
        let mut i: usize = 0;
        proof {
            assert(self@.subrange(0, 0) =~= Seq::<StmtView>::empty());
        }
        while i < n
            invariant
                n == self.statements.len(),
                i <= n,
                visits_all(*old(visitor), *visitor, self@.subrange(0, i as int)),
            decreases n - i,
        {
            let ghost before = *visitor;
            visitor.visit_statement(&self.statements[i]);
            proof {
                lemma_visits_all_snoc::<V>(
                    *old(visitor),
                    before,
                    *visitor,
                    self@.subrange(0, i as int),
                    self@[i as int],
                );
                assert(self@.subrange(0, i as int).push(self@[i as int]) =~= self@.subrange(
                    0,
                    i as int + 1,
                ));
            }
            i = i + 1;
        }
        proof {
            assert(self@.subrange(0, n as int) =~= self@);
        }
    }

    /// Renders the whole tree as indented diagnostic text.
    pub fn visualize(&self) -> (r: String)
        ensures
            r@ == render_ast(self@),
    {
        let mut printer = ASTPrinter { indent: 0, output: String::new() };
        let n: usize = self.statements.len();
        let mut i: usize = 0;
        proof {
            assert(self@.subrange(0, 0) =~= Seq::<StmtView>::empty());
        }
        while i < n
            invariant
                n == self.statements.len(),
                i <= n,
                printer.indent == 0,
                printer.output@ == render_ast(self@.subrange(0, i as int)),
            decreases n - i,
        {
            printer.visit_statement(&self.statements[i]);
            proof {
                lemma_render_ast_snoc(self@.subrange(0, i as int), self@[i as int]);
                assert(self@.subrange(0, i as int).push(self@[i as int]) =~= self@.subrange(
                    0,
                    i as int + 1,
                ));
            }
            i = i + 1;
        }
        proof {
            assert(self@.subrange(0, n as int) =~= self@);
        }
        printer.output
    }
}

/// The decimal digit character of a value between 0 and 9.
pub open spec fn digit_char_of(d: int) -> char {
    if d == 0 {
        '0'
    } else if d == 1 {
        '1'
    } else if d == 2 {
        '2'
    } else if d == 3 {
        '3'
    } else if d == 4 {
        '4'
    } else if d == 5 {
        '5'
    } else if d == 6 {
        '6'
    } else if d == 7 {
        '7'
    } else if d == 8 {
        '8'
    } else {
        '9'
    }
}

/// The base-10 digit characters of a non-negative value, most significant
/// first.
pub open spec fn dec_digits(n: int) -> Seq<char>
    decreases n,
        when 0 <= n
{
    if n < 10 {
        seq![digit_char_of(n)]
    } else {
        dec_digits(n / 10) + seq![digit_char_of(n % 10)]
    }
}

/// The decimal rendering of a signed value: a minus sign before the
/// digits of its magnitude when it is negative.
pub open spec fn dec_string(v: int) -> Seq<char> {
    if v >= 0 {
        dec_digits(v)
    } else {
        seq!['-'] + dec_digits(-v)
    }
}

/// `n` space characters.
pub open spec fn spaces(n: int) -> Seq<char>
    decreases n,
{
    if n <= 0 {
        Seq::empty()
    } else {
        spaces(n - 1) + seq![' ']
    }
}

/// One output line: `ind` spaces, the text, and a line break.
pub open spec fn line_at(ind: int, text: Seq<char>) -> Seq<char> {
    spaces(ind) + text + seq!['\n']
}

/// The printer's label for an operator.
pub open spec fn op_name(op: ASTBinaryOperatorKind) -> Seq<char> {
    match op {
        ASTBinaryOperatorKind::Add => "Add"@,
        ASTBinaryOperatorKind::Subtract => "Subtract"@,
        ASTBinaryOperatorKind::Multiply => "Multiply"@,
        ASTBinaryOperatorKind::Divide => "Divide"@,
    }
}

/// One indentation step deeper, saturated at the machine limit.
pub open spec fn bump(ind: int) -> int {
    if ind + 2 <= usize::MAX {
        ind + 2
    } else {
        usize::MAX as int
    }
}

/// The rendering of an expression: its `Expression:` header line and,
/// one step deeper, the rendering of its variant.
pub open spec fn render_expression(e: ExprView, ind: int) -> Seq<char>
    decreases e, 1int,
{
    line_at(ind, "Expression: "@) + render_expr_body(e, bump(ind))
}

/// The rendering of an expression variant at a given indent.
pub open spec fn render_expr_body(e: ExprView, ind: int) -> Seq<char>
    decreases e, 0int,
{
    match e {
        ExprView::Number(n) => line_at(ind, "Number: "@ + dec_string(n as int)),
        ExprView::Binary(op, left, right) => line_at(ind, "Binary Expression: "@) + line_at(
            bump(ind),
            "Operator: "@ + op_name(op),
        ) + render_expression(*left, bump(ind)) + render_expression(*right, bump(ind)),
        ExprView::Parenthesized(inner) => line_at(ind, "Parenthesized Expression: "@)
            + render_expression(*inner, bump(ind)),
    }
}

/// The rendering of a statement: its `Statement:` header line and, one
/// step deeper, the rendering of its expression.
pub open spec fn render_statement(s: StmtView, ind: int) -> Seq<char> {
    match s {
        StmtView::Expression(e) => line_at(ind, "Statement: "@) + render_expression(e, bump(ind)),
    }
}

/// The rendering of a statement sequence, each statement at indent 0, in
/// order.
pub open spec fn render_ast(stmts: Seq<StmtView>) -> Seq<char>
    decreases stmts.len(),
{
    if stmts.len() == 0 {
        Seq::empty()
    } else {
        render_statement(stmts[0], 0) + render_ast(stmts.drop_first())
    }
}

/// Appending a statement appends its rendering.
pub proof fn lemma_render_ast_snoc(stmts: Seq<StmtView>, s: StmtView)
    ensures
        render_ast(stmts.push(s)) == render_ast(stmts) + render_statement(s, 0),
    decreases stmts.len(),
{
    let whole = stmts.push(s);
    if stmts.len() == 0 {
        assert(whole.drop_first() =~= Seq::<StmtView>::empty());
        assert(render_ast(whole.drop_first()) =~= Seq::<char>::empty());
        assert(render_statement(s, 0) + Seq::<char>::empty() =~= render_statement(s, 0));
        assert(Seq::<char>::empty() + render_statement(s, 0) =~= render_statement(s, 0));
    } else {
        assert(whole.drop_first() =~= stmts.drop_first().push(s));
        lemma_render_ast_snoc(stmts.drop_first(), s);
        assert(render_statement(whole[0], 0) + (render_ast(stmts.drop_first())
            + render_statement(s, 0)) =~= (render_statement(stmts[0], 0) + render_ast(
            stmts.drop_first(),
        )) + render_statement(s, 0));
    }
}

/// Printing is a function of the tree alone: two renderings of the same
/// statement sequence are always identical.
pub proof fn lemma_print_deterministic(stmts: Seq<StmtView>, r1: Seq<char>, r2: Seq<char>)
    requires
        r1 == render_ast(stmts),
        r2 == render_ast(stmts),
    ensures
        r1 == r2,
{
}

/// A visitor that renders the tree as indented text, two spaces deeper
/// per nesting level, accumulating the text in `output`.
pub struct ASTPrinter {
    pub indent: usize,
    pub output: String,
}

impl ASTVisitor for ASTPrinter {
    /// One visited statement appends exactly its rendering at the
    /// current indent, and leaves the indent as it was.
    open spec fn stmt_post(pre: Self, post: Self, s: StmtView) -> bool {
        post.output@ == pre.output@ + render_statement(s, pre.indent as int) && post.indent
            == pre.indent
    }

    open spec fn expr_post(pre: Self, post: Self, e: ExprView) -> bool {
        post.output@ == pre.output@ + render_expression(e, pre.indent as int) && post.indent
            == pre.indent
    }

    open spec fn number_post(pre: Self, post: Self, n: i64) -> bool {
        post.output@ == pre.output@ + render_expr_body(ExprView::Number(n), pre.indent as int)
            && post.indent == pre.indent
    }

    open spec fn binary_post(pre: Self, post: Self, e: ExprView) -> bool {
        post.output@ == pre.output@ + render_expr_body(e, pre.indent as int) && post.indent
            == pre.indent
    }

    open spec fn paren_post(pre: Self, post: Self, e: ExprView) -> bool {
        post.output@ == pre.output@ + render_expr_body(e, pre.indent as int) && post.indent
            == pre.indent
    }

    fn visit_statement(&mut self, statement: &ASTStatement) {
        self.print_statement(statement);
    }

    fn visit_expression(&mut self, expr: &ASTExpression) {
        self.print_expression(expr);
    }

    fn visit_binary_expression(&mut self, expr: &ASTBinaryExpression) {
        self.print_binary_expression(expr);
    }

    fn visit_parenthesized_expression(&mut self, expr: &ASTParenthesizedExpression) {
        self.print_parenthesized_expression(expr);
    }

    fn visit_number(&mut self, number: &ASTNumberExpression) {
        self.print_number(number);
    }
}

impl ASTPrinter {
    fn print_statement(&mut self, statement: &ASTStatement)
        ensures
            final(self).output@ == old(self).output@ + render_statement(
                statement@,
                old(self).indent as int,
            ),
            final(self).indent == old(self).indent,
        decreases *statement,
    {
        self.print_width_indent("Statement: ");
        let saved: usize = self.indent;
        self.indent = Self::deeper(saved);
        match &statement.kind {
            ASTStatementKind::Expression(expr) => {
                self.print_expression(expr);
            },
        }
        self.indent = saved;
        proof {
            lemma_seq_add_assoc::<char>();
        }
    }

    fn print_expression(&mut self, expr: &ASTExpression)
        ensures
            final(self).output@ == old(self).output@ + render_expression(
                expr@,
                old(self).indent as int,
            ),
            final(self).indent == old(self).indent,
        decreases *expr,
    {
        self.print_width_indent("Expression: ");
        let saved: usize = self.indent;
        self.indent = Self::deeper(saved);
        match &expr.kind {
            ASTExpressionKind::Number(number) => {
                self.print_number(number);
            },
            ASTExpressionKind::Binary(binary) => {
                self.print_binary_expression(binary);
            },
            ASTExpressionKind::Parenthesized(paren) => {
                self.print_parenthesized_expression(paren);
            },
        }
        self.indent = saved;
        proof {
            lemma_seq_add_assoc::<char>();
        }
    }

    fn print_binary_expression(&mut self, expr: &ASTBinaryExpression)
        ensures
            final(self).output@ == old(self).output@ + render_expr_body(
                ExprView::Binary(expr.operator.kind, Box::new(expr.left@), Box::new(expr.right@)),
                old(self).indent as int,
            ),
            final(self).indent == old(self).indent,
        decreases *expr,
    {
        self.print_width_indent("Binary Expression: ");
        let saved: usize = self.indent;
        self.indent = Self::deeper(saved);
        let mut label: String = String::from_str("Operator: ");
        let name: &str = match expr.operator.kind {
            ASTBinaryOperatorKind::Add => "Add",
            ASTBinaryOperatorKind::Subtract => "Subtract",
            ASTBinaryOperatorKind::Multiply => "Multiply",
            ASTBinaryOperatorKind::Divide => "Divide",
        };
        label.append(name);
        proof {
            assert(label@ == "Operator: "@ + op_name(expr.operator.kind));
        }
        self.print_width_indent(label.as_str());
        self.print_expression(&expr.left);
        self.print_expression(&expr.right);
        self.indent = saved;
        proof {
            lemma_seq_add_assoc::<char>();
        }
    }

    fn print_parenthesized_expression(&mut self, expr: &ASTParenthesizedExpression)
        ensures
            final(self).output@ == old(self).output@ + render_expr_body(
                ExprView::Parenthesized(Box::new(expr.expression@)),
                old(self).indent as int,
            ),
            final(self).indent == old(self).indent,
        decreases *expr,
    {
        self.print_width_indent("Parenthesized Expression: ");
        let saved: usize = self.indent;
        self.indent = Self::deeper(saved);
        self.print_expression(&expr.expression);
        self.indent = saved;
        proof {
            lemma_seq_add_assoc::<char>();
        }
    }

    fn print_number(&mut self, number: &ASTNumberExpression)
        ensures
            final(self).output@ == old(self).output@ + render_expr_body(
                ExprView::Number(number.number),
                old(self).indent as int,
            ),
            final(self).indent == old(self).indent,
    {
        let mut label: String = String::from_str("Number: ");
        let digits: String = i64_to_dec(number.number);
        label.append(digits.as_str());
        self.print_width_indent(label.as_str());
    }
}

/// Sequence concatenation is associative.
proof fn lemma_seq_add_assoc<A>()
    ensures
        forall|a: Seq<A>, b: Seq<A>, c: Seq<A>| #[trigger] ((a + b) + c) =~= a + (b + c),
{
}

impl ASTPrinter {
    /// One indentation step deeper, saturated at the machine limit.
    fn deeper(ind: usize) -> (r: usize)
        ensures
            r as int == bump(ind as int),
    {
        if ind <= usize::MAX - 2 {
            ind + 2
        } else {
            usize::MAX
        }
    }

    /// Appends one output line: the current indent as spaces, the text,
    /// and a line break.
    fn print_width_indent(&mut self, text: &str)
        ensures
            final(self).output@ == old(self).output@ + line_at(old(self).indent as int, text@),
            final(self).indent == old(self).indent,
    {
        let n: usize = self.indent;
        let mut i: usize = 0;
        proof {
            assert(old(self).output@ + spaces(0) =~= old(self).output@);
        }
        while i < n
            invariant
                n == self.indent,
                i <= n,
                self.output@ == old(self).output@ + spaces(i as int),
            decreases n - i,
        {
            self.output.append(" ");
            proof {
                reveal_strlit(" ");
                assert((old(self).output@ + spaces(i as int)) + " "@ =~= old(self).output@
                    + spaces(i as int + 1));
            }
            i = i + 1;
        }
        self.output.append(text);
        self.output.append("\n");
        proof {
            reveal_strlit("\n");
            assert("\n"@ =~= seq!['\n']);
            assert(((old(self).output@ + spaces(n as int)) + text@) + seq!['\n']
                =~= old(self).output@ + line_at(n as int, text@));
        }
    }
}

/// The decimal digits of a non-negative value as text, most significant
/// first.
fn u64_to_dec(n: u64) -> (r: String)
    ensures
        r@ == dec_digits(n as int),
    decreases n,
{
    if n < 10 {
        digit_string(n)
    } else {
        let mut s: String = u64_to_dec(n / 10);
        let d: String = digit_string(n % 10);
        s.append(d.as_str());
        s
    }
}

/// The decimal rendering of a signed value.
fn i64_to_dec(v: i64) -> (r: String)
    ensures
        r@ == dec_string(v as int),
{
    if v >= 0 {
        u64_to_dec(v as u64)
    } else {
        let m: u64 = if v == i64::MIN {
            9223372036854775808u64
        } else {
            (-v) as u64
        };
        let mut s: String = String::from_str("-");
        proof {
            reveal_strlit("-");
            assert("-"@ =~= seq!['-']);
        }
        let d: String = u64_to_dec(m);
        s.append(d.as_str());
        s
    }
}

/// The single digit character of a value between 0 and 9 as text.
fn digit_string(d: u64) -> (r: String)
    requires
        d < 10,
    ensures
        r@ == seq![digit_char_of(d as int)],
{
    let r: &str = match d {
        0 => "0",
        1 => "1",
        2 => "2",
        3 => "3",
        4 => "4",
        5 => "5",
        6 => "6",
        7 => "7",
        8 => "8",
        _ => "9",
    };
    proof {
        reveal_strlit("0");
        reveal_strlit("1");
        reveal_strlit("2");
        reveal_strlit("3");
        reveal_strlit("4");
        reveal_strlit("5");
        reveal_strlit("6");
        reveal_strlit("7");
        reveal_strlit("8");
        reveal_strlit("9");
        assert(r@ =~= seq![digit_char_of(d as int)]);
    }
    String::from_str(r)
}

impl ASTStatement {
    pub fn new(kind: ASTStatementKind) -> (r: Self)
        ensures
            r.kind == kind,
    {
        ASTStatement { kind }
    }

    /// A statement wrapping a top-level expression.
    pub fn expression(expr: ASTExpression) -> (r: Self)
        ensures
            r@ == StmtView::Expression(expr@),
    {
        ASTStatement::new(ASTStatementKind::Expression(expr))
    }
}

} // verus!
