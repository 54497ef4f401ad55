//! The parser: consumes a buffered token sequence (whitespace tokens
//! ignored) and builds one statement at a time by recursive descent with
//! precedence climbing. Malformed input stops parsing with a failure;
//! the parser never backtracks past a consumed token and produces no
//! further statements after a failure.

use crate::ast::lexer::Lexer;
use crate::ast::lexer::Token;
use crate::ast::lexer::TokenKind;
use crate::ast::lexer::TokenView;
use crate::ast::lexer::lex_all;
use crate::ast::lexer::lex_from;
use crate::ast::lexer::lex_step;
use crate::ast::ASTBinaryOperator;
use crate::ast::ASTBinaryOperatorKind;
use crate::ast::ASTExpression;
use crate::ast::ASTStatement;
use crate::ast::ExprView;
use crate::ast::StmtView;
use crate::ast::precedence_of;
use vstd::prelude::*;

verus! {

/// A parse failure: an expected token category was absent. Holds the
/// offending token, where one was available, for diagnostics.
#[derive(Debug)]
pub struct ParseError {
    pub token: Option<Token>,
}

/// The kind at position `p` of a kind sequence; positions outside the
/// sequence read as end of input.
pub open spec fn kind_at(ts: Seq<TokenKind>, p: int) -> TokenKind {
    if 0 <= p && p < ts.len() {
        ts[p]
    } else {
        TokenKind::EOF
    }
}

/// The binary operator a token stands for, if any.
pub open spec fn op_of(k: TokenKind) -> Option<ASTBinaryOperatorKind> {
    match k {
        TokenKind::Plus => Some(ASTBinaryOperatorKind::Add),
        TokenKind::Minus => Some(ASTBinaryOperatorKind::Subtract),
        TokenKind::Asterisk => Some(ASTBinaryOperatorKind::Multiply),
        TokenKind::Slash => Some(ASTBinaryOperatorKind::Divide),
        _ => None,
    }
}

/// A primary expression at position `p`: a number literal, or a
/// parenthesized expression (`(`, a full expression, a matching `)`).
/// Yields the expression and the position after it, or nothing on
/// malformed input.
pub open spec fn spec_parse_primary(ts: Seq<TokenKind>, p: int) -> Option<(ExprView, int)>
    decreases ts.len() - p, 0int,
{
    match kind_at(ts, p) {
        TokenKind::Number(n) => Some((ExprView::Number(n), p + 1)),
        TokenKind::LeftParen => match spec_parse_expr(ts, p + 1, 1u8) {
            None => None,
            Some(inner) => if kind_at(ts, inner.1) == TokenKind::RightParen {
                Some((ExprView::Parenthesized(Box::new(inner.0)), inner.1 + 1))
            } else {
                None
            },
        },
        _ => None,
    }
}

/// Precedence climbing over the operators after a parsed left-hand side:
/// as long as the next token is an operator binding at least as tightly
/// as `min_prec`, parse its right-hand side one level tighter and fold
/// the pair into a binary node (which makes every operator
/// left-associative).
pub open spec fn spec_parse_rest(ts: Seq<TokenKind>, p: int, min_prec: u8, lhs: ExprView) -> Option<
    (ExprView, int),
>
    decreases ts.len() - p, 1int,
{
    match op_of(kind_at(ts, p)) {
        None => Some((lhs, p)),
        Some(op) => if precedence_of(op) < min_prec {
            Some((lhs, p))
        } else {
            match spec_parse_expr(ts, p + 1, (precedence_of(op) + 1) as u8) {
                None => None,
                Some(rhs) => {
                    let q = if p + 1 < rhs.1 && rhs.1 <= ts.len() {
                        rhs.1
                    } else {
                        p + 1
                    };
                    spec_parse_rest(
                        ts,
                        q,
                        min_prec,
                        ExprView::Binary(op, Box::new(lhs), Box::new(rhs.0)),
                    )
                },
            }
        },
    }
}

/// A full expression at position `p`: a primary expression followed by
/// every operator binding at least as tightly as `min_prec`.
pub open spec fn spec_parse_expr(ts: Seq<TokenKind>, p: int, min_prec: u8) -> Option<
    (ExprView, int),
>
    decreases ts.len() - p, 2int,
{
    if p < 0 || p > ts.len() {
        None
    } else {
        match spec_parse_primary(ts, p) {
            None => None,
            Some(first) => {
                let q = if p < first.1 && first.1 <= ts.len() {
                    first.1
                } else if p < ts.len() {
                    p + 1
                } else {
                    ts.len() as int
                };
                spec_parse_rest(ts, q, min_prec, first.0)
            },
        }
    }
}

/// What one request for a statement yields on a token sequence: clean
/// termination at end of input, a parse failure, or one statement (the
/// whole remaining input as a single expression) and the position of the
/// end-of-input token after it. Tokens left over after a complete
/// expression are a failure.
pub ghost enum ParseOutcome {
    Done,
    Failure,
    Statement(ExprView, int),
}

/// The outcome of parsing one statement at position `p`.
pub open spec fn spec_parse_statement(ts: Seq<TokenKind>, p: int) -> ParseOutcome {
    if kind_at(ts, p) == TokenKind::EOF {
        ParseOutcome::Done
    } else {
        match spec_parse_expr(ts, p, 1u8) {
            None => ParseOutcome::Failure,
            Some(r) => if kind_at(ts, r.1) == TokenKind::EOF {
                ParseOutcome::Statement(r.0, r.1)
            } else {
                ParseOutcome::Failure
            },
        }
    }
}

/// A successful parse of a primary expression consumes at least one
/// token and never runs past the end of the input.
pub proof fn lemma_primary_progress(ts: Seq<TokenKind>, p: int)
    ensures
        spec_parse_primary(ts, p) matches Some(r) ==> p < r.1 <= ts.len(),
    decreases ts.len() - p, 0int,
{
    match kind_at(ts, p) {
        TokenKind::LeftParen => {
            lemma_expr_progress(ts, p + 1, 1u8);
        },
        _ => {},
    }
}

/// Folding operators into a left-hand side never moves the cursor
/// backwards and never runs past the end of the input.
pub proof fn lemma_rest_progress(ts: Seq<TokenKind>, p: int, min_prec: u8, lhs: ExprView)
    requires
        0 <= p <= ts.len(),
    ensures
        spec_parse_rest(ts, p, min_prec, lhs) matches Some(r) ==> p <= r.1 <= ts.len(),
    decreases ts.len() - p, 1int,
{
    match op_of(kind_at(ts, p)) {
        None => {},
        Some(op) => {
            if precedence_of(op) >= min_prec {
                lemma_expr_progress(ts, p + 1, (precedence_of(op) + 1) as u8);
                match spec_parse_expr(ts, p + 1, (precedence_of(op) + 1) as u8) {
                    None => {},
                    Some(rhs) => {
                        let q = if p + 1 < rhs.1 && rhs.1 <= ts.len() {
                            rhs.1
                        } else {
                            p + 1
                        };
                        lemma_rest_progress(
                            ts,
                            q,
                            min_prec,
                            ExprView::Binary(op, Box::new(lhs), Box::new(rhs.0)),
                        );
                    },
                }
            }
        },
    }
}

/// A successful parse of an expression consumes at least one token and
/// never runs past the end of the input.
pub proof fn lemma_expr_progress(ts: Seq<TokenKind>, p: int, min_prec: u8)
    ensures
        spec_parse_expr(ts, p, min_prec) matches Some(r) ==> p < r.1 <= ts.len(),
    decreases ts.len() - p, 2int,
{
    if 0 <= p && p <= ts.len() {
        lemma_primary_progress(ts, p);
        match spec_parse_primary(ts, p) {
            None => {},
            Some(first) => {
                let q = if p < first.1 && first.1 <= ts.len() {
                    first.1
                } else if p < ts.len() {
                    p + 1
                } else {
                    ts.len() as int
                };
                lemma_rest_progress(ts, q, min_prec, first.0);
            },
        }
    }
}

/// Tokens without the whitespace ones, which the parser ignores
/// wherever a meaningful token is expected.
pub open spec fn filter_ws(ts: Seq<TokenView>) -> Seq<TokenView>
    decreases ts.len(),
{
    if ts.len() == 0 {
        Seq::empty()
    } else {
        filter_ws(ts.drop_last()) + (if ts.last().kind == TokenKind::WhiteSpace {
            Seq::<TokenView>::empty()
        } else {
            seq![ts.last()]
        })
    }
}

/// What the whitespace filter keeps holds no whitespace token.
proof fn lemma_filter_ws_no_ws(ts: Seq<TokenView>)
    ensures
        forall|i: int|
            0 <= i < filter_ws(ts).len() ==> (#[trigger] filter_ws(ts)[i]).kind
                != TokenKind::WhiteSpace,
    decreases ts.len(),
{
    if ts.len() > 0 {
        lemma_filter_ws_no_ws(ts.drop_last());
    }
}

/// The parser over a buffered token sequence.
pub struct Parser {
    tokens: Vec<Token>,
    current: usize,
    failed: bool,
}

impl Parser {
    /// The buffered tokens, as their mathematical images.
    pub closed spec fn toks(self) -> Seq<TokenView> {
        self.tokens@.map_values(|t: Token| t@)
    }

    /// The kinds of the buffered tokens.
    pub open spec fn kinds(self) -> Seq<TokenKind> {
        self.toks().map_values(|t: TokenView| t.kind)
    }

    /// The cursor: the position of the next unconsumed token.
    pub closed spec fn pos(self) -> int {
        self.current as int
    }

    /// Whether a parse failure has stopped this parser for good.
    pub closed spec fn failed(self) -> bool {
        self.failed
    }

    /// A failure report names the token under the cursor where parsing
    /// stopped, or no token when the cursor is past the end of the buffer.
    pub open spec fn reports_cursor_token(self, er: ParseError) -> bool {
        match er.token {
            Some(t) => self.pos() < self.toks().len() && t@ == self.toks()[self.pos()],
            None => self.pos() >= self.toks().len(),
        }
    }

    /// The cursor stays inside the token sequence, and the parser holds
    /// no whitespace tokens.
    pub closed spec fn wf(self) -> bool {
        &&& self.current <= self.tokens@.len()
        &&& forall|i: int|
            0 <= i < self.toks().len() ==> (#[trigger] self.toks()[i]).kind
                != TokenKind::WhiteSpace
    }

    /// An empty parser: no tokens, so the first request for a statement
    /// reports clean termination.
    pub fn new() -> (r: Self)
        ensures
            r.toks() == Seq::<TokenView>::empty(),
            r.pos() == 0,
            !r.failed(),
            r.wf(),
    {
        let r = Parser { tokens: Vec::new(), current: 0, failed: false };
        proof {
            assert(r.toks() =~= Seq::<TokenView>::empty());
        }
        r
    }

    /// Runs the lexer over the input to completion and buffers every
    /// token it produces, the whitespace ones left out.
    pub fn from_input(input: &str) -> (r: Self)
        ensures
            r.toks() == filter_ws(lex_all(input@)),
            r.pos() == 0,
            !r.failed(),
            r.wf(),
    {
        let ghost s = input@;
        let mut lexer = Lexer::new(input);
        let mut tokens: Vec<Token> = Vec::new();
        proof {
            assert(tokens@.map_values(|t: Token| t@) =~= Seq::<TokenView>::empty());
            assert(Seq::<TokenView>::empty() + lex_from(s, 0) =~= lex_from(s, 0));
        }
        loop
            invariant
                lexer.wf(),
                lexer.src() == s,
                0 <= lexer.pos(),
                tokens@.map_values(|t: Token| t@) + lex_from(s, lexer.pos()) == lex_all(s),
            ensures
                tokens@.map_values(|t: Token| t@) == lex_all(s),
            decreases s.len() + 2 - lexer.pos(),
        {
            let ghost p = lexer.pos();
            let next: Option<Token> = lexer.next_token();
            match next {
                Some(token) => {
                    proof {
                        let step = lex_step(s, p).unwrap();
                        if 0 <= p && p < s.len() && crate::ast::lexer::is_digit_char(s[p]) {
                            crate::ast::lexer::lemma_digits_end(s, p);
                        }
                        assert(p < step.1);
                        assert(tokens@.push(token).map_values(|t: Token| t@) =~= tokens@.map_values(
                            |t: Token| t@,
                        ).push(token@));
                        assert((tokens@.map_values(|t: Token| t@).push(step.0)) + lex_from(
                            s,
                            step.1,
                        ) =~= tokens@.map_values(|t: Token| t@) + (seq![step.0] + lex_from(
                            s,
                            step.1,
                        )));
                    }
                    tokens.push(token);
                },
                None => {
                    proof {
                        assert(lex_from(s, lexer.pos()) =~= Seq::<TokenView>::empty());
                        assert(tokens@.map_values(|t: Token| t@) + Seq::<TokenView>::empty()
                            =~= tokens@.map_values(|t: Token| t@));
                    }
                    break ;
                },
            }
        }
        Parser::from_tokens(tokens)
    }

    /// A parser over a pre-built token sequence; whitespace tokens are
    /// dropped on the way in.
    pub fn from_tokens(tokens: Vec<Token>) -> (r: Self)
        ensures
            r.toks() == filter_ws(tokens@.map_values(|t: Token| t@)),
            r.pos() == 0,
            !r.failed(),
            r.wf(),
    {
        let ghost input = tokens@.map_values(|t: Token| t@);
        let mut kept: Vec<Token> = Vec::new();
        let n: usize = tokens.len();
        let mut i: usize = 0;
        proof {
            assert(input.subrange(0, 0) =~= Seq::<TokenView>::empty());
            assert(kept@.map_values(|t: Token| t@) =~= filter_ws(input.subrange(0, 0)));
        }
        while i < n
            invariant
                n == tokens@.len(),
                i <= n,
                input == tokens@.map_values(|t: Token| t@),
                kept@.map_values(|t: Token| t@) == filter_ws(input.subrange(0, i as int)),
            decreases n - i,
        {
            let ghost prefix = input.subrange(0, i as int);
            let keep: bool = match tokens[i].kind {
                TokenKind::WhiteSpace => false,
                _ => true,
            };
            proof {
                assert(input.subrange(0, i as int + 1).drop_last() =~= prefix);
                assert(input.subrange(0, i as int + 1).last() == input[i as int]);
            }
            if keep {
                let t: Token = tokens[i].clone();
                proof {
                    assert(kept@.push(t).map_values(|tk: Token| tk@) =~= kept@.map_values(
                        |tk: Token| tk@,
                    ).push(t@));
                    assert(filter_ws(prefix) + seq![input[i as int]] =~= filter_ws(
                        input.subrange(0, i as int + 1),
                    ));
                }
                kept.push(t);
            } else {
                proof {
                    assert(filter_ws(prefix) + Seq::<TokenView>::empty() =~= filter_ws(prefix));
                }
            }
            i = i + 1;
        }
        proof {
            assert(input.subrange(0, n as int) =~= input);
            lemma_filter_ws_no_ws(input);
        }
        Parser { tokens: kept, current: 0, failed: false }
    }

    /// One parsed statement, `Ok(None)` at clean end of input, or the
    /// parse failure that stopped this parser. After a failure every
    /// later request fails too and no further statement is produced.
    pub fn next_statement(&mut self) -> (r: Result<Option<ASTStatement>, ParseError>)
        requires
            old(self).wf(),
        ensures
            final(self).wf(),
            final(self).toks() == old(self).toks(),
            old(self).pos() <= final(self).pos(),
            old(self).failed() ==> r is Err && *final(self) == *old(self),
            !old(self).failed() ==> match spec_parse_statement(old(self).kinds(), old(
                self,
            ).pos()) {
                ParseOutcome::Done => r matches Ok(opt) && opt is None && !final(self).failed()
                    && final(self).pos() == old(self).pos(),
                ParseOutcome::Failure => r matches Err(er) && final(self).failed()
                    && final(self).reports_cursor_token(er),
                ParseOutcome::Statement(e, q) => r matches Ok(opt) && opt matches Some(stmt)
                    && stmt@ == StmtView::Expression(e) && final(self).pos() == q
                    && !final(self).failed(),
            },
    {
        if self.failed {
            return Err(ParseError { token: None });
        }
        self.parse_statement()
    }

    /// Parses one statement: the whole remaining input as a single
    /// expression. Tokens left over after it are a failure.
    fn parse_statement(&mut self) -> (r: Result<Option<ASTStatement>, ParseError>)
        requires
            old(self).wf(),
            !old(self).failed(),
        ensures
            final(self).wf(),
            final(self).toks() == old(self).toks(),
            old(self).pos() <= final(self).pos(),
            match spec_parse_statement(old(self).kinds(), old(self).pos()) {
                ParseOutcome::Done => r matches Ok(opt) && opt is None && !final(self).failed()
                    && final(self).pos() == old(self).pos(),
                ParseOutcome::Failure => r matches Err(er) && final(self).failed()
                    && final(self).reports_cursor_token(er),
                ParseOutcome::Statement(e, q) => r matches Ok(opt) && opt matches Some(stmt)
                    && stmt@ == StmtView::Expression(e) && final(self).pos() == q
                    && !final(self).failed(),
            },
    {
        let at_end: bool = match self.current_kind() {
            TokenKind::EOF => true,
            _ => false,
        };
        if at_end {
            return Ok(None);
        }
        let expr: ASTExpression = match self.parse_expression(1) {
            Ok(e) => e,
            Err(er) => {
                self.failed = true;
                return Err(er);
            },
        };
        let trailing: bool = match self.current_kind() {
            TokenKind::EOF => false,
            _ => true,
        };
        if trailing {
            self.failed = true;
            return Err(ParseError { token: self.current_cloned() });
        }
        Ok(Some(ASTStatement::expression(expr)))
    }

    /// Parses a full expression by precedence climbing: a primary
    /// expression, then every operator binding at least as tightly as
    /// `min_prec`, each folded with its right-hand side into a binary
    /// node.
    fn parse_expression(&mut self, min_prec: u8) -> (r: Result<ASTExpression, ParseError>)
        requires
            old(self).wf(),
        ensures
            final(self).wf(),
            final(self).toks() == old(self).toks(),
            final(self).failed() == old(self).failed(),
            old(self).pos() <= final(self).pos(),
            match spec_parse_expr(old(self).kinds(), old(self).pos(), min_prec) {
                Some(pr) => r matches Ok(e) && e@ == pr.0 && final(self).pos() == pr.1,
                None => r matches Err(er) && final(self).reports_cursor_token(er),
            },
        decreases old(self).tokens@.len() - old(self).current, 1int,
    {
        let ghost ts = old(self).kinds();
        let ghost p0 = old(self).pos();
        let mut lhs: ASTExpression = match self.parse_primary() {
            Ok(e) => e,
            Err(er) => {
                return Err(er);
            },
        };
        proof {
            lemma_primary_progress(ts, p0);
        }
        loop
            invariant
                self.wf(),
                self.toks() == old(self).toks(),
                self.failed() == old(self).failed(),
                ts == self.kinds(),
                ts == old(self).kinds(),
                p0 == old(self).pos(),
                self.tokens@.len() == old(self).tokens@.len(),
                0 <= p0 < self.pos() <= ts.len(),
                spec_parse_rest(ts, self.pos(), min_prec, lhs@) == spec_parse_expr(
                    ts,
                    p0,
                    min_prec,
                ),
            ensures
                self.wf(),
                self.toks() == old(self).toks(),
                self.failed() == old(self).failed(),
                spec_parse_expr(ts, p0, min_prec) == Some((lhs@, self.pos())),
            decreases self.tokens@.len() - self.current,
        {
            let k: TokenKind = self.current_kind();
            let opkind: ASTBinaryOperatorKind = match k {
                TokenKind::Plus => ASTBinaryOperatorKind::Add,
                TokenKind::Minus => ASTBinaryOperatorKind::Subtract,
                TokenKind::Asterisk => ASTBinaryOperatorKind::Multiply,
                TokenKind::Slash => ASTBinaryOperatorKind::Divide,
                _ => {
                    proof {
                        assert(spec_parse_rest(ts, self.pos(), min_prec, lhs@) == Some(
                            (lhs@, self.pos()),
                        ));
                    }
                    break ;
                },
            };
            let prec: u8 = match opkind {
                ASTBinaryOperatorKind::Add => 1,
                ASTBinaryOperatorKind::Subtract => 1,
                ASTBinaryOperatorKind::Multiply => 2,
                ASTBinaryOperatorKind::Divide => 2,
            };
            if prec < min_prec {
                proof {
                    assert(spec_parse_rest(ts, self.pos(), min_prec, lhs@) == Some(
                        (lhs@, self.pos()),
                    ));
                }
                break ;
            }
            let ghost opp = self.pos();
            let token: Token = self.consume();
            let operator = ASTBinaryOperator::new(opkind, token);
            let rhs: ASTExpression = match self.parse_expression(prec + 1) {
                Ok(e) => e,
                Err(er) => {
                    return Err(er);
                },
            };
            proof {
                lemma_expr_progress(ts, opp + 1, (prec + 1) as u8);
            }
            lhs = ASTExpression::binary(operator, lhs, rhs);
        }
        Ok(lhs)
    }

    /// Parses a primary expression: a number literal, or `(`, a full
    /// expression, and a matching `)`. Anything else is a failure.
    fn parse_primary(&mut self) -> (r: Result<ASTExpression, ParseError>)
        requires
            old(self).wf(),
        ensures
            final(self).wf(),
            final(self).toks() == old(self).toks(),
            final(self).failed() == old(self).failed(),
            old(self).pos() <= final(self).pos(),
            match spec_parse_primary(old(self).kinds(), old(self).pos()) {
                Some(pr) => r matches Ok(e) && e@ == pr.0 && final(self).pos() == pr.1,
                None => r matches Err(er) && final(self).reports_cursor_token(er),
            },
        decreases old(self).tokens@.len() - old(self).current, 0int,
    {
        let ghost ts = old(self).kinds();
        let ghost p0 = old(self).pos();
        let k: TokenKind = self.current_kind();
        match k {
            TokenKind::Number(number) => {
                let _ = self.consume();
                Ok(ASTExpression::number(number))
            },
            TokenKind::LeftParen => {
                let _ = self.consume();
                let inner: ASTExpression = match self.parse_expression(1) {
                    Ok(e) => e,
                    Err(er) => {
                        return Err(er);
                    },
                };
                proof {
                    lemma_expr_progress(ts, p0 + 1, 1u8);
                }
                let closing: TokenKind = self.current_kind();
                match closing {
                    TokenKind::RightParen => {
                        let _ = self.consume();
                        Ok(ASTExpression::parenthesized(inner))
                    },
                    _ => Err(ParseError { token: self.current_cloned() }),
                }
            },
            _ => Err(ParseError { token: self.current_cloned() }),
        }
    }

    /// The kind of the next unconsumed token; past the end of the buffer
    /// it reads as end of input.
    fn current_kind(&self) -> (k: TokenKind)
        requires
            self.wf(),
        ensures
            k == kind_at(self.kinds(), self.pos()),
    {
        if self.current < self.tokens.len() {
            self.tokens[self.current].kind
        } else {
            TokenKind::EOF
        }
    }

    /// A copy of the next unconsumed token, for diagnostics.
    fn current_cloned(&self) -> (r: Option<Token>)
        requires
            self.wf(),
        ensures
            match r {
                Some(t) => self.pos() < self.toks().len() && t@ == self.toks()[self.pos()],
                None => self.pos() >= self.toks().len(),
            },
    {
        match self.current() {
            Some(t) => Some(t.clone()),
            None => None,
        }
    }

    /// The next unconsumed token, without consuming it.
    fn current(&self) -> (r: Option<&Token>)
        requires
            self.wf(),
        ensures
            match r {
                Some(t) => self.pos() < self.toks().len() && *t == self.tokens@[self.pos()],
                None => self.pos() >= self.toks().len(),
            },
    {
        if self.current < self.tokens.len() {
            Some(&self.tokens[self.current])
        } else {
            None
        }
    }

    /// Consumes the next token and hands back a copy of it.
    fn consume(&mut self) -> (r: Token)
        requires
            old(self).wf(),
            old(self).pos() < old(self).toks().len(),
        ensures
            final(self).wf(),
            final(self).toks() == old(self).toks(),
            final(self).failed() == old(self).failed(),
            final(self).pos() == old(self).pos() + 1,
            r@ == old(self).toks()[old(self).pos()],
    {
        let t: Token = self.tokens[self.current].clone();
        // Reading the length once records, for the verifier, that the
        // cursor stays representable after the step.
        let _len: usize = self.tokens.len();
        self.current = self.current + 1;
        t
    }
}

} // verus!
