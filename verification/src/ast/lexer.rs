//! The lexer: turns a source string into a stream of classified,
//! positioned tokens. Lexing never fails: unrecognized characters become
//! `Unknown` tokens, and exactly one `EOF` token is produced at the end
//! of the input.

use vstd::prelude::*;

verus! {

/// The classification of one lexed token.
#[derive(Debug, Clone, Copy, PartialEq, Eq, Structural)]
pub enum TokenKind {
    Number(i64),
    Plus,
    Minus,
    Asterisk,
    Slash,
    LeftParen,
    RightParen,
    WhiteSpace,
    Unknown,
    EOF,
}

/// Mathematical image of a `TextSpan`.
pub ghost struct SpanView {
    pub start: int,
    pub end: int,
    pub literal: Seq<char>,
}

/// Mathematical image of a `Token`.
pub ghost struct TokenView {
    pub kind: TokenKind,
    pub span: SpanView,
}

/// A half-open character range into the source text, together with the
/// exact substring it covers.
#[derive(Debug)]
pub struct TextSpan {
    pub start: usize,
    pub end: usize,
    pub literal: String,
}

impl View for TextSpan {
    type V = SpanView;

    open spec fn view(&self) -> SpanView {
        SpanView { start: self.start as int, end: self.end as int, literal: self.literal@ }
    }
}

impl Clone for TextSpan {
    fn clone(&self) -> (r: Self)
        ensures
            r@ == self@,
            r.start == self.start,
            r.end == self.end,
    {
        TextSpan { start: self.start, end: self.end, literal: self.literal.clone() }
    }
}

impl TextSpan {
    pub fn new(start: usize, end: usize, literal: String) -> (r: Self)
        requires
            start <= end,
        ensures
            r@ == (SpanView { start: start as int, end: end as int, literal: literal@ }),
            r.start == start,
            r.end == end,
    {
        Self { start, end, literal }
    }

    /// The number of characters the span covers.
    pub fn len(&self) -> (r: usize)
        requires
            self.start <= self.end,
        ensures
            r == self@.end - self@.start,
    {
        self.end - self.start
    }
}

/// A classified fragment of the source text.
#[derive(Debug)]
pub struct Token {
    pub kind: TokenKind,
    pub span: TextSpan,
}

impl View for Token {
    type V = TokenView;

    open spec fn view(&self) -> TokenView {
        TokenView { kind: self.kind, span: self.span@ }
    }
}

impl Clone for Token {
    fn clone(&self) -> (r: Self)
        ensures
            r@ == self@,
            r.kind == self.kind,
    {
        Token { kind: self.kind, span: self.span.clone() }
    }
}

impl Token {
    pub fn new(kind: TokenKind, span: TextSpan) -> (r: Self)
        ensures
            r@ == (TokenView { kind, span: span@ }),
            r.kind == kind,
    {
        Self { kind, span }
    }
}

/// Whether `c` is an ASCII decimal digit.
pub open spec fn is_digit_char(c: char) -> bool {
    '0' as int <= c as int && c as int <= '9' as int
}

/// The numeric value of an ASCII decimal digit.
pub open spec fn digit_val(c: char) -> int {
    c as int - '0' as int
}

/// Whether `c` is a whitespace character: the White_Space code points,
/// exactly as `char::is_whitespace` classifies them.
pub open spec fn is_ws_char(c: char) -> bool {
    let u = c as int;
    (0x09 <= u && u <= 0x0D) || u == 0x20 || u == 0x85 || u == 0xA0 || u == 0x1680 || (0x2000 <= u
        && u <= 0x200A) || u == 0x2028 || u == 0x2029 || u == 0x202F || u == 0x205F || u == 0x3000
}

/// The token kind of a one-character punctuation token; characters the
/// language does not know become `Unknown`.
pub open spec fn punct_kind(c: char) -> TokenKind {
    if c == '+' {
        TokenKind::Plus
    } else if c == '-' {
        TokenKind::Minus
    } else if c == '*' {
        TokenKind::Asterisk
    } else if c == '/' {
        TokenKind::Slash
    } else if c == '(' {
        TokenKind::LeftParen
    } else if c == ')' {
        TokenKind::RightParen
    } else {
        TokenKind::Unknown
    }
}

/// The first position at or after `p` that does not hold a digit, so the
/// digit run starting at `p` covers exactly `[p, digits_end(s, p))`.
pub open spec fn digits_end(s: Seq<char>, p: int) -> int
    decreases s.len() - p,
        when 0 <= p <= s.len()
{
    if p < s.len() && is_digit_char(s[p]) {
        digits_end(s, p + 1)
    } else {
        p
    }
}

/// The non-negative integer a digit sequence denotes in base 10.
pub open spec fn digits_val(s: Seq<char>) -> int
    decreases s.len(),
{
    if s.len() == 0 {
        0
    } else {
        10 * digits_val(s.drop_last()) + digit_val(s.last())
    }
}

/// A digit run's value, clamped into `i64`: runs too long to represent
/// saturate at `i64::MAX`.
pub open spec fn clip_to_i64(v: int) -> i64 {
    if v > i64::MAX {
        i64::MAX
    } else {
        v as i64
    }
}

/// The span covering `[start, end)` of the source `s`.
pub open spec fn span_of(s: Seq<char>, start: int, end: int) -> SpanView {
    SpanView { start, end, literal: s.subrange(start, end) }
}

/// One step of lexing: the token starting at position `p` of source `s`
/// and the position after it. At `p == s.len()` the step yields the
/// synthetic `EOF` token with an empty span; past that it yields nothing.
pub open spec fn lex_step(s: Seq<char>, p: int) -> Option<(TokenView, int)> {
    if p == s.len() {
        Some(
            (
                TokenView {
                    kind: TokenKind::EOF,
                    span: SpanView { start: p, end: p, literal: Seq::empty() },
                },
                p + 1,
            ),
        )
    } else if 0 <= p && p < s.len() {
        let c = s[p];
        if is_digit_char(c) {
            let e = digits_end(s, p);
            Some(
                (
                    TokenView {
                        kind: TokenKind::Number(clip_to_i64(digits_val(s.subrange(p, e)))),
                        span: span_of(s, p, e),
                    },
                    e,
                ),
            )
        } else if is_ws_char(c) {
            Some((TokenView { kind: TokenKind::WhiteSpace, span: span_of(s, p, p + 1) }, p + 1))
        } else {
            Some((TokenView { kind: punct_kind(c), span: span_of(s, p, p + 1) }, p + 1))
        }
    } else {
        None
    }
}

/// Every position of the digit run starting at `p` holds a digit, and the
/// run ends at or before the end of the source.
pub proof fn lemma_digits_end(s: Seq<char>, p: int)
    requires
        0 <= p <= s.len(),
    ensures
        p <= digits_end(s, p) <= s.len(),
        forall|i: int| p <= i < digits_end(s, p) ==> is_digit_char(s[i]),
        digits_end(s, p) == s.len() || !is_digit_char(s[digits_end(s, p)]),
    decreases s.len() - p,
{
    if p < s.len() && is_digit_char(s[p]) {
        lemma_digits_end(s, p + 1);
    }
}

/// A sequence of digits denotes a non-negative value.
pub proof fn lemma_digits_val_nonneg(s: Seq<char>)
    requires
        forall|i: int| 0 <= i < s.len() ==> is_digit_char(s[i]),
    ensures
        digits_val(s) >= 0,
    decreases s.len(),
{
    if s.len() > 0 {
        lemma_digits_val_nonneg(s.drop_last());
    }
}

/// The sequence of tokens lexed from position `p` of source `s` to the
/// end of the input, the synthetic `EOF` token included.
pub open spec fn lex_from(s: Seq<char>, p: int) -> Seq<TokenView>
    decreases s.len() + 1 - p,
        via lex_from_decreases
{
    match lex_step(s, p) {
        None => Seq::empty(),
        Some(step) => seq![step.0] + lex_from(s, step.1),
    }
}

#[via_fn]
proof fn lex_from_decreases(s: Seq<char>, p: int) {
    if 0 <= p && p < s.len() && is_digit_char(s[p]) {
        lemma_digits_end(s, p);
    }
}

/// The whole token stream of source `s`.
pub open spec fn lex_all(s: Seq<char>) -> Seq<TokenView> {
    lex_from(s, 0)
}

/// The concatenation of the literals of a token sequence, the synthetic
/// `EOF` token excluded.
pub open spec fn literals_concat(ts: Seq<TokenView>) -> Seq<char>
    decreases ts.len(),
{
    if ts.len() == 0 {
        Seq::empty()
    } else {
        (if ts[0].kind == TokenKind::EOF {
            Seq::<char>::empty()
        } else {
            ts[0].span.literal
        }) + literals_concat(ts.drop_first())
    }
}

proof fn lemma_lex_from_literals(s: Seq<char>, p: int)
    requires
        0 <= p <= s.len(),
    ensures
        literals_concat(lex_from(s, p)) == s.subrange(p, s.len() as int),
    decreases s.len() + 1 - p,
{
    let ts = lex_from(s, p);
    if p == s.len() {
        assert(lex_from(s, p + 1) =~= Seq::<TokenView>::empty());
        assert(ts.len() == 1);
        assert(ts[0].kind == TokenKind::EOF);
        assert(ts.drop_first() =~= Seq::<TokenView>::empty());
        assert(literals_concat(ts) == Seq::<char>::empty() + literals_concat(ts.drop_first()));
        assert(literals_concat(ts) =~= s.subrange(p, s.len() as int));
    } else {
        let step = lex_step(s, p).unwrap();
        let next = step.1;
        if is_digit_char(s[p]) {
            lemma_digits_end(s, p);
        }
        assert(p < next <= s.len());
        assert(step.0.span.literal == s.subrange(p, next));
        assert(step.0.kind != TokenKind::EOF);
        assert(ts.drop_first() =~= lex_from(s, next));
        lemma_lex_from_literals(s, next);
        assert(s.subrange(p, next) + s.subrange(next, s.len() as int) =~= s.subrange(
            p,
            s.len() as int,
        ));
    }
}

/// Lexing consumes the whole input exactly once: the literals of the
/// token stream, concatenated in order (the synthetic `EOF` token
/// excluded), reproduce the source text exactly.
pub proof fn lemma_lex_reconstructs_input(s: Seq<char>)
    ensures
        literals_concat(lex_all(s)) == s,
{
    lemma_lex_from_literals(s, 0);
    assert(s.subrange(0, s.len() as int) =~= s);
}

/// Lexing a string made of digits alone yields exactly one `Number`
/// token, spanning the whole input and holding the value the digits
/// denote in base 10, followed by the synthetic `EOF` token. Digit runs
/// whose value exceeds `i64::MAX` saturate and are left out here.
pub proof fn lemma_lex_digit_run(s: Seq<char>)
    requires
        s.len() > 0,
        forall|i: int| 0 <= i < s.len() ==> is_digit_char(s[i]),
        digits_val(s) <= i64::MAX,
    ensures
        lex_all(s).len() == 2,
        lex_all(s)[0] == (TokenView {
            kind: TokenKind::Number(digits_val(s) as i64),
            span: SpanView { start: 0, end: s.len() as int, literal: s },
        }),
        lex_all(s)[1] == (TokenView {
            kind: TokenKind::EOF,
            span: SpanView {
                start: s.len() as int,
                end: s.len() as int,
                literal: Seq::empty(),
            },
        }),
{
    let n = s.len() as int;
    lemma_digits_end(s, 0);
    assert(digits_end(s, 0) == n);
    assert(s.subrange(0, n) =~= s);
    lemma_digits_val_nonneg(s);
    assert(lex_from(s, n + 1) =~= Seq::<TokenView>::empty());
    let eof = lex_from(s, n);
    assert(eof.len() == 1);
    let all = lex_all(s);
    assert(all == seq![all[0]] + eof);
    assert(all.len() == 2);
    assert(all[1] == eof[0]);
}

/// The lexer: a cursor over the source text that hands out one token per
/// call until the synthetic `EOF` token has been produced once.
pub struct Lexer<'a> {
    input: &'a str,
    current_pos: usize,
    finished: bool,
}

impl<'a> Lexer<'a> {
    /// The source text being lexed.
    pub closed spec fn src(self) -> Seq<char> {
        self.input@
    }

    /// The cursor: the position of the next token, or one past the end of
    /// the source once the `EOF` token has been produced.
    pub closed spec fn pos(self) -> int {
        if self.finished {
            self.input@.len() as int + 1
        } else {
            self.current_pos as int
        }
    }

    /// Until the `EOF` token is produced the cursor stays inside the
    /// source.
    pub closed spec fn wf(self) -> bool {
        &&& !self.finished ==> self.current_pos <= self.input@.len()
        &&& self.input@.len() <= usize::MAX
    }

    pub fn new(input: &'a str) -> (r: Self)
        ensures
            r.src() == input@,
            r.pos() == 0,
            r.wf(),
    {
        // Counting the characters once records, for the verifier, that the
        // character count of the input fits in usize.
        let _count: usize = input.unicode_len();
        Self { input, current_pos: 0, finished: false }
    }

    /// The next token of the source, or nothing once the `EOF` token has
    /// already been produced.
    pub fn next_token(&mut self) -> (r: Option<Token>)
        requires
            old(self).wf(),
        ensures
            final(self).wf(),
            final(self).src() == old(self).src(),
            match lex_step(old(self).src(), old(self).pos()) {
                Some(step) => r matches Some(t) && t@ == step.0 && final(self).pos() == step.1,
                None => r is None && final(self).pos() == old(self).pos(),
            },
    {
        if self.finished {
            return None;
        }
        let n: usize = self.input.unicode_len();
        if self.current_pos == n {
            self.finished = true;
            return Some(
                Token::new(TokenKind::EOF, TextSpan::new(n, n, String::new())),
            );
        }
        let start: usize = self.current_pos;
        let c: char = self.input.get_char(start);
        let kind: TokenKind;
        if Self::is_num_start(&c) {
            let number: i64 = self.consume_number();
            kind = TokenKind::Number(number);
        } else if Self::is_whitespace(&c) {
            self.consume();
            kind = TokenKind::WhiteSpace;
        } else {
            kind = self.consume_punctiation();
        }
        let end: usize = self.current_pos;
        proof {
            lemma_digits_end(old(self).src(), start as int);
        }
        let literal: String = String::from_str(self.input.substring_char(start, end));
        let span = TextSpan::new(start, end, literal);
        Some(Token::new(kind, span))
    }

    /// The character under the cursor, or nothing at or past the end of
    /// the source.
    fn current_char(&self) -> (r: Option<char>)
        requires
            self.wf(),
        ensures
            match r {
                Some(c) => self.pos() < self.src().len() && c == self.src()[self.pos()],
                None => self.pos() >= self.src().len(),
            },
    {
        if self.finished {
            return None;
        }
        let n: usize = self.input.unicode_len();
        if self.current_pos < n {
            Some(self.input.get_char(self.current_pos))
        } else {
            None
        }
    }

    fn is_num_start(c: &char) -> (r: bool)
        ensures
            r == is_digit_char(*c),
    {
        let u: u32 = *c as u32;
        48 <= u && u <= 57
    }

    fn is_whitespace(c: &char) -> (r: bool)
        ensures
            r == is_ws_char(*c),
    {
        let u: u32 = *c as u32;
        (0x09 <= u && u <= 0x0D) || u == 0x20 || u == 0x85 || u == 0xA0 || u == 0x1680 || (0x2000
            <= u && u <= 0x200A) || u == 0x2028 || u == 0x2029 || u == 0x202F || u == 0x205F || u
            == 0x3000
    }

    /// Consumes the greedy run of digits under the cursor and returns the
    /// non-negative base-10 value it denotes, saturated at `i64::MAX` for
    /// runs too long to represent.
    fn consume_number(&mut self) -> (number: i64)
        requires
            old(self).wf(),
            old(self).pos() < old(self).src().len(),
            is_digit_char(old(self).src()[old(self).pos()]),
        ensures
            final(self).wf(),
            final(self).src() == old(self).src(),
            final(self).pos() == digits_end(old(self).src(), old(self).pos()),
            number == clip_to_i64(
                digits_val(old(self).src().subrange(old(self).pos(), final(self).pos())),
            ),
    {
        let ghost s = old(self).src();
        let ghost p0 = old(self).pos();
        let mut number: i64 = 0;
        proof {
            assert(s.subrange(p0, p0) =~= Seq::<char>::empty());
        }
        loop
            invariant
                self.wf(),
                self.src() == s,
                0 <= p0 <= self.pos() <= s.len(),
                digits_end(s, self.pos()) == digits_end(s, p0),
                forall|i: int| p0 <= i < self.pos() ==> is_digit_char(s[i]),
                number == clip_to_i64(digits_val(s.subrange(p0, self.pos()))),
            ensures
                self.wf(),
                self.src() == s,
                p0 <= self.pos() <= s.len(),
                self.pos() == digits_end(s, p0),
                number == clip_to_i64(digits_val(s.subrange(p0, self.pos()))),
            decreases s.len() - self.pos(),
        {
            let c_opt: Option<char> = self.current_char();
            match c_opt {
                Some(c) => {
                    if !Self::is_num_start(&c) {
                        proof {
                            assert(digits_end(s, self.pos()) == self.pos());
                        }
                        break;
                    }
                    let ghost cur = self.pos();
                    self.consume();
                    let d: u32 = (c as u32) - 48;
                    let di: i64 = d as i64;
                    proof {
                        assert(s.subrange(p0, cur + 1).drop_last() =~= s.subrange(p0, cur));
                        assert(s.subrange(p0, cur + 1).last() == s[cur]);
                        lemma_digits_val_nonneg(s.subrange(p0, cur));
                    }
                    let ghost oldval = digits_val(s.subrange(p0, cur));
                    let ghost newval = digits_val(s.subrange(p0, cur + 1));
                    proof {
                        assert(newval == 10 * oldval + di);
                    }
                    let threshold: u64 = ((i64::MAX as u64) - (d as u64)) / 10;
                    if (number as u64) > threshold {
                        proof {
                            assert((i64::MAX - di) == 10 * threshold + (i64::MAX - di) % 10) by {
                                vstd::arithmetic::div_mod::lemma_fundamental_div_mod(
                                    i64::MAX - di,
                                    10,
                                );
                            }
                            assert(newval > i64::MAX);
                        }
                        number = i64::MAX;
                    } else {
                        proof {
                            assert((i64::MAX - di) == 10 * threshold + (i64::MAX - di) % 10) by {
                                vstd::arithmetic::div_mod::lemma_fundamental_div_mod(
                                    i64::MAX - di,
                                    10,
                                );
                            }
                            assert(number <= threshold);
                            assert(10 * number + di <= i64::MAX);
                            assert(oldval <= i64::MAX);
                            assert(number == oldval);
                            assert(newval <= i64::MAX);
                        }
                        number = number * 10 + di;
                    }
                }
                None => {
                    proof {
                        assert(digits_end(s, self.pos()) == self.pos());
                    }
                    break;
                }
            }
        }
        number
    }

    /// Consumes one punctuation character and classifies it; characters
    /// the language does not know become `Unknown`.
    fn consume_punctiation(&mut self) -> (kind: TokenKind)
        requires
            old(self).wf(),
            old(self).pos() < old(self).src().len(),
        ensures
            final(self).wf(),
            final(self).src() == old(self).src(),
            final(self).pos() == old(self).pos() + 1,
            kind == punct_kind(old(self).src()[old(self).pos()]),
    {
        let c: char = self.consume().unwrap();
        match c {
            '+' => TokenKind::Plus,
            '-' => TokenKind::Minus,
            '*' => TokenKind::Asterisk,
            '/' => TokenKind::Slash,
            '(' => TokenKind::LeftParen,
            ')' => TokenKind::RightParen,
            _ => TokenKind::Unknown,
        }
    }

    /// Consumes the character under the cursor.
    fn consume(&mut self) -> (r: Option<char>)
        requires
            old(self).wf(),
            old(self).pos() < old(self).src().len(),
        ensures
            final(self).wf(),
            final(self).src() == old(self).src(),
            final(self).pos() == old(self).pos() + 1,
            r matches Some(c) && c == old(self).src()[old(self).pos()],
    {
        let c: Option<char> = self.current_char();
        self.current_pos = self.current_pos + 1;
        c
    }
}

} // verus!
