use arith_ast::ast::lexer::Lexer;
use arith_ast::ast::lexer::TextSpan;
use arith_ast::ast::lexer::Token;
use arith_ast::ast::lexer::TokenKind;

fn lex_all_tokens(input: &str) -> Vec<Token> {
    let mut lexer = Lexer::new(input);
    let mut tokens = Vec::new();
    while let Some(token) = lexer.next_token() {
        tokens.push(token);
    }
    tokens
}

#[test]
fn lex_digit_run_yields_number_then_eof() {
    let tokens = lex_all_tokens("123");
    assert_eq!(tokens.len(), 2);
    assert_eq!(tokens[0].kind, TokenKind::Number(123));
    assert_eq!(tokens[0].span.start, 0);
    assert_eq!(tokens[0].span.end, 3);
    assert_eq!(tokens[0].span.literal, "123");
    assert_eq!(tokens[1].kind, TokenKind::EOF);
}

#[test]
fn lex_stops_after_eof() {
    let mut lexer = Lexer::new("7");
    assert!(lexer.next_token().is_some());
    assert!(lexer.next_token().is_some());
    assert!(lexer.next_token().is_none());
    assert!(lexer.next_token().is_none());
}

#[test]
fn lex_reconstructs_input() {
    let input = "12 + (34*5) ?x - 6";
    let tokens = lex_all_tokens(input);
    let mut rebuilt = String::new();
    for token in &tokens {
        if token.kind != TokenKind::EOF {
            rebuilt.push_str(&token.span.literal);
        }
    }
    assert_eq!(rebuilt, input);
}

#[test]
fn lex_empty_input_yields_only_eof() {
    let tokens = lex_all_tokens("");
    assert_eq!(tokens.len(), 1);
    assert_eq!(tokens[0].kind, TokenKind::EOF);
    assert_eq!(tokens[0].span.literal, "");
}

#[test]
fn lex_whitespace_is_a_token() {
    let tokens = lex_all_tokens(" ");
    assert_eq!(tokens.len(), 2);
    assert_eq!(tokens[0].kind, TokenKind::WhiteSpace);
    assert_eq!(tokens[0].span.literal, " ");
}

#[test]
fn lex_form_feed_is_whitespace() {
    let tokens = lex_all_tokens("\u{000C}");
    assert_eq!(tokens.len(), 2);
    assert_eq!(tokens[0].kind, TokenKind::WhiteSpace);
}

#[test]
fn lex_unicode_spaces_are_whitespace() {
    for c in ['\u{000B}', '\u{0085}', '\u{00A0}', '\u{2003}', '\u{2028}', '\u{3000}'] {
        let input = c.to_string();
        let mut lexer = Lexer::new(&input);
        let first = lexer.next_token().unwrap();
        assert_eq!(first.kind, TokenKind::WhiteSpace);
    }
}

#[test]
fn lex_unknown_character_is_data_not_error() {
    let tokens = lex_all_tokens("?");
    assert_eq!(tokens.len(), 2);
    assert_eq!(tokens[0].kind, TokenKind::Unknown);
    assert_eq!(tokens[0].span.literal, "?");
}

#[test]
fn lex_punctuation_kinds() {
    let tokens = lex_all_tokens("+-*/()");
    let kinds: Vec<TokenKind> = tokens.iter().map(|t| t.kind).collect();
    assert_eq!(
        kinds,
        vec![
            TokenKind::Plus,
            TokenKind::Minus,
            TokenKind::Asterisk,
            TokenKind::Slash,
            TokenKind::LeftParen,
            TokenKind::RightParen,
            TokenKind::EOF,
        ]
    );
}

#[test]
fn lex_number_too_long_saturates() {
    let tokens = lex_all_tokens("99999999999999999999");
    assert_eq!(tokens[0].kind, TokenKind::Number(i64::MAX));
    assert_eq!(tokens[0].span.literal, "99999999999999999999");
}

#[test]
fn lex_number_spans_record_positions() {
    let tokens = lex_all_tokens("1 + 23");
    assert_eq!(tokens[0].span.start, 0);
    assert_eq!(tokens[0].span.end, 1);
    assert_eq!(tokens[2].span.start, 2);
    assert_eq!(tokens[2].span.end, 3);
    assert_eq!(tokens[4].span.start, 4);
    assert_eq!(tokens[4].span.end, 6);
    assert_eq!(tokens[4].kind, TokenKind::Number(23));
}

#[test]
fn text_span_len_is_end_minus_start() {
    let span = TextSpan::new(2, 5, String::from("abc"));
    assert_eq!(span.len(), 3);
}

#[test]
fn token_new_keeps_kind_and_span() {
    let token = Token::new(TokenKind::Plus, TextSpan::new(0, 1, String::from("+")));
    assert_eq!(token.kind, TokenKind::Plus);
    assert_eq!(token.span.literal, "+");
}
