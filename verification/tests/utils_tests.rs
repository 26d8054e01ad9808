use wikiplain::token::{FormatType, Token};
use wikiplain::utils::{add_new_line, add_space, add_token, advance, peek_ahead};

#[test]
fn advance_returns_consumed_character() {
    let text = vec!['a', 'b'];
    let mut current: usize = 0;
    let mut iter: i32 = 0;
    assert_eq!(advance(&text, &mut current, &mut iter), 'a');
    assert_eq!(current, 1);
    assert_eq!(iter, 1);
    assert_eq!(advance(&text, &mut current, &mut iter), '\0');
    assert_eq!(current, 2);
    assert_eq!(iter, 2);
}

#[test]
fn peek_ahead_sees_next_character() {
    let text = vec!['a', 'b'];
    assert_eq!(peek_ahead(&text, 0), 'b');
    assert_eq!(peek_ahead(&text, 1), '\0');
    assert_eq!(peek_ahead(&text, 7), '\0');
}

#[test]
fn add_token_records_span_before_terminator() {
    let mut tokens: Vec<Token> = Vec::new();
    add_token(&mut tokens, 2, 5, FormatType::Bold);
    assert_eq!(tokens.len(), 1);
    assert_eq!(tokens[0], Token { start: 2, length: 2, format: FormatType::Bold });
}

#[test]
fn add_new_line_spans_two_characters() {
    let mut tokens: Vec<Token> = Vec::new();
    add_new_line(&mut tokens, 4);
    assert_eq!(tokens[0], Token { start: 3, length: 2, format: FormatType::NewLine });
}

#[test]
fn add_space_is_one_character() {
    let mut tokens: Vec<Token> = Vec::new();
    add_space(&mut tokens, 6);
    assert_eq!(tokens[0], Token { start: 6, length: 1, format: FormatType::Space });
}
