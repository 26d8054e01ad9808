use wikiplain::errors::{Construct, ParseError};
use wikiplain::render::generate_plaintext;
use wikiplain::token::{FormatType, Token};
use wikiplain::tokenizer::{parse_text, parse_text_with_limit};

fn buf(text: &str) -> Vec<char> {
    let mut v: Vec<char> = text.chars().collect();
    v.push('\0');
    v
}

fn render(text: &str) -> String {
    let chars = buf(text);
    let tokens = parse_text(&chars).expect("tokenization should succeed");
    generate_plaintext(&tokens, &chars)
}

#[test]
fn plain_body_is_one_word_token() {
    let chars = buf("Hello");
    let tokens = parse_text(&chars).unwrap();
    assert_eq!(tokens.len(), 1);
    assert_eq!(
        tokens[0],
        Token { start: 0, length: 5, format: FormatType::PlainWord }
    );
    assert_eq!(render("Hello"), "Hello");
}

#[test]
fn words_and_spaces_round_trip() {
    let chars = buf("ab cd");
    let tokens = parse_text(&chars).unwrap();
    assert_eq!(tokens.len(), 3);
    assert_eq!(tokens[0], Token { start: 0, length: 2, format: FormatType::PlainWord });
    assert_eq!(tokens[1], Token { start: 2, length: 1, format: FormatType::Space });
    assert_eq!(tokens[2], Token { start: 3, length: 2, format: FormatType::PlainWord });
    assert_eq!(render("ab cd"), "ab cd");
}

#[test]
fn surrounding_whitespace_is_trimmed() {
    assert_eq!(render("  hi  "), "hi");
}

#[test]
fn heading_yields_single_title_token() {
    let chars = buf("==Heading==");
    let tokens = parse_text(&chars).unwrap();
    assert_eq!(tokens.len(), 1);
    assert_eq!(tokens[0].format, FormatType::Title);
    assert_eq!(tokens[0].start, 2);
    assert_eq!(tokens[0].length, 7);
    assert_eq!(render("==Heading=="), "Heading");
}

#[test]
fn subtitle_and_subsubtitle_runs() {
    let chars = buf("===Sub===");
    let tokens = parse_text(&chars).unwrap();
    assert_eq!(tokens.len(), 1);
    assert_eq!(tokens[0].format, FormatType::Subtitle);
    assert_eq!(render("===Sub==="), "Sub");

    let chars = buf("====X====");
    let tokens = parse_text(&chars).unwrap();
    assert_eq!(tokens.len(), 1);
    assert_eq!(tokens[0].format, FormatType::Subsubtitle);
    assert_eq!(render("====X===="), "X");
}

#[test]
fn single_equals_emits_no_token() {
    let chars = buf("=a=b");
    let tokens = parse_text(&chars).unwrap();
    assert_eq!(tokens.len(), 1);
    assert_eq!(tokens[0], Token { start: 3, length: 1, format: FormatType::PlainWord });
    assert_eq!(render("=a=b"), "b");
}

#[test]
fn bold_outside_bullet_context() {
    let chars = buf("'''bold'''");
    let tokens = parse_text(&chars).unwrap();
    assert_eq!(tokens.len(), 1);
    assert_eq!(tokens[0], Token { start: 3, length: 4, format: FormatType::Bold });
    assert_eq!(render("'''bold'''"), "bold");
}

#[test]
fn bold_after_bullet_becomes_bullet_bold() {
    let chars = buf("* '''bold'''");
    let tokens = parse_text(&chars).unwrap();
    assert_eq!(tokens.len(), 2);
    assert_eq!(tokens[0].format, FormatType::Space);
    assert_eq!(tokens[1], Token { start: 5, length: 4, format: FormatType::BulletBold });
}

#[test]
fn italic_and_bullet_italic() {
    let chars = buf("''it''");
    let tokens = parse_text(&chars).unwrap();
    assert_eq!(tokens.len(), 1);
    assert_eq!(tokens[0], Token { start: 2, length: 2, format: FormatType::Italic });

    let chars = buf("*''it''");
    let tokens = parse_text(&chars).unwrap();
    assert_eq!(tokens.len(), 1);
    assert_eq!(tokens[0].format, FormatType::BulletItalic);
}

#[test]
fn lone_apostrophe_is_dropped() {
    let chars = buf("don't");
    let tokens = parse_text(&chars).unwrap();
    assert_eq!(tokens.len(), 2);
    assert_eq!(render("don't"), "dont");
}

#[test]
fn plain_link_yields_wikilink_token() {
    let chars = buf("[[Plain_Link]]");
    let tokens = parse_text(&chars).unwrap();
    assert_eq!(tokens.len(), 1);
    assert_eq!(tokens[0], Token { start: 2, length: 10, format: FormatType::WikiLink });
    assert_eq!(render("[[Plain_Link]]"), "Plain_Link");
}

#[test]
fn piped_link_yields_no_token() {
    let chars = buf("[[Target|Display]]");
    let tokens = parse_text(&chars).unwrap();
    assert_eq!(tokens.len(), 0);
}

#[test]
fn nested_link_yields_no_token() {
    let chars = buf("[[a[[b]]c]]");
    let tokens = parse_text(&chars).unwrap();
    assert_eq!(tokens.len(), 0);
}

#[test]
fn italic_span_with_piped_link_is_repaired() {
    assert_eq!(render("''[[Target|Display]]''"), "Target");
}

#[test]
fn italic_span_with_plain_brackets_keeps_interior() {
    assert_eq!(render("''see [[Here]] now''"), "see Here now");
}

#[test]
fn escaped_newline_token() {
    let chars = buf("ab\\ncd");
    let tokens = parse_text(&chars).unwrap();
    assert_eq!(tokens.len(), 3);
    assert_eq!(tokens[1], Token { start: 2, length: 2, format: FormatType::NewLine });
    assert_eq!(render("ab\\ncd"), "ab\ncd");
}

#[test]
fn escaped_quote_becomes_inline_quote() {
    let chars = buf("\\\"hello\\\"");
    let tokens = parse_text(&chars).unwrap();
    assert_eq!(tokens.len(), 1);
    assert_eq!(tokens[0], Token { start: 2, length: 5, format: FormatType::InlineQuote });
    assert_eq!(render("\\\"hello\\\""), "hello");
}

#[test]
fn html_tag_is_skipped() {
    let chars = buf("a<b>c");
    let tokens = parse_text(&chars).unwrap();
    assert_eq!(tokens.len(), 2);
    assert_eq!(render("a<b>c"), "ac");
}

#[test]
fn braced_span_is_skipped() {
    let chars = buf("x{{Infobox|x=1}}y");
    let tokens = parse_text(&chars).unwrap();
    assert_eq!(tokens.len(), 2);
    assert_eq!(render("x{{Infobox|x=1}}y"), "xy");
}

#[test]
fn unterminated_braces_are_malformed() {
    let chars = buf("{{abc");
    let r = parse_text(&chars);
    assert_eq!(
        r,
        Err(ParseError::MalformedMarkup { offset: 0, construct: Construct::Braces })
    );
}

#[test]
fn unterminated_emphasis_is_malformed() {
    let chars = buf("''abc");
    let r = parse_text(&chars);
    assert_eq!(
        r,
        Err(ParseError::MalformedMarkup { offset: 0, construct: Construct::Emphasis })
    );
}

#[test]
fn unterminated_link_is_malformed() {
    let chars = buf("x[[abc");
    let r = parse_text(&chars);
    assert_eq!(
        r,
        Err(ParseError::MalformedMarkup { offset: 1, construct: Construct::Link })
    );
}

#[test]
fn unterminated_tag_is_malformed() {
    let chars = buf("a<bc");
    let r = parse_text(&chars);
    assert_eq!(
        r,
        Err(ParseError::MalformedMarkup { offset: 1, construct: Construct::Tag })
    );
}

#[test]
fn unterminated_heading_is_malformed() {
    let chars = buf("==abc");
    let r = parse_text(&chars);
    assert_eq!(
        r,
        Err(ParseError::MalformedMarkup { offset: 0, construct: Construct::Heading })
    );
}

#[test]
fn unterminated_escaped_quote_is_malformed() {
    let chars = buf("\\\"abc");
    let r = parse_text(&chars);
    assert_eq!(
        r,
        Err(ParseError::MalformedMarkup { offset: 0, construct: Construct::Quote })
    );
}

#[test]
fn scan_step_ceiling_is_enforced() {
    let chars = buf("{{aaaaaaaaaa}}");
    assert!(parse_text_with_limit(&chars, 100).is_ok());
    let r = parse_text_with_limit(&chars, 3);
    assert_eq!(
        r,
        Err(ParseError::MalformedMarkup { offset: 0, construct: Construct::Braces })
    );
}

#[test]
fn deep_brace_nesting_is_given_up() {
    let chars = buf("{{{{{{x}}}}}}tail");
    let tokens = parse_text(&chars).unwrap();
    assert_eq!(tokens.len(), 0);
}

#[test]
fn three_brace_levels_are_followed() {
    let chars = buf("{{{a}}}b");
    let tokens = parse_text(&chars).unwrap();
    assert_eq!(tokens.len(), 1);
    assert_eq!(render("{{{a}}}b"), "b");
}
