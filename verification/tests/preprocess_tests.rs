use wikiplain::preprocess::{
    cut_references_section, preprocess, remove_braces, remove_nested_braces, strip_ref_spans,
};

fn chars_of(text: &str) -> Vec<char> {
    text.chars().collect()
}

fn text_of(chars: &[char]) -> String {
    chars.iter().collect()
}

#[test]
fn braces_are_removed() {
    assert_eq!(remove_nested_braces("a{{b}}c"), "ac");
}

#[test]
fn nested_braces_are_removed() {
    assert_eq!(remove_nested_braces("a{{b{{c}}d}}e"), "ae");
}

#[test]
fn stray_closing_braces_vanish() {
    assert_eq!(remove_nested_braces("a}}b"), "ab");
}

#[test]
fn unterminated_opening_braces_swallow_the_rest() {
    assert_eq!(remove_nested_braces("a{{b"), "a");
}

#[test]
fn single_braces_pass_through() {
    assert_eq!(remove_nested_braces("a{b}c"), "a{b}c");
}

#[test]
fn remove_braces_matches_string_form() {
    let chars = chars_of("x{{y}}z{{w}}");
    assert_eq!(text_of(&remove_braces(&chars)), "xz");
}

#[test]
fn citation_spans_are_stripped() {
    let chars = chars_of("a<ref>cite</ref>b<ref>more</ref>c");
    assert_eq!(text_of(&strip_ref_spans(&chars)), "abc");
}

#[test]
fn unclosed_citation_is_kept() {
    let chars = chars_of("a<ref>cite b");
    assert_eq!(text_of(&strip_ref_spans(&chars)), "a<ref>cite b");
}

#[test]
fn references_section_is_cut() {
    let chars = chars_of("body == References == trash");
    assert_eq!(text_of(&cut_references_section(&chars)), "body ");
}

#[test]
fn text_without_references_section_is_kept() {
    let chars = chars_of("body only");
    assert_eq!(text_of(&cut_references_section(&chars)), "body only");
}

#[test]
fn body_starts_after_first_quote() {
    let chars = chars_of("junk\"body!");
    let sealed = preprocess(&chars, false);
    assert_eq!(text_of(&sealed), "body\0");
}

#[test]
fn missing_quote_falls_back_to_whole_text() {
    let chars = chars_of("abc");
    let sealed = preprocess(&chars, false);
    assert_eq!(text_of(&sealed), "ab\0");
}

#[test]
fn empty_input_becomes_bare_sentinel() {
    let chars = chars_of("");
    let sealed = preprocess(&chars, false);
    assert_eq!(text_of(&sealed), "\0");
}

#[test]
fn preprocess_strips_refs_before_braces() {
    let chars = chars_of("\"x<ref>{{a</ref>y{{b}}z!");
    let sealed = preprocess(&chars, false);
    assert_eq!(text_of(&sealed), "xyz\0");
}
