use wikiplain::errors::{Construct, ParseError};
use wikiplain::pipeline::{convert, is_default_edition_host};
use wikiplain::render::generate_plaintext;
use wikiplain::tokenizer::parse_text;

#[test]
fn simple_body_converts() {
    let r = convert("\"Hello world?", false).unwrap();
    assert_eq!(r, "Hello world");
}

#[test]
fn template_contributes_nothing_to_output() {
    let with_template = convert("\"A {{Infobox|x=1}} C?", false).unwrap();
    let without = convert("\"A  C?", false).unwrap();
    assert_eq!(with_template, without);
    assert_eq!(with_template, "A  C");
}

#[test]
fn markup_document_end_to_end() {
    let r = convert("\"==T==\\nHello '''bold''' [[Link]] x?", false).unwrap();
    assert_eq!(r, "T\nHello bold Link x");
}

#[test]
fn malformed_brace_region_is_reported() {
    let r = convert("\"x{y?", false);
    assert_eq!(
        r,
        Err(ParseError::MalformedMarkup { offset: 1, construct: Construct::Braces })
    );
}

#[test]
fn references_section_strip_is_configurable() {
    let stripped = convert("\"Body == References == trash?", true).unwrap();
    assert_eq!(stripped, "Body");
    let kept = convert("\"Body == References == trash?", false).unwrap();
    assert_eq!(kept, "Body  References  trash");
}

#[test]
fn conversion_is_deterministic() {
    let docs = [
        "\"Alpha {{x}} beta?",
        "\"==H==\\nGamma?",
        "\"plain text here?",
    ];
    for doc in docs.iter() {
        let first = convert(doc, false);
        let second = convert(doc, false);
        assert_eq!(first, second);
    }
}

#[test]
fn default_edition_hosts_are_recognised() {
    assert!(is_default_edition_host("en.wikipedia.org"));
    assert!(!is_default_edition_host("bn.wikipedia.org"));
    assert!(!is_default_edition_host(""));
}

#[test]
fn rendering_is_idempotent_on_rendered_output() {
    let rendered = convert("\"  some plain words  ?", false).unwrap();
    let mut chars: Vec<char> = rendered.chars().collect();
    chars.push('\0');
    let tokens = parse_text(&chars).expect("rendered text holds no markup");
    let again = generate_plaintext(&tokens, &chars);
    assert_eq!(again, rendered);
}
