//! The whole conversion pipeline: preprocessor, tokenizer, renderer,
//! composed into one call per document.

use vstd::prelude::*;

use crate::errors::{ParseError, ParseErrorModel};
use crate::preprocess::{preprocess, preprocess_spec};
use crate::render::{generate_plaintext, render_tokens, trim_spec};
use crate::scan::{find_sub, scan_sub};
use crate::strconv::str_to_chars;
use crate::token::tokens_view;
use crate::tokenizer::{
    lemma_tokenize_wf, parse_text, tokenize, tokens_bounded, MAX_SCAN_STEPS,
};

verus! {

/// The plaintext of one document: the preprocessed buffer is tokenized and
/// rendered, and the result is trimmed of surrounding whitespace.  A buffer
/// the tokenizer reports as malformed yields that error and no text at all.
pub open spec fn convert_spec(markup: Seq<char>, strip_references_section: bool) -> Result<
    Seq<char>,
    ParseErrorModel,
> {
    let buffer = preprocess_spec(markup, strip_references_section);
    match tokenize(buffer) {
        Ok(ts) => Ok(trim_spec(render_tokens(ts, buffer))),
        Err(e) => Err(e),
    }
}

/// Convert one document of wikitext markup into plaintext.  The flag
/// selects whether a trailing references section is stripped, as it is for
/// the default-language edition.  The result is exactly what
/// [`convert_spec`] defines for this input: all-or-nothing per document,
/// with parse failures returned as typed errors and never as partial text.
#[verifier::rlimit(50)]
pub fn convert(markup: &str, strip_references_section: bool) -> (r: Result<String, ParseError>)
    ensures
        match r {
            Ok(text) => convert_spec(markup@, strip_references_section) == Ok::<
                Seq<char>,
                ParseErrorModel,
            >(text@),
            Err(e) => convert_spec(markup@, strip_references_section) == Err::<
                Seq<char>,
                ParseErrorModel,
            >(e@),
        },
{
    let chars = str_to_chars(markup);
    let buffer = preprocess(&chars, strip_references_section);
    match parse_text(&buffer) {
        Err(e) => Err(e),
        Ok(tokens) => {
            proof {
                lemma_tokenize_wf(buffer@, MAX_SCAN_STEPS as int);
                assert(tokens_bounded(tokens_view(tokens@), 0, buffer@.len() as int));
                assert forall|n: int| 0 <= n < tokens@.len() implies (
                #[trigger] tokens@[n]@).in_bounds(buffer@.len() as int) by {
                    assert(tokens_view(tokens@)[n] == tokens@[n]@);
                }
            }
            Ok(generate_plaintext(&tokens, &buffer))
        },
    }
}

/// The host-name fragment that marks the default-language edition.
pub open spec fn default_edition_marker() -> Seq<char> {
    seq!['e', 'n', '.', 'w', 'i', 'k', 'i']
}

/// Whether an article host belongs to the default-language edition, whose
/// trailing references section the preprocessor strips: true exactly when
/// the host name contains `en.wiki`.
pub fn is_default_edition_host(host: &str) -> (r: bool)
    ensures
        r == (find_sub(host@, 0, default_edition_marker()) is Some),
{
    let chars = str_to_chars(host);
    let marker: Vec<char> = vec!['e', 'n', '.', 'w', 'i', 'k', 'i'];
    proof {
        assert(marker@ =~= default_edition_marker());
    }
    scan_sub(&chars, 0, &marker).is_some()
}

/// The pipeline is a pure function of its arguments: converting equal
/// documents under equal configurations yields equal outcomes.  Conversions
/// of independent documents therefore commute, and running many of them
/// concurrently produces exactly the results of running them sequentially.
pub proof fn lemma_convert_deterministic(m1: Seq<char>, m2: Seq<char>, strip: bool)
    requires
        m1 == m2,
    ensures
        convert_spec(m1, strip) == convert_spec(m2, strip),
{
}

} // verus!
