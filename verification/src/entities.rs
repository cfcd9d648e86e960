//! HTML-entity decoding for display text.

use vstd::prelude::*;

verus! {

/// What entity decoding yields on a given text.
pub uninterp spec fn decoded_entities(s: Seq<char>) -> Seq<char>;

/// Relies on html_escape::decode_html_entities: decodes exact named and
/// numeric character references ending in a semicolon; its scanner only acts
/// on ampersands, so text without one is returned unchanged.
#[verifier::external_body]
fn decode_entities_raw(text: &str) -> (r: String)
    ensures
        r@ == decoded_entities(text@),
        (forall|i: int| 0 <= i < text@.len() ==> text@[i] != '&') ==> r@ == text@,
{
    String::from(html_escape::decode_html_entities(text))
}

/// Decodes standard HTML named and numeric character entities; malformed
/// entities and entity-free text pass through unchanged.
pub fn decode_entities(text: &str) -> (r: String)
    ensures
        r@ == decoded_entities(text@),
        (forall|i: int| 0 <= i < text@.len() ==> text@[i] != '&') ==> r@ == text@,
{
    decode_entities_raw(text)
}

} // verus!
