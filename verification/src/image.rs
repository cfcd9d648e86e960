//! Building the inline data URL for a fetched image.

use vstd::prelude::*;
use vstd::string::*;
use base64::Engine;

verus! {

/// The padded standard-alphabet base64 encoding of the bytes.
pub uninterp spec fn base64_standard(bytes: Seq<u8>) -> Seq<char>;

/// Relies on the base64 crate's general_purpose::STANDARD engine: the padded
/// standard-alphabet encoding, a function of the bytes alone.
#[verifier::external_body]
fn encode_base64(bytes: &Vec<u8>) -> (r: String)
    ensures
        r@ == base64_standard(bytes@),
{
    base64::engine::general_purpose::STANDARD.encode(bytes.as_slice())
}

/// The data URL carrying `bytes` inline: the content type followed by the
/// base64 text.
pub open spec fn spec_image_data_url(content_type: Seq<char>, bytes: Seq<u8>) -> Seq<char> {
    "data:"@ + content_type + ";base64,"@ + base64_standard(bytes)
}

/// Renders image bytes as a `data:` URL with the given content type.
pub fn make_image_data_url(content_type: &str, bytes: &Vec<u8>) -> (r: String)
    ensures
        r@ == spec_image_data_url(content_type@, bytes@),
{
    let mut out = String::from_str("data:");
    out.append(content_type);
    out.append(";base64,");
    let enc = encode_base64(bytes);
    out.append(enc.as_str());
    out
}

} // verus!
