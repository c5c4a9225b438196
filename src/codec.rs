//! Base64 text of document states, as the wire format carries them.
use base64::Engine;
use vstd::prelude::*;

verus! {

/// What the standard base64 engine decodes `s` to, or `None` where it
/// refuses `s`.
pub uninterp spec fn base64_decoded(s: Seq<char>) -> Option<Seq<u8>>;

/// What the standard base64 engine encodes `b` to.
pub uninterp spec fn base64_encoded(b: Seq<u8>) -> Seq<char>;

#[verifier::external_type_specification]
#[verifier::external_body]
pub struct ExDecodeError(base64::DecodeError);

/// Relies on `base64::Engine::decode` of the standard engine: the bytes that
/// the text stands for, or its error; both depend on the text alone.
#[verifier::external_body]
pub(crate) fn decode_base64(s: &String) -> (r: Result<Vec<u8>, base64::DecodeError>)
    ensures
        r is Ok <==> base64_decoded(s@) is Some,
        r is Ok ==> r->Ok_0@ == base64_decoded(s@)->Some_0,
{
    base64::engine::general_purpose::STANDARD.decode(s)
}

/// Relies on `base64::Engine::encode` of the standard engine: the text of the
/// bytes, which depends on the bytes alone.
#[verifier::external_body]
pub(crate) fn encode_base64(b: &Vec<u8>) -> (r: String)
    ensures
        r@ == base64_encoded(b@),
{
    base64::engine::general_purpose::STANDARD.encode(b)
}

} // verus!
