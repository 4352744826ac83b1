//! The base64 text of file attachment contents.

use vstd::prelude::*;

verus! {

/// The text that the RFC 4648 standard, padded base64 alphabet assigns to a
/// byte sequence. The result is a function of the bytes alone.
pub uninterp spec fn base64_of(bytes: Seq<u8>) -> Seq<char>;

/// Relies on base64's `Engine::encode` with the `general_purpose::STANDARD`
/// engine (RFC 4648 standard alphabet, padded): it returns the base64 text of
/// the input bytes and depends on the bytes alone. The length bound keeps the
/// engine's output-size computation from overflowing, on which it would
/// panic.
#[verifier::external_body]
pub(crate) fn encode_base64(bytes: &[u8]) -> (r: String)
    requires
        4 * ((bytes@.len() + 2) / 3) <= usize::MAX,
    ensures
        r@ == base64_of(bytes@),
{
    base64::Engine::encode(&base64::engine::general_purpose::STANDARD, bytes)
}

} // verus!
