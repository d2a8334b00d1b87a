//! Base64, as SASL payloads are written on the wire.

use vstd::prelude::*;

verus! {

/// The most bytes that are handed to the encoder or the decoder: with
/// more, the sizes that they compute would not fit a `usize` everywhere.
pub const BASE64_INPUT_MAX: usize = 0x2000_0000;

/// The base64 text of `data`, in the standard alphabet with padding.
pub uninterp spec fn base64_encoded(data: Seq<u8>) -> Seq<u8>;

/// The bytes that the base64 text `text` stands for, or `None` where it is
/// no base64 text.
pub uninterp spec fn base64_decoded(text: Seq<u8>) -> Option<Seq<u8>>;

/// Calls `base64::encode`.  The contract gives the text that it returns
/// the name `base64_encoded`, of the bytes handed in; it says nothing more
/// of it.  The call panics where the size of the text overflows, which the
/// bound on the input rules out.
#[verifier::external_body]
pub(crate) fn encode(data: &[u8]) -> (text: Vec<u8>)
    requires
        data@.len() <= BASE64_INPUT_MAX,
    ensures
        text@ == base64_encoded(data@),
{
    ::base64::encode(data).into_bytes()
}

/// Calls `base64::decode`.  The contract gives what it returns the name
/// `base64_decoded`, of the text handed in: the bytes where it returns
/// `Ok`, `None` where it returns any error.  The call panics where a size
/// computed from the length of the text overflows, which the bound on the
/// input rules out.
#[verifier::external_body]
pub(crate) fn decode(text: &[u8]) -> (data: Option<Vec<u8>>)
    requires
        text@.len() <= BASE64_INPUT_MAX,
    ensures
        match base64_decoded(text@) {
            Some(d) => data.is_some() && data.unwrap()@ == d,
            None => data.is_none(),
        },
{
    ::base64::decode(text).ok()
}

} // verus!
