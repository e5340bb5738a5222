//! Trusted wrappers around the bech32 address codec of `subtle_encoding`.
//!
//! A bech32 string is a human-readable prefix, a separator, and a
//! checksummed base32 payload. The engine re-encodes foreign-prefixed
//! addresses under the `cosmos` prefix before roster lookup; the codec
//! itself is taken on trust and its results are only named here.

use vstd::prelude::*;

verus! {

/// What `subtle_encoding::bech32::decode` returns for a string: the
/// human-readable part and the payload on success, nothing on malformed
/// input. The result depends on the input string alone.
pub uninterp spec fn bech32_decode(s: Seq<char>) -> Option<(Seq<char>, Seq<u8>)>;

/// What `subtle_encoding::bech32::encode` returns: the lower-case bech32
/// encoding of the payload under the given human-readable prefix, a
/// function of its two arguments alone.
pub uninterp spec fn bech32_encode(hrp: Seq<char>, data: Seq<u8>) -> Seq<char>;

/// Relies on `subtle_encoding::bech32::decode`: splits a lower-case
/// bech32 string into its human-readable part and payload, and fails
/// (rather than panics) on any malformed input: missing separator,
/// invalid character, bad checksum, trailing whitespace.
#[verifier::external_body]
pub(crate) fn decode(encoded: &str) -> (r: Option<(String, Vec<u8>)>)
    ensures
        match r {
            Some(pair) => bech32_decode(encoded@) == Some((pair.0@, pair.1@)),
            None => bech32_decode(encoded@) is None,
        },
{
    match subtle_encoding::bech32::decode(encoded) {
        Ok(pair) => Some(pair),
        Err(_) => None,
    }
}

/// Relies on `subtle_encoding::bech32::encode`: produces the lower-case
/// bech32 encoding of `data` under the prefix `hrp`, for every input.
#[verifier::external_body]
pub(crate) fn encode(hrp: &str, data: &Vec<u8>) -> (r: String)
    ensures
        r@ == bech32_encode(hrp@, data@),
{
    subtle_encoding::bech32::encode(hrp, data)
}

} // verus!
