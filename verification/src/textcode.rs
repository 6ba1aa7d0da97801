use vstd::prelude::*;

verus! {

/// The z-base-32 text produced by `base32::encode` for a byte string.
pub uninterp spec fn zbase32_of(data: Seq<u8>) -> Seq<char>;

/// The bytes recovered by `base32::decode` from z-base-32 text, `None` when
/// the text is not valid z-base-32.
pub uninterp spec fn zbase32_decoded(text: Seq<char>) -> Option<Seq<u8>>;

/// Relies on `base32::encode` with the z-base-32 alphabet: the output is a
/// deterministic function of the input bytes alone, and `base32::decode`
/// recovers exactly the input bytes from it (the encoding is unpadded and
/// reversible).
#[verifier::external_body]
pub fn encode(data: &[u8]) -> (r: String)
    ensures
        r@ == zbase32_of(data@),
        zbase32_decoded(r@) == Some(data@),
{
    base32::encode(base32::Alphabet::Z, data)
}

/// Relies on `base32::decode` with the z-base-32 alphabet: the result is a
/// deterministic function of the input text alone; text containing a
/// character outside the alphabet gives `None`.
#[verifier::external_body]
pub fn decode(data: &str) -> (r: Option<Vec<u8>>)
    ensures
        r matches Some(v) ==> zbase32_decoded(data@) == Some(v@),
        r is None ==> zbase32_decoded(data@) is None,
{
    base32::decode(base32::Alphabet::Z, data)
}

} // verus!
