//! The seed of a world: 32 bytes, written as base64 text.

use std::str::FromStr;
use vstd::prelude::*;

verus! {

/// Why a text is not a seed.
#[derive(Debug, Clone, Copy, PartialEq, Eq, Structural)]
pub enum SeedError {
    /// The text holds, at the given offset, a byte that base64 does not use.
    InvalidByte(usize, u8),
    /// The text has no length that base64 can have, or it does not decode
    /// to 32 bytes.
    InvalidLength,
    /// The last symbol of the text, at the given offset, carries bits that
    /// no encoder writes.
    InvalidLastSymbol(usize, u8),
}

/// What the standard base64 alphabet, with padding, decodes `text` to, or why
/// it does not decode.
pub uninterp spec fn base64_decoded(text: Seq<char>) -> Result<Seq<u8>, SeedError>;

/// The text that the standard base64 alphabet, with padding, encodes `bytes` to.
pub uninterp spec fn base64_encoded(bytes: Seq<u8>) -> Seq<char>;

/// The bytes or the error of a decoding, as plain values.
pub open spec fn decoded_view(decoded: Result<Vec<u8>, SeedError>) -> Result<Seq<u8>, SeedError> {
    match decoded {
        Ok(bytes) => Ok(bytes@),
        Err(error) => Err(error),
    }
}

/// `base64::decode`: the bytes that `text` stands for in standard base64, or
/// the error that the decoder reports, variant for variant. The result
/// depends on the text alone.
#[verifier::external_body]
fn base64_decode(text: &str) -> (decoded: Result<Vec<u8>, SeedError>)
    ensures
        decoded_view(decoded) == base64_decoded(text@),
{
    match base64::decode(text) {
        Ok(bytes) => Ok(bytes),
        Err(base64::DecodeError::InvalidByte(offset, byte)) => Err(
            SeedError::InvalidByte(offset, byte),
        ),
        Err(base64::DecodeError::InvalidLength) => Err(SeedError::InvalidLength),
        Err(base64::DecodeError::InvalidLastSymbol(offset, byte)) => Err(
            SeedError::InvalidLastSymbol(offset, byte),
        ),
    }
}

/// `base64::encode` on 32 bytes: their text in standard base64. The result
/// depends on the bytes alone.
#[verifier::external_body]
fn base64_encode(bytes: &[u8; 32]) -> (text: String)
    ensures
        text@ == base64_encoded(bytes@),
{
    base64::encode(bytes)
}

/// The seed from which a world is generated.
#[derive(Debug, Clone, Copy)]
pub struct Seed {
    pub raw_value: [u8; 32],
}

/// The raw bytes of the seed that a decoding gives: the decoded bytes where
/// there are exactly 32 of them, `InvalidLength` where there are more or
/// fewer, and the decoder's own error where it failed.
pub open spec fn seed_of_decoded(decoded: Result<Seq<u8>, SeedError>) -> Result<
    Seq<u8>,
    SeedError,
> {
    match decoded {
        Ok(bytes) => if bytes.len() == 32 {
            Ok(bytes)
        } else {
            Err(SeedError::InvalidLength)
        },
        Err(error) => Err(error),
    }
}

/// The raw bytes of a parsed seed, or the error, as plain values.
pub open spec fn seed_view(seed: Result<Seed, SeedError>) -> Result<Seq<u8>, SeedError> {
    match seed {
        Ok(seed) => Ok(seed.raw_value@),
        Err(error) => Err(error),
    }
}

impl Seed {
    /// Makes a seed of what a base64 decoder returned.
    pub fn from_decoded(decoded: Result<Vec<u8>, SeedError>) -> (seed: Result<Seed, SeedError>)
        ensures
            seed_view(seed) == seed_of_decoded(decoded_view(decoded)),
    {
        match decoded {
            Err(error) => Err(error),
            Ok(bytes) => {
                if bytes.len() != 32 {
                    Err(SeedError::InvalidLength)
                } else {
                    let mut raw_value: [u8; 32] = [0u8; 32];
                    let mut i: usize = 0;
                    while i < 32
                        invariant
                            i <= 32,
                            bytes@.len() == 32,
                            forall|j: int| 0 <= j < i ==> raw_value@[j] == bytes@[j],
                        decreases 32 - i,
                    {
                        raw_value[i] = bytes[i];
                        i += 1;
                    }
                    proof {
                        assert(raw_value@ =~= bytes@);
                    }
                    Ok(Seed { raw_value })
                }
            },
        }
    }

    /// Reads a seed from its base64 text.
    pub fn from_str(s: &str) -> (seed: Result<Seed, SeedError>)
        ensures
            seed_view(seed) == seed_of_decoded(base64_decoded(s@)),
    {
        Seed::from_decoded(base64_decode(s))
    }

    /// The base64 text of this seed.
    pub fn to_string(&self) -> (text: String)
        ensures
            text@ == base64_encoded(self.raw_value@),
    {
        base64_encode(&self.raw_value)
    }
}

impl FromStr for Seed {
    type Err = SeedError;

    /// Reads a seed from its base64 text, as the inherent `from_str` does.
    fn from_str(s: &str) -> (seed: Result<Seed, SeedError>)
        ensures
            seed_view(seed) == seed_of_decoded(base64_decoded(s@)),
    {
        Seed::from_str(s)
    }
}

} // verus!
