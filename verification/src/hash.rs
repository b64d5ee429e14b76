//! Content hashes: BLAKE3 digests of thirty-two bytes.

use vstd::prelude::*;
use crate::hex::{decode, encode, hex_of, unhex, lemma_unhex_hex_of};

verus! {

/// Number of bytes in a digest.
pub const HASH_LEN: usize = 32;

/// The BLAKE3 digest of a byte string: what a hasher of the `blake3` crate
/// gives once it has been fed exactly these bytes.
pub uninterp spec fn blake3_digest(input: Seq<u8>) -> Seq<u8>;

/// `blake3::Hasher`, the incremental hasher of the `blake3` crate. Nothing of
/// its inside is known here but the bytes it has been fed.
#[verifier::external_type_specification]
#[verifier::external_body]
pub struct ExHasher(blake3::Hasher);

/// The bytes that have been fed to a hasher since it was made.
pub uninterp spec fn hasher_input(hasher: blake3::Hasher) -> Seq<u8>;

/// `blake3::Hasher::new`: a hasher of the regular hash function that has been
/// fed nothing yet.
#[verifier::external_body]
pub(crate) fn hasher_new() -> (hasher: blake3::Hasher)
    ensures
        hasher_input(hasher) == Seq::<u8>::empty(),
{
    blake3::Hasher::new()
}

/// `blake3::Hasher::update`: feeds `input` to the hasher, after what it was
/// fed before.
#[verifier::external_body]
pub(crate) fn hasher_update(hasher: &mut blake3::Hasher, input: &[u8])
    ensures
        hasher_input(*final(hasher)) == hasher_input(*old(hasher)) + input@,
{
    hasher.update(input);
}

/// `blake3::Hasher::finalize`: the digest of everything the hasher was fed,
/// copied out of the crate's hash value. It depends on those bytes alone, not
/// on how they were split over the calls that fed them.
#[verifier::external_body]
pub(crate) fn hasher_finalize(hasher: &blake3::Hasher) -> (r: [u8; 32])
    ensures
        r@ == blake3_digest(hasher_input(*hasher)),
{
    *hasher.finalize().as_bytes()
}

/// Why a text is not the hexadecimal form of a hash.
#[derive(Clone, Copy, Debug, PartialEq, Eq, Structural)]
pub enum HashParseError {
    /// The text does not have sixty-four characters.
    InvalidLength,
    /// The text has sixty-four characters, one of which is no hexadecimal digit.
    InvalidDigit,
}

/// The identity of a module or of a blueprint.
#[derive(Clone, Copy, Debug, PartialEq, Eq, Hash)]
pub struct Hash {
    bytes: [u8; 32],
}

impl View for Hash {
    type V = Seq<u8>;

    closed spec fn view(&self) -> Seq<u8> {
        self.bytes@
    }
}

/// What `Hash::from_hex` returns for `text`.
pub open spec fn parse_hash(text: Seq<char>) -> Result<Seq<u8>, HashParseError> {
    if text.len() != 2 * HASH_LEN {
        Err(HashParseError::InvalidLength)
    } else {
        match unhex(text) {
            Some(bytes) => Ok(bytes),
            None => Err(HashParseError::InvalidDigit),
        }
    }
}

impl Hash {
    /// Every hash has thirty-two bytes.
    pub proof fn lemma_len(self)
        ensures
            self@.len() == HASH_LEN,
    {
    }

    /// The hash of `bytes`.
    pub fn hash(bytes: &[u8]) -> (h: Hash)
        ensures
            h@ == blake3_digest(bytes@),
    {
        let mut hasher = hasher_new();
        hasher_update(&mut hasher, bytes);
        Hash { bytes: hasher_finalize(&hasher) }
    }

    /// The hash whose bytes are `bytes`.
    pub fn from_bytes(bytes: [u8; 32]) -> (h: Hash)
        ensures
            h@ == bytes@,
    {
        Hash { bytes }
    }

    /// The thirty-two bytes of the hash.
    pub fn as_bytes(&self) -> (r: &[u8; 32])
        ensures
            r@ == self@,
    {
        &self.bytes
    }

    /// The hash as sixty-four lowercase hexadecimal digits.
    pub fn to_hex(&self) -> (r: String)
        ensures
            r@ == hex_of(self@),
            r@.len() == 2 * HASH_LEN,
    {
        encode(self.bytes.as_slice())
    }

    /// Reads a hash from sixty-four hexadecimal digits, in either case.
    pub fn from_hex(text: &str) -> (r: Result<Hash, HashParseError>)
        ensures
            match r {
                Ok(h) => parse_hash(text@) == Ok::<Seq<u8>, HashParseError>(h@),
                Err(e) => parse_hash(text@) == Err::<Seq<u8>, HashParseError>(e),
            },
    {
        if text.unicode_len() != 64 {
            return Err(HashParseError::InvalidLength);
        }
        match decode(text) {
            None => Err(HashParseError::InvalidDigit),
            Some(v) => {
                let mut bytes: [u8; 32] = [0u8; 32];
                let mut i: usize = 0;
                while i < 32
                    invariant
                        i <= 32,
                        v@.len() == 32,
                        forall|k: int| 0 <= k < i ==> bytes@[k] == v@[k],
                    decreases 32 - i,
                {
                    bytes[i] = v[i];
                    i += 1;
                }
                assert(bytes@ =~= v@);
                Ok(Hash { bytes })
            },
        }
    }
}

/// A hash read back from its own hexadecimal form is the same hash.
pub proof fn lemma_hash_hex_round_trip(h: Hash)
    ensures
        parse_hash(hex_of(h@)) == Ok::<Seq<u8>, HashParseError>(h@),
{
    lemma_unhex_hex_of(h@);
}

} // verus!
