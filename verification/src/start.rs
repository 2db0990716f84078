//! The block from which a run starts.

use crate::digits::{parse_u64, parsed_u64};
use crate::hexadecimal::{
    decode_hex, encode_hex, hex_decoded, hex_encoded, is_hex_text, lemma_hex_round_trip,
};
use vstd::array::{array_as_slice, spec_array_fill_for_copy_type};
use vstd::prelude::*;
use vstd::slice::slice_subrange;
use vstd::string::StringSliceAdditionalSpecFns;

verus! {

/// Number of bytes in a block hash.
pub const HASH_LEN: usize = 32;

/// The hash of a block, or of the state after it.
#[derive(Clone, Copy, Debug, PartialEq, Eq)]
pub struct BlockHash {
    pub bytes: [u8; 32],
}

/// Where a run starts, as far as the text of the request settles it.
#[derive(Clone, Copy, Debug, PartialEq, Eq)]
pub enum StartPoint {
    /// No block was named: the run starts at the tip of the chain, which the
    /// chain client reports.
    Tip,
    /// The block with this hash.
    Hash(BlockHash),
    /// The block at this height, whose hash the chain client looks up.
    Height(u64),
}

/// Why no starting block could be found.
#[derive(Clone, Copy, Debug, PartialEq, Eq)]
pub enum ResolutionError {
    /// The text after `0x` is not an even number of hexadecimal digits.
    InvalidHashEncoding,
    /// The text after `0x` does not stand for exactly 32 bytes.
    InvalidHashLength,
    /// The text is neither marked as a hash nor a block height in decimal.
    InvalidHeight,
    /// The chain holds no block at the requested height.
    BlockNotFound,
}

impl ResolutionError {
    /// The text shown to the user for this error.
    pub fn message(&self) -> (text: String)
        ensures
            *self == ResolutionError::InvalidHashEncoding ==> text@ == "invalid hash encoding"@,
            *self == ResolutionError::InvalidHashLength ==> text@ == "invalid hash length"@,
            *self == ResolutionError::InvalidHeight ==> text@ == "invalid block height"@,
            *self == ResolutionError::BlockNotFound ==> text@ == "block not found"@,
    {
        match self {
            ResolutionError::InvalidHashEncoding => "invalid hash encoding".to_string(),
            ResolutionError::InvalidHashLength => "invalid hash length".to_string(),
            ResolutionError::InvalidHeight => "invalid block height".to_string(),
            ResolutionError::BlockNotFound => "block not found".to_string(),
        }
    }
}

/// Whether `text` begins with the marker `0x` of a hash.
pub open spec fn has_hex_marker(text: Seq<u8>) -> bool {
    text.len() >= 2 && text[0] == 48 && text[1] == 120
}

/// What the text of a start request must resolve to.
///
/// Text marked with `0x` is a hash: the digits after the marker must be
/// hexadecimal text for exactly 32 bytes, and those bytes are the hash. All
/// other text is a block height in decimal.
pub open spec fn start_point_matches(
    text: Seq<u8>,
    point: Result<StartPoint, ResolutionError>,
) -> bool {
    if has_hex_marker(text) {
        let digits = text.skip(2);
        if !is_hex_text(digits) {
            point == Err::<StartPoint, ResolutionError>(ResolutionError::InvalidHashEncoding)
        } else if digits.len() != 2 * HASH_LEN {
            point == Err::<StartPoint, ResolutionError>(ResolutionError::InvalidHashLength)
        } else {
            point matches Ok(StartPoint::Hash(hash)) && hash.bytes@ == hex_decoded(digits)
        }
    } else {
        match parsed_u64(text) {
            Some(height) => point == Ok::<StartPoint, ResolutionError>(StartPoint::Height(height)),
            None => point == Err::<StartPoint, ResolutionError>(ResolutionError::InvalidHeight),
        }
    }
}

impl BlockHash {
    /// The hash whose bytes are all zero. It stands where no block is meant.
    pub open spec fn zero() -> BlockHash {
        BlockHash { bytes: spec_array_fill_for_copy_type(0u8) }
    }

    /// The hash whose bytes are all zero.
    pub fn zeroed() -> (hash: BlockHash)
        ensures
            hash == BlockHash::zero(),
    {
        BlockHash { bytes: [0u8; 32] }
    }

    /// The text of this hash: `0x` and its bytes as 64 lower-case hexadecimal
    /// digits.
    pub open spec fn text(self) -> Seq<u8> {
        seq![48u8, 120u8] + hex_encoded(self.bytes@)
    }

    /// The text of this hash: `0x` and its bytes as 64 lower-case hexadecimal
    /// digits.
    pub fn to_text(&self) -> (text: Vec<u8>)
        ensures
            text@ == self.text(),
    {
        let mut out: Vec<u8> = Vec::new();
        out.push(48);
        out.push(120);
        let mut digits: Vec<u8> = encode_hex(array_as_slice(&self.bytes));
        out.append(&mut digits);
        assert(out@ =~= self.text());
        out
    }

    /// The hash made of the 32 bytes of `bytes`, in their order.
    pub(crate) fn from_slice(bytes: &[u8]) -> (hash: BlockHash)
        requires
            bytes@.len() == HASH_LEN,
        ensures
            hash.bytes@ == bytes@,
    {
        let mut out: [u8; 32] = [0u8; 32];
        let mut i: usize = 0;
        while i < 32
            invariant
                0 <= i <= 32,
                bytes@.len() == 32,
                forall|j: int| 0 <= j < i ==> out@[j] == bytes@[j],
            decreases 32 - i,
        {
            out[i] = bytes[i];
            i = i + 1;
        }
        assert(out@ =~= bytes@);
        BlockHash { bytes: out }
    }
}

/// The text of a hash, given as a start request, resolves to that hash.
pub proof fn lemma_hash_text_resolves(hash: BlockHash, point: Result<StartPoint, ResolutionError>)
    requires
        start_point_matches(hash.text(), point),
    ensures
        point == Ok::<StartPoint, ResolutionError>(StartPoint::Hash(hash)),
{
    let text = hash.text();
    lemma_hex_round_trip(hash.bytes@);
    assert(has_hex_marker(text));
    assert(text.skip(2) =~= hex_encoded(hash.bytes@));
    assert(hash.bytes@.len() == 32);
    let found = point->Ok_0->Hash_0;
    assert(found.bytes@ =~= hash.bytes@);
    assert(found.bytes == hash.bytes);
}

/// Resolves the text of a start request as far as it can be without the
/// chain: to the tip when no block is named, to the hash that the text spells
/// out, or to the height whose hash is to be looked up.
pub fn resolve_start_point(start: Option<&str>) -> (point: Result<StartPoint, ResolutionError>)
    ensures
        start is None ==> point == Ok::<StartPoint, ResolutionError>(StartPoint::Tip),
        start matches Some(text) ==> start_point_matches(text.spec_bytes(), point),
{
    match start {
        None => Ok(StartPoint::Tip),
        Some(text) => {
            let bytes: &[u8] = text.as_bytes();
            if bytes.len() >= 2 && bytes[0] == 48 && bytes[1] == 120 {
                let digits: &[u8] = slice_subrange(bytes, 2, bytes.len());
                assert(digits@ =~= bytes@.skip(2));
                match decode_hex(digits) {
                    Err(_) => Err(ResolutionError::InvalidHashEncoding),
                    Ok(decoded) => {
                        if decoded.len() != HASH_LEN {
                            Err(ResolutionError::InvalidHashLength)
                        } else {
                            Ok(StartPoint::Hash(BlockHash::from_slice(decoded.as_slice())))
                        }
                    },
                }
            } else {
                match parse_u64(bytes) {
                    Some(height) => Ok(StartPoint::Height(height)),
                    None => Err(ResolutionError::InvalidHeight),
                }
            }
        },
    }
}

} // verus!
