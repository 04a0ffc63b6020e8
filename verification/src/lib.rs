//! A minimal proof-of-work blockchain ledger: a canonical little-endian byte
//! codec, SHA-256 based block hashing, a mining search, and an append-only
//! chain validator that maintains the set of unspent transaction outputs.

use vstd::prelude::*;

mod block;
mod blockchain;
mod hashable;
pub mod transaction;

pub use crate::block::check_difficulty;
pub use crate::block::Block;
pub use crate::blockchain::BlockValidationErr;
pub use crate::blockchain::Blockchain;
pub use crate::hashable::sha256_of;
pub use crate::hashable::Hashable;
pub use crate::transaction::Transaction;

verus! {

/// An opaque recipient identifier; any UTF-8 string, not validated.
pub type Address = String;

/// A 32-byte SHA-256 digest, owned as a byte vector.
pub type BlockHash = Vec<u8>;

// ---------------------------------------------------------------------------
// Canonical little-endian encodings.
//
// Every multi-byte integer in the serialization format is laid out
// little-endian with a fixed width: u32 -> 4 bytes, u64 -> 8 bytes,
// u128 -> 16 bytes.
// ---------------------------------------------------------------------------

/// The 4-byte little-endian encoding of a 32-bit value.
pub open spec fn u32_le(data: u32) -> Seq<u8> {
    seq![
        (data & 0xff) as u8,
        ((data >> 8) & 0xff) as u8,
        ((data >> 16) & 0xff) as u8,
        ((data >> 24) & 0xff) as u8,
    ]
}

/// The 8-byte little-endian encoding of a 64-bit value.
pub open spec fn u64_le(data: u64) -> Seq<u8> {
    seq![
        (data & 0xff) as u8,
        ((data >> 8) & 0xff) as u8,
        ((data >> 16) & 0xff) as u8,
        ((data >> 24) & 0xff) as u8,
        ((data >> 32) & 0xff) as u8,
        ((data >> 40) & 0xff) as u8,
        ((data >> 48) & 0xff) as u8,
        ((data >> 56) & 0xff) as u8,
    ]
}

/// The 16-byte little-endian encoding of a 128-bit value.
pub open spec fn u128_le(data: u128) -> Seq<u8> {
    seq![
        (data & 0xff) as u8,
        ((data >> 8) & 0xff) as u8,
        ((data >> 16) & 0xff) as u8,
        ((data >> 24) & 0xff) as u8,
        ((data >> 32) & 0xff) as u8,
        ((data >> 40) & 0xff) as u8,
        ((data >> 48) & 0xff) as u8,
        ((data >> 56) & 0xff) as u8,
        ((data >> 64) & 0xff) as u8,
        ((data >> 72) & 0xff) as u8,
        ((data >> 80) & 0xff) as u8,
        ((data >> 88) & 0xff) as u8,
        ((data >> 96) & 0xff) as u8,
        ((data >> 104) & 0xff) as u8,
        ((data >> 112) & 0xff) as u8,
        ((data >> 120) & 0xff) as u8,
    ]
}

/// The 32-bit value whose little-endian encoding is the 4-byte sequence `s`.
pub open spec fn u32_of_le(s: Seq<u8>) -> u32
    recommends
        s.len() == 4,
{
    (s[0] as u32) | ((s[1] as u32) << 8) | ((s[2] as u32) << 16) | ((s[3] as u32) << 24)
}

/// The 64-bit value whose little-endian encoding is the 8-byte sequence `s`.
pub open spec fn u64_of_le(s: Seq<u8>) -> u64
    recommends
        s.len() == 8,
{
    (s[0] as u64) | ((s[1] as u64) << 8) | ((s[2] as u64) << 16) | ((s[3] as u64) << 24)
        | ((s[4] as u64) << 32) | ((s[5] as u64) << 40) | ((s[6] as u64) << 48)
        | ((s[7] as u64) << 56)
}

/// The 128-bit value whose little-endian encoding is the 16-byte sequence `s`.
pub open spec fn u128_of_le(s: Seq<u8>) -> u128
    recommends
        s.len() == 16,
{
    (s[0] as u128) | ((s[1] as u128) << 8) | ((s[2] as u128) << 16) | ((s[3] as u128) << 24)
        | ((s[4] as u128) << 32) | ((s[5] as u128) << 40) | ((s[6] as u128) << 48)
        | ((s[7] as u128) << 56) | ((s[8] as u128) << 64) | ((s[9] as u128) << 72)
        | ((s[10] as u128) << 80) | ((s[11] as u128) << 88) | ((s[12] as u128) << 96)
        | ((s[13] as u128) << 104) | ((s[14] as u128) << 112) | ((s[15] as u128) << 120)
}

/// The most significant 16 bytes of a 32-byte digest, reassembled as a
/// little-endian 128-bit value.  A digest satisfies a difficulty target
/// exactly when this value is strictly below the target.
pub open spec fn top16_as_u128(s: Seq<u8>) -> u128
    recommends
        s.len() == 32,
{
    u128_of_le(s.skip(16))
}

/// Returns the little-endian array of the data's 4 bytes.
pub fn u32_bytes(data: u32) -> (r: [u8; 4])
    ensures
        r@ == u32_le(data),
{
    let r: [u8; 4] = [
        (data & 0xff) as u8,
        ((data >> 8) & 0xff) as u8,
        ((data >> 16) & 0xff) as u8,
        ((data >> 24) & 0xff) as u8,
    ];
    assert(r@ =~= u32_le(data));
    r
}

/// Returns the little-endian array of the data's 8 bytes.
pub fn u64_bytes(data: u64) -> (r: [u8; 8])
    ensures
        r@ == u64_le(data),
{
    let r: [u8; 8] = [
        (data & 0xff) as u8,
        ((data >> 8) & 0xff) as u8,
        ((data >> 16) & 0xff) as u8,
        ((data >> 24) & 0xff) as u8,
        ((data >> 32) & 0xff) as u8,
        ((data >> 40) & 0xff) as u8,
        ((data >> 48) & 0xff) as u8,
        ((data >> 56) & 0xff) as u8,
    ];
    assert(r@ =~= u64_le(data));
    r
}

/// Returns the little-endian array of the data's 16 bytes.
pub fn u128_bytes(data: u128) -> (r: [u8; 16])
    ensures
        r@ == u128_le(data),
{
    let r: [u8; 16] = [
        (data & 0xff) as u8,
        ((data >> 8) & 0xff) as u8,
        ((data >> 16) & 0xff) as u8,
        ((data >> 24) & 0xff) as u8,
        ((data >> 32) & 0xff) as u8,
        ((data >> 40) & 0xff) as u8,
        ((data >> 48) & 0xff) as u8,
        ((data >> 56) & 0xff) as u8,
        ((data >> 64) & 0xff) as u8,
        ((data >> 72) & 0xff) as u8,
        ((data >> 80) & 0xff) as u8,
        ((data >> 88) & 0xff) as u8,
        ((data >> 96) & 0xff) as u8,
        ((data >> 104) & 0xff) as u8,
        ((data >> 112) & 0xff) as u8,
        ((data >> 120) & 0xff) as u8,
    ];
    assert(r@ =~= u128_le(data));
    r
}

/// Reads the most significant 16 bytes of a 32-byte digest as a
/// little-endian u128, the value that is compared against a difficulty
/// target.
pub fn difficulty_bytes_as_u128(v: &[u8]) -> (r: u128)
    requires
        v@.len() == 32,
    ensures
        r == top16_as_u128(v@),
{
    let r: u128 = (v[16] as u128)
        | (v[17] as u128) << 8
        | (v[18] as u128) << 16
        | (v[19] as u128) << 24
        | (v[20] as u128) << 32
        | (v[21] as u128) << 40
        | (v[22] as u128) << 48
        | (v[23] as u128) << 56
        | (v[24] as u128) << 64
        | (v[25] as u128) << 72
        | (v[26] as u128) << 80
        | (v[27] as u128) << 88
        | (v[28] as u128) << 96
        | (v[29] as u128) << 104
        | (v[30] as u128) << 112
        | (v[31] as u128) << 120;
    assert(r == top16_as_u128(v@)) by {
        assert(forall|i: int| 0 <= i < 16 ==> v@.skip(16)[i] == v@[16 + i]);
    };
    r
}

/// Appends every byte of `src` to `dst`, in order.
pub(crate) fn append_bytes(dst: &mut Vec<u8>, src: &[u8])
    ensures
        final(dst)@ == old(dst)@ + src@,
{
    let mut i: usize = 0;
    while i < src.len()
        invariant
            i <= src@.len(),
            dst@ == old(dst)@ + src@.take(i as int),
        decreases src@.len() - i,
    {
        dst.push(src[i]);
        i = i + 1;
        assert(dst@ =~= old(dst)@ + src@.take(i as int));
    }
    assert(dst@ =~= old(dst)@ + src@);
}

/// Law: decoding the little-endian encoding of a 32-bit value gives the
/// value back.
pub proof fn lemma_u32_le_round_trip(data: u32)
    ensures
        u32_of_le(u32_le(data)) == data,
{
    assert(((data & 0xff) as u8 as u32) | ((((data >> 8) & 0xff) as u8 as u32) << 8)
        | ((((data >> 16) & 0xff) as u8 as u32) << 16)
        | ((((data >> 24) & 0xff) as u8 as u32) << 24) == data) by (bit_vector);
}

/// Law: decoding the little-endian encoding of a 64-bit value gives the
/// value back.
pub proof fn lemma_u64_le_round_trip(data: u64)
    ensures
        u64_of_le(u64_le(data)) == data,
{
    assert(((data & 0xff) as u8 as u64) | ((((data >> 8) & 0xff) as u8 as u64) << 8)
        | ((((data >> 16) & 0xff) as u8 as u64) << 16)
        | ((((data >> 24) & 0xff) as u8 as u64) << 24)
        | ((((data >> 32) & 0xff) as u8 as u64) << 32)
        | ((((data >> 40) & 0xff) as u8 as u64) << 40)
        | ((((data >> 48) & 0xff) as u8 as u64) << 48)
        | ((((data >> 56) & 0xff) as u8 as u64) << 56) == data) by (bit_vector);
}

/// Law: decoding the little-endian encoding of a 128-bit value gives the
/// value back.
pub proof fn lemma_u128_le_round_trip(data: u128)
    ensures
        u128_of_le(u128_le(data)) == data,
{
    assert(((data & 0xff) as u8 as u128) | ((((data >> 8) & 0xff) as u8 as u128) << 8)
        | ((((data >> 16) & 0xff) as u8 as u128) << 16)
        | ((((data >> 24) & 0xff) as u8 as u128) << 24)
        | ((((data >> 32) & 0xff) as u8 as u128) << 32)
        | ((((data >> 40) & 0xff) as u8 as u128) << 40)
        | ((((data >> 48) & 0xff) as u8 as u128) << 48)
        | ((((data >> 56) & 0xff) as u8 as u128) << 56)
        | ((((data >> 64) & 0xff) as u8 as u128) << 64)
        | ((((data >> 72) & 0xff) as u8 as u128) << 72)
        | ((((data >> 80) & 0xff) as u8 as u128) << 80)
        | ((((data >> 88) & 0xff) as u8 as u128) << 88)
        | ((((data >> 96) & 0xff) as u8 as u128) << 96)
        | ((((data >> 104) & 0xff) as u8 as u128) << 104)
        | ((((data >> 112) & 0xff) as u8 as u128) << 112)
        | ((((data >> 120) & 0xff) as u8 as u128) << 120) == data) by (bit_vector);
}

} // verus!
