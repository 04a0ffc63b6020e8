use vstd::prelude::*;

use crate::hashable::{sha256_of, Hashable};
use crate::transaction::{tx_preimage, Transaction};
use crate::{
    append_bytes, difficulty_bytes_as_u128, top16_as_u128, u128_bytes, u128_le, u32_bytes, u32_le,
    u64_bytes, u64_le, BlockHash,
};

verus! {

/// The mined unit of the ledger: header-like fields plus an ordered
/// transaction list.
///
/// `index` is the block's 0-based position in the chain; `timestamp` is an
/// opaque strictly-increasing quantity; `previous_block_hash` links the
/// block to its predecessor (32 zero bytes for the genesis block); `nonce`
/// is the mining search variable; `difficulty` is the target that the top
/// 16 bytes of the block's digest must stay strictly below; `hash` holds
/// the digest found by mining and is initialized to 32 zero bytes.
#[derive(Debug, PartialEq)]
pub struct Block {
    pub index: u32,
    pub timestamp: u128,
    pub hash: BlockHash,
    pub previous_block_hash: BlockHash,
    pub nonce: u64,
    pub transactions: Vec<Transaction>,
    pub difficulty: u128,
}

/// The canonical bytes of a sequence of transactions: each transaction's
/// preimage concatenated in order, with no separators and no counts.
pub open spec fn txs_preimage(s: Seq<Transaction>) -> Seq<u8>
    decreases s.len(),
{
    if s.len() == 0 {
        Seq::empty()
    } else {
        txs_preimage(s.drop_last()) + tx_preimage(s.last())
    }
}

/// The canonical bytes of a block, the SHA-256 preimage: little-endian
/// index, timestamp, the previous block's hash, little-endian nonce, the
/// transactions' bytes, and the little-endian difficulty.  The block's own
/// `hash` field is not part of its preimage.
pub open spec fn block_preimage(b: Block) -> Seq<u8> {
    u32_le(b.index) + u128_le(b.timestamp) + b.previous_block_hash@ + u64_le(b.nonce)
        + txs_preimage(b.transactions@) + u128_le(b.difficulty)
}

/// `b` with its nonce replaced by `nonce`, all other fields unchanged.
pub open spec fn with_nonce(b: Block, nonce: u64) -> Block {
    Block { nonce, ..b }
}

/// True when nonce `n` unlocks block `b`: the digest of `b`'s preimage
/// taken with nonce `n` satisfies `b`'s difficulty target.
pub open spec fn nonce_found(b: Block, n: u64) -> bool {
    top16_as_u128(sha256_of(block_preimage(with_nonce(b, n)))) < b.difficulty
}

/// What a successful mining run on `b` leaves behind: the numerically
/// smallest unlocking nonce, together with the digest of the preimage
/// taken with that nonce.
pub open spec fn mined_outcome(b: Block, nonce: u64, hash: Seq<u8>) -> bool {
    &&& nonce_found(b, nonce)
    &&& (forall|k: u64| k < nonce ==> !nonce_found(b, k))
    &&& hash == sha256_of(block_preimage(with_nonce(b, nonce)))
}

/// A sequence of 32 zero bytes: the hash placeholder of a fresh block and
/// the required previous-hash of a genesis block.
pub open spec fn zero_hash_seq() -> Seq<u8> {
    Seq::new(32, |i: int| 0u8)
}

/// Returns a vector of 32 zero bytes.
pub(crate) fn zero_hash() -> (r: BlockHash)
    ensures
        r@ == zero_hash_seq(),
{
    let mut r: Vec<u8> = Vec::new();
    let mut i: usize = 0;
    while i < 32
        invariant
            i <= 32,
            r@.len() == i,
            forall|j: int| 0 <= j < i ==> r@[j] == 0u8,
        decreases 32 - i,
    {
        r.push(0u8);
        i = i + 1;
    }
    assert(r@ =~= zero_hash_seq());
    r
}

/// Appends the canonical bytes of every transaction in `txs` to `dst`, in
/// order.
fn append_txs(dst: &mut Vec<u8>, txs: &Vec<Transaction>)
    ensures
        final(dst)@ == old(dst)@ + txs_preimage(txs@),
{
    let mut i: usize = 0;
    while i < txs.len()
        invariant
            i <= txs@.len(),
            dst@ == old(dst)@ + txs_preimage(txs@.take(i as int)),
        decreases txs@.len() - i,
    {
        let tb = txs[i].bytes();
        append_bytes(dst, tb.as_slice());
        i = i + 1;
        proof {
            assert(txs@.take(i as int).drop_last() =~= txs@.take(i as int - 1));
            assert(txs@.take(i as int).last() == txs@[i as int - 1]);
            assert(dst@ =~= old(dst)@ + txs_preimage(txs@.take(i as int)));
        }
    }
    assert(txs@.take(txs@.len() as int) =~= txs@);
}

impl Block {
    /// Creates a block with the given attributes.  The nonce starts at 0
    /// and the hash is initialized to a vector of 32 zeros.
    pub fn new(
        index: u32,
        timestamp: u128,
        previous_block_hash: BlockHash,
        transactions: Vec<Transaction>,
        difficulty: u128,
    ) -> (r: Block)
        ensures
            r.index == index,
            r.timestamp == timestamp,
            r.hash@ == zero_hash_seq(),
            r.previous_block_hash == previous_block_hash,
            r.nonce == 0,
            r.transactions == transactions,
            r.difficulty == difficulty,
    {
        Block {
            index,
            timestamp,
            hash: zero_hash(),
            previous_block_hash,
            nonce: 0,
            transactions,
            difficulty,
        }
    }

    /// A one-line human-readable account of the block, with the stored
    /// hash rendered in lowercase hexadecimal.  Relies on `hex::encode`
    /// for that rendering; nothing is proved about the returned text.
    #[verifier::external_body]
    pub fn describe(&self) -> String {
        format!(
            "Block[{}]: hash {}, timestamp {}, {} transaction(s), nonce {}",
            self.index,
            hex::encode(&self.hash),
            self.timestamp,
            self.transactions.len(),
            self.nonce,
        )
    }

    /// Performs the mining search: tries nonces 0, 1, 2, ... in order and,
    /// at the first one whose digest satisfies the difficulty, stores that
    /// nonce and digest and stops.  Every other field is left unchanged.
    /// If no nonce in range unlocks the block, the hash is left unchanged.
    pub fn mine(&mut self)
        ensures
            final(self).index == old(self).index,
            final(self).timestamp == old(self).timestamp,
            final(self).previous_block_hash == old(self).previous_block_hash,
            final(self).transactions == old(self).transactions,
            final(self).difficulty == old(self).difficulty,
            (exists|n: u64| n < u64::MAX && nonce_found(*old(self), n)) ==> {
                &&& final(self).nonce < u64::MAX
                &&& mined_outcome(*old(self), final(self).nonce, final(self).hash@)
                &&& final(self).hash@ == sha256_of(block_preimage(*final(self)))
                &&& top16_as_u128(final(self).hash@) < final(self).difficulty
            },
            !(exists|n: u64| n < u64::MAX && nonce_found(*old(self), n)) ==> final(self).hash
                == old(self).hash,
    {
        let mut nonce_attempt: u64 = 0;
        while nonce_attempt < u64::MAX
            invariant
                self.index == old(self).index,
                self.timestamp == old(self).timestamp,
                self.previous_block_hash == old(self).previous_block_hash,
                self.transactions == old(self).transactions,
                self.difficulty == old(self).difficulty,
                self.hash == old(self).hash,
                forall|k: u64| k < nonce_attempt ==> !nonce_found(*old(self), k),
            decreases u64::MAX - nonce_attempt,
        {
            self.nonce = nonce_attempt;
            proof {
                assert(block_preimage(*self) =~= block_preimage(
                    with_nonce(*old(self), nonce_attempt),
                ));
            }
            let hash = self.hash();
            if check_difficulty(hash.as_slice(), self.difficulty) {
                self.hash = hash;
                proof {
                    assert(block_preimage(*self) =~= block_preimage(
                        with_nonce(*old(self), nonce_attempt),
                    ));
                }
                return;
            }
            nonce_attempt = nonce_attempt + 1;
        }
    }
}

impl Hashable for Block {
    open spec fn bytes_spec(&self) -> Seq<u8> {
        block_preimage(*self)
    }

    /// Returns a vector of hashable bytes that represents the block.
    fn bytes(&self) -> (r: Vec<u8>) {
        let mut bytes: Vec<u8> = Vec::new();
        let index_bytes = u32_bytes(self.index);
        append_bytes(&mut bytes, index_bytes.as_slice());
        let timestamp_bytes = u128_bytes(self.timestamp);
        append_bytes(&mut bytes, timestamp_bytes.as_slice());
        append_bytes(&mut bytes, self.previous_block_hash.as_slice());
        let nonce_bytes = u64_bytes(self.nonce);
        append_bytes(&mut bytes, nonce_bytes.as_slice());
        append_txs(&mut bytes, &self.transactions);
        let difficulty_bytes = u128_bytes(self.difficulty);
        append_bytes(&mut bytes, difficulty_bytes.as_slice());
        assert(bytes@ =~= block_preimage(*self));
        bytes
    }
}

/// Law: serializing the same block twice yields identical bytes.  Every
/// result of `bytes` on a block is the block's one canonical preimage.
pub proof fn lemma_block_bytes_deterministic(b: Block, r1: Seq<u8>, r2: Seq<u8>)
    requires
        r1 == block_preimage(b),
        r2 == block_preimage(b),
    ensures
        r1 == r2,
{
}

/// Law: mining is deterministic.  On two blocks with the same mining
/// inputs (every field but the nonce and the stored hash), a successful
/// search leaves the same nonce and the same hash.
pub proof fn lemma_mining_deterministic(
    b1: Block,
    b2: Block,
    n1: u64,
    h1: Seq<u8>,
    n2: u64,
    h2: Seq<u8>,
)
    requires
        b1.index == b2.index,
        b1.timestamp == b2.timestamp,
        b1.previous_block_hash@ == b2.previous_block_hash@,
        b1.transactions@ == b2.transactions@,
        b1.difficulty == b2.difficulty,
        mined_outcome(b1, n1, h1),
        mined_outcome(b2, n2, h2),
    ensures
        n1 == n2,
        h1 == h2,
{
    assert forall|n: u64| nonce_found(b1, n) <==> nonce_found(b2, n) by {
        assert(block_preimage(with_nonce(b1, n)) =~= block_preimage(with_nonce(b2, n)));
    }
    if n1 < n2 {
        assert(!nonce_found(b2, n1));
        assert(false);
    }
    if n2 < n1 {
        assert(!nonce_found(b1, n2));
        assert(false);
    }
    assert(block_preimage(with_nonce(b1, n1)) =~= block_preimage(with_nonce(b2, n2)));
}

/// Checks whether the most significant 16 bytes of the block's hash,
/// interpreted as a little-endian u128, are less than the given difficulty
/// value.  If so, the hash is considered "valid".
pub fn check_difficulty(hash: &[u8], difficulty: u128) -> (r: bool)
    requires
        hash@.len() == 32,
    ensures
        r == (top16_as_u128(hash@) < difficulty),
{
    difficulty > difficulty_bytes_as_u128(hash)
}

} // verus!
