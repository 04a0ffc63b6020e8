use vstd::prelude::*;

use crate::block::{block_preimage, check_difficulty, zero_hash, zero_hash_seq, Block};
use crate::hashable::{sha256_of, Hashable};
use crate::transaction::{
    output_digest, output_digests, outputs_value, outputs_value_u128, Output, Transaction,
};
use crate::{top16_as_u128, BlockHash};

verus! {

/// The reason the validator rejected a candidate block.  The taxonomy is
/// flat and closed; within one append the checks run in a fixed order and
/// the first violation is the sole reported error.
#[derive(Debug, PartialEq, Eq, Structural)]
pub enum BlockValidationErr {
    MismatchedIndex,
    InvalidHash,
    AchronologicalTimestamp,
    MismatchedPreviousHash,
    InvalidGenesisBlockFormat,
    InvalidInput,
    InsufficientInputValue,
    InvalidCoinbaseTransaction,
    FeeExceedsCoinbaseTransactionOutputValue,
}

/// The set of byte strings held by a list of digests.
pub open spec fn digest_set(s: Seq<BlockHash>) -> Set<Seq<u8>> {
    s.map_values(|d: BlockHash| d@).to_set()
}

/// Every input of `t` is spendable: its digest occurs in `unspent`.
pub open spec fn tx_inputs_unspent(t: Transaction, unspent: Set<Seq<u8>>) -> bool {
    forall|i: int|
        0 <= i < t.inputs@.len() ==> unspent.contains(#[trigger] output_digest(t.inputs@[i]))
}

/// The error, if any, that a non-coinbase transaction raises when checked
/// against the pre-block unspent set `unspent`: spending an unavailable
/// output is reported before insufficient input value.
pub open spec fn tx_err(t: Transaction, unspent: Set<Seq<u8>>) -> Option<BlockValidationErr> {
    if !tx_inputs_unspent(t, unspent) {
        Some(BlockValidationErr::InvalidInput)
    } else if outputs_value(t.outputs@) > outputs_value(t.inputs@) {
        Some(BlockValidationErr::InsufficientInputValue)
    } else {
        None
    }
}

/// The first error, in order, among the non-coinbase transactions `s`,
/// each checked against the same pre-block unspent set.
pub open spec fn txs_err(s: Seq<Transaction>, unspent: Set<Seq<u8>>) -> Option<
    BlockValidationErr,
>
    decreases s.len(),
{
    if s.len() == 0 {
        None
    } else if txs_err(s.drop_last(), unspent) is Some {
        txs_err(s.drop_last(), unspent)
    } else {
        tx_err(s.last(), unspent)
    }
}

/// The total fee of the non-coinbase transactions `s`: the sum of each
/// transaction's input value minus its output value.
pub open spec fn txs_fee(s: Seq<Transaction>) -> int
    decreases s.len(),
{
    if s.len() == 0 {
        0
    } else {
        txs_fee(s.drop_last()) + outputs_value(s.last().inputs@) - outputs_value(
            s.last().outputs@,
        )
    }
}

/// The digests spent by the non-coinbase transactions `s`: those of all
/// their inputs.
pub open spec fn txs_spent(s: Seq<Transaction>) -> Set<Seq<u8>>
    decreases s.len(),
{
    if s.len() == 0 {
        Set::empty()
    } else {
        txs_spent(s.drop_last()).union(output_digests(s.last().inputs@))
    }
}

/// The digests created by the non-coinbase transactions `s`: those of all
/// their outputs.
pub open spec fn txs_created(s: Seq<Transaction>) -> Set<Seq<u8>>
    decreases s.len(),
{
    if s.len() == 0 {
        Set::empty()
    } else {
        txs_created(s.drop_last()).union(output_digests(s.last().outputs@))
    }
}

/// The validation state machine's verdict on candidate `b` against a
/// chain with blocks `blocks` and unspent set `unspent`: `None` means the
/// candidate is accepted; otherwise the first failing check, in the fixed
/// order, names the error.
///
/// The candidate's stored `hash` field is ignored; the digest of the
/// candidate's preimage is recomputed and is authoritative.  A successor,
/// however, links against the predecessor's stored field.
pub open spec fn block_err(blocks: Seq<Block>, unspent: Set<Seq<u8>>, b: Block) -> Option<
    BlockValidationErr,
> {
    if b.index != blocks.len() {
        Some(BlockValidationErr::MismatchedIndex)
    } else if !(top16_as_u128(sha256_of(block_preimage(b))) < b.difficulty) {
        Some(BlockValidationErr::InvalidHash)
    } else if blocks.len() == 0 && b.previous_block_hash@ != zero_hash_seq() {
        Some(BlockValidationErr::InvalidGenesisBlockFormat)
    } else if blocks.len() > 0 && b.timestamp <= blocks.last().timestamp {
        Some(BlockValidationErr::AchronologicalTimestamp)
    } else if blocks.len() > 0 && b.previous_block_hash@ != blocks.last().hash@ {
        Some(BlockValidationErr::MismatchedPreviousHash)
    } else if b.transactions@.len() == 0 {
        None
    } else if b.transactions@[0].inputs@.len() != 0 {
        Some(BlockValidationErr::InvalidCoinbaseTransaction)
    } else if txs_err(b.transactions@.drop_first(), unspent) is Some {
        txs_err(b.transactions@.drop_first(), unspent)
    } else if outputs_value(b.transactions@[0].outputs@) < txs_fee(
        b.transactions@.drop_first(),
    ) {
        Some(BlockValidationErr::FeeExceedsCoinbaseTransactionOutputValue)
    } else {
        None
    }
}

/// The unspent set after accepting `b`: the digests spent by its
/// non-coinbase transactions leave, then the digests created by all of
/// its transactions (the coinbase included) enter.  A block without
/// transactions leaves the set unchanged.
pub open spec fn apply_block(unspent: Set<Seq<u8>>, b: Block) -> Set<Seq<u8>> {
    if b.transactions@.len() == 0 {
        unspent
    } else {
        unspent.difference(txs_spent(b.transactions@.drop_first())).union(
            txs_created(b.transactions@.drop_first()),
        ).union(output_digests(b.transactions@[0].outputs@))
    }
}

/// The unspent set determined by a sequence of accepted blocks, starting
/// from the empty set.
pub open spec fn chain_unspent(blocks: Seq<Block>) -> Set<Seq<u8>>
    decreases blocks.len(),
{
    if blocks.len() == 0 {
        Set::empty()
    } else {
        apply_block(chain_unspent(blocks.drop_last()), blocks.last())
    }
}

/// The append-only ledger: an ordered list of blocks, together with the
/// set of digests of the currently spendable outputs.
pub struct Blockchain {
    pub blocks: Vec<Block>,
    pub unspent_outputs: Vec<BlockHash>,
}

impl Blockchain {
    /// The set of digests held in the unspent-output list.
    pub open spec fn unspent_set(self) -> Set<Seq<u8>> {
        digest_set(self.unspent_outputs@)
    }

    /// Well-formedness: every block present passed validation, at its
    /// position, against the chain before it, and the unspent-output list
    /// is the one determined by the accepted blocks.
    pub open spec fn wf(self) -> bool {
        &&& (forall|i: int|
            0 <= i < self.blocks@.len() ==> block_err(
                self.blocks@.take(i),
                chain_unspent(self.blocks@.take(i)),
                #[trigger] self.blocks@[i],
            ) is None)
        &&& self.unspent_set() == chain_unspent(self.blocks@)
    }

    /// Creates an empty chain: no blocks, no unspent outputs.
    pub fn new() -> (r: Self)
        ensures
            r.wf(),
            r.blocks@.len() == 0,
            r.unspent_set() == Set::<Seq<u8>>::empty(),
    {
        let r = Blockchain { blocks: Vec::new(), unspent_outputs: Vec::new() };
        proof {
            assert(r.unspent_set() =~= Set::<Seq<u8>>::empty());
        }
        r
    }

    /// Returns whether `index` is the genesis position.
    fn is_genesis_block(&self, index: usize) -> (r: bool)
        ensures
            r == (index == 0),
    {
        index == 0
    }

    /// The single append operation of the ledger.  The candidate runs
    /// through the ordered checks of the validation state machine; the
    /// first failing check names the error, and the chain and unspent set
    /// stay unchanged.  An accepted block is appended as given, and the
    /// unspent set is updated atomically.
    pub fn update_with_block(&mut self, block: Block) -> (result: Result<
        (),
        BlockValidationErr,
    >)
        requires
            old(self).wf(),
        ensures
            final(self).wf(),
            match block_err(old(self).blocks@, old(self).unspent_set(), block) {
                None => {
                    &&& result == Ok::<(), BlockValidationErr>(())
                    &&& final(self).blocks@ == old(self).blocks@.push(block)
                    &&& final(self).unspent_set() == apply_block(
                        old(self).unspent_set(),
                        block,
                    )
                },
                Some(e) => {
                    &&& result == Err::<(), BlockValidationErr>(e)
                    &&& final(self).blocks@ == old(self).blocks@
                    &&& final(self).unspent_set() == old(self).unspent_set()
                },
            },
    {
        let ghost pre_blocks = self.blocks@;
        let ghost pre_unspent = self.unspent_set();
        let index = self.blocks.len();

        if !(block.index as usize == index) {
            return Err(BlockValidationErr::MismatchedIndex);
        }
        let digest = block.hash();
        if !check_difficulty(digest.as_slice(), block.difficulty) {
            return Err(BlockValidationErr::InvalidHash);
        }
        if self.is_genesis_block(index) {
            let zeros = zero_hash();
            if !bytes_eq(block.previous_block_hash.as_slice(), zeros.as_slice()) {
                return Err(BlockValidationErr::InvalidGenesisBlockFormat);
            }
        } else {
            let previous_block = &self.blocks[index - 1];
            proof {
                assert(pre_blocks[index - 1] == pre_blocks.last());
            }
            if block.timestamp <= previous_block.timestamp {
                return Err(BlockValidationErr::AchronologicalTimestamp);
            }
            if !bytes_eq(
                block.previous_block_hash.as_slice(),
                previous_block.hash.as_slice(),
            ) {
                return Err(BlockValidationErr::MismatchedPreviousHash);
            }
        }

        if block.transactions.len() > 0 {
            let checked = check_transactions(&block.transactions, &self.unspent_outputs);
            let (block_spent, mut block_created) = match checked {
                Ok(sets) => sets,
                Err(e) => {
                    return Err(e);
                },
            };
            let mut kept = filtered_unspent(&self.unspent_outputs, &block_spent);
            proof {
                lemma_digest_set_add(kept@, block_created@);
            }
            kept.append(&mut block_created);
            self.unspent_outputs = kept;
            proof {
                assert(self.unspent_set() =~= apply_block(pre_unspent, block));
            }
        }
        proof {
            assert(block_err(pre_blocks, pre_unspent, block) is None);
        }
        self.blocks.push(block);
        proof {
            if block.transactions@.len() == 0 {
                assert(self.unspent_set() == apply_block(pre_unspent, block));
            }
            lemma_wf_after_append(*old(self), *self, block);
        }
        Ok(())
    }

}

/// True when every digest in `hs` occurs among the digests in `unspent`.
fn all_digests_in(hs: &Vec<BlockHash>, unspent: &Vec<BlockHash>) -> (r: bool)
    ensures
        r == (forall|i: int|
            0 <= i < hs@.len() ==> digest_set(unspent@).contains(#[trigger] hs@[i]@)),
{
    let mut i: usize = 0;
    while i < hs.len()
        invariant
            i <= hs@.len(),
            forall|j: int| 0 <= j < i ==> digest_set(unspent@).contains(#[trigger] hs@[j]@),
        decreases hs@.len() - i,
    {
        if !contains_digest(unspent, hs[i].as_slice()) {
            return false;
        }
        i = i + 1;
    }
    true
}

/// Runs the transaction-accounting checks of the validator: the first
/// transaction must be a coinbase, every other transaction must spend
/// only available outputs and must not outspend its inputs, and the
/// coinbase's output value must cover the total fee.  On success, hands
/// back the digests spent and created by the block, the coinbase's
/// outputs included.
fn check_transactions(transactions: &Vec<Transaction>, unspent: &Vec<BlockHash>) -> (r: Result<
    (Vec<BlockHash>, Vec<BlockHash>),
    BlockValidationErr,
>)
    requires
        transactions@.len() > 0,
    ensures
        ({
            let rest = transactions@.drop_first();
            let u = digest_set(unspent@);
            match r {
                Ok(sets) => {
                    &&& transactions@[0].inputs@.len() == 0
                    &&& txs_err(rest, u) is None
                    &&& !(outputs_value(transactions@[0].outputs@) < txs_fee(rest))
                    &&& digest_set(sets.0@) == txs_spent(rest)
                    &&& digest_set(sets.1@) == txs_created(rest).union(
                        output_digests(transactions@[0].outputs@),
                    )
                },
                Err(e) => {
                    if transactions@[0].inputs@.len() != 0 {
                        e == BlockValidationErr::InvalidCoinbaseTransaction
                    } else if txs_err(rest, u) is Some {
                        Some(e) == txs_err(rest, u)
                    } else {
                        &&& e == BlockValidationErr::FeeExceedsCoinbaseTransactionOutputValue
                        &&& outputs_value(transactions@[0].outputs@) < txs_fee(rest)
                    }
                },
            }
        }),
{
    if !transactions[0].is_coinbase() {
        return Err(BlockValidationErr::InvalidCoinbaseTransaction);
    }
    let ghost rest = transactions@.drop_first();
    let ghost u = digest_set(unspent@);
    let mut block_spent: Vec<BlockHash> = Vec::new();
    let mut block_created: Vec<BlockHash> = Vec::new();
    let mut total_fee: u128 = 0;
    let mut j: usize = 1;
    proof {
        assert(rest.take(0) =~= Seq::<Transaction>::empty());
        assert(digest_set(block_spent@) =~= txs_spent(rest.take(0)));
        assert(digest_set(block_created@) =~= txs_created(rest.take(0)));
    }
    while j < transactions.len()
        invariant
            1 <= j <= transactions@.len(),
            transactions@[0].inputs@.len() == 0,
            rest == transactions@.drop_first(),
            u == digest_set(unspent@),
            txs_err(rest.take(j - 1), u) is None,
            txs_fee(rest.take(j - 1)) <= u128::MAX ==> total_fee == txs_fee(rest.take(j - 1)),
            txs_fee(rest.take(j - 1)) > u128::MAX ==> total_fee == u128::MAX,
            digest_set(block_spent@) == txs_spent(rest.take(j - 1)),
            digest_set(block_created@) == txs_created(rest.take(j - 1)),
        decreases transactions@.len() - j,
    {
        let transaction = &transactions[j];
        proof {
            assert(rest[j - 1] == transactions@[j as int]);
        }
        let mut input_hashes = transaction.input_hashes();
        if !all_digests_in(&input_hashes, unspent) {
            proof {
                let w = choose|w: int|
                    0 <= w < input_hashes@.len() && !u.contains(input_hashes@[w]@);
                assert(input_hashes@[w]@ == output_digest(transaction.inputs@[w]));
                assert(!tx_inputs_unspent(rest[j - 1], u));
                lemma_txs_err_at(rest, u, j as int, BlockValidationErr::InvalidInput);
            }
            return Err(BlockValidationErr::InvalidInput);
        }
        proof {
            assert forall|w: int| 0 <= w < transaction.inputs@.len() implies u.contains(
                #[trigger] output_digest(transaction.inputs@[w]),
            ) by {
                assert(input_hashes@[w]@ == output_digest(transaction.inputs@[w]));
                assert(u.contains(input_hashes@[w]@));
            }
        }
        let input_value = outputs_value_u128(&transaction.inputs);
        let output_value = outputs_value_u128(&transaction.outputs);
        if output_value > input_value {
            proof {
                lemma_txs_err_at(
                    rest,
                    u,
                    j as int,
                    BlockValidationErr::InsufficientInputValue,
                );
            }
            return Err(BlockValidationErr::InsufficientInputValue);
        }
        proof {
            assert(tx_err(rest[j - 1], u) is None);
            lemma_txs_extend(rest, u, j as int);
        }
        let fee = input_value - output_value;
        if total_fee > u128::MAX - fee {
            total_fee = u128::MAX;
        } else {
            total_fee = total_fee + fee;
        }
        let mut output_hashes = transaction.output_hashes();
        proof {
            lemma_digest_set_elementwise(input_hashes@, transaction.inputs@);
            lemma_digest_set_elementwise(output_hashes@, transaction.outputs@);
            lemma_digest_set_add(block_spent@, input_hashes@);
            lemma_digest_set_add(block_created@, output_hashes@);
        }
        block_spent.append(&mut input_hashes);
        block_created.append(&mut output_hashes);
        j = j + 1;
    }
    proof {
        assert(rest.take(transactions@.len() - 1) =~= rest);
    }
    let coinbase_value = outputs_value_u128(&transactions[0].outputs);
    if coinbase_value < total_fee {
        return Err(BlockValidationErr::FeeExceedsCoinbaseTransactionOutputValue);
    }
    let mut coinbase_hashes = transactions[0].output_hashes();
    proof {
        lemma_digest_set_elementwise(coinbase_hashes@, transactions@[0].outputs@);
        lemma_digest_set_add(block_created@, coinbase_hashes@);
    }
    block_created.append(&mut coinbase_hashes);
    Ok((block_spent, block_created))
}

/// The digests of `unspent` that are not among `spent`, kept in order.
fn filtered_unspent(unspent: &Vec<BlockHash>, spent: &Vec<BlockHash>) -> (r: Vec<BlockHash>)
    ensures
        digest_set(r@) == digest_set(unspent@).difference(digest_set(spent@)),
{
    let mut kept: Vec<BlockHash> = Vec::new();
    let mut i: usize = 0;
    proof {
        assert(unspent@.take(0) =~= Seq::<BlockHash>::empty());
        assert(digest_set(kept@) =~= digest_set(unspent@.take(0)).difference(
            digest_set(spent@),
        ));
    }
    while i < unspent.len()
        invariant
            i <= unspent@.len(),
            digest_set(kept@) == digest_set(unspent@.take(i as int)).difference(
                digest_set(spent@),
            ),
        decreases unspent@.len() - i,
    {
        let ghost kept_before = kept@;
        let ghost entry = unspent@[i as int];
        proof {
            assert(unspent@.take(i as int + 1) =~= unspent@.take(i as int).push(entry));
            lemma_digest_set_push(unspent@.take(i as int), entry);
        }
        if contains_digest(spent, unspent[i].as_slice()) {
            proof {
                assert(digest_set(kept@) =~= digest_set(unspent@.take(i as int + 1))
                    .difference(digest_set(spent@)));
            }
        } else {
            let copy = vstd::slice::slice_to_vec(unspent[i].as_slice());
            kept.push(copy);
            proof {
                lemma_digest_set_push(kept_before, kept@.last());
                assert(digest_set(kept@) =~= digest_set(unspent@.take(i as int + 1))
                    .difference(digest_set(spent@)));
            }
        }
        i = i + 1;
    }
    proof {
        assert(unspent@.take(unspent@.len() as int) =~= unspent@);
    }
    kept
}

/// When the first `j - 1` non-coinbase transactions pass and transaction
/// `j - 1` fails, its error decides the verdict for the whole list.
proof fn lemma_txs_err_at(
    s: Seq<Transaction>,
    unspent: Set<Seq<u8>>,
    j: int,
    e: BlockValidationErr,
)
    requires
        1 <= j <= s.len(),
        txs_err(s.take(j - 1), unspent) is None,
        tx_err(s[j - 1], unspent) == Some(e),
    ensures
        txs_err(s, unspent) == Some(e),
{
    assert(s.take(j).drop_last() =~= s.take(j - 1));
    assert(s.take(j).last() == s[j - 1]);
    assert(txs_err(s.take(j), unspent) == Some(e));
    lemma_txs_err_prefix(s, unspent, j);
}

/// Extending a passing prefix by a passing transaction keeps it passing
/// and advances the fee and the spent and created digest sets.
proof fn lemma_txs_extend(s: Seq<Transaction>, unspent: Set<Seq<u8>>, j: int)
    requires
        1 <= j <= s.len(),
        txs_err(s.take(j - 1), unspent) is None,
        tx_err(s[j - 1], unspent) is None,
    ensures
        txs_err(s.take(j), unspent) is None,
        txs_fee(s.take(j)) == txs_fee(s.take(j - 1)) + outputs_value(s[j - 1].inputs@)
            - outputs_value(s[j - 1].outputs@),
        txs_spent(s.take(j)) == txs_spent(s.take(j - 1)).union(
            output_digests(s[j - 1].inputs@),
        ),
        txs_created(s.take(j)) == txs_created(s.take(j - 1)).union(
            output_digests(s[j - 1].outputs@),
        ),
{
    assert(s.take(j).drop_last() =~= s.take(j - 1));
    assert(s.take(j).last() == s[j - 1]);
}

/// Appending a block that passed validation, as given, preserves the
/// chain's well-formedness.
proof fn lemma_wf_after_append(pre: Blockchain, post: Blockchain, block: Block)
    requires
        pre.wf(),
        block_err(pre.blocks@, pre.unspent_set(), block) is None,
        post.blocks@ == pre.blocks@.push(block),
        post.unspent_set() == apply_block(pre.unspent_set(), block),
    ensures
        post.wf(),
{
    let nb = post.blocks@;
    assert(nb.drop_last() =~= pre.blocks@);
    assert(nb.last() == block);
    assert(chain_unspent(nb) == apply_block(chain_unspent(pre.blocks@), block));
    assert forall|k: int| 0 <= k < nb.len() implies block_err(
        nb.take(k),
        chain_unspent(nb.take(k)),
        #[trigger] nb[k],
    ) is None by {
        assert(nb.take(k) =~= pre.blocks@.take(k));
        if k < pre.blocks@.len() {
            assert(pre.blocks@[k] == nb[k]);
        } else {
            assert(pre.blocks@.take(k) =~= pre.blocks@);
        }
    }
}

/// A transaction list that passes as a whole has no failing member.
proof fn lemma_txs_err_none_each(s: Seq<Transaction>, unspent: Set<Seq<u8>>, k: int)
    requires
        txs_err(s, unspent) is None,
        0 <= k < s.len(),
    ensures
        tx_err(s[k], unspent) is None,
    decreases s.len(),
{
    if k < s.len() - 1 {
        lemma_txs_err_none_each(s.drop_last(), unspent, k);
    }
}

/// Law: every block of a well-formed chain stores its own position as
/// its index.
pub proof fn lemma_chain_indices(c: Blockchain, i: int)
    requires
        c.wf(),
        0 <= i < c.blocks@.len(),
    ensures
        c.blocks@[i].index == i,
{
    assert(block_err(
        c.blocks@.take(i),
        chain_unspent(c.blocks@.take(i)),
        c.blocks@[i],
    ) is None);
}

/// Law: timestamps strictly increase along a well-formed chain.
pub proof fn lemma_chain_chronology(c: Blockchain, i: int)
    requires
        c.wf(),
        0 < i < c.blocks@.len(),
    ensures
        c.blocks@[i].timestamp > c.blocks@[i - 1].timestamp,
{
    assert(block_err(
        c.blocks@.take(i),
        chain_unspent(c.blocks@.take(i)),
        c.blocks@[i],
    ) is None);
    assert(c.blocks@.take(i).last() == c.blocks@[i - 1]);
}

/// Law: every non-genesis block of a well-formed chain links to the
/// digest of its predecessor's preimage, provided the predecessor's
/// stored hash holds that digest.  The proviso cannot be dropped: the
/// validator compares a candidate against the predecessor's stored
/// field, and by design never checks a candidate's own stored field, so
/// a chain may hold a block whose stored hash is not its digest.
pub proof fn lemma_chain_linkage(c: Blockchain, i: int)
    requires
        c.wf(),
        0 < i < c.blocks@.len(),
        c.blocks@[i - 1].hash@ == sha256_of(block_preimage(c.blocks@[i - 1])),
    ensures
        c.blocks@[i].previous_block_hash@ == sha256_of(block_preimage(c.blocks@[i - 1])),
{
    assert(block_err(
        c.blocks@.take(i),
        chain_unspent(c.blocks@.take(i)),
        c.blocks@[i],
    ) is None);
    assert(c.blocks@.take(i).last() == c.blocks@[i - 1]);
}

/// Law: every block of a well-formed chain carries its proof of work:
/// the top 16 bytes of its recomputed digest, read as a little-endian
/// u128, stay strictly below its difficulty target.
pub proof fn lemma_chain_proof_of_work(c: Blockchain, i: int)
    requires
        c.wf(),
        0 <= i < c.blocks@.len(),
    ensures
        top16_as_u128(sha256_of(block_preimage(c.blocks@[i]))) < c.blocks@[i].difficulty,
{
    assert(block_err(
        c.blocks@.take(i),
        chain_unspent(c.blocks@.take(i)),
        c.blocks@[i],
    ) is None);
}

/// Law: every non-coinbase transaction of an accepted non-genesis block
/// outputs at most what it spends, and spends only outputs that were
/// unspent before the block.
pub proof fn lemma_chain_transactions(c: Blockchain, i: int, j: int)
    requires
        c.wf(),
        0 < i < c.blocks@.len(),
        1 <= j < c.blocks@[i].transactions@.len(),
    ensures
        outputs_value(c.blocks@[i].transactions@[j].inputs@) >= outputs_value(
            c.blocks@[i].transactions@[j].outputs@,
        ),
        tx_inputs_unspent(
            c.blocks@[i].transactions@[j],
            chain_unspent(c.blocks@.take(i)),
        ),
{
    let u = chain_unspent(c.blocks@.take(i));
    let rest = c.blocks@[i].transactions@.drop_first();
    assert(block_err(c.blocks@.take(i), u, c.blocks@[i]) is None);
    assert(txs_err(rest, u) is None);
    lemma_txs_err_none_each(rest, u, j - 1);
    assert(rest[j - 1] == c.blocks@[i].transactions@[j]);
}

impl Default for Blockchain {
    /// An empty chain, exactly as `new` creates it.
    fn default() -> (r: Self)
        ensures
            r.wf(),
            r.blocks@.len() == 0,
            r.unspent_set() == Set::<Seq<u8>>::empty(),
    {
        Blockchain::new()
    }
}

/// An error among the first `j` non-coinbase transactions decides the
/// verdict for the whole list.
proof fn lemma_txs_err_prefix(s: Seq<Transaction>, unspent: Set<Seq<u8>>, j: int)
    requires
        0 <= j <= s.len(),
        txs_err(s.take(j), unspent) is Some,
    ensures
        txs_err(s, unspent) == txs_err(s.take(j), unspent),
    decreases s.len() - j,
{
    if j == s.len() {
        assert(s.take(j) =~= s);
    } else {
        assert(s.take(j + 1).drop_last() =~= s.take(j));
        lemma_txs_err_prefix(s, unspent, j + 1);
    }
}

/// The digests held by a concatenation of two lists are the union of the
/// digests held by each.
proof fn lemma_digest_set_add(a: Seq<BlockHash>, b: Seq<BlockHash>)
    ensures
        digest_set(a + b) == digest_set(a).union(digest_set(b)),
{
    let ma = a.map_values(|d: BlockHash| d@);
    let mb = b.map_values(|d: BlockHash| d@);
    let mab = (a + b).map_values(|d: BlockHash| d@);
    assert(mab =~= ma + mb);
    assert forall|x: Seq<u8>| ma.contains(x) || mb.contains(x) implies mab.contains(x) by {
        if ma.contains(x) {
            let i = choose|i: int| 0 <= i < ma.len() && ma[i] == x;
            assert(mab[i] == x);
        } else {
            let i = choose|i: int| 0 <= i < mb.len() && mb[i] == x;
            assert(mab[ma.len() + i] == x);
        }
    }
    assert forall|x: Seq<u8>| mab.contains(x) implies ma.contains(x) || mb.contains(x) by {
        let i = choose|i: int| 0 <= i < mab.len() && mab[i] == x;
        if i < ma.len() {
            assert(ma[i] == x);
        } else {
            assert(mb[i - ma.len()] == x);
        }
    }
    assert(digest_set(a + b) =~= digest_set(a).union(digest_set(b)));
}

/// Appending one digest to a list inserts its bytes into the held set.
proof fn lemma_digest_set_push(s: Seq<BlockHash>, d: BlockHash)
    ensures
        digest_set(s.push(d)) == digest_set(s).insert(d@),
{
    let ms = s.map_values(|x: BlockHash| x@);
    let mp = s.push(d).map_values(|x: BlockHash| x@);
    assert(mp =~= ms.push(d@));
    assert forall|x: Seq<u8>| ms.contains(x) || x == d@ implies mp.contains(x) by {
        if ms.contains(x) {
            let i = choose|i: int| 0 <= i < ms.len() && ms[i] == x;
            assert(mp[i] == x);
        } else {
            assert(mp[ms.len() as int] == x);
        }
    }
    assert forall|x: Seq<u8>| mp.contains(x) implies ms.contains(x) || x == d@ by {
        let i = choose|i: int| 0 <= i < mp.len() && mp[i] == x;
        if i < ms.len() {
            assert(ms[i] == x);
        }
    }
    assert(digest_set(s.push(d)) =~= digest_set(s).insert(d@));
}

/// A list holding one digest per output, in order, holds exactly the
/// outputs' digest set.
proof fn lemma_digest_set_elementwise(hs: Seq<BlockHash>, outs: Seq<Output>)
    requires
        hs.len() == outs.len(),
        forall|i: int| 0 <= i < hs.len() ==> (#[trigger] hs[i])@ == output_digest(outs[i]),
    ensures
        digest_set(hs) == output_digests(outs),
{
    assert(hs.map_values(|d: BlockHash| d@) =~= outs.map_values(|o: Output| output_digest(o)));
}

/// True when `a` and `b` hold the same bytes.
fn bytes_eq(a: &[u8], b: &[u8]) -> (r: bool)
    ensures
        r == (a@ == b@),
{
    if a.len() != b.len() {
        return false;
    }
    let mut i: usize = 0;
    while i < a.len()
        invariant
            a@.len() == b@.len(),
            i <= a@.len(),
            forall|j: int| 0 <= j < i ==> a@[j] == b@[j],
        decreases a@.len() - i,
    {
        if a[i] != b[i] {
            return false;
        }
        i = i + 1;
    }
    proof {
        assert(a@ =~= b@);
    }
    true
}

/// True when `needle`'s bytes occur among the digests in `haystack`.
fn contains_digest(haystack: &Vec<BlockHash>, needle: &[u8]) -> (r: bool)
    ensures
        r == digest_set(haystack@).contains(needle@),
{
    let mut i: usize = 0;
    while i < haystack.len()
        invariant
            i <= haystack@.len(),
            forall|j: int| 0 <= j < i ==> haystack@[j]@ != needle@,
        decreases haystack@.len() - i,
    {
        if bytes_eq(haystack[i].as_slice(), needle) {
            proof {
                assert(haystack@.map_values(|d: BlockHash| d@)[i as int] == needle@);
                assert(haystack@.map_values(|d: BlockHash| d@).contains(needle@));
            }
            return true;
        }
        i = i + 1;
    }
    proof {
        let mapped = haystack@.map_values(|d: BlockHash| d@);
        assert forall|k: int| 0 <= k < mapped.len() implies #[trigger] mapped[k] != needle@ by {
            assert(haystack@[k]@ != needle@);
        }
        assert(!mapped.contains(needle@));
    }
    false
}

} // verus!
