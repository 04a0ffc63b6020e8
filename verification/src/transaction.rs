use vstd::prelude::*;
use vstd::string::StringSliceAdditionalSpecFns;
use vstd::utf8::encode_utf8;

use crate::hashable::{sha256_of, Hashable};
use crate::{append_bytes, u64_bytes, u64_le, Address, BlockHash};

verus! {

/// A transaction output: the recipient's address and the value to transfer
/// to the recipient.
#[derive(Clone, Debug, PartialEq)]
pub struct Output {
    pub to_address: Address,
    pub value: u64,
}

/// The canonical bytes of an output: the address's raw UTF-8 bytes (no
/// length prefix, no terminator) followed by the 8-byte little-endian
/// encoding of the value.
pub open spec fn output_preimage(o: Output) -> Seq<u8> {
    encode_utf8(o.to_address@) + u64_le(o.value)
}

/// The SHA-256 digest of an output's canonical bytes.  Outputs are matched
/// by this digest in the chain's unspent-output set.
pub open spec fn output_digest(o: Output) -> Seq<u8> {
    sha256_of(output_preimage(o))
}

/// The canonical bytes of a sequence of outputs: each output's preimage
/// concatenated in order, with no separators and no counts.
pub open spec fn outputs_preimage(s: Seq<Output>) -> Seq<u8>
    decreases s.len(),
{
    if s.len() == 0 {
        Seq::empty()
    } else {
        outputs_preimage(s.drop_last()) + output_preimage(s.last())
    }
}

/// The sum of the outputs' values, as a mathematical integer.
pub open spec fn outputs_value(s: Seq<Output>) -> int
    decreases s.len(),
{
    if s.len() == 0 {
        0
    } else {
        outputs_value(s.drop_last()) + s.last().value
    }
}

/// The set of SHA-256 digests of the outputs in `s`.
pub open spec fn output_digests(s: Seq<Output>) -> Set<Seq<u8>> {
    s.map_values(|o: Output| output_digest(o)).to_set()
}

/// A sum of unsigned 64-bit values is bounded by the number of summands
/// times the largest value.
pub proof fn lemma_outputs_value_bounds(s: Seq<Output>)
    ensures
        0 <= outputs_value(s) <= s.len() * (u64::MAX as int),
    decreases s.len(),
{
    if s.len() == 0 {
    } else {
        lemma_outputs_value_bounds(s.drop_last());
        assert((s.len() - 1) * (u64::MAX as int) + (u64::MAX as int) == s.len() * (
        u64::MAX as int)) by (nonlinear_arith);
    }
}

/// Sums the outputs' values into a u128, which cannot overflow: there are
/// at most usize::MAX summands, each at most u64::MAX.
pub(crate) fn outputs_value_u128(outs: &Vec<Output>) -> (r: u128)
    ensures
        r == outputs_value(outs@),
        r < u128::MAX,
{
    let mut total: u128 = 0;
    let mut i: usize = 0;
    while i < outs.len()
        invariant
            i <= outs@.len(),
            total == outputs_value(outs@.take(i as int)),
        decreases outs@.len() - i,
    {
        proof {
            lemma_outputs_value_bounds(outs@.take(i as int));
            assert(i * (u64::MAX as int) + (u64::MAX as int) <= (u64::MAX as int) * (
            u64::MAX as int) + (u64::MAX as int)) by (nonlinear_arith)
                requires
                    i <= u64::MAX,
            ;
            assert(outs@.take(i as int + 1).drop_last() =~= outs@.take(i as int));
            assert(outs@.take(i as int + 1).last() == outs@[i as int]);
        }
        total = total + (outs[i].value as u128);
        i = i + 1;
    }
    proof {
        assert(outs@.take(outs@.len() as int) =~= outs@);
        lemma_outputs_value_bounds(outs@);
        assert(outs@.len() * (u64::MAX as int) <= (u64::MAX as int) * (u64::MAX as int))
            by (nonlinear_arith)
            requires
                outs@.len() <= u64::MAX,
        ;
        assert((u64::MAX as int) * (u64::MAX as int) < u128::MAX as int) by (nonlinear_arith);
    }
    total
}

/// Computes the SHA-256 digest of each output in `outs`, in order.
fn hashes_of(outs: &Vec<Output>) -> (r: Vec<BlockHash>)
    ensures
        r@.len() == outs@.len(),
        forall|i: int| 0 <= i < r@.len() ==> #[trigger] r@[i]@ == output_digest(outs@[i]),
{
    let mut r: Vec<BlockHash> = Vec::new();
    let mut i: usize = 0;
    while i < outs.len()
        invariant
            i <= outs@.len(),
            r@.len() == i,
            forall|j: int| 0 <= j < i ==> #[trigger] r@[j]@ == output_digest(outs@[j]),
        decreases outs@.len() - i,
    {
        let h = outs[i].hash();
        r.push(h);
        i = i + 1;
    }
    r
}

/// A ledger transaction: an ordered list of inputs (byte-wise copies of
/// previously produced outputs, matched by digest) and an ordered list of
/// newly produced outputs.
#[derive(Debug, PartialEq)]
pub struct Transaction {
    pub inputs: Vec<Output>,
    pub outputs: Vec<Output>,
}

/// The canonical bytes of a transaction: each input's output preimage in
/// order, then each output's preimage in order.
pub open spec fn tx_preimage(t: Transaction) -> Seq<u8> {
    outputs_preimage(t.inputs@) + outputs_preimage(t.outputs@)
}

impl Transaction {
    /// The sum of the transaction's input values, as an integer.
    pub open spec fn input_value_spec(self) -> int {
        outputs_value(self.inputs@)
    }

    /// The sum of the transaction's output values, as an integer.
    pub open spec fn output_value_spec(self) -> int {
        outputs_value(self.outputs@)
    }

    /// A coinbase transaction has no inputs.
    pub open spec fn is_coinbase_spec(self) -> bool {
        self.inputs@.len() == 0
    }

    /// Returns the sum of the transaction's inputs.
    pub fn input_value(&self) -> (r: u64)
        requires
            self.input_value_spec() <= u64::MAX,
        ensures
            r == self.input_value_spec(),
    {
        let total = outputs_value_u128(&self.inputs);
        proof {
            lemma_outputs_value_bounds(self.inputs@);
        }
        total as u64
    }

    /// Returns the sum of the transaction's outputs.
    pub fn output_value(&self) -> (r: u64)
        requires
            self.output_value_spec() <= u64::MAX,
        ensures
            r == self.output_value_spec(),
    {
        let total = outputs_value_u128(&self.outputs);
        proof {
            lemma_outputs_value_bounds(self.outputs@);
        }
        total as u64
    }

    /// Returns the hashes of the transaction's inputs, one per input, in
    /// order.
    pub fn input_hashes(&self) -> (r: Vec<BlockHash>)
        ensures
            r@.len() == self.inputs@.len(),
            forall|i: int| 0 <= i < r@.len() ==> #[trigger] r@[i]@ == output_digest(
                self.inputs@[i],
            ),
    {
        hashes_of(&self.inputs)
    }

    /// Returns the hashes of the transaction's outputs, one per output, in
    /// order.
    pub fn output_hashes(&self) -> (r: Vec<BlockHash>)
        ensures
            r@.len() == self.outputs@.len(),
            forall|i: int| 0 <= i < r@.len() ==> #[trigger] r@[i]@ == output_digest(
                self.outputs@[i],
            ),
    {
        hashes_of(&self.outputs)
    }

    /// Returns a flag that states whether this transaction is a coinbase
    /// one.  A coinbase transaction has empty inputs.
    pub fn is_coinbase(&self) -> (r: bool)
        ensures
            r == self.is_coinbase_spec(),
    {
        self.inputs.len() == 0
    }
}

/// Appends the canonical bytes of every output in `outs` to `dst`, in
/// order.
fn append_outputs(dst: &mut Vec<u8>, outs: &Vec<Output>)
    ensures
        final(dst)@ == old(dst)@ + outputs_preimage(outs@),
{
    let mut i: usize = 0;
    while i < outs.len()
        invariant
            i <= outs@.len(),
            dst@ == old(dst)@ + outputs_preimage(outs@.take(i as int)),
        decreases outs@.len() - i,
    {
        let ob = outs[i].bytes();
        append_bytes(dst, ob.as_slice());
        i = i + 1;
        proof {
            assert(outs@.take(i as int).drop_last() =~= outs@.take(i as int - 1));
            assert(outs@.take(i as int).last() == outs@[i as int - 1]);
            assert(dst@ =~= old(dst)@ + outputs_preimage(outs@.take(i as int)));
        }
    }
    assert(outs@.take(outs@.len() as int) =~= outs@);
}

impl Hashable for Output {
    open spec fn bytes_spec(&self) -> Seq<u8> {
        output_preimage(*self)
    }

    /// Returns a vector of hashable bytes that represents the transaction
    /// output.
    fn bytes(&self) -> (r: Vec<u8>) {
        let mut bytes: Vec<u8> = Vec::new();
        append_bytes(&mut bytes, self.to_address.as_str().as_bytes());
        let value_bytes = u64_bytes(self.value);
        append_bytes(&mut bytes, value_bytes.as_slice());
        assert(bytes@ == self.bytes_spec());
        bytes
    }
}

impl Hashable for Transaction {
    open spec fn bytes_spec(&self) -> Seq<u8> {
        tx_preimage(*self)
    }

    /// Returns a vector of hashable bytes that represents the transaction.
    fn bytes(&self) -> (r: Vec<u8>) {
        let mut bytes: Vec<u8> = Vec::new();
        append_outputs(&mut bytes, &self.inputs);
        append_outputs(&mut bytes, &self.outputs);
        assert(bytes@ == self.bytes_spec());
        bytes
    }
}

} // verus!
