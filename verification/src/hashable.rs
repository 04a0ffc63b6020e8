use vstd::prelude::*;

verus! {

/// The SHA-256 digest of a byte sequence.  The digest is a pure function of
/// the input bytes; its value is left uninterpreted and supplied by the
/// outside implementation.
pub uninterp spec fn sha256_of(bytes: Seq<u8>) -> Seq<u8>;

/// Relies on `crypto_hash::digest` with `crypto_hash::Algorithm::SHA256`:
/// the digest depends on the input bytes alone and is always 32 bytes long.
#[verifier::external_body]
fn sha256(bytes: &Vec<u8>) -> (r: Vec<u8>)
    ensures
        r@ == sha256_of(bytes@),
        r@.len() == 32,
{
    crypto_hash::digest(crypto_hash::Algorithm::SHA256, bytes)
}

/// The capability of producing a canonical byte sequence.  Any entity with
/// it gains a SHA-256 digest of that sequence; there is no salting and no
/// domain separation.
pub trait Hashable {
    /// The canonical byte sequence (the hash preimage), at the
    /// specification level.
    spec fn bytes_spec(&self) -> Seq<u8>;

    /// Returns a vector of hashable bytes that represents the hashable
    /// instance.
    fn bytes(&self) -> (r: Vec<u8>)
        ensures
            r@ == self.bytes_spec(),
    ;

    /// Returns a vector of bytes that represents the hashable instance's
    /// hash: the SHA-256 digest of its canonical bytes.
    fn hash(&self) -> (r: Vec<u8>)
        ensures
            r@ == sha256_of(self.bytes_spec()),
            r@.len() == 32,
    {
        let bytes = self.bytes();
        sha256(&bytes)
    }
}

} // verus!
