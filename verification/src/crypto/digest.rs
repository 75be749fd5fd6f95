use vstd::prelude::*;

verus! {

/// The SHA-256 digest of a byte sequence.  The digest is a function of the
/// input alone; nothing further is assumed about its value.
pub uninterp spec fn sha256_of(bytes: Seq<u8>) -> Seq<u8>;

/// Relies on sha2::Sha256: the digest has 32 bytes and depends on the input
/// bytes alone.
#[verifier::external_body]
pub fn sha256(data: &[u8]) -> (r: Vec<u8>)
    ensures
        r@ == sha256_of(data@),
        r@.len() == 32,
{
    let hash = <sha2::Sha256 as sha2::Digest>::digest(data);
    hash.to_vec()
}

} // verus!
