use vstd::prelude::*;
use crate::contract::CourseReg;

verus! {

/// The Keccak-256 digest of `input`, 32 bytes long. The algorithm is not written
/// out here: this is the name of what `ink_env` computes.
pub uninterp spec fn keccak_256(input: Seq<u8>) -> Seq<u8>;

impl CourseReg {
    /// Returns the Keccak-256 hash of the input bytes, by which a course's name
    /// becomes its id.
    ///
    /// Not verified: the body calls `ink_env::hash_bytes` with `Keccak256`, which
    /// writes the digest of the input into a buffer of 32 bytes. The contract claims
    /// that the bytes returned are that digest, and so depend on the input alone.
    #[verifier::external_body]
    pub fn hash_keccak_256(input: &[u8]) -> (digest: [u8; 32])
        ensures
            digest@ == keccak_256(input@),
    {
        let mut output = [0u8; 32];
        ink_env::hash_bytes::<ink_env::hash::Keccak256>(input, &mut output);
        output
    }
}

} // verus!
