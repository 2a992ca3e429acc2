//! The injected hash function: a narrow capability from bytes to bytes,
//! together with a SHA-256 implementation of it.

use vstd::prelude::*;

verus! {

/// A deterministic, pure hash function over byte sequences, supplied by the
/// caller of the Merkle root construction. `hash_spec` is the mathematical
/// function an implementation computes; `hash` must return exactly that.
pub trait HashFn: Sized {
    /// The mathematical function this hasher computes.
    spec fn hash_spec(&self, input: Seq<u8>) -> Seq<u8>;

    /// Hash the given bytes.
    fn hash(&self, input: &[u8]) -> (digest: Vec<u8>)
        ensures
            digest@ == self.hash_spec(input@),
    ;
}

/// The SHA-256 digest of a byte sequence. SHA-256 is a pure function of its
/// input bytes alone; its definition is left uninterpreted here.
pub uninterp spec fn sha256_of(input: Seq<u8>) -> Seq<u8>;

/// Relies on the sha2 crate's `Sha256` through the `Digest` interface
/// (`new`, `update`, `finalize`): the digest is a pure function of the input
/// bytes alone and is always 32 bytes long.
#[verifier::external_body]
fn sha256_digest(input: &[u8]) -> (digest: Vec<u8>)
    ensures
        digest@ == sha256_of(input@),
        digest@.len() == 32,
{
    let mut hasher = <sha2::Sha256 as sha2::Digest>::new();
    sha2::Digest::update(&mut hasher, input);
    sha2::Digest::finalize(hasher).as_slice().to_vec()
}

/// A `HashFn` backed by SHA-256.
#[derive(Clone, Copy, Debug)]
pub struct Sha256Hasher;

impl HashFn for Sha256Hasher {
    open spec fn hash_spec(&self, input: Seq<u8>) -> Seq<u8> {
        sha256_of(input)
    }

    fn hash(&self, input: &[u8]) -> (digest: Vec<u8>) {
        sha256_digest(input)
    }
}

} // verus!
