//! A Merkle root construction over an ordered sequence of leaf values.
//!
//! Leaves are first turned into canonical byte encodings, each encoding is
//! hashed with a caller-supplied hash function, and the resulting digests are
//! reduced pairwise, level by level, until a single root digest remains.

pub mod encode;
pub mod hash;
pub mod tree;

pub use encode::Encodable;
pub use hash::HashFn;
pub use hash::Sha256Hasher;
pub use tree::MerkleError;
pub use tree::MerkleTree;
pub use tree::construct_merkle_tree;
pub use tree::generate_merkle_root;
