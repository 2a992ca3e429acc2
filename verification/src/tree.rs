//! The Merkle root builder: hash every encoded leaf, then reduce the digests
//! pairwise, level by level, until a single root digest remains.
//!
//! Odd-length levels use the carry-forward policy: a trailing unpaired digest
//! is promoted to the next level unchanged.

use vstd::prelude::*;

use crate::encode::Encodable;
use crate::hash::HashFn;

verus! {

/// Why a construction call failed.
#[derive(Clone, Copy, Debug, PartialEq, Eq, Structural)]
pub enum MerkleError {
    /// The leaf at this index has no canonical byte encoding.
    EncodingError(usize),
    /// Construction was invoked with zero leaves; no root is defined.
    EmptyInputError,
}

/// The views of a sequence of byte vectors.
pub open spec fn byte_views(s: Seq<Vec<u8>>) -> Seq<Seq<u8>> {
    s.map(|i: int, v: Vec<u8>| v@)
}

/// The canonical encodings of a sequence of leaves, index-aligned.
pub open spec fn leaf_encodings<T: Encodable>(leaves: Seq<T>) -> Seq<Seq<u8>> {
    leaves.map(|i: int, leaf: T| leaf.encoding())
}

/// The digests of a sequence of byte buffers, index-aligned.
pub open spec fn leaf_digests<H: HashFn>(h: H, encoded: Seq<Seq<u8>>) -> Seq<Seq<u8>> {
    encoded.map(|i: int, bytes: Seq<u8>| h.hash_spec(bytes))
}

/// One reduction step: digests are paired left to right without overlap; each
/// complete pair is hashed as the concatenation first ++ second; a trailing
/// unpaired digest is carried to the next level unchanged.
pub open spec fn parent_level<H: HashFn>(h: H, level: Seq<Seq<u8>>) -> Seq<Seq<u8>>
    decreases level.len(),
{
    if level.len() >= 2 {
        seq![h.hash_spec(level[0] + level[1])] + parent_level(h, level.skip(2))
    } else {
        level
    }
}

/// A parent level holds one digest per pair, plus the carried digest when the
/// level length is odd: `ceil(len / 2)` digests in all.
pub proof fn lemma_parent_level_len<H: HashFn>(h: H, level: Seq<Seq<u8>>)
    ensures
        parent_level(h, level).len() == (level.len() + 1) / 2,
    decreases level.len(),
{
    if level.len() >= 2 {
        lemma_parent_level_len(h, level.skip(2));
    }
}

/// Index form of one reduction step: entry `j` of the parent level is the
/// hash of `level[2j] ++ level[2j + 1]` for every complete pair, and an odd
/// level's last digest is carried unchanged.
pub proof fn lemma_parent_level_index<H: HashFn>(h: H, level: Seq<Seq<u8>>)
    ensures
        parent_level(h, level).len() == (level.len() + 1) / 2,
        forall|j: int|
            0 <= j && 2 * j + 1 < level.len() ==> #[trigger] parent_level(h, level)[j]
                == h.hash_spec(level[2 * j] + level[2 * j + 1]),
        level.len() % 2 == 1 ==> parent_level(h, level).last() == level.last(),
    decreases level.len(),
{
    lemma_parent_level_len(h, level);
    if level.len() >= 2 {
        lemma_parent_level_index(h, level.skip(2));
        lemma_parent_level_len(h, level.skip(2));
        assert forall|j: int| 0 <= j && 2 * j + 1 < level.len() implies #[trigger] parent_level(
            h,
            level,
        )[j] == h.hash_spec(level[2 * j] + level[2 * j + 1]) by {
            if j >= 1 {
                assert(parent_level(h, level)[j] == parent_level(h, level.skip(2))[j - 1]);
                assert(level.skip(2)[2 * (j - 1)] == level[2 * j]);
                assert(level.skip(2)[2 * (j - 1) + 1] == level[2 * j + 1]);
            }
        }
        if level.len() % 2 == 1 {
            assert(level.skip(2).len() % 2 == 1);
            assert(parent_level(h, level.skip(2)).len() >= 1);
            assert(parent_level(h, level).last() == parent_level(h, level.skip(2)).last());
            assert(level.skip(2).last() == level.last());
        }
    }
}

/// The Merkle root of a level of digests: reduce level by level until a
/// single digest remains; that digest is the root.
pub open spec fn merkle_root<H: HashFn>(h: H, level: Seq<Seq<u8>>) -> Seq<u8>
    recommends
        level.len() >= 1,
    decreases level.len(),
{
    if level.len() <= 1 {
        if level.len() == 1 {
            level[0]
        } else {
            Seq::empty()
        }
    } else {
        proof {
            lemma_parent_level_len(h, level);
        }
        merkle_root(h, parent_level(h, level))
    }
}

/// The Merkle root obtained from a sequence of leaf values: encode every
/// leaf, hash every encoding, then reduce the digests to a single root.
pub open spec fn merkle_root_of_leaves<T: Encodable, H: HashFn>(h: H, leaves: Seq<T>) -> Seq<u8> {
    merkle_root(h, leaf_digests(h, leaf_encodings(leaves)))
}

/// Copy a byte vector.
fn copy_bytes(bytes: &Vec<u8>) -> (r: Vec<u8>)
    ensures
        r@ == bytes@,
{
    let mut r: Vec<u8> = Vec::new();
    r.extend_from_slice(bytes.as_slice());
    proof {
        assert(r@ =~= bytes@);
    }
    r
}

/// Concatenate two byte vectors, left then right, with no separator.
fn concat_bytes(left: &Vec<u8>, right: &Vec<u8>) -> (r: Vec<u8>)
    ensures
        r@ == left@ + right@,
{
    let mut r: Vec<u8> = Vec::new();
    r.extend_from_slice(left.as_slice());
    r.extend_from_slice(right.as_slice());
    proof {
        assert(r@ =~= left@ + right@);
    }
    r
}

/// Reduce a non-empty sequence of digests to the Merkle root, pairing
/// adjacent digests left to right and carrying a trailing unpaired digest to
/// the next level unchanged.
pub fn generate_merkle_root<H: HashFn>(leaves: &[Vec<u8>], hash_fn: &H) -> (root: Vec<u8>)
    requires
        leaves@.len() >= 1,
    ensures
        root@ == merkle_root(*hash_fn, byte_views(leaves@)),
    decreases leaves@.len(),
{
    if leaves.len() == 1 {
        return copy_bytes(&leaves[0]);
    }
    let ghost level = byte_views(leaves@);
    let mut parent: Vec<Vec<u8>> = Vec::new();
    let mut i: usize = 0;
    while i + 1 < leaves.len()
        invariant
            leaves@.len() >= 2,
            i % 2 == 0,
            i <= leaves@.len(),
            level == byte_views(leaves@),
            parent@.len() == i / 2,
            forall|j: int|
                0 <= j < parent@.len() ==> #[trigger] parent@[j]@ == hash_fn.hash_spec(
                    level[2 * j] + level[2 * j + 1],
                ),
        decreases leaves@.len() - i,
    {
        let combined_content = concat_bytes(&leaves[i], &leaves[i + 1]);
        parent.push(hash_fn.hash(combined_content.as_slice()));
        i += 2;
    }
    if i < leaves.len() {
        let carried = copy_bytes(&leaves[i]);
        parent.push(carried);
    }
    proof {
        lemma_parent_level_index(*hash_fn, level);
        assert forall|j: int| 0 <= j < parent@.len() implies byte_views(parent@)[j]
            == parent_level(*hash_fn, level)[j] by {
            if 2 * j + 1 >= level.len() {
                assert(level.len() % 2 == 1 && j == parent@.len() - 1);
                assert(parent_level(*hash_fn, level)[j] == level.last());
            }
        }
        assert(byte_views(parent@) =~= parent_level(*hash_fn, level));
    }
    generate_merkle_root(parent.as_slice(), hash_fn)
}

/// The leaf encoder: produce the canonical byte encoding of every leaf,
/// index-aligned with the input. Fails fast with `EncodingError(i)` exactly
/// when leaf `i` is the first one without a canonical encoding.
pub fn convert_to_bytes<T: Encodable>(leaves: &[T]) -> (result: Result<Vec<Vec<u8>>, MerkleError>)
    ensures
        match result {
            Ok(encoded) => {
                &&& forall|i: int| 0 <= i < leaves@.len() ==> (#[trigger] leaves@[i]).encodable()
                &&& encoded@.len() == leaves@.len()
                &&& forall|i: int|
                    0 <= i < leaves@.len() ==> (#[trigger] encoded@[i])@ == leaves@[i].encoding()
            },
            Err(MerkleError::EncodingError(i)) => {
                &&& i < leaves@.len()
                &&& !leaves@[i as int].encodable()
                &&& forall|j: int| 0 <= j < i ==> (#[trigger] leaves@[j]).encodable()
            },
            Err(MerkleError::EmptyInputError) => false,
        },
{
    let mut bytes_vector: Vec<Vec<u8>> = Vec::with_capacity(leaves.len());
    let mut idx: usize = 0;
    while idx < leaves.len()
        invariant
            idx <= leaves@.len(),
            bytes_vector@.len() == idx,
            forall|j: int| 0 <= j < idx ==> (#[trigger] leaves@[j]).encodable(),
            forall|j: int|
                0 <= j < idx ==> (#[trigger] bytes_vector@[j])@ == leaves@[j].encoding(),
        decreases leaves@.len() - idx,
    {
        match leaves[idx].encode() {
            Some(bytes) => bytes_vector.push(bytes),
            None => return Err(MerkleError::EncodingError(idx)),
        }
        idx += 1;
    }
    Ok(bytes_vector)
}

/// The result of one construction call: the root digest, the ordered leaf
/// digests (index-aligned with the input leaves), and the hash function used.
#[derive(Debug)]
pub struct MerkleTree<H: HashFn> {
    /// The root digest summarizing all leaves.
    pub root: Vec<u8>,
    /// The digest of each encoded leaf, in input order.
    pub hashed_leaves: Vec<Vec<u8>>,
    /// The hash function the construction used.
    pub hash_fn: H,
}

/// Construct the Merkle tree of the given leaves: encode each leaf to its
/// canonical bytes, hash each encoding with `hash_fn`, then reduce the
/// digests pairwise to the root. Fails with `EmptyInputError` exactly on zero
/// leaves, and with `EncodingError(i)` exactly when leaf `i` is the first one
/// without a canonical encoding.
pub fn construct_merkle_tree<T: Encodable, H: HashFn>(leaves: &[T], hash_fn: H) -> (result: Result<
    MerkleTree<H>,
    MerkleError,
>)
    ensures
        match result {
            Ok(tree) => {
                &&& leaves@.len() >= 1
                &&& forall|i: int| 0 <= i < leaves@.len() ==> (#[trigger] leaves@[i]).encodable()
                &&& tree.hashed_leaves@.len() == leaves@.len()
                &&& forall|i: int|
                    0 <= i < leaves@.len() ==> (#[trigger] tree.hashed_leaves@[i])@
                        == hash_fn.hash_spec(leaves@[i].encoding())
                &&& tree.root@ == merkle_root_of_leaves(hash_fn, leaves@)
                &&& tree.hash_fn == hash_fn
            },
            Err(MerkleError::EmptyInputError) => leaves@.len() == 0,
            Err(MerkleError::EncodingError(i)) => {
                &&& i < leaves@.len()
                &&& !leaves@[i as int].encodable()
                &&& forall|j: int| 0 <= j < i ==> (#[trigger] leaves@[j]).encodable()
            },
        },
{
    if leaves.len() == 0 {
        return Err(MerkleError::EmptyInputError);
    }
    let byte_leaves = match convert_to_bytes(leaves) {
        Ok(encoded) => encoded,
        Err(error) => {
            return Err(error);
        },
    };
    let mut hashed_leaves: Vec<Vec<u8>> = Vec::with_capacity(byte_leaves.len());
    let mut k: usize = 0;
    while k < byte_leaves.len()
        invariant
            k <= byte_leaves@.len(),
            hashed_leaves@.len() == k,
            byte_leaves@.len() == leaves@.len(),
            forall|j: int|
                0 <= j < byte_leaves@.len() ==> (#[trigger] byte_leaves@[j])@
                    == leaves@[j].encoding(),
            forall|j: int|
                0 <= j < k ==> (#[trigger] hashed_leaves@[j])@ == hash_fn.hash_spec(
                    leaves@[j].encoding(),
                ),
        decreases byte_leaves@.len() - k,
    {
        hashed_leaves.push(hash_fn.hash(byte_leaves[k].as_slice()));
        k += 1;
    }
    proof {
        assert(byte_views(hashed_leaves@) =~= leaf_digests(hash_fn, leaf_encodings(leaves@)));
    }
    let root = generate_merkle_root(hashed_leaves.as_slice(), &hash_fn);
    Ok(MerkleTree { root, hashed_leaves, hash_fn })
}

/// Determinism: the root is a pure function of the ordered leaves and the
/// hash function, so two constructions from the same input yield the same
/// root.
pub proof fn lemma_build_deterministic<T: Encodable, H: HashFn>(
    h: H,
    leaves: Seq<T>,
    root1: Seq<u8>,
    root2: Seq<u8>,
)
    requires
        root1 == merkle_root_of_leaves(h, leaves),
        root2 == merkle_root_of_leaves(h, leaves),
    ensures
        root1 == root2,
{
}

/// Single-leaf identity: the root of a one-leaf input is the hash of that
/// leaf's encoding alone; no pairing occurs.
pub proof fn lemma_single_leaf_root<T: Encodable, H: HashFn>(h: H, leaf: T)
    ensures
        merkle_root_of_leaves(h, seq![leaf]) == h.hash_spec(leaf.encoding()),
{
    assert(leaf_digests(h, leaf_encodings(seq![leaf])) =~= seq![h.hash_spec(leaf.encoding())]);
}

/// For a level of exactly two digests, the root is the hash of their
/// concatenation, first then second.
pub proof fn lemma_two_digest_root<H: HashFn>(h: H, d1: Seq<u8>, d2: Seq<u8>)
    ensures
        merkle_root(h, seq![d1, d2]) == h.hash_spec(d1 + d2),
{
    let level = seq![d1, d2];
    assert(level.skip(2).len() == 0);
    assert(parent_level(h, level.skip(2)) == level.skip(2));
    assert(parent_level(h, level) =~= seq![h.hash_spec(d1 + d2)]);
    assert(merkle_root(h, seq![h.hash_spec(d1 + d2)]) == h.hash_spec(d1 + d2));
}

/// Pairing correctness: for a two-leaf input [a, b] the root is
/// H(H(enc(a)) ++ H(enc(b))).
pub proof fn lemma_pairing<T: Encodable, H: HashFn>(h: H, a: T, b: T)
    ensures
        merkle_root_of_leaves(h, seq![a, b]) == h.hash_spec(
            h.hash_spec(a.encoding()) + h.hash_spec(b.encoding()),
        ),
{
    let da = h.hash_spec(a.encoding());
    let db = h.hash_spec(b.encoding());
    assert(leaf_digests(h, leaf_encodings(seq![a, b])) =~= seq![da, db]);
    lemma_two_digest_root(h, da, db);
}

/// No silent leaf loss on an odd level: for digests [d1, d2, d3] the root is
/// H(H(d1 ++ d2) ++ d3) — the trailing digest is carried forward and paired
/// at the next level, never dropped.
pub proof fn lemma_three_digest_root<H: HashFn>(h: H, d1: Seq<u8>, d2: Seq<u8>, d3: Seq<u8>)
    ensures
        merkle_root(h, seq![d1, d2, d3]) == h.hash_spec(h.hash_spec(d1 + d2) + d3),
{
    let level = seq![d1, d2, d3];
    assert(level.skip(2) =~= seq![d3]);
    assert(level.skip(2).len() == 1);
    assert(parent_level(h, level.skip(2)) == level.skip(2));
    assert(parent_level(h, level) =~= seq![h.hash_spec(d1 + d2), d3]);
    lemma_two_digest_root(h, h.hash_spec(d1 + d2), d3);
}

/// No silent leaf loss at the leaf level: for a three-leaf input [a, b, c]
/// the root is H(H(H(enc(a)) ++ H(enc(b))) ++ H(enc(c))), so the root
/// depends on the trailing leaf exactly as the carry-forward policy states.
pub proof fn lemma_three_leaf_root<T: Encodable, H: HashFn>(h: H, a: T, b: T, c: T)
    ensures
        merkle_root_of_leaves(h, seq![a, b, c]) == h.hash_spec(
            h.hash_spec(h.hash_spec(a.encoding()) + h.hash_spec(b.encoding())) + h.hash_spec(
                c.encoding(),
            ),
        ),
{
    let da = h.hash_spec(a.encoding());
    let db = h.hash_spec(b.encoding());
    let dc = h.hash_spec(c.encoding());
    assert(leaf_digests(h, leaf_encodings(seq![a, b, c])) =~= seq![da, db, dc]);
    lemma_three_digest_root(h, da, db, dc);
}

/// Order sensitivity: swapping two distinct digests of equal length changes
/// the byte string fed to the root hash, so the two roots agree only where
/// the hash function maps those two different inputs to the same digest.
pub proof fn lemma_order_sensitivity<H: HashFn>(h: H, d1: Seq<u8>, d2: Seq<u8>)
    requires
        d1 != d2,
        d1.len() == d2.len(),
    ensures
        d1 + d2 != d2 + d1,
        merkle_root(h, seq![d1, d2]) == h.hash_spec(d1 + d2),
        merkle_root(h, seq![d2, d1]) == h.hash_spec(d2 + d1),
        merkle_root(h, seq![d1, d2]) == merkle_root(h, seq![d2, d1]) ==> h.hash_spec(d1 + d2)
            == h.hash_spec(d2 + d1),
{
    lemma_two_digest_root(h, d1, d2);
    lemma_two_digest_root(h, d2, d1);
    if d1 + d2 == d2 + d1 {
        assert forall|i: int| 0 <= i < d1.len() implies d1[i] == d2[i] by {
            assert((d1 + d2)[i] == d1[i]);
            assert((d2 + d1)[i] == d2[i]);
        }
        assert(d1 =~= d2);
    }
}

} // verus!
