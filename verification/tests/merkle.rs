use merkle_tree::tree::convert_to_bytes;
use merkle_tree::{construct_merkle_tree, generate_merkle_root, Encodable, MerkleError, Sha256Hasher};
use sha2::Digest;

fn sha256(bytes: &[u8]) -> Vec<u8> {
    let mut hasher = sha2::Sha256::new();
    hasher.update(bytes);
    hasher.finalize().as_slice().to_vec()
}

fn concat(left: &[u8], right: &[u8]) -> Vec<u8> {
    let mut joined: Vec<u8> = left.to_vec();
    joined.extend_from_slice(right);
    joined
}

fn strings(words: &[&str]) -> Vec<String> {
    words.iter().map(|w| w.to_string()).collect()
}

/// An independent, iterative carry-forward reduction to check the library's
/// recursive one against.
fn reduce_carry_forward(mut level: Vec<Vec<u8>>) -> Vec<u8> {
    while level.len() > 1 {
        let mut next: Vec<Vec<u8>> = Vec::new();
        let mut i: usize = 0;
        while i + 1 < level.len() {
            next.push(sha256(&concat(&level[i], &level[i + 1])));
            i += 2;
        }
        if i < level.len() {
            next.push(level[i].clone());
        }
        level = next;
    }
    level[0].clone()
}

#[test]
fn determinism_same_root() {
    let leaves = strings(&["alpha", "beta", "gamma", "delta", "epsilon"]);
    let first = construct_merkle_tree(leaves.as_slice(), Sha256Hasher).unwrap();
    let second = construct_merkle_tree(leaves.as_slice(), Sha256Hasher).unwrap();
    assert_eq!(first.root, second.root);
    assert_eq!(first.hashed_leaves, second.hashed_leaves);
}

#[test]
fn single_leaf_identity() {
    let leaves = strings(&["to"]);
    let tree = construct_merkle_tree(leaves.as_slice(), Sha256Hasher).unwrap();
    assert_eq!(tree.root, sha256(b"to"));
    assert_eq!(tree.hashed_leaves, vec![sha256(b"to")]);
}

#[test]
fn pairing_two_leaves() {
    let leaves = strings(&["to", "be"]);
    let tree = construct_merkle_tree(leaves.as_slice(), Sha256Hasher).unwrap();
    let expected = sha256(&concat(&sha256(b"to"), &sha256(b"be")));
    assert_eq!(tree.root, expected);
}

#[test]
fn odd_input_carries_trailing_leaf() {
    let leaves = strings(&["to", "be", "or"]);
    let tree = construct_merkle_tree(leaves.as_slice(), Sha256Hasher).unwrap();
    let expected = sha256(&concat(
        &sha256(&concat(&sha256(b"to"), &sha256(b"be"))),
        &sha256(b"or"),
    ));
    assert_eq!(tree.root, expected);
}

#[test]
fn changing_trailing_leaf_changes_root() {
    let leaves = strings(&["to", "be", "or"]);
    let changed = strings(&["to", "be", "not"]);
    let root = construct_merkle_tree(leaves.as_slice(), Sha256Hasher).unwrap().root;
    let changed_root = construct_merkle_tree(changed.as_slice(), Sha256Hasher).unwrap().root;
    assert_ne!(root, changed_root);
}

#[test]
fn order_sensitivity() {
    let forward = strings(&["to", "be"]);
    let backward = strings(&["be", "to"]);
    let forward_root = construct_merkle_tree(forward.as_slice(), Sha256Hasher).unwrap().root;
    let backward_root = construct_merkle_tree(backward.as_slice(), Sha256Hasher).unwrap().root;
    assert_ne!(sha256(b"to"), sha256(b"be"));
    assert_ne!(forward_root, backward_root);
}

#[test]
fn empty_input_fails() {
    let leaves: Vec<String> = Vec::new();
    let result = construct_merkle_tree(leaves.as_slice(), Sha256Hasher);
    assert_eq!(result.unwrap_err(), MerkleError::EmptyInputError);
}

#[test]
fn nine_word_scenario() {
    let words = ["to", "be", "or", "not", "to", "be", "is", "the", "question"];
    let leaves = strings(&words);
    let tree = construct_merkle_tree(leaves.as_slice(), Sha256Hasher).unwrap();

    let digests: Vec<Vec<u8>> = words.iter().map(|w| sha256(w.as_bytes())).collect();
    assert_eq!(tree.hashed_leaves, digests);
    let expected = reduce_carry_forward(digests);
    assert_eq!(tree.root, expected);

    let again = construct_merkle_tree(leaves.as_slice(), Sha256Hasher).unwrap();
    assert_eq!(tree.root, again.root);
}

#[test]
fn nine_word_scenario_fixture() {
    let words = ["to", "be", "or", "not", "to", "be", "is", "the", "question"];
    let leaves = strings(&words);
    let tree = construct_merkle_tree(leaves.as_slice(), Sha256Hasher).unwrap();
    let expected = reduce_carry_forward(words.iter().map(|w| sha256(w.as_bytes())).collect());
    assert_eq!(hex::encode(&tree.root), hex::encode(&expected));
    assert_eq!(tree.root.len(), 32);
}

#[test]
fn encoding_error_reports_first_offending_index() {
    let long_leaf: String = "x".repeat(256);
    let leaves = vec!["ok".to_string(), long_leaf.clone(), long_leaf];
    let result = construct_merkle_tree(leaves.as_slice(), Sha256Hasher);
    assert_eq!(result.unwrap_err(), MerkleError::EncodingError(1));
}

#[test]
fn longest_encodable_leaf_is_accepted() {
    let leaf: String = "y".repeat(255);
    let leaves = vec![leaf.clone()];
    let tree = construct_merkle_tree(leaves.as_slice(), Sha256Hasher).unwrap();
    assert_eq!(tree.root, sha256(leaf.as_bytes()));
}

#[test]
fn string_encoding_is_utf8_bytes() {
    assert_eq!("to".to_string().encode().unwrap(), b"to".to_vec());
    assert_eq!("d\u{e9}j\u{e0}".to_string().encode().unwrap(), "d\u{e9}j\u{e0}".as_bytes().to_vec());
    assert_eq!("z".repeat(256).encode(), None);
}

#[test]
fn convert_to_bytes_is_index_aligned() {
    let leaves = strings(&["to", "be", "or"]);
    let encoded = convert_to_bytes(leaves.as_slice()).unwrap();
    assert_eq!(encoded, vec![b"to".to_vec(), b"be".to_vec(), b"or".to_vec()]);
}

#[test]
fn convert_to_bytes_fails_fast() {
    let leaves = vec!["fine".to_string(), "w".repeat(300)];
    assert_eq!(convert_to_bytes(leaves.as_slice()).unwrap_err(), MerkleError::EncodingError(1));
}

#[test]
fn multibyte_characters_count_as_bytes() {
    let leaf: String = "\u{e9}".repeat(128);
    assert_eq!(leaf.chars().count(), 128);
    assert_eq!(leaf.len(), 256);
    let leaves = vec![leaf];
    let result = construct_merkle_tree(leaves.as_slice(), Sha256Hasher);
    assert_eq!(result.unwrap_err(), MerkleError::EncodingError(0));
}

#[test]
fn generate_root_from_digests() {
    let digests = vec![sha256(b"a"), sha256(b"b"), sha256(b"c"), sha256(b"d")];
    let root = generate_merkle_root(digests.as_slice(), &Sha256Hasher);
    let left = sha256(&concat(&digests[0], &digests[1]));
    let right = sha256(&concat(&digests[2], &digests[3]));
    assert_eq!(root, sha256(&concat(&left, &right)));
}

#[test]
fn generate_root_single_digest_is_identity() {
    let digests = vec![sha256(b"lonely")];
    let root = generate_merkle_root(digests.as_slice(), &Sha256Hasher);
    assert_eq!(root, digests[0]);
}
