use curve25519_dalek::ristretto::RistrettoPoint;
use pedersen_merkle::{MerkleError, MerkleNode, MerkleTree, PedersenCommitment};
use sha2::{Digest, Sha512};

fn create_test_commitments(count: usize) -> Vec<RistrettoPoint> {
    let pc = PedersenCommitment::new();
    (0..count)
        .map(|i| {
            let blinding = pc.random_blinding().unwrap();
            pc.commit((i * 10) as u64, &blinding)
        })
        .collect()
}

fn sha512_of(parts: &[&[u8]]) -> [u8; 64] {
    let mut hasher = Sha512::new();
    for p in parts {
        hasher.update(p);
    }
    let out = hasher.finalize();
    let mut a = [0u8; 64];
    a.copy_from_slice(&out[..64]);
    a
}

#[test]
fn test_merkle_tree_root_from_pedersen_commitments() {
    let commitments = create_test_commitments(5);
    let merkle_tree = MerkleTree::new(commitments.clone()).unwrap();
    let root = merkle_tree.root_hash();

    let merkle_tree2 = MerkleTree::new(commitments).unwrap();
    let root2 = merkle_tree2.root_hash();

    assert_eq!(root, root2);
}

#[test]
fn test_merkle_tree_with_single_commitment() {
    let commitments = create_test_commitments(1);
    let merkle_tree = MerkleTree::new(commitments.clone()).unwrap();
    let root = merkle_tree.root_hash();

    let mut hasher = Sha512::new();
    hasher.update(commitments[0].compress().as_bytes());
    let expected_hash = hasher.finalize();
    let mut expected_array = [0u8; 64];
    expected_array.copy_from_slice(&expected_hash[..64]);

    assert_eq!(root, expected_array);
}

#[test]
fn test_merkle_tree_with_odd_number_of_commitments() {
    let commitments = create_test_commitments(3);
    let tree = MerkleTree::new(commitments.clone()).unwrap();
    let root = tree.root_hash();

    let tree2 = MerkleTree::new(commitments).unwrap();
    assert_eq!(root, tree2.root_hash());
}

#[test]
fn test_merkle_tree_root_changes_on_leaf_order_change() {
    let mut commitments = create_test_commitments(3);
    let root1 = MerkleTree::new(commitments.clone()).unwrap().root_hash();

    commitments.swap(0, 1);
    let root2 = MerkleTree::new(commitments).unwrap().root_hash();

    assert_ne!(root1, root2);
}

#[test]
fn empty_leaf_set_is_rejected() {
    assert!(matches!(MerkleTree::new(Vec::new()), Err(MerkleError::EmptyLeafSet)));
}

#[test]
fn two_leaves_hash_their_encodings_in_order() {
    let c = create_test_commitments(2);
    let a = c[0].compress().to_bytes();
    let b = c[1].compress().to_bytes();
    let root = MerkleTree::new(c.clone()).unwrap().root_hash();
    assert_eq!(root, sha512_of(&[&a, &b]));
    assert_ne!(root, sha512_of(&[&b, &a]));
}

#[test]
fn three_leaves_pair_the_last_with_itself() {
    let c = create_test_commitments(3);
    let a = c[0].compress().to_bytes();
    let b = c[1].compress().to_bytes();
    let z = c[2].compress().to_bytes();
    let ab = sha512_of(&[&a, &b]);
    let zz = sha512_of(&[&z, &z]);
    let expected = sha512_of(&[&ab, &zz]);
    let tree = MerkleTree::new(c).unwrap();
    assert_eq!(tree.root_hash(), expected);
    match &tree.root {
        MerkleNode::Internal { left, right, hash } => {
            assert_eq!(*hash, expected);
            assert!(matches!(**left, MerkleNode::Internal { hash, .. } if hash == ab));
            assert!(matches!(**right, MerkleNode::Internal { hash, .. } if hash == zz));
        }
        MerkleNode::Leaf(_) => panic!("a tree over three leaves has an internal root"),
    }
}

#[test]
fn five_leaves_fold_in_three_levels() {
    let c = create_test_commitments(5);
    let e: Vec<[u8; 32]> = c.iter().map(|p| p.compress().to_bytes()).collect();
    let l1 = [
        sha512_of(&[&e[0], &e[1]]),
        sha512_of(&[&e[2], &e[3]]),
        sha512_of(&[&e[4], &e[4]]),
    ];
    let l2 = [sha512_of(&[&l1[0], &l1[1]]), sha512_of(&[&l1[2], &l1[2]])];
    let expected = sha512_of(&[&l2[0], &l2[1]]);
    assert_eq!(MerkleTree::new(c).unwrap().root_hash(), expected);
}

#[test]
fn three_leaf_tree_holds_the_inputs_in_order() {
    let c = create_test_commitments(3);
    let tree = MerkleTree::new(c.clone()).unwrap();
    let copy = tree.root.clone();
    let leaf = |n: &MerkleNode| match n {
        MerkleNode::Leaf(p) => *p,
        MerkleNode::Internal { .. } => panic!("expected a leaf"),
    };
    for root in [&tree.root, &copy] {
        match root {
            MerkleNode::Internal { left, right, .. } => {
                match (&**left, &**right) {
                    (
                        MerkleNode::Internal { left: a, right: b, .. },
                        MerkleNode::Internal { left: x, right: y, .. },
                    ) => {
                        assert_eq!(leaf(a), c[0]);
                        assert_eq!(leaf(b), c[1]);
                        assert_eq!(leaf(x), c[2]);
                        assert_eq!(leaf(y), c[2]);
                    }
                    _ => panic!("both children of the root are internal"),
                }
            }
            MerkleNode::Leaf(_) => panic!("a tree over three leaves has an internal root"),
        }
    }
}

#[test]
fn single_leaf_tree_root_is_the_leaf() {
    let c = create_test_commitments(1);
    let tree = MerkleTree::new(c.clone()).unwrap();
    assert!(matches!(tree.root, MerkleNode::Leaf(p) if p == c[0]));
}
