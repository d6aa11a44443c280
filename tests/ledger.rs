use pedersen_merkle::{
    BlindingError, MerkleError, MerkleTree, PedersenCommitment, Transaction, TransactionLedger,
};

fn tx(amount: u64) -> Transaction {
    let t: Result<Transaction, BlindingError> = Transaction::new(amount);
    t.unwrap()
}

#[test]
fn ledger_finds_its_own_commitments_only() {
    let t1 = tx(42);
    let t2 = tx(99);
    let ledger = TransactionLedger::new(vec![t1.clone(), t2.clone()]).unwrap();
    assert!(ledger.find_transaction(&t2.commitment));
    assert!(ledger.find_transaction(&t1.commitment));
    let other = tx(42);
    assert!(!ledger.find_transaction(&other.commitment));
}

#[test]
fn ledger_root_hash_is_lowercase_hex_of_tree_root() {
    let t1 = tx(42);
    let t2 = tx(99);
    let ledger = TransactionLedger::new(vec![t1.clone(), t2.clone()]).unwrap();
    let root = ledger.root_hash();
    assert_eq!(root.len(), 128);
    assert!(root.chars().all(|c| c.is_ascii_digit() || ('a'..='f').contains(&c)));
    let tree = MerkleTree::new(vec![t1.commitment, t2.commitment]).unwrap();
    assert_eq!(root, hex::encode(tree.root_hash()));
}

#[test]
fn reversed_ledger_has_another_root() {
    let t1 = tx(42);
    let t2 = tx(99);
    let ledger = TransactionLedger::new(vec![t1.clone(), t2.clone()]).unwrap();
    let reversed = TransactionLedger::new(vec![t2, t1]).unwrap();
    assert_ne!(ledger.root_hash(), reversed.root_hash());
}

#[test]
fn empty_ledger_is_rejected() {
    assert!(matches!(TransactionLedger::new(Vec::new()), Err(MerkleError::EmptyLeafSet)));
}

#[test]
fn record_with_blinding_opens() {
    let pc = PedersenCommitment::new();
    let blinding = pc.random_blinding().unwrap();
    let t = Transaction::with_blinding(&pc, 567, &blinding);
    assert!(pc.verify(&t.commitment, 567, &blinding));
    assert!(!pc.verify(&t.commitment, 568, &blinding));
}

#[test]
fn single_record_ledger() {
    let t = tx(0);
    let ledger = TransactionLedger::new(vec![t.clone()]).unwrap();
    assert!(ledger.find_transaction(&t.commitment));
    let tree = MerkleTree::new(vec![t.commitment]).unwrap();
    assert_eq!(ledger.root_hash(), hex::encode(tree.root_hash()));
}
