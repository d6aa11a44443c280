//! A ledger of committed records, summarised by a hash tree over their
//! commitments.

use crate::group::{is_residue, point_log, points_equal, scalar_val};
use crate::hashing::{hex_digits, hex_encode, hex_of, lemma_hex_shape};
use crate::merkle::{leaf_digests, merkle_root, tree_of, MerkleError, MerkleTree};
use crate::pedersen::{commit_log, derived_h_log, BlindingError, PedersenCommitment};
use curve25519_dalek::ristretto::RistrettoPoint;
use curve25519_dalek::scalar::Scalar;
use vstd::prelude::*;

verus! {

/// A record: the commitment to an amount that is not kept.
#[derive(Debug, Clone)]
pub struct Transaction {
    pub commitment: RistrettoPoint,
}

/// The commitments of a sequence of records, in order.
pub open spec fn commitments(txs: Seq<Transaction>) -> Seq<RistrettoPoint> {
    txs.map_values(|t: Transaction| t.commitment)
}

impl Transaction {
    /// A record committing to `amount` with a fresh engine and a fresh random
    /// blinding factor.
    pub fn new(amount: u64) -> (r: Result<Transaction, BlindingError>)
        ensures
            r matches Ok(t) ==> exists|b: int|
                is_residue(b) && #[trigger] commit_log(amount as int, b, 1, derived_h_log())
                    == point_log(t.commitment),
            r matches Err(e) ==> e == BlindingError::EntropyUnavailable,
    {
        let pc = PedersenCommitment::new();
        match pc.random_blinding() {
            Ok(blinding) => {
                let t = Transaction::with_blinding(&pc, amount, &blinding);
                assert(commit_log(amount as int, scalar_val(blinding), 1, derived_h_log())
                    == point_log(t.commitment));
                Ok(t)
            },
            Err(e) => Err(e),
        }
    }

    /// A record committing to `amount` under `blinding` with the given engine.
    pub fn with_blinding(pc: &PedersenCommitment, amount: u64, blinding: &Scalar) -> (r: Transaction)
        ensures
            pc.opens(point_log(r.commitment), amount as int, scalar_val(*blinding)),
    {
        Transaction { commitment: pc.commit(amount, blinding) }
    }
}

/// Records in order, and the tree over their commitments.
pub struct TransactionLedger {
    pub transactions: Vec<Transaction>,
    pub tree: MerkleTree,
}

impl TransactionLedger {
    /// The tree summarises the records' commitments, in order.
    pub open spec fn wf(&self) -> bool {
        &&& self.tree.wf()
        &&& self.tree.root_spec() == merkle_root(leaf_digests(commitments(self.transactions@)))
    }

    /// Whether some record holds a commitment equal to `c`.
    pub open spec fn holds(&self, c: RistrettoPoint) -> bool {
        exists|i: int|
            0 <= i < self.transactions.len() && point_log(#[trigger] self.transactions[i].commitment)
                == point_log(c)
    }

    /// The ledger over the records, in the given order; an empty list is
    /// rejected, as the tree needs a commitment.
    pub fn new(transactions: Vec<Transaction>) -> (r: Result<TransactionLedger, MerkleError>)
        ensures
            transactions.len() == 0 <==> r is Err,
            r matches Err(e) ==> e == MerkleError::EmptyLeafSet,
            r matches Ok(l) ==> {
                &&& l.wf()
                &&& l.transactions@ == transactions@
                &&& l.tree.root == tree_of(commitments(transactions@))
            },
    {
        let mut leaves: Vec<RistrettoPoint> = Vec::new();
        let mut i: usize = 0;
        while i < transactions.len()
            invariant
                i <= transactions.len(),
                leaves@ == commitments(transactions@.take(i as int)),
            decreases transactions.len() - i,
        {
            leaves.push(transactions[i].commitment);
            i += 1;
            assert(commitments(transactions@.take(i as int)) =~= commitments(
                transactions@.take(i - 1),
            ).push(transactions[i - 1].commitment));
        }
        assert(transactions@.take(i as int) =~= transactions@);
        match MerkleTree::new(leaves) {
            Ok(tree) => Ok(TransactionLedger { transactions, tree }),
            Err(e) => Err(e),
        }
    }

    /// The tree's root digest in lowercase hexadecimal: 128 characters.
    pub fn root_hash(&self) -> (r: String)
        ensures
            r@ == hex_of(self.tree.root_spec()),
            r@.len() == 128,
            forall|i: int| 0 <= i < r@.len() ==> hex_digits().contains(#[trigger] r@[i]),
    {
        let digest = self.tree.root_hash();
        proof {
            lemma_hex_shape(digest@);
        }
        hex_encode(&digest)
    }

    /// Whether some record holds a commitment equal to `commitment`: a linear
    /// scan of the records.
    pub fn find_transaction(&self, commitment: &RistrettoPoint) -> (r: bool)
        ensures
            r == self.holds(*commitment),
    {
        let mut i: usize = 0;
        while i < self.transactions.len()
            invariant
                i <= self.transactions.len(),
                forall|k: int|
                    0 <= k < i ==> point_log(#[trigger] self.transactions[k].commitment) != point_log(
                        *commitment,
                    ),
            decreases self.transactions.len() - i,
        {
            if points_equal(&self.transactions[i].commitment, commitment) {
                return true;
            }
            i += 1;
        }
        false
    }
}

} // verus!
