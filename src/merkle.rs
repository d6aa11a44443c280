//! A binary SHA-512 hash tree over an ordered sequence of commitments.
//!
//! Each level is folded into the next by hashing consecutive pairs, left to
//! right; an unpaired last node is paired with itself.

use crate::group::{compressed_bytes, point_log, ristretto_encoding};
use crate::hashing::{sha512, sha512_of};
use curve25519_dalek::ristretto::RistrettoPoint;
use vstd::arithmetic::power2::{lemma2_to64, lemma_pow2_unfold, pow2};
use vstd::prelude::*;
use vstd::slice::slice_to_vec;

verus! {

/// A node of the tree: a commitment, or two children with the digest of their
/// concatenated digests.
#[derive(Debug)]
pub enum MerkleNode {
    Leaf(RistrettoPoint),
    Internal { left: Box<MerkleNode>, right: Box<MerkleNode>, hash: [u8; 64] },
}

/// Why a tree could not be built.
#[derive(Debug, Clone, Copy, PartialEq, Eq, Structural)]
pub enum MerkleError {
    /// A tree summarises at least one commitment.
    EmptyLeafSet,
}

/// The bytes that stand for a commitment in the tree: its compressed encoding.
pub open spec fn leaf_digest(p: RistrettoPoint) -> Seq<u8> {
    ristretto_encoding(point_log(p))
}

/// The digest of a parent whose children have the given digests.
pub open spec fn pair_digest(left: Seq<u8>, right: Seq<u8>) -> Seq<u8> {
    sha512_of(left + right)
}

/// One fold: consecutive pairs hashed in order, the last of an odd level
/// hashed with itself.
pub open spec fn next_level(s: Seq<Seq<u8>>) -> Seq<Seq<u8>> {
    Seq::new(
        ((s.len() + 1) / 2) as nat,
        |i: int| pair_digest(s[2 * i], if 2 * i + 1 < s.len() { s[2 * i + 1] } else { s[2 * i] }),
    )
}

/// Folds levels until at most one digest is left.
pub open spec fn fold_levels(s: Seq<Seq<u8>>) -> Seq<Seq<u8>>
    decreases s.len(),
{
    if s.len() <= 1 {
        s
    } else {
        fold_levels(next_level(s))
    }
}

/// The digests of a sequence of commitments.
pub open spec fn leaf_digests(leaves: Seq<RistrettoPoint>) -> Seq<Seq<u8>> {
    leaves.map_values(|p: RistrettoPoint| leaf_digest(p))
}

/// The root digest of a tree over leaves with the given digests: a single leaf
/// is hashed on its own, more are folded to one.
pub open spec fn merkle_root(d: Seq<Seq<u8>>) -> Seq<u8> {
    if d.len() == 1 {
        sha512_of(d[0])
    } else {
        fold_levels(d)[0]
    }
}

impl MerkleNode {
    /// The bytes a parent hashes for this node.
    pub open spec fn digest(self) -> Seq<u8> {
        match self {
            MerkleNode::Leaf(p) => leaf_digest(p),
            MerkleNode::Internal { hash, .. } => hash@,
        }
    }

    /// Every internal node holds the digest of its children.
    pub open spec fn wf(self) -> bool
        decreases self,
    {
        match self {
            MerkleNode::Leaf(_) => true,
            MerkleNode::Internal { left, right, hash } => {
                &&& hash@ == pair_digest(left.digest(), right.digest())
                &&& left.wf()
                &&& right.wf()
            },
        }
    }
}

/// The digests of a sequence of nodes.
pub open spec fn node_digests(ns: Seq<MerkleNode>) -> Seq<Seq<u8>> {
    ns.map_values(|n: MerkleNode| n.digest())
}

/// The 64-byte array whose bytes are `d`.
pub open spec fn digest_array(d: Seq<u8>) -> [u8; 64] {
    choose|a: [u8; 64]| a@ == d
}

/// An array is the one `digest_array` picks for its own bytes.
pub proof fn lemma_digest_array(h: [u8; 64])
    ensures
        digest_array(h@) == h,
{
    let a = digest_array(h@);
    assert(a@ == h@);
    assert(a =~= h);
}

/// The parent of two nodes: both children and the digest of their digests.
pub open spec fn parent_node(left: MerkleNode, right: MerkleNode) -> MerkleNode {
    MerkleNode::Internal {
        left: Box::new(left),
        right: Box::new(right),
        hash: digest_array(pair_digest(left.digest(), right.digest())),
    }
}

/// One fold over nodes: consecutive pairs become parents in order, the last
/// node of an odd level is paired with itself.
pub open spec fn next_nodes(ns: Seq<MerkleNode>) -> Seq<MerkleNode> {
    Seq::new(
        ((ns.len() + 1) / 2) as nat,
        |i: int| parent_node(ns[2 * i], if 2 * i + 1 < ns.len() { ns[2 * i + 1] } else { ns[2 * i] }),
    )
}

/// Folds levels of nodes until at most one is left.
pub open spec fn fold_nodes(ns: Seq<MerkleNode>) -> Seq<MerkleNode>
    decreases ns.len(),
{
    if ns.len() <= 1 {
        ns
    } else {
        fold_nodes(next_nodes(ns))
    }
}

/// One leaf per commitment, in order.
pub open spec fn leaf_nodes(leaves: Seq<RistrettoPoint>) -> Seq<MerkleNode> {
    leaves.map_values(|p: RistrettoPoint| MerkleNode::Leaf(p))
}

/// The node tree over a non-empty sequence of commitments.
pub open spec fn tree_of(leaves: Seq<RistrettoPoint>) -> MerkleNode {
    fold_nodes(leaf_nodes(leaves))[0]
}

/// A tree over at least one commitment.
pub struct MerkleTree {
    pub root: MerkleNode,
}

/// A deep copy of a node.
fn copy_node(n: &MerkleNode) -> (r: MerkleNode)
    ensures
        r == *n,
    decreases n,
{
    match n {
        MerkleNode::Leaf(p) => MerkleNode::Leaf(*p),
        MerkleNode::Internal { left, right, hash } => MerkleNode::Internal {
            left: Box::new(copy_node(left)),
            right: Box::new(copy_node(right)),
            hash: *hash,
        },
    }
}

impl Clone for MerkleNode {
    /// A deep copy of the node.
    fn clone(&self) -> (r: MerkleNode)
        ensures
            r == *self,
    {
        copy_node(self)
    }
}

impl MerkleTree {
    /// The digest that summarises the tree.
    pub open spec fn root_spec(&self) -> Seq<u8> {
        match self.root {
            MerkleNode::Leaf(p) => sha512_of(leaf_digest(p)),
            MerkleNode::Internal { hash, .. } => hash@,
        }
    }

    /// Every internal node of the tree holds the digest of its children.
    pub open spec fn wf(&self) -> bool {
        self.root.wf()
    }

    /// The bytes a parent hashes for a node.
    fn node_hash_bytes(node: &MerkleNode) -> (r: Vec<u8>)
        ensures
            r@ == node.digest(),
            node is Leaf ==> r@.len() == 32,
            node is Internal ==> r@.len() == 64,
    {
        match node {
            MerkleNode::Leaf(pt) => compressed_bytes(pt),
            MerkleNode::Internal { hash, .. } => slice_to_vec(hash.as_slice()),
        }
    }

    /// The digest of the concatenated digests of two nodes.
    fn hash_nodes(left: &MerkleNode, right: &MerkleNode) -> (r: [u8; 64])
        ensures
            r@ == pair_digest(left.digest(), right.digest()),
    {
        let mut bytes = MerkleTree::node_hash_bytes(left);
        let mut r_bytes = MerkleTree::node_hash_bytes(right);
        bytes.append(&mut r_bytes);
        sha512(bytes.as_slice())
    }

    /// The parents of one level: consecutive pairs in order, the last node of
    /// an odd level paired with itself.
    fn parent_level(nodes: &Vec<MerkleNode>) -> (r: Vec<MerkleNode>)
        requires
            forall|k: int| 0 <= k < nodes.len() ==> (#[trigger] nodes[k]).wf(),
        ensures
            r.len() == (nodes.len() + 1) / 2,
            r@ == next_nodes(nodes@),
            node_digests(r@) == next_level(node_digests(nodes@)),
            forall|k: int| 0 <= k < r.len() ==> (#[trigger] r[k]).wf() && r[k] is Internal,
    {
        let n = nodes.len();
        let half = n / 2 + n % 2;
        let ghost level = node_digests(nodes@);
        let mut parents: Vec<MerkleNode> = Vec::new();
        let mut j: usize = 0;
        while j < half
            invariant
                n == nodes.len(),
                half == (n + 1) / 2,
                j <= half,
                parents.len() == j,
                level == node_digests(nodes@),
                forall|k: int| 0 <= k < n ==> (#[trigger] nodes[k]).wf(),
                forall|k: int|
                    0 <= k < j ==> (#[trigger] parents[k]).wf() && parents[k] is Internal
                        && parents[k].digest() == next_level(level)[k]
                        && parents[k] == next_nodes(nodes@)[k],
            decreases half - j,
        {
            let li = 2 * j;
            let ri = if li + 1 < n {
                li + 1
            } else {
                li
            };
            let left = copy_node(&nodes[li]);
            let right = copy_node(&nodes[ri]);
            let hash = MerkleTree::hash_nodes(&left, &right);
            proof {
                lemma_digest_array(hash);
            }
            parents.push(MerkleNode::Internal { left: Box::new(left), right: Box::new(right), hash });
            j += 1;
        }
        assert(node_digests(parents@) =~= next_level(level));
        assert(parents@ =~= next_nodes(nodes@));
        parents
    }

    /// Folds levels until one node is left.
    fn build_tree(nodes: Vec<MerkleNode>) -> (r: MerkleNode)
        requires
            nodes.len() >= 1,
            forall|k: int| 0 <= k < nodes.len() ==> (#[trigger] nodes[k]).wf(),
        ensures
            r.wf(),
            r.digest() == fold_levels(node_digests(nodes@))[0],
            r == fold_nodes(nodes@)[0],
            nodes.len() == 1 ==> r == nodes[0],
            nodes.len() > 1 ==> r is Internal,
    {
        let ghost init = nodes@;
        let mut nodes = nodes;
        while nodes.len() > 1
            invariant
                nodes.len() >= 1,
                forall|k: int| 0 <= k < nodes.len() ==> (#[trigger] nodes[k]).wf(),
                fold_levels(node_digests(nodes@)) == fold_levels(node_digests(init)),
                fold_nodes(nodes@) == fold_nodes(init),
                init.len() == 1 ==> nodes@ == init,
                nodes@ == init || forall|k: int| 0 <= k < nodes.len() ==> (#[trigger] nodes[k]) is Internal,
            decreases nodes.len(),
        {
            let parents = MerkleTree::parent_level(&nodes);
            nodes = parents;
        }
        nodes.remove(0)
    }

    /// Builds the tree over the commitments, in order; an empty sequence is
    /// rejected.
    pub fn new(leaves: Vec<RistrettoPoint>) -> (r: Result<MerkleTree, MerkleError>)
        ensures
            leaves.len() == 0 <==> r is Err,
            r matches Err(e) ==> e == MerkleError::EmptyLeafSet,
            r matches Ok(t) ==> {
                &&& t.wf()
                &&& t.root_spec() == merkle_root(leaf_digests(leaves@))
                &&& t.root == tree_of(leaves@)
                &&& leaves.len() == 1 ==> t.root == MerkleNode::Leaf(leaves[0])
                &&& leaves.len() > 1 ==> t.root is Internal
            },
    {
        if leaves.len() == 0 {
            return Err(MerkleError::EmptyLeafSet);
        }
        let mut nodes: Vec<MerkleNode> = Vec::new();
        let mut i: usize = 0;
        while i < leaves.len()
            invariant
                i <= leaves.len(),
                nodes.len() == i,
                forall|k: int| 0 <= k < i ==> #[trigger] nodes[k] == MerkleNode::Leaf(leaves[k]),
            decreases leaves.len() - i,
        {
            nodes.push(MerkleNode::Leaf(leaves[i]));
            i += 1;
        }
        assert(node_digests(nodes@) =~= leaf_digests(leaves@));
        assert(nodes@ =~= leaf_nodes(leaves@));
        let root = MerkleTree::build_tree(nodes);
        Ok(MerkleTree { root })
    }

    /// The 64-byte digest that summarises the tree; for a single leaf, the
    /// digest of its encoding.
    pub fn root_hash(&self) -> (r: [u8; 64])
        ensures
            r@ == self.root_spec(),
    {
        match &self.root {
            MerkleNode::Internal { hash, .. } => *hash,
            MerkleNode::Leaf(pt) => {
                let bytes = compressed_bytes(pt);
                sha512(bytes.as_slice())
            },
        }
    }
}

/// Building a tree twice from the same ordered sequence of commitments gives
/// the same root digest; the commitments need only be equal as group elements.
pub proof fn lemma_root_deterministic(a: Seq<RistrettoPoint>, b: Seq<RistrettoPoint>)
    requires
        a.len() == b.len(),
        forall|i: int| 0 <= i < a.len() ==> point_log(#[trigger] a[i]) == point_log(b[i]),
    ensures
        merkle_root(leaf_digests(a)) == merkle_root(leaf_digests(b)),
{
    assert(leaf_digests(a) =~= leaf_digests(b));
}

/// On a level of odd length the last parent is the last node hashed with
/// itself.
pub proof fn lemma_odd_level_pairs_last_with_itself(s: Seq<Seq<u8>>)
    requires
        s.len() % 2 == 1,
    ensures
        next_level(s).len() == (s.len() + 1) / 2,
        next_level(s).last() == pair_digest(s.last(), s.last()),
{
}

/// Three leaves fold as `[H(A‖B), H(C‖C)]`, then to the digest of those two.
pub proof fn lemma_three_leaves(a: Seq<u8>, b: Seq<u8>, c: Seq<u8>)
    ensures
        merkle_root(seq![a, b, c]) == pair_digest(pair_digest(a, b), pair_digest(c, c)),
{
    let s = seq![a, b, c];
    let l1 = next_level(s);
    assert(l1 =~= seq![pair_digest(a, b), pair_digest(c, c)]);
    let l2 = next_level(l1);
    assert(l2 =~= seq![pair_digest(pair_digest(a, b), pair_digest(c, c))]);
    assert(fold_levels(l2) == l2);
    assert(fold_levels(l1) == fold_levels(l2));
    assert(fold_levels(s) == fold_levels(l1));
}

/// The number of folds that bring `n` nodes down to one: `ceil(log2(n))`.
pub open spec fn fold_count(n: nat) -> nat
    decreases n,
{
    if n <= 1 {
        0
    } else {
        1 + fold_count(((n + 1) / 2) as nat)
    }
}

/// Whether every leaf under the node lies exactly `k` levels below it.
pub open spec fn is_perfect(n: MerkleNode, k: nat) -> bool
    decreases n,
{
    match n {
        MerkleNode::Leaf(_) => k == 0,
        MerkleNode::Internal { left, right, .. } => {
            k > 0 && is_perfect(*left, (k - 1) as nat) && is_perfect(*right, (k - 1) as nat)
        },
    }
}

/// The number of nodes under a node, itself included.
pub open spec fn node_count(n: MerkleNode) -> nat
    decreases n,
{
    match n {
        MerkleNode::Leaf(_) => 1,
        MerkleNode::Internal { left, right, .. } => 1 + node_count(*left) + node_count(*right),
    }
}

/// A perfect tree of height `k` holds `2^(k+1) - 1` nodes.
proof fn lemma_perfect_count(n: MerkleNode, k: nat)
    requires
        is_perfect(n, k),
    ensures
        node_count(n) + 1 == pow2(k + 1),
    decreases n,
{
    lemma_pow2_unfold(k + 1);
    match n {
        MerkleNode::Leaf(_) => {
            lemma2_to64();
        },
        MerkleNode::Internal { left, right, .. } => {
            lemma_perfect_count(*left, (k - 1) as nat);
            lemma_perfect_count(*right, (k - 1) as nat);
        },
    }
}

/// Folding a level of perfect nodes of one height keeps the result perfect.
proof fn lemma_fold_perfect(ns: Seq<MerkleNode>, k: nat)
    requires
        ns.len() >= 1,
        forall|i: int| 0 <= i < ns.len() ==> is_perfect(#[trigger] ns[i], k),
    ensures
        is_perfect(fold_nodes(ns)[0], k + fold_count(ns.len())),
    decreases ns.len(),
{
    if ns.len() > 1 {
        let next = next_nodes(ns);
        assert forall|i: int| 0 <= i < next.len() implies is_perfect(#[trigger] next[i], k + 1) by {
            let r = if 2 * i + 1 < ns.len() { 2 * i + 1 } else { 2 * i };
            assert(is_perfect(ns[2 * i], k) && is_perfect(ns[r], k));
        }
        lemma_fold_perfect(next, k + 1);
    }
}

/// A tree over `n` commitments is perfect: every leaf lies `ceil(log2(n))`
/// levels below the root, and the tree holds `2^(ceil(log2(n)) + 1) - 1`
/// nodes.
pub proof fn lemma_tree_is_perfect(leaves: Seq<RistrettoPoint>)
    requires
        leaves.len() >= 1,
    ensures
        is_perfect(tree_of(leaves), fold_count(leaves.len())),
        node_count(tree_of(leaves)) + 1 == pow2(fold_count(leaves.len()) + 1),
{
    lemma_fold_perfect(leaf_nodes(leaves), 0);
    lemma_perfect_count(tree_of(leaves), fold_count(leaves.len()));
}

/// Three commitments `[A, B, C]` give the tree
/// `((A, B), (C, C))`: the last node of the odd level is paired with itself.
pub proof fn lemma_three_leaf_tree(a: RistrettoPoint, b: RistrettoPoint, c: RistrettoPoint)
    ensures
        tree_of(seq![a, b, c]) == parent_node(
            parent_node(MerkleNode::Leaf(a), MerkleNode::Leaf(b)),
            parent_node(MerkleNode::Leaf(c), MerkleNode::Leaf(c)),
        ),
{
    let (la, lb, lc) = (MerkleNode::Leaf(a), MerkleNode::Leaf(b), MerkleNode::Leaf(c));
    let s = leaf_nodes(seq![a, b, c]);
    assert(s =~= seq![la, lb, lc]);
    let l1 = next_nodes(s);
    assert(l1 =~= seq![parent_node(la, lb), parent_node(lc, lc)]);
    let l2 = next_nodes(l1);
    assert(l2 =~= seq![parent_node(parent_node(la, lb), parent_node(lc, lc))]);
    assert(fold_nodes(l2) == l2);
    assert(fold_nodes(l1) == fold_nodes(l2));
    assert(fold_nodes(s) == fold_nodes(l1));
}

/// A tree over one commitment is that commitment's leaf.
pub proof fn lemma_single_leaf_tree(x: RistrettoPoint)
    ensures
        tree_of(seq![x]) == MerkleNode::Leaf(x),
{
    assert(leaf_nodes(seq![x]) =~= seq![MerkleNode::Leaf(x)]);
}

/// The root of a tree over one commitment is the digest of its encoding.
pub proof fn lemma_single_leaf_root(x: RistrettoPoint)
    ensures
        merkle_root(leaf_digests(seq![x])) == sha512_of(leaf_digest(x)),
{
    assert(leaf_digests(seq![x]) =~= seq![leaf_digest(x)]);
}

} // verus!
