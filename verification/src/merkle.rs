//! Merkle trees over the transactions of a block.
use vstd::prelude::*;
use crate::crypto::{sha3_256, sha3_256_digest};
use crate::transaction::{Transaction, TransactionView, transaction_bytes};

verus! {

/// The 32 zero bytes that pad a level of leaves.
pub open spec fn zero_hash() -> Seq<u8> {
    Seq::new(32, |i: int| 0u8)
}

/// `n` is a power of two.
pub open spec fn is_pow2(n: nat) -> bool
    decreases n,
{
    if n <= 1 {
        n == 1
    } else {
        n % 2 == 0 && is_pow2(n / 2)
    }
}

/// The least power of two that is at least `n`, searched upward from `p`.
pub open spec fn pow2_at_least_from(n: nat, p: nat) -> nat
    decreases if p < n { n - p } else { 0 },
{
    if p == 0 || p >= n {
        p
    } else {
        pow2_at_least_from(n, 2 * p)
    }
}

/// The least power of two that is at least `n` (and at least 1).
pub open spec fn pow2_at_least(n: nat) -> nat {
    pow2_at_least_from(n, 1)
}

/// The leaf of a transaction: the digest of its encoding.
pub open spec fn leaf_hash(t: TransactionView) -> Seq<u8> {
    sha3_256_digest(transaction_bytes(t))
}

/// The leaves of the tree: one per transaction, then zero hashes up to a power of two
/// (one zero hash when there is no transaction).
pub open spec fn padded_leaves(txs: Seq<TransactionView>) -> Seq<Seq<u8>> {
    Seq::new(txs.len(), |i: int| leaf_hash(txs[i])) + Seq::new(
        (pow2_at_least(txs.len()) - txs.len()) as nat,
        |i: int| zero_hash(),
    )
}

/// The digest of two nodes, the left one first.
pub open spec fn node_hash(left: Seq<u8>, right: Seq<u8>) -> Seq<u8> {
    sha3_256_digest(left + right)
}

/// The level above `level`: each pair of neighbours hashed together.
pub open spec fn parent_level(level: Seq<Seq<u8>>) -> Seq<Seq<u8>> {
    Seq::new(level.len() / 2, |i: int| node_hash(level[2 * i], level[2 * i + 1]))
}

/// All levels from `level` up to a level of one node.
pub open spec fn tree_levels(level: Seq<Seq<u8>>) -> Seq<Seq<Seq<u8>>>
    decreases level.len(),
{
    if level.len() <= 1 {
        seq![level]
    } else {
        seq![level] + tree_levels(parent_level(level))
    }
}

/// The levels of the tree that `MerkleTree::build` makes of `txs`.
pub open spec fn merkle_levels(txs: Seq<TransactionView>) -> Seq<Seq<Seq<u8>>> {
    tree_levels(padded_leaves(txs))
}

/// The root of the tree over `txs`.
pub open spec fn merkle_root(txs: Seq<TransactionView>) -> Seq<u8> {
    merkle_levels(txs).last()[0]
}

/// The inclusion proof of the node at `idx` of the first of `levels`: for each level but
/// the last, the sibling (where there is one) and whether the node is the left one.
pub open spec fn proof_path(levels: Seq<Seq<Seq<u8>>>, idx: nat) -> Seq<(Seq<u8>, bool)>
    decreases levels.len(),
{
    if levels.len() <= 1 {
        Seq::empty()
    } else {
        let level = levels[0];
        let is_left = idx % 2 == 0;
        let sibling: int = if is_left { idx + 1int } else { idx - 1int };
        let here: Seq<(Seq<u8>, bool)> = if sibling < level.len() {
            seq![(level[sibling], is_left)]
        } else {
            Seq::empty()
        };
        here + proof_path(levels.drop_first(), idx / 2)
    }
}

/// The node that `path` leads to from `node`: at each step, the node is hashed with the
/// sibling, on the side that the flag gives.
pub open spec fn fold_proof(node: Seq<u8>, path: Seq<(Seq<u8>, bool)>) -> Seq<u8>
    decreases path.len(),
{
    if path.len() == 0 {
        node
    } else {
        let parent = if path[0].1 {
            node_hash(node, path[0].0)
        } else {
            node_hash(path[0].0, node)
        };
        fold_proof(parent, path.drop_first())
    }
}

/// A binary hash tree, stored level by level from the leaves to the root.
pub struct MerkleTree {
    nodes: Vec<Vec<[u8; 32]>>,
}

/// The levels of stored hashes as byte strings.
pub open spec fn levels_view(nodes: Seq<Vec<[u8; 32]>>) -> Seq<Seq<Seq<u8>>> {
    nodes.map_values(|l: Vec<[u8; 32]>| l@.map_values(|h: [u8; 32]| h@))
}

impl View for MerkleTree {
    type V = Seq<Seq<Seq<u8>>>;

    closed spec fn view(&self) -> Seq<Seq<Seq<u8>>> {
        levels_view(self.nodes@)
    }
}

/// Hashes two nodes together, `left` first.
fn hash_pair(left: &[u8; 32], right: &[u8; 32]) -> (h: [u8; 32])
    ensures
        h@ == node_hash(left@, right@),
{
    let mut bytes: Vec<u8> = Vec::new();
    let mut i: usize = 0;
    while i < 32
        invariant
            0 <= i <= 32,
            bytes@ == left@.subrange(0, i as int),
        decreases 32 - i,
    {
        bytes.push(left[i]);
        i = i + 1;
    }
    assert(bytes@ =~= left@);
    let mut j: usize = 0;
    while j < 32
        invariant
            0 <= j <= 32,
            bytes@ == left@ + right@.subrange(0, j as int),
        decreases 32 - j,
    {
        bytes.push(right[j]);
        j = j + 1;
        assert(bytes@ =~= left@ + right@.subrange(0, j as int));
    }
    assert(bytes@ =~= left@ + right@);
    sha3_256(bytes.as_slice())
}

pub proof fn lemma_pow2_at_least(n: nat, p: nat)
    requires
        is_pow2(p),
    ensures
        is_pow2(pow2_at_least_from(n, p)),
        pow2_at_least_from(n, p) >= n,
        pow2_at_least_from(n, p) >= p,
    decreases if p < n { n - p } else { 0 },
{
    if p >= n {
    } else {
        assert((2 * p) / 2 == p);
        lemma_pow2_at_least(n, 2 * p);
    }
}

/// The bit test of the padding loop in `build`: a nonzero length `x` is a power of two
/// exactly when `x & (x - 1)` is zero.
pub proof fn lemma_pow2_bits(x: usize)
    requires
        x >= 1,
    ensures
        (x & vstd::wrapping::usize_specs::wrapping_sub(x, 1) == 0) == is_pow2(x as nat),
    decreases x,
{
    assert(vstd::wrapping::usize_specs::wrapping_sub(x, 1) == x - 1);
    if x == 1 {
        assert(1usize & 0usize == 0) by (bit_vector);
    } else if x % 2 == 1 {
        assert(x & 1 == 1 && x > 1 ==> x & ((x - 1) as usize) != 0) by (bit_vector);
        assert(x % 2 == 1 ==> x & 1 == 1) by (bit_vector);
    } else {
        assert(x % 2 == 0 ==> x & 1 == 0) by (bit_vector);
        assert(x & 1 == 0 && x > 1 ==> ((x & ((x - 1) as usize) == 0) == ((x >> 1usize) & (((x
            >> 1usize) - 1) as usize) == 0))) by (bit_vector);
        assert(x >> 1usize == x / 2) by (bit_vector);
        lemma_pow2_bits(x / 2);
        assert(vstd::wrapping::usize_specs::wrapping_sub((x / 2) as usize, 1) == x / 2 - 1);
    }
}

/// Of two powers of two, the smaller is at most half the larger.
pub proof fn lemma_pow2_gap(p: nat, m: nat)
    requires
        is_pow2(p),
        is_pow2(m),
        p < m,
    ensures
        2 * p <= m,
    decreases m,
{
    if p == m / 2 {
    } else if p < m / 2 {
        lemma_pow2_gap(p, m / 2);
    } else {
        lemma_pow2_gap(p / 2, m / 2);
    }
}

/// `pow2_at_least` gives the least power of two that is at least `n`.
pub proof fn lemma_pow2_at_least_is_least(n: nat, p: nat, m: nat)
    requires
        is_pow2(p),
        is_pow2(m),
        p <= m,
        n <= m,
    ensures
        pow2_at_least_from(n, p) <= m,
    decreases if p < n { n - p } else { 0 },
{
    if p < n {
        lemma_pow2_gap(p, m);
        assert((2 * p) / 2 == p);
        lemma_pow2_at_least_is_least(n, 2 * p, m);
    }
}

impl MerkleTree {
    #[verifier::type_invariant]
    spec fn has_root(&self) -> bool {
        &&& self.nodes@.len() >= 1
        &&& self.nodes@.last()@.len() >= 1
    }

    /// Builds the tree over `items`: each leaf is the digest of a transaction's encoding,
    /// the leaves are padded with zero hashes to a power of two, and each level above
    /// hashes neighbouring pairs, up to a single root.
    pub fn build(items: &[Transaction]) -> (tree: Self)
        ensures
            tree@ == merkle_levels(items@.map_values(|t: Transaction| t@)),
    {
        let ghost txs = items@.map_values(|t: Transaction| t@);
        let ghost goal = padded_leaves(txs);
        let mut leaves: Vec<[u8; 32]> = Vec::new();
        let mut i: usize = 0;
        while i < items.len()
            invariant
                0 <= i <= items@.len(),
                txs == items@.map_values(|t: Transaction| t@),
                leaves@.len() == i,
                forall|j: int| 0 <= j < i ==> #[trigger] leaves@[j]@ == leaf_hash(txs[j]),
            decreases items@.len() - i,
        {
            let bytes = items[i].encode();
            leaves.push(sha3_256(bytes.as_slice()));
            i = i + 1;
        }
        let n = leaves.len();
        if leaves.len() == 0 {
            leaves.push([0u8; 32]);
            proof {
                let z = leaves@[0]@;
                assert(z =~= zero_hash());
            }
        }
        let ghost target = pow2_at_least(n as nat);
        proof {
            lemma_pow2_at_least(n as nat, 1);
        }
        while leaves.len() & leaves.len().wrapping_sub(1) != 0
            invariant
                1 <= leaves@.len() <= target,
                n <= leaves@.len(),
                txs.len() == n,
                target == pow2_at_least(n as nat),
                is_pow2(target),
                forall|j: int| 0 <= j < n ==> #[trigger] leaves@[j]@ == leaf_hash(txs[j]),
                forall|j: int| n <= j < leaves@.len() ==> #[trigger] leaves@[j]@ == zero_hash(),
            decreases target - leaves@.len(),
        {
            let len = leaves.len();
            proof {
                lemma_pow2_bits(len);
                if len == target {
                    assert(is_pow2(len as nat));
                }
            }
            leaves.push([0u8; 32]);
            proof {
                let z = leaves@[leaves@.len() - 1]@;
                assert(z =~= zero_hash());
            }
        }
        proof {
            lemma_pow2_bits(leaves.len());
            lemma_pow2_at_least_is_least(n as nat, 1, leaves@.len());
        }
        let ghost level0 = leaves@.map_values(|h: [u8; 32]| h@);
        assert(level0 =~= goal);
        let mut nodes: Vec<Vec<[u8; 32]>> = Vec::new();
        nodes.push(leaves);
        assert(levels_view(nodes@) =~= seq![goal]);
        assert(seq![goal].drop_last() + seq![goal] =~= seq![goal]);
        loop
            invariant
                nodes@.len() >= 1,
                nodes@.last()@.len() >= 1,
                is_pow2(nodes@.last()@.len() as nat),
                tree_levels(goal) == levels_view(nodes@).drop_last() + tree_levels(
                    levels_view(nodes@).last(),
                ),
            ensures
                nodes@.len() >= 1,
                nodes@.last()@.len() >= 1,
                tree_levels(goal) == levels_view(nodes@),
            decreases nodes@.last()@.len(),
        {
            let last_index = nodes.len() - 1;
            let current = &nodes[last_index];
            let ghost cur_view = levels_view(nodes@).last();
            if current.len() <= 1 {
                assert(levels_view(nodes@) =~= levels_view(nodes@).drop_last() + seq![cur_view]);
                break;
            }
            let half = current.len() / 2;
            let mut level: Vec<[u8; 32]> = Vec::new();
            let mut k: usize = 0;
            while k < half
                invariant
                    current@.len() >= 2,
                    half == current@.len() / 2,
                    2 * half <= current@.len(),
                    current@.len() <= usize::MAX,
                    cur_view == current@.map_values(|h: [u8; 32]| h@),
                    0 <= k <= half,
                    level@.len() == k,
                    forall|j: int| 0 <= j < k ==> #[trigger] level@[j]@ == parent_level(cur_view)[j],
                decreases half - k,
            {
                assert(2 * k + 1 < current@.len());
                let h = hash_pair(&current[2 * k], &current[2 * k + 1]);
                level.push(h);
                k = k + 1;
            }
            let ghost prev = nodes@;
            assert(level@.map_values(|h: [u8; 32]| h@) =~= parent_level(cur_view));
            nodes.push(level);
            assert(levels_view(nodes@).drop_last() =~= levels_view(prev));
            assert(levels_view(prev) =~= levels_view(prev).drop_last() + seq![cur_view]);
        }
        MerkleTree { nodes }
    }

    /// The root: the single node of the last level.
    pub fn root(&self) -> (h: [u8; 32])
        ensures
            self@.len() >= 1,
            self@.last().len() >= 1,
            h@ == self@.last()[0],
    {
        proof {
            use_type_invariant(self);
        }
        let last = &self.nodes[self.nodes.len() - 1];
        last[0]
    }

    /// The inclusion proof of leaf `index`: for each level below the root, the sibling
    /// of the node on the path (where the level has one) and whether that node is the
    /// left one of its pair.
    pub fn merkle_proof(&self, index: usize) -> (path: Vec<([u8; 32], bool)>)
        ensures
            path@.map_values(|p: ([u8; 32], bool)| (p.0@, p.1)) == proof_path(self@, index as nat),
    {
        proof {
            use_type_invariant(self);
        }
        let ghost levels = self@;
        let mut path: Vec<([u8; 32], bool)> = Vec::new();
        let mut idx: usize = index;
        let count = self.nodes.len() - 1;
        let mut k: usize = 0;
        assert(levels.subrange(0, levels.len() as int) =~= levels);
        assert(path@.map_values(|p: ([u8; 32], bool)| (p.0@, p.1)) + proof_path(levels, index as nat)
            =~= proof_path(levels, index as nat));
        while k < count
            invariant
                count + 1 == self.nodes@.len(),
                levels == levels_view(self.nodes@),
                0 <= k <= count,
                proof_path(levels, index as nat) == path@.map_values(
                    |p: ([u8; 32], bool)| (p.0@, p.1),
                ) + proof_path(levels.subrange(k as int, levels.len() as int), idx as nat),
            decreases count - k,
        {
            let level = &self.nodes[k];
            let ghost rest = levels.subrange(k as int, levels.len() as int);
            let ghost before = path@.map_values(|p: ([u8; 32], bool)| (p.0@, p.1));
            assert(rest[0] == level@.map_values(|h: [u8; 32]| h@));
            assert(rest.drop_first() =~= levels.subrange(k + 1, levels.len() as int));
            let is_left = idx % 2 == 0;
            let sibling = if is_left { idx + 1 } else { idx - 1 };
            if sibling < level.len() {
                path.push((level[sibling], is_left));
                assert(path@.map_values(|p: ([u8; 32], bool)| (p.0@, p.1)) =~= before + seq![
                    (rest[0][sibling as int], is_left),
                ]);
            }
            idx = idx / 2;
            k = k + 1;
        }
        assert(levels.subrange(count as int, levels.len() as int).len() == 1);
        assert(path@.map_values(|p: ([u8; 32], bool)| (p.0@, p.1)) + Seq::<(Seq<u8>, bool)>::empty()
            =~= path@.map_values(|p: ([u8; 32], bool)| (p.0@, p.1)));
        path
    }
}

/// From any node of a level whose size is a power of two, the proof path of that node
/// leads to the root of the levels above it.
pub proof fn lemma_fold_proof_reaches_root(level: Seq<Seq<u8>>, idx: nat)
    requires
        is_pow2(level.len()),
        idx < level.len(),
    ensures
        fold_proof(level[idx as int], proof_path(tree_levels(level), idx)) == tree_levels(
            level,
        ).last()[0],
    decreases level.len(),
{
    let levels = tree_levels(level);
    if level.len() <= 1 {
        assert(levels == seq![level]);
    } else {
        let up = parent_level(level);
        assert(levels == seq![level] + tree_levels(up));
        assert(levels.drop_first() =~= tree_levels(up));
        assert(levels[0] == level);
        let is_left = idx % 2 == 0;
        let sibling: int = if is_left { idx + 1int } else { idx - 1int };
        assert(sibling < level.len());
        let path = proof_path(levels, idx);
        let rest = proof_path(tree_levels(up), idx / 2);
        assert(path =~= seq![(level[sibling], is_left)] + rest);
        assert(path[0] == (level[sibling], is_left));
        assert(path.drop_first() =~= rest);
        let parent = if is_left {
            node_hash(level[idx as int], level[sibling])
        } else {
            node_hash(level[sibling], level[idx as int])
        };
        assert(up[(idx / 2) as int] == parent);
        assert(fold_proof(level[idx as int], path) == fold_proof(parent, rest));
        assert(up.len() == level.len() / 2);
        lemma_fold_proof_reaches_root(up, idx / 2);
        assert(tree_levels(up).len() >= 1) by {
            lemma_tree_levels_nonempty(up);
        }
        assert(levels.last() == tree_levels(up).last());
    }
}

pub proof fn lemma_tree_levels_nonempty(level: Seq<Seq<u8>>)
    ensures
        tree_levels(level).len() >= 1,
    decreases level.len(),
{
    if level.len() > 1 {
        lemma_tree_levels_nonempty(parent_level(level));
    }
}

pub proof fn lemma_padded_leaves_pow2(txs: Seq<TransactionView>)
    ensures
        is_pow2(padded_leaves(txs).len()),
        padded_leaves(txs).len() >= txs.len(),
{
    lemma_pow2_at_least(txs.len(), 1);
}

/// Merkle inclusion: for every transaction of a block, folding its leaf hash along the
/// proof that the tree gives for its index yields the tree's root.
pub proof fn lemma_inclusion_proof_verifies(txs: Seq<TransactionView>, index: nat)
    requires
        index < txs.len(),
    ensures
        fold_proof(leaf_hash(txs[index as int]), proof_path(merkle_levels(txs), index))
            == merkle_root(txs),
{
    lemma_padded_leaves_pow2(txs);
    assert(padded_leaves(txs)[index as int] == leaf_hash(txs[index as int]));
    lemma_fold_proof_reaches_root(padded_leaves(txs), index);
}

/// The leaves of the tree over `txs`: the digest of each transaction's encoding, in
/// order, then zero hashes; their number is the least power of two that is at least the
/// number of transactions (and at least 1).
pub proof fn lemma_leaves_shape(txs: Seq<TransactionView>, m: nat)
    ensures
        is_pow2(padded_leaves(txs).len()),
        padded_leaves(txs).len() >= txs.len(),
        padded_leaves(txs).len() >= 1,
        is_pow2(m) && m >= txs.len() ==> padded_leaves(txs).len() <= m,
        forall|i: int| 0 <= i < txs.len() ==> #[trigger] padded_leaves(txs)[i] == sha3_256_digest(
            transaction_bytes(txs[i]),
        ),
        forall|i: int| txs.len() <= i < padded_leaves(txs).len() ==> #[trigger] padded_leaves(txs)[i]
            == Seq::new(32, |j: int| 0u8),
{
    lemma_pow2_at_least(txs.len(), 1);
    if is_pow2(m) && m >= txs.len() {
        lemma_pow2_one_is_least(m);
        lemma_pow2_at_least_is_least(txs.len(), 1, m);
    }
}

proof fn lemma_pow2_one_is_least(m: nat)
    requires
        is_pow2(m),
    ensures
        1 <= m,
    decreases m,
{
}

/// Each node above the leaves is the digest of its left child's bytes followed by its
/// right child's, and each level has half as many nodes as the one below.
pub proof fn lemma_parent_nodes(level: Seq<Seq<u8>>, i: int)
    requires
        level.len() >= 2,
        level.len() % 2 == 0,
        0 <= i < level.len() / 2,
    ensures
        tree_levels(level)[0] == level,
        tree_levels(level)[1].len() == level.len() / 2,
        tree_levels(level)[1][i] == sha3_256_digest(level[2 * i] + level[2 * i + 1]),
{
    lemma_tree_levels_nonempty(parent_level(level));
    assert(tree_levels(level) == seq![level] + tree_levels(parent_level(level)));
    assert(tree_levels(parent_level(level))[0] == parent_level(level)) by {
        if parent_level(level).len() > 1 {
        }
    }
}

/// The first step of an inclusion proof is the sibling of the node: the node to its right
/// when its index is even (flag true), the node to its left when odd (flag false).
pub proof fn lemma_proof_first_step(level: Seq<Seq<u8>>, idx: nat)
    requires
        is_pow2(level.len()),
        level.len() >= 2,
        idx < level.len(),
    ensures
        proof_path(tree_levels(level), idx).len() >= 1,
        idx % 2 == 0 ==> proof_path(tree_levels(level), idx)[0] == (level[idx + 1int], true),
        idx % 2 == 1 ==> proof_path(tree_levels(level), idx)[0] == (level[idx - 1int], false),
{
    let levels = tree_levels(level);
    assert(levels == seq![level] + tree_levels(parent_level(level)));
    assert(levels[0] == level);
    lemma_tree_levels_nonempty(parent_level(level));
}

} // verus!
