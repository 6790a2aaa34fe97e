use sha3::{Digest, Sha3_256};
use tiny_l1::{MerkleTree, Transaction};

fn tx_bytes(tx: &Transaction) -> Vec<u8> {
    let mut bytes = tx.from.to_vec();
    bytes.extend_from_slice(&tx.to);
    bytes.extend_from_slice(&tx.value.to_le_bytes());
    bytes.extend_from_slice(&tx.nonce.to_le_bytes());
    match &tx.signature {
        None => bytes.push(0),
        Some(s) => {
            bytes.push(1);
            bytes.extend_from_slice(&(s.len() as u64).to_le_bytes());
            bytes.extend_from_slice(s);
        }
    }
    bytes
}

fn leaf(tx: &Transaction) -> [u8; 32] {
    Sha3_256::digest(tx_bytes(tx)).into()
}

fn node(left: &[u8; 32], right: &[u8; 32]) -> [u8; 32] {
    let mut h = Sha3_256::new();
    h.update(left);
    h.update(right);
    h.finalize().into()
}

fn fold(start: [u8; 32], path: &[([u8; 32], bool)]) -> [u8; 32] {
    path.iter().fold(start, |acc, (sibling, is_left)| {
        if *is_left { node(&acc, sibling) } else { node(sibling, &acc) }
    })
}

fn txs(n: u64) -> Vec<Transaction> {
    (0..n).map(|i| Transaction::new([1u8; 20], [2u8; 20], 10 + i, i)).collect()
}

#[test]
fn empty_tree_root_is_the_zero_hash() {
    let tree = MerkleTree::build(&[]);
    assert_eq!(tree.root(), [0u8; 32]);
    assert!(tree.merkle_proof(0).is_empty());
}

#[test]
fn single_transaction_root_is_its_leaf() {
    let items = txs(1);
    let tree = MerkleTree::build(&items);
    assert_eq!(tree.root(), leaf(&items[0]));
    assert_ne!(tree.root(), [0u8; 32]);
}

#[test]
fn signature_bytes_enter_the_leaf() {
    let mut tx = Transaction::new([1u8; 20], [2u8; 20], 5, 0);
    tx.signature = Some(vec![7, 8, 9]);
    let tree = MerkleTree::build(&[tx.clone()]);
    assert_eq!(tree.root(), leaf(&tx));
    let plain = MerkleTree::build(&[Transaction::new([1u8; 20], [2u8; 20], 5, 0)]);
    assert_ne!(tree.root(), plain.root());
}

#[test]
fn three_leaves_are_padded_to_four() {
    let items = txs(3);
    let tree = MerkleTree::build(&items);
    let zero = [0u8; 32];
    let expected = node(&node(&leaf(&items[0]), &leaf(&items[1])), &node(&leaf(&items[2]), &zero));
    assert_eq!(tree.root(), expected);
    let path = tree.merkle_proof(2);
    assert_eq!(path, vec![(zero, true), (node(&leaf(&items[0]), &leaf(&items[1])), false)]);
}

#[test]
fn every_inclusion_proof_leads_to_the_root() {
    for n in 1..=9u64 {
        let items = txs(n);
        let tree = MerkleTree::build(&items);
        for (i, tx) in items.iter().enumerate() {
            let path = tree.merkle_proof(i);
            assert_eq!(fold(leaf(tx), &path), tree.root(), "n={} i={}", n, i);
        }
    }
}

#[test]
fn proof_beyond_the_leaves_has_no_siblings() {
    let items = txs(4);
    let tree = MerkleTree::build(&items);
    assert_eq!(tree.merkle_proof(4).len(), 0);
    assert_eq!(tree.merkle_proof(usize::MAX).len(), 0);
    assert_eq!(tree.merkle_proof(3).len(), 2);
}
