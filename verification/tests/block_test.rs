use sha3::{Digest, Sha3_256};
use tiny_l1::block::{Block, BlockHeader};
use tiny_l1::{MerkleTree, State, Transaction};

fn header_hash(h: &BlockHeader) -> [u8; 32] {
    let mut bytes = h.parent_hash.to_vec();
    bytes.extend_from_slice(&h.state_root);
    bytes.extend_from_slice(&h.tx_root);
    bytes.extend_from_slice(&h.height.to_le_bytes());
    bytes.extend_from_slice(&h.timestamp.to_le_bytes());
    Sha3_256::digest(&bytes).into()
}

#[test]
fn genesis_block_fields() {
    let state = State::new();
    let genesis = Block::genesis(&state, 42);
    assert_eq!(genesis.header.parent_hash, [0u8; 32]);
    assert_eq!(genesis.header.tx_root, [0u8; 32]);
    assert_eq!(genesis.header.state_root, state.root());
    assert_eq!(genesis.header.height, 0);
    assert_eq!(genesis.header.timestamp, 42);
    assert!(genesis.transactions.is_empty());
    assert_eq!(genesis.header.tx_root, MerkleTree::build(&[]).root());
}

#[test]
fn block_hash_is_the_digest_of_the_encoded_header() {
    let state = State::new();
    let genesis = Block::genesis(&state, 7);
    assert_eq!(genesis.hash(), header_hash(&genesis.header));
    assert_ne!(genesis.hash(), [0u8; 32]);
    let later = Block::genesis(&state, 8);
    assert_ne!(genesis.hash(), later.hash());
}

#[test]
fn child_block_links_to_its_parent() {
    let state = State::new();
    let genesis = Block::genesis(&state, 0);
    let txs = vec![Transaction::new([1u8; 20], [2u8; 20], 3, 0)];
    let child = Block::new(&genesis, txs.clone(), &state, 9);
    assert_eq!(child.header.parent_hash, genesis.hash());
    assert_eq!(child.header.state_root, state.root());
    assert_eq!(child.header.tx_root, MerkleTree::build(&txs).root());
    assert_eq!(child.header.height, 1);
    assert_eq!(child.header.timestamp, 9);
    assert_eq!(child.transactions, txs);
    let grandchild = Block::new(&child, vec![], &state, 10);
    assert_eq!(grandchild.header.height, 2);
    assert_eq!(grandchild.header.parent_hash, header_hash(&child.header));
}
