//! Blocks and their headers.
use vstd::prelude::*;
use crate::codec::{bincode_header, header_encoding};
use crate::crypto::{sha3_256, sha3_256_digest};
use crate::merkle::{MerkleTree, merkle_root};
use crate::state::{State, state_root};
use crate::transaction::{Transaction, TransactionView, duplicate_transactions};

verus! {

/// What a block commits to: its parent, the state, its transactions, its height and time.
#[derive(Debug, Clone, Copy, PartialEq, Eq)]
pub struct BlockHeader {
    pub parent_hash: [u8; 32],
    pub state_root: [u8; 32],
    pub tx_root: [u8; 32],
    pub height: u64,
    pub timestamp: u64,
}

/// A header with the transactions it commits to.
#[derive(Debug, Clone, PartialEq, Eq)]
pub struct Block {
    pub header: BlockHeader,
    pub transactions: Vec<Transaction>,
}

/// A block as a mathematical value.
pub struct BlockView {
    pub header: BlockHeader,
    pub transactions: Seq<TransactionView>,
}

/// The transactions of a sequence, as values.
pub open spec fn transaction_views(txs: Seq<Transaction>) -> Seq<TransactionView> {
    txs.map_values(|t: Transaction| t@)
}

impl View for Block {
    type V = BlockView;

    open spec fn view(&self) -> BlockView {
        BlockView { header: self.header, transactions: transaction_views(self.transactions@) }
    }
}

/// The hash of a header: the SHA3-256 digest of its encoding.
pub open spec fn header_hash(h: BlockHeader) -> Seq<u8> {
    sha3_256_digest(
        header_encoding(h.parent_hash@, h.state_root@, h.tx_root@, h.height, h.timestamp),
    )
}

/// `b` is the block that `Block::new` makes on top of a block with header `parent`, over
/// a state with root `root`, at time `timestamp`: it links to the parent's hash, commits
/// to the state root and to the Merkle root of its own transactions, and is one higher
/// than the parent.
pub open spec fn is_child_block(b: BlockView, parent: BlockHeader, root: Seq<u8>, timestamp: u64) -> bool {
    &&& b.header.parent_hash@ == header_hash(parent)
    &&& b.header.state_root@ == root
    &&& b.header.tx_root@ == merkle_root(b.transactions)
    &&& b.header.height == parent.height + 1
    &&& b.header.timestamp == timestamp
}

/// `b` is the genesis block over a state with root `root` at time `timestamp`.
pub open spec fn is_genesis_block(b: BlockView, root: Seq<u8>, timestamp: u64) -> bool {
    &&& b.header.parent_hash@ == Seq::new(32, |i: int| 0u8)
    &&& b.header.state_root@ == root
    &&& b.header.tx_root@ == Seq::new(32, |i: int| 0u8)
    &&& b.header.height == 0
    &&& b.header.timestamp == timestamp
    &&& b.transactions.len() == 0
}

impl Block {
    /// The block's hash: the SHA3-256 digest of the bincode encoding of its header.
    pub fn hash(&self) -> (h: [u8; 32])
        ensures
            h@ == header_hash(self.header),
    {
        let bytes = bincode_header(
            &self.header.parent_hash,
            &self.header.state_root,
            &self.header.tx_root,
            self.header.height,
            self.header.timestamp,
        );
        sha3_256(bytes.as_slice())
    }

    /// The block on top of `parent` that holds `transactions`, with the root of `state`.
    pub fn new(parent: &Block, transactions: Vec<Transaction>, state: &State, timestamp: u64) -> (b: Self)
        requires
            parent.header.height < u64::MAX,
        ensures
            is_child_block(b@, parent.header, state_root(*state), timestamp),
            b.transactions == transactions,
    {
        let tree = MerkleTree::build(transactions.as_slice());
        let tx_root = tree.root();
        assert(transactions@.map_values(|t: Transaction| t@) == transaction_views(transactions@));
        Block {
            header: BlockHeader {
                parent_hash: parent.hash(),
                state_root: state.root(),
                tx_root,
                height: parent.header.height + 1,
                timestamp,
            },
            transactions,
        }
    }

    /// The first block: zero parent hash and transaction root, height 0, no transactions.
    pub fn genesis(state: &State, timestamp: u64) -> (b: Self)
        ensures
            is_genesis_block(b@, state_root(*state), timestamp),
    {
        let b = Block {
            header: BlockHeader {
                parent_hash: [0u8; 32],
                state_root: state.root(),
                tx_root: [0u8; 32],
                height: 0,
                timestamp,
            },
            transactions: Vec::new(),
        };
        assert(b.header.parent_hash@ =~= Seq::new(32, |i: int| 0u8));
        assert(b.header.tx_root@ =~= Seq::new(32, |i: int| 0u8));
        b
    }

    /// A copy of this block.
    pub(crate) fn duplicate(&self) -> (b: Self)
        ensures
            b@ == self@,
    {
        let transactions = duplicate_transactions(&self.transactions);
        let b = Block { header: self.header, transactions };
        assert(b@.transactions =~= self@.transactions);
        b
    }
}

} // verus!
