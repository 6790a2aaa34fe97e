//! Value transfers between accounts.
use vstd::prelude::*;
use crate::address_map::Address;
use crate::codec::{bincode_transaction, transaction_encoding};

verus! {

/// A transfer of `value` from `from` to `to`, which must carry the sender's current nonce.
#[derive(Debug, Clone, PartialEq, Eq)]
pub struct Transaction {
    pub from: Address,
    pub to: Address,
    pub value: u64,
    pub nonce: u64,
    pub signature: Option<Vec<u8>>,
}

/// A transaction as a mathematical value.
pub struct TransactionView {
    pub from: Address,
    pub to: Address,
    pub value: u64,
    pub nonce: u64,
    pub signature: Option<Seq<u8>>,
}

impl View for Transaction {
    type V = TransactionView;

    open spec fn view(&self) -> TransactionView {
        TransactionView {
            from: self.from,
            to: self.to,
            value: self.value,
            nonce: self.nonce,
            signature: match self.signature {
                Some(s) => Some(s@),
                None => None,
            },
        }
    }
}

/// The bytes that identify a transaction (its bincode encoding).
pub open spec fn transaction_bytes(t: TransactionView) -> Seq<u8> {
    transaction_encoding(t.from@, t.to@, t.value, t.nonce, t.signature)
}

impl Transaction {
    /// An unsigned transfer.
    pub fn new(from: Address, to: Address, value: u64, nonce: u64) -> (t: Self)
        ensures
            t.from == from,
            t.to == to,
            t.value == value,
            t.nonce == nonce,
            t.signature.is_none(),
    {
        Transaction { from, to, value, nonce, signature: None }
    }

    /// The bincode encoding of this transaction.
    pub(crate) fn encode(&self) -> (bytes: Vec<u8>)
        ensures
            bytes@ == transaction_bytes(self@),
    {
        bincode_transaction(&self.from, &self.to, self.value, self.nonce, &self.signature)
    }

    /// A copy of this transaction.
    pub(crate) fn duplicate(&self) -> (t: Self)
        ensures
            t@ == self@,
    {
        let signature = match &self.signature {
            Some(s) => {
                let mut copy: Vec<u8> = Vec::new();
                let mut i: usize = 0;
                while i < s.len()
                    invariant
                        0 <= i <= s@.len(),
                        copy@ == s@.subrange(0, i as int),
                    decreases s@.len() - i,
                {
                    copy.push(s[i]);
                    i = i + 1;
                }
                assert(copy@ =~= s@);
                Some(copy)
            },
            None => None,
        };
        Transaction { from: self.from, to: self.to, value: self.value, nonce: self.nonce, signature }
    }
}

/// Copies of `txs`, in order.
pub(crate) fn duplicate_transactions(txs: &Vec<Transaction>) -> (copy: Vec<Transaction>)
    ensures
        copy@.len() == txs@.len(),
        forall|i: int| 0 <= i < txs@.len() ==> #[trigger] copy@[i]@ == txs@[i]@,
{
    let mut copy: Vec<Transaction> = Vec::new();
    let mut i: usize = 0;
    while i < txs.len()
        invariant
            0 <= i <= txs@.len(),
            copy@.len() == i,
            forall|j: int| 0 <= j < i ==> #[trigger] copy@[j]@ == txs@[j]@,
        decreases txs@.len() - i,
    {
        copy.push(txs[i].duplicate());
        i = i + 1;
    }
    copy
}

} // verus!
