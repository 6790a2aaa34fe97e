//! The ledger state: accounts by address, and the rule that applies a transfer.
use vstd::prelude::*;
use crate::account::Account;
use crate::address_map::{
    Address, AddressMap, entries_map, key_index, upsert, lemma_entries_map_domain,
    lemma_entries_map_value,
};
use crate::codec::{account_table_encoding, bincode_account_table};
use crate::crypto::{sha3_256, sha3_256_digest};
use crate::transaction::{Transaction, TransactionView};

verus! {

broadcast use vstd::string::group_string_axioms;

/// The accounts of the ledger, each stored under an address.
#[derive(Debug)]
pub struct State {
    pub accounts: AddressMap<Account>,
}

/// Why a transaction is refused.
pub enum TxError {
    SenderNotFound,
    InvalidNonce,
    InsufficientBalance,
}

/// The message that `State::apply` returns for each refusal.
pub open spec fn tx_error_message(e: TxError) -> Seq<char> {
    match e {
        TxError::SenderNotFound => "Sender account not found"@,
        TxError::InvalidNonce => "Invalid nonce"@,
        TxError::InsufficientBalance => "Insufficient balance"@,
    }
}

/// The first check that `tx` fails on `accounts`, if any: the sender must exist,
/// the transaction must carry the sender's nonce, and the sender must hold the value.
pub open spec fn tx_check(accounts: Map<Address, Account>, tx: TransactionView) -> Option<TxError> {
    if !accounts.contains_key(tx.from) {
        Some(TxError::SenderNotFound)
    } else if accounts[tx.from].nonce != tx.nonce {
        Some(TxError::InvalidNonce)
    } else if accounts[tx.from].balance < tx.value {
        Some(TxError::InsufficientBalance)
    } else {
        None
    }
}

/// The sender's account after a transfer: value debited, nonce advanced.
pub open spec fn debited_sender(accounts: Map<Address, Account>, tx: TransactionView) -> Account {
    Account {
        address: tx.from,
        balance: (accounts[tx.from].balance - tx.value) as u64,
        nonce: (accounts[tx.from].nonce + 1) as u64,
    }
}

/// The receiver's account as the transfer finds it (after the debit): created empty
/// when missing.
pub open spec fn receiver_before_credit(accounts: Map<Address, Account>, tx: TransactionView) -> Account {
    let debited = accounts.insert(tx.from, debited_sender(accounts, tx));
    if debited.contains_key(tx.to) {
        debited[tx.to]
    } else {
        Account { address: tx.to, balance: 0, nonce: 0 }
    }
}

/// The receiver's account after the transfer: credited with the value.
pub open spec fn credited_receiver(accounts: Map<Address, Account>, tx: TransactionView) -> Account {
    let receiver = receiver_before_credit(accounts, tx);
    Account { balance: (receiver.balance + tx.value) as u64, ..receiver }
}

/// The accounts after a transfer that passed `tx_check`.
pub open spec fn transfer(accounts: Map<Address, Account>, tx: TransactionView) -> Map<Address, Account> {
    accounts.insert(tx.from, debited_sender(accounts, tx)).insert(
        tx.to,
        credited_receiver(accounts, tx),
    )
}

/// The entries of the account table after a transfer that passed `tx_check`: the
/// sender's entry is replaced in place, and the receiver's too, or appended when new.
pub open spec fn transfer_entries(entries: Seq<(Address, Account)>, tx: TransactionView) -> Seq<(Address, Account)> {
    let accounts = entries_map(entries);
    upsert(
        upsert(entries, tx.from, debited_sender(accounts, tx)),
        tx.to,
        credited_receiver(accounts, tx),
    )
}

/// The transfer stays within the range of `u64`: the sender's nonce can be advanced,
/// and a distinct receiver's balance can take the value.
pub open spec fn transfer_fits(accounts: Map<Address, Account>, tx: TransactionView) -> bool {
    tx_check(accounts, tx).is_none() ==> {
        &&& accounts[tx.from].nonce < u64::MAX
        &&& (tx.from != tx.to && accounts.contains_key(tx.to)) ==> accounts[tx.to].balance
            + tx.value <= u64::MAX
    }
}

/// The sum of the balances of `entries`.
pub open spec fn total_balance(entries: Seq<(Address, Account)>) -> int
    decreases entries.len(),
{
    if entries.len() == 0 {
        0
    } else {
        total_balance(entries.drop_last()) + entries.last().1.balance
    }
}

pub proof fn lemma_total_balance_update(s: Seq<(Address, Account)>, i: int, e: (Address, Account))
    requires
        0 <= i < s.len(),
    ensures
        total_balance(s.update(i, e)) == total_balance(s) - s[i].1.balance + e.1.balance,
    decreases s.len(),
{
    let t = s.update(i, e);
    if i < s.len() - 1 {
        assert(t.drop_last() =~= s.drop_last().update(i, e));
        lemma_total_balance_update(s.drop_last(), i, e);
    } else {
        assert(t.drop_last() =~= s.drop_last());
    }
}

pub proof fn lemma_total_balance_bounds(s: Seq<(Address, Account)>, i: int)
    requires
        0 <= i < s.len(),
    ensures
        0 <= s[i].1.balance <= total_balance(s),
    decreases s.len(),
{
    if i < s.len() - 1 {
        assert(s.drop_last()[i] == s[i]);
        lemma_total_balance_bounds(s.drop_last(), i);
        lemma_total_balance_nonnegative(s.drop_last());
    } else {
        lemma_total_balance_nonnegative(s.drop_last());
    }
}

pub proof fn lemma_total_balance_nonnegative(s: Seq<(Address, Account)>)
    ensures
        total_balance(s) >= 0,
    decreases s.len(),
{
    if s.len() > 0 {
        lemma_total_balance_nonnegative(s.drop_last());
    }
}

/// The entries of the account table in the form that is encoded: key, address,
/// balance, nonce.
pub open spec fn table_rows(entries: Seq<(Address, Account)>) -> Seq<([u8; 20], [u8; 20], u64, u64)> {
    entries.map_values(|e: (Address, Account)| (e.0, e.1.address, e.1.balance, e.1.nonce))
}

/// The root of an account table with these entries: the SHA3-256 digest of its encoding.
pub open spec fn ledger_root(entries: Seq<(Address, Account)>) -> Seq<u8> {
    sha3_256_digest(account_table_encoding(table_rows(entries)))
}

/// The state root: the root of the account table, its entries in the order kept.
pub open spec fn state_root(s: State) -> Seq<u8> {
    ledger_root(s.accounts.entries())
}

impl State {
    /// The total of all balances.
    pub open spec fn supply(&self) -> int {
        total_balance(self.accounts.entries())
    }

    /// A state without accounts.
    pub fn new() -> (s: Self)
        ensures
            s.accounts@ == Map::<Address, Account>::empty(),
            s.accounts.entries().len() == 0,
    {
        State { accounts: AddressMap::new() }
    }

    /// Applies a transfer. It is refused, and nothing changes, when the sender has no
    /// account, when its nonce differs from the transaction's, or when its balance is
    /// below the value (checked in that order). Otherwise the sender's account becomes
    /// (its address, balance minus value, nonce plus one), and the receiver's account,
    /// created with balance and nonce 0 if missing, is credited with the value.
    pub fn apply(&mut self, tx: &Transaction) -> (r: Result<(), String>)
        requires
            transfer_fits(old(self).accounts@, tx@),
        ensures
            match tx_check(old(self).accounts@, tx@) {
                Some(e) => r matches Err(msg) && msg@ == tx_error_message(e)
                    && final(self).accounts@ == old(self).accounts@
                    && final(self).accounts.entries() == old(self).accounts.entries(),
                None => r is Ok && final(self).accounts@ == transfer(old(self).accounts@, tx@)
                    && final(self).accounts.entries() == transfer_entries(
                    old(self).accounts.entries(),
                    tx@,
                ),
            },
            r is Ok ==> final(self).supply() == old(self).supply(),
    {
        let ghost m0 = self.accounts@;
        let ghost e0 = self.accounts.entries();
        let sender = match self.accounts.get(&tx.from) {
            Some(a) => *a,
            None => {
                return Err("Sender account not found".to_string());
            },
        };
        if sender.nonce != tx.nonce {
            return Err("Invalid nonce".to_string());
        }
        if sender.balance < tx.value {
            return Err("Insufficient balance".to_string());
        }
        let sender_balance = sender.balance - tx.value;
        let sender_nonce = sender.nonce + 1;
        let debited = Account { address: tx.from, balance: sender_balance, nonce: sender_nonce };
        proof {
            lemma_entries_map_domain(e0, tx.from);
            let k = key_index(e0, tx.from);
            lemma_entries_map_value(e0, k);
            lemma_total_balance_update(e0, k, (tx.from, debited));
        }
        self.accounts.insert(tx.from, debited);
        let ghost e1 = self.accounts.entries();
        let ghost m1 = self.accounts@;
        assert(m1 == m0.insert(tx.from, debited_sender(m0, tx@)));
        let receiver = match self.accounts.get(&tx.to) {
            Some(a) => *a,
            None => Account { address: tx.to, balance: 0, nonce: 0 },
        };
        assert(receiver == receiver_before_credit(m0, tx@));
        proof {
            if tx.from != tx.to && m0.contains_key(tx.to) {
                assert(m1[tx.to] == m0[tx.to]);
            }
        }
        let credited = Account {
            address: receiver.address,
            balance: receiver.balance + tx.value,
            nonce: receiver.nonce,
        };
        proof {
            lemma_entries_map_domain(e1, tx.to);
            if m1.contains_key(tx.to) {
                let k = key_index(e1, tx.to);
                lemma_entries_map_value(e1, k);
                lemma_total_balance_update(e1, k, (tx.to, credited));
            } else {
                assert(e1.push((tx.to, credited)).drop_last() =~= e1);
            }
        }
        self.accounts.insert(tx.to, credited);
        Ok(())
    }

    /// The state root: the SHA3-256 digest of the bincode encoding of the account table,
    /// its entries in the order kept.
    pub fn root(&self) -> (h: [u8; 32])
        ensures
            h@ == state_root(*self),
    {
        let entries = self.accounts.as_entries();
        let mut rows: Vec<([u8; 20], [u8; 20], u64, u64)> = Vec::new();
        let mut i: usize = 0;
        while i < entries.len()
            invariant
                0 <= i <= entries@.len(),
                entries@ == self.accounts.entries(),
                rows@ == table_rows(entries@).subrange(0, i as int),
            decreases entries@.len() - i,
        {
            let (key, account) = &entries[i];
            rows.push((*key, account.address, account.balance, account.nonce));
            i = i + 1;
            assert(rows@ =~= table_rows(entries@).subrange(0, i as int));
        }
        assert(rows@ =~= table_rows(entries@));
        let bytes = bincode_account_table(&rows);
        sha3_256(bytes.as_slice())
    }
}


/// A transfer that was applied cannot be applied a second time: the sender's nonce has
/// moved past the transaction's.
pub proof fn lemma_no_replay(accounts: Map<Address, Account>, tx: TransactionView)
    requires
        tx_check(accounts, tx).is_none(),
        transfer_fits(accounts, tx),
    ensures
        tx_check(transfer(accounts, tx), tx) == Some(TxError::InvalidNonce),
{
    let after = transfer(accounts, tx);
    assert(after.contains_key(tx.from));
    assert(after[tx.from].nonce == accounts[tx.from].nonce + 1);
}

/// What an applied transfer does to the accounts: the sender's nonce goes up by exactly
/// one and its address is the sender's; for a transfer between two accounts the value
/// moves from the sender's balance to the receiver's, the receiver (created empty when
/// missing) keeps its address and its nonce, and every other account is left as it was;
/// a transfer to oneself changes only the nonce.
pub proof fn lemma_transfer_effects(accounts: Map<Address, Account>, tx: TransactionView, other: Address)
    requires
        tx_check(accounts, tx).is_none(),
        transfer_fits(accounts, tx),
    ensures
        ({
            let after = transfer(accounts, tx);
            let sender = accounts[tx.from];
            &&& after.contains_key(tx.from)
            &&& after[tx.from].nonce == sender.nonce + 1
            &&& after[tx.from].address == tx.from
            &&& after.contains_key(tx.to)
            &&& tx.from != tx.to ==> {
                &&& after[tx.from].balance == sender.balance - tx.value
                &&& accounts.contains_key(tx.to) ==> {
                    &&& after[tx.to].balance == accounts[tx.to].balance + tx.value
                    &&& after[tx.to].nonce == accounts[tx.to].nonce
                    &&& after[tx.to].address == accounts[tx.to].address
                }
                &&& !accounts.contains_key(tx.to) ==> after[tx.to] == Account {
                    address: tx.to,
                    balance: tx.value,
                    nonce: 0,
                }
            }
            &&& tx.from == tx.to ==> after[tx.from].balance == sender.balance
            &&& other != tx.from && other != tx.to ==> {
                &&& after.contains_key(other) == accounts.contains_key(other)
                &&& accounts.contains_key(other) ==> after[other] == accounts[other]
            }
        }),
{
}

/// Which transfers are refused, and with which error: a transfer applies exactly when the
/// sender has an account, the transaction carries the sender's nonce, and the sender
/// holds at least the value; a missing sender is reported first, then a wrong nonce,
/// then a short balance.
pub proof fn lemma_refusals(accounts: Map<Address, Account>, tx: TransactionView)
    ensures
        tx_check(accounts, tx).is_none() <==> (accounts.contains_key(tx.from) && accounts[tx.from].nonce
            == tx.nonce && accounts[tx.from].balance >= tx.value),
        !accounts.contains_key(tx.from) ==> tx_check(accounts, tx) == Some(TxError::SenderNotFound),
        accounts.contains_key(tx.from) && accounts[tx.from].nonce != tx.nonce ==> tx_check(accounts, tx)
            == Some(TxError::InvalidNonce),
        accounts.contains_key(tx.from) && accounts[tx.from].nonce == tx.nonce
            && accounts[tx.from].balance < tx.value ==> tx_check(accounts, tx) == Some(
            TxError::InsufficientBalance,
        ),
{
}

/// Each refusal of a transfer has its own message.
pub proof fn lemma_tx_error_messages()
    ensures
        tx_error_message(TxError::SenderNotFound) == "Sender account not found"@,
        tx_error_message(TxError::InvalidNonce) == "Invalid nonce"@,
        tx_error_message(TxError::InsufficientBalance) == "Insufficient balance"@,
{
}

} // verus!
