use tiny_l1::{Account, State, Transaction};
use sha3::{Digest, Sha3_256};

fn addr(byte: u8) -> [u8; 20] {
    [byte; 20]
}

fn funded(address: [u8; 20], balance: u64, nonce: u64) -> State {
    let mut state = State::new();
    state.accounts.insert(address, Account { address, balance, nonce });
    state
}

fn total(state: &State, addresses: &[[u8; 20]]) -> u64 {
    addresses.iter().map(|a| state.accounts.get(a).map(|x| x.balance).unwrap_or(0)).sum()
}

#[test]
fn error_messages_name_the_refused_check() {
    let alice = addr(1);
    let bob = addr(2);
    let mut empty = State::new();
    let tx = Transaction::new(alice, bob, 5, 0);
    assert_eq!(empty.apply(&tx), Err("Sender account not found".to_string()));

    let mut state = funded(alice, 100, 3);
    assert_eq!(state.apply(&tx), Err("Invalid nonce".to_string()));

    let mut poor = funded(alice, 4, 0);
    assert_eq!(poor.apply(&tx), Err("Insufficient balance".to_string()));
}

#[test]
fn refused_transfer_changes_nothing() {
    let alice = addr(1);
    let bob = addr(2);
    let mut state = funded(alice, 50, 0);
    let before = state.root();
    assert!(state.apply(&Transaction::new(alice, bob, 60, 0)).is_err());
    assert_eq!(state.accounts.get(&alice), Some(&Account { address: alice, balance: 50, nonce: 0 }));
    assert!(state.accounts.get(&bob).is_none());
    assert_eq!(state.root(), before);
}

#[test]
fn applied_transfer_cannot_be_replayed() {
    let alice = addr(1);
    let bob = addr(2);
    let mut state = funded(alice, 100, 0);
    let tx = Transaction::new(alice, bob, 30, 0);
    assert_eq!(state.apply(&tx), Ok(()));
    assert_eq!(state.apply(&tx), Err("Invalid nonce".to_string()));
    assert_eq!(state.accounts.get(&alice).unwrap().balance, 70);
    assert_eq!(state.accounts.get(&bob).unwrap().balance, 30);
}

#[test]
fn transfers_conserve_the_supply() {
    let alice = addr(1);
    let bob = addr(2);
    let carol = addr(3);
    let mut state = funded(alice, 1_000, 0);
    state.accounts.insert(bob, Account { address: bob, balance: 7, nonce: 0 });
    let all = [alice, bob, carol];
    assert_eq!(total(&state, &all), 1_007);
    state.apply(&Transaction::new(alice, bob, 100, 0)).unwrap();
    state.apply(&Transaction::new(bob, carol, 50, 0)).unwrap();
    state.apply(&Transaction::new(alice, carol, 1, 1)).unwrap();
    assert_eq!(total(&state, &all), 1_007);
    assert_eq!(state.accounts.get(&carol).unwrap().balance, 51);
}

#[test]
fn transfer_to_self_only_advances_the_nonce() {
    let alice = addr(1);
    let mut state = funded(alice, 100, 0);
    state.apply(&Transaction::new(alice, alice, 40, 0)).unwrap();
    assert_eq!(state.accounts.get(&alice), Some(&Account { address: alice, balance: 100, nonce: 1 }));
    assert_eq!(state.accounts.len(), 1);
}

#[test]
fn whole_balance_can_be_sent() {
    let alice = addr(1);
    let bob = addr(2);
    let mut state = funded(alice, 100, 0);
    state.apply(&Transaction::new(alice, bob, 100, 0)).unwrap();
    assert_eq!(state.accounts.get(&alice).unwrap().balance, 0);
    assert_eq!(state.accounts.get(&bob).unwrap().balance, 100);
}

#[test]
fn account_table_insert_replaces_and_reports_previous() {
    let alice = addr(1);
    let mut state = State::new();
    assert!(state.accounts.is_empty());
    let first = Account { address: alice, balance: 1, nonce: 0 };
    let second = Account { address: alice, balance: 2, nonce: 5 };
    assert_eq!(state.accounts.insert(alice, first), None);
    assert_eq!(state.accounts.insert(alice, second), Some(first));
    assert_eq!(state.accounts.get(&alice), Some(&second));
    assert_eq!(state.accounts.len(), 1);
    assert!(state.accounts.contains_key(&alice));
    assert!(!state.accounts.contains_key(&addr(9)));
}

fn account_row(key: [u8; 20], a: &Account) -> Vec<u8> {
    let mut row = key.to_vec();
    row.extend_from_slice(&a.address);
    row.extend_from_slice(&a.balance.to_le_bytes());
    row.extend_from_slice(&a.nonce.to_le_bytes());
    row
}

#[test]
fn state_root_hashes_the_encoded_account_table() {
    let empty = State::new();
    let expected_empty: [u8; 32] = Sha3_256::digest(0u64.to_le_bytes()).into();
    assert_eq!(empty.root(), expected_empty);

    let alice = addr(1);
    let bob = addr(2);
    let mut state = funded(alice, 500, 2);
    state.accounts.insert(bob, Account { address: bob, balance: 9, nonce: 1 });
    let mut bytes = 2u64.to_le_bytes().to_vec();
    bytes.extend(account_row(alice, state.accounts.get(&alice).unwrap()));
    bytes.extend(account_row(bob, state.accounts.get(&bob).unwrap()));
    let expected: [u8; 32] = Sha3_256::digest(&bytes).into();
    assert_eq!(state.root(), expected);
    assert_ne!(state.root(), empty.root());
}
