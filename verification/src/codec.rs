//! Byte encodings of the chain's records, produced by `bincode` (its default
//! configuration: fixed-width little-endian integers, arrays written element by
//! element, sequences prefixed by their length as a `u64`, `Option` as a tag byte).
use vstd::prelude::*;
use vstd::arithmetic::power::pow;

verus! {

/// The eight little-endian bytes of `x`.
pub open spec fn u64_le(x: u64) -> Seq<u8> {
    Seq::new(8, |i: int| ((x as int / pow(256, i as nat)) % 256) as u8)
}

/// Encoding of a block header: the three hashes, then height and timestamp.
pub open spec fn header_encoding(
    parent_hash: Seq<u8>,
    state_root: Seq<u8>,
    tx_root: Seq<u8>,
    height: u64,
    timestamp: u64,
) -> Seq<u8> {
    parent_hash + state_root + tx_root + u64_le(height) + u64_le(timestamp)
}

/// Encoding of an optional byte string: a tag byte, then (when present) the
/// length as a `u64` and the bytes.
pub open spec fn option_bytes_encoding(bytes: Option<Seq<u8>>) -> Seq<u8> {
    match bytes {
        None => seq![0u8],
        Some(b) => seq![1u8] + u64_le(b.len() as u64) + b,
    }
}

/// Encoding of a transaction: sender, receiver, value, nonce, signature.
pub open spec fn transaction_encoding(
    from: Seq<u8>,
    to: Seq<u8>,
    value: u64,
    nonce: u64,
    signature: Option<Seq<u8>>,
) -> Seq<u8> {
    from + to + u64_le(value) + u64_le(nonce) + option_bytes_encoding(signature)
}

/// Encoding of one entry of the account table: the key, then the account's
/// address, balance and nonce.
pub open spec fn account_entry_encoding(entry: ([u8; 20], [u8; 20], u64, u64)) -> Seq<u8> {
    entry.0@ + entry.1@ + u64_le(entry.2) + u64_le(entry.3)
}

/// The encodings of `entries`, one after the other.
pub open spec fn account_entries_concat(entries: Seq<([u8; 20], [u8; 20], u64, u64)>) -> Seq<u8>
    decreases entries.len(),
{
    if entries.len() == 0 {
        Seq::empty()
    } else {
        account_entries_concat(entries.drop_last()) + account_entry_encoding(entries.last())
    }
}

/// Encoding of the account table: the number of entries as a `u64`, then the entries.
pub open spec fn account_table_encoding(entries: Seq<([u8; 20], [u8; 20], u64, u64)>) -> Seq<u8> {
    u64_le(entries.len() as u64) + account_entries_concat(entries)
}

/// Calls `bincode::serialize` on the tuple of a header's fields. bincode encodes a
/// struct as the tuple of its fields, so these are the bytes of the header itself.
/// The contract states the exact bytes of bincode's default encoding; serializing
/// arrays and integers into a `Vec` does not fail.
#[verifier::external_body]
pub(crate) fn bincode_header(
    parent_hash: &[u8; 32],
    state_root: &[u8; 32],
    tx_root: &[u8; 32],
    height: u64,
    timestamp: u64,
) -> (bytes: Vec<u8>)
    ensures
        bytes@ == header_encoding(parent_hash@, state_root@, tx_root@, height, timestamp),
{
    bincode::serialize(&(parent_hash, state_root, tx_root, height, timestamp)).unwrap()
}

/// Calls `bincode::serialize` on the tuple of a transaction's fields (the bytes of
/// the transaction record itself). The contract states the exact bytes of bincode's
/// default encoding; a `Vec<u8>` is written as its length and its bytes.
#[verifier::external_body]
pub(crate) fn bincode_transaction(
    from: &[u8; 20],
    to: &[u8; 20],
    value: u64,
    nonce: u64,
    signature: &Option<Vec<u8>>,
) -> (bytes: Vec<u8>)
    ensures
        bytes@ == transaction_encoding(
            from@,
            to@,
            value,
            nonce,
            match signature {
                Some(s) => Some(s@),
                None => None,
            },
        ),
{
    bincode::serialize(&(from, to, value, nonce, signature)).unwrap()
}

/// Calls `bincode::serialize` on the entries of the account table, each as the tuple
/// (key, address, balance, nonce). A map and a sequence of pairs have the same bincode
/// encoding: the count as a `u64`, then each key and value. The contract states those
/// bytes, for the entries in the order given.
#[verifier::external_body]
pub(crate) fn bincode_account_table(entries: &Vec<([u8; 20], [u8; 20], u64, u64)>) -> (bytes: Vec<u8>)
    ensures
        bytes@ == account_table_encoding(entries@),
{
    bincode::serialize(entries).unwrap()
}

} // verus!
