//! The smart-contract SDK: execution context, contract errors, host values
//! and key/value contract storage.
use vstd::prelude::*;

use crate::bytes::{hex_encode, hex_of, le_bytes, le_decode, le_value, lemma_le_roundtrip, lemma_pow256_16, push_le};
use crate::keymap::KeyMap;
use vstd::slice::slice_to_vec;
use vstd::string::StringExecFns;

verus! {

/// Execution context of a contract call.
#[derive(Clone, Copy, Debug)]
pub struct ContractContext {
    pub caller: [u8; 20],
    pub contract_address: [u8; 20],
    pub block_number: u64,
    pub timestamp: u64,
    pub value: u128,
}

impl ContractContext {
    /// The caller's address as lower-case hexadecimal text.
    pub fn caller_hex(&self) -> (s: String)
        ensures
            s@ == hex_of(self.caller@),
    {
        hex_encode(self.caller.as_slice())
    }

    /// The contract's address as lower-case hexadecimal text.
    pub fn address_hex(&self) -> (s: String)
        ensures
            s@ == hex_of(self.contract_address@),
    {
        hex_encode(self.contract_address.as_slice())
    }
}

/// Errors of contract execution.
#[derive(Debug, Clone, PartialEq, Eq)]
pub enum ContractError {
    InsufficientBalance,
    Unauthorized,
    StorageError(String),
    InvalidInput(String),
    Overflow,
    Custom(String),
}

/// The text shown for a contract error.
pub open spec fn contract_error_text(e: ContractError) -> Seq<char> {
    match e {
        ContractError::InsufficientBalance => "insufficient balance"@,
        ContractError::Unauthorized => "unauthorized"@,
        ContractError::StorageError(m) => "storage error: "@ + m@,
        ContractError::InvalidInput(m) => "invalid input: "@ + m@,
        ContractError::Overflow => "arithmetic overflow"@,
        ContractError::Custom(m) => m@,
    }
}

impl ContractError {
    /// The error's text.
    pub fn message(&self) -> (s: String)
        ensures
            s@ == contract_error_text(*self),
    {
        match self {
            ContractError::InsufficientBalance => String::from_str("insufficient balance"),
            ContractError::Unauthorized => String::from_str("unauthorized"),
            ContractError::StorageError(m) => crate::text::concat_str("storage error: ", m.as_str()),
            ContractError::InvalidInput(m) => crate::text::concat_str("invalid input: ", m.as_str()),
            ContractError::Overflow => String::from_str("arithmetic overflow"),
            ContractError::Custom(m) => String::from_str(m.as_str()),
        }
    }
}

/// Result of a contract operation.
pub type ContractResult<T> = Result<T, ContractError>;

/// Emit a log event; outside a host it is accepted and dropped.
pub fn emit_log(data: &[u8]) -> (r: ContractResult<()>)
    ensures
        r is Ok,
{
    Ok(())
}

/// The current block number (a fixed value outside a host).
pub fn get_block_number() -> (n: u64)
    ensures
        n == 1000,
{
    1000
}

/// The current block timestamp (a fixed value outside a host).
pub fn get_timestamp() -> (t: u64)
    ensures
        t == 1_700_000_000,
{
    1_700_000_000
}

/// The caller's address (a fixed value outside a host).
pub fn get_caller() -> (a: [u8; 20])
    ensures
        forall|i: int| 0 <= i < 20 ==> a[i] == 1,
{
    [1u8; 20]
}

/// Contract storage: byte-string keys mapped to byte-string values.
pub struct ContractStorage {
    entries: KeyMap<Vec<u8>, Vec<u8>>,
}

impl View for ContractStorage {
    type V = Map<Seq<u8>, Seq<u8>>;

    closed spec fn view(&self) -> Map<Seq<u8>, Seq<u8>> {
        self.entries@.map_values(|v: Vec<u8>| v@)
    }
}

impl ContractStorage {
    /// Empty storage.
    pub fn new() -> (s: Self)
        ensures
            s@ == Map::<Seq<u8>, Seq<u8>>::empty(),
    {
        let s = ContractStorage { entries: KeyMap::new() };
        proof {
            assert(s@ =~= Map::<Seq<u8>, Seq<u8>>::empty());
        }
        s
    }
}

/// The value stored under `key`, if any.
pub fn storage_read(store: &ContractStorage, key: &[u8]) -> (r: ContractResult<Option<Vec<u8>>>)
    ensures
        r is Ok,
        match r {
            Ok(Some(v)) => store@.contains_key(key@) && v@ == store@[key@],
            _ => !store@.contains_key(key@),
        },
{
    let k = slice_to_vec(key);
    match store.entries.get(&k) {
        Some(v) => Ok(Some(slice_to_vec(v.as_slice()))),
        None => Ok(None),
    }
}

/// Store `value` under `key`, replacing any earlier value.
pub fn storage_write(store: &mut ContractStorage, key: &[u8], value: &[u8]) -> (r: ContractResult<()>)
    ensures
        r is Ok,
        final(store)@ == old(store)@.insert(key@, value@),
{
    store.entries.insert(slice_to_vec(key), slice_to_vec(value));
    proof {
        assert(store@ =~= old(store)@.insert(key@, value@));
    }
    Ok(())
}

/// Remove the value stored under `key`; removing a missing key is no error.
pub fn storage_delete(store: &mut ContractStorage, key: &[u8]) -> (r: ContractResult<()>)
    ensures
        r is Ok,
        final(store)@ == old(store)@.remove(key@),
{
    let k = slice_to_vec(key);
    store.entries.remove(&k);
    proof {
        assert(store@ =~= old(store)@.remove(key@));
    }
    Ok(())
}

/// Remove every stored value.
pub fn clear_mock_storage(store: &mut ContractStorage)
    ensures
        final(store)@ == Map::<Seq<u8>, Seq<u8>>::empty(),
{
    store.entries = KeyMap::new();
    proof {
        assert(store@ =~= Map::<Seq<u8>, Seq<u8>>::empty());
    }
}

/// Read a `u128` stored as sixteen little-endian bytes; a missing key reads as 0.
pub fn read_u128(store: &ContractStorage, key: &[u8]) -> (r: ContractResult<u128>)
    ensures
        !store@.contains_key(key@) ==> r == Ok::<u128, ContractError>(0),
        store@.contains_key(key@) && store@[key@].len() == 16 ==> r == Ok::<u128, ContractError>(
            le_value(store@[key@]) as u128,
        ),
        store@.contains_key(key@) && store@[key@].len() != 16 ==> (r matches Err(
            ContractError::StorageError(m),
        ) && m@ == "invalid u128 encoding"@),
{
    match storage_read(store, key) {
        Ok(Some(bytes)) => {
            if bytes.len() == 16 {
                Ok(le_decode(bytes.as_slice()))
            } else {
                Err(ContractError::StorageError(String::from_str("invalid u128 encoding")))
            }
        },
        _ => Ok(0),
    }
}

/// Write a `u128` as sixteen little-endian bytes.
pub fn write_u128(store: &mut ContractStorage, key: &[u8], value: u128) -> (r: ContractResult<()>)
    ensures
        r is Ok,
        final(store)@ == old(store)@.insert(key@, le_bytes(value as nat, 16)),
{
    let mut bytes: Vec<u8> = Vec::new();
    push_le(&mut bytes, value, 16);
    proof {
        assert(bytes@ =~= le_bytes(value as nat, 16));
    }
    storage_write(store, key, bytes.as_slice())
}

/// A value written under a key is what a read of that key returns.
pub proof fn lemma_storage_write_read(m: Map<Seq<u8>, Seq<u8>>, key: Seq<u8>, value: Seq<u8>)
    ensures
        m.insert(key, value).contains_key(key),
        m.insert(key, value)[key] == value,
{
}

/// A deleted key reads as missing, and other keys keep their values.
pub proof fn lemma_storage_delete_isolation(m: Map<Seq<u8>, Seq<u8>>, key: Seq<u8>, other: Seq<u8>)
    requires
        other != key,
    ensures
        !m.remove(key).contains_key(key),
        m.remove(key).contains_key(other) == m.contains_key(other),
        m.contains_key(other) ==> m.remove(key)[other] == m[other],
{
}

/// Storage after the operations `ops` in order; each is a write of
/// (key, value) when its flag is set, else a delete of its key.
pub open spec fn apply_storage_ops(m: Map<Seq<u8>, Seq<u8>>, ops: Seq<(bool, Seq<u8>, Seq<u8>)>) -> Map<
    Seq<u8>,
    Seq<u8>,
>
    decreases ops.len(),
{
    if ops.len() == 0 {
        m
    } else {
        let prev = apply_storage_ops(m, ops.drop_last());
        let (write, key, value) = ops.last();
        if write {
            prev.insert(key, value)
        } else {
            prev.remove(key)
        }
    }
}

/// The last write wins: after writing `value` under `key`, any sequence of
/// writes and deletes of other keys leaves `key` reading as `value` (an empty
/// value included, which reads differently from a missing key).
pub proof fn lemma_read_after_write(
    m: Map<Seq<u8>, Seq<u8>>,
    key: Seq<u8>,
    value: Seq<u8>,
    ops: Seq<(bool, Seq<u8>, Seq<u8>)>,
)
    requires
        forall|i: int| 0 <= i < ops.len() ==> (#[trigger] ops[i]).1 != key,
    ensures
        apply_storage_ops(m.insert(key, value), ops).contains_key(key),
        apply_storage_ops(m.insert(key, value), ops)[key] == value,
    decreases ops.len(),
{
    if ops.len() > 0 {
        let init = ops.drop_last();
        assert forall|i: int| 0 <= i < init.len() implies (#[trigger] init[i]).1 != key by {
            assert(init[i] == ops[i]);
        }
        lemma_read_after_write(m, key, value, init);
        assert(ops.last() == ops[ops.len() - 1]);
    }
}

/// `write_u128` then `read_u128` of the same key gives the value back.
pub proof fn lemma_u128_roundtrip(m: Map<Seq<u8>, Seq<u8>>, key: Seq<u8>, value: u128)
    ensures
        m.insert(key, le_bytes(value as nat, 16)).contains_key(key),
        m.insert(key, le_bytes(value as nat, 16))[key].len() == 16,
        le_value(m.insert(key, le_bytes(value as nat, 16))[key]) == value,
{
    lemma_pow256_16();
    lemma_le_roundtrip(value as nat, 16);
}

} // verus!
