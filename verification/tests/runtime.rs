use std::collections::HashMap;

use aether::ledger_state::{LedgerAccess, LedgerRuntimeState};
use aether::runtime::{HostFunctions, MockRuntimeState, RuntimeState};
use aether::types::{Address, H256};

fn a(n: u8) -> Address {
    Address::from_bytes([n; 20])
}

fn host(state: MockRuntimeState, gas_limit: u64) -> HostFunctions<MockRuntimeState> {
    HostFunctions::new(state, gas_limit, 0, 0, a(0), a(0))
}

#[test]
fn test_storage_operations() {
    let state = MockRuntimeState::new();
    let mut host = HostFunctions::new(state, 100_000, 0, 0, a(0), a(1));
    host.storage_write(b"key1".to_vec(), b"value1".to_vec()).unwrap();
    let value = host.storage_read(b"key1").unwrap();
    assert_eq!(value, Some(b"value1".to_vec()));
    let value = host.storage_read(b"key2").unwrap();
    assert_eq!(value, None);
}

#[test]
fn test_balance_operations() {
    let state = MockRuntimeState::new().with_balance(a(1), 1000);
    let mut host = host(state, 100_000);
    assert_eq!(host.get_balance(&a(1)).unwrap(), 1000);
    assert_eq!(host.get_balance(&a(2)).unwrap(), 0);
}

#[test]
fn host_functions_test_transfer() {
    let state = MockRuntimeState::new().with_balance(a(1), 1000);
    let mut host = host(state, 100_000);
    host.transfer(&a(1), &a(2), 300).unwrap();
    assert_eq!(host.get_balance(&a(1)).unwrap(), 700);
    assert_eq!(host.get_balance(&a(2)).unwrap(), 300);
}

#[test]
fn test_transfer_insufficient_balance() {
    let state = MockRuntimeState::new().with_balance(a(1), 100);
    let mut host = host(state, 100_000);
    let result = host.transfer(&a(1), &a(2), 200);
    assert!(result.is_err());
}

#[test]
fn test_sha256() {
    let mut host = host(MockRuntimeState::new(), 100_000);
    let hash = host.sha256(b"hello world").unwrap();
    assert_eq!(hash.as_bytes().len(), 32);
}

#[test]
fn test_gas_limits() {
    let mut host = host(MockRuntimeState::new(), 5_000);
    assert!(host.storage_read(b"key").is_ok());
    let result = host.storage_write(b"key".to_vec(), b"value".to_vec());
    assert!(result.is_err());
}

#[test]
fn test_context_functions() {
    let caller_addr = a(1);
    let contract_addr = a(2);
    let mut host = HostFunctions::new(MockRuntimeState::new(), 100_000, 42, 1234567890, caller_addr, contract_addr);
    assert_eq!(host.block_number().unwrap(), 42);
    assert_eq!(host.timestamp().unwrap(), 1234567890);
    assert_eq!(host.caller().unwrap(), caller_addr);
    assert_eq!(host.address().unwrap(), contract_addr);
}

#[test]
fn test_context_gas_charging() {
    let mut host = HostFunctions::new(MockRuntimeState::new(), 100, 42, 1234567890, a(1), a(2));
    assert!(host.block_number().is_ok());
    assert_eq!(host.gas_used(), 2);
    assert!(host.timestamp().is_ok());
    assert_eq!(host.gas_used(), 4);
    assert!(host.caller().is_ok());
    assert_eq!(host.gas_used(), 6);
    assert!(host.address().is_ok());
    assert_eq!(host.gas_used(), 8);
}

#[test]
fn host_functions_test_emit_log() {
    let contract_addr = a(1);
    let mut host = HostFunctions::new(MockRuntimeState::new(), 100_000, 0, 0, a(0), contract_addr);
    host.emit_log(vec![H256::zero()], b"test data".to_vec()).unwrap();
    let state = host.into_state();
    let logs = state.get_logs();
    assert_eq!(logs.len(), 1);
    assert_eq!(logs[0].0, contract_addr);
    assert_eq!(logs[0].2, b"test data");
}

#[test]
fn host_sha256_is_the_sha256_digest() {
    let mut host = host(MockRuntimeState::new(), 100_000);
    let hash = host.sha256(b"").unwrap();
    assert_eq!(
        hash.as_bytes(),
        &[
            0xe3, 0xb0, 0xc4, 0x42, 0x98, 0xfc, 0x1c, 0x14, 0x9a, 0xfb, 0xf4, 0xc8, 0x99, 0x6f, 0xb9, 0x24, 0x27,
            0xae, 0x41, 0xe4, 0x64, 0x9b, 0x93, 0x4c, 0xa4, 0x95, 0x99, 0x1b, 0x78, 0x52, 0xb8, 0x55
        ]
    );
}

#[test]
fn host_gas_accumulates_per_operation() {
    let mut host = host(MockRuntimeState::new(), 100_000);
    host.storage_read(b"k").unwrap();
    let after_read = host.gas_used();
    assert!(after_read > 0);
    host.storage_write(b"k".to_vec(), b"v".to_vec()).unwrap();
    assert!(host.gas_used() > after_read);
}

#[test]
fn out_of_gas_write_leaves_storage_unchanged() {
    let mut host = host(MockRuntimeState::new(), 5_000);
    assert!(host.storage_write(b"k".to_vec(), b"v".to_vec()).is_err());
    let mut state = host.into_state();
    assert_eq!(state.storage_read(&a(0), b"k").unwrap(), None);
}

#[test]
fn test_mock_storage() {
    let mut state = MockRuntimeState::new();
    let addr = a(1);
    state.storage_write(&addr, b"key".to_vec(), b"value".to_vec()).unwrap();
    let value = state.storage_read(&addr, b"key").unwrap();
    assert_eq!(value, Some(b"value".to_vec()));
    let value = state.storage_read(&addr, b"other").unwrap();
    assert_eq!(value, None);
}

#[test]
fn test_mock_balance() {
    let state = MockRuntimeState::new().with_balance(a(1), 1000);
    assert_eq!(state.get_balance(&a(1)).unwrap(), 1000);
    assert_eq!(state.get_balance(&a(2)).unwrap(), 0);
}

#[test]
fn test_mock_transfer() {
    let mut state = MockRuntimeState::new().with_balance(a(1), 1000);
    state.transfer(&a(1), &a(2), 300).unwrap();
    assert_eq!(state.get_balance(&a(1)).unwrap(), 700);
    assert_eq!(state.get_balance(&a(2)).unwrap(), 300);
}

#[test]
fn test_mock_transfer_insufficient() {
    let mut state = MockRuntimeState::new().with_balance(a(1), 100);
    let result = state.transfer(&a(1), &a(2), 200);
    assert!(result.is_err());
}

#[test]
fn test_mock_logs() {
    let mut state = MockRuntimeState::new();
    let addr = a(1);
    state.emit_log(&addr, vec![H256::zero()], b"data".to_vec()).unwrap();
    let logs = state.get_logs();
    assert_eq!(logs.len(), 1);
    assert_eq!(logs[0].0, addr);
    assert_eq!(logs[0].2, b"data");
}

#[test]
fn mock_storage_is_per_contract() {
    let mut state = MockRuntimeState::new();
    state.storage_write(&a(1), b"k".to_vec(), b"v".to_vec()).unwrap();
    assert_eq!(state.storage_read(&a(2), b"k").unwrap(), None);
}

/// An in-memory ledger for the ledger-backed runtime state.
#[derive(Default)]
struct MemLedger {
    balances: HashMap<Address, u128>,
    storage: HashMap<(Address, Vec<u8>), Vec<u8>>,
    storage_roots: HashMap<Address, H256>,
}

impl LedgerAccess for &mut MemLedger {
    fn state_root(&self) -> H256 {
        H256::zero()
    }
    fn get_contract_storage(&self, contract: &Address, key: &[u8]) -> Result<Option<Vec<u8>>, String> {
        Ok(self.storage.get(&(*contract, key.to_vec())).cloned())
    }
    fn account_balance(&self, address: &Address) -> Result<u128, String> {
        Ok(self.balances.get(address).copied().unwrap_or(0))
    }
    fn set_contract_storage(&mut self, contract: &Address, key: Vec<u8>, value: Vec<u8>) -> Result<(), String> {
        self.storage.insert((*contract, key), value);
        Ok(())
    }
    fn update_account_storage_root(&mut self, contract: &Address) -> Result<(), String> {
        self.storage_roots.insert(*contract, H256::repeat_byte(0xaa));
        Ok(())
    }
    fn apply_balance_delta(&mut self, address: &Address, delta: i128) -> Result<(), String> {
        let b = self.balances.entry(*address).or_insert(0);
        if delta < 0 {
            *b = b.checked_sub(delta.unsigned_abs()).ok_or("underflow")?;
        } else {
            *b = b.checked_add(delta as u128).ok_or("overflow")?;
        }
        Ok(())
    }
}

#[test]
fn transfer_records_balance_deltas() {
    let mut ledger = MemLedger::default();
    let sender = a(1);
    let recipient = a(2);
    ledger.balances.insert(sender, 1_000);
    {
        let mut state = LedgerRuntimeState::new(&mut ledger).unwrap();
        state.transfer(&sender, &recipient, 400).unwrap();
        let logs = state.commit().unwrap();
        assert!(logs.is_empty());
    }
    assert_eq!(ledger.balances[&sender], 600);
    assert_eq!(ledger.balances[&recipient], 400);
}

#[test]
fn storage_write_persists_on_commit() {
    let mut ledger = MemLedger::default();
    let contract = a(3);
    {
        let mut state = LedgerRuntimeState::new(&mut ledger).unwrap();
        state.storage_write(&contract, b"key".to_vec(), b"value".to_vec()).unwrap();
        state.commit().unwrap();
    }
    let stored = ledger.storage.get(&(contract, b"key".to_vec())).cloned().expect("storage value");
    assert_eq!(stored, b"value".to_vec());
    assert_ne!(ledger.storage_roots[&contract], H256::zero());
}

#[test]
fn logs_accumulate_during_execution() {
    let mut ledger = MemLedger::default();
    let contract = a(4);
    let topic = H256::from_bytes([9u8; 32]);
    let mut state = LedgerRuntimeState::new(&mut ledger).unwrap();
    state.emit_log(&contract, vec![topic], b"data".to_vec()).unwrap();
    let logs = state.commit().unwrap();
    assert_eq!(logs.len(), 1);
    assert_eq!(logs[0].0, contract);
    assert_eq!(logs[0].2, b"data".to_vec());
}

#[test]
fn pending_writes_are_read_back_before_commit() {
    let mut ledger = MemLedger::default();
    let contract = a(5);
    let mut state = LedgerRuntimeState::new(&mut ledger).unwrap();
    state.storage_write(&contract, b"k".to_vec(), b"v".to_vec()).unwrap();
    assert_eq!(state.storage_read(&contract, b"k").unwrap(), Some(b"v".to_vec()));
    drop(state);
    assert!(ledger.storage.is_empty());
}

#[test]
fn ledger_transfer_insufficient_balance() {
    let mut ledger = MemLedger::default();
    let mut state = LedgerRuntimeState::new(&mut ledger).unwrap();
    assert_eq!(
        state.transfer(&a(1), &a(2), 1).unwrap_err(),
        "insufficient balance for transfer"
    );
    assert_eq!(state.get_balance(&a(2)).unwrap(), 0);
}

#[test]
fn commit_with_nothing_pending_leaves_ledger_alone() {
    let mut ledger = MemLedger::default();
    ledger.balances.insert(a(1), 5);
    {
        let mut state = LedgerRuntimeState::new(&mut ledger).unwrap();
        assert!(state.commit().unwrap().is_empty());
    }
    assert!(ledger.storage.is_empty());
    assert!(ledger.storage_roots.is_empty());
    assert_eq!(ledger.balances[&a(1)], 5);
}

#[test]
fn commit_writes_storage_then_roots_then_deltas() {
    let mut ledger = MemLedger::default();
    ledger.balances.insert(a(1), 1_000);
    {
        let mut state = LedgerRuntimeState::new(&mut ledger).unwrap();
        state.storage_write(&a(5), b"k1".to_vec(), b"v1".to_vec()).unwrap();
        state.storage_write(&a(6), b"k2".to_vec(), b"v2".to_vec()).unwrap();
        state.storage_write(&a(5), b"k3".to_vec(), b"v3".to_vec()).unwrap();
        state.transfer(&a(1), &a(2), 250).unwrap();
        state.commit().unwrap();
        // Nothing stays pending: a second commit has nothing to do.
        assert!(state.commit().unwrap().is_empty());
    }
    assert_eq!(ledger.storage[&(a(5), b"k1".to_vec())], b"v1".to_vec());
    assert_eq!(ledger.storage[&(a(5), b"k3".to_vec())], b"v3".to_vec());
    assert_eq!(ledger.storage[&(a(6), b"k2".to_vec())], b"v2".to_vec());
    assert!(ledger.storage_roots.contains_key(&a(5)) && ledger.storage_roots.contains_key(&a(6)));
    assert_eq!(ledger.balances[&a(1)], 750);
    assert_eq!(ledger.balances[&a(2)], 250);
}
