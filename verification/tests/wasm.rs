use aether::types::Address;
use aether::wasm::{after_call, first_entry, input_len_arg, CallOutcome, EntryAction, WasmEntry};
use aether::wasm::{
    ExecutionContext, HostEnv, check_module, data_args_ok, gas_used_from_fuel, storage_insert_allowed, MAX_STORAGE_ENTRIES, log_fuel, memory_growth_allowed, memory_range, pay_fuel, set_return_fuel,
    storage_read_args_ok, storage_write_args_ok, storage_write_fuel, table_growth_allowed, MAX_LOG_DATA_LEN,
    MAX_MEMORY_BYTES, MAX_MODULE_BYTES, MAX_TABLE_ELEMENTS,
};

#[test]
fn test_wasm_validation_bad_magic() {
    let invalid_wasm = b"XXXX\x01\x00\x00\x00";
    assert!(check_module(invalid_wasm).is_err());
}

#[test]
fn test_wasm_validation_too_short() {
    assert!(check_module(b"\0as").is_err());
}

#[test]
fn module_checks() {
    assert_eq!(check_module(b"\0asm\x01\x00\x00\x00"), Ok(()));
    assert_eq!(check_module(b"XXXX").unwrap_err(), "invalid WASM magic number");
    let mut big = b"\0asm".to_vec();
    big.resize(MAX_MODULE_BYTES + 1, 0);
    assert!(check_module(&big).is_err());
}

#[test]
fn growth_limits() {
    assert!(memory_growth_allowed(0, MAX_MEMORY_BYTES));
    assert!(!memory_growth_allowed(0, MAX_MEMORY_BYTES + 1));
    assert!(table_growth_allowed(10, MAX_TABLE_ELEMENTS));
    assert!(!table_growth_allowed(10, MAX_TABLE_ELEMENTS + 1));
}

#[test]
fn fuel_accounting() {
    assert_eq!(pay_fuel(10, 3), Some(7));
    assert_eq!(pay_fuel(2, 3), None);
    assert_eq!(storage_write_fuel(10), 5200);
    assert_eq!(log_fuel(4), 407);
    assert_eq!(set_return_fuel(5), 105);
}

#[test]
fn memory_ranges_and_argument_checks() {
    assert_eq!(memory_range(4, 8, 16), Some((4, 12)));
    assert_eq!(memory_range(-1, 8, 16), None);
    assert_eq!(memory_range(10, 8, 16), None);
    assert!(storage_read_args_ok(0, 256, 0));
    assert!(!storage_read_args_ok(0, 257, 0));
    assert!(storage_write_args_ok(0, 1, 0, 4096));
    assert!(!storage_write_args_ok(0, 1, 0, 4097));
    assert!(data_args_ok(0, MAX_LOG_DATA_LEN as i32, MAX_LOG_DATA_LEN));
    assert!(!data_args_ok(0, -1, MAX_LOG_DATA_LEN));
}

#[test]
fn storage_entry_limit_and_gas_used() {
    assert!(storage_insert_allowed(MAX_STORAGE_ENTRIES, true));
    assert!(storage_insert_allowed(MAX_STORAGE_ENTRIES - 1, false));
    assert!(!storage_insert_allowed(MAX_STORAGE_ENTRIES, false));
    assert_eq!(gas_used_from_fuel(100_000, 40_000), 60_000);
    assert_eq!(gas_used_from_fuel(100, 200), 0);
}

fn host(memory: Option<Vec<u8>>, gas_limit: u64) -> HostEnv {
    let context = ExecutionContext {
        contract_address: Address::from_bytes([1; 20]),
        caller: Address::from_bytes([2; 20]),
        value: 0,
        gas_limit,
        block_number: 42,
        timestamp: 1_700_000_000,
    };
    HostEnv::new(context, memory)
}

#[test]
fn host_write_then_read_round_trip() {
    let mut mem = vec![0u8; 64];
    mem[0..3].copy_from_slice(b"key");
    mem[8..13].copy_from_slice(b"value");
    let mut h = host(Some(mem), 100_000);
    assert_eq!(h.storage_write(0, 3, 8, 5), 0);
    assert_eq!(h.fuel, 100_000 - 5100);
    assert_eq!(h.storage_read(0, 3, 32), 5);
    assert_eq!(h.fuel, 100_000 - 5100 - 200);
    assert_eq!(&h.memory.as_ref().unwrap()[32..37], b"value");
    // An unknown key reads as 0 bytes and leaves memory alone.
    assert_eq!(h.storage_read(8, 3, 40), 0);
    assert_eq!(h.memory.as_ref().unwrap()[40], 0);
    assert_eq!(h.storage.len(), 1);
    assert_eq!(h.gas_used(), 5500);
}

#[test]
fn host_calls_refuse_bad_arguments() {
    let mut h = host(Some(vec![0u8; 16]), 100_000);
    assert_eq!(h.storage_read(-1, 1, 0), -1);
    assert_eq!(h.fuel, 100_000 - 200);
    assert_eq!(h.storage_write(0, 257, 0, 1), -1);
    assert_eq!(h.storage_write(0, 4, 10, 8), -1);
    assert_eq!(h.fuel, 100_000 - 200 - 5160);
    assert_eq!(h.emit_log(0, 4097), -1);
    assert_eq!(h.set_return(12, 8), -1);
    assert_eq!(h.fuel, 100_000 - 200 - 5160 - 108);
    assert_eq!(h.storage.len(), 0);
    assert!(h.return_data.is_empty());
}

#[test]
fn host_calls_without_fuel_or_memory() {
    let mut h = host(Some(vec![0u8; 16]), 150);
    assert_eq!(h.storage_read(0, 1, 0), -1);
    assert_eq!(h.fuel, 150);
    assert_eq!(h.emit_log(0, 1), -1);
    assert_eq!(h.fuel, 150);
    let mut h = host(None, 10_000);
    assert_eq!(h.emit_log(0, 1), -1);
    assert_eq!(h.fuel, 10_000 - 383);
    assert!(h.logs.is_empty());
}

#[test]
fn host_logs_and_return_data() {
    let mut h = host(Some(b"hello world!".to_vec()), 1_000_000);
    assert_eq!(h.emit_log(0, 5), 0);
    assert_eq!(h.logs.len(), 1);
    assert_eq!(h.logs[0].data, b"hello".to_vec());
    assert!(h.logs[0].topics.is_empty());
    for _ in 1..100 {
        assert_eq!(h.emit_log(6, 5), 0);
    }
    assert_eq!(h.emit_log(6, 5), -1);
    assert_eq!(h.logs.len(), 100);
    assert_eq!(h.set_return(6, 6), 0);
    assert_eq!(h.return_data, b"world!".to_vec());
    assert_eq!(h.block_number(), 42);
    assert_eq!(h.timestamp(), 1_700_000_000);
    h.reset_effects();
    assert!(h.logs.is_empty() && h.return_data.is_empty() && h.storage.len() == 0);
}

#[test]
fn host_loads_input_into_memory() {
    let mut h = host(Some(vec![9u8; 4]), 10);
    h.load_input(b"ab");
    assert_eq!(h.memory.as_ref().unwrap(), &vec![b'a', b'b', 9, 9]);
    h.load_input(b"too long");
    assert_eq!(h.memory.as_ref().unwrap(), &vec![b'a', b'b', 9, 9]);
}

#[test]
fn entry_points_are_tried_in_order() {
    assert_eq!(first_entry(), WasmEntry::Execute);
    assert_eq!(after_call(WasmEntry::Execute, CallOutcome::Returned(0)), EntryAction::Finish(true));
    assert_eq!(after_call(WasmEntry::Execute, CallOutcome::Returned(3)), EntryAction::Finish(false));
    assert_eq!(
        after_call(WasmEntry::Execute, CallOutcome::Trapped { out_of_fuel: true }),
        EntryAction::Finish(false)
    );
    assert_eq!(
        after_call(WasmEntry::Execute, CallOutcome::Trapped { out_of_fuel: false }),
        EntryAction::Call { entry: WasmEntry::MainAfterFailure, reset: true }
    );
    assert_eq!(
        after_call(WasmEntry::Execute, CallOutcome::Missing),
        EntryAction::Call { entry: WasmEntry::Main, reset: false }
    );
    assert_eq!(after_call(WasmEntry::MainAfterFailure, CallOutcome::Missing), EntryAction::Finish(false));
    assert_eq!(after_call(WasmEntry::MainAfterFailure, CallOutcome::Returned(0)), EntryAction::Finish(true));
    assert_eq!(
        after_call(WasmEntry::Main, CallOutcome::Missing),
        EntryAction::Call { entry: WasmEntry::Start, reset: false }
    );
    assert_eq!(after_call(WasmEntry::Main, CallOutcome::Trapped { out_of_fuel: false }), EntryAction::Finish(false));
    assert_eq!(after_call(WasmEntry::Start, CallOutcome::Returned(7)), EntryAction::Finish(true));
    assert_eq!(after_call(WasmEntry::Start, CallOutcome::Missing), EntryAction::Finish(false));
}

#[test]
fn input_length_must_fit_an_i32() {
    assert_eq!(input_len_arg(12), Ok(12));
    assert_eq!(input_len_arg(i32::MAX as usize), Ok(i32::MAX));
    assert_eq!(
        input_len_arg(i32::MAX as usize + 1).unwrap_err(),
        "input too large for WASM (max 2147483647 bytes)"
    );
}

#[test]
fn host_storage_write_from_module_data() {
    let mut mem = vec![0u8; 65536];
    mem[0..3].copy_from_slice(b"key");
    mem[3..8].copy_from_slice(b"value");
    let mut h = host(Some(mem), 1_000_000);
    assert_eq!(h.storage_write(0, 3, 3, 5), 0);
    assert_eq!(h.storage.get(&b"key".to_vec()), Some(&b"value".to_vec()));
    assert_eq!(h.gas_used(), 5100);
}

#[test]
fn host_emit_log_from_module_data() {
    let mut mem = vec![0u8; 65536];
    mem[0..15].copy_from_slice(b"hello from wasm");
    let mut h = host(Some(mem), 1_000_000);
    assert_eq!(h.emit_log(0, 15), 0);
    assert_eq!(h.logs.len(), 1);
    assert_eq!(h.logs[0].data, b"hello from wasm");
    assert_eq!(h.gas_used(), 375 + 8 * 15);
}

#[test]
fn host_refuses_oversized_key_and_negative_values() {
    let mut h = host(Some(vec![0u8; 65536]), 1_000_000);
    assert_eq!(h.storage_write(0, 257, 300, 1), -1);
    assert_eq!(h.storage_read(0, 257, 0), -1);
    assert_eq!(h.storage_write(-5, 3, 0, 1), -1);
    assert_eq!(h.emit_log(0, -1), -1);
    assert_eq!(h.set_return(-1, 4), -1);
    assert_eq!(h.storage.len(), 0);
    assert!(h.logs.is_empty());
    assert_eq!(h.gas_used(), 200);
}
