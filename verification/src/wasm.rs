//! The WASM virtual machine's own logic: which modules it accepts, how far a
//! module's memory and tables may grow, what the host calls contracts make
//! cost, accept and do to memory, storage, logs and return data, and in which
//! order an execution tries a module's entry points.
use vstd::prelude::*;

use crate::keymap::KeyMap;
use crate::types::{Address, H256};
use vstd::string::StringExecFns;

verus! {

/// Largest linear memory of a module: 16 MiB.
pub const MAX_MEMORY_BYTES: usize = 16777216;

/// Largest table of a module.
pub const MAX_TABLE_ELEMENTS: u32 = 10000;

/// Largest module: 1 MiB.
pub const MAX_MODULE_BYTES: usize = 1048576;

/// Longest storage key a contract may use.
pub const MAX_STORAGE_KEY_LEN: usize = 256;

/// Longest storage value a contract may write.
pub const MAX_STORAGE_VAL_LEN: usize = 4096;

/// Longest log a contract may emit.
pub const MAX_LOG_DATA_LEN: usize = 4096;

/// Most logs one execution may emit.
pub const MAX_LOG_COUNT: usize = 100;

/// Longest return data.
pub const MAX_RETURN_DATA_LEN: usize = 4096;

/// Most storage slots one execution may fill.
pub const MAX_STORAGE_ENTRIES: usize = 10000;

/// The context of a contract execution.
#[derive(Debug, Clone, Copy)]
pub struct ExecutionContext {
    pub contract_address: Address,
    pub caller: Address,
    pub value: u128,
    pub gas_limit: u64,
    pub block_number: u64,
    pub timestamp: u64,
}

/// A log emitted by a contract.
#[derive(Debug, Clone)]
pub struct Log {
    pub topics: Vec<H256>,
    pub data: Vec<u8>,
}

/// Whether `bytes` start with the WASM magic number `\0asm`.
pub open spec fn has_wasm_magic(bytes: Seq<u8>) -> bool {
    bytes.len() >= 4 && bytes[0] == 0 && bytes[1] == 0x61 && bytes[2] == 0x73 && bytes[3] == 0x6d
}

/// Check a module before compiling it: the magic number, then the size.
pub fn check_module(wasm_bytes: &[u8]) -> (r: Result<(), String>)
    ensures
        !has_wasm_magic(wasm_bytes@) ==> r is Err && r->Err_0@ == "invalid WASM magic number"@,
        has_wasm_magic(wasm_bytes@) && wasm_bytes@.len() > MAX_MODULE_BYTES ==> r is Err && r->Err_0@
            == "WASM module too large (max 1MB)"@,
        has_wasm_magic(wasm_bytes@) && wasm_bytes@.len() <= MAX_MODULE_BYTES ==> r is Ok,
{
    if wasm_bytes.len() < 4 || wasm_bytes[0] != 0 || wasm_bytes[1] != 0x61 || wasm_bytes[2] != 0x73
        || wasm_bytes[3] != 0x6d {
        return Err(String::from_str("invalid WASM magic number"));
    }
    if wasm_bytes.len() > MAX_MODULE_BYTES {
        return Err(String::from_str("WASM module too large (max 1MB)"));
    }
    Ok(())
}

/// Whether a module's memory may grow from `current` to `desired` bytes.
pub fn memory_growth_allowed(current: usize, desired: usize) -> (r: bool)
    ensures
        r == (desired <= MAX_MEMORY_BYTES && desired >= current),
{
    desired <= MAX_MEMORY_BYTES && desired >= current
}

/// Whether a module's table may grow from `current` to `desired` elements.
pub fn table_growth_allowed(current: u32, desired: u32) -> (r: bool)
    ensures
        r == (desired <= MAX_TABLE_ELEMENTS && desired >= current),
{
    desired <= MAX_TABLE_ELEMENTS && desired >= current
}

/// Fuel left after paying `cost` from `fuel`, or `None` when it does not suffice.
pub fn pay_fuel(fuel: u64, cost: u64) -> (r: Option<u64>)
    ensures
        fuel >= cost ==> r == Some((fuel - cost) as u64),
        fuel < cost ==> r is None,
{
    if fuel >= cost {
        Some(fuel - cost)
    } else {
        None
    }
}

/// The fuel of a storage write of `val_len` bytes: 5000 plus 20 per byte.
pub fn storage_write_fuel(val_len: u32) -> (c: u64)
    ensures
        c == 5000 + 20 * val_len,
{
    5000 + 20 * val_len as u64
}

/// The fuel of a log of `len` bytes: 375 plus 8 per byte.
pub fn log_fuel(len: u32) -> (c: u64)
    ensures
        c == 375 + 8 * len,
{
    375 + 8 * len as u64
}

/// The fuel of setting `len` bytes of return data: 100 plus 1 per byte.
pub fn set_return_fuel(len: u32) -> (c: u64)
    ensures
        c == 100 + len,
{
    100 + len as u64
}

/// The byte range `[ptr, ptr + len)` of a memory of `mem_len` bytes, or
/// `None` when a value is negative or the range does not fit.
pub fn memory_range(ptr: i32, len: i32, mem_len: usize) -> (r: Option<(usize, usize)>)
    ensures
        (ptr < 0 || len < 0 || ptr + len > mem_len) ==> r is None,
        (ptr >= 0 && len >= 0 && ptr + len <= mem_len) ==> r == Some((ptr as usize, (ptr + len) as usize)),
{
    if ptr < 0 || len < 0 {
        return None;
    }
    let start = ptr as usize;
    let n = len as usize;
    if n > mem_len || start > mem_len - n {
        return None;
    }
    Some((start, start + n))
}

/// Whether a storage-read call's arguments are acceptable: no negative
/// value, a key of at most 256 bytes.
pub fn storage_read_args_ok(key_ptr: i32, key_len: i32, val_ptr: i32) -> (r: bool)
    ensures
        r == (key_ptr >= 0 && key_len >= 0 && val_ptr >= 0 && key_len <= MAX_STORAGE_KEY_LEN),
{
    key_ptr >= 0 && key_len >= 0 && val_ptr >= 0 && key_len as usize <= MAX_STORAGE_KEY_LEN
}

/// Whether a storage-write call's arguments are acceptable: no negative
/// value, a key of at most 256 and a value of at most 4096 bytes.
pub fn storage_write_args_ok(key_ptr: i32, key_len: i32, val_ptr: i32, val_len: i32) -> (r: bool)
    ensures
        r == (key_ptr >= 0 && key_len >= 0 && val_ptr >= 0 && val_len >= 0 && key_len <= MAX_STORAGE_KEY_LEN
            && val_len <= MAX_STORAGE_VAL_LEN),
{
    key_ptr >= 0 && key_len >= 0 && val_ptr >= 0 && val_len >= 0 && key_len as usize <= MAX_STORAGE_KEY_LEN
        && val_len as usize <= MAX_STORAGE_VAL_LEN
}

/// Whether a log or return-data call's arguments are acceptable: no
/// negative value and at most `max` bytes.
pub fn data_args_ok(ptr: i32, len: i32, max: usize) -> (r: bool)
    ensures
        r == (ptr >= 0 && len >= 0 && len <= max),
{
    ptr >= 0 && len >= 0 && len as usize <= max
}

/// Whether one more storage slot may be written: an existing slot always, a
/// new one while fewer than the limit are filled.
pub fn storage_insert_allowed(entries: usize, key_exists: bool) -> (r: bool)
    ensures
        r == (key_exists || entries < MAX_STORAGE_ENTRIES),
{
    key_exists || entries < MAX_STORAGE_ENTRIES
}

/// Gas used by an execution from its fuel limit and the fuel left.
pub fn gas_used_from_fuel(gas_limit: u64, remaining_fuel: u64) -> (g: u64)
    ensures
        g == (if remaining_fuel > gas_limit {
            0
        } else {
            gas_limit - remaining_fuel
        }),
{
    gas_limit.saturating_sub(remaining_fuel)
}

/// Whether `[ptr, ptr + len)` lies inside a memory of `mem_len` bytes.
pub open spec fn fits(ptr: int, len: int, mem_len: int) -> bool {
    ptr >= 0 && len >= 0 && ptr + len <= mem_len
}

/// The bytes `[ptr, ptr + len)` of `mem`, when there is a memory and the
/// range lies inside it.
pub open spec fn bytes_in(mem: Option<Seq<u8>>, ptr: i32, len: i32) -> Option<Seq<u8>> {
    match mem {
        Some(m) => if fits(ptr as int, len as int, m.len() as int) {
            Some(m.subrange(ptr as int, ptr + len))
        } else {
            None
        },
        None => None,
    }
}

/// `mem` with `src` written from position `start` on.
pub open spec fn written(mem: Seq<u8>, start: int, src: Seq<u8>) -> Seq<u8> {
    mem.subrange(0, start) + src + mem.subrange(start + src.len(), mem.len() as int)
}

/// A copy of `data[start..end]`.
fn copy_range(data: &[u8], start: usize, end: usize) -> (r: Vec<u8>)
    requires
        start <= end <= data@.len(),
    ensures
        r@ == data@.subrange(start as int, end as int),
{
    let mut r: Vec<u8> = Vec::new();
    let mut i: usize = start;
    while i < end
        invariant
            start <= i <= end <= data@.len(),
            r@ == data@.subrange(start as int, i as int),
        decreases end - i,
    {
        r.push(data[i]);
        i = i + 1;
        proof {
            assert(r@ =~= data@.subrange(start as int, i as int));
        }
    }
    r
}

/// Write `src` into `mem` from position `start` on.
fn write_at(mem: &mut Vec<u8>, start: usize, src: &[u8])
    requires
        start + src@.len() <= old(mem)@.len(),
    ensures
        final(mem)@ == written(old(mem)@, start as int, src@),
{
    let ghost orig = mem@;
    let mut i: usize = 0;
    while i < src.len()
        invariant
            start + src@.len() <= orig.len(),
            mem@.len() == orig.len(),
            i <= src@.len(),
            forall|j: int| 0 <= j < start ==> mem@[j] == orig[j],
            forall|j: int| start <= j < start + i ==> mem@[j] == src@[j - start],
            forall|j: int| start + i <= j < orig.len() ==> mem@[j] == orig[j],
        decreases src@.len() - i,
    {
        let n = mem.len();
        assert(start + i < n);
        mem.set(start + i, src[i]);
        i = i + 1;
    }
    assert(mem@ =~= written(orig, start as int, src@));
}

/// What the host calls of one contract execution read and change: the fuel
/// left, the module's exported memory (if it has one), and the storage,
/// logs and return data the contract has produced.
pub struct HostEnv {
    pub fuel: u64,
    pub memory: Option<Vec<u8>>,
    pub storage: KeyMap<Vec<u8>, Vec<u8>>,
    pub logs: Vec<Log>,
    pub return_data: Vec<u8>,
    pub context: ExecutionContext,
}

impl HostEnv {
    /// The exported memory's bytes.
    pub open spec fn memory_view(&self) -> Option<Seq<u8>> {
        match self.memory {
            Some(m) => Some(m@),
            None => None,
        }
    }

    /// The storage the contract has written, key to value.
    pub open spec fn storage_view(&self) -> Map<Seq<u8>, Seq<u8>> {
        self.storage@.map_values(|v: Vec<u8>| v@)
    }

    /// The logs emitted so far, each as its topics and data.
    pub open spec fn log_view(&self) -> Seq<(Seq<H256>, Seq<u8>)> {
        self.logs@.map_values(|l: Log| (l.topics@, l.data@))
    }

    /// Whether storage, logs, return data and context agree in `a` and `b`.
    pub open spec fn same_effects(a: &HostEnv, b: &HostEnv) -> bool {
        &&& a.storage_view() == b.storage_view()
        &&& a.storage@.len() == b.storage@.len()
        &&& a.log_view() == b.log_view()
        &&& a.return_data@ == b.return_data@
        &&& a.context == b.context
    }

    /// The state at the start of an execution: the context's gas limit as
    /// fuel, the module's memory, and nothing produced yet.
    pub fn new(context: ExecutionContext, memory: Option<Vec<u8>>) -> (h: HostEnv)
        ensures
            h.fuel == context.gas_limit,
            h.memory == memory,
            h.storage_view() == Map::<Seq<u8>, Seq<u8>>::empty(),
            h.storage@.len() == 0,
            h.log_view() == Seq::<(Seq<H256>, Seq<u8>)>::empty(),
            h.return_data@ == Seq::<u8>::empty(),
            h.context == context,
    {
        let h = HostEnv {
            fuel: context.gas_limit,
            memory,
            storage: KeyMap::new(),
            logs: Vec::new(),
            return_data: Vec::new(),
            context,
        };
        proof {
            assert(h.storage_view() =~= Map::<Seq<u8>, Seq<u8>>::empty());
            assert(h.log_view() =~= Seq::<(Seq<H256>, Seq<u8>)>::empty());
        }
        h
    }

    /// Copy the input to the start of memory, when there is a memory and the
    /// input fits in it.
    pub fn load_input(&mut self, input: &[u8])
        ensures
            HostEnv::same_effects(&*final(self), &*old(self)),
            final(self).fuel == old(self).fuel,
            match old(self).memory_view() {
                Some(m) => final(self).memory_view() == if input@.len() <= m.len() {
                    Some(written(m, 0, input@))
                } else {
                    Some(m)
                },
                None => final(self).memory_view() is None,
            },
    {
        match &mut self.memory {
            Some(m) => {
                if input.len() <= m.len() {
                    write_at(m, 0, input);
                }
            },
            None => {},
        }
    }

    /// Drop what the contract has produced: storage, logs and return data.
    pub fn reset_effects(&mut self)
        ensures
            final(self).fuel == old(self).fuel,
            final(self).memory_view() == old(self).memory_view(),
            final(self).context == old(self).context,
            final(self).storage_view() == Map::<Seq<u8>, Seq<u8>>::empty(),
            final(self).storage@.len() == 0,
            final(self).log_view() == Seq::<(Seq<H256>, Seq<u8>)>::empty(),
            final(self).return_data@ == Seq::<u8>::empty(),
    {
        self.storage = KeyMap::new();
        self.logs = Vec::new();
        self.return_data = Vec::new();
        proof {
            assert(self.storage_view() =~= Map::<Seq<u8>, Seq<u8>>::empty());
            assert(self.log_view() =~= Seq::<(Seq<H256>, Seq<u8>)>::empty());
        }
    }

    /// Gas used so far: the context's gas limit less the fuel left.
    pub fn gas_used(&self) -> (g: u64)
        ensures
            g == (if self.fuel > self.context.gas_limit {
                0
            } else {
                self.context.gas_limit - self.fuel
            }),
    {
        gas_used_from_fuel(self.context.gas_limit, self.fuel)
    }

    /// The `storage_read` host call.  It charges 200 fuel first (and fails
    /// without it), then reads the key `[key_ptr, key_ptr + key_len)` from
    /// memory and, when the key is stored, copies its value to `val_ptr` and
    /// answers the value's length; an unknown key answers 0.  A negative
    /// argument, a key over 256 bytes, a missing memory or a range outside
    /// it answers -1.
    pub fn storage_read(&mut self, key_ptr: i32, key_len: i32, val_ptr: i32) -> (r: i32)
        ensures
            HostEnv::same_effects(&*final(self), &*old(self)),
            old(self).fuel < 200 ==> r == -1 && final(self).fuel == old(self).fuel,
            old(self).fuel >= 200 ==> final(self).fuel == old(self).fuel - 200,
            (old(self).fuel < 200 || !(key_ptr >= 0 && key_len >= 0 && val_ptr >= 0 && key_len
                <= MAX_STORAGE_KEY_LEN)) ==> final(self).memory_view() == old(self).memory_view(),
            old(self).fuel >= 200 && !(key_ptr >= 0 && key_len >= 0 && val_ptr >= 0 && key_len
                <= MAX_STORAGE_KEY_LEN) ==> r == -1,
            old(self).fuel >= 200 && key_ptr >= 0 && key_len >= 0 && val_ptr >= 0 && key_len
                <= MAX_STORAGE_KEY_LEN ==> match bytes_in(old(self).memory_view(), key_ptr, key_len) {
                None => r == -1 && final(self).memory_view() == old(self).memory_view(),
                Some(key) => if !old(self).storage_view().contains_key(key) {
                    r == 0 && final(self).memory_view() == old(self).memory_view()
                } else {
                    let v = old(self).storage_view()[key];
                    let m = old(self).memory_view()->Some_0;
                    if fits(val_ptr as int, v.len() as int, m.len() as int) {
                        r == v.len() as i32 && final(self).memory_view() == Some(
                            written(m, val_ptr as int, v),
                        )
                    } else {
                        r == -1 && final(self).memory_view() == old(self).memory_view()
                    }
                },
            },
    {
        if self.fuel < 200 {
            return -1;
        }
        self.fuel = self.fuel - 200;
        if !storage_read_args_ok(key_ptr, key_len, val_ptr) {
            return -1;
        }
        let key = match &self.memory {
            None => {
                return -1;
            },
            Some(m) => match memory_range(key_ptr, key_len, m.len()) {
                None => {
                    return -1;
                },
                Some((start, end)) => copy_range(m.as_slice(), start, end),
            },
        };
        let value = match self.storage.get(&key) {
            None => {
                return 0;
            },
            Some(v) => copy_range(v.as_slice(), 0, v.len()),
        };
        proof {
            assert(value@ =~= self.storage_view()[key@]);
        }
        match &mut self.memory {
            None => -1,
            Some(m) => {
                let start = val_ptr as usize;
                if start > m.len() || value.len() > m.len() - start {
                    return -1;
                }
                write_at(m, start, value.as_slice());
                #[verifier::truncate]
                (value.len() as i32)
            },
        }
    }

    /// The `storage_write` host call.  After the argument checks (no
    /// negative value, a key of at most 256 and a value of at most 4096
    /// bytes) it charges 5000 fuel plus 20 per value byte, reads key and
    /// value from memory and stores the value under the key, answering 0.
    /// A new key is refused once 10000 keys are stored.  Every refusal
    /// answers -1; memory is never changed.
    pub fn storage_write(&mut self, key_ptr: i32, key_len: i32, val_ptr: i32, val_len: i32) -> (r: i32)
        ensures
            final(self).memory_view() == old(self).memory_view(),
            final(self).log_view() == old(self).log_view(),
            final(self).return_data@ == old(self).return_data@,
            final(self).context == old(self).context,
            !(key_ptr >= 0 && key_len >= 0 && val_ptr >= 0 && val_len >= 0 && key_len <= MAX_STORAGE_KEY_LEN
                && val_len <= MAX_STORAGE_VAL_LEN) ==> r == -1 && HostEnv::same_effects(
                &*final(self),
                &*old(self),
            ) && final(self).fuel == old(self).fuel,
            key_ptr >= 0 && key_len >= 0 && val_ptr >= 0 && val_len >= 0 && key_len <= MAX_STORAGE_KEY_LEN
                && val_len <= MAX_STORAGE_VAL_LEN ==> {
                let cost = 5000 + 20 * val_len;
                if old(self).fuel < cost {
                    r == -1 && HostEnv::same_effects(&*final(self), &*old(self)) && final(self).fuel
                        == old(self).fuel
                } else {
                    &&& final(self).fuel == old(self).fuel - cost
                    &&& match (
                        bytes_in(old(self).memory_view(), key_ptr, key_len),
                        bytes_in(old(self).memory_view(), val_ptr, val_len),
                    ) {
                        (Some(key), Some(val)) => if !old(self).storage_view().contains_key(key)
                            && old(self).storage@.len() >= MAX_STORAGE_ENTRIES {
                            r == -1 && HostEnv::same_effects(&*final(self), &*old(self))
                        } else {
                            &&& r == 0
                            &&& final(self).storage_view() == old(self).storage_view().insert(key, val)
                            &&& final(self).storage@.len() == old(self).storage@.dom().insert(key).len()
                        },
                        _ => r == -1 && HostEnv::same_effects(&*final(self), &*old(self)),
                    }
                }
            },
    {
        if !storage_write_args_ok(key_ptr, key_len, val_ptr, val_len) {
            return -1;
        }
        let cost = storage_write_fuel(val_len as u32);
        match pay_fuel(self.fuel, cost) {
            None => {
                return -1;
            },
            Some(left) => {
                self.fuel = left;
            },
        }
        let (key, value) = match &self.memory {
            None => {
                return -1;
            },
            Some(m) => {
                let key = match memory_range(key_ptr, key_len, m.len()) {
                    None => {
                        return -1;
                    },
                    Some((start, end)) => copy_range(m.as_slice(), start, end),
                };
                let value = match memory_range(val_ptr, val_len, m.len()) {
                    None => {
                        return -1;
                    },
                    Some((start, end)) => copy_range(m.as_slice(), start, end),
                };
                (key, value)
            },
        };
        let exists = self.storage.contains_key(&key);
        if !storage_insert_allowed(self.storage.len(), exists) {
            return -1;
        }
        let ghost before = self.storage_view();
        let ghost kv = key@;
        let ghost vv = value@;
        self.storage.insert(key, value);
        proof {
            assert(self.storage_view() =~= before.insert(kv, vv));
        }
        0
    }

    /// The `emit_log` host call.  After the argument checks (no negative
    /// value, at most 4096 bytes) it charges 375 fuel plus 8 per byte, reads
    /// the data from memory and appends a log without topics, answering 0.
    /// A log beyond the hundredth is refused.  Every refusal answers -1.
    pub fn emit_log(&mut self, data_ptr: i32, data_len: i32) -> (r: i32)
        ensures
            final(self).memory_view() == old(self).memory_view(),
            final(self).storage_view() == old(self).storage_view(),
            final(self).storage@.len() == old(self).storage@.len(),
            final(self).return_data@ == old(self).return_data@,
            final(self).context == old(self).context,
            !(data_ptr >= 0 && data_len >= 0 && data_len <= MAX_LOG_DATA_LEN) ==> r == -1
                && final(self).log_view() == old(self).log_view() && final(self).fuel == old(self).fuel,
            data_ptr >= 0 && data_len >= 0 && data_len <= MAX_LOG_DATA_LEN ==> {
                let cost = 375 + 8 * data_len;
                if old(self).fuel < cost {
                    r == -1 && final(self).log_view() == old(self).log_view() && final(self).fuel
                        == old(self).fuel
                } else {
                    &&& final(self).fuel == old(self).fuel - cost
                    &&& match bytes_in(old(self).memory_view(), data_ptr, data_len) {
                        Some(d) => if old(self).logs@.len() >= MAX_LOG_COUNT {
                            r == -1 && final(self).log_view() == old(self).log_view()
                        } else {
                            r == 0 && final(self).log_view() == old(self).log_view().push(
                                (Seq::<H256>::empty(), d),
                            )
                        },
                        None => r == -1 && final(self).log_view() == old(self).log_view(),
                    }
                }
            },
    {
        if !data_args_ok(data_ptr, data_len, MAX_LOG_DATA_LEN) {
            return -1;
        }
        let cost = log_fuel(data_len as u32);
        match pay_fuel(self.fuel, cost) {
            None => {
                return -1;
            },
            Some(left) => {
                self.fuel = left;
            },
        }
        let data = match &self.memory {
            None => {
                return -1;
            },
            Some(m) => match memory_range(data_ptr, data_len, m.len()) {
                None => {
                    return -1;
                },
                Some((start, end)) => copy_range(m.as_slice(), start, end),
            },
        };
        if self.logs.len() >= MAX_LOG_COUNT {
            return -1;
        }
        let ghost before = self.log_view();
        let log = Log { topics: Vec::new(), data };
        proof {
            assert(log.topics@ =~= Seq::<H256>::empty());
        }
        self.logs.push(log);
        proof {
            assert(self.log_view() =~= before.push((Seq::<H256>::empty(), log.data@)));
        }
        0
    }

    /// The `set_return` host call.  After the argument checks (no negative
    /// value, at most 4096 bytes) it charges 100 fuel plus 1 per byte and
    /// replaces the return data with the bytes read from memory, answering
    /// 0.  Every refusal answers -1.
    pub fn set_return(&mut self, ptr: i32, len: i32) -> (r: i32)
        ensures
            final(self).memory_view() == old(self).memory_view(),
            final(self).storage_view() == old(self).storage_view(),
            final(self).storage@.len() == old(self).storage@.len(),
            final(self).log_view() == old(self).log_view(),
            final(self).context == old(self).context,
            !(ptr >= 0 && len >= 0 && len <= MAX_RETURN_DATA_LEN) ==> r == -1 && final(self).return_data@
                == old(self).return_data@ && final(self).fuel == old(self).fuel,
            ptr >= 0 && len >= 0 && len <= MAX_RETURN_DATA_LEN ==> {
                let cost = 100 + len;
                if old(self).fuel < cost {
                    r == -1 && final(self).return_data@ == old(self).return_data@ && final(self).fuel
                        == old(self).fuel
                } else {
                    &&& final(self).fuel == old(self).fuel - cost
                    &&& match bytes_in(old(self).memory_view(), ptr, len) {
                        Some(d) => r == 0 && final(self).return_data@ == d,
                        None => r == -1 && final(self).return_data@ == old(self).return_data@,
                    }
                }
            },
    {
        if !data_args_ok(ptr, len, MAX_RETURN_DATA_LEN) {
            return -1;
        }
        let cost = set_return_fuel(len as u32);
        match pay_fuel(self.fuel, cost) {
            None => {
                return -1;
            },
            Some(left) => {
                self.fuel = left;
            },
        }
        let data = match &self.memory {
            None => {
                return -1;
            },
            Some(m) => match memory_range(ptr, len, m.len()) {
                None => {
                    return -1;
                },
                Some((start, end)) => copy_range(m.as_slice(), start, end),
            },
        };
        self.return_data = data;
        0
    }

    /// The `block_number` host call: the context's block number.
    pub fn block_number(&self) -> (n: i64)
        ensures
            n == self.context.block_number as i64,
    {
        self.context.block_number as i64
    }

    /// The `timestamp` host call: the context's timestamp.
    pub fn timestamp(&self) -> (t: i64)
        ensures
            t == self.context.timestamp as i64,
    {
        self.context.timestamp as i64
    }
}

/// The entry points an execution tries, in the order it may reach them.
#[derive(Debug, Clone, Copy, PartialEq, Eq, Structural)]
pub enum WasmEntry {
    /// `execute(input_ptr, input_len) -> i32`, tried first.
    Execute,
    /// `main() -> i32`, tried after `execute` failed for a reason other
    /// than fuel, with the effects of that attempt dropped.
    MainAfterFailure,
    /// `main() -> i32`, tried when there is no `execute`.
    Main,
    /// `_start()`, tried when there is neither `execute` nor `main`.
    Start,
}

/// What calling an entry point gave.
#[derive(Debug, Clone, Copy, PartialEq, Eq, Structural)]
pub enum CallOutcome {
    /// The module exports no such function with the expected signature.
    Missing,
    /// The call returned this code (`_start` returns nothing: any code).
    Returned(i32),
    /// The call trapped; whether for want of fuel.
    Trapped { out_of_fuel: bool },
}

/// What an execution does next.
#[derive(Debug, Clone, Copy, PartialEq, Eq, Structural)]
pub enum EntryAction {
    /// Call this entry point, after dropping storage, logs and return data
    /// when `reset` is set.
    Call { entry: WasmEntry, reset: bool },
    /// Stop; whether the execution succeeded.
    Finish(bool),
}

/// The position of an entry point in the order of attempts.
pub open spec fn entry_rank(e: WasmEntry) -> int {
    match e {
        WasmEntry::Execute => 0,
        WasmEntry::MainAfterFailure => 1,
        WasmEntry::Main => 1,
        WasmEntry::Start => 2,
    }
}

/// The entry point an execution tries first.
pub fn first_entry() -> (e: WasmEntry)
    ensures
        e == WasmEntry::Execute,
{
    WasmEntry::Execute
}

/// The next step after calling `entry` with `outcome`.  A code of 0 is
/// success; running out of fuel ends the execution as a failure without
/// another attempt, so no attempt starts on the fuel left over.
pub fn after_call(entry: WasmEntry, outcome: CallOutcome) -> (a: EntryAction)
    ensures
        outcome == (CallOutcome::Trapped { out_of_fuel: true }) ==> a == EntryAction::Finish(false),
        a matches EntryAction::Call { entry: next, .. } ==> entry_rank(next) > entry_rank(entry),
        a == match entry {
            WasmEntry::Execute => match outcome {
                CallOutcome::Returned(c) => EntryAction::Finish(c == 0),
                CallOutcome::Trapped { out_of_fuel: true } => EntryAction::Finish(false),
                CallOutcome::Trapped { out_of_fuel: false } => EntryAction::Call {
                    entry: WasmEntry::MainAfterFailure,
                    reset: true,
                },
                CallOutcome::Missing => EntryAction::Call { entry: WasmEntry::Main, reset: false },
            },
            WasmEntry::MainAfterFailure => match outcome {
                CallOutcome::Returned(c) => EntryAction::Finish(c == 0),
                _ => EntryAction::Finish(false),
            },
            WasmEntry::Main => match outcome {
                CallOutcome::Returned(c) => EntryAction::Finish(c == 0),
                CallOutcome::Trapped { .. } => EntryAction::Finish(false),
                CallOutcome::Missing => EntryAction::Call { entry: WasmEntry::Start, reset: false },
            },
            WasmEntry::Start => match outcome {
                CallOutcome::Returned(_) => EntryAction::Finish(true),
                _ => EntryAction::Finish(false),
            },
        },
{
    match entry {
        WasmEntry::Execute => match outcome {
            CallOutcome::Returned(c) => EntryAction::Finish(c == 0),
            CallOutcome::Trapped { out_of_fuel } => if out_of_fuel {
                EntryAction::Finish(false)
            } else {
                EntryAction::Call { entry: WasmEntry::MainAfterFailure, reset: true }
            },
            CallOutcome::Missing => EntryAction::Call { entry: WasmEntry::Main, reset: false },
        },
        WasmEntry::MainAfterFailure => match outcome {
            CallOutcome::Returned(c) => EntryAction::Finish(c == 0),
            _ => EntryAction::Finish(false),
        },
        WasmEntry::Main => match outcome {
            CallOutcome::Returned(c) => EntryAction::Finish(c == 0),
            CallOutcome::Trapped { .. } => EntryAction::Finish(false),
            CallOutcome::Missing => EntryAction::Call { entry: WasmEntry::Start, reset: false },
        },
        WasmEntry::Start => match outcome {
            CallOutcome::Returned(_) => EntryAction::Finish(true),
            _ => EntryAction::Finish(false),
        },
    }
}

/// The input length handed to `execute`, or the error when the input is
/// longer than an `i32` can say.
pub fn input_len_arg(len: usize) -> (r: Result<i32, String>)
    ensures
        len <= i32::MAX ==> r == Ok::<i32, String>(len as i32),
        len > i32::MAX ==> r is Err && r->Err_0@ == "input too large for WASM (max 2147483647 bytes)"@,
{
    if len > 2147483647 {
        return Err(String::from_str("input too large for WASM (max 2147483647 bytes)"));
    }
    Ok(len as i32)
}

} // verus!
