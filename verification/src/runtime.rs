//! Contract runtime: the state interface of contract execution, an in-memory
//! state, and the gas-metered host functions contracts call.
use vstd::prelude::*;

use crate::hashing::{sha256, sha256_of};
use crate::keymap::KeyMap;
use crate::token::amount_of;
use crate::types::{Address, H256};
use vstd::slice::slice_to_vec;
use vstd::string::StringExecFns;

verus! {

/// The blockchain state seen by contract execution: ledger-backed in a node,
/// in memory in tests.  Its model: the storage values the state holds itself
/// (all storage, when nothing stands behind it), the balances when it knows
/// them without asking a store behind it, and the logs emitted so far.
pub trait RuntimeState: Sized {
    /// Storage values the state holds itself: (contract, key) to value.
    spec fn held_storage(&self) -> Map<(Address, Seq<u8>), Seq<u8>>;

    /// Whether the held storage is all the storage there is.
    spec fn storage_complete(&self) -> bool;

    /// All balances, when the state knows them without asking a store behind it.
    spec fn known_balances(&self) -> Option<Map<Address, u128>>;

    /// The logs emitted so far, oldest first.
    spec fn emitted_logs(&self) -> Seq<EventLog>;

    /// Read a contract's storage slot: a held value, or nothing when the held
    /// storage is complete; otherwise the store behind the state answers.
    fn storage_read(&mut self, contract: &Address, key: &[u8]) -> (r: Result<Option<Vec<u8>>, String>)
        ensures
            final(self).held_storage() == old(self).held_storage(),
            final(self).storage_complete() == old(self).storage_complete(),
            final(self).known_balances() == old(self).known_balances(),
            final(self).emitted_logs() == old(self).emitted_logs(),
            old(self).held_storage().contains_key((*contract, key@)) ==> r is Ok && r->Ok_0 is Some
                && r->Ok_0->Some_0@ == old(self).held_storage()[(*contract, key@)],
            !old(self).held_storage().contains_key((*contract, key@)) && old(self).storage_complete() ==> r
                == Ok::<Option<Vec<u8>>, String>(None),
    ;

    /// Write a contract's storage slot.
    fn storage_write(&mut self, contract: &Address, key: Vec<u8>, value: Vec<u8>) -> (r: Result<(), String>)
        ensures
            r is Ok,
            final(self).held_storage() == old(self).held_storage().insert((*contract, key@), value@),
            final(self).storage_complete() == old(self).storage_complete(),
            final(self).known_balances() == old(self).known_balances(),
            final(self).emitted_logs() == old(self).emitted_logs(),
    ;

    /// An account's balance: its known balance (0 when it has none), or the
    /// answer of the store behind the state.
    fn get_balance(&self, address: &Address) -> (r: Result<u128, String>)
        ensures
            self.known_balances() is Some ==> r == Ok::<u128, String>(
                amount_of(self.known_balances()->Some_0, *address),
            ),
    ;

    /// Move `amount` from `from` to `to`.  With known balances: refused when
    /// `from` has too little or `to` would overflow, else both balances move.
    fn transfer(&mut self, from: &Address, to: &Address, amount: u128) -> (r: Result<(), String>)
        ensures
            final(self).held_storage() == old(self).held_storage(),
            final(self).storage_complete() == old(self).storage_complete(),
            final(self).emitted_logs() == old(self).emitted_logs(),
            old(self).known_balances() is Some ==> ({
                let m = old(self).known_balances()->Some_0;
                let fb = amount_of(m, *from);
                let tb = amount_of(m, *to);
                &&& fb < amount ==> r is Err && r->Err_0@ == "insufficient balance"@
                &&& fb >= amount && tb + amount > u128::MAX ==> r is Err && r->Err_0@ == "balance overflow"@
                &&& r is Err ==> final(self).known_balances() == Some(m)
                &&& fb >= amount && tb + amount <= u128::MAX ==> r is Ok && final(self).known_balances() == Some(
                    m.insert(*from, (fb - amount) as u128).insert(*to, (tb + amount) as u128),
                )
            }),
    ;

    /// Record a log event of `contract`.
    fn emit_log(&mut self, contract: &Address, topics: Vec<H256>, data: Vec<u8>) -> (r: Result<(), String>)
        ensures
            r is Ok,
            final(self).emitted_logs() == old(self).emitted_logs().push((*contract, topics, data)),
            final(self).held_storage() == old(self).held_storage(),
            final(self).storage_complete() == old(self).storage_complete(),
            final(self).known_balances() == old(self).known_balances(),
    ;
}

/// Whether two runtime states agree on their whole model.
pub open spec fn same_model<S: RuntimeState>(a: S, b: S) -> bool {
    &&& a.held_storage() == b.held_storage()
    &&& a.storage_complete() == b.storage_complete()
    &&& a.known_balances() == b.known_balances()
    &&& a.emitted_logs() == b.emitted_logs()
}

/// A log event: emitting contract, topics and data.
pub type EventLog = (Address, Vec<H256>, Vec<u8>);

/// In-memory runtime state.
pub struct MockRuntimeState {
    storage: KeyMap<(Address, Vec<u8>), Vec<u8>>,
    balances: KeyMap<Address, u128>,
    logs: Vec<EventLog>,
}

impl MockRuntimeState {
    /// Contract storage: (contract, key) to value.
    pub closed spec fn spec_storage(&self) -> Map<(Address, Seq<u8>), Seq<u8>> {
        self.storage@.map_values(|v: Vec<u8>| v@)
    }

    /// Account balances.
    pub closed spec fn spec_balances(&self) -> Map<Address, u128> {
        self.balances@
    }

    /// Emitted logs, oldest first.
    pub closed spec fn spec_logs(&self) -> Seq<EventLog> {
        self.logs@
    }

    /// An empty state.
    pub fn new() -> (s: Self)
        ensures
            s.spec_storage() == Map::<(Address, Seq<u8>), Seq<u8>>::empty(),
            s.spec_balances() == Map::<Address, u128>::empty(),
            s.spec_logs() == Seq::<EventLog>::empty(),
    {
        let s = MockRuntimeState { storage: KeyMap::new(), balances: KeyMap::new(), logs: Vec::new() };
        proof {
            assert(s.spec_storage() =~= Map::<(Address, Seq<u8>), Seq<u8>>::empty());
        }
        s
    }

    /// This state with `address` holding `balance`.
    pub fn with_balance(self, address: Address, balance: u128) -> (s: Self)
        ensures
            s.spec_balances() == self.spec_balances().insert(address, balance),
            s.spec_storage() == self.spec_storage(),
            s.spec_logs() == self.spec_logs(),
    {
        let mut s = self;
        s.balances.insert(address, balance);
        s
    }

    /// The emitted logs.
    pub fn get_logs(&self) -> (r: &[EventLog])
        ensures
            r@ == self.spec_logs(),
    {
        self.logs.as_slice()
    }
}

impl Default for MockRuntimeState {
    fn default() -> (s: Self)
        ensures
            s.spec_storage() == Map::<(Address, Seq<u8>), Seq<u8>>::empty(),
            s.spec_balances() == Map::<Address, u128>::empty(),
            s.spec_logs() == Seq::<EventLog>::empty(),
    {
        Self::new()
    }
}

impl RuntimeState for MockRuntimeState {
    open spec fn held_storage(&self) -> Map<(Address, Seq<u8>), Seq<u8>> {
        self.spec_storage()
    }

    open spec fn storage_complete(&self) -> bool {
        true
    }

    open spec fn known_balances(&self) -> Option<Map<Address, u128>> {
        Some(self.spec_balances())
    }

    open spec fn emitted_logs(&self) -> Seq<EventLog> {
        self.spec_logs()
    }

    fn storage_read(&mut self, contract: &Address, key: &[u8]) -> (r: Result<Option<Vec<u8>>, String>)
        ensures
            *final(self) == *old(self),
            r is Ok,
            match r {
                Ok(Some(v)) => old(self).spec_storage().contains_key((*contract, key@)) && v@ == old(self).spec_storage()[(*contract, key@)],
                _ => !old(self).spec_storage().contains_key((*contract, key@)),
            },
    {
        let k = (*contract, slice_to_vec(key));
        match self.storage.get(&k) {
            Some(v) => Ok(Some(slice_to_vec(v.as_slice()))),
            None => Ok(None),
        }
    }

    fn storage_write(&mut self, contract: &Address, key: Vec<u8>, value: Vec<u8>) -> (r: Result<(), String>)
        ensures
            r is Ok,
            final(self).spec_storage() == old(self).spec_storage().insert((*contract, key@), value@),
            final(self).spec_balances() == old(self).spec_balances(),
            final(self).spec_logs() == old(self).spec_logs(),
    {
        let ghost kv = key@;
        self.storage.insert((*contract, key), value);
        proof {
            assert(self.spec_storage() =~= old(self).spec_storage().insert((*contract, kv), value@));
        }
        Ok(())
    }

    fn get_balance(&self, address: &Address) -> (r: Result<u128, String>)
        ensures
            r == Ok::<u128, String>(amount_of(self.spec_balances(), *address)),
    {
        match self.balances.get(address) {
            Some(b) => Ok(*b),
            None => Ok(0),
        }
    }

    fn transfer(&mut self, from: &Address, to: &Address, amount: u128) -> (r: Result<(), String>)
        ensures
            ({
                let fb = amount_of(old(self).spec_balances(), *from);
                let tb = amount_of(old(self).spec_balances(), *to);
                &&& final(self).spec_storage() == old(self).spec_storage()
                &&& final(self).spec_logs() == old(self).spec_logs()
                &&& fb < amount ==> r is Err && r->Err_0@ == "insufficient balance"@
                &&& fb >= amount && tb + amount > u128::MAX ==> r is Err && r->Err_0@ == "balance overflow"@
                &&& r is Err ==> final(self).spec_balances() == old(self).spec_balances()
                &&& fb >= amount && tb + amount <= u128::MAX ==> r is Ok && final(self).spec_balances() == old(self).spec_balances().insert(*from, (fb - amount) as u128).insert(*to, (tb + amount) as u128)
            }),
    {
        let from_balance = match self.balances.get(from) {
            Some(b) => *b,
            None => 0,
        };
        if from_balance < amount {
            return Err(String::from_str("insufficient balance"));
        }
        let to_balance = match self.balances.get(to) {
            Some(b) => *b,
            None => 0,
        };
        let credited = match to_balance.checked_add(amount) {
            Some(c) => c,
            None => return Err(String::from_str("balance overflow")),
        };
        self.balances.insert(*from, from_balance - amount);
        self.balances.insert(*to, credited);
        Ok(())
    }

    fn emit_log(&mut self, contract: &Address, topics: Vec<H256>, data: Vec<u8>) -> (r: Result<(), String>)
        ensures
            r is Ok,
            final(self).spec_logs() == old(self).spec_logs().push((*contract, topics, data)),
            final(self).spec_storage() == old(self).spec_storage(),
            final(self).spec_balances() == old(self).spec_balances(),
    {
        self.logs.push((*contract, topics, data));
        Ok(())
    }
}

/// Gas after charging `amount` more, and the error of the charge, if any:
/// an overflow leaves the meter as it was, exceeding the limit does not.
pub open spec fn charge(used: u64, amount: u64, limit: u64) -> (u64, Option<Seq<char>>) {
    if used + amount > u64::MAX {
        (used, Some("gas overflow"@))
    } else if used + amount > limit {
        ((used + amount) as u64, Some("out of gas"@))
    } else {
        ((used + amount) as u64, None)
    }
}

/// The host functions of one contract call: gas metering over a runtime state.
pub struct HostFunctions<S: RuntimeState> {
    state: S,
    gas_used: u64,
    gas_limit: u64,
    block_number: u64,
    timestamp: u64,
    caller: Address,
    contract_address: Address,
}

/// The gas of hashing `n` bytes: 60 plus 12 per 32-byte word.
pub open spec fn sha256_gas(n: nat) -> nat {
    60 + 12 * ((n + 31) / 32)
}

impl<S: RuntimeState> HostFunctions<S> {
    /// Gas used so far.
    pub closed spec fn spec_gas_used(&self) -> u64 {
        self.gas_used
    }

    /// The gas limit.
    pub closed spec fn spec_gas_limit(&self) -> u64 {
        self.gas_limit
    }

    /// The call context: block number, timestamp, caller, contract.
    pub closed spec fn spec_context(&self) -> (u64, u64, Address, Address) {
        (self.block_number, self.timestamp, self.caller, self.contract_address)
    }

    /// The runtime state.
    pub closed spec fn spec_state(&self) -> S {
        self.state
    }

    /// Host functions over `state` with no gas used yet.
    pub fn new(
        state: S,
        gas_limit: u64,
        block_number: u64,
        timestamp: u64,
        caller: Address,
        contract_address: Address,
    ) -> (h: Self)
        ensures
            h.spec_gas_used() == 0,
            h.spec_gas_limit() == gas_limit,
            h.spec_context() == (block_number, timestamp, caller, contract_address),
            h.spec_state() == state,
    {
        HostFunctions { state, gas_used: 0, gas_limit, block_number, timestamp, caller, contract_address }
    }

    /// The runtime state.
    pub fn state(&self) -> (s: &S)
        ensures
            *s == self.spec_state(),
    {
        &self.state
    }

    /// Give back the runtime state.
    pub fn into_state(self) -> (s: S)
        ensures
            s == self.spec_state(),
    {
        self.state
    }

    /// Gas used so far.
    pub fn gas_used(&self) -> (g: u64)
        ensures
            g == self.spec_gas_used(),
    {
        self.gas_used
    }

    /// Charge `amount` gas.
    fn charge_gas(&mut self, amount: u64) -> (r: Result<(), String>)
        ensures
            final(self).gas_used == charge(old(self).gas_used, amount, old(self).gas_limit).0,
            match charge(old(self).gas_used, amount, old(self).gas_limit).1 {
                Some(m) => r is Err && r->Err_0@ == m,
                None => r is Ok,
            },
            final(self).state == old(self).state,
            final(self).gas_limit == old(self).gas_limit,
            final(self).spec_context() == old(self).spec_context(),
    {
        self.gas_used = match self.gas_used.checked_add(amount) {
            Some(g) => g,
            None => return Err(String::from_str("gas overflow")),
        };
        if self.gas_used > self.gas_limit {
            return Err(String::from_str("out of gas"));
        }
        Ok(())
    }

    /// Read a storage slot of the called contract; 200 gas.
    pub fn storage_read(&mut self, key: &[u8]) -> (r: Result<Option<Vec<u8>>, String>)
        ensures
            final(self).spec_gas_used() == charge(old(self).spec_gas_used(), 200, old(self).spec_gas_limit()).0,
            final(self).spec_gas_limit() == old(self).spec_gas_limit(),
            final(self).spec_context() == old(self).spec_context(),
            same_model(final(self).spec_state(), old(self).spec_state()),
            charge(old(self).spec_gas_used(), 200, old(self).spec_gas_limit()).1 matches Some(m) ==> r is Err
                && r->Err_0@ == m && final(self).spec_state() == old(self).spec_state(),
            charge(old(self).spec_gas_used(), 200, old(self).spec_gas_limit()).1 is None ==> ({
                let st = old(self).spec_state();
                let k = (old(self).spec_context().3, key@);
                &&& st.held_storage().contains_key(k) ==> r is Ok && r->Ok_0 is Some && r->Ok_0->Some_0@
                    == st.held_storage()[k]
                &&& !st.held_storage().contains_key(k) && st.storage_complete() ==> r == Ok::<
                    Option<Vec<u8>>,
                    String,
                >(None)
            }),
    {
        self.charge_gas(200)?;
        self.state.storage_read(&self.contract_address, key)
    }

    /// Write a storage slot of the called contract; 5000 gas, and 20000 more
    /// for a slot that was empty.
    pub fn storage_write(&mut self, key: Vec<u8>, value: Vec<u8>) -> (r: Result<(), String>)
        ensures
            final(self).spec_gas_limit() == old(self).spec_gas_limit(),
            final(self).spec_context() == old(self).spec_context(),
            final(self).spec_state().storage_complete() == old(self).spec_state().storage_complete(),
            final(self).spec_state().known_balances() == old(self).spec_state().known_balances(),
            final(self).spec_state().emitted_logs() == old(self).spec_state().emitted_logs(),
            ({
                let c0 = charge(old(self).spec_gas_used(), 5000, old(self).spec_gas_limit());
                let c1 = charge(c0.0, 20000, old(self).spec_gas_limit());
                let st = old(self).spec_state();
                let k = (old(self).spec_context().3, key@);
                let written = st.held_storage().insert(k, value@);
                &&& c0.1 matches Some(m) ==> r is Err && r->Err_0@ == m && final(self).spec_state() == st
                    && final(self).spec_gas_used() == c0.0
                &&& c0.1 is None && st.held_storage().contains_key(k) ==> r is Ok && final(self).spec_gas_used()
                    == c0.0 && final(self).spec_state().held_storage() == written
                &&& c0.1 is None && !st.held_storage().contains_key(k) && st.storage_complete() ==> match c1.1 {
                    Some(m) => r is Err && r->Err_0@ == m && final(self).spec_gas_used() == c1.0 && final(self).spec_state().held_storage() == st.held_storage(),
                    None => r is Ok && final(self).spec_gas_used() == c1.0 && final(self).spec_state().held_storage() == written,
                }
                &&& r is Ok ==> final(self).spec_state().held_storage() == written && (final(self).spec_gas_used()
                    == c0.0 || final(self).spec_gas_used() == c1.0)
                &&& r is Ok ==> final(self).spec_gas_used() <= final(self).spec_gas_limit()
            }),
    {
        self.charge_gas(5000)?;
        let exists = match self.state.storage_read(&self.contract_address, key.as_slice()) {
            Ok(v) => v.is_some(),
            Err(e) => return Err(e),
        };
        if !exists {
            self.charge_gas(20000)?;
        }
        self.state.storage_write(&self.contract_address, key, value)
    }

    /// An account's balance; 100 gas.
    pub fn get_balance(&mut self, address: &Address) -> (r: Result<u128, String>)
        ensures
            final(self).spec_gas_used() == charge(old(self).spec_gas_used(), 100, old(self).spec_gas_limit()).0,
            final(self).spec_gas_limit() == old(self).spec_gas_limit(),
            final(self).spec_context() == old(self).spec_context(),
            final(self).spec_state() == old(self).spec_state(),
            charge(old(self).spec_gas_used(), 100, old(self).spec_gas_limit()).1 matches Some(m) ==> r is Err
                && r->Err_0@ == m,
            charge(old(self).spec_gas_used(), 100, old(self).spec_gas_limit()).1 is None && old(self).spec_state().known_balances() is Some ==> r == Ok::<u128, String>(
                amount_of(old(self).spec_state().known_balances()->Some_0, *address),
            ),
    {
        self.charge_gas(100)?;
        self.state.get_balance(address)
    }

    /// Transfer value between accounts; 9000 gas.
    pub fn transfer(&mut self, from: &Address, to: &Address, amount: u128) -> (r: Result<(), String>)
        ensures
            final(self).spec_gas_used() == charge(old(self).spec_gas_used(), 9000, old(self).spec_gas_limit()).0,
            final(self).spec_gas_limit() == old(self).spec_gas_limit(),
            final(self).spec_context() == old(self).spec_context(),
            final(self).spec_state().held_storage() == old(self).spec_state().held_storage(),
            final(self).spec_state().storage_complete() == old(self).spec_state().storage_complete(),
            final(self).spec_state().emitted_logs() == old(self).spec_state().emitted_logs(),
            charge(old(self).spec_gas_used(), 9000, old(self).spec_gas_limit()).1 matches Some(m) ==> r is Err
                && r->Err_0@ == m && final(self).spec_state() == old(self).spec_state(),
            charge(old(self).spec_gas_used(), 9000, old(self).spec_gas_limit()).1 is None && old(self).spec_state().known_balances() is Some ==> ({
                let m = old(self).spec_state().known_balances()->Some_0;
                let fb = amount_of(m, *from);
                let tb = amount_of(m, *to);
                &&& fb < amount ==> r is Err && r->Err_0@ == "insufficient balance"@
                &&& fb >= amount && tb + amount > u128::MAX ==> r is Err && r->Err_0@ == "balance overflow"@
                &&& r is Err ==> final(self).spec_state().known_balances() == Some(m)
                &&& fb >= amount && tb + amount <= u128::MAX ==> r is Ok && final(self).spec_state().known_balances()
                    == Some(m.insert(*from, (fb - amount) as u128).insert(*to, (tb + amount) as u128))
            }),
    {
        self.charge_gas(9000)?;
        self.state.transfer(from, to, amount)
    }

    /// The SHA-256 digest of `data`; 60 gas plus 12 per 32-byte word.
    pub fn sha256(&mut self, data: &[u8]) -> (r: Result<H256, String>)
        ensures
            final(self).spec_gas_used() == charge(
                old(self).spec_gas_used(),
                sha256_gas(data@.len()) as u64,
                old(self).spec_gas_limit(),
            ).0,
            final(self).spec_gas_limit() == old(self).spec_gas_limit(),
            final(self).spec_context() == old(self).spec_context(),
            final(self).spec_state() == old(self).spec_state(),
            match charge(old(self).spec_gas_used(), sha256_gas(data@.len()) as u64, old(self).spec_gas_limit()).1 {
                Some(m) => r is Err && r->Err_0@ == m,
                None => r is Ok && r->Ok_0.bytes@ == sha256_of(data@),
            },
    {
        let words = data.len() / 32 + if data.len() % 32 == 0 {
            0
        } else {
            1
        };
        proof {
            assert(words == (data@.len() + 31) / 32);
            assert(12 * words <= 12 * (usize::MAX / 32 + 1)) by (nonlinear_arith)
                requires
                    words <= usize::MAX / 32 + 1,
            ;
        }
        self.charge_gas(60 + 12 * words as u64)?;
        Ok(H256 { bytes: sha256(data) })
    }

    /// Emit a log of the called contract; 375 gas plus 8 per byte.
    pub fn emit_log(&mut self, topics: Vec<H256>, data: Vec<u8>) -> (r: Result<(), String>)
        requires
            375 + 8 * data@.len() <= u64::MAX,
        ensures
            final(self).spec_gas_used() == charge(
                old(self).spec_gas_used(),
                (375 + 8 * data@.len()) as u64,
                old(self).spec_gas_limit(),
            ).0,
            final(self).spec_gas_limit() == old(self).spec_gas_limit(),
            final(self).spec_context() == old(self).spec_context(),
            charge(old(self).spec_gas_used(), (375 + 8 * data@.len()) as u64, old(self).spec_gas_limit()).1 matches Some(
                m,
            ) ==> r is Err && r->Err_0@ == m && final(self).spec_state() == old(self).spec_state(),
            charge(old(self).spec_gas_used(), (375 + 8 * data@.len()) as u64, old(self).spec_gas_limit()).1 is None
                ==> r is Ok && final(self).spec_state().emitted_logs() == old(self).spec_state().emitted_logs().push(
                (old(self).spec_context().3, topics, data),
            ) && final(self).spec_state().held_storage() == old(self).spec_state().held_storage() && final(self).spec_state().storage_complete() == old(self).spec_state().storage_complete() && final(self).spec_state().known_balances() == old(self).spec_state().known_balances(),
    {
        self.charge_gas(375 + 8 * data.len() as u64)?;
        self.state.emit_log(&self.contract_address, topics, data)
    }

    /// The block number; 2 gas.
    pub fn block_number(&mut self) -> (r: Result<u64, String>)
        ensures
            final(self).spec_gas_used() == charge(old(self).spec_gas_used(), 2, old(self).spec_gas_limit()).0,
            final(self).spec_gas_limit() == old(self).spec_gas_limit(),
            final(self).spec_context() == old(self).spec_context(),
            final(self).spec_state() == old(self).spec_state(),
            match charge(old(self).spec_gas_used(), 2, old(self).spec_gas_limit()).1 {
                Some(m) => r is Err && r->Err_0@ == m,
                None => r == Ok::<u64, String>(old(self).spec_context().0),
            },
    {
        self.charge_gas(2)?;
        Ok(self.block_number)
    }

    /// The block timestamp; 2 gas.
    pub fn timestamp(&mut self) -> (r: Result<u64, String>)
        ensures
            final(self).spec_gas_used() == charge(old(self).spec_gas_used(), 2, old(self).spec_gas_limit()).0,
            final(self).spec_gas_limit() == old(self).spec_gas_limit(),
            final(self).spec_context() == old(self).spec_context(),
            final(self).spec_state() == old(self).spec_state(),
            match charge(old(self).spec_gas_used(), 2, old(self).spec_gas_limit()).1 {
                Some(m) => r is Err && r->Err_0@ == m,
                None => r == Ok::<u64, String>(old(self).spec_context().1),
            },
    {
        self.charge_gas(2)?;
        Ok(self.timestamp)
    }

    /// The caller; 2 gas.
    pub fn caller(&mut self) -> (r: Result<Address, String>)
        ensures
            final(self).spec_gas_used() == charge(old(self).spec_gas_used(), 2, old(self).spec_gas_limit()).0,
            final(self).spec_gas_limit() == old(self).spec_gas_limit(),
            final(self).spec_context() == old(self).spec_context(),
            final(self).spec_state() == old(self).spec_state(),
            match charge(old(self).spec_gas_used(), 2, old(self).spec_gas_limit()).1 {
                Some(m) => r is Err && r->Err_0@ == m,
                None => r == Ok::<Address, String>(old(self).spec_context().2),
            },
    {
        self.charge_gas(2)?;
        Ok(self.caller)
    }

    /// The called contract's address; 2 gas.
    pub fn address(&mut self) -> (r: Result<Address, String>)
        ensures
            final(self).spec_gas_used() == charge(old(self).spec_gas_used(), 2, old(self).spec_gas_limit()).0,
            final(self).spec_gas_limit() == old(self).spec_gas_limit(),
            final(self).spec_context() == old(self).spec_context(),
            final(self).spec_state() == old(self).spec_state(),
            match charge(old(self).spec_gas_used(), 2, old(self).spec_gas_limit()).1 {
                Some(m) => r is Err && r->Err_0@ == m,
                None => r == Ok::<Address, String>(old(self).spec_context().3),
            },
    {
        self.charge_gas(2)?;
        Ok(self.contract_address)
    }
}

} // verus!
