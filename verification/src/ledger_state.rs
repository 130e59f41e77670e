//! Ledger-backed runtime state: contract execution reads through pending
//! changes to the ledger, and the changes are applied only on commit.
use vstd::prelude::*;

use crate::bytes::hex_of;
use crate::keymap::KeyMap;
use crate::runtime::{EventLog, RuntimeState};
use crate::types::{Address, H256};
use vstd::slice::slice_to_vec;
use vstd::string::StringExecFns;

verus! {

/// The ledger operations contract execution needs, supplied by the node.
pub trait LedgerAccess {
    /// The current state root.
    fn state_root(&self) -> H256;

    /// A contract storage slot.
    fn get_contract_storage(&self, contract: &Address, key: &[u8]) -> Result<Option<Vec<u8>>, String>;

    /// Whether `balance` is a balance this ledger reports for `address`.
    closed spec fn balance_answer(&self, address: Address, balance: u128) -> bool {
        true
    }

    /// The balance of an account (created empty if it does not exist yet).
    fn account_balance(&self, address: &Address) -> (r: Result<u128, String>)
        ensures
            r is Ok ==> self.balance_answer(*address, r->Ok_0),
    ;

    /// Write a contract storage slot.
    fn set_contract_storage(&mut self, contract: &Address, key: Vec<u8>, value: Vec<u8>) -> Result<(), String>;

    /// Recompute a contract account's storage root.
    fn update_account_storage_root(&mut self, contract: &Address) -> Result<(), String>;

    /// Add a signed amount to an account's balance.
    fn apply_balance_delta(&mut self, address: &Address, delta: i128) -> Result<(), String>;
}

/// An account balance seen through a pending delta, or the error text.
pub open spec fn balance_through(base: u128, delta: Option<i128>, account: Address) -> Result<u128, Seq<char>> {
    match delta {
        None => Ok(base),
        Some(d) => if d < 0 {
            if base < -d {
                Err("pending balance delta would underflow account 0x"@ + hex_of(account.bytes@))
            } else {
                Ok((base + d) as u128)
            }
        } else if base + d > u128::MAX {
            Err("balance overflow for account 0x"@ + hex_of(account.bytes@))
        } else {
            Ok((base + d) as u128)
        },
    }
}

/// The pending delta of `a`, if any.
pub open spec fn delta_of(m: Map<Address, i128>, a: Address) -> Option<i128> {
    if m.contains_key(a) {
        Some(m[a])
    } else {
        None
    }
}

/// `a`'s pending delta in `m` moved by `by`, when the result fits an `i128`.
pub open spec fn shifted(m: Map<Address, i128>, a: Address, by: int) -> Option<Map<Address, i128>> {
    let next = match delta_of(m, a) {
        Some(d) => d as int,
        None => 0,
    } + by;
    if i128::MIN <= next <= i128::MAX {
        Some(m.insert(a, next as i128))
    } else {
        None
    }
}

/// Whether some ledger balance of `from`, seen through its pending delta in
/// `m`, covers `amount`.
pub open spec fn can_pay(m: Map<Address, i128>, from: Address, amount: u128) -> bool {
    exists|base: u128|
        match #[trigger] balance_through(base, delta_of(m, from), from) {
            Ok(b) => b >= amount,
            Err(_) => false,
        }
}

/// Whether a balance that `ledger` reports for `from`, seen through its
/// pending delta in `m`, covers `amount`.
pub open spec fn ledger_can_pay<L: LedgerAccess>(ledger: L, m: Map<Address, i128>, from: Address, amount: u128) -> bool {
    exists|base: u128|
        ledger.balance_answer(from, base) && match #[trigger] balance_through(base, delta_of(m, from), from) {
            Ok(b) => b >= amount,
            Err(_) => false,
        }
}

/// When the ledger reports a single balance `base` for `from`, a payment of
/// `amount` is covered exactly when `base` moved by the pending delta of
/// `from` is at least `amount`: earlier pending debits count against it.
pub proof fn lemma_pay_through_pending<L: LedgerAccess>(
    ledger: L,
    m: Map<Address, i128>,
    from: Address,
    amount: u128,
    base: u128,
)
    requires
        ledger.balance_answer(from, base),
        forall|b: u128| #[trigger] ledger.balance_answer(from, b) ==> b == base,
    ensures
        ledger_can_pay(ledger, m, from, amount) <==> match balance_through(base, delta_of(m, from), from) {
            Ok(b) => b >= amount,
            Err(_) => false,
        },
{
    if ledger_can_pay(ledger, m, from, amount) {
        let b = choose|b: u128|
            ledger.balance_answer(from, b) && match #[trigger] balance_through(b, delta_of(m, from), from) {
                Ok(x) => x >= amount,
                Err(_) => false,
            };
        assert(b == base);
    } else {
        assert(!(match balance_through(base, delta_of(m, from), from) {
            Ok(x) => x >= amount,
            Err(_) => false,
        }));
    }
}

/// A call on the ledger made when pending changes are committed.
pub enum LedgerCall {
    /// Write a contract's storage slot: contract, key, value.
    SetContractStorage(Address, Seq<u8>, Seq<u8>),
    /// Recompute a contract's storage root.
    UpdateAccountStorageRoot(Address),
    /// Add a signed amount to an account's balance.
    ApplyBalanceDelta(Address, i128),
}

/// Pending storage writes as (contract, key) and value, in the order kept.
pub type StorageEntries = Seq<((Address, Seq<u8>), Seq<u8>)>;

/// The contracts written in `ps`, in the order they first appear.
pub open spec fn contracts_in(ps: StorageEntries) -> Seq<Address>
    decreases ps.len(),
{
    if ps.len() == 0 {
        Seq::empty()
    } else {
        let prev = contracts_in(ps.drop_last());
        let c = ps.last().0.0;
        if prev.contains(c) {
            prev
        } else {
            prev.push(c)
        }
    }
}

/// The storage writes of contract `c` among `ps`, in order.
pub open spec fn writes_for(ps: StorageEntries, c: Address) -> Seq<LedgerCall>
    decreases ps.len(),
{
    if ps.len() == 0 {
        Seq::empty()
    } else {
        let prev = writes_for(ps.drop_last(), c);
        let p = ps.last();
        if p.0.0 == c {
            prev.push(LedgerCall::SetContractStorage(c, p.0.1, p.1))
        } else {
            prev
        }
    }
}

/// For each contract of `cs` in turn: its writes, then its storage root.
pub open spec fn storage_calls(ps: StorageEntries, cs: Seq<Address>) -> Seq<LedgerCall>
    decreases cs.len(),
{
    if cs.len() == 0 {
        Seq::empty()
    } else {
        storage_calls(ps, cs.drop_last()) + writes_for(ps, cs.last()).push(
            LedgerCall::UpdateAccountStorageRoot(cs.last()),
        )
    }
}

/// One balance-delta call per pending delta, in order.
pub open spec fn delta_calls(bs: Seq<(Address, i128)>) -> Seq<LedgerCall>
    decreases bs.len(),
{
    if bs.len() == 0 {
        Seq::empty()
    } else {
        delta_calls(bs.drop_last()).push(LedgerCall::ApplyBalanceDelta(bs.last().0, bs.last().1))
    }
}

/// Whether `a` is the start of `b`.
pub open spec fn prefix_of<A>(a: Seq<A>, b: Seq<A>) -> bool {
    a.len() <= b.len() && b.subrange(0, a.len() as int) == a
}

proof fn lemma_prefix_trans<A>(a: Seq<A>, b: Seq<A>, c: Seq<A>)
    requires
        prefix_of(a, b),
        prefix_of(b, c),
    ensures
        prefix_of(a, c),
{
    assert(c.subrange(0, a.len() as int) =~= c.subrange(0, b.len() as int).subrange(0, a.len() as int));
}

proof fn lemma_prefix_concat<A>(s: Seq<A>, a: Seq<A>, b: Seq<A>)
    requires
        prefix_of(a, b),
    ensures
        prefix_of(s + a, s + b),
        prefix_of(s, s + b),
{
    assert((s + b).subrange(0, (s + a).len() as int) =~= s + a);
    assert((s + b).subrange(0, s.len() as int) =~= s);
}

proof fn lemma_writes_prefix(ps: StorageEntries, c: Address, e: int)
    requires
        0 <= e <= ps.len(),
    ensures
        prefix_of(writes_for(ps.take(e), c), writes_for(ps, c)),
    decreases ps.len() - e,
{
    if e == ps.len() {
        assert(ps.take(e) =~= ps);
        assert(writes_for(ps, c).subrange(0, writes_for(ps, c).len() as int) =~= writes_for(ps, c));
    } else {
        lemma_writes_prefix(ps, c, e + 1);
        assert(ps.take(e + 1).drop_last() =~= ps.take(e));
        let w = writes_for(ps.take(e), c);
        let w1 = writes_for(ps.take(e + 1), c);
        assert(prefix_of(w, w1)) by {
            assert(w1.subrange(0, w.len() as int) =~= w);
        }
        lemma_prefix_trans(w, w1, writes_for(ps, c));
    }
}

proof fn lemma_storage_prefix(ps: StorageEntries, cs: Seq<Address>, j: int)
    requires
        0 <= j <= cs.len(),
    ensures
        prefix_of(storage_calls(ps, cs.take(j)), storage_calls(ps, cs)),
    decreases cs.len() - j,
{
    if j == cs.len() {
        assert(cs.take(j) =~= cs);
        assert(storage_calls(ps, cs).subrange(0, storage_calls(ps, cs).len() as int) =~= storage_calls(ps, cs));
    } else {
        lemma_storage_prefix(ps, cs, j + 1);
        assert(cs.take(j + 1).drop_last() =~= cs.take(j));
        let a = storage_calls(ps, cs.take(j));
        let b = storage_calls(ps, cs.take(j + 1));
        assert(prefix_of(a, b)) by {
            assert(b.subrange(0, a.len() as int) =~= a);
        }
        lemma_prefix_trans(a, b, storage_calls(ps, cs));
    }
}

proof fn lemma_deltas_prefix(bs: Seq<(Address, i128)>, i: int)
    requires
        0 <= i <= bs.len(),
    ensures
        prefix_of(delta_calls(bs.take(i)), delta_calls(bs)),
    decreases bs.len() - i,
{
    if i == bs.len() {
        assert(bs.take(i) =~= bs);
        assert(delta_calls(bs).subrange(0, delta_calls(bs).len() as int) =~= delta_calls(bs));
    } else {
        lemma_deltas_prefix(bs, i + 1);
        assert(bs.take(i + 1).drop_last() =~= bs.take(i));
        let a = delta_calls(bs.take(i));
        let b = delta_calls(bs.take(i + 1));
        assert(prefix_of(a, b)) by {
            assert(b.subrange(0, a.len() as int) =~= a);
        }
        lemma_prefix_trans(a, b, delta_calls(bs));
    }
}

/// Runtime state over a ledger: storage writes and balance changes are kept
/// pending and applied together by `commit`.
pub struct LedgerRuntimeState<L: LedgerAccess> {
    ledger: L,
    base_state_root: H256,
    pending_storage: KeyMap<(Address, Vec<u8>), Vec<u8>>,
    pending_balances: KeyMap<Address, i128>,
    logs: Vec<EventLog>,
    /// The calls made on the ledger so far, recorded before each is made.
    ledger_calls: Ghost<Seq<LedgerCall>>,
}

/// `prefix` followed by the hexadecimal text of an address.
fn address_text(prefix: &str, a: &Address) -> (s: String)
    ensures
        s@ == prefix@ + hex_of(a.bytes@),
{
    let mut s = String::from_str(prefix);
    let hex = crate::bytes::hex_encode(a.bytes.as_slice());
    s.append(hex.as_str());
    s
}

impl<L: LedgerAccess> LedgerRuntimeState<L> {
    /// The pending storage writes.
    pub closed spec fn spec_pending_storage(&self) -> Map<(Address, Seq<u8>), Seq<u8>> {
        self.pending_storage@.map_values(|v: Vec<u8>| v@)
    }

    /// The pending balance deltas.
    pub closed spec fn spec_pending_balances(&self) -> Map<Address, i128> {
        self.pending_balances@
    }

    /// The logs collected so far.
    pub closed spec fn spec_logs(&self) -> Seq<EventLog> {
        self.logs@
    }

    /// The ledger.
    pub closed spec fn spec_ledger(&self) -> L {
        self.ledger
    }

    /// The state root when execution started.
    pub closed spec fn spec_base_state_root(&self) -> H256 {
        self.base_state_root
    }

    /// The calls made on the ledger so far, oldest first.
    pub closed spec fn spec_ledger_calls(&self) -> Seq<LedgerCall> {
        self.ledger_calls@
    }

    /// The pending storage writes in the order they are kept.
    pub closed spec fn pending_entries(&self) -> StorageEntries {
        self.pending_storage.pairs().map_values(|p: ((Address, Seq<u8>), Vec<u8>)| (p.0, p.1@))
    }

    /// The pending balance deltas in the order they are kept.
    pub closed spec fn pending_deltas(&self) -> Seq<(Address, i128)> {
        self.pending_balances.pairs()
    }

    /// The ledger calls committing makes: for each written contract (in the
    /// order of its first write) its writes and then its storage root, and
    /// then one call per balance delta.
    pub open spec fn commit_calls(&self) -> Seq<LedgerCall> {
        storage_calls(self.pending_entries(), contracts_in(self.pending_entries())) + delta_calls(
            self.pending_deltas(),
        )
    }

    /// A runtime state over `ledger`, with nothing pending.
    pub fn new(ledger: L) -> (r: Result<Self, String>)
        ensures
            r is Ok,
            r->Ok_0.spec_ledger() == ledger,
            r->Ok_0.spec_pending_storage() == Map::<(Address, Seq<u8>), Seq<u8>>::empty(),
            r->Ok_0.spec_pending_balances() == Map::<Address, i128>::empty(),
            r->Ok_0.spec_logs() == Seq::<EventLog>::empty(),
            r->Ok_0.spec_ledger_calls() == Seq::<LedgerCall>::empty(),
    {
        let base_state_root = ledger.state_root();
        let s = LedgerRuntimeState {
            ledger,
            base_state_root,
            pending_storage: KeyMap::new(),
            pending_balances: KeyMap::new(),
            logs: Vec::new(),
            ledger_calls: Ghost(Seq::empty()),
        };
        proof {
            assert(s.spec_pending_storage() =~= Map::<(Address, Seq<u8>), Seq<u8>>::empty());
        }
        Ok(s)
    }

    /// The logs collected so far.
    pub fn logs(&self) -> (r: &[EventLog])
        ensures
            r@ == self.spec_logs(),
    {
        self.logs.as_slice()
    }

    /// The state root when execution started.
    pub fn base_state_root(&self) -> (r: H256)
        ensures
            r == self.spec_base_state_root(),
    {
        self.base_state_root
    }

    /// Apply the pending changes to the ledger: storage writes contract by
    /// contract, each contract's storage root recomputed after its writes,
    /// then the balance deltas; the collected logs are handed back.  The
    /// calls made are `commit_calls`, all of them on success; the first
    /// ledger error stops them.  Nothing stays pending afterwards.
    pub fn commit(&mut self) -> (r: Result<Vec<EventLog>, String>)
        ensures
            final(self).spec_pending_storage() == Map::<(Address, Seq<u8>), Seq<u8>>::empty(),
            r is Ok ==> final(self).spec_pending_balances() == Map::<Address, i128>::empty(),
            final(self).spec_base_state_root() == old(self).spec_base_state_root(),
            r is Ok ==> r->Ok_0@ == old(self).spec_logs() && final(self).spec_ledger_calls() == old(
                self).spec_ledger_calls() + old(self).commit_calls(),
            r is Err ==> exists|made: Seq<LedgerCall>|
                final(self).spec_ledger_calls() == old(self).spec_ledger_calls() + made && made.len() >= 1
                    && #[trigger] prefix_of(made, old(self).commit_calls()),
            old(self).spec_pending_storage() == Map::<(Address, Seq<u8>), Seq<u8>>::empty()
                && old(self).spec_pending_balances() == Map::<Address, i128>::empty() ==> r is Ok,
    {
        let ghost c0 = self.ledger_calls@;
        let ghost plan_s = storage_calls(self.pending_entries(), contracts_in(self.pending_entries()));
        let ghost plan_d = delta_calls(self.pending_deltas());
        match self.apply_storage_writes() {
            Ok(()) => {},
            Err(e) => {
                proof {
                    let m = choose|m: Seq<LedgerCall>| self.ledger_calls@ == c0 + m && m.len() >= 1 && prefix_of(m, plan_s);
                    assert(prefix_of(plan_s, plan_s + plan_d)) by {
                        assert((plan_s + plan_d).subrange(0, plan_s.len() as int) =~= plan_s);
                    }
                    lemma_prefix_trans(m, plan_s, plan_s + plan_d);
                    assert(prefix_of(m, old(self).commit_calls()));
                }
                return Err(e);
            },
        }
        let ghost c1 = self.ledger_calls@;
        match self.apply_balance_deltas() {
            Ok(()) => {},
            Err(e) => {
                proof {
                    let m = choose|m: Seq<LedgerCall>| self.ledger_calls@ == c1 + m && m.len() >= 1 && prefix_of(m, plan_d);
                    lemma_prefix_concat(plan_s, m, plan_d);
                    assert(self.ledger_calls@ =~= c0 + (plan_s + m));
                    assert(prefix_of(plan_s + m, old(self).commit_calls()));
                }
                return Err(e);
            },
        }
        proof {
            assert(self.ledger_calls@ =~= c0 + old(self).commit_calls());
        }
        let mut logs: Vec<EventLog> = Vec::new();
        std::mem::swap(&mut logs, &mut self.logs);
        Ok(logs)
    }

    /// Apply the pending storage writes, grouped by contract; nothing stays
    /// pending afterwards, and with nothing pending the ledger is not touched.
    fn apply_storage_writes(&mut self) -> (r: Result<(), String>)
        ensures
            final(self).logs == old(self).logs,
            final(self).spec_pending_storage() == Map::<(Address, Seq<u8>), Seq<u8>>::empty(),
            final(self).spec_pending_balances() == old(self).spec_pending_balances(),
            final(self).pending_deltas() == old(self).pending_deltas(),
            final(self).spec_base_state_root() == old(self).spec_base_state_root(),
            old(self).spec_pending_storage() == Map::<(Address, Seq<u8>), Seq<u8>>::empty() ==> r is Ok
                && final(self).spec_ledger() == old(self).spec_ledger(),
            ({
                let plan = storage_calls(old(self).pending_entries(), contracts_in(old(self).pending_entries()));
                &&& r is Ok ==> final(self).spec_ledger_calls() == old(self).spec_ledger_calls() + plan
                &&& r is Err ==> exists|made: Seq<LedgerCall>|
                    final(self).spec_ledger_calls() == old(self).spec_ledger_calls() + made && made.len() >= 1
                        && #[trigger] prefix_of(made, plan)
            }),
    {
        let ghost c0 = self.ledger_calls@;
        let ghost ps = self.pending_entries();
        let mut pending = KeyMap::new();
        std::mem::swap(&mut pending, &mut self.pending_storage);
        proof {
            assert(self.spec_pending_storage() =~= Map::<(Address, Seq<u8>), Seq<u8>>::empty());
        }
        let n = pending.len();
        assert(ps.len() == n);
        assert(forall|i: int| 0 <= i < n ==> #[trigger] ps[i] == (pending.key_at(i), pending@[pending.key_at(i)]@));
        if n == 0 {
            proof {
                assert(ps =~= StorageEntries::empty());
                assert(self.ledger_calls@ =~= c0 + storage_calls(ps, contracts_in(ps)));
            }
            return Ok(());
        }
        proof {
            if old(self).spec_pending_storage() == Map::<(Address, Seq<u8>), Seq<u8>>::empty() {
                assert(pending@.dom() =~= old(self).spec_pending_storage().dom());
                assert(pending@.dom() =~= Set::<(Address, Seq<u8>)>::empty());
                assert(pending@.len() == 0);
            }
        }
        assert(old(self).spec_pending_storage() != Map::<(Address, Seq<u8>), Seq<u8>>::empty());
        let mut contracts: Vec<Address> = Vec::new();
        let mut i: usize = 0;
        proof {
            assert(ps.take(0) =~= StorageEntries::empty());
        }
        while i < n
            invariant
                n == pending.spec_len(),
                ps.len() == n,
                forall|i: int| 0 <= i < n ==> #[trigger] ps[i] == (pending.key_at(i), pending@[pending.key_at(i)]@),
                i <= n,
                contracts@ == contracts_in(ps.take(i as int)),
            decreases n - i,
        {
            let (k, _) = pending.entry_at(i);
            let contract = k.0;
            let mut seen = false;
            let mut j: usize = 0;
            while j < contracts.len()
                invariant
                    j <= contracts@.len(),
                    seen == (exists|t: int| 0 <= t < j && contracts@[t] == contract),
                decreases contracts@.len() - j,
            {
                if contracts[j] == contract {
                    seen = true;
                }
                j = j + 1;
            }
            proof {
                assert(seen == contracts@.contains(contract));
                assert(ps.take(i + 1).drop_last() =~= ps.take(i as int));
                assert(ps.take(i + 1).last() == ps[i as int]);
            }
            if !seen {
                contracts.push(contract);
            }
            i = i + 1;
        }
        proof {
            assert(ps.take(n as int) =~= ps);
        }
        let ghost cs = contracts@;
        assert(cs == contracts_in(ps));
        let ghost plan = storage_calls(ps, cs);
        let mut c: usize = 0;
        proof {
            assert(cs.take(0) =~= Seq::<Address>::empty());
            assert(self.ledger_calls@ =~= c0 + storage_calls(ps, cs.take(0)));
        }
        while c < contracts.len()
            invariant
                c <= contracts@.len(),
                contracts@ == cs,
                cs == contracts_in(ps),
                ps == old(self).pending_entries(),
                c0 == old(self).spec_ledger_calls(),
                plan == storage_calls(ps, cs),
                n == pending.spec_len(),
                ps.len() == n,
                forall|i: int| 0 <= i < n ==> #[trigger] ps[i] == (pending.key_at(i), pending@[pending.key_at(i)]@),
                self.ledger_calls@ == c0 + storage_calls(ps, cs.take(c as int)),
                self.logs == old(self).logs,
                self.spec_pending_storage() == Map::<(Address, Seq<u8>), Seq<u8>>::empty(),
                self.spec_pending_balances() == old(self).spec_pending_balances(),
                self.pending_deltas() == old(self).pending_deltas(),
                self.spec_base_state_root() == old(self).spec_base_state_root(),
                old(self).spec_pending_storage() != Map::<(Address, Seq<u8>), Seq<u8>>::empty(),
            decreases contracts@.len() - c,
        {
            let contract = contracts[c];
            let ghost before = storage_calls(ps, cs.take(c as int));
            proof {
                lemma_storage_prefix(ps, cs, c + 1);
                assert(cs.take(c + 1).drop_last() =~= cs.take(c as int));
                assert(cs.take(c + 1).last() == contract);
                assert(ps.take(0) =~= StorageEntries::empty());
                assert(self.ledger_calls@ =~= c0 + before + writes_for(ps.take(0), contract));
            }
            let mut e: usize = 0;
            while e < n
                invariant
                    e <= n,
                    n == pending.spec_len(),
                    ps.len() == n,
                    forall|i: int| 0 <= i < n ==> #[trigger] ps[i] == (pending.key_at(i), pending@[pending.key_at(i)]@),
                    c < cs.len(),
                    cs == contracts_in(ps),
                    ps == old(self).pending_entries(),
                    c0 == old(self).spec_ledger_calls(),
                    plan == storage_calls(ps, cs),
                    contract == cs[c as int],
                    before == storage_calls(ps, cs.take(c as int)),
                    prefix_of(before + writes_for(ps, contract).push(LedgerCall::UpdateAccountStorageRoot(contract)), plan),
                    self.ledger_calls@ == c0 + before + writes_for(ps.take(e as int), contract),
                    self.logs == old(self).logs,
                    self.spec_pending_storage() == Map::<(Address, Seq<u8>), Seq<u8>>::empty(),
                    self.spec_pending_balances() == old(self).spec_pending_balances(),
                    self.pending_deltas() == old(self).pending_deltas(),
                    self.spec_base_state_root() == old(self).spec_base_state_root(),
                    old(self).spec_pending_storage() != Map::<(Address, Seq<u8>), Seq<u8>>::empty(),
                decreases n - e,
            {
                let (k, v) = pending.entry_at(e);
                proof {
                    assert(ps.take(e + 1).drop_last() =~= ps.take(e as int));
                    assert(ps.take(e + 1).last() == ps[e as int]);
                }
                if k.0 == contract {
                    let key = slice_to_vec(k.1.as_slice());
                    let value = slice_to_vec(v.as_slice());
                    proof {
                        self.ledger_calls@ = self.ledger_calls@.push(
                            LedgerCall::SetContractStorage(contract, key@, value@),
                        );
                        assert(self.ledger_calls@ =~= c0 + before + writes_for(ps.take(e + 1), contract));
                    }
                    match self.ledger.set_contract_storage(&contract, key, value) {
                        Ok(()) => {},
                        Err(err) => {
                            proof {
                                let made = before + writes_for(ps.take(e + 1), contract);
                                lemma_writes_prefix(ps, contract, e + 1);
                                let full = writes_for(ps, contract);
                                assert(prefix_of(full, full.push(LedgerCall::UpdateAccountStorageRoot(contract)))) by {
                                    assert(full.push(LedgerCall::UpdateAccountStorageRoot(contract)).subrange(0, full.len() as int) =~= full);
                                }
                                lemma_prefix_trans(writes_for(ps.take(e + 1), contract), full, full.push(LedgerCall::UpdateAccountStorageRoot(contract)));
                                lemma_prefix_concat(before, writes_for(ps.take(e + 1), contract), full.push(LedgerCall::UpdateAccountStorageRoot(contract)));
                                lemma_prefix_trans(made, before + full.push(LedgerCall::UpdateAccountStorageRoot(contract)), plan);
                                assert(self.ledger_calls@ =~= c0 + made);
                                assert(made.len() >= 1);
                                assert(prefix_of(made, plan));
                            }
                            return Err(err);
                        },
                    }
                }
                e = e + 1;
            }
            proof {
                assert(ps.take(n as int) =~= ps);
                let full = writes_for(ps, contract);
                self.ledger_calls@ = self.ledger_calls@.push(LedgerCall::UpdateAccountStorageRoot(contract));
                assert(self.ledger_calls@ =~= c0 + storage_calls(ps, cs.take(c + 1)));
            }
            match self.ledger.update_account_storage_root(&contract) {
                Ok(()) => {},
                Err(err) => {
                    proof {
                        lemma_storage_prefix(ps, cs, c + 1);
                        assert(self.ledger_calls@ =~= c0 + storage_calls(ps, cs.take(c + 1)));
                        assert(storage_calls(ps, cs.take(c + 1)).len() >= 1);
                        assert(prefix_of(storage_calls(ps, cs.take(c + 1)), plan));
                    }
                    return Err(err);
                },
            }
            c = c + 1;
        }
        proof {
            assert(cs.take(cs.len() as int) =~= cs);
        }
        Ok(())
    }

    /// Apply the pending balance deltas; nothing stays pending afterwards,
    /// and with nothing pending the ledger is not touched.
    fn apply_balance_deltas(&mut self) -> (r: Result<(), String>)
        ensures
            final(self).logs == old(self).logs,
            final(self).spec_pending_balances() == Map::<Address, i128>::empty(),
            final(self).spec_pending_storage() == old(self).spec_pending_storage(),
            final(self).spec_base_state_root() == old(self).spec_base_state_root(),
            old(self).spec_pending_balances() == Map::<Address, i128>::empty() ==> r is Ok
                && final(self).spec_ledger() == old(self).spec_ledger(),
            r is Ok ==> final(self).spec_ledger_calls() == old(self).spec_ledger_calls() + delta_calls(
                old(self).pending_deltas(),
            ),
            r is Err ==> exists|made: Seq<LedgerCall>|
                final(self).spec_ledger_calls() == old(self).spec_ledger_calls() + made && made.len() >= 1
                    && #[trigger] prefix_of(made, delta_calls(old(self).pending_deltas())),
    {
        let ghost c0 = self.ledger_calls@;
        let ghost bs = self.pending_deltas();
        let mut pending = KeyMap::new();
        std::mem::swap(&mut pending, &mut self.pending_balances);
        let n = pending.len();
        proof {
            assert(bs.take(0) =~= Seq::<(Address, i128)>::empty());
            assert(self.ledger_calls@ =~= c0 + delta_calls(bs.take(0)));
        }
        let mut i: usize = 0;
        while i < n
            invariant
                n == pending.spec_len(),
                bs == pending.pairs(),
                bs == old(self).pending_deltas(),
                c0 == old(self).spec_ledger_calls(),
                bs.len() == n,
                forall|t: int| 0 <= t < n ==> #[trigger] bs[t] == (pending.key_at(t), pending@[pending.key_at(t)]),
                i <= n,
                self.ledger_calls@ == c0 + delta_calls(bs.take(i as int)),
                self.logs == old(self).logs,
                self.spec_pending_balances() == Map::<Address, i128>::empty(),
                self.spec_pending_storage() == old(self).spec_pending_storage(),
                self.spec_base_state_root() == old(self).spec_base_state_root(),
                old(self).spec_pending_balances() == Map::<Address, i128>::empty() ==> n == 0
                    && self.spec_ledger() == old(self).spec_ledger(),
            decreases n - i,
        {
            let (a, d) = pending.entry_at(i);
            let address = *a;
            let delta = *d;
            proof {
                assert(bs[i as int] == (address, delta));
                assert(bs.take(i + 1).drop_last() =~= bs.take(i as int));
                assert(bs.take(i + 1).last() == bs[i as int]);
                self.ledger_calls@ = self.ledger_calls@.push(LedgerCall::ApplyBalanceDelta(address, delta));
                assert(self.ledger_calls@ =~= c0 + delta_calls(bs.take(i + 1)));
            }
            match self.ledger.apply_balance_delta(&address, delta) {
                Ok(()) => {},
                Err(err) => {
                    proof {
                        lemma_deltas_prefix(bs, i + 1);
                        assert(delta_calls(bs.take(i + 1)).len() >= 1);
                        assert(prefix_of(delta_calls(bs.take(i + 1)), delta_calls(bs)));
                    }
                    return Err(err);
                },
            }
            i = i + 1;
        }
        proof {
            assert(bs.take(n as int) =~= bs);
        }
        Ok(())
    }

    /// The balance of `address` through its pending delta, given its ledger balance.
    pub fn balance_with_pending(&self, address: &Address, base: u128) -> (r: Result<u128, String>)
        ensures
            match balance_through(base, delta_of(self.spec_pending_balances(), *address), *address) {
                Ok(b) => r == Ok::<u128, String>(b),
                Err(m) => r is Err && r->Err_0@ == m,
            },
    {
        match self.pending_balances.get(address) {
            None => Ok(base),
            Some(d) => {
                let delta = *d;
                if delta < 0 {
                    let decrease: u128 = if delta == i128::MIN {
                        0x8000_0000_0000_0000_0000_0000_0000_0000u128
                    } else {
                        (0 - delta) as u128
                    };
                    assert(decrease == -delta);
                    if base < decrease {
                        return Err(address_text("pending balance delta would underflow account 0x", address));
                    }
                    Ok(base - decrease)
                } else {
                    match base.checked_add(delta as u128) {
                        Some(b) => Ok(b),
                        None => Err(address_text("balance overflow for account 0x", address)),
                    }
                }
            },
        }
    }

    /// Add `amount` (negated when `credit` is false) to `address`'s pending delta.
    fn shift_delta(&mut self, address: &Address, amount: u128, credit: bool) -> (r: Result<(), String>)
        ensures
            ({
                let d = match delta_of(old(self).spec_pending_balances(), *address) {
                    Some(d) => d as int,
                    None => 0,
                };
                let next = if credit {
                    d + amount
                } else {
                    d - amount
                };
                &&& final(self).spec_pending_storage() == old(self).spec_pending_storage()
                &&& final(self).spec_logs() == old(self).spec_logs()
                &&& final(self).spec_ledger() == old(self).spec_ledger()
                &&& final(self).spec_base_state_root() == old(self).spec_base_state_root()
                &&& next < i128::MIN || next > i128::MAX ==> r is Err && r->Err_0@ == "balance delta overflow"@
                    && final(self).spec_pending_balances() == old(self).spec_pending_balances()
                &&& i128::MIN <= next <= i128::MAX ==> r is Ok && final(self).spec_pending_balances()
                    == old(self).spec_pending_balances().insert(*address, next as i128)
            }),
    {
        let d: i128 = match self.pending_balances.get(address) {
            Some(d) => *d,
            None => 0,
        };
        let next: Option<i128> = if amount <= 0x7fff_ffff_ffff_ffff_ffff_ffff_ffff_ffffu128 {
            let a = amount as i128;
            if credit {
                d.checked_add(a)
            } else {
                d.checked_sub(a)
            }
        } else if credit {
            if d >= 0 {
                None
            } else {
                let magnitude: u128 = if d == i128::MIN {
                    0x8000_0000_0000_0000_0000_0000_0000_0000u128
                } else {
                    (0 - d) as u128
                };
                let sum = amount - magnitude;
                if sum > 0x7fff_ffff_ffff_ffff_ffff_ffff_ffff_ffffu128 {
                    None
                } else {
                    Some(sum as i128)
                }
            }
        } else if d < 0 {
            None
        } else {
            let gap = amount - d as u128;
            if gap > 0x8000_0000_0000_0000_0000_0000_0000_0000u128 {
                None
            } else if gap == 0x8000_0000_0000_0000_0000_0000_0000_0000u128 {
                Some(i128::MIN)
            } else {
                Some(0 - gap as i128)
            }
        };
        match next {
            Some(v) => {
                self.pending_balances.insert(*address, v);
                Ok(())
            },
            None => Err(String::from_str("balance delta overflow")),
        }
    }
}

impl<L: LedgerAccess> RuntimeState for LedgerRuntimeState<L> {
    open spec fn held_storage(&self) -> Map<(Address, Seq<u8>), Seq<u8>> {
        self.spec_pending_storage()
    }

    open spec fn storage_complete(&self) -> bool {
        false
    }

    open spec fn known_balances(&self) -> Option<Map<Address, u128>> {
        None
    }

    open spec fn emitted_logs(&self) -> Seq<EventLog> {
        self.spec_logs()
    }

    fn storage_read(&mut self, contract: &Address, key: &[u8]) -> (r: Result<Option<Vec<u8>>, String>)
        ensures
            *final(self) == *old(self),
            old(self).spec_pending_storage().contains_key((*contract, key@)) ==> r is Ok && r->Ok_0 is Some
                && r->Ok_0->0@ == old(self).spec_pending_storage()[(*contract, key@)],
    {
        let k = (*contract, slice_to_vec(key));
        match self.pending_storage.get(&k) {
            Some(v) => Ok(Some(slice_to_vec(v.as_slice()))),
            None => self.ledger.get_contract_storage(contract, key),
        }
    }

    fn storage_write(&mut self, contract: &Address, key: Vec<u8>, value: Vec<u8>) -> (r: Result<(), String>)
        ensures
            r is Ok,
            final(self).spec_pending_storage() == old(self).spec_pending_storage().insert((*contract, key@), value@),
            final(self).spec_pending_balances() == old(self).spec_pending_balances(),
            final(self).spec_logs() == old(self).spec_logs(),
            final(self).spec_ledger() == old(self).spec_ledger(),
    {
        let ghost kv = key@;
        self.pending_storage.insert((*contract, key), value);
        proof {
            assert(self.spec_pending_storage() =~= old(self).spec_pending_storage().insert((*contract, kv), value@));
        }
        Ok(())
    }

    fn get_balance(&self, address: &Address) -> (r: Result<u128, String>)
        ensures
            r is Ok ==> exists|base: u128|
                #[trigger] balance_through(base, delta_of(self.spec_pending_balances(), *address), *address)
                    == Ok::<u128, Seq<char>>(r->Ok_0),
            r is Ok ==> exists|base: u128|
                self.spec_ledger().balance_answer(*address, base) && #[trigger] balance_through(
                    base,
                    delta_of(self.spec_pending_balances(), *address),
                    *address,
                ) == Ok::<u128, Seq<char>>(r->Ok_0),
    {
        let base = self.ledger.account_balance(address)?;
        let r = self.balance_with_pending(address, base);
        proof {
            if r is Ok {
                assert(balance_through(base, delta_of(self.spec_pending_balances(), *address), *address)
                    == Ok::<u128, Seq<char>>(r->Ok_0));
            }
        }
        r
    }

    fn transfer(&mut self, from: &Address, to: &Address, amount: u128) -> (r: Result<(), String>)
        ensures
            final(self).spec_pending_storage() == old(self).spec_pending_storage(),
            final(self).spec_logs() == old(self).spec_logs(),
            final(self).spec_ledger() == old(self).spec_ledger(),
            final(self).spec_base_state_root() == old(self).spec_base_state_root(),
            r is Ok ==> ledger_can_pay(old(self).spec_ledger(), old(self).spec_pending_balances(), *from, amount),
            r is Ok ==> can_pay(old(self).spec_pending_balances(), *from, amount) && shifted(
                old(self).spec_pending_balances(),
                *from,
                -(amount as int),
            ) is Some && shifted(
                shifted(old(self).spec_pending_balances(), *from, -(amount as int))->Some_0,
                *to,
                amount as int,
            ) == Some(final(self).spec_pending_balances()),
            r is Err ==> final(self).spec_pending_balances() == old(self).spec_pending_balances() || Some(
                final(self).spec_pending_balances(),
            ) == shifted(old(self).spec_pending_balances(), *from, -(amount as int)),
    {
        let from_balance = self.get_balance(from)?;
        if from_balance < amount {
            return Err(String::from_str("insufficient balance for transfer"));
        }
        proof {
            let base = choose|base: u128|
                self.spec_ledger().balance_answer(*from, base) && #[trigger] balance_through(
                    base,
                    delta_of(self.spec_pending_balances(), *from),
                    *from,
                ) == Ok::<u128, Seq<char>>(from_balance);
            assert(match balance_through(base, delta_of(self.spec_pending_balances(), *from), *from) {
                Ok(b) => b >= amount,
                Err(_) => false,
            });
        }
        self.shift_delta(from, amount, false)?;
        self.shift_delta(to, amount, true)
    }

    fn emit_log(&mut self, contract: &Address, topics: Vec<H256>, data: Vec<u8>) -> (r: Result<(), String>)
        ensures
            r is Ok,
            final(self).spec_logs() == old(self).spec_logs().push((*contract, topics, data)),
            final(self).spec_pending_storage() == old(self).spec_pending_storage(),
            final(self).spec_pending_balances() == old(self).spec_pending_balances(),
    {
        self.logs.push((*contract, topics, data));
        Ok(())
    }
}

} // verus!
