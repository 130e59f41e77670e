//! The AIC token: minting, burning, transfers and allowances.
use vstd::prelude::*;

use crate::amm::error_message;
use crate::keymap::{has_key, key_pos, pairs_after_insert, KeyMap};
use crate::seqfind::{lemma_sum_push, lemma_sum_update, sum_by};
use crate::types::Address;

verus! {

/// The amount stored under `k`, or 0.
pub open spec fn amount_of<K>(m: Map<K, u128>, k: K) -> u128 {
    if m.contains_key(k) {
        m[k]
    } else {
        0
    }
}

/// A balance entry's amount, as a number.
pub open spec fn balance_value() -> spec_fn((Address, u128)) -> int {
    |p: (Address, u128)| p.1 as int
}

/// The sum of all balances.
pub open spec fn balance_sum(balances: KeyMap<Address, u128>) -> int {
    sum_by(balances.pairs(), balance_value())
}

/// The total supply is the sum of all balances.
pub open spec fn supply_balanced(s: AicTokenState) -> bool {
    s.total_supply == balance_sum(s.balances)
}

/// Storing `v` under `k` changes the sum of the balances by the difference.
proof fn lemma_balance_sum_insert(ps: Seq<(Address, u128)>, m: Map<Address, u128>, k: Address, v: u128)
    requires
        m.contains_key(k) == has_key(ps, k),
        has_key(ps, k) ==> ps[key_pos(ps, k)].1 == m[k],
    ensures
        sum_by(pairs_after_insert(ps, k, v), balance_value()) == sum_by(ps, balance_value()) - amount_of(m, k)
            + v,
{
    if has_key(ps, k) {
        let j = key_pos(ps, k);
        assert(0 <= j < ps.len() && ps[j].0 == k);
        lemma_sum_update(ps, balance_value(), j, (k, v));
    } else {
        lemma_sum_push(ps, balance_value(), (k, v));
    }
}

/// AIC token state.
pub struct AicTokenState {
    pub total_supply: u128,
    pub total_burned: u128,
    pub balances: KeyMap<Address, u128>,
    /// (owner, spender) -> amount the spender may move from the owner.
    pub allowances: KeyMap<(Address, Address), u128>,
    pub mint_authority: Address,
}

impl AicTokenState {
    /// An empty token whose minting is reserved to `mint_authority`.
    pub fn new(mint_authority: Address) -> (s: Self)
        ensures
            s.total_supply == 0,
            s.total_burned == 0,
            s.balances@ == Map::<Address, u128>::empty(),
            s.allowances@ == Map::<(Address, Address), u128>::empty(),
            s.mint_authority == mint_authority,
            supply_balanced(s),
    {
        AicTokenState {
            total_supply: 0,
            total_burned: 0,
            balances: KeyMap::new(),
            allowances: KeyMap::new(),
            mint_authority,
        }
    }

    /// Mint `amount` to `to`; only the mint authority may mint.
    pub fn mint(&mut self, caller: Address, to: Address, amount: u128) -> (r: Result<(), String>)
        ensures
            final(self).total_burned == old(self).total_burned,
            final(self).allowances@ == old(self).allowances@,
            final(self).mint_authority == old(self).mint_authority,
            caller != old(self).mint_authority ==> r is Err && r->Err_0@ == "unauthorized"@,
            caller == old(self).mint_authority && amount_of(old(self).balances@, to) + amount
                > u128::MAX ==> r is Err && r->Err_0@ == "overflow"@,
            caller != old(self).mint_authority || amount_of(old(self).balances@, to) + amount
                > u128::MAX ==> final(self).balances@ == old(self).balances@ && final(self).total_supply
                == old(self).total_supply,
            caller == old(self).mint_authority && amount_of(old(self).balances@, to) + amount
                <= u128::MAX ==> {
                &&& final(self).balances@ == old(self).balances@.insert(
                    to,
                    (amount_of(old(self).balances@, to) + amount) as u128,
                )
                &&& old(self).total_supply + amount > u128::MAX ==> r is Err && r->Err_0@
                    == "overflow"@ && final(self).total_supply == old(self).total_supply
                &&& old(self).total_supply + amount <= u128::MAX ==> r is Ok && final(
                    self).total_supply == old(self).total_supply + amount
            },
            r is Ok && supply_balanced(*old(self)) ==> supply_balanced(*final(self)),
    {
        if caller != self.mint_authority {
            return error_message("unauthorized");
        }
        let balance = match self.balances.get(&to) {
            Some(b) => *b,
            None => 0,
        };
        let new_balance = match balance.checked_add(amount) {
            Some(b) => b,
            None => return error_message("overflow"),
        };
        let ghost before = self.balances;
        self.balances.insert(to, new_balance);
        proof {
            lemma_balance_sum_insert(before.pairs(), before@, to, new_balance);
        }
        match self.total_supply.checked_add(amount) {
            Some(t) => {
                self.total_supply = t;
                Ok(())
            },
            None => error_message("overflow"),
        }
    }

    /// Burn `amount` of `from`'s tokens; a caller other than `from` spends its
    /// allowance.  Every check comes before any change, so a refused burn
    /// changes nothing.
    pub fn burn(&mut self, caller: Address, from: Address, amount: u128) -> (r: Result<(), String>)
        ensures
            final(self).mint_authority == old(self).mint_authority,
            r is Err ==> *final(self) == *old(self),
            ({
                let allow = old(self).allowances@;
                let key = (from, caller);
                let bals = old(self).balances@;
                let allowance_ok = caller == from || (allow.contains_key(key) && allow[key] >= amount);
                let balance_ok = bals.contains_key(from) && bals[from] >= amount;
                let allow1 = if caller == from {
                    allow
                } else {
                    allow.insert(key, (allow[key] - amount) as u128)
                };
                &&& caller != from && !allow.contains_key(key) ==> r is Err && r->Err_0@
                    == "unauthorized: caller is not owner and has no allowance"@
                &&& caller != from && allow.contains_key(key) && allow[key] < amount ==> r is Err
                    && r->Err_0@ == "insufficient allowance for burn"@
                &&& allowance_ok && !balance_ok ==> r is Err && r->Err_0@ == "insufficient balance"@
                &&& allowance_ok && balance_ok && amount > old(self).total_supply ==> r is Err && r->Err_0@
                    == "underflow"@
                &&& allowance_ok && balance_ok && amount <= old(self).total_supply && old(self).total_burned
                    + amount > u128::MAX ==> r is Err && r->Err_0@ == "overflow"@
                &&& allowance_ok && balance_ok && amount <= old(self).total_supply && old(self).total_burned
                    + amount <= u128::MAX ==> {
                    &&& r is Ok
                    &&& final(self).allowances@ == allow1
                    &&& final(self).balances@ == bals.insert(from, (bals[from] - amount) as u128)
                    &&& final(self).total_supply == old(self).total_supply - amount
                    &&& final(self).total_burned == old(self).total_burned + amount
                }
            }),
            r is Ok && supply_balanced(*old(self)) ==> supply_balanced(*final(self)),
    {
        let mut allowance_left: Option<u128> = None;
        if caller != from {
            let allowance = match self.allowances.get(&(from, caller)) {
                Some(a) => *a,
                None => return error_message(
                    "unauthorized: caller is not owner and has no allowance",
                ),
            };
            if allowance < amount {
                return error_message("insufficient allowance for burn");
            }
            allowance_left = Some(allowance - amount);
        }
        let balance = match self.balances.get(&from) {
            Some(b) => *b,
            None => return error_message("insufficient balance"),
        };
        if balance < amount {
            return error_message("insufficient balance");
        }
        let supply = match self.total_supply.checked_sub(amount) {
            Some(t) => t,
            None => return error_message("underflow"),
        };
        let burned = match self.total_burned.checked_add(amount) {
            Some(t) => t,
            None => return error_message("overflow"),
        };
        match allowance_left {
            Some(left) => {
                self.allowances.insert((from, caller), left);
            },
            None => {},
        }
        let ghost before = self.balances;
        self.balances.insert(from, balance - amount);
        proof {
            lemma_balance_sum_insert(before.pairs(), before@, from, (balance - amount) as u128);
        }
        self.total_supply = supply;
        self.total_burned = burned;
        Ok(())
    }

    /// Move `amount` from `from` to `to`.
    pub fn transfer(&mut self, from: Address, to: Address, amount: u128) -> (r: Result<(), String>)
        ensures
            final(self).total_supply == old(self).total_supply,
            final(self).total_burned == old(self).total_burned,
            final(self).allowances@ == old(self).allowances@,
            final(self).mint_authority == old(self).mint_authority,
            ({
                let bals = old(self).balances@;
                let ok = from != to && bals.contains_key(from) && bals[from] >= amount;
                let bals1 = bals.insert(from, (bals[from] - amount) as u128);
                &&& from == to ==> r is Err && r->Err_0@ == "cannot transfer to self"@
                &&& from != to && !ok ==> r is Err && r->Err_0@ == "insufficient balance"@
                &&& !ok ==> final(self).balances@ == bals
                &&& ok && amount_of(bals, to) + amount > u128::MAX ==> r is Err && r->Err_0@
                    == "overflow"@ && final(self).balances@ == bals1
                &&& ok && amount_of(bals, to) + amount <= u128::MAX ==> r is Ok && final(
                    self).balances@ == bals1.insert(to, (amount_of(bals, to) + amount) as u128)
            }),
            r is Ok && supply_balanced(*old(self)) ==> supply_balanced(*final(self)),
    {
        if from == to {
            return error_message("cannot transfer to self");
        }
        let from_balance = match self.balances.get(&from) {
            Some(b) => *b,
            None => return error_message("insufficient balance"),
        };
        if from_balance < amount {
            return error_message("insufficient balance");
        }
        let ghost before = self.balances;
        self.balances.insert(from, from_balance - amount);
        proof {
            lemma_balance_sum_insert(before.pairs(), before@, from, (from_balance - amount) as u128);
        }
        let to_balance = match self.balances.get(&to) {
            Some(b) => *b,
            None => 0,
        };
        let new_to = match to_balance.checked_add(amount) {
            Some(b) => b,
            None => return error_message("overflow"),
        };
        let ghost middle = self.balances;
        self.balances.insert(to, new_to);
        proof {
            lemma_balance_sum_insert(middle.pairs(), middle@, to, new_to);
        }
        Ok(())
    }

    /// Let `spender` move up to `amount` of `owner`'s tokens.
    pub fn approve(&mut self, owner: Address, spender: Address, amount: u128) -> (r: Result<(), String>)
        ensures
            r is Ok,
            final(self).allowances@ == old(self).allowances@.insert((owner, spender), amount),
            final(self).balances@ == old(self).balances@,
            final(self).total_supply == old(self).total_supply,
            final(self).total_burned == old(self).total_burned,
            final(self).mint_authority == old(self).mint_authority,
            r is Ok && supply_balanced(*old(self)) ==> supply_balanced(*final(self)),
    {
        self.allowances.insert((owner, spender), amount);
        Ok(())
    }

    /// Move `amount` from `from` to `to` on `caller`'s allowance; the allowance
    /// is only consumed when the transfer succeeds.
    pub fn transfer_from(&mut self, caller: Address, from: Address, to: Address, amount: u128) -> (r: Result<(), String>)
        ensures
            final(self).total_supply == old(self).total_supply,
            final(self).total_burned == old(self).total_burned,
            final(self).mint_authority == old(self).mint_authority,
            ({
                let allow = old(self).allowances@;
                let key = (from, caller);
                let bals = old(self).balances@;
                let allowed = allow.contains_key(key) && allow[key] >= amount;
                let ok = from != to && bals.contains_key(from) && bals[from] >= amount;
                let bals1 = bals.insert(from, (bals[from] - amount) as u128);
                &&& !allowed ==> r is Err && r->Err_0@ == "insufficient allowance"@ && final(
                    self).balances@ == bals && final(self).allowances@ == allow
                &&& allowed && from == to ==> r is Err && r->Err_0@ == "cannot transfer to self"@
                &&& allowed && from != to && !ok ==> r is Err && r->Err_0@ == "insufficient balance"@
                &&& allowed && !ok ==> final(self).balances@ == bals && final(self).allowances@
                    == allow
                &&& allowed && ok && amount_of(bals, to) + amount > u128::MAX ==> r is Err
                    && r->Err_0@ == "overflow"@ && final(self).balances@ == bals1 && final(
                    self).allowances@ == allow
                &&& allowed && ok && amount_of(bals, to) + amount <= u128::MAX ==> r is Ok && final(
                    self).balances@ == bals1.insert(to, (amount_of(bals, to) + amount) as u128)
                    && final(self).allowances@ == allow.insert(key, (allow[key] - amount) as u128)
            }),
            r is Ok && supply_balanced(*old(self)) ==> supply_balanced(*final(self)),
    {
        let allowance = match self.allowances.get(&(from, caller)) {
            Some(a) => *a,
            None => return error_message("insufficient allowance"),
        };
        if allowance < amount {
            return error_message("insufficient allowance");
        }
        let new_allowance = allowance - amount;
        match self.transfer(from, to, amount) {
            Ok(()) => {},
            Err(e) => return Err(e),
        }
        if self.allowances.contains_key(&(from, caller)) {
            self.allowances.insert((from, caller), new_allowance);
        }
        Ok(())
    }

    /// `account`'s balance (0 when it has none).
    pub fn balance_of(&self, account: &Address) -> (r: u128)
        ensures
            r == amount_of(self.balances@, *account),
    {
        match self.balances.get(account) {
            Some(b) => *b,
            None => 0,
        }
    }

    /// What `spender` may still move from `owner` (0 when nothing was approved).
    pub fn allowance_of(&self, owner: &Address, spender: &Address) -> (r: u128)
        ensures
            r == amount_of(self.allowances@, (*owner, *spender)),
    {
        match self.allowances.get(&(*owner, *spender)) {
            Some(a) => *a,
            None => 0,
        }
    }
}

} // verus!
