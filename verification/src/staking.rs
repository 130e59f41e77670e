//! Validator staking: registration, delegation, unbonding, slashing, rewards.
use vstd::prelude::*;

use crate::math::{bps_of, capped_quotient, mul_div, spec_mul_div};
use crate::seqfind::{
    cap128, first_match, is_first_match, is_last_match, last_match, lemma_cap_add,
    lemma_filter_take_step, lemma_first_match, lemma_last_match, lemma_sum_nonneg,
    lemma_sum_filter_zero, lemma_sum_map_add, lemma_sum_negate, lemma_sum_push, lemma_sum_take_step, lemma_sum_term_bound, lemma_sum_update, lemma_sum_zero, lemma_take_full, sum_by,
};
use crate::types::Address;

verus! {

/// Minimum self-stake of a validator (100 SWR with 6 decimals).
pub const MIN_STAKE: u128 = 100_000_000;

/// Slots between the start and the end of an unbonding.
pub const UNBONDING_SLOTS: u64 = 100_800;

/// Errors of the staking program.
#[derive(Debug, Clone, PartialEq, Eq)]
pub enum StakingError {
    InsufficientStake { min: u128, got: u128 },
    ValidatorExists(Address),
    Unauthorized,
    ValidatorNotFound(Address),
    ValidatorInactive(Address),
    InvalidCommission(u16),
    InvalidSlashRate(u128),
    DelegationNotFound,
    InsufficientDelegation { have: u128, requested: u128 },
    Overflow,
    ValidatorJailed { until: u64, current: u64 },
    ValidatorNotJailed(Address),
    UnjailInsufficientStake { have: u128, min: u128 },
}

#[derive(Clone, Copy, Debug)]
pub struct Validator {
    pub address: Address,
    pub staked_amount: u128,
    pub delegated_amount: u128,
    /// Basis points (1000 = 10%).
    pub commission_rate: u16,
    pub reward_address: Address,
    pub is_active: bool,
    /// Slot until which the validator is jailed.
    pub jailed_until: Option<u64>,
    pub slash_count: u32,
}

#[derive(Clone, Copy, Debug)]
pub struct Delegation {
    pub delegator: Address,
    pub validator: Address,
    pub amount: u128,
    pub reward_debt: u128,
}

#[derive(Clone, Copy, Debug)]
pub struct Unbonding {
    pub address: Address,
    pub validator: Address,
    pub amount: u128,
    pub complete_slot: u64,
}

/// Staking program state.
#[derive(Clone, Debug)]
pub struct StakingState {
    pub total_staked: u128,
    pub validators: Vec<Validator>,
    pub delegations: Vec<Delegation>,
    pub unbonding: Vec<Unbonding>,
    pub reward_pool: u128,
    pub current_epoch: u64,
}

/// Matches the validator with address `a`.
pub open spec fn is_validator(a: Address) -> spec_fn(Validator) -> bool {
    |v: Validator| v.address == a
}

/// Matches the delegation of `delegator` to `validator`.
pub open spec fn is_delegation(delegator: Address, validator: Address) -> spec_fn(
    Delegation,
) -> bool {
    |d: Delegation| d.delegator == delegator && d.validator == validator
}

/// Position of the first validator with address `a`, or -1.
pub open spec fn validator_index(vs: Seq<Validator>, a: Address) -> int {
    first_match(vs, is_validator(a))
}

/// Position of the first delegation of `delegator` to `validator`, or -1.
pub open spec fn delegation_index(ds: Seq<Delegation>, delegator: Address, validator: Address) -> int {
    first_match(ds, is_delegation(delegator, validator))
}

/// `d` with its amount replaced.
pub open spec fn with_amount(d: Delegation, amount: u128) -> Delegation {
    Delegation { delegator: d.delegator, validator: d.validator, amount, reward_debt: d.reward_debt }
}

/// `v` with its delegated amount replaced.
pub open spec fn with_delegated(v: Validator, delegated_amount: u128) -> Validator {
    Validator {
        address: v.address,
        staked_amount: v.staked_amount,
        delegated_amount,
        commission_rate: v.commission_rate,
        reward_address: v.reward_address,
        is_active: v.is_active,
        jailed_until: v.jailed_until,
        slash_count: v.slash_count,
    }
}


/// `x * rate / 10000`: the share of `x` that a slash of `rate` basis points takes.
pub open spec fn slash_part(x: u128, rate: u128) -> u128 {
    ((x as int * rate as int) / 10000) as u128
}

/// A delegation after a slash of `rate` on validator `v`.
pub open spec fn slashed_delegation(d: Delegation, v: Address, rate: u128) -> Delegation {
    if d.validator == v {
        with_amount(d, (d.amount - slash_part(d.amount, rate)) as u128)
    } else {
        d
    }
}

/// An unbonding entry after a slash of `rate` on validator `v`.
pub open spec fn slashed_unbonding(u: Unbonding, v: Address, rate: u128) -> Unbonding {
    if u.validator == v {
        Unbonding {
            address: u.address,
            validator: u.validator,
            amount: (u.amount - slash_part(u.amount, rate)) as u128,
            complete_slot: u.complete_slot,
        }
    } else {
        u
    }
}

/// What a slash of `rate` on `v` takes from a delegation.
pub open spec fn delegation_slash(v: Address, rate: u128) -> spec_fn(Delegation) -> int {
    |d: Delegation| if d.validator == v { slash_part(d.amount, rate) as int } else { 0 }
}

/// What a slash of `rate` on `v` takes from an unbonding entry.
pub open spec fn unbonding_slash(v: Address, rate: u128) -> spec_fn(Unbonding) -> int {
    |u: Unbonding| if u.validator == v { slash_part(u.amount, rate) as int } else { 0 }
}

/// The amount a delegation holds with validator `v`.
pub open spec fn delegated_to(v: Address) -> spec_fn(Delegation) -> int {
    |d: Delegation| if d.validator == v { d.amount as int } else { 0 }
}

/// Matches the delegations to validator `v`.
pub open spec fn delegates_to(v: Address) -> spec_fn(Delegation) -> bool {
    |d: Delegation| d.validator == v
}

/// Matches the delegations to a validator other than `v`.
pub open spec fn delegates_elsewhere(v: Address) -> spec_fn(Delegation) -> bool {
    |d: Delegation| d.validator != v
}

/// Matches the non-empty delegations to a validator other than `v`.
pub open spec fn held_elsewhere(v: Address) -> spec_fn(Delegation) -> bool {
    |d: Delegation| d.validator != v && d.amount > 0
}

/// Matches the unbonding entries of validator `v`.
pub open spec fn unbonds_from(v: Address) -> spec_fn(Unbonding) -> bool {
    |u: Unbonding| u.validator == v
}

/// Matches the unbonding entries of a validator other than `v`.
pub open spec fn unbonds_elsewhere(v: Address) -> spec_fn(Unbonding) -> bool {
    |u: Unbonding| u.validator != v
}

/// Matches the non-empty unbonding entries of a validator other than `v`.
pub open spec fn pending_elsewhere(v: Address) -> spec_fn(Unbonding) -> bool {
    |u: Unbonding| u.validator != v && u.amount > 0
}

/// What a slash of `rate` takes from a delegation's amount.
pub open spec fn delegation_cut(rate: u128) -> spec_fn(Delegation) -> int {
    |d: Delegation| slash_part(d.amount, rate) as int
}

/// What a slash of `rate` takes from an unbonding entry's amount.
pub open spec fn unbonding_cut(rate: u128) -> spec_fn(Unbonding) -> int {
    |u: Unbonding| slash_part(u.amount, rate) as int
}

/// The delegations after a slash of `rate` on `v`; emptied ones are dropped.
pub open spec fn delegations_after_slash(ds: Seq<Delegation>, v: Address, rate: u128) -> Seq<
    Delegation,
> {
    ds.map_values(|d: Delegation| slashed_delegation(d, v, rate)).filter(
        |d: Delegation| d.amount > 0,
    )
}

/// The unbonding queue after a slash of `rate` on `v`; emptied entries are dropped.
pub open spec fn unbonding_after_slash(us: Seq<Unbonding>, v: Address, rate: u128) -> Seq<
    Unbonding,
> {
    us.map_values(|u: Unbonding| slashed_unbonding(u, v, rate)).filter(
        |u: Unbonding| u.amount > 0,
    )
}

/// The total taken by a slash of `rate` on validator `val` (saturating).
pub open spec fn slash_total(
    val: Validator,
    ds: Seq<Delegation>,
    us: Seq<Unbonding>,
    rate: u128,
) -> int {
    cap128(
        slash_part(val.staked_amount, rate) + cap128(sum_by(ds, delegation_slash(val.address, rate)))
            + cap128(sum_by(us, unbonding_slash(val.address, rate))),
    )
}

/// The validator record after a slash of `rate` at `current_slot`.
pub open spec fn validator_after_slash(
    val: Validator,
    ds_after: Seq<Delegation>,
    rate: u128,
    current_slot: u64,
) -> Validator {
    let count = if val.slash_count == u32::MAX {
        u32::MAX
    } else {
        (val.slash_count + 1) as u32
    };
    let jail = count >= 3;
    Validator {
        address: val.address,
        staked_amount: (val.staked_amount - slash_part(val.staked_amount, rate)) as u128,
        delegated_amount: cap128(sum_by(ds_after, delegated_to(val.address))) as u128,
        commission_rate: val.commission_rate,
        reward_address: val.reward_address,
        is_active: if jail {
            false
        } else {
            val.is_active
        },
        jailed_until: if jail {
            Some(
                (if current_slot as int + StakingState::UNJAIL_COOLDOWN_SLOTS as int > u64::MAX as int {
                    u64::MAX as int
                } else {
                    current_slot as int + StakingState::UNJAIL_COOLDOWN_SLOTS as int
                }) as u64,
            )
        } else {
            val.jailed_until
        },
        slash_count: count,
    }
}

/// Slash every delegation to `v` by `rate`, dropping emptied delegations;
/// returns the kept delegations and the (saturating) total slashed.
fn slash_delegations(ds: &Vec<Delegation>, v: Address, rate: u128) -> (r: (Vec<Delegation>, u128))
    requires
        rate <= 10000,
    ensures
        r.0@ == delegations_after_slash(ds@, v, rate),
        r.1 as int == cap128(sum_by(ds@, delegation_slash(v, rate))),
        r.0@.filter(delegates_elsewhere(v)) == ds@.filter(held_elsewhere(v)),
        r.1 as int == cap128(sum_by(ds@.filter(delegates_to(v)), delegation_cut(rate))),
{
    let ghost mapped = ds@.map_values(|d: Delegation| slashed_delegation(d, v, rate));
    let mut kept: Vec<Delegation> = Vec::new();
    let mut total: u128 = 0;
    let mut i: usize = 0;
    while i < ds.len()
        invariant
            i <= ds@.len(),
            rate <= 10000,
            mapped == ds@.map_values(|d: Delegation| slashed_delegation(d, v, rate)),
            kept@ == mapped.take(i as int).filter(|d: Delegation| d.amount > 0),
            total as int == cap128(sum_by(ds@.take(i as int), delegation_slash(v, rate))),
        decreases ds@.len() - i,
    {
        proof {
            lemma_filter_take_step(mapped, |d: Delegation| d.amount > 0, i as int);
            lemma_sum_take_step(ds@, delegation_slash(v, rate), i as int);
            lemma_sum_nonneg(ds@.take(i as int), delegation_slash(v, rate));
        }
        let mut d = ds[i];
        if d.validator == v {
            let slash = bps_of(d.amount, rate);
            let remaining = d.amount - slash;
            total = total.saturating_add(d.amount - remaining);
            d.amount = remaining;
        }
        proof {
            lemma_cap_add(
                sum_by(ds@.take(i as int), delegation_slash(v, rate)),
                delegation_slash(v, rate)(ds@[i as int]),
            );
            assert(d == mapped[i as int]);
        }
        if d.amount > 0 {
            kept.push(d);
        }
        i = i + 1;
    }
    proof {
        lemma_take_full(ds@);
        lemma_take_full(mapped);
        lemma_slash_spares_delegations(ds@, v, rate);
    }
    (kept, total)
}

/// Slash every unbonding entry of `v` by `rate`, dropping emptied entries;
/// returns the kept entries and the (saturating) total slashed.
fn slash_unbondings(us: &Vec<Unbonding>, v: Address, rate: u128) -> (r: (Vec<Unbonding>, u128))
    requires
        rate <= 10000,
    ensures
        r.0@ == unbonding_after_slash(us@, v, rate),
        r.1 as int == cap128(sum_by(us@, unbonding_slash(v, rate))),
        r.0@.filter(unbonds_elsewhere(v)) == us@.filter(pending_elsewhere(v)),
        r.1 as int == cap128(sum_by(us@.filter(unbonds_from(v)), unbonding_cut(rate))),
{
    let ghost mapped = us@.map_values(|u: Unbonding| slashed_unbonding(u, v, rate));
    let mut kept: Vec<Unbonding> = Vec::new();
    let mut total: u128 = 0;
    let mut i: usize = 0;
    while i < us.len()
        invariant
            i <= us@.len(),
            rate <= 10000,
            mapped == us@.map_values(|u: Unbonding| slashed_unbonding(u, v, rate)),
            kept@ == mapped.take(i as int).filter(|u: Unbonding| u.amount > 0),
            total as int == cap128(sum_by(us@.take(i as int), unbonding_slash(v, rate))),
        decreases us@.len() - i,
    {
        proof {
            lemma_filter_take_step(mapped, |u: Unbonding| u.amount > 0, i as int);
            lemma_sum_take_step(us@, unbonding_slash(v, rate), i as int);
            lemma_sum_nonneg(us@.take(i as int), unbonding_slash(v, rate));
        }
        let mut u = us[i];
        if u.validator == v {
            let slash = bps_of(u.amount, rate);
            u.amount = u.amount - slash;
            total = total.saturating_add(slash);
        }
        proof {
            lemma_cap_add(
                sum_by(us@.take(i as int), unbonding_slash(v, rate)),
                unbonding_slash(v, rate)(us@[i as int]),
            );
            assert(u == mapped[i as int]);
        }
        if u.amount > 0 {
            kept.push(u);
        }
        i = i + 1;
    }
    proof {
        lemma_take_full(us@);
        lemma_take_full(mapped);
        lemma_slash_spares_unbonding(us@, v, rate);
    }
    (kept, total)
}

/// The (saturating) total delegated to `v`.
fn total_delegated_to(ds: &Vec<Delegation>, v: Address) -> (r: u128)
    ensures
        r as int == cap128(sum_by(ds@, delegated_to(v))),
{
    let mut total: u128 = 0;
    let mut i: usize = 0;
    while i < ds.len()
        invariant
            i <= ds@.len(),
            total as int == cap128(sum_by(ds@.take(i as int), delegated_to(v))),
        decreases ds@.len() - i,
    {
        proof {
            lemma_sum_take_step(ds@, delegated_to(v), i as int);
            lemma_sum_nonneg(ds@.take(i as int), delegated_to(v));
            lemma_cap_add(sum_by(ds@.take(i as int), delegated_to(v)), delegated_to(v)(ds@[i as int]));
        }
        if ds[i].validator == v {
            total = total.saturating_add(ds[i].amount);
        }
        i = i + 1;
    }
    proof {
        lemma_take_full(ds@);
    }
    total
}


/// `v` with its own stake replaced.
pub open spec fn with_staked(v: Validator, staked_amount: u128) -> Validator {
    Validator {
        address: v.address,
        staked_amount,
        delegated_amount: v.delegated_amount,
        commission_rate: v.commission_rate,
        reward_address: v.reward_address,
        is_active: v.is_active,
        jailed_until: v.jailed_until,
        slash_count: v.slash_count,
    }
}

/// The delegations that take part in a reward round of validator `v`.
pub open spec fn rewards_eligible(v: Address) -> spec_fn(Delegation) -> bool {
    |d: Delegation| d.validator == v && d.amount > 0
}

/// A delegation's share of a delegator pool of `pool` split over `delegated`.
pub open spec fn reward_share(v: Address, pool: u128, delegated: u128) -> spec_fn(Delegation) -> int {
    |d: Delegation| if rewards_eligible(v)(d) { spec_mul_div(pool, d.amount, delegated) } else { 0 }
}

/// A delegation after receiving its share of the pool.
pub open spec fn rewarded_delegation(d: Delegation, v: Address, pool: u128, delegated: u128) -> Delegation {
    with_amount(d, cap128(d.amount + reward_share(v, pool, delegated)(d)) as u128)
}

/// The commission of a validator reward at `rate` basis points.
pub open spec fn commission_of(reward: int, rate: u16) -> int {
    spec_mul_div(reward as u128, rate as u128, 10000)
}

/// One validator's turn in a reward round: (validators, delegations, distributed).
pub open spec fn reward_step(
    state: (Seq<Validator>, Seq<Delegation>, int),
    info: Validator,
    epoch_rewards: u128,
    total_staked: u128,
) -> (Seq<Validator>, Seq<Delegation>, int) {
    let (vs, ds, td) = state;
    let total_stake = cap128(info.staked_amount + info.delegated_amount);
    if !info.is_active || total_stake == 0 {
        state
    } else {
        let reward = spec_mul_div(epoch_rewards, total_stake as u128, total_staked);
        let commission = commission_of(reward, info.commission_rate);
        let pool = if commission > reward {
            0
        } else {
            reward - commission
        };
        let vi = validator_index(vs, info.address);
        let vs1 = if vi != -1 {
            vs.update(vi, with_staked(vs[vi], cap128(vs[vi].staked_amount + commission) as u128))
        } else {
            vs
        };
        let td1 = if vi != -1 {
            cap128(td + commission)
        } else {
            td
        };
        if info.delegated_amount > 0 && pool > 0 {
            let share = reward_share(info.address, pool as u128, info.delegated_amount);
            let ds1 = ds.map_values(
                |d: Delegation| rewarded_delegation(d, info.address, pool as u128, info.delegated_amount),
            );
            let distributed = cap128(sum_by(ds, share));
            let td2 = cap128(td1 + sum_by(ds, share));
            let remainder = if distributed > pool {
                0
            } else {
                pool - distributed
            };
            let last = last_match(ds, rewards_eligible(info.address));
            if remainder > 0 && last != -1 {
                (
                    vs1,
                    ds1.update(last, with_amount(ds1[last], cap128(ds1[last].amount + remainder) as u128)),
                    cap128(td2 + remainder),
                )
            } else {
                (vs1, ds1, td2)
            }
        } else {
            (vs1, ds, td1)
        }
    }
}

/// The state after the first `k` validators of `infos` took their turn.
pub open spec fn reward_rounds(
    start: (Seq<Validator>, Seq<Delegation>, int),
    infos: Seq<Validator>,
    k: int,
    epoch_rewards: u128,
    total_staked: u128,
) -> (Seq<Validator>, Seq<Delegation>, int)
    decreases k,
{
    if k <= 0 {
        start
    } else {
        reward_step(
            reward_rounds(start, infos, k - 1, epoch_rewards, total_staked),
            infos[k - 1],
            epoch_rewards,
            total_staked,
        )
    }
}

/// Credit each eligible delegation to `v` its share of `pool`; returns the new
/// delegations, the (saturating) sum of the shares, and the last eligible position.
fn reward_delegations(ds: &Vec<Delegation>, v: Address, pool: u128, delegated: u128) -> (r: (
    Vec<Delegation>,
    u128,
    Option<usize>,
))
    requires
        delegated > 0,
    ensures
        r.0@ == ds@.map_values(|d: Delegation| rewarded_delegation(d, v, pool, delegated)),
        r.1 as int == cap128(sum_by(ds@, reward_share(v, pool, delegated))),
        match r.2 {
            Some(i) => i < ds@.len() && i as int == last_match(ds@, rewards_eligible(v)),
            None => last_match(ds@, rewards_eligible(v)) == -1,
        },
        r.0@.len() == ds@.len(),
        forall|i: int|
            0 <= i < ds@.len() ==> {
                let d = ds@[i];
                let e = #[trigger] r.0@[i];
                &&& e.delegator == d.delegator
                &&& e.validator == d.validator
                &&& e.reward_debt == d.reward_debt
                &&& e.amount == (if d.validator == v && d.amount > 0 {
                    cap128(d.amount + spec_mul_div(pool, d.amount, delegated))
                } else {
                    d.amount as int
                })
            },
{
    let mut out: Vec<Delegation> = Vec::new();
    let mut distributed: u128 = 0;
    let mut last: Option<usize> = None;
    let mut i: usize = 0;
    while i < ds.len()
        invariant
            i <= ds@.len(),
            delegated > 0,
            out@ == ds@.take(i as int).map_values(
                |d: Delegation| rewarded_delegation(d, v, pool, delegated),
            ),
            distributed as int == cap128(sum_by(ds@.take(i as int), reward_share(v, pool, delegated))),
            match last {
                Some(j) => j < i && rewards_eligible(v)(ds@[j as int]) && forall|k: int|
                    j < k < i ==> !rewards_eligible(v)(#[trigger] ds@[k]),
                None => forall|k: int| 0 <= k < i ==> !rewards_eligible(v)(#[trigger] ds@[k]),
            },
        decreases ds@.len() - i,
    {
        proof {
            lemma_sum_take_step(ds@, reward_share(v, pool, delegated), i as int);
            lemma_sum_nonneg(ds@.take(i as int), reward_share(v, pool, delegated));
            lemma_cap_add(
                sum_by(ds@.take(i as int), reward_share(v, pool, delegated)),
                reward_share(v, pool, delegated)(ds@[i as int]),
            );
        }
        let mut d = ds[i];
        if d.validator == v && d.amount > 0 {
            let share = mul_div(pool, d.amount, delegated);
            d.amount = d.amount.saturating_add(share);
            distributed = distributed.saturating_add(share);
            last = Some(i);
        }
        out.push(d);
        proof {
            assert(out@ =~= ds@.take(i + 1).map_values(
                |d: Delegation| rewarded_delegation(d, v, pool, delegated),
            ));
        }
        i = i + 1;
    }
    proof {
        lemma_take_full(ds@);
        match last {
            Some(j) => {
                lemma_last_match(ds@, rewards_eligible(v), j as int);
            },
            None => {
                lemma_last_match(ds@, rewards_eligible(v), 0);
            },
        }
    }
    (out, distributed, last)
}


/// A slash of at most 100% never takes more than the stake; a 100% slash takes
/// all of it; a slash whose share is at least one unit strictly reduces it.
pub proof fn lemma_slash_part_bounds(x: u128, rate: u128)
    requires
        rate <= 10000,
    ensures
        slash_part(x, rate) <= x,
        rate == 10000 ==> slash_part(x, rate) == x,
        x as int * rate as int >= 10000 ==> slash_part(x, rate) >= 1,
{
    assert(x as int * rate as int <= x as int * 10000) by (nonlinear_arith)
        requires
            rate <= 10000,
            x >= 0,
    ;
    vstd::arithmetic::div_mod::lemma_div_is_ordered(x as int * rate as int, x as int * 10000, 10000);
    vstd::arithmetic::div_mod::lemma_div_multiples_vanish(x as int, 10000);
    if x as int * rate as int >= 10000 {
        vstd::arithmetic::div_mod::lemma_div_is_ordered(10000, x as int * rate as int, 10000);
    }
}

/// Replacing an element that the predicate rejects, by another that it rejects,
/// does not change the filtered sequence.
proof fn lemma_filter_update_unmatched<T>(s: Seq<T>, p: spec_fn(T) -> bool, i: int, x: T)
    requires
        0 <= i < s.len(),
        !p(s[i]),
        !p(x),
    ensures
        s.update(i, x).filter(p) == s.filter(p),
    decreases s.len(),
{
    reveal_with_fuel(Seq::filter, 1);
    let t = s.update(i, x);
    if i == s.len() - 1 {
        assert(t.drop_last() =~= s.drop_last());
    } else {
        lemma_filter_update_unmatched(s.drop_last(), p, i, x);
        assert(t.drop_last() =~= s.drop_last().update(i, x));
    }
}

impl StakingState {
    /// Slots a validator stays jailed after its third slash.
    pub const UNJAIL_COOLDOWN_SLOTS: u64 = 201_600;

    /// Minimum stake a jailed validator needs to unjail.
    pub const MIN_STAKE_TO_UNJAIL: u128 = 100_000_000;

    /// An empty staking state.
    pub fn new() -> (s: Self)
        ensures
            s.total_staked == 0,
            s.validators@.len() == 0,
            s.delegations@.len() == 0,
            s.unbonding@.len() == 0,
            s.reward_pool == 0,
            s.current_epoch == 0,
    {
        StakingState {
            total_staked: 0,
            validators: Vec::new(),
            delegations: Vec::new(),
            unbonding: Vec::new(),
            reward_pool: 0,
            current_epoch: 0,
        }
    }

    /// Position of the first validator with address `a`.
    pub fn find_validator(&self, a: &Address) -> (r: Option<usize>)
        ensures
            match r {
                Some(i) => i as int == validator_index(self.validators@, *a) && i
                    < self.validators@.len(),
                None => validator_index(self.validators@, *a) == -1,
            },
    {
        let mut i: usize = 0;
        while i < self.validators.len()
            invariant
                i <= self.validators@.len(),
                forall|j: int| 0 <= j < i ==> !is_validator(*a)(#[trigger] self.validators@[j]),
            decreases self.validators@.len() - i,
        {
            if self.validators[i].address == *a {
                proof {
                    lemma_first_match(self.validators@, is_validator(*a), i as int);
                }
                return Some(i);
            }
            i = i + 1;
        }
        proof {
            lemma_first_match(self.validators@, is_validator(*a), 0);
        }
        None
    }

    /// Position of the first delegation of `delegator` to `validator`.
    pub fn find_delegation(&self, delegator: &Address, validator: &Address) -> (r: Option<usize>)
        ensures
            match r {
                Some(i) => i as int == delegation_index(self.delegations@, *delegator, *validator)
                    && i < self.delegations@.len(),
                None => delegation_index(self.delegations@, *delegator, *validator) == -1,
            },
    {
        let mut i: usize = 0;
        while i < self.delegations.len()
            invariant
                i <= self.delegations@.len(),
                forall|j: int|
                    0 <= j < i ==> !is_delegation(*delegator, *validator)(
                        #[trigger] self.delegations@[j],
                    ),
            decreases self.delegations@.len() - i,
        {
            if self.delegations[i].delegator == *delegator && self.delegations[i].validator
                == *validator {
                proof {
                    lemma_first_match(
                        self.delegations@,
                        is_delegation(*delegator, *validator),
                        i as int,
                    );
                }
                return Some(i);
            }
            i = i + 1;
        }
        proof {
            lemma_first_match(self.delegations@, is_delegation(*delegator, *validator), 0);
        }
        None
    }

    /// Register a new validator; `caller` must be the validator itself.
    pub fn register_validator(
        &mut self,
        caller: Address,
        address: Address,
        initial_stake: u128,
        commission_rate: u16,
        reward_address: Address,
    ) -> (r: Result<(), StakingError>)
        ensures
            final(self).delegations@ == old(self).delegations@,
            final(self).unbonding@ == old(self).unbonding@,
            final(self).reward_pool == old(self).reward_pool,
            final(self).current_epoch == old(self).current_epoch,
            caller != address ==> r == Err::<(), StakingError>(StakingError::Unauthorized),
            caller == address && initial_stake < MIN_STAKE ==> r == Err::<(), StakingError>(
                StakingError::InsufficientStake { min: MIN_STAKE, got: initial_stake },
            ),
            caller == address && initial_stake >= MIN_STAKE && validator_index(
                old(self).validators@,
                address,
            ) != -1 ==> r == Err::<(), StakingError>(StakingError::ValidatorExists(address)),
            caller == address && initial_stake >= MIN_STAKE && validator_index(
                old(self).validators@,
                address,
            ) == -1 && commission_rate > 10000 ==> r == Err::<(), StakingError>(
                StakingError::InvalidCommission(commission_rate),
            ),
            r is Err && r != Err::<(), StakingError>(StakingError::Overflow) ==> final(self).validators@ == old(self).validators@ && final(self).total_staked == old(self).total_staked,
            r is Ok && books_balanced(*old(self)) ==> books_balanced(*final(self)),
            caller == address && initial_stake >= MIN_STAKE && validator_index(
                old(self).validators@,
                address,
            ) == -1 && commission_rate <= 10000 ==> {
                &&& final(self).validators@ == old(self).validators@.push(
                    Validator {
                        address,
                        staked_amount: initial_stake,
                        delegated_amount: 0,
                        commission_rate,
                        reward_address,
                        is_active: true,
                        jailed_until: None,
                        slash_count: 0,
                    },
                )
                &&& old(self).total_staked + initial_stake <= u128::MAX ==> r is Ok && final(self).total_staked == old(self).total_staked + initial_stake
                &&& old(self).total_staked + initial_stake > u128::MAX ==> r
                    == Err::<(), StakingError>(StakingError::Overflow) && final(self).total_staked
                    == old(self).total_staked
            },
    {
        if caller != address {
            return Err(StakingError::Unauthorized);
        }
        if initial_stake < MIN_STAKE {
            return Err(StakingError::InsufficientStake { min: MIN_STAKE, got: initial_stake });
        }
        if self.find_validator(&address).is_some() {
            return Err(StakingError::ValidatorExists(address));
        }
        if commission_rate > 10000 {
            return Err(StakingError::InvalidCommission(commission_rate));
        }
        let validator = Validator {
            address,
            staked_amount: initial_stake,
            delegated_amount: 0,
            commission_rate,
            reward_address,
            is_active: true,
            jailed_until: None,
            slash_count: 0,
        };
        let ghost added = validator;
        self.validators.push(validator);
        proof {
            lemma_sum_push(old(self).validators@, stake_of(), added);
        }
        match self.total_staked.checked_add(initial_stake) {
            Some(t) => {
                self.total_staked = t;
                Ok(())
            },
            None => Err(StakingError::Overflow),
        }
    }

    /// Delegate `amount` to `validator`; `caller` must be the delegator.
    pub fn delegate(&mut self, caller: Address, delegator: Address, validator: Address, amount: u128) -> (r: Result<(), StakingError>)
        ensures
            final(self).unbonding@ == old(self).unbonding@,
            final(self).reward_pool == old(self).reward_pool,
            final(self).current_epoch == old(self).current_epoch,
            ({
                let vi = validator_index(old(self).validators@, validator);
                let di = delegation_index(old(self).delegations@, delegator, validator);
                let vs = old(self).validators@;
                let ds = old(self).delegations@;
                let fails_early = caller != delegator || vi == -1 || !vs[vi].is_active || (di != -1
                    && ds[di].amount + amount > u128::MAX);
                &&& caller != delegator ==> r == Err::<(), StakingError>(StakingError::Unauthorized)
                &&& caller == delegator && vi == -1 ==> r == Err::<(), StakingError>(
                    StakingError::ValidatorNotFound(validator),
                )
                &&& caller == delegator && vi != -1 && !vs[vi].is_active ==> r == Err::<
                    (),
                    StakingError,
                >(StakingError::ValidatorInactive(validator))
                &&& caller == delegator && vi != -1 && vs[vi].is_active && di != -1 && ds[di].amount
                    + amount > u128::MAX ==> r == Err::<(), StakingError>(StakingError::Overflow)
                &&& fails_early ==> final(self).validators@ == vs && final(self).delegations@ == ds
                    && final(self).total_staked == old(self).total_staked
                &&& !fails_early ==> {
                    &&& final(self).delegations@ == (if di != -1 {
                        ds.update(di, with_amount(ds[di], (ds[di].amount + amount) as u128))
                    } else {
                        ds.push(Delegation { delegator, validator, amount, reward_debt: 0 })
                    })
                    &&& vs[vi].delegated_amount + amount > u128::MAX ==> r == Err::<
                        (),
                        StakingError,
                    >(StakingError::Overflow) && final(self).validators@ == vs && final(
                        self).total_staked == old(self).total_staked
                    &&& vs[vi].delegated_amount + amount <= u128::MAX ==> {
                        &&& final(self).validators@ == vs.update(
                            vi,
                            with_delegated(vs[vi], (vs[vi].delegated_amount + amount) as u128),
                        )
                        &&& old(self).total_staked + amount > u128::MAX ==> r == Err::<
                            (),
                            StakingError,
                        >(StakingError::Overflow) && final(self).total_staked == old(
                            self).total_staked
                        &&& old(self).total_staked + amount <= u128::MAX ==> r is Ok && final(
                            self).total_staked == old(self).total_staked + amount
                    }
                }
            }),
            r is Ok && books_balanced(*old(self)) ==> books_balanced(*final(self)),
    {
        if caller != delegator {
            return Err(StakingError::Unauthorized);
        }
        let validator_idx = match self.find_validator(&validator) {
            Some(i) => i,
            None => return Err(StakingError::ValidatorNotFound(validator)),
        };
        if !self.validators[validator_idx].is_active {
            return Err(StakingError::ValidatorInactive(validator));
        }
        match self.find_delegation(&delegator, &validator) {
            Some(di) => {
                let mut d = self.delegations[di];
                match d.amount.checked_add(amount) {
                    Some(n) => {
                        proof {
                            lemma_sum_update(old(self).delegations@, amount_of(), di as int, with_amount(d, n));
                        }
                        d.amount = n;
                        self.delegations.set(di, d);
                    },
                    None => return Err(StakingError::Overflow),
                }
            },
            None => {
                proof {
                    lemma_sum_push(
                        old(self).delegations@,
                        amount_of(),
                        Delegation { delegator, validator, amount, reward_debt: 0 },
                    );
                }
                self.delegations.push(Delegation { delegator, validator, amount, reward_debt: 0 });
            },
        }
        let mut v = self.validators[validator_idx];
        match v.delegated_amount.checked_add(amount) {
            Some(n) => {
                proof {
                    lemma_sum_update(old(self).validators@, stake_of(), validator_idx as int, with_delegated(v, n));
                }
                v.delegated_amount = n;
                self.validators.set(validator_idx, v);
            },
            None => return Err(StakingError::Overflow),
        }
        match self.total_staked.checked_add(amount) {
            Some(t) => {
                self.total_staked = t;
                Ok(())
            },
            None => Err(StakingError::Overflow),
        }
    }

    /// Move `amount` of a delegation into the unbonding queue; completes
    /// [`UNBONDING_SLOTS`] after `current_slot`.
    pub fn unbond(
        &mut self,
        caller: Address,
        delegator: Address,
        validator: Address,
        amount: u128,
        current_slot: u64,
    ) -> (r: Result<(), StakingError>)
        ensures
            final(self).reward_pool == old(self).reward_pool,
            final(self).current_epoch == old(self).current_epoch,
            ({
                let vs = old(self).validators@;
                let ds = old(self).delegations@;
                let di = delegation_index(ds, delegator, validator);
                let vi = validator_index(vs, validator);
                let fails_early = caller != delegator || di == -1 || amount > ds[di].amount;
                let remaining = (ds[di].amount - amount) as u128;
                let ds1 = if remaining == 0 {
                    ds.filter(|d: Delegation| !is_delegation(delegator, validator)(d))
                } else {
                    ds.update(di, with_amount(ds[di], remaining))
                };
                let validator_underflow = vi != -1 && vs[vi].delegated_amount < amount;
                let vs1 = if vi != -1 {
                    vs.update(vi, with_delegated(vs[vi], (vs[vi].delegated_amount - amount) as u128))
                } else {
                    vs
                };
                &&& caller != delegator ==> r == Err::<(), StakingError>(StakingError::Unauthorized)
                &&& caller == delegator && di == -1 ==> r == Err::<(), StakingError>(
                    StakingError::DelegationNotFound,
                )
                &&& caller == delegator && di != -1 && amount > ds[di].amount ==> r == Err::<
                    (),
                    StakingError,
                >(StakingError::InsufficientDelegation { have: ds[di].amount, requested: amount })
                &&& fails_early ==> final(self).validators@ == vs && final(self).delegations@ == ds
                    && final(self).unbonding@ == old(self).unbonding@ && final(self).total_staked
                    == old(self).total_staked
                &&& !fails_early ==> {
                    &&& final(self).delegations@ == ds1
                    &&& validator_underflow ==> r == Err::<(), StakingError>(
                        StakingError::Overflow,
                    ) && final(self).validators@ == vs && final(self).unbonding@ == old(
                        self).unbonding@ && final(self).total_staked == old(self).total_staked
                    &&& !validator_underflow ==> {
                        &&& final(self).validators@ == vs1
                        &&& current_slot + UNBONDING_SLOTS > u64::MAX ==> r == Err::<
                            (),
                            StakingError,
                        >(StakingError::Overflow) && final(self).unbonding@ == old(
                            self).unbonding@ && final(self).total_staked == old(self).total_staked
                        &&& current_slot + UNBONDING_SLOTS <= u64::MAX ==> {
                            &&& final(self).unbonding@ == old(self).unbonding@.push(
                                Unbonding {
                                    address: delegator,
                                    validator,
                                    amount,
                                    complete_slot: (current_slot + UNBONDING_SLOTS) as u64,
                                },
                            )
                            &&& amount > old(self).total_staked ==> r == Err::<
                                (),
                                StakingError,
                            >(StakingError::Overflow) && final(self).total_staked == old(
                                self).total_staked
                            &&& amount <= old(self).total_staked ==> r is Ok && final(
                                self).total_staked == old(self).total_staked - amount
                        }
                    }
                }
            }),
            r is Ok && books_balanced(*old(self)) && (forall|j: int|
                0 <= j < old(self).delegations@.len() && #[trigger] is_delegation(delegator, validator)(
                    old(self).delegations@[j],
                ) ==> j == delegation_index(old(self).delegations@, delegator, validator)) ==> books_balanced(
                *final(self),
            ),
    {
        if caller != delegator {
            return Err(StakingError::Unauthorized);
        }
        let di = match self.find_delegation(&delegator, &validator) {
            Some(i) => i,
            None => return Err(StakingError::DelegationNotFound),
        };
        let mut d = self.delegations[di];
        if amount > d.amount {
            return Err(StakingError::InsufficientDelegation { have: d.amount, requested: amount });
        }
        proof {
            lemma_sum_update(old(self).delegations@, amount_of(), di as int, with_amount(d, (d.amount - amount) as u128));
        }
        d.amount = d.amount - amount;
        self.delegations.set(di, d);
        if d.amount == 0 {
            let ghost ds = self.delegations@;
            let mut kept: Vec<Delegation> = Vec::new();
            let mut i: usize = 0;
            while i < self.delegations.len()
                invariant
                    i <= ds.len(),
                    ds == self.delegations@,
                    kept@ == ds.take(i as int).filter(|x: Delegation| !is_delegation(delegator, validator)(x)),
                decreases ds.len() - i,
            {
                proof {
                    lemma_filter_take_step(ds, |x: Delegation| !is_delegation(delegator, validator)(x), i as int);
                }
                let e = self.delegations[i];
                if !(e.delegator == delegator && e.validator == validator) {
                    kept.push(e);
                }
                i = i + 1;
            }
            proof {
                lemma_take_full(ds);
                let p = |x: Delegation| !is_delegation(delegator, validator)(x);
                if forall|j: int|
                    0 <= j < old(self).delegations@.len() && #[trigger] is_delegation(delegator, validator)(
                        old(self).delegations@[j],
                    ) ==> j == delegation_index(old(self).delegations@, delegator, validator) {
                    assert forall|i: int| 0 <= i < ds.len() && !p(#[trigger] ds[i]) implies amount_of()(ds[i]) == 0 by {
                        if i != di {
                            assert(ds[i] == old(self).delegations@[i]);
                            assert(is_delegation(delegator, validator)(old(self).delegations@[i]));
                        }
                    }
                    lemma_sum_filter_zero(ds, p, amount_of());
                }
                assert(ds.filter(p) =~= old(self).delegations@.filter(p)) by {
                    assert(ds =~= old(self).delegations@.update(di as int, d));
                    lemma_filter_update_unmatched(old(self).delegations@, p, di as int, d);
                }
            }
            self.delegations = kept;
        }
        if let Some(vi) = self.find_validator(&validator) {
            let mut v = self.validators[vi];
            match v.delegated_amount.checked_sub(amount) {
                Some(n) => {
                    proof {
                        lemma_sum_update(self.validators@, stake_of(), vi as int, with_delegated(v, n));
                    }
                    v.delegated_amount = n;
                    self.validators.set(vi, v);
                },
                None => return Err(StakingError::Overflow),
            }
        }
        let complete_slot = match current_slot.checked_add(UNBONDING_SLOTS) {
            Some(s) => s,
            None => return Err(StakingError::Overflow),
        };
        self.unbonding.push(Unbonding { address: delegator, validator, amount, complete_slot });
        match self.total_staked.checked_sub(amount) {
            Some(t) => {
                self.total_staked = t;
                Ok(())
            },
            None => Err(StakingError::Overflow),
        }
    }

    /// Remove the unbondings that complete at or before `current_slot` and
    /// return their (address, amount) pairs in queue order.
    pub fn complete_unbonding(&mut self, current_slot: u64) -> (completed: Vec<(Address, u128)>)
        ensures
            final(self).unbonding@ == old(self).unbonding@.filter(
                |u: Unbonding| u.complete_slot > current_slot,
            ),
            completed@ == old(self).unbonding@.filter(
                |u: Unbonding| u.complete_slot <= current_slot,
            ).map_values(|u: Unbonding| (u.address, u.amount)),
            final(self).validators@ == old(self).validators@,
            final(self).delegations@ == old(self).delegations@,
            final(self).total_staked == old(self).total_staked,
            final(self).reward_pool == old(self).reward_pool,
            final(self).current_epoch == old(self).current_epoch,
    {
        let ghost us = self.unbonding@;
        let mut kept: Vec<Unbonding> = Vec::new();
        let mut completed: Vec<(Address, u128)> = Vec::new();
        let mut i: usize = 0;
        while i < self.unbonding.len()
            invariant
                i <= us.len(),
                us == self.unbonding@,
                kept@ == us.take(i as int).filter(|u: Unbonding| u.complete_slot > current_slot),
                completed@ == us.take(i as int).filter(|u: Unbonding| u.complete_slot <= current_slot).map_values(
                    |u: Unbonding| (u.address, u.amount),
                ),
            decreases us.len() - i,
        {
            proof {
                lemma_filter_take_step(us, |u: Unbonding| u.complete_slot > current_slot, i as int);
                lemma_filter_take_step(us, |u: Unbonding| u.complete_slot <= current_slot, i as int);
            }
            let u = self.unbonding[i];
            if u.complete_slot <= current_slot {
                completed.push((u.address, u.amount));
                proof {
                    assert(completed@ =~= us.take(i + 1).filter(|u: Unbonding| u.complete_slot <= current_slot).map_values(
                        |u: Unbonding| (u.address, u.amount),
                    ));
                }
            } else {
                kept.push(u);
            }
            i = i + 1;
        }
        proof {
            lemma_take_full(us);
        }
        self.unbonding = kept;
        completed
    }

    /// Slash validator `validator` by `slash_rate` basis points: its own stake,
    /// every delegation to it and every unbonding entry of it lose that share;
    /// emptied delegations and unbonding entries are removed.  The third slash
    /// jails the validator for [`Self::UNJAIL_COOLDOWN_SLOTS`].  Returns the total taken.
    pub fn slash(&mut self, validator: Address, slash_rate: u128, current_slot: u64) -> (r: Result<u128, StakingError>)
        ensures
            final(self).reward_pool == old(self).reward_pool,
            final(self).current_epoch == old(self).current_epoch,
            slash_rate > 10000 ==> r == Err::<u128, StakingError>(
                StakingError::InvalidSlashRate(slash_rate),
            ),
            slash_rate <= 10000 && validator_index(old(self).validators@, validator) == -1 ==> r
                == Err::<u128, StakingError>(StakingError::ValidatorNotFound(validator)),
            r is Err ==> final(self).validators@ == old(self).validators@ && final(self).delegations@
                == old(self).delegations@ && final(self).unbonding@ == old(self).unbonding@ && final(
                self).total_staked == old(self).total_staked,
            r is Ok && books_balanced(*old(self)) && (forall|j: int|
                0 <= j < old(self).unbonding@.len() ==> (#[trigger] old(self).unbonding@[j]).validator
                    != validator) ==> books_balanced(*final(self)),
            ({
                let vi = validator_index(old(self).validators@, validator);
                let val = old(self).validators@[vi];
                let ds = old(self).delegations@;
                let us = old(self).unbonding@;
                let ds1 = delegations_after_slash(ds, validator, slash_rate);
                let total = slash_total(val, ds, us, slash_rate);
                slash_rate <= 10000 && vi != -1 ==> {
                    &&& r == Ok::<u128, StakingError>(total as u128)
                    &&& final(self).validators@ == old(self).validators@.update(
                        vi,
                        validator_after_slash(val, ds1, slash_rate, current_slot),
                    )
                    &&& final(self).delegations@ == ds1
                    &&& final(self).unbonding@ == unbonding_after_slash(us, validator, slash_rate)
                    &&& final(self).total_staked == (if total > old(self).total_staked {
                        0
                    } else {
                        old(self).total_staked - total
                    })
                    &&& final(self).delegations@.filter(delegates_elsewhere(validator)) == ds.filter(
                        held_elsewhere(validator),
                    )
                    &&& final(self).unbonding@.filter(unbonds_elsewhere(validator)) == us.filter(
                        pending_elsewhere(validator),
                    )
                    &&& r == Ok::<u128, StakingError>(
                        cap128(
                            slash_part(val.staked_amount, slash_rate) + cap128(
                                sum_by(ds.filter(delegates_to(validator)), delegation_cut(slash_rate)),
                            ) + cap128(sum_by(us.filter(unbonds_from(validator)), unbonding_cut(slash_rate))),
                        ) as u128,
                    )
                }
            }),
    {
        if slash_rate > 10000 {
            return Err(StakingError::InvalidSlashRate(slash_rate));
        }
        let validator_idx = match self.find_validator(&validator) {
            Some(i) => i,
            None => return Err(StakingError::ValidatorNotFound(validator)),
        };
        let mut v = self.validators[validator_idx];
        let slash_amount = bps_of(v.staked_amount, slash_rate);
        v.staked_amount = v.staked_amount - slash_amount;
        v.slash_count = v.slash_count.saturating_add(1);
        let (kept_delegations, delegated_slash) = slash_delegations(&self.delegations, validator, slash_rate);
        self.delegations = kept_delegations;
        v.delegated_amount = total_delegated_to(&self.delegations, validator);
        let (kept_unbonding, unbonding_slash) = slash_unbondings(&self.unbonding, validator, slash_rate);
        self.unbonding = kept_unbonding;
        let total_slash = slash_amount.saturating_add(delegated_slash).saturating_add(unbonding_slash);
        self.total_staked = self.total_staked.saturating_sub(total_slash);
        if v.slash_count >= 3 {
            v.is_active = false;
            v.jailed_until = Some(current_slot.saturating_add(StakingState::UNJAIL_COOLDOWN_SLOTS));
        }
        self.validators.set(validator_idx, v);
        proof {
            lemma_slash_spares_other_validators(
                old(self).validators@[validator_idx as int],
                old(self).delegations@,
                old(self).unbonding@,
                slash_rate,
            );
            if books_balanced(*old(self)) && (forall|j: int|
                0 <= j < old(self).unbonding@.len() ==> (#[trigger] old(self).unbonding@[j]).validator
                    != validator) {
                lemma_slash_keeps_books(
                    old(self).validators@,
                    old(self).delegations@,
                    old(self).unbonding@,
                    validator_idx as int,
                    slash_rate,
                    current_slot,
                    old(self).total_staked,
                );
            }
        }
        Ok(total_slash)
    }

    /// Distribute `epoch_rewards` over the active validators in proportion to
    /// their total stake; each validator keeps its commission and the rest is
    /// split over its delegations, any rounding remainder going to the last one.
    pub fn distribute_rewards(&mut self, epoch_rewards: u128)
        ensures
            final(self).unbonding@ == old(self).unbonding@,
            final(self).reward_pool == old(self).reward_pool,
            final(self).current_epoch == old(self).current_epoch,
            old(self).total_staked == 0 || epoch_rewards == 0 ==> final(self).validators@ == old(
                self).validators@ && final(self).delegations@ == old(self).delegations@ && final(
                self).total_staked == old(self).total_staked,
            old(self).total_staked != 0 && epoch_rewards != 0 ==> ({
                let end = reward_rounds(
                    (old(self).validators@, old(self).delegations@, 0),
                    old(self).validators@,
                    old(self).validators@.len() as int,
                    epoch_rewards,
                    old(self).total_staked,
                );
                &&& final(self).validators@ == end.0
                &&& final(self).delegations@ == end.1
                &&& final(self).total_staked == cap128(old(self).total_staked + end.2)
                &&& books_balanced(*old(self)) && old(self).total_staked + end.2 <= u128::MAX ==> books_balanced(
                    *final(self),
                )
            }),
            books_balanced(*old(self)) && (old(self).total_staked == 0 || epoch_rewards == 0)
                ==> books_balanced(*final(self)),
    {
        if self.total_staked == 0 || epoch_rewards == 0 {
            return ;
        }
        let mut infos: Vec<Validator> = Vec::new();
        let mut j: usize = 0;
        while j < self.validators.len()
            invariant
                j <= self.validators@.len(),
                infos@ == self.validators@.take(j as int),
            decreases self.validators@.len() - j,
        {
            infos.push(self.validators[j]);
            proof {
                assert(infos@ =~= self.validators@.take(j + 1));
            }
            j = j + 1;
        }
        proof {
            lemma_take_full(self.validators@);
        }
        let ghost start = (self.validators@, self.delegations@, 0int);
        let total_staked = self.total_staked;
        let mut total_distributed: u128 = 0;
        let mut k: usize = 0;
        while k < infos.len()
            invariant
                k <= infos@.len(),
                total_staked == old(self).total_staked,
                total_staked != 0,
                infos@ == old(self).validators@,
                start == (old(self).validators@, old(self).delegations@, 0int),
                ({
                    let st = reward_rounds(start, infos@, k as int, epoch_rewards, total_staked);
                    &&& st.0 == self.validators@
                    &&& st.1 == self.delegations@
                    &&& st.2 == total_distributed as int
                }),
                self.unbonding@ == old(self).unbonding@,
                self.reward_pool == old(self).reward_pool,
                self.current_epoch == old(self).current_epoch,
                self.total_staked == old(self).total_staked,
            decreases infos@.len() - k,
        {
            let info = infos[k];
            let ghost prev = (self.validators@, self.delegations@, total_distributed as int);
            if info.is_active {
                let total_stake = info.staked_amount.saturating_add(info.delegated_amount);
                if total_stake != 0 {
                    let validator_reward = mul_div(epoch_rewards, total_stake, total_staked);
                    let commission = mul_div(validator_reward, info.commission_rate as u128, 10000);
                    let delegator_pool = validator_reward.saturating_sub(commission);
                    if let Some(vi) = self.find_validator(&info.address) {
                        let mut v = self.validators[vi];
                        v.staked_amount = v.staked_amount.saturating_add(commission);
                        self.validators.set(vi, v);
                        total_distributed = total_distributed.saturating_add(commission);
                    }
                    if info.delegated_amount > 0 && delegator_pool > 0 {
                        let (updated, distributed, last) = reward_delegations(
                            &self.delegations,
                            info.address,
                            delegator_pool,
                            info.delegated_amount,
                        );
                        proof {
                            lemma_sum_nonneg(
                                self.delegations@,
                                reward_share(info.address, delegator_pool, info.delegated_amount),
                            );
                            lemma_cap_add(
                                total_distributed as int,
                                sum_by(
                                    self.delegations@,
                                    reward_share(info.address, delegator_pool, info.delegated_amount),
                                ),
                            );
                        }
                        self.delegations = updated;
                        total_distributed = total_distributed.saturating_add(distributed);
                        let remainder = delegator_pool.saturating_sub(distributed);
                        if remainder > 0 {
                            if let Some(idx) = last {
                                let mut d = self.delegations[idx];
                                d.amount = d.amount.saturating_add(remainder);
                                self.delegations.set(idx, d);
                                total_distributed = total_distributed.saturating_add(remainder);
                            }
                        }
                    }
                }
            }
            proof {
                assert(reward_rounds(start, infos@, k + 1, epoch_rewards, total_staked) == reward_step(
                    prev,
                    infos@[k as int],
                    epoch_rewards,
                    total_staked,
                ));
            }
            k = k + 1;
        }
        self.total_staked = self.total_staked.saturating_add(total_distributed);
        proof {
            let end = reward_rounds(
                (old(self).validators@, old(self).delegations@, 0),
                old(self).validators@,
                old(self).validators@.len() as int,
                epoch_rewards,
                old(self).total_staked,
            );
            if books_balanced(*old(self)) && old(self).total_staked + end.2 <= u128::MAX {
                lemma_rewards_keep_total_staked(
                    old(self).validators@,
                    old(self).delegations@,
                    epoch_rewards,
                    old(self).total_staked,
                );
            }
        }
    }

    /// Reactivate a jailed validator whose cooldown has passed and whose stake
    /// still meets [`Self::MIN_STAKE_TO_UNJAIL`]; resets its slash count.
    pub fn unjail(&mut self, caller: Address, validator: Address, current_slot: u64) -> (r: Result<(), StakingError>)
        ensures
            final(self).delegations@ == old(self).delegations@,
            final(self).unbonding@ == old(self).unbonding@,
            final(self).total_staked == old(self).total_staked,
            final(self).reward_pool == old(self).reward_pool,
            final(self).current_epoch == old(self).current_epoch,
            ({
                let vi = validator_index(old(self).validators@, validator);
                let v = old(self).validators@[vi];
                &&& vi == -1 ==> r == Err::<(), StakingError>(StakingError::ValidatorNotFound(validator))
                &&& vi != -1 && caller != validator ==> r == Err::<(), StakingError>(StakingError::Unauthorized)
                &&& vi != -1 && caller == validator && (v.jailed_until is None || v.is_active) ==> r
                    == Err::<(), StakingError>(StakingError::ValidatorNotJailed(validator))
                &&& vi != -1 && caller == validator && v.jailed_until is Some && !v.is_active
                    && current_slot < v.jailed_until->0 ==> r == Err::<(), StakingError>(
                    StakingError::ValidatorJailed { until: v.jailed_until->0, current: current_slot },
                )
                &&& vi != -1 && caller == validator && v.jailed_until is Some && !v.is_active
                    && current_slot >= v.jailed_until->0 && v.staked_amount < StakingState::MIN_STAKE_TO_UNJAIL ==> r
                    == Err::<(), StakingError>(
                    StakingError::UnjailInsufficientStake { have: v.staked_amount, min: StakingState::MIN_STAKE_TO_UNJAIL },
                )
                &&& r is Err ==> final(self).validators@ == old(self).validators@
                &&& vi != -1 && caller == validator && v.jailed_until is Some && !v.is_active
                    && current_slot >= v.jailed_until->0 && v.staked_amount >= StakingState::MIN_STAKE_TO_UNJAIL ==> {
                    &&& r is Ok
                    &&& final(self).validators@ == old(self).validators@.update(
                        vi,
                        Validator {
                            address: v.address,
                            staked_amount: v.staked_amount,
                            delegated_amount: v.delegated_amount,
                            commission_rate: v.commission_rate,
                            reward_address: v.reward_address,
                            is_active: true,
                            jailed_until: None,
                            slash_count: 0,
                        },
                    )
                }
            }),
    {
        let vi = match self.find_validator(&validator) {
            Some(i) => i,
            None => return Err(StakingError::ValidatorNotFound(validator)),
        };
        if caller != validator {
            return Err(StakingError::Unauthorized);
        }
        let mut v = self.validators[vi];
        let jailed_until = match v.jailed_until {
            Some(s) => s,
            None => return Err(StakingError::ValidatorNotJailed(validator)),
        };
        if v.is_active {
            return Err(StakingError::ValidatorNotJailed(validator));
        }
        if current_slot < jailed_until {
            return Err(StakingError::ValidatorJailed { until: jailed_until, current: current_slot });
        }
        if v.staked_amount < StakingState::MIN_STAKE_TO_UNJAIL {
            return Err(
                StakingError::UnjailInsufficientStake { have: v.staked_amount, min: StakingState::MIN_STAKE_TO_UNJAIL },
            );
        }
        v.is_active = true;
        v.jailed_until = None;
        v.slash_count = 0;
        self.validators.set(vi, v);
        Ok(())
    }

    /// The first validator with the given address.
    pub fn get_validator(&self, address: &Address) -> (r: Option<&Validator>)
        ensures
            match r {
                Some(v) => validator_index(self.validators@, *address) != -1 && *v
                    == self.validators@[validator_index(self.validators@, *address)],
                None => validator_index(self.validators@, *address) == -1,
            },
    {
        match self.find_validator(address) {
            Some(i) => Some(&self.validators[i]),
            None => None,
        }
    }

    /// The total amount staked.
    pub fn get_total_staked(&self) -> (r: u128)
        ensures
            r == self.total_staked,
    {
        self.total_staked
    }

    /// The active validators, in registration order.
    pub fn active_validators(&self) -> (r: Vec<&Validator>)
        ensures
            r@.map_values(|v: &Validator| *v) == self.validators@.filter(|v: Validator| v.is_active),
    {
        let mut out: Vec<&Validator> = Vec::new();
        let mut i: usize = 0;
        while i < self.validators.len()
            invariant
                i <= self.validators@.len(),
                out@.map_values(|v: &Validator| *v) == self.validators@.take(i as int).filter(
                    |v: Validator| v.is_active,
                ),
            decreases self.validators@.len() - i,
        {
            proof {
                lemma_filter_take_step(self.validators@, |v: Validator| v.is_active, i as int);
            }
            if self.validators[i].is_active {
                out.push(&self.validators[i]);
                proof {
                    assert(out@.map_values(|v: &Validator| *v) =~= self.validators@.take(i as int).filter(
                        |v: Validator| v.is_active,
                    ).push(self.validators@[i as int]));
                }
            }
            i = i + 1;
        }
        proof {
            lemma_take_full(self.validators@);
        }
        out
    }
}

impl Default for StakingState {
    fn default() -> (s: Self)
        ensures
            s.total_staked == 0,
            s.validators@.len() == 0,
            s.delegations@.len() == 0,
            s.unbonding@.len() == 0,
    {
        Self::new()
    }
}

/// A validator's own stake, as a number.
pub open spec fn stake_of() -> spec_fn(Validator) -> int {
    |v: Validator| v.staked_amount as int
}

/// A delegation's amount, as a number.
pub open spec fn amount_of() -> spec_fn(Delegation) -> int {
    |d: Delegation| d.amount as int
}

/// The validators' own stakes, summed.
pub open spec fn staked_sum(vs: Seq<Validator>) -> int {
    sum_by(vs, stake_of())
}

/// The delegated amounts, summed.
pub open spec fn delegated_sum(ds: Seq<Delegation>) -> int {
    sum_by(ds, amount_of())
}

/// The total staked is the sum of the validators' own stakes and the
/// delegated amounts.
pub open spec fn books_balanced(s: StakingState) -> bool {
    s.total_staked == staked_sum(s.validators@) + delegated_sum(s.delegations@)
}

/// A 256-bit quotient is a `u128`.
proof fn lemma_mul_div_range(a: u128, b: u128, c: u128)
    ensures
        0 <= spec_mul_div(a, b, c) <= u128::MAX,
{
    if c != 0 {
        assert(0 <= (a as int * b as int) / (c as int)) by (nonlinear_arith)
            requires
                c > 0,
                a >= 0,
                b >= 0,
        ;
        assert(0 <= capped_quotient(a, b, c) <= u128::MAX);
    }
}

/// One validator's reward turn keeps the stakes and the distributed total in
/// step: what the turn adds to the distributed total is what it adds to the
/// stakes, as long as nothing reaches the `u128` limit.
proof fn lemma_reward_step_conserves(
    state: (Seq<Validator>, Seq<Delegation>, int),
    info: Validator,
    epoch_rewards: u128,
    total_staked: u128,
    base: int,
)
    requires
        0 <= state.2 <= u128::MAX,
        base >= 0,
        staked_sum(state.0) + delegated_sum(state.1) == base + state.2,
        base + reward_step(state, info, epoch_rewards, total_staked).2 < u128::MAX || (base >= 1 && base
            + reward_step(state, info, epoch_rewards, total_staked).2 <= u128::MAX),
    ensures
        ({
            let next = reward_step(state, info, epoch_rewards, total_staked);
            &&& staked_sum(next.0) + delegated_sum(next.1) == base + next.2
            &&& next.2 >= state.2
        }),
{
    let (vs, ds, td) = state;
    let next = reward_step(state, info, epoch_rewards, total_staked);
    let total_stake = cap128(info.staked_amount + info.delegated_amount);
    lemma_sum_nonneg(vs, stake_of());
    lemma_sum_nonneg(ds, amount_of());
    if info.is_active && total_stake != 0 {
        let reward = spec_mul_div(epoch_rewards, total_stake as u128, total_staked);
        lemma_mul_div_range(epoch_rewards, total_stake as u128, total_staked);
        let commission = commission_of(reward, info.commission_rate);
        lemma_mul_div_range(reward as u128, info.commission_rate as u128, 10000);
        let pool = if commission > reward {
            0
        } else {
            reward - commission
        };
        let vi = validator_index(vs, info.address);
        let vs1 = if vi != -1 {
            vs.update(vi, with_staked(vs[vi], cap128(vs[vi].staked_amount + commission) as u128))
        } else {
            vs
        };
        let td1 = if vi != -1 {
            cap128(td + commission)
        } else {
            td
        };
        let share = reward_share(info.address, pool as u128, info.delegated_amount);
        assert forall|d: Delegation| #[trigger] share(d) >= 0 by {
            lemma_mul_div_range(pool as u128, d.amount, info.delegated_amount);
        }
        lemma_sum_nonneg(ds, share);
        // The distributed total only grows, so every partial total is below the limit.
        let grows = info.delegated_amount > 0 && pool > 0;
        if grows {
            let td2 = cap128(td1 + sum_by(ds, share));
            assert(td1 <= td2 <= next.2);
        } else {
            assert(next.2 == td1);
        }
        assert(td1 <= u128::MAX - base && td1 < u128::MAX);
        // The commission lands on the validator's own stake.
        if vi != -1 {
            assert(is_first_match(vs, is_validator(info.address), vi));
            lemma_sum_term_bound(vs, stake_of(), vi);
            lemma_sum_update(vs, stake_of(), vi, with_staked(vs[vi], cap128(vs[vi].staked_amount + commission) as u128));
        }
        assert(staked_sum(vs1) + delegated_sum(ds) == base + td1);
        if grows {
            let delegated = info.delegated_amount;
            let sum_sh = sum_by(ds, share);
            let td2 = cap128(td1 + sum_sh);
            let ds1 = ds.map_values(|d: Delegation| rewarded_delegation(d, info.address, pool as u128, delegated));
            assert(td2 == td1 + sum_sh);
            assert forall|i: int| 0 <= i < ds.len() implies amount_of()(
                (|d: Delegation| rewarded_delegation(d, info.address, pool as u128, delegated))(#[trigger] ds[i]),
            ) == amount_of()(ds[i]) + share(ds[i]) by {
                lemma_sum_term_bound(ds, amount_of(), i);
                lemma_sum_term_bound(ds, share, i);
            }
            lemma_sum_map_add(
                ds,
                |d: Delegation| rewarded_delegation(d, info.address, pool as u128, delegated),
                amount_of(),
                share,
            );
            assert(delegated_sum(ds1) == delegated_sum(ds) + sum_sh);
            let distributed = cap128(sum_sh);
            let remainder = if distributed > pool {
                0
            } else {
                pool - distributed
            };
            let last = last_match(ds, rewards_eligible(info.address));
            if remainder > 0 && last != -1 {
                assert(is_last_match(ds, rewards_eligible(info.address), last));
                assert(td2 + remainder <= u128::MAX - base && td2 + remainder < u128::MAX);
                lemma_sum_nonneg(ds1, amount_of());
                lemma_sum_term_bound(ds1, amount_of(), last);
                lemma_sum_update(
                    ds1,
                    amount_of(),
                    last,
                    with_amount(ds1[last], cap128(ds1[last].amount + remainder) as u128),
                );
            }
        }
    }
}

/// The distributed total after `j` turns is at most the total after `k >= j`.
proof fn lemma_reward_rounds_grow(
    start: (Seq<Validator>, Seq<Delegation>, int),
    infos: Seq<Validator>,
    j: int,
    k: int,
    epoch_rewards: u128,
    total_staked: u128,
)
    requires
        0 <= j <= k,
        0 <= start.2 <= u128::MAX,
    ensures
        0 <= reward_rounds(start, infos, j, epoch_rewards, total_staked).2 <= reward_rounds(
            start,
            infos,
            k,
            epoch_rewards,
            total_staked,
        ).2 <= u128::MAX,
    decreases k,
{
    if k > 0 {
        if j < k {
            lemma_reward_rounds_grow(start, infos, j, k - 1, epoch_rewards, total_staked);
        } else {
            lemma_reward_rounds_grow(start, infos, 0, k - 1, epoch_rewards, total_staked);
        }
        let prev = reward_rounds(start, infos, k - 1, epoch_rewards, total_staked);
        lemma_reward_step_grows(prev, infos[k - 1], epoch_rewards, total_staked);
    }
}

/// A reward turn never lowers the distributed total.
proof fn lemma_reward_step_grows(
    state: (Seq<Validator>, Seq<Delegation>, int),
    info: Validator,
    epoch_rewards: u128,
    total_staked: u128,
)
    requires
        0 <= state.2 <= u128::MAX,
    ensures
        state.2 <= reward_step(state, info, epoch_rewards, total_staked).2 <= u128::MAX,
{
    let (vs, ds, td) = state;
    let total_stake = cap128(info.staked_amount + info.delegated_amount);
    if info.is_active && total_stake != 0 {
        let reward = spec_mul_div(epoch_rewards, total_stake as u128, total_staked);
        lemma_mul_div_range(epoch_rewards, total_stake as u128, total_staked);
        let commission = commission_of(reward, info.commission_rate);
        lemma_mul_div_range(reward as u128, info.commission_rate as u128, 10000);
        let pool = if commission > reward {
            0
        } else {
            reward - commission
        };
        let share = reward_share(info.address, pool as u128, info.delegated_amount);
        assert forall|d: Delegation| #[trigger] share(d) >= 0 by {
            lemma_mul_div_range(pool as u128, d.amount, info.delegated_amount);
        }
        lemma_sum_nonneg(ds, share);
    }
}

/// The stakes keep up with the distributed total over several turns.
proof fn lemma_reward_rounds_conserve(
    start: (Seq<Validator>, Seq<Delegation>, int),
    infos: Seq<Validator>,
    k: int,
    epoch_rewards: u128,
    total_staked: u128,
    base: int,
)
    requires
        0 <= k,
        0 <= start.2 <= u128::MAX,
        base >= 0,
        staked_sum(start.0) + delegated_sum(start.1) == base + start.2,
        base + reward_rounds(start, infos, k, epoch_rewards, total_staked).2 < u128::MAX || (base >= 1 && base
            + reward_rounds(start, infos, k, epoch_rewards, total_staked).2 <= u128::MAX),
    ensures
        ({
            let end = reward_rounds(start, infos, k, epoch_rewards, total_staked);
            staked_sum(end.0) + delegated_sum(end.1) == base + end.2
        }),
    decreases k,
{
    if k > 0 {
        lemma_reward_rounds_grow(start, infos, k - 1, k, epoch_rewards, total_staked);
        lemma_reward_rounds_conserve(start, infos, k - 1, epoch_rewards, total_staked, base);
        let prev = reward_rounds(start, infos, k - 1, epoch_rewards, total_staked);
        lemma_reward_step_conserves(prev, infos[k - 1], epoch_rewards, total_staked, base);
    }
}

/// With nothing staked no reward is credited: the distributed total stays as it was.
proof fn lemma_zero_stake_rounds(
    start: (Seq<Validator>, Seq<Delegation>, int),
    infos: Seq<Validator>,
    k: int,
    epoch_rewards: u128,
)
    requires
        0 <= start.2 <= u128::MAX,
    ensures
        reward_rounds(start, infos, k, epoch_rewards, 0).2 == start.2,
    decreases k,
{
    if k > 0 {
        lemma_zero_stake_rounds(start, infos, k - 1, epoch_rewards);
        let prev = reward_rounds(start, infos, k - 1, epoch_rewards, 0);
        let info = infos[k - 1];
        let total_stake = cap128(info.staked_amount + info.delegated_amount);
        if info.is_active && total_stake != 0 {
            assert(spec_mul_div(epoch_rewards, total_stake as u128, 0) == 0);
            assert(commission_of(0, info.commission_rate) == 0) by {
                assert(0 * (info.commission_rate as int) == 0);
            }
        }
    }
}

/// The last delegation that matches `p` is not one followed by another match.
proof fn lemma_last_match_after<T>(s: Seq<T>, p: spec_fn(T) -> bool, i: int, j: int)
    requires
        0 <= i < j < s.len(),
        p(s[j]),
    ensures
        last_match(s, p) != i,
{
    if exists|k: int| is_last_match(s, p, k) {
        let k = choose|k: int| is_last_match(s, p, k);
        assert(is_last_match(s, p, k));
    }
}

/// Pro-rata delegator rewards.  In the reward turn of an active validator
/// with a positive total stake and delegations, the delegator pool is its
/// reward less its commission.  Each delegation to it with a positive amount
/// that another such delegation follows is credited exactly
/// `floor(pool * amount / delegated_amount)` (saturating at the `u128` limit);
/// the last one is credited at least that, as it also takes the rounding
/// remainder; every other delegation is left as it was.  So delegations of
/// equal amount to the same validator, none of them the last, gain equally.
pub proof fn lemma_reward_turn_pro_rata(
    state: (Seq<Validator>, Seq<Delegation>, int),
    info: Validator,
    epoch_rewards: u128,
    total_staked: u128,
)
    requires
        info.is_active,
        info.staked_amount + info.delegated_amount > 0,
        info.delegated_amount > 0,
    ensures
        ({
            let ds = state.1;
            let next = reward_step(state, info, epoch_rewards, total_staked).1;
            let v = info.address;
            let reward = spec_mul_div(
                epoch_rewards,
                cap128(info.staked_amount + info.delegated_amount) as u128,
                total_staked,
            );
            let commission = spec_mul_div(reward as u128, info.commission_rate as u128, 10000);
            let pool = if commission > reward {
                0
            } else {
                reward - commission
            };
            &&& next.len() == ds.len()
            &&& forall|i: int|
                0 <= i < ds.len() && !(ds[i].validator == v && ds[i].amount > 0) ==> #[trigger] next[i] == ds[i]
            &&& forall|i: int, j: int|
                #![trigger next[i], ds[j]]
                0 <= i < j < ds.len() && ds[i].validator == v && ds[i].amount > 0 && ds[j].validator == v
                    && ds[j].amount > 0 ==> next[i] == with_amount(
                    ds[i],
                    cap128(ds[i].amount + spec_mul_div(pool as u128, ds[i].amount, info.delegated_amount)) as u128,
                )
            &&& forall|i: int|
                0 <= i < ds.len() && ds[i].validator == v && ds[i].amount > 0 ==> (#[trigger] next[i]).amount
                    >= cap128(ds[i].amount + spec_mul_div(pool as u128, ds[i].amount, info.delegated_amount))
            &&& forall|i: int, j: int, k: int|
                #![trigger next[i], next[j], ds[k]]
                0 <= i < k && 0 <= j < k && k < ds.len() && ds[i].validator == v && ds[i].amount > 0
                    && ds[j].validator == v && ds[j].amount > 0 && ds[k].validator == v && ds[k].amount > 0
                    && ds[i].amount == ds[j].amount ==> next[i].amount == next[j].amount
        }),
{
    let (vs, ds, td) = state;
    let v = info.address;
    let delegated = info.delegated_amount;
    let total_stake = cap128(info.staked_amount + info.delegated_amount);
    let reward = spec_mul_div(epoch_rewards, total_stake as u128, total_staked);
    lemma_mul_div_range(epoch_rewards, total_stake as u128, total_staked);
    let commission = commission_of(reward, info.commission_rate);
    lemma_mul_div_range(reward as u128, info.commission_rate as u128, 10000);
    let pool = if commission > reward {
        0
    } else {
        reward - commission
    };
    let next = reward_step(state, info, epoch_rewards, total_staked).1;
    let elig = rewards_eligible(v);
    let share = reward_share(v, pool as u128, delegated);
    let f = |d: Delegation| rewarded_delegation(d, v, pool as u128, delegated);
    let ds1 = ds.map_values(f);
    let last = last_match(ds, elig);
    if pool == 0 {
        assert(next == ds);
        assert forall|i: int| 0 <= i < ds.len() implies spec_mul_div(pool as u128, #[trigger] ds[i].amount, delegated)
            == 0 by {
            assert(0 * (ds[i].amount as int) == 0);
        }
    } else {
        assert forall|i: int| 0 <= i < ds.len() && elig(#[trigger] ds[i]) implies share(ds[i]) >= 0 by {
            lemma_mul_div_range(pool as u128, ds[i].amount, delegated);
        }
        lemma_last_match(ds, elig, 0);
        if last != -1 {
            assert(is_last_match(ds, elig, last)) by {
                if !(exists|k: int| is_last_match(ds, elig, k)) {
                    assert(last == -1);
                }
            }
        }
        assert forall|i: int| 0 <= i < ds.len() && !(ds[i].validator == v && ds[i].amount > 0) implies #[trigger] next[i]
            == ds[i] by {
            assert(ds1[i] == f(ds[i]));
            assert(ds1[i] == ds[i]);
        }
        assert forall|i: int, j: int|
            #![trigger next[i], ds[j]]
            0 <= i < j < ds.len() && ds[i].validator == v && ds[i].amount > 0 && ds[j].validator == v
                && ds[j].amount > 0 implies next[i] == with_amount(
                ds[i],
                cap128(ds[i].amount + spec_mul_div(pool as u128, ds[i].amount, delegated)) as u128,
            ) by {
            assert(elig(ds[j]));
            lemma_last_match_after(ds, elig, i, j);
            assert(ds1[i] == f(ds[i]));
        }
        assert forall|i: int|
            0 <= i < ds.len() && ds[i].validator == v && ds[i].amount > 0 implies (#[trigger] next[i]).amount
                >= cap128(ds[i].amount + spec_mul_div(pool as u128, ds[i].amount, delegated)) by {
            assert(ds1[i] == f(ds[i]));
        }
    }
}

/// Rewards keep the books balanced: when the total staked equals the sum of
/// the validators' own stakes and the delegated amounts, it still does after
/// a reward distribution (the total grows by exactly what was credited), as
/// long as the new total does not exceed the `u128` limit.
pub proof fn lemma_rewards_keep_total_staked(
    validators: Seq<Validator>,
    delegations: Seq<Delegation>,
    epoch_rewards: u128,
    total_staked: u128,
)
    requires
        total_staked == staked_sum(validators) + delegated_sum(delegations),
        total_staked + reward_rounds(
            (validators, delegations, 0),
            validators,
            validators.len() as int,
            epoch_rewards,
            total_staked,
        ).2 <= u128::MAX,
    ensures
        ({
            let end = reward_rounds(
                (validators, delegations, 0),
                validators,
                validators.len() as int,
                epoch_rewards,
                total_staked,
            );
            staked_sum(end.0) + delegated_sum(end.1) == cap128(total_staked + end.2)
        }),
{
    if total_staked == 0 {
        lemma_zero_stake_rounds((validators, delegations, 0), validators, validators.len() as int, epoch_rewards);
    }
    lemma_reward_rounds_conserve(
        (validators, delegations, 0),
        validators,
        validators.len() as int,
        epoch_rewards,
        total_staked,
        total_staked as int,
    );
}

/// Mapping by `f` and keeping what `p` and then `q` accept keeps exactly what
/// `r` accepts of the original, when `f` leaves alone what `q` accepts, never
/// makes `q` accept what it rejected, and `r` is `q` and `p` together.
proof fn lemma_map_filter_spares<T>(
    s: Seq<T>,
    f: spec_fn(T) -> T,
    p: spec_fn(T) -> bool,
    q: spec_fn(T) -> bool,
    r: spec_fn(T) -> bool,
)
    requires
        forall|x: T| #[trigger] q(x) ==> f(x) == x,
        forall|x: T| !q(x) ==> !q(#[trigger] f(x)),
        forall|x: T| #[trigger] r(x) == (q(x) && p(x)),
    ensures
        s.map_values(f).filter(p).filter(q) == s.filter(r),
    decreases s.len(),
{
    reveal_with_fuel(Seq::filter, 1);
    if s.len() > 0 {
        let m = s.map_values(f);
        let x = s.last();
        lemma_map_filter_spares(s.drop_last(), f, p, q, r);
        assert(m.drop_last() =~= s.drop_last().map_values(f));
        assert(m.last() == f(x));
        let head = m.drop_last().filter(p);
        if p(f(x)) {
            assert(m.filter(p) == head.push(f(x)));
            head.lemma_filter_push(f(x), q);
        } else {
            assert(m.filter(p) == head);
        }
        if q(x) {
            assert(f(x) == x);
        }
    }
}

/// A sum over `s` equals the same sum with `g` where `f` and `g` agree on `s`.
proof fn lemma_sum_agree<T>(s: Seq<T>, f: spec_fn(T) -> int, g: spec_fn(T) -> int)
    requires
        forall|i: int| 0 <= i < s.len() ==> f(#[trigger] s[i]) == g(s[i]),
    ensures
        sum_by(s, f) == sum_by(s, g),
    decreases s.len(),
{
    if s.len() > 0 {
        assert forall|i: int| 0 <= i < s.drop_last().len() implies f(#[trigger] s.drop_last()[i]) == g(
            s.drop_last()[i],
        ) by {
            assert(s.drop_last()[i] == s[i]);
        }
        lemma_sum_agree(s.drop_last(), f, g);
        assert(f(s.last()) == g(s[s.len() - 1]));
    }
}

/// A slash of validator `v` leaves every other validator alone: the
/// delegations to other validators and their unbonding entries come out
/// unchanged and in order (only entries that were already empty are dropped),
/// and the total it reports is the share taken from `v`'s own stake, plus the
/// shares taken from the delegations to `v`, plus the shares taken from `v`'s
/// unbonding entries, each sum saturating at the `u128` limit.
pub proof fn lemma_slash_spares_other_validators(
    val: Validator,
    ds: Seq<Delegation>,
    us: Seq<Unbonding>,
    rate: u128,
)
    requires
        rate <= 10000,
    ensures
        delegations_after_slash(ds, val.address, rate).filter(delegates_elsewhere(val.address)) == ds.filter(
            held_elsewhere(val.address),
        ),
        unbonding_after_slash(us, val.address, rate).filter(unbonds_elsewhere(val.address)) == us.filter(
            pending_elsewhere(val.address),
        ),
        slash_total(val, ds, us, rate) == cap128(
            slash_part(val.staked_amount, rate) + cap128(
                sum_by(ds.filter(delegates_to(val.address)), delegation_cut(rate)),
            ) + cap128(sum_by(us.filter(unbonds_from(val.address)), unbonding_cut(rate))),
        ),
{
    lemma_slash_spares_delegations(ds, val.address, rate);
    lemma_slash_spares_unbonding(us, val.address, rate);
}

/// The delegation half of [`lemma_slash_spares_other_validators`].
proof fn lemma_slash_spares_delegations(ds: Seq<Delegation>, v: Address, rate: u128)
    ensures
        delegations_after_slash(ds, v, rate).filter(delegates_elsewhere(v)) == ds.filter(held_elsewhere(v)),
        sum_by(ds, delegation_slash(v, rate)) == sum_by(ds.filter(delegates_to(v)), delegation_cut(rate)),
{
    lemma_map_filter_spares(
        ds,
        |d: Delegation| slashed_delegation(d, v, rate),
        |d: Delegation| d.amount > 0,
        delegates_elsewhere(v),
        held_elsewhere(v),
    );
    lemma_sum_filter_zero(ds, delegates_to(v), delegation_slash(v, rate));
    let dv = ds.filter(delegates_to(v));
    assert forall|i: int| 0 <= i < dv.len() implies delegation_slash(v, rate)(#[trigger] dv[i])
        == delegation_cut(rate)(dv[i]) by {
        ds.lemma_filter_pred(delegates_to(v), i);
    }
    lemma_sum_agree(dv, delegation_slash(v, rate), delegation_cut(rate));
}

/// The unbonding half of [`lemma_slash_spares_other_validators`].
proof fn lemma_slash_spares_unbonding(us: Seq<Unbonding>, v: Address, rate: u128)
    ensures
        unbonding_after_slash(us, v, rate).filter(unbonds_elsewhere(v)) == us.filter(pending_elsewhere(v)),
        sum_by(us, unbonding_slash(v, rate)) == sum_by(us.filter(unbonds_from(v)), unbonding_cut(rate)),
{
    lemma_map_filter_spares(
        us,
        |u: Unbonding| slashed_unbonding(u, v, rate),
        |u: Unbonding| u.amount > 0,
        unbonds_elsewhere(v),
        pending_elsewhere(v),
    );
    lemma_sum_filter_zero(us, unbonds_from(v), unbonding_slash(v, rate));
    let uv = us.filter(unbonds_from(v));
    assert forall|i: int| 0 <= i < uv.len() implies unbonding_slash(v, rate)(#[trigger] uv[i])
        == unbonding_cut(rate)(uv[i]) by {
        us.lemma_filter_pred(unbonds_from(v), i);
    }
    lemma_sum_agree(uv, unbonding_slash(v, rate), unbonding_cut(rate));
}

/// A slash takes from the stakes exactly what it reports, when no unbonding
/// entry of the validator is waiting: the books stay balanced.
proof fn lemma_slash_keeps_books(
    vs: Seq<Validator>,
    ds: Seq<Delegation>,
    us: Seq<Unbonding>,
    vi: int,
    rate: u128,
    current_slot: u64,
    total: u128,
)
    requires
        0 <= vi < vs.len(),
        rate <= 10000,
        total == staked_sum(vs) + delegated_sum(ds),
        forall|j: int| 0 <= j < us.len() ==> (#[trigger] us[j]).validator != vs[vi].address,
    ensures
        ({
            let val = vs[vi];
            let ds1 = delegations_after_slash(ds, val.address, rate);
            let t = slash_total(val, ds, us, rate);
            &&& t <= total
            &&& staked_sum(vs.update(vi, validator_after_slash(val, ds1, rate, current_slot)))
                + delegated_sum(ds1) == total - t
        }),
{
    let val = vs[vi];
    let v = val.address;
    let ds1 = delegations_after_slash(ds, v, rate);
    lemma_sum_zero(us, unbonding_slash(v, rate));
    lemma_slash_part_bounds(val.staked_amount, rate);
    lemma_sum_nonneg(vs, stake_of());
    lemma_sum_nonneg(ds, amount_of());
    lemma_sum_term_bound(vs, stake_of(), vi);
    lemma_sum_update(vs, stake_of(), vi, validator_after_slash(val, ds1, rate, current_slot));
    let dsl = delegation_slash(v, rate);
    let neg = |d: Delegation| -dsl(d);
    let h = |d: Delegation| slashed_delegation(d, v, rate);
    assert forall|i: int| 0 <= i < ds.len() implies amount_of()(h(#[trigger] ds[i])) == amount_of()(ds[i]) + neg(
        ds[i],
    ) by {
        lemma_slash_part_bounds(ds[i].amount, rate);
    }
    lemma_sum_map_add(ds, h, amount_of(), neg);
    lemma_sum_negate(ds, dsl, neg);
    let mapped = ds.map_values(h);
    lemma_sum_nonneg(mapped, amount_of());
    assert forall|x: Delegation| #[trigger] dsl(x) >= 0 by {}
    lemma_sum_nonneg(ds, dsl);
    let keep = |d: Delegation| d.amount > 0;
    assert forall|i: int| 0 <= i < mapped.len() && !keep(#[trigger] mapped[i]) implies amount_of()(mapped[i]) == 0 by {}
    lemma_sum_filter_zero(mapped, keep, amount_of());
    assert(ds1 == mapped.filter(keep));
}

} // verus!
