//! On-chain governance: proposals, voting with delegation and conviction,
//! timelocked execution, and a treasury.
use vstd::prelude::*;

use crate::amm::error_message;
use crate::keymap::{pairs_after_insert, pairs_after_remove, KeyMap};
use crate::text::{decimal, push_decimal};
use crate::token::amount_of;
use crate::types::{Address, H256};
use vstd::string::StringExecFns;

verus! {

#[derive(Clone, Copy, Debug, PartialEq, Eq, Structural)]
pub enum ProposalStatus {
    Active,
    Passed,
    Failed,
    Executed,
    Cancelled,
}

#[derive(Debug)]
pub enum ProposalType {
    ParameterChange { parameter: String, value: u128 },
    ProtocolUpgrade { code_hash: H256 },
    TreasuryAllocation { recipient: Address, amount: u128 },
    EmergencyAction { action: String },
}

impl ProposalType {
    /// A copy of this proposal type.
    pub fn duplicate(&self) -> (r: ProposalType)
        ensures
            r == *self,
    {
        match self {
            ProposalType::ParameterChange { parameter, value } => ProposalType::ParameterChange {
                parameter: parameter.clone(),
                value: *value,
            },
            ProposalType::ProtocolUpgrade { code_hash } => ProposalType::ProtocolUpgrade {
                code_hash: *code_hash,
            },
            ProposalType::TreasuryAllocation { recipient, amount } => ProposalType::TreasuryAllocation {
                recipient: *recipient,
                amount: *amount,
            },
            ProposalType::EmergencyAction { action } => ProposalType::EmergencyAction {
                action: action.clone(),
            },
        }
    }
}

pub struct Proposal {
    pub proposal_id: H256,
    pub proposer: Address,
    pub proposal_type: ProposalType,
    pub description: String,
    pub votes_for: u128,
    pub votes_against: u128,
    pub status: ProposalStatus,
    pub start_slot: u64,
    pub end_slot: u64,
    pub execution_slot: Option<u64>,
    /// voter -> voted for.
    pub voters: KeyMap<Address, bool>,
}

pub struct GovernanceState {
    pub proposals: KeyMap<H256, Proposal>,
    /// Raw voting power, derived from staking.
    pub voting_power: KeyMap<Address, u128>,
    /// delegator -> delegate.
    pub delegations: KeyMap<Address, Address>,
    /// Voting power after delegation.
    pub effective_power: KeyMap<Address, u128>,
    pub min_proposal_stake: u128,
    /// Percentage of the total voting power needed for quorum.
    pub quorum_percentage: u8,
    pub voting_period_slots: u64,
    pub timelock_slots: u64,
    pub total_voting_power: u128,
    pub treasury_balance: u128,
}

/// The (delegator, delegate) pairs in the order the delegation map keeps them.
pub open spec fn delegation_pairs(d: &KeyMap<Address, Address>) -> Seq<(Address, Address)> {
    d.pairs()
}

/// Raw power `vp` with each delegator among the first `k` pairs that has
/// power set to 0: its power goes to its delegate.
pub open spec fn zero_delegators(vp: Map<Address, u128>, pairs: Seq<(Address, Address)>, k: int) -> Map<
    Address,
    u128,
>
    decreases k,
{
    if k <= 0 {
        vp
    } else {
        let m = zero_delegators(vp, pairs, k - 1);
        let delegator = pairs[k - 1].0;
        if amount_of(vp, delegator) == 0 {
            m
        } else {
            m.insert(delegator, 0)
        }
    }
}

/// `base` with the raw power (in `vp`) of each delegator among the first `k`
/// pairs added to its delegate.  `None` when an addition overflows.
pub open spec fn apply_delegations(
    base: Map<Address, u128>,
    vp: Map<Address, u128>,
    pairs: Seq<(Address, Address)>,
    k: int,
) -> Option<Map<Address, u128>>
    decreases k,
{
    if k <= 0 {
        Some(base)
    } else {
        match apply_delegations(base, vp, pairs, k - 1) {
            None => None,
            Some(eff) => {
                let (delegator, delegate) = pairs[k - 1];
                let power = amount_of(vp, delegator);
                if power == 0 {
                    Some(eff)
                } else {
                    let cur = amount_of(eff, delegate);
                    if cur + power > u128::MAX {
                        None
                    } else {
                        Some(eff.insert(delegate, (cur + power) as u128))
                    }
                }
            },
        }
    }
}

/// The effective power for raw power `vp` and delegations `d`, if no sum overflows.
pub open spec fn effective_for(vp: Map<Address, u128>, d: &KeyMap<Address, Address>) -> Option<
    Map<Address, u128>,
> {
    effective_of_pairs(vp, d.pairs())
}

/// The effective power for raw power `vp` and delegation pairs `pairs`: every
/// delegator with power keeps none of it, and each delegate gains the raw
/// power of each of its delegators, whatever order the pairs come in.
pub open spec fn effective_of_pairs(vp: Map<Address, u128>, pairs: Seq<(Address, Address)>) -> Option<
    Map<Address, u128>,
> {
    apply_delegations(zero_delegators(vp, pairs, pairs.len() as int), vp, pairs, pairs.len() as int)
}

proof fn lemma_apply_prefix(
    base: Map<Address, u128>,
    vp: Map<Address, u128>,
    pairs: Seq<(Address, Address)>,
    j: int,
    k: int,
)
    requires
        0 <= j <= k,
        apply_delegations(base, vp, pairs, k) is Some,
    ensures
        apply_delegations(base, vp, pairs, j) is Some,
    decreases k - j,
{
    if j < k {
        lemma_apply_prefix(base, vp, pairs, j + 1, k);
    }
}

/// Conviction multiplier: one plus the whole voting periods locked, at most 6.
pub open spec fn conviction_of(lock_slots: u64, period: u64) -> u128 {
    let p = if period == 0 {
        1
    } else {
        period as int
    };
    let periods = lock_slots as int / p;
    (1 + if periods > 5 {
        5
    } else {
        periods
    }) as u128
}

/// The governance state apart from its proposals is that of `old`.
pub open spec fn same_powers(g: &GovernanceState, old: &GovernanceState) -> bool {
    &&& g.voting_power@ == old.voting_power@
    &&& g.delegations@ == old.delegations@
    &&& g.effective_power@ == old.effective_power@
    &&& g.min_proposal_stake == old.min_proposal_stake
    &&& g.quorum_percentage == old.quorum_percentage
    &&& g.voting_period_slots == old.voting_period_slots
    &&& g.timelock_slots == old.timelock_slots
    &&& g.total_voting_power == old.total_voting_power
    &&& g.treasury_balance == old.treasury_balance
}

/// `p` is `old` with only its votes, voters, status and execution slot changed.
pub open spec fn same_proposal_terms(p: &Proposal, old: &Proposal) -> bool {
    &&& p.proposal_id == old.proposal_id
    &&& p.proposer == old.proposer
    &&& p.proposal_type == old.proposal_type
    &&& p.description == old.description
    &&& p.start_slot == old.start_slot
    &&& p.end_slot == old.end_slot
}

impl GovernanceState {
    /// Governance with the default parameters and nothing registered.
    pub fn new() -> (g: Self)
        ensures
            g.proposals@ == Map::<H256, Proposal>::empty(),
            g.voting_power@ == Map::<Address, u128>::empty(),
            g.delegations@ == Map::<Address, Address>::empty(),
            g.delegations.pairs() == Seq::<(Address, Address)>::empty(),
            g.effective_power@ == Map::<Address, u128>::empty(),
            g.min_proposal_stake == 1_000_000_000_000,
            g.quorum_percentage == 20,
            g.voting_period_slots == 100_800,
            g.timelock_slots == 96_000,
            g.total_voting_power == 0,
            g.treasury_balance == 0,
    {
        GovernanceState {
            proposals: KeyMap::new(),
            voting_power: KeyMap::new(),
            delegations: KeyMap::new(),
            effective_power: KeyMap::new(),
            min_proposal_stake: 1_000_000_000_000,
            quorum_percentage: 20,
            voting_period_slots: 100_800,
            timelock_slots: 96_000,
            total_voting_power: 0,
            treasury_balance: 0,
        }
    }

    /// Create an active proposal; the proposer needs the minimum voting power.
    pub fn propose(
        &mut self,
        proposal_id: H256,
        proposer: Address,
        proposal_type: ProposalType,
        description: String,
        current_slot: u64,
    ) -> (r: Result<(), String>)
        requires
            amount_of(old(self).voting_power@, proposer) >= old(self).min_proposal_stake
                && !old(self).proposals@.contains_key(proposal_id) ==> current_slot + old(
                self).voting_period_slots <= u64::MAX,
        ensures
            same_powers(final(self), old(self)),
            amount_of(old(self).voting_power@, proposer) < old(self).min_proposal_stake ==> r is Err
                && r->Err_0@ == "insufficient voting power"@,
            amount_of(old(self).voting_power@, proposer) >= old(self).min_proposal_stake && old(
                self).proposals@.contains_key(proposal_id) ==> r is Err && r->Err_0@
                == "proposal already exists"@,
            r is Err ==> final(self).proposals@ == old(self).proposals@,
            amount_of(old(self).voting_power@, proposer) >= old(self).min_proposal_stake && !old(
                self).proposals@.contains_key(proposal_id) ==> {
                let p = final(self).proposals@[proposal_id];
                &&& r is Ok
                &&& final(self).proposals@ == old(self).proposals@.insert(proposal_id, p)
                &&& p.proposal_id == proposal_id
                &&& p.proposer == proposer
                &&& p.proposal_type == proposal_type
                &&& p.description == description
                &&& p.votes_for == 0
                &&& p.votes_against == 0
                &&& p.status == ProposalStatus::Active
                &&& p.start_slot == current_slot
                &&& p.end_slot == current_slot + old(self).voting_period_slots
                &&& p.execution_slot is None
                &&& p.voters@ == Map::<Address, bool>::empty()
            },
    {
        let voting_power = match self.voting_power.get(&proposer) {
            Some(p) => *p,
            None => 0,
        };
        if voting_power < self.min_proposal_stake {
            return error_message("insufficient voting power");
        }
        if self.proposals.contains_key(&proposal_id) {
            return error_message("proposal already exists");
        }
        let proposal = Proposal {
            proposal_id,
            proposer,
            proposal_type,
            description,
            votes_for: 0,
            votes_against: 0,
            status: ProposalStatus::Active,
            start_slot: current_slot,
            end_slot: current_slot + self.voting_period_slots,
            execution_slot: None,
            voters: KeyMap::new(),
        };
        self.proposals.insert(proposal_id, proposal);
        Ok(())
    }

    /// Record `voter`'s vote with weight `weight` on the active proposal `proposal_id`.
    fn record_vote(&mut self, proposal_id: H256, voter: Address, vote_for: bool, weight: u128, current_slot: u64) -> (r: Result<(), String>)
        requires
            old(self).proposals@.contains_key(proposal_id) ==> ({
                let p = old(self).proposals@[proposal_id];
                p.status == ProposalStatus::Active && p.start_slot <= current_slot <= p.end_slot
                    && !p.voters@.contains_key(voter) ==> if vote_for {
                    p.votes_for + weight <= u128::MAX
                } else {
                    p.votes_against + weight <= u128::MAX
                }
            }),
        ensures
            same_powers(final(self), old(self)),
            ({
                let ps = old(self).proposals@;
                let p = ps[proposal_id];
                let open = ps.contains_key(proposal_id) && p.status == ProposalStatus::Active
                    && p.start_slot <= current_slot <= p.end_slot && !p.voters@.contains_key(voter);
                &&& !ps.contains_key(proposal_id) ==> r is Err && r->Err_0@ == "proposal not found"@
                &&& ps.contains_key(proposal_id) && p.status != ProposalStatus::Active ==> r is Err
                    && r->Err_0@ == "proposal not active"@
                &&& ps.contains_key(proposal_id) && p.status == ProposalStatus::Active && (current_slot
                    < p.start_slot || current_slot > p.end_slot) ==> r is Err && r->Err_0@
                    == "not in voting period"@
                &&& ps.contains_key(proposal_id) && p.status == ProposalStatus::Active
                    && p.start_slot <= current_slot <= p.end_slot && p.voters@.contains_key(voter)
                    ==> r is Err && r->Err_0@ == "already voted"@
                &&& !open ==> final(self).proposals@ == ps
                &&& open ==> {
                    let q = final(self).proposals@[proposal_id];
                    &&& r is Ok
                    &&& final(self).proposals@ == ps.insert(proposal_id, q)
                    &&& same_proposal_terms(&q, &p)
                    &&& q.status == p.status
                    &&& q.execution_slot == p.execution_slot
                    &&& q.voters@ == p.voters@.insert(voter, vote_for)
                    &&& q.votes_for == (if vote_for {
                        p.votes_for + weight
                    } else {
                        p.votes_for as int
                    })
                    &&& q.votes_against == (if vote_for {
                        p.votes_against as int
                    } else {
                        p.votes_against + weight
                    })
                }
            }),
    {
        let mut proposal = match self.proposals.remove(&proposal_id) {
            Some(p) => p,
            None => return error_message("proposal not found"),
        };
        let ghost p0 = proposal;
        let checked: Result<(), String> = if proposal.status != ProposalStatus::Active {
            error_message("proposal not active")
        } else if current_slot < proposal.start_slot || current_slot > proposal.end_slot {
            error_message("not in voting period")
        } else if proposal.voters.contains_key(&voter) {
            error_message("already voted")
        } else {
            Ok(())
        };
        if checked.is_err() {
            self.proposals.insert(proposal_id, proposal);
            proof {
                assert(self.proposals@ =~= old(self).proposals@);
            }
            return checked;
        }
        proposal.voters.insert(voter, vote_for);
        if vote_for {
            proposal.votes_for = proposal.votes_for + weight;
        } else {
            proposal.votes_against = proposal.votes_against + weight;
        }
        self.proposals.insert(proposal_id, proposal);
        proof {
            assert(self.proposals@ =~= old(self).proposals@.insert(proposal_id, self.proposals@[proposal_id]));
        }
        Ok(())
    }

    /// Vote with the voter's effective power.
    pub fn vote(&mut self, proposal_id: H256, voter: Address, vote_for: bool, current_slot: u64) -> (r: Result<(), String>)
        requires
            old(self).proposals@.contains_key(proposal_id) ==> ({
                let p = old(self).proposals@[proposal_id];
                let w = amount_of(old(self).effective_power@, voter);
                p.status == ProposalStatus::Active && p.start_slot <= current_slot <= p.end_slot
                    && !p.voters@.contains_key(voter) ==> if vote_for {
                    p.votes_for + w <= u128::MAX
                } else {
                    p.votes_against + w <= u128::MAX
                }
            }),
        ensures
            same_powers(final(self), old(self)),
            ({
                let ps = old(self).proposals@;
                let p = ps[proposal_id];
                let w = amount_of(old(self).effective_power@, voter);
                let open = ps.contains_key(proposal_id) && p.status == ProposalStatus::Active
                    && p.start_slot <= current_slot <= p.end_slot && !p.voters@.contains_key(voter);
                &&& !ps.contains_key(proposal_id) ==> r is Err && r->Err_0@ == "proposal not found"@
                &&& ps.contains_key(proposal_id) && p.status != ProposalStatus::Active ==> r is Err
                    && r->Err_0@ == "proposal not active"@
                &&& ps.contains_key(proposal_id) && p.status == ProposalStatus::Active && (current_slot
                    < p.start_slot || current_slot > p.end_slot) ==> r is Err && r->Err_0@
                    == "not in voting period"@
                &&& ps.contains_key(proposal_id) && p.status == ProposalStatus::Active
                    && p.start_slot <= current_slot <= p.end_slot && p.voters@.contains_key(voter)
                    ==> r is Err && r->Err_0@ == "already voted"@
                &&& open && w == 0 ==> r is Err && r->Err_0@ == "no voting power"@
                &&& !(open && w != 0) ==> final(self).proposals@ == ps
                &&& open && w != 0 ==> {
                    let q = final(self).proposals@[proposal_id];
                    &&& r is Ok
                    &&& final(self).proposals@ == ps.insert(proposal_id, q)
                    &&& same_proposal_terms(&q, &p)
                    &&& q.status == p.status
                    &&& q.execution_slot == p.execution_slot
                    &&& q.voters@ == p.voters@.insert(voter, vote_for)
                    &&& q.votes_for == (if vote_for {
                        p.votes_for + w
                    } else {
                        p.votes_for as int
                    })
                    &&& q.votes_against == (if vote_for {
                        p.votes_against as int
                    } else {
                        p.votes_against + w
                    })
                }
            }),
    {
        match self.proposals.get(&proposal_id) {
            None => return error_message("proposal not found"),
            Some(p) => {
                if p.status != ProposalStatus::Active {
                    return error_message("proposal not active");
                }
                if current_slot < p.start_slot || current_slot > p.end_slot {
                    return error_message("not in voting period");
                }
                if p.voters.contains_key(&voter) {
                    return error_message("already voted");
                }
            },
        }
        let power = match self.effective_power.get(&voter) {
            Some(p) => *p,
            None => 0,
        };
        if power == 0 {
            return error_message("no voting power");
        }
        self.record_vote(proposal_id, voter, vote_for, power, current_slot)
    }

    /// Close the voting of an ended proposal: it fails without quorum or
    /// without a majority for it, and otherwise passes with a timelock.
    pub fn finalize(&mut self, proposal_id: H256, current_slot: u64) -> (r: Result<(), String>)
        requires
            old(self).proposals@.contains_key(proposal_id) ==> ({
                let p = old(self).proposals@[proposal_id];
                p.status == ProposalStatus::Active && current_slot > p.end_slot ==> {
                    &&& p.votes_for + p.votes_against <= u128::MAX
                    &&& old(self).total_voting_power * old(self).quorum_percentage <= u128::MAX
                    &&& current_slot + old(self).timelock_slots <= u64::MAX
                }
            }),
        ensures
            same_powers(final(self), old(self)),
            ({
                let ps = old(self).proposals@;
                let p = ps[proposal_id];
                let quorum = (old(self).total_voting_power * old(self).quorum_percentage) / 100;
                let ended = ps.contains_key(proposal_id) && p.status == ProposalStatus::Active
                    && current_slot > p.end_slot;
                &&& !ps.contains_key(proposal_id) ==> r is Err && r->Err_0@ == "proposal not found"@
                &&& ps.contains_key(proposal_id) && p.status != ProposalStatus::Active ==> r is Err
                    && r->Err_0@ == "proposal not active"@
                &&& ps.contains_key(proposal_id) && p.status == ProposalStatus::Active && current_slot
                    <= p.end_slot ==> r is Err && r->Err_0@ == "voting period not ended"@
                &&& ended && quorum == 0 ==> r is Err && r->Err_0@
                    == "quorum is zero: no voting power registered"@
                &&& !(ended && quorum != 0) ==> final(self).proposals@ == ps
                &&& ended && quorum != 0 ==> {
                    let q = final(self).proposals@[proposal_id];
                    let passed = p.votes_for + p.votes_against >= quorum && p.votes_for
                        > p.votes_against;
                    &&& r is Ok
                    &&& final(self).proposals@ == ps.insert(proposal_id, q)
                    &&& same_proposal_terms(&q, &p)
                    &&& q.voters@ == p.voters@
                    &&& q.votes_for == p.votes_for
                    &&& q.votes_against == p.votes_against
                    &&& passed ==> q.status == ProposalStatus::Passed && q.execution_slot == Some(
                        (current_slot + old(self).timelock_slots) as u64,
                    )
                    &&& !passed ==> q.status == ProposalStatus::Failed && q.execution_slot
                        == p.execution_slot
                }
            }),
    {
        let mut proposal = match self.proposals.remove(&proposal_id) {
            Some(p) => p,
            None => return error_message("proposal not found"),
        };
        let mut result: Result<(), String> = Ok(());
        if proposal.status != ProposalStatus::Active {
            result = error_message("proposal not active");
        } else if current_slot <= proposal.end_slot {
            result = error_message("voting period not ended");
        } else {
            let total_votes = proposal.votes_for + proposal.votes_against;
            let quorum_threshold = (self.total_voting_power * self.quorum_percentage as u128) / 100;
            if quorum_threshold == 0 {
                result = error_message("quorum is zero: no voting power registered");
            } else if total_votes < quorum_threshold {
                proposal.status = ProposalStatus::Failed;
            } else if proposal.votes_for > proposal.votes_against {
                proposal.status = ProposalStatus::Passed;
                proposal.execution_slot = Some(current_slot + self.timelock_slots);
            } else {
                proposal.status = ProposalStatus::Failed;
            }
        }
        self.proposals.insert(proposal_id, proposal);
        proof {
            if result is Err {
                assert(self.proposals@ =~= old(self).proposals@);
            } else {
                assert(self.proposals@ =~= old(self).proposals@.insert(proposal_id, self.proposals@[proposal_id]));
            }
        }
        result
    }

    /// Execute a passed proposal whose timelock has expired; returns its type.
    pub fn execute(&mut self, proposal_id: H256, current_slot: u64) -> (r: Result<ProposalType, String>)
        ensures
            same_powers(final(self), old(self)),
            ({
                let ps = old(self).proposals@;
                let p = ps[proposal_id];
                let ready = ps.contains_key(proposal_id) && p.status == ProposalStatus::Passed
                    && p.execution_slot is Some && current_slot >= p.execution_slot->0;
                &&& !ps.contains_key(proposal_id) ==> r is Err && r->Err_0@ == "proposal not found"@
                &&& ps.contains_key(proposal_id) && p.status != ProposalStatus::Passed ==> r is Err
                    && r->Err_0@ == "proposal not passed"@
                &&& ps.contains_key(proposal_id) && p.status == ProposalStatus::Passed
                    && p.execution_slot is Some && current_slot < p.execution_slot->0 ==> r is Err
                    && r->Err_0@ == "timelock not expired"@
                &&& ps.contains_key(proposal_id) && p.status == ProposalStatus::Passed
                    && p.execution_slot is None ==> r is Err && r->Err_0@ == "execution slot not set"@
                &&& !ready ==> final(self).proposals@ == ps
                &&& ready ==> {
                    let q = final(self).proposals@[proposal_id];
                    &&& r == Ok::<ProposalType, String>(p.proposal_type)
                    &&& final(self).proposals@ == ps.insert(proposal_id, q)
                    &&& same_proposal_terms(&q, &p)
                    &&& q.voters@ == p.voters@
                    &&& q.votes_for == p.votes_for
                    &&& q.votes_against == p.votes_against
                    &&& q.execution_slot == p.execution_slot
                    &&& q.status == ProposalStatus::Executed
                }
            }),
    {
        let mut proposal = match self.proposals.remove(&proposal_id) {
            Some(p) => p,
            None => return error_message("proposal not found"),
        };
        let result: Result<ProposalType, String> = if proposal.status != ProposalStatus::Passed {
            error_message("proposal not passed")
        } else {
            match proposal.execution_slot {
                Some(execution_slot) => {
                    if current_slot < execution_slot {
                        error_message("timelock not expired")
                    } else {
                        proposal.status = ProposalStatus::Executed;
                        Ok(proposal.proposal_type.duplicate())
                    }
                },
                None => error_message("execution slot not set"),
            }
        };
        self.proposals.insert(proposal_id, proposal);
        proof {
            if result is Err {
                assert(self.proposals@ =~= old(self).proposals@);
            } else {
                assert(self.proposals@ =~= old(self).proposals@.insert(proposal_id, self.proposals@[proposal_id]));
            }
        }
        result
    }

    /// Cancel an active proposal; only its proposer may.
    pub fn cancel(&mut self, proposal_id: H256, caller: Address) -> (r: Result<(), String>)
        ensures
            same_powers(final(self), old(self)),
            ({
                let ps = old(self).proposals@;
                let p = ps[proposal_id];
                let ok = ps.contains_key(proposal_id) && caller == p.proposer && p.status
                    == ProposalStatus::Active;
                &&& !ps.contains_key(proposal_id) ==> r is Err && r->Err_0@ == "proposal not found"@
                &&& ps.contains_key(proposal_id) && caller != p.proposer ==> r is Err && r->Err_0@
                    == "not proposer"@
                &&& ps.contains_key(proposal_id) && caller == p.proposer && p.status
                    != ProposalStatus::Active ==> r is Err && r->Err_0@ == "cannot cancel proposal"@
                &&& !ok ==> final(self).proposals@ == ps
                &&& ok ==> {
                    let q = final(self).proposals@[proposal_id];
                    &&& r is Ok
                    &&& final(self).proposals@ == ps.insert(proposal_id, q)
                    &&& same_proposal_terms(&q, &p)
                    &&& q.voters@ == p.voters@
                    &&& q.votes_for == p.votes_for
                    &&& q.votes_against == p.votes_against
                    &&& q.execution_slot == p.execution_slot
                    &&& q.status == ProposalStatus::Cancelled
                }
            }),
    {
        let mut proposal = match self.proposals.remove(&proposal_id) {
            Some(p) => p,
            None => return error_message("proposal not found"),
        };
        let result: Result<(), String> = if caller != proposal.proposer {
            error_message("not proposer")
        } else if proposal.status != ProposalStatus::Active {
            error_message("cannot cancel proposal")
        } else {
            proposal.status = ProposalStatus::Cancelled;
            Ok(())
        };
        self.proposals.insert(proposal_id, proposal);
        proof {
            if result is Err {
                assert(self.proposals@ =~= old(self).proposals@);
            } else {
                assert(self.proposals@ =~= old(self).proposals@.insert(proposal_id, self.proposals@[proposal_id]));
            }
        }
        result
    }

    /// Effective power for the current raw power and delegations.
    fn recompute_effective_power(&mut self)
        requires
            effective_for(old(self).voting_power@, &old(self).delegations) is Some,
        ensures
            final(self).effective_power@ == effective_for(old(self).voting_power@, &old(self).delegations)->0,
            final(self).proposals@ == old(self).proposals@,
            final(self).voting_power@ == old(self).voting_power@,
            final(self).delegations@ == old(self).delegations@,
            final(self).delegations.pairs() == old(self).delegations.pairs(),
            final(self).min_proposal_stake == old(self).min_proposal_stake,
            final(self).quorum_percentage == old(self).quorum_percentage,
            final(self).voting_period_slots == old(self).voting_period_slots,
            final(self).timelock_slots == old(self).timelock_slots,
            final(self).total_voting_power == old(self).total_voting_power,
            final(self).treasury_balance == old(self).treasury_balance,
    {
        let ghost vp = self.voting_power@;
        let mut effective: KeyMap<Address, u128> = KeyMap::new();
        let n = self.voting_power.len();
        let mut i: usize = 0;
        while i < n
            invariant
                n == self.voting_power.spec_len(),
                vp == self.voting_power@,
                i <= n,
                forall|k: Address|
                    effective@.contains_key(k) <==> exists|j: int|
                        0 <= j < i && #[trigger] self.voting_power.key_at(j) == k,
                forall|k: Address| #[trigger] effective@.contains_key(k) ==> effective@[k] == vp[k],
                forall|j: int| 0 <= j < n ==> vp.contains_key(#[trigger] self.voting_power.key_at(j)),
            decreases n - i,
        {
            let (k, v) = self.voting_power.entry_at(i);
            effective.insert(*k, *v);
            proof {
                assert forall|kk: Address|
                    effective@.contains_key(kk) implies exists|j: int|
                        0 <= j < i + 1 && #[trigger] self.voting_power.key_at(j) == kk by {
                    if kk != *k {
                        let j = choose|j: int| 0 <= j < i && #[trigger] self.voting_power.key_at(j) == kk;
                        assert(self.voting_power.key_at(j) == kk);
                    } else {
                        assert(self.voting_power.key_at(i as int) == kk);
                    }
                }
                assert forall|kk: Address| (exists|j: int|
                    0 <= j < i + 1 && #[trigger] self.voting_power.key_at(j) == kk) implies effective@.contains_key(kk) by {
                    let j = choose|j: int| 0 <= j < i + 1 && #[trigger] self.voting_power.key_at(j) == kk;
                    if j < i {
                    }
                }
            }
            i = i + 1;
        }
        proof {
            assert(effective@ =~= vp) by {
                assert forall|k: Address| vp.contains_key(k) implies effective@.contains_key(k) by {
                    let j = choose|j: int| 0 <= j < n && #[trigger] self.voting_power.key_at(j) == k;
                }
            }
        }
        let ghost pairs = delegation_pairs(&self.delegations);
        let m = self.delegations.len();
        let mut d: usize = 0;
        while d < m
            invariant
                m == self.delegations.spec_len(),
                vp == self.voting_power@,
                d <= m,
                pairs == delegation_pairs(&self.delegations),
                zero_delegators(vp, pairs, d as int) == effective@,
                pairs.len() == m,
                forall|i: int| 0 <= i < m ==> #[trigger] pairs[i] == (self.delegations.key_at(i), self.delegations@[self.delegations.key_at(i)]),
            decreases m - d,
        {
            let (delegator, _) = self.delegations.entry_at(d);
            let power = match self.voting_power.get(delegator) {
                Some(p) => *p,
                None => 0,
            };
            if power > 0 {
                effective.insert(*delegator, 0);
            }
            proof {
                assert(pairs[d as int].0 == *delegator);
            }
            d = d + 1;
        }
        let ghost zeroed = effective@;
        let mut d: usize = 0;
        while d < m
            invariant
                m == self.delegations.spec_len(),
                vp == self.voting_power@,
                d <= m,
                pairs == delegation_pairs(&self.delegations),
                zeroed == zero_delegators(vp, pairs, m as int),
                apply_delegations(zeroed, vp, pairs, m as int) is Some,
                apply_delegations(zeroed, vp, pairs, d as int) == Some(effective@),
                pairs.len() == m,
                forall|i: int| 0 <= i < m ==> #[trigger] pairs[i] == (self.delegations.key_at(i), self.delegations@[self.delegations.key_at(i)]),
            decreases m - d,
        {
            proof {
                lemma_apply_prefix(zeroed, vp, pairs, d + 1, m as int);
            }
            let (delegator, delegate) = self.delegations.entry_at(d);
            let power = match self.voting_power.get(delegator) {
                Some(p) => *p,
                None => 0,
            };
            if power > 0 {
                let cur = match effective.get(delegate) {
                    Some(c) => *c,
                    None => 0,
                };
                effective.insert(*delegate, cur + power);
            }
            d = d + 1;
        }
        self.effective_power = effective;
    }

    /// Set `account`'s raw voting power and recompute effective power.
    pub fn update_voting_power(&mut self, account: Address, power: u128)
        requires
            effective_for(old(self).voting_power@.insert(account, power), &old(self).delegations) is Some,
        ensures
            final(self).voting_power@ == old(self).voting_power@.insert(account, power),
            final(self).total_voting_power == ({
                let old_power = amount_of(old(self).voting_power@, account);
                let rest = if old_power > old(self).total_voting_power {
                    0
                } else {
                    old(self).total_voting_power - old_power
                };
                if rest + power > u128::MAX {
                    u128::MAX as int
                } else {
                    rest + power
                }
            }),
            final(self).effective_power@ == effective_for(final(self).voting_power@, &final(self).delegations)->0,
            final(self).delegations@ == old(self).delegations@,
            final(self).delegations.pairs() == old(self).delegations.pairs(),
            final(self).proposals@ == old(self).proposals@,
            final(self).treasury_balance == old(self).treasury_balance,
    {
        let old_power = match self.voting_power.get(&account) {
            Some(p) => *p,
            None => 0,
        };
        self.total_voting_power = self.total_voting_power.saturating_sub(old_power).saturating_add(power);
        self.voting_power.insert(account, power);
        self.recompute_effective_power();
    }

    /// Delegate `delegator`'s voting power to `delegate` (no chains onto a delegator).
    pub fn delegate(&mut self, delegator: Address, delegate: Address) -> (r: Result<(), String>)
        requires
            delegator != delegate && !old(self).delegations@.contains_key(delegate) ==> effective_of_pairs(
                old(self).voting_power@,
                pairs_after_insert(old(self).delegations.pairs(), delegator, delegate),
            ) is Some,
        ensures
            final(self).voting_power@ == old(self).voting_power@,
            final(self).proposals@ == old(self).proposals@,
            final(self).total_voting_power == old(self).total_voting_power,
            delegator == delegate ==> r is Err && r->Err_0@ == "cannot delegate to self"@,
            delegator != delegate && old(self).delegations@.contains_key(delegate) ==> r is Err
                && r->Err_0@ == "delegate is already delegating to someone else (no chains)"@,
            r is Err ==> final(self).delegations@ == old(self).delegations@ && final(self).effective_power@
                == old(self).effective_power@ && final(self).delegations.pairs() == old(self).delegations.pairs(),
            r is Ok ==> final(self).delegations.pairs() == pairs_after_insert(
                old(self).delegations.pairs(),
                delegator,
                delegate,
            ),
            delegator != delegate && !old(self).delegations@.contains_key(delegate) ==> r is Ok
                && final(self).delegations@ == old(self).delegations@.insert(delegator, delegate)
                && final(self).effective_power@ == effective_for(final(self).voting_power@, &final(self).delegations)->0,
    {
        if delegator == delegate {
            return error_message("cannot delegate to self");
        }
        if self.delegations.contains_key(&delegate) {
            return error_message("delegate is already delegating to someone else (no chains)");
        }
        self.delegations.insert(delegator, delegate);
        self.recompute_effective_power();
        Ok(())
    }

    /// Revoke `delegator`'s delegation.
    pub fn undelegate(&mut self, delegator: Address) -> (r: Result<(), String>)
        requires
            effective_of_pairs(
                old(self).voting_power@,
                pairs_after_remove(old(self).delegations.pairs(), delegator),
            ) is Some,
        ensures
            final(self).voting_power@ == old(self).voting_power@,
            final(self).proposals@ == old(self).proposals@,
            final(self).total_voting_power == old(self).total_voting_power,
            !old(self).delegations@.contains_key(delegator) ==> r is Err && r->Err_0@
                == "no active delegation"@ && final(self).delegations@ == old(self).delegations@
                && final(self).effective_power@ == old(self).effective_power@,
            old(self).delegations@.contains_key(delegator) ==> r is Ok && final(self).delegations@
                == old(self).delegations@.remove(delegator) && final(self).effective_power@
                == effective_for(final(self).voting_power@, &final(self).delegations)->0,
            final(self).delegations.pairs() == pairs_after_remove(old(self).delegations.pairs(), delegator),
    {
        match self.delegations.remove(&delegator) {
            None => error_message("no active delegation"),
            Some(_) => {
                self.recompute_effective_power();
                Ok(())
            },
        }
    }

    /// `account`'s voting power after delegation.
    pub fn effective_voting_power(&self, account: &Address) -> (r: u128)
        ensures
            r == amount_of(self.effective_power@, *account),
    {
        match self.effective_power.get(account) {
            Some(p) => *p,
            None => 0,
        }
    }

    /// Vote weight multiplier for locking `lock_slots`: one plus the whole
    /// voting periods locked, capped at 6.
    pub fn conviction_multiplier(&self, lock_slots: u64) -> (r: u128)
        ensures
            r == conviction_of(lock_slots, self.voting_period_slots),
            1 <= r <= 6,
    {
        let period = if self.voting_period_slots > 1 {
            self.voting_period_slots
        } else {
            1
        };
        let periods = lock_slots / period;
        let capped = if periods < 5 {
            periods
        } else {
            5
        };
        (1 + capped) as u128
    }

    /// Vote with effective power multiplied by the conviction multiplier.
    pub fn vote_with_conviction(
        &mut self,
        proposal_id: H256,
        voter: Address,
        vote_for: bool,
        lock_slots: u64,
        current_slot: u64,
    ) -> (r: Result<(), String>)
        requires
            old(self).proposals@.contains_key(proposal_id) ==> ({
                let p = old(self).proposals@[proposal_id];
                let base = amount_of(old(self).effective_power@, voter);
                let m = conviction_of(lock_slots, old(self).voting_period_slots);
                let w = if base * m > u128::MAX {
                    u128::MAX as int
                } else {
                    base * m
                };
                p.status == ProposalStatus::Active && p.start_slot <= current_slot <= p.end_slot
                    && !p.voters@.contains_key(voter) ==> if vote_for {
                    p.votes_for + w <= u128::MAX
                } else {
                    p.votes_against + w <= u128::MAX
                }
            }),
        ensures
            same_powers(final(self), old(self)),
            ({
                let ps = old(self).proposals@;
                let p = ps[proposal_id];
                let base = amount_of(old(self).effective_power@, voter);
                let m = conviction_of(lock_slots, old(self).voting_period_slots);
                let w = if base * m > u128::MAX {
                    u128::MAX as int
                } else {
                    base * m
                };
                let open = ps.contains_key(proposal_id) && p.status == ProposalStatus::Active
                    && p.start_slot <= current_slot <= p.end_slot && !p.voters@.contains_key(voter);
                &&& base == 0 ==> r is Err && r->Err_0@ == "no voting power"@
                &&& base != 0 && !ps.contains_key(proposal_id) ==> r is Err && r->Err_0@
                    == "proposal not found"@
                &&& base != 0 && ps.contains_key(proposal_id) && p.status != ProposalStatus::Active ==> r is Err
                    && r->Err_0@ == "proposal not active"@
                &&& base != 0 && ps.contains_key(proposal_id) && p.status == ProposalStatus::Active && (current_slot
                    < p.start_slot || current_slot > p.end_slot) ==> r is Err && r->Err_0@
                    == "not in voting period"@
                &&& base != 0 && ps.contains_key(proposal_id) && p.status == ProposalStatus::Active
                    && p.start_slot <= current_slot <= p.end_slot && p.voters@.contains_key(voter)
                    ==> r is Err && r->Err_0@ == "already voted"@
                &&& !(open && base != 0) ==> final(self).proposals@ == ps
                &&& open && base != 0 ==> {
                    let q = final(self).proposals@[proposal_id];
                    &&& r is Ok
                    &&& final(self).proposals@ == ps.insert(proposal_id, q)
                    &&& same_proposal_terms(&q, &p)
                    &&& q.status == p.status
                    &&& q.execution_slot == p.execution_slot
                    &&& q.voters@ == p.voters@.insert(voter, vote_for)
                    &&& q.votes_for == (if vote_for {
                        p.votes_for + w
                    } else {
                        p.votes_for as int
                    })
                    &&& q.votes_against == (if vote_for {
                        p.votes_against as int
                    } else {
                        p.votes_against + w
                    })
                }
            }),
    {
        let base_power = match self.effective_power.get(&voter) {
            Some(p) => *p,
            None => 0,
        };
        if base_power == 0 {
            return error_message("no voting power");
        }
        let multiplier = self.conviction_multiplier(lock_slots);
        let weighted_power = match base_power.checked_mul(multiplier) {
            Some(w) => w,
            None => u128::MAX,
        };
        self.record_vote(proposal_id, voter, vote_for, weighted_power, current_slot)
    }

    /// Add `amount` to the treasury.
    pub fn deposit_treasury(&mut self, amount: u128)
        requires
            old(self).treasury_balance + amount <= u128::MAX,
        ensures
            final(self).treasury_balance == old(self).treasury_balance + amount,
            final(self).proposals@ == old(self).proposals@,
            final(self).voting_power@ == old(self).voting_power@,
            final(self).total_voting_power == old(self).total_voting_power,
    {
        self.treasury_balance = self.treasury_balance + amount;
    }

    /// Pay `amount` out of the treasury.
    pub fn execute_treasury_allocation(&mut self, recipient: &Address, amount: u128) -> (r: Result<(), String>)
        ensures
            final(self).proposals@ == old(self).proposals@,
            final(self).voting_power@ == old(self).voting_power@,
            final(self).total_voting_power == old(self).total_voting_power,
            amount > old(self).treasury_balance ==> r is Err && r->Err_0@ == "insufficient treasury: "@
                + decimal(old(self).treasury_balance as nat) + " < "@ + decimal(amount as nat)
                && final(self).treasury_balance == old(self).treasury_balance,
            amount <= old(self).treasury_balance ==> r is Ok && final(self).treasury_balance == old(
                self).treasury_balance - amount,
    {
        if amount > self.treasury_balance {
            let mut msg = String::from_str("insufficient treasury: ");
            push_decimal(&mut msg, self.treasury_balance);
            msg.append(" < ");
            push_decimal(&mut msg, amount);
            return Err(msg);
        }
        self.treasury_balance = self.treasury_balance - amount;
        Ok(())
    }

    /// The proposal with the given id.
    pub fn get_proposal(&self, proposal_id: &H256) -> (r: Option<&Proposal>)
        ensures
            match r {
                Some(p) => self.proposals@.contains_key(*proposal_id) && *p == self.proposals@[*proposal_id],
                None => !self.proposals@.contains_key(*proposal_id),
            },
    {
        self.proposals.get(proposal_id)
    }
}

impl Default for GovernanceState {
    fn default() -> (g: Self)
        ensures
            g.proposals@ == Map::<H256, Proposal>::empty(),
            g.voting_power@ == Map::<Address, u128>::empty(),
            g.total_voting_power == 0,
            g.treasury_balance == 0,
    {
        Self::new()
    }
}

} // verus!
