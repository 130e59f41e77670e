//! Optimistic rollups: L2 batches and their commitments on L1, and the
//! verification of fraud proofs against them.
use vstd::prelude::*;

use crate::bytes::{le_bytes, push_all, push_le, push_len_prefixed};
use crate::hashing::{sha256, sha256_of};
use crate::text::decimal;
use crate::types::{Address, H256};
use vstd::string::StringExecFns;

verus! {

/// Challenge window of a commitment, in L1 slots (7 days of 500 ms slots).
pub const CHALLENGE_WINDOW_SLOTS: u64 = 1_209_600;

/// A fraud proof challenging an L2 state transition: the challenger's
/// re-execution of the disputed transaction disagrees with the batch.
#[derive(Debug, Clone)]
pub struct FraudProof {
    pub batch_id: u64,
    pub tx_index: u32,
    pub pre_state_root: H256,
    pub correct_post_state_root: H256,
    pub claimed_post_state_root: H256,
    pub challenger: Address,
    pub state_proof: Vec<u8>,
    pub tx_data: Vec<u8>,
}

/// The binary encoding of a fraud proof: integers little-endian, hashes and
/// addresses as their raw bytes, byte strings after an 8-byte length.
pub open spec fn fraud_proof_bytes(p: FraudProof) -> Seq<u8> {
    le_bytes(p.batch_id as nat, 8) + le_bytes(p.tx_index as nat, 4) + p.pre_state_root.bytes@
        + p.correct_post_state_root.bytes@ + p.claimed_post_state_root.bytes@ + p.challenger.bytes@
        + le_bytes(p.state_proof@.len(), 8) + p.state_proof@ + le_bytes(p.tx_data@.len(), 8) + p.tx_data@
}

impl FraudProof {
    /// The binary encoding that is hashed.
    pub fn encode(&self) -> (b: Vec<u8>)
        ensures
            b@ == fraud_proof_bytes(*self),
    {
        let mut b: Vec<u8> = Vec::new();
        push_le(&mut b, self.batch_id as u128, 8);
        push_le(&mut b, self.tx_index as u128, 4);
        push_all(&mut b, self.pre_state_root.bytes.as_slice());
        push_all(&mut b, self.correct_post_state_root.bytes.as_slice());
        push_all(&mut b, self.claimed_post_state_root.bytes.as_slice());
        push_all(&mut b, self.challenger.bytes.as_slice());
        push_len_prefixed(&mut b, self.state_proof.as_slice());
        push_len_prefixed(&mut b, self.tx_data.as_slice());
        proof {
            assert(b@ =~= fraud_proof_bytes(*self));
        }
        b
    }

    /// The SHA-256 digest of the encoding.
    pub fn hash(&self) -> (h: H256)
        ensures
            h.bytes@ == sha256_of(fraud_proof_bytes(*self)),
    {
        let b = self.encode();
        H256 { bytes: sha256(b.as_slice()) }
    }
}

/// Re-execution of L2 transactions, supplied by the embedding node (its VM or
/// state-transition function).
pub trait ReExecutor {
    /// Whether executing `tx_data` on the state with root `pre` may give
    /// `out`: the post-state root, or why execution failed.  Without an
    /// implementation's own relation, any outcome may be given.
    closed spec fn re_executes_to(&self, pre: H256, tx_data: Seq<u8>, out: Result<H256, Seq<char>>) -> bool {
        true
    }

    /// Execute `tx_data` on the state with root `pre_state_root`, giving the
    /// post-state root, or why execution failed.
    fn re_execute(&self, pre_state_root: &H256, tx_data: &[u8]) -> (r: Result<H256, String>)
        ensures
            self.re_executes_to(*pre_state_root, tx_data@, executed_view(r)),
    ;
}

/// Settings of fraud-proof verification.
#[derive(Clone, Copy, Debug)]
pub struct FraudProofVerifier {
    /// Bond a challenger must post.
    pub required_bond: u128,
    /// The challenger's reward, in percent of the sequencer's bond (0 to 100).
    pub challenger_reward_pct: u8,
}

/// The outcome of verifying a fraud proof.
#[derive(Debug, Clone, PartialEq, Eq)]
pub enum FraudProofResult {
    /// The transition was wrong: the sequencer is slashed, the challenger rewarded.
    Valid { slashed_sequencer: Address, challenger_reward: u128 },
    /// The proof does not show fraud.
    Invalid { reason: String },
}

/// A fraud-proof outcome as plain values.
pub enum FraudVerdict {
    Valid { slashed_sequencer: Address, challenger_reward: u128 },
    Invalid { reason: Seq<char> },
}

impl View for FraudProofResult {
    type V = FraudVerdict;

    open spec fn view(&self) -> FraudVerdict {
        match self {
            FraudProofResult::Valid { slashed_sequencer, challenger_reward } => FraudVerdict::Valid {
                slashed_sequencer: *slashed_sequencer,
                challenger_reward: *challenger_reward,
            },
            FraudProofResult::Invalid { reason } => FraudVerdict::Invalid { reason: reason@ },
        }
    }
}

/// The challenger's reward: `pct` percent of the bond, the product saturating.
pub open spec fn challenger_reward(bond: u128, pct: u8) -> u128 {
    (if bond * pct > u128::MAX {
        u128::MAX
    } else {
        (bond * pct) as u128
    }) / 100
}

/// The verdict on `proof`, given the batch's recorded roots, the sequencer and
/// its bond, the challenger's bond, and the result of re-executing the
/// disputed transaction (used only once every earlier check passed).
pub open spec fn fraud_verdict(
    v: FraudProofVerifier,
    proof: FraudProof,
    batch_pre: H256,
    batch_post: H256,
    sequencer: Address,
    sequencer_bond: u128,
    challenger_bond: u128,
    executed: Result<H256, Seq<char>>,
) -> FraudVerdict {
    if challenger_bond < v.required_bond {
        FraudVerdict::Invalid {
            reason: "challenger bond "@ + decimal(challenger_bond as nat) + " below required "@ + decimal(
                v.required_bond as nat,
            ),
        }
    } else if proof.pre_state_root != batch_pre {
        FraudVerdict::Invalid { reason: "pre-state root mismatch"@ }
    } else if proof.claimed_post_state_root != batch_post {
        FraudVerdict::Invalid { reason: "claimed post-state doesn't match batch"@ }
    } else if proof.correct_post_state_root == proof.claimed_post_state_root {
        FraudVerdict::Invalid { reason: "correct state root matches claimed — no fraud"@ }
    } else {
        match executed {
            Err(m) => FraudVerdict::Invalid { reason: "re-execution failed: "@ + m },
            Ok(root) => if root != proof.correct_post_state_root {
                FraudVerdict::Invalid { reason: "re-executed post-state root does not match challenger's claim"@ }
            } else {
                FraudVerdict::Valid {
                    slashed_sequencer: sequencer,
                    challenger_reward: challenger_reward(sequencer_bond, v.challenger_reward_pct),
                }
            },
        }
    }
}

/// Whether the verdict is decided before re-execution.
pub open spec fn decided_before_execution(
    v: FraudProofVerifier,
    proof: FraudProof,
    batch_pre: H256,
    batch_post: H256,
    challenger_bond: u128,
) -> bool {
    ||| challenger_bond < v.required_bond
    ||| proof.pre_state_root != batch_pre
    ||| proof.claimed_post_state_root != batch_post
    ||| proof.correct_post_state_root == proof.claimed_post_state_root
}

/// A re-execution result as plain values.
pub open spec fn executed_view(r: Result<H256, String>) -> Result<H256, Seq<char>> {
    match r {
        Ok(h) => Ok(h),
        Err(m) => Err(m@),
    }
}

impl FraudProofVerifier {
    /// A verifier; a reward above 100 percent is refused.
    pub fn new(required_bond: u128, challenger_reward_pct: u8) -> (r: Result<Self, String>)
        ensures
            challenger_reward_pct > 100 ==> r is Err && r->Err_0@ == "challenger_reward_pct "@ + decimal(
                challenger_reward_pct as nat,
            ) + " exceeds 100 — would pay out more than bond"@,
            challenger_reward_pct <= 100 ==> r is Ok && r->Ok_0.required_bond == required_bond
                && r->Ok_0.challenger_reward_pct == challenger_reward_pct,
    {
        if challenger_reward_pct > 100 {
            let mut msg = String::from_str("challenger_reward_pct ");
            crate::text::push_decimal(&mut msg, challenger_reward_pct as u128);
            msg.append(" exceeds 100 — would pay out more than bond");
            return Err(msg);
        }
        Ok(FraudProofVerifier { required_bond, challenger_reward_pct })
    }

    /// The verdict before re-execution, when one of the early checks decides it.
    fn precheck(
        &self,
        proof: &FraudProof,
        batch_pre_state_root: &H256,
        batch_post_state_root: &H256,
        challenger_bond: u128,
    ) -> (r: Option<FraudProofResult>)
        ensures
            r is Some <==> decided_before_execution(*self, *proof, *batch_pre_state_root, *batch_post_state_root, challenger_bond),
            r is None ==> challenger_bond >= self.required_bond && proof.pre_state_root == *batch_pre_state_root
                && proof.claimed_post_state_root == *batch_post_state_root && proof.correct_post_state_root
                != proof.claimed_post_state_root,
            r is Some ==> r->0 is Invalid,
            forall|seq: Address, bond: u128, x: Result<H256, Seq<char>>|
                r is Some ==> r->0@ == #[trigger] fraud_verdict(
                    *self,
                    *proof,
                    *batch_pre_state_root,
                    *batch_post_state_root,
                    seq,
                    bond,
                    challenger_bond,
                    x,
                ),
    {
        if challenger_bond < self.required_bond {
            let mut reason = String::from_str("challenger bond ");
            crate::text::push_decimal(&mut reason, challenger_bond);
            reason.append(" below required ");
            crate::text::push_decimal(&mut reason, self.required_bond);
            return Some(FraudProofResult::Invalid { reason });
        }
        if proof.pre_state_root != *batch_pre_state_root {
            return Some(FraudProofResult::Invalid { reason: String::from_str("pre-state root mismatch") });
        }
        if proof.claimed_post_state_root != *batch_post_state_root {
            return Some(
                FraudProofResult::Invalid { reason: String::from_str("claimed post-state doesn't match batch") },
            );
        }
        if proof.correct_post_state_root == proof.claimed_post_state_root {
            return Some(
                FraudProofResult::Invalid {
                    reason: String::from_str("correct state root matches claimed — no fraud"),
                },
            );
        }
        None
    }

    /// The verdict on `proof` given the result of re-executing its transaction.
    pub fn verify_with(
        &self,
        proof: &FraudProof,
        batch_pre_state_root: &H256,
        batch_post_state_root: &H256,
        sequencer: &Address,
        sequencer_bond: u128,
        challenger_bond: u128,
        executed: Result<H256, String>,
    ) -> (r: FraudProofResult)
        ensures
            r@ == fraud_verdict(
                *self,
                *proof,
                *batch_pre_state_root,
                *batch_post_state_root,
                *sequencer,
                sequencer_bond,
                challenger_bond,
                executed_view(executed),
            ),
            r is Valid ==> challenger_bond >= self.required_bond && proof.pre_state_root == *batch_pre_state_root
                && proof.claimed_post_state_root == *batch_post_state_root && proof.correct_post_state_root
                != proof.claimed_post_state_root && executed == Ok::<H256, String>(proof.correct_post_state_root)
                && r->slashed_sequencer == *sequencer && r->challenger_reward == challenger_reward(
                sequencer_bond,
                self.challenger_reward_pct,
            ),
    {
        match self.precheck(proof, batch_pre_state_root, batch_post_state_root, challenger_bond) {
            Some(r) => {
                proof {
                    assert(r@ == fraud_verdict(
                        *self,
                        *proof,
                        *batch_pre_state_root,
                        *batch_post_state_root,
                        *sequencer,
                        sequencer_bond,
                        challenger_bond,
                        executed_view(executed),
                    ));
                }
                return r;
            },
            None => {},
        }
        let root = match executed {
            Ok(root) => root,
            Err(reason) => {
                return FraudProofResult::Invalid { reason: crate::text::concat_str("re-execution failed: ", reason.as_str()) };
            },
        };
        if root != proof.correct_post_state_root {
            return FraudProofResult::Invalid {
                reason: String::from_str("re-executed post-state root does not match challenger's claim"),
            };
        }
        let product = match sequencer_bond.checked_mul(self.challenger_reward_pct as u128) {
            Some(p) => p,
            None => u128::MAX,
        };
        let reward = product / 100;
        FraudProofResult::Valid { slashed_sequencer: *sequencer, challenger_reward: reward }
    }

    /// Verify `proof` by re-executing its transaction with `executor` from the
    /// proof's pre-state root; the executor is consulted only when the earlier
    /// checks pass.
    pub fn verify<E: ReExecutor>(
        &self,
        proof: &FraudProof,
        batch_pre_state_root: &H256,
        batch_post_state_root: &H256,
        sequencer: &Address,
        sequencer_bond: u128,
        challenger_bond: u128,
        executor: &E,
    ) -> (r: FraudProofResult)
        ensures
            r is Valid ==> challenger_bond >= self.required_bond && proof.pre_state_root == *batch_pre_state_root
                && proof.claimed_post_state_root == *batch_post_state_root && proof.correct_post_state_root
                != proof.claimed_post_state_root && r->slashed_sequencer == *sequencer && r->challenger_reward
                == challenger_reward(sequencer_bond, self.challenger_reward_pct),
            !decided_before_execution(*self, *proof, *batch_pre_state_root, *batch_post_state_root, challenger_bond)
                ==> exists|x: Result<H256, Seq<char>>|
                executor.re_executes_to(proof.pre_state_root, proof.tx_data@, x) && r@ == #[trigger] fraud_verdict(
                    *self,
                    *proof,
                    *batch_pre_state_root,
                    *batch_post_state_root,
                    *sequencer,
                    sequencer_bond,
                    challenger_bond,
                    x,
                ),
            exists|x: Result<H256, Seq<char>>|
                r@ == #[trigger] fraud_verdict(
                    *self,
                    *proof,
                    *batch_pre_state_root,
                    *batch_post_state_root,
                    *sequencer,
                    sequencer_bond,
                    challenger_bond,
                    x,
                ),
            decided_before_execution(*self, *proof, *batch_pre_state_root, *batch_post_state_root, challenger_bond)
                ==> forall|x: Result<H256, Seq<char>>|
                r@ == #[trigger] fraud_verdict(
                    *self,
                    *proof,
                    *batch_pre_state_root,
                    *batch_post_state_root,
                    *sequencer,
                    sequencer_bond,
                    challenger_bond,
                    x,
                ),
    {
        match self.precheck(proof, batch_pre_state_root, batch_post_state_root, challenger_bond) {
            Some(r) => {
                proof {
                    let x = Ok::<H256, Seq<char>>(proof.correct_post_state_root);
                    assert(r@ == fraud_verdict(
                        *self,
                        *proof,
                        *batch_pre_state_root,
                        *batch_post_state_root,
                        *sequencer,
                        sequencer_bond,
                        challenger_bond,
                        x,
                    ));
                }
                return r;
            },
            None => {},
        }
        let executed = executor.re_execute(&proof.pre_state_root, proof.tx_data.as_slice());
        let ghost x = executed_view(executed);
        let r = self.verify_with(
            proof,
            batch_pre_state_root,
            batch_post_state_root,
            sequencer,
            sequencer_bond,
            challenger_bond,
            executed,
        );
        proof {
            assert(r@ == fraud_verdict(
                *self,
                *proof,
                *batch_pre_state_root,
                *batch_post_state_root,
                *sequencer,
                sequencer_bond,
                challenger_bond,
                x,
            ));
        }
        r
    }
}

/// A fraud proof is upheld only against the batch it disputes: a `Valid`
/// verdict needs a sufficient challenger bond, a pre-state root and a claimed
/// post-state root equal to the batch's recorded roots, a correct root that
/// differs from the claimed one, and a re-execution that reproduces the
/// correct root; it then slashes the given sequencer and pays the challenger
/// its share of the sequencer's bond.  Any proof whose claimed root is not the
/// batch's post-state root is `Invalid`, whatever re-execution gives.
pub proof fn lemma_valid_verdict_matches_batch(
    v: FraudProofVerifier,
    proof: FraudProof,
    batch_pre: H256,
    batch_post: H256,
    sequencer: Address,
    sequencer_bond: u128,
    challenger_bond: u128,
    executed: Result<H256, Seq<char>>,
)
    ensures
        ({
            let verdict = fraud_verdict(
                v,
                proof,
                batch_pre,
                batch_post,
                sequencer,
                sequencer_bond,
                challenger_bond,
                executed,
            );
            &&& verdict is Valid <==> (challenger_bond >= v.required_bond && proof.pre_state_root == batch_pre
                && proof.claimed_post_state_root == batch_post && proof.correct_post_state_root
                != proof.claimed_post_state_root && executed == Ok::<H256, Seq<char>>(
                proof.correct_post_state_root,
            ))
            &&& verdict is Valid ==> verdict->slashed_sequencer == sequencer && verdict->challenger_reward
                == challenger_reward(sequencer_bond, v.challenger_reward_pct)
            &&& proof.claimed_post_state_root != batch_post ==> verdict is Invalid
        }),
{
}

/// A challenger is never paid more than the sequencer's bond when the reward
/// is at most 100 percent.
pub proof fn lemma_reward_within_bond(bond: u128, pct: u8)
    requires
        pct <= 100,
    ensures
        challenger_reward(bond, pct) <= bond,
{
    if bond * pct > u128::MAX {
        assert(u128::MAX / 100 <= bond) by (nonlinear_arith)
            requires
                bond * pct > u128::MAX,
                pct <= 100,
        ;
    } else {
        assert((bond * pct) / 100 <= bond) by (nonlinear_arith)
            requires
                pct <= 100,
                bond >= 0,
        ;
    }
}

/// A batch of L2 transactions posted to L1.
#[derive(Debug, Clone)]
pub struct L2Batch {
    pub batch_id: u64,
    pub chain_id: u64,
    pub sequencer: Address,
    pub pre_state_root: H256,
    pub post_state_root: H256,
    pub tx_hashes: Vec<H256>,
    pub l1_slot: u64,
}

/// The raw bytes of a list of hashes.
pub open spec fn hashes_bytes(hs: Seq<H256>) -> Seq<u8>
    decreases hs.len(),
{
    if hs.len() == 0 {
        Seq::empty()
    } else {
        hashes_bytes(hs.drop_last()) + hs.last().bytes@
    }
}

/// The binary encoding of a batch: integers little-endian, hashes and
/// addresses as raw bytes, the hash list after its 8-byte length.
pub open spec fn l2_batch_bytes(b: L2Batch) -> Seq<u8> {
    le_bytes(b.batch_id as nat, 8) + le_bytes(b.chain_id as nat, 8) + b.sequencer.bytes@ + b.pre_state_root.bytes@
        + b.post_state_root.bytes@ + le_bytes(b.tx_hashes@.len(), 8) + hashes_bytes(b.tx_hashes@) + le_bytes(
        b.l1_slot as nat,
        8,
    )
}

impl L2Batch {
    /// The binary encoding that is hashed.
    pub fn encode(&self) -> (b: Vec<u8>)
        ensures
            b@ == l2_batch_bytes(*self),
    {
        let mut b: Vec<u8> = Vec::new();
        push_le(&mut b, self.batch_id as u128, 8);
        push_le(&mut b, self.chain_id as u128, 8);
        push_all(&mut b, self.sequencer.bytes.as_slice());
        push_all(&mut b, self.pre_state_root.bytes.as_slice());
        push_all(&mut b, self.post_state_root.bytes.as_slice());
        push_le(&mut b, self.tx_hashes.len() as u128, 8);
        let ghost head = b@;
        let mut i: usize = 0;
        while i < self.tx_hashes.len()
            invariant
                i <= self.tx_hashes@.len(),
                b@ == head + hashes_bytes(self.tx_hashes@.subrange(0, i as int)),
            decreases self.tx_hashes@.len() - i,
        {
            push_all(&mut b, self.tx_hashes[i].bytes.as_slice());
            proof {
                let next = self.tx_hashes@.subrange(0, i + 1);
                assert(next.drop_last() =~= self.tx_hashes@.subrange(0, i as int));
                assert(b@ =~= head + hashes_bytes(next));
            }
            i = i + 1;
        }
        push_le(&mut b, self.l1_slot as u128, 8);
        proof {
            assert(self.tx_hashes@.subrange(0, self.tx_hashes@.len() as int) =~= self.tx_hashes@);
            assert(b@ =~= l2_batch_bytes(*self));
        }
        b
    }

    /// The SHA-256 digest of the encoding, the batch's commitment hash.
    pub fn hash(&self) -> (h: H256)
        ensures
            h.bytes@ == sha256_of(l2_batch_bytes(*self)),
    {
        let b = self.encode();
        H256 { bytes: sha256(b.as_slice()) }
    }
}

/// A state commitment posted on L1 by the sequencer.
#[derive(Debug, Clone)]
pub struct StateCommitment {
    pub batch: L2Batch,
    /// Last slot of the challenge window.
    pub challenge_deadline: u64,
    /// Whether a fraud proof was submitted.
    pub challenged: bool,
    /// Whether the commitment is final.
    pub finalized: bool,
}

impl StateCommitment {
    /// A commitment posted at `current_l1_slot`; its window ends
    /// `CHALLENGE_WINDOW_SLOTS` later (saturating).
    pub fn new(batch: L2Batch, current_l1_slot: u64) -> (c: Self)
        ensures
            c.batch == batch,
            c.challenge_deadline == (if current_l1_slot + CHALLENGE_WINDOW_SLOTS > u64::MAX {
                u64::MAX
            } else {
                (current_l1_slot + CHALLENGE_WINDOW_SLOTS) as u64
            }),
            !c.challenged,
            !c.finalized,
    {
        StateCommitment {
            challenge_deadline: current_l1_slot.saturating_add(CHALLENGE_WINDOW_SLOTS),
            batch,
            challenged: false,
            finalized: false,
        }
    }

    /// Whether `current_l1_slot` is after the challenge window.
    pub fn is_past_challenge_window(&self, current_l1_slot: u64) -> (r: bool)
        ensures
            r == (current_l1_slot > self.challenge_deadline),
    {
        current_l1_slot > self.challenge_deadline
    }

    /// Finalize an unchallenged commitment once its window is over.
    pub fn try_finalize(&mut self, current_l1_slot: u64) -> (r: Result<(), String>)
        ensures
            old(self).challenged ==> r is Err && r->Err_0@ == "commitment has been challenged"@,
            !old(self).challenged && current_l1_slot <= old(self).challenge_deadline ==> r is Err
                && r->Err_0@ == "challenge window not expired"@,
            r is Err ==> *final(self) == *old(self),
            !old(self).challenged && current_l1_slot > old(self).challenge_deadline ==> r is Ok
                && *final(self) == (StateCommitment { finalized: true, ..*old(self) }),
    {
        if self.challenged {
            return Err(String::from_str("commitment has been challenged"));
        }
        if !self.is_past_challenge_window(current_l1_slot) {
            return Err(String::from_str("challenge window not expired"));
        }
        self.finalized = true;
        Ok(())
    }
}

} // verus!
