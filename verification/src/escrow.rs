//! Escrow for AI compute jobs: posting, acceptance, result submission,
//! verification of the compute receipt, challenges and cancellation.
use vstd::prelude::*;

use crate::amm::error_message;
use crate::keymap::KeyMap;
use crate::text::{concat_str, decimal};
use crate::token::amount_of;
use crate::types::{Address, H256};
use vstd::string::StringExecFns;

verus! {

#[derive(Clone, Copy, Debug, PartialEq, Eq, Structural)]
pub enum JobStatus {
    Posted,
    Accepted,
    Submitted,
    Verified,
    Disputed,
    Completed,
    Cancelled,
}

pub struct Job {
    pub job_id: H256,
    pub requester: Address,
    pub provider: Option<Address>,
    pub model_hash: H256,
    pub input_hash: H256,
    pub output_hash: Option<H256>,
    pub vcr_proof: Option<Vec<u8>>,
    pub payment: u128,
    pub status: JobStatus,
    pub posted_slot: u64,
    pub deadline_slot: u64,
    pub challenge_end_slot: Option<u64>,
}

/// The outcome of checking a job's stored compute receipt: decoding it, then
/// verifying its attestation, trace commitment and worker signature.
pub enum ReceiptCheck {
    Valid,
    /// The receipt bytes did not decode; the decoder's message.
    InvalidEncoding(String),
    /// The receipt decoded but did not verify; the verifier's message.
    Rejected(String),
}

pub struct JobEscrowState {
    pub jobs: KeyMap<H256, Job>,
    pub provider_reputation: KeyMap<Address, i32>,
    pub requester_escrow: KeyMap<Address, u128>,
    pub provider_claimable: KeyMap<Address, u128>,
    pub total_jobs: u64,
    pub completed_jobs: u64,
}

/// Providers at or below this reputation may not accept jobs.
pub const MIN_PROVIDER_REPUTATION: i32 = -50;

/// The reputation stored for `p`, or 0.
pub open spec fn reputation_of(m: Map<Address, i32>, p: Address) -> i32 {
    if m.contains_key(p) {
        m[p]
    } else {
        0
    }
}

/// `j` is `old` apart from its provider, output, proof, status and challenge end.
pub open spec fn same_job_terms(j: &Job, old: &Job) -> bool {
    &&& j.job_id == old.job_id
    &&& j.requester == old.requester
    &&& j.model_hash == old.model_hash
    &&& j.input_hash == old.input_hash
    &&& j.payment == old.payment
    &&& j.posted_slot == old.posted_slot
    &&& j.deadline_slot == old.deadline_slot
}

/// `j` is `old` with only its status changed to `s`.
pub open spec fn with_status(j: &Job, old: &Job, s: JobStatus) -> bool {
    &&& same_job_terms(j, old)
    &&& j.provider == old.provider
    &&& j.output_hash == old.output_hash
    &&& j.vcr_proof == old.vcr_proof
    &&& j.challenge_end_slot == old.challenge_end_slot
    &&& j.status == s
}

/// The escrow map after releasing `payment` of `requester`'s escrow.
pub open spec fn release_escrow(m: Map<Address, u128>, requester: Address, payment: u128) -> Map<Address, u128> {
    if m[requester] == payment {
        m.remove(requester)
    } else {
        m.insert(requester, (m[requester] - payment) as u128)
    }
}

/// The error that stops verification of job `j` before any balance moves, if
/// any: `present` says whether the job exists, `check` is the outcome of
/// checking its stored compute receipt.
pub open spec fn verify_gate(j: Job, present: bool, current_slot: u64, check: ReceiptCheck) -> Option<Seq<char>> {
    if !present {
        Some("job not found"@)
    } else if j.status != JobStatus::Submitted {
        Some("job not submitted"@)
    } else if j.challenge_end_slot is Some && current_slot <= j.challenge_end_slot->0 {
        Some("challenge period not ended"@)
    } else if j.vcr_proof is None {
        Some("missing VCR proof"@)
    } else {
        match check {
            ReceiptCheck::InvalidEncoding(m) => Some("invalid VCR proof encoding: "@ + m@),
            ReceiptCheck::Rejected(m) => Some("VCR proof verification failed: "@ + m@),
            ReceiptCheck::Valid => if j.provider is None {
                Some("job has no provider"@)
            } else {
                None
            },
        }
    }
}

impl JobEscrowState {
    /// An empty escrow.
    pub fn new() -> (s: Self)
        ensures
            s.jobs@ == Map::<H256, Job>::empty(),
            s.provider_reputation@ == Map::<Address, i32>::empty(),
            s.requester_escrow@ == Map::<Address, u128>::empty(),
            s.provider_claimable@ == Map::<Address, u128>::empty(),
            s.total_jobs == 0,
            s.completed_jobs == 0,
    {
        JobEscrowState {
            jobs: KeyMap::new(),
            provider_reputation: KeyMap::new(),
            requester_escrow: KeyMap::new(),
            provider_claimable: KeyMap::new(),
            total_jobs: 0,
            completed_jobs: 0,
        }
    }

    /// Take a job out of the map to modify it.
    fn take_job(&mut self, job_id: &H256) -> (r: Option<Job>)
        ensures
            final(self).jobs@ == old(self).jobs@.remove(*job_id),
            match r {
                Some(j) => old(self).jobs@.contains_key(*job_id) && j == old(self).jobs@[*job_id],
                None => !old(self).jobs@.contains_key(*job_id),
            },
            final(self).provider_reputation@ == old(self).provider_reputation@,
            final(self).requester_escrow@ == old(self).requester_escrow@,
            final(self).provider_claimable@ == old(self).provider_claimable@,
            final(self).total_jobs == old(self).total_jobs,
            final(self).completed_jobs == old(self).completed_jobs,
    {
        self.jobs.remove(job_id)
    }

    /// Post a job paying `payment`, escrowed from `requester`.
    pub fn post_job(
        &mut self,
        job_id: H256,
        requester: Address,
        model_hash: H256,
        input_hash: H256,
        payment: u128,
        current_slot: u64,
        deadline_slots: u64,
    ) -> (r: Result<(), String>)
        ensures
            final(self).provider_reputation@ == old(self).provider_reputation@,
            final(self).provider_claimable@ == old(self).provider_claimable@,
            final(self).completed_jobs == old(self).completed_jobs,
            ({
                let exists_already = old(self).jobs@.contains_key(job_id);
                let ok_terms = !exists_already && payment != 0 && current_slot + deadline_slots <= u64::MAX;
                let escrow = amount_of(old(self).requester_escrow@, requester);
                let job = final(self).jobs@[job_id];
                &&& exists_already ==> r is Err && r->Err_0@ == "job already exists"@
                &&& !exists_already && payment == 0 ==> r is Err && r->Err_0@ == "payment must be non-zero"@
                &&& !exists_already && payment != 0 && current_slot + deadline_slots > u64::MAX ==> r is Err
                    && r->Err_0@ == "slot overflow in deadline calculation"@
                &&& !ok_terms ==> final(self).jobs@ == old(self).jobs@ && final(self).requester_escrow@
                    == old(self).requester_escrow@ && final(self).total_jobs == old(self).total_jobs
                &&& ok_terms ==> {
                    &&& final(self).jobs@ == old(self).jobs@.insert(job_id, job)
                    &&& job.job_id == job_id && job.requester == requester && job.provider is None
                    &&& job.model_hash == model_hash && job.input_hash == input_hash
                    &&& job.output_hash is None && job.vcr_proof is None && job.payment == payment
                    &&& job.status == JobStatus::Posted && job.posted_slot == current_slot
                    &&& job.deadline_slot == current_slot + deadline_slots
                    &&& job.challenge_end_slot is None
                    &&& escrow + payment > u128::MAX ==> r is Err && r->Err_0@ == "requester escrow overflow"@
                        && final(self).requester_escrow@ == old(self).requester_escrow@.insert(requester, escrow)
                        && final(self).total_jobs == old(self).total_jobs
                    &&& escrow + payment <= u128::MAX ==> final(self).requester_escrow@ == old(
                        self).requester_escrow@.insert(requester, (escrow + payment) as u128)
                    &&& escrow + payment <= u128::MAX && old(self).total_jobs == u64::MAX ==> r is Err
                        && r->Err_0@ == "total_jobs overflow"@ && final(self).total_jobs == old(self).total_jobs
                    &&& escrow + payment <= u128::MAX && old(self).total_jobs < u64::MAX ==> r is Ok
                        && final(self).total_jobs == old(self).total_jobs + 1
                }
            }),
    {
        if self.jobs.contains_key(&job_id) {
            return error_message("job already exists");
        }
        if payment == 0 {
            return error_message("payment must be non-zero");
        }
        let deadline_slot = match current_slot.checked_add(deadline_slots) {
            Some(d) => d,
            None => return error_message("slot overflow in deadline calculation"),
        };
        let job = Job {
            job_id,
            requester,
            provider: None,
            model_hash,
            input_hash,
            output_hash: None,
            vcr_proof: None,
            payment,
            status: JobStatus::Posted,
            posted_slot: current_slot,
            deadline_slot,
            challenge_end_slot: None,
        };
        self.jobs.insert(job_id, job);
        let escrowed = match self.requester_escrow.get(&requester) {
            Some(e) => *e,
            None => 0,
        };
        self.requester_escrow.insert(requester, escrowed);
        let new_escrow = match escrowed.checked_add(payment) {
            Some(e) => e,
            None => return error_message("requester escrow overflow"),
        };
        self.requester_escrow.insert(requester, new_escrow);
        self.total_jobs = match self.total_jobs.checked_add(1) {
            Some(t) => t,
            None => return error_message("total_jobs overflow"),
        };
        Ok(())
    }

    /// `provider` accepts a posted job; low-reputation providers and the
    /// job's own requester are refused.
    pub fn accept_job(&mut self, job_id: H256, provider: Address) -> (r: Result<(), String>)
        ensures
            final(self).provider_reputation@ == old(self).provider_reputation@,
            final(self).requester_escrow@ == old(self).requester_escrow@,
            final(self).provider_claimable@ == old(self).provider_claimable@,
            final(self).total_jobs == old(self).total_jobs,
            final(self).completed_jobs == old(self).completed_jobs,
            ({
                let rep = reputation_of(old(self).provider_reputation@, provider);
                let js = old(self).jobs@;
                let j = js[job_id];
                let ok = rep > MIN_PROVIDER_REPUTATION && js.contains_key(job_id) && j.status
                    == JobStatus::Posted && provider != j.requester;
                &&& rep <= MIN_PROVIDER_REPUTATION ==> r is Err && r->Err_0@ == "provider reputation "@
                    + (if rep < 0 { seq!['-'] + decimal((-rep) as nat) } else { decimal(rep as nat) })
                    + " is too low to accept jobs (minimum -50)"@
                &&& rep > MIN_PROVIDER_REPUTATION && !js.contains_key(job_id) ==> r is Err && r->Err_0@
                    == "job not found"@
                &&& rep > MIN_PROVIDER_REPUTATION && js.contains_key(job_id) && j.status != JobStatus::Posted
                    ==> r is Err && r->Err_0@ == "job not available"@
                &&& rep > MIN_PROVIDER_REPUTATION && js.contains_key(job_id) && j.status == JobStatus::Posted
                    && provider == j.requester ==> r is Err && r->Err_0@
                    == "provider cannot be the same address as the job requester"@
                &&& !ok ==> final(self).jobs@ == js
                &&& ok ==> {
                    let q = final(self).jobs@[job_id];
                    &&& r is Ok
                    &&& final(self).jobs@ == js.insert(job_id, q)
                    &&& same_job_terms(&q, &j)
                    &&& q.provider == Some(provider)
                    &&& q.status == JobStatus::Accepted
                    &&& q.output_hash == j.output_hash && q.vcr_proof == j.vcr_proof
                    &&& q.challenge_end_slot == j.challenge_end_slot
                }
            }),
    {
        let reputation = self.get_provider_reputation(&provider);
        if reputation <= MIN_PROVIDER_REPUTATION {
            let mut msg = String::from_str("provider reputation ");
            push_i32(&mut msg, reputation);
            msg.append(" is too low to accept jobs (minimum -50)");
            return Err(msg);
        }
        let mut job = match self.take_job(&job_id) {
            Some(j) => j,
            None => return error_message("job not found"),
        };
        let result: Result<(), String> = if job.status != JobStatus::Posted {
            error_message("job not available")
        } else if provider == job.requester {
            error_message("provider cannot be the same address as the job requester")
        } else {
            job.provider = Some(provider);
            job.status = JobStatus::Accepted;
            Ok(())
        };
        self.jobs.insert(job_id, job);
        proof {
            if result is Err {
                assert(self.jobs@ =~= old(self).jobs@);
            } else {
                assert(self.jobs@ =~= old(self).jobs@.insert(job_id, self.jobs@[job_id]));
            }
        }
        result
    }

    /// The job's provider submits its output and compute receipt before the
    /// deadline; a challenge period of 10 slots follows.
    pub fn submit_result(
        &mut self,
        job_id: H256,
        provider: Address,
        output_hash: H256,
        vcr_proof: Vec<u8>,
        current_slot: u64,
    ) -> (r: Result<(), String>)
        ensures
            final(self).provider_reputation@ == old(self).provider_reputation@,
            final(self).requester_escrow@ == old(self).requester_escrow@,
            final(self).provider_claimable@ == old(self).provider_claimable@,
            final(self).total_jobs == old(self).total_jobs,
            final(self).completed_jobs == old(self).completed_jobs,
            ({
                let js = old(self).jobs@;
                let j = js[job_id];
                let ok = js.contains_key(job_id) && j.provider == Some(provider) && j.status
                    == JobStatus::Accepted && current_slot <= j.deadline_slot && current_slot + 10
                    <= u64::MAX;
                &&& !js.contains_key(job_id) ==> r is Err && r->Err_0@ == "job not found"@
                &&& js.contains_key(job_id) && j.provider != Some(provider) ==> r is Err && r->Err_0@
                    == "not job provider"@
                &&& js.contains_key(job_id) && j.provider == Some(provider) && j.status
                    != JobStatus::Accepted ==> r is Err && r->Err_0@ == "invalid job status"@
                &&& js.contains_key(job_id) && j.provider == Some(provider) && j.status
                    == JobStatus::Accepted && current_slot > j.deadline_slot ==> r is Err && r->Err_0@
                    == "deadline passed"@
                &&& js.contains_key(job_id) && j.provider == Some(provider) && j.status
                    == JobStatus::Accepted && current_slot <= j.deadline_slot && current_slot + 10
                    > u64::MAX ==> r is Err && r->Err_0@ == "slot overflow in challenge period calculation"@
                &&& !ok ==> final(self).jobs@ == js
                &&& ok ==> {
                    let q = final(self).jobs@[job_id];
                    &&& r is Ok
                    &&& final(self).jobs@ == js.insert(job_id, q)
                    &&& same_job_terms(&q, &j)
                    &&& q.provider == j.provider
                    &&& q.output_hash == Some(output_hash)
                    &&& q.vcr_proof == Some(vcr_proof)
                    &&& q.status == JobStatus::Submitted
                    &&& q.challenge_end_slot == Some((current_slot + 10) as u64)
                }
            }),
    {
        let mut job = match self.take_job(&job_id) {
            Some(j) => j,
            None => return error_message("job not found"),
        };
        let same_provider = match job.provider {
            Some(p) => p == provider,
            None => false,
        };
        let result: Result<(), String> = if !same_provider {
            error_message("not job provider")
        } else if job.status != JobStatus::Accepted {
            error_message("invalid job status")
        } else if current_slot > job.deadline_slot {
            error_message("deadline passed")
        } else if current_slot > u64::MAX - 10 {
            error_message("slot overflow in challenge period calculation")
        } else {
            job.output_hash = Some(output_hash);
            job.vcr_proof = Some(vcr_proof);
            job.status = JobStatus::Submitted;
            job.challenge_end_slot = Some(current_slot + 10);
            Ok(())
        };
        self.jobs.insert(job_id, job);
        proof {
            if result is Err {
                assert(self.jobs@ =~= old(self).jobs@);
            } else {
                assert(self.jobs@ =~= old(self).jobs@.insert(job_id, self.jobs@[job_id]));
            }
        }
        result
    }

    /// Settle a submitted job once its challenge period is over and its
    /// compute receipt checked out (`check`): the payment moves from the
    /// requester's escrow to the provider's claimable balance, the job is
    /// completed and the provider gains one point of reputation.
    pub fn verify_job(&mut self, job_id: H256, current_slot: u64, check: ReceiptCheck) -> (r: Result<Option<(Address, u128)>, String>)
        ensures
            final(self).total_jobs == old(self).total_jobs,
            ({
                let js = old(self).jobs@;
                let j = js[job_id];
                let gate = verify_gate(j, js.contains_key(job_id), current_slot, check);
                let esc = old(self).requester_escrow@;
                let req = j.requester;
                let pay = j.payment;
                let prov = j.provider->0;
                let claim = amount_of(old(self).provider_claimable@, prov);
                let rep = reputation_of(old(self).provider_reputation@, prov);
                let unchanged_from_escrow = final(self).requester_escrow@ == esc
                    && final(self).provider_claimable@ == old(self).provider_claimable@;
                let unchanged_after_jobs = final(self).provider_reputation@ == old(self).provider_reputation@
                    && final(self).completed_jobs == old(self).completed_jobs;
                &&& gate is Some ==> r is Err && r->Err_0@ == gate->0 && final(self).jobs@ == js
                    && unchanged_from_escrow && unchanged_after_jobs
                &&& gate is None && !esc.contains_key(req) ==> r is Err && r->Err_0@
                    == "missing requester escrow balance"@ && final(self).jobs@ == js
                    && unchanged_from_escrow && unchanged_after_jobs
                &&& gate is None && esc.contains_key(req) && esc[req] < pay ==> r is Err && r->Err_0@
                    == "insufficient requester escrow balance"@ && final(self).jobs@ == js
                    && unchanged_from_escrow && unchanged_after_jobs
                &&& gate is None && esc.contains_key(req) && esc[req] >= pay ==> {
                    &&& final(self).requester_escrow@ == release_escrow(esc, req, pay)
                    &&& claim + pay > u128::MAX ==> r is Err && r->Err_0@ == "provider claimable overflow"@
                        && final(self).provider_claimable@ == old(self).provider_claimable@.insert(prov, claim)
                        && final(self).jobs@ == js && unchanged_after_jobs
                    &&& claim + pay <= u128::MAX ==> {
                        let q = final(self).jobs@[job_id];
                        &&& final(self).provider_claimable@ == old(self).provider_claimable@.insert(
                            prov,
                            (claim + pay) as u128,
                        )
                        &&& final(self).jobs@ == js.insert(job_id, q)
                        &&& with_status(&q, &j, JobStatus::Completed)
                        &&& rep == i32::MAX ==> r is Err && r->Err_0@ == "reputation overflow"@
                            && final(self).provider_reputation@ == old(self).provider_reputation@.insert(prov, rep)
                            && final(self).completed_jobs == old(self).completed_jobs
                        &&& rep < i32::MAX ==> final(self).provider_reputation@
                            == old(self).provider_reputation@.insert(prov, (rep + 1) as i32)
                        &&& rep < i32::MAX && old(self).completed_jobs == u64::MAX ==> r is Err
                            && r->Err_0@ == "completed_jobs overflow"@
                            && final(self).completed_jobs == old(self).completed_jobs
                        &&& rep < i32::MAX && old(self).completed_jobs < u64::MAX ==> r == Ok::<
                            Option<(Address, u128)>,
                            String,
                        >(Some((prov, pay))) && final(self).completed_jobs == old(self).completed_jobs + 1
                    }
                }
            }),
    {
        let (requester, provider, payment) = {
            let job = match self.jobs.get(&job_id) {
                Some(j) => j,
                None => return error_message("job not found"),
            };
            if job.status != JobStatus::Submitted {
                return error_message("job not submitted");
            }
            match job.challenge_end_slot {
                Some(challenge_end) => {
                    if current_slot <= challenge_end {
                        return error_message("challenge period not ended");
                    }
                },
                None => {},
            }
            if job.vcr_proof.is_none() {
                return error_message("missing VCR proof");
            }
            match check {
                ReceiptCheck::Valid => {},
                ReceiptCheck::InvalidEncoding(m) => {
                    return Err(concat_str("invalid VCR proof encoding: ", m.as_str()));
                },
                ReceiptCheck::Rejected(m) => {
                    return Err(concat_str("VCR proof verification failed: ", m.as_str()));
                },
            }
            let provider = match job.provider {
                Some(p) => p,
                None => return error_message("job has no provider"),
            };
            (job.requester, provider, job.payment)
        };
        let escrowed = match self.requester_escrow.get(&requester) {
            Some(e) => *e,
            None => return error_message("missing requester escrow balance"),
        };
        if escrowed < payment {
            return error_message("insufficient requester escrow balance");
        }
        let remaining = escrowed - payment;
        if remaining == 0 {
            self.requester_escrow.remove(&requester);
        } else {
            self.requester_escrow.insert(requester, remaining);
        }
        let claimable = match self.provider_claimable.get(&provider) {
            Some(c) => *c,
            None => 0,
        };
        self.provider_claimable.insert(provider, claimable);
        let new_claimable = match claimable.checked_add(payment) {
            Some(c) => c,
            None => return error_message("provider claimable overflow"),
        };
        self.provider_claimable.insert(provider, new_claimable);
        let mut job = match self.take_job(&job_id) {
            Some(j) => j,
            None => return error_message("job not found"),
        };
        job.status = JobStatus::Completed;
        self.jobs.insert(job_id, job);
        proof {
            assert(self.jobs@ =~= old(self).jobs@.insert(job_id, self.jobs@[job_id]));
        }
        let rep = self.get_provider_reputation(&provider);
        self.provider_reputation.insert(provider, rep);
        let new_rep = match rep.checked_add(1) {
            Some(v) => v,
            None => return error_message("reputation overflow"),
        };
        self.provider_reputation.insert(provider, new_rep);
        self.completed_jobs = match self.completed_jobs.checked_add(1) {
            Some(c) => c,
            None => return error_message("completed_jobs overflow"),
        };
        Ok(Some((provider, payment)))
    }

    /// The requester of a submitted job disputes its result.
    pub fn challenge_job(&mut self, job_id: H256, challenger: Address) -> (r: Result<(), String>)
        ensures
            final(self).provider_reputation@ == old(self).provider_reputation@,
            final(self).requester_escrow@ == old(self).requester_escrow@,
            final(self).provider_claimable@ == old(self).provider_claimable@,
            final(self).total_jobs == old(self).total_jobs,
            final(self).completed_jobs == old(self).completed_jobs,
            ({
                let js = old(self).jobs@;
                let j = js[job_id];
                &&& !js.contains_key(job_id) ==> r is Err && r->Err_0@ == "job not found"@
                &&& js.contains_key(job_id) && j.status != JobStatus::Submitted ==> r is Err && r->Err_0@
                    == "cannot challenge job"@
                &&& js.contains_key(job_id) && j.status == JobStatus::Submitted && challenger != j.requester
                    ==> r is Err && r->Err_0@ == "only job requester can challenge"@
                &&& r is Err ==> final(self).jobs@ == js
                &&& js.contains_key(job_id) && j.status == JobStatus::Submitted && challenger == j.requester
                    ==> r is Ok && final(self).jobs@ == js.insert(job_id, final(self).jobs@[job_id])
                    && with_status(&final(self).jobs@[job_id], &j, JobStatus::Disputed)
            }),
    {
        let mut job = match self.take_job(&job_id) {
            Some(j) => j,
            None => return error_message("job not found"),
        };
        let result: Result<(), String> = if job.status != JobStatus::Submitted {
            error_message("cannot challenge job")
        } else if challenger != job.requester {
            error_message("only job requester can challenge")
        } else {
            job.status = JobStatus::Disputed;
            Ok(())
        };
        self.jobs.insert(job_id, job);
        proof {
            if result is Err {
                assert(self.jobs@ =~= old(self).jobs@);
            } else {
                assert(self.jobs@ =~= old(self).jobs@.insert(job_id, self.jobs@[job_id]));
            }
        }
        result
    }

    /// The requester cancels a job nobody has accepted; its payment leaves escrow.
    pub fn cancel_job(&mut self, job_id: H256, caller: Address) -> (r: Result<(), String>)
        ensures
            final(self).provider_reputation@ == old(self).provider_reputation@,
            final(self).provider_claimable@ == old(self).provider_claimable@,
            final(self).total_jobs == old(self).total_jobs,
            final(self).completed_jobs == old(self).completed_jobs,
            ({
                let js = old(self).jobs@;
                let j = js[job_id];
                let esc = old(self).requester_escrow@;
                let gate_ok = js.contains_key(job_id) && caller == j.requester && j.status
                    == JobStatus::Posted;
                &&& !js.contains_key(job_id) ==> r is Err && r->Err_0@ == "job not found"@
                &&& js.contains_key(job_id) && caller != j.requester ==> r is Err && r->Err_0@
                    == "not job requester"@
                &&& js.contains_key(job_id) && caller == j.requester && j.status != JobStatus::Posted
                    ==> r is Err && r->Err_0@ == "cannot cancel job"@
                &&& gate_ok && !esc.contains_key(j.requester) ==> r is Err && r->Err_0@
                    == "missing requester escrow balance"@
                &&& gate_ok && esc.contains_key(j.requester) && esc[j.requester] < j.payment ==> r is Err
                    && r->Err_0@ == "insufficient requester escrow balance"@
                &&& r is Err ==> final(self).jobs@ == js && final(self).requester_escrow@ == esc
                &&& gate_ok && esc.contains_key(j.requester) && esc[j.requester] >= j.payment ==> {
                    &&& r is Ok
                    &&& final(self).requester_escrow@ == release_escrow(esc, j.requester, j.payment)
                    &&& final(self).jobs@ == js.insert(job_id, final(self).jobs@[job_id])
                    &&& with_status(&final(self).jobs@[job_id], &j, JobStatus::Cancelled)
                }
            }),
    {
        let (requester, payment) = {
            let job = match self.jobs.get(&job_id) {
                Some(j) => j,
                None => return error_message("job not found"),
            };
            if caller != job.requester {
                return error_message("not job requester");
            }
            if job.status != JobStatus::Posted {
                return error_message("cannot cancel job");
            }
            (job.requester, job.payment)
        };
        let escrowed = match self.requester_escrow.get(&requester) {
            Some(e) => *e,
            None => return error_message("missing requester escrow balance"),
        };
        if escrowed < payment {
            return error_message("insufficient requester escrow balance");
        }
        let remaining = escrowed - payment;
        if remaining == 0 {
            self.requester_escrow.remove(&requester);
        } else {
            self.requester_escrow.insert(requester, remaining);
        }
        let mut job = match self.take_job(&job_id) {
            Some(j) => j,
            None => return error_message("job not found"),
        };
        job.status = JobStatus::Cancelled;
        self.jobs.insert(job_id, job);
        proof {
            assert(self.jobs@ =~= old(self).jobs@.insert(job_id, self.jobs@[job_id]));
        }
        Ok(())
    }

    /// `provider`'s reputation (0 when unknown).
    pub fn get_provider_reputation(&self, provider: &Address) -> (r: i32)
        ensures
            r == reputation_of(self.provider_reputation@, *provider),
    {
        match self.provider_reputation.get(provider) {
            Some(r) => *r,
            None => 0,
        }
    }

    /// `requester`'s escrowed balance.
    pub fn escrowed_balance_of(&self, requester: &Address) -> (r: u128)
        ensures
            r == amount_of(self.requester_escrow@, *requester),
    {
        match self.requester_escrow.get(requester) {
            Some(b) => *b,
            None => 0,
        }
    }

    /// What `provider` may claim.
    pub fn claimable_balance_of(&self, provider: &Address) -> (r: u128)
        ensures
            r == amount_of(self.provider_claimable@, *provider),
    {
        match self.provider_claimable.get(provider) {
            Some(b) => *b,
            None => 0,
        }
    }

    /// The job with the given id.
    pub fn get_job(&self, job_id: &H256) -> (r: Option<&Job>)
        ensures
            match r {
                Some(j) => self.jobs@.contains_key(*job_id) && *j == self.jobs@[*job_id],
                None => !self.jobs@.contains_key(*job_id),
            },
    {
        self.jobs.get(job_id)
    }
}

impl Default for JobEscrowState {
    /// An empty escrow.
    fn default() -> (s: Self)
        ensures
            s.jobs@ == Map::<H256, Job>::empty(),
            s.provider_reputation@ == Map::<Address, i32>::empty(),
            s.requester_escrow@ == Map::<Address, u128>::empty(),
            s.provider_claimable@ == Map::<Address, u128>::empty(),
            s.total_jobs == 0,
            s.completed_jobs == 0,
    {
        Self::new()
    }
}

/// Append the decimal numeral of a signed 32-bit value.
pub fn push_i32(s: &mut String, x: i32)
    ensures
        final(s)@ == old(s)@ + (if x < 0 {
            seq!['-'] + decimal((-x) as nat)
        } else {
            decimal(x as nat)
        }),
{
    if x < 0 {
        crate::text::push_char(s, '-');
        let magnitude: u128 = (0 - (x as i64)) as u128;
        crate::text::push_decimal(s, magnitude);
        proof {
            assert(s@ =~= old(s)@ + (seq!['-'] + decimal((-x) as nat)));
        }
    } else {
        crate::text::push_decimal(s, x as u128);
    }
}

} // verus!
