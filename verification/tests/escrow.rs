use aether::escrow::{JobEscrowState, JobStatus, ReceiptCheck, MIN_PROVIDER_REPUTATION};
use aether::types::{Address, H256};

fn addr(n: u8) -> Address {
    Address::repeat_byte(n)
}

#[test]
fn test_post_job() {
    let mut state = JobEscrowState::new();
    let job_id = H256::zero();
    state
        .post_job(job_id, addr(1), H256::zero(), H256::zero(), 1000, 100, 1000)
        .unwrap();
    let job = state.get_job(&job_id).unwrap();
    assert_eq!(job.status, JobStatus::Posted);
    assert_eq!(job.payment, 1000);
    assert_eq!(state.escrowed_balance_of(&addr(1)), 1000);
}

#[test]
fn test_accept_job() {
    let mut state = JobEscrowState::new();
    let job_id = H256::zero();
    state
        .post_job(job_id, addr(1), H256::zero(), H256::zero(), 1000, 100, 1000)
        .unwrap();
    state.accept_job(job_id, addr(2)).unwrap();
    let job = state.get_job(&job_id).unwrap();
    assert_eq!(job.status, JobStatus::Accepted);
    assert_eq!(job.provider, Some(addr(2)));
}

#[test]
fn test_submit_and_verify() {
    let mut state = JobEscrowState::new();
    let job_id = H256::zero();
    state
        .post_job(job_id, addr(1), H256::zero(), H256::zero(), 1000, 100, 1000)
        .unwrap();
    state.accept_job(job_id, addr(2)).unwrap();
    state
        .submit_result(job_id, addr(2), H256::zero(), vec![1, 2, 3], 150)
        .unwrap();
    let job = state.get_job(&job_id).unwrap();
    assert_eq!(job.status, JobStatus::Submitted);

    // Verify after challenge period, with a receipt that checked out
    let result = state.verify_job(job_id, 200, ReceiptCheck::Valid).unwrap();
    assert!(result.is_some());
    let (provider, payment) = result.unwrap();
    assert_eq!(provider, addr(2));
    assert_eq!(payment, 1000);

    let job = state.get_job(&job_id).unwrap();
    assert_eq!(job.status, JobStatus::Completed);
    assert_eq!(state.escrowed_balance_of(&addr(1)), 0);
    assert_eq!(state.claimable_balance_of(&addr(2)), 1000);
    assert_eq!(state.get_provider_reputation(&addr(2)), 1);
}

#[test]
fn test_verify_job_rejects_invalid_vcr() {
    let mut state = JobEscrowState::new();
    let job_id = H256::zero();
    state
        .post_job(job_id, addr(1), H256::zero(), H256::zero(), 1000, 100, 1000)
        .unwrap();
    state.accept_job(job_id, addr(2)).unwrap();
    state
        .submit_result(job_id, addr(2), H256::zero(), vec![0xde, 0xad, 0xbe, 0xef], 150)
        .unwrap();
    let err = state
        .verify_job(
            job_id,
            200,
            ReceiptCheck::InvalidEncoding("expected value at line 1 column 1".to_string()),
        )
        .unwrap_err();
    assert!(
        err.contains("invalid VCR proof encoding") || err.contains("VCR proof verification failed"),
        "unexpected error: {err}"
    );
    assert_eq!(state.get_job(&job_id).unwrap().status, JobStatus::Submitted);
}

#[test]
fn test_accept_job_requester_cannot_be_provider() {
    let mut state = JobEscrowState::new();
    let job_id = H256::zero();
    state
        .post_job(job_id, addr(1), H256::zero(), H256::zero(), 1000, 100, 1000)
        .unwrap();
    let err = state.accept_job(job_id, addr(1)).unwrap_err();
    assert!(
        err.contains("provider cannot be the same address as the job requester"),
        "unexpected error: {err}"
    );
    assert_eq!(state.get_job(&job_id).unwrap().status, JobStatus::Posted);
}

#[test]
fn test_accept_job_low_reputation_blocked() {
    let mut state = JobEscrowState::new();
    let job_id = H256::zero();
    state
        .post_job(job_id, addr(1), H256::zero(), H256::zero(), 1000, 100, 1000)
        .unwrap();
    state.provider_reputation.insert(addr(2), -51);
    let err = state.accept_job(job_id, addr(2)).unwrap_err();
    assert!(err.contains("reputation") && err.contains("too low"), "unexpected error: {err}");
    state.provider_reputation.insert(addr(2), MIN_PROVIDER_REPUTATION);
    let err2 = state.accept_job(job_id, addr(2)).unwrap_err();
    assert!(err2.contains("too low"), "unexpected error: {err2}");
}

#[test]
fn test_accept_job_good_reputation_allowed() {
    let mut state = JobEscrowState::new();
    let job_id = H256::zero();
    state
        .post_job(job_id, addr(1), H256::zero(), H256::zero(), 1000, 100, 1000)
        .unwrap();
    state.provider_reputation.insert(addr(2), -49);
    state.accept_job(job_id, addr(2)).unwrap();
    assert_eq!(state.get_job(&job_id).unwrap().status, JobStatus::Accepted);
}

#[test]
fn test_cancel_job_releases_requester_escrow() {
    let mut state = JobEscrowState::new();
    let job_id = H256::repeat_byte(1);
    state
        .post_job(job_id, addr(1), H256::zero(), H256::zero(), 750, 100, 1000)
        .unwrap();
    assert_eq!(state.escrowed_balance_of(&addr(1)), 750);
    state.cancel_job(job_id, addr(1)).unwrap();
    assert_eq!(state.escrowed_balance_of(&addr(1)), 0);
}

#[test]
fn low_reputation_message_is_exact() {
    let mut state = JobEscrowState::new();
    let job_id = H256::zero();
    state
        .post_job(job_id, addr(1), H256::zero(), H256::zero(), 10, 0, 10)
        .unwrap();
    state.provider_reputation.insert(addr(2), -51);
    assert_eq!(
        state.accept_job(job_id, addr(2)).unwrap_err(),
        "provider reputation -51 is too low to accept jobs (minimum -50)"
    );
}

#[test]
fn verify_job_error_order() {
    let mut state = JobEscrowState::new();
    let job_id = H256::zero();
    assert_eq!(
        state.verify_job(job_id, 0, ReceiptCheck::Valid).unwrap_err(),
        "job not found"
    );
    state
        .post_job(job_id, addr(1), H256::zero(), H256::zero(), 10, 0, 100)
        .unwrap();
    assert_eq!(
        state.verify_job(job_id, 0, ReceiptCheck::Valid).unwrap_err(),
        "job not submitted"
    );
    state.accept_job(job_id, addr(2)).unwrap();
    state.submit_result(job_id, addr(2), H256::zero(), vec![1], 5).unwrap();
    assert_eq!(
        state.verify_job(job_id, 15, ReceiptCheck::Valid).unwrap_err(),
        "challenge period not ended"
    );
    assert_eq!(
        state
            .verify_job(job_id, 16, ReceiptCheck::Rejected("bad signature".to_string()))
            .unwrap_err(),
        "VCR proof verification failed: bad signature"
    );
    assert_eq!(state.verify_job(job_id, 16, ReceiptCheck::Valid).unwrap(), Some((addr(2), 10)));
    assert_eq!(state.completed_jobs, 1);
}

#[test]
fn duplicate_and_zero_payment_jobs_rejected() {
    let mut state = JobEscrowState::new();
    let job_id = H256::repeat_byte(3);
    assert_eq!(
        state.post_job(job_id, addr(1), H256::zero(), H256::zero(), 0, 0, 10).unwrap_err(),
        "payment must be non-zero"
    );
    state.post_job(job_id, addr(1), H256::zero(), H256::zero(), 5, 0, 10).unwrap();
    assert_eq!(
        state.post_job(job_id, addr(1), H256::zero(), H256::zero(), 5, 0, 10).unwrap_err(),
        "job already exists"
    );
    assert_eq!(state.total_jobs, 1);
    assert_eq!(
        state
            .post_job(H256::repeat_byte(4), addr(1), H256::zero(), H256::zero(), 5, u64::MAX, 1)
            .unwrap_err(),
        "slot overflow in deadline calculation"
    );
}

#[test]
fn only_requester_can_challenge_or_cancel() {
    let mut state = JobEscrowState::new();
    let job_id = H256::zero();
    state.post_job(job_id, addr(1), H256::zero(), H256::zero(), 5, 0, 100).unwrap();
    assert_eq!(state.cancel_job(job_id, addr(3)).unwrap_err(), "not job requester");
    state.accept_job(job_id, addr(2)).unwrap();
    assert_eq!(state.cancel_job(job_id, addr(1)).unwrap_err(), "cannot cancel job");
    assert_eq!(state.challenge_job(job_id, addr(1)).unwrap_err(), "cannot challenge job");
    state.submit_result(job_id, addr(2), H256::zero(), vec![], 1).unwrap();
    assert_eq!(
        state.challenge_job(job_id, addr(3)).unwrap_err(),
        "only job requester can challenge"
    );
    state.challenge_job(job_id, addr(1)).unwrap();
    assert_eq!(state.get_job(&job_id).unwrap().status, JobStatus::Disputed);
}

#[test]
fn submit_after_deadline_rejected() {
    let mut state = JobEscrowState::new();
    let job_id = H256::zero();
    state.post_job(job_id, addr(1), H256::zero(), H256::zero(), 5, 100, 10).unwrap();
    state.accept_job(job_id, addr(2)).unwrap();
    assert_eq!(
        state.submit_result(job_id, addr(2), H256::zero(), vec![], 111).unwrap_err(),
        "deadline passed"
    );
    assert_eq!(
        state.submit_result(job_id, addr(3), H256::zero(), vec![], 105).unwrap_err(),
        "not job provider"
    );
}
