use vstd::prelude::*;

pub mod types;
pub mod account;
pub mod amm;
pub mod bignum;
pub mod bytes;
pub mod client;
pub mod contract;
pub mod escrow;
pub mod gas_costs;
pub mod governance;
pub mod hashing;
pub mod keymap;
pub mod ledger_state;
pub mod math;
pub mod merkle;
pub mod reputation;
pub mod rollup;
pub mod rpc;
pub mod runtime;
pub mod scheduler;
pub mod seqfind;
pub mod snapshots;
pub mod staking;
pub mod storage;
pub mod text;
pub mod token;
pub mod wasm;

verus! {

} // verus!
