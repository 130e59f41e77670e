//! Gas costs of contract operations.
use vstd::prelude::*;

verus! {

pub const BASE: u64 = 100;

pub const MEMORY_BYTE: u64 = 1;

pub const STORAGE_READ: u64 = 200;

pub const STORAGE_WRITE: u64 = 5000;

pub const LOG: u64 = 375;

pub const SHA256: u64 = 60;

pub const TRANSFER: u64 = 9000;

} // verus!
