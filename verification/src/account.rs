//! Account abstraction: user operations, their validation, and the entry point
//! that runs bundles of them with replay protection and gas sponsorship.
use vstd::prelude::*;

use crate::bytes::{
    hex_of, le_bytes, le_value, lemma_le_roundtrip, lemma_pow256_16, lemma_pow256_8, pow256, push_all, push_le,
    push_len_prefixed,
};
use crate::hashing::{sha256, sha256_of};
use crate::keymap::KeyMap;
use crate::text::decimal;
use crate::types::{Address, H256};
use vstd::string::StringExecFns;

verus! {

/// Signature validation of smart accounts (multisig, social recovery, passkeys, ...),
/// supplied by the embedding node.
pub trait AccountValidator {
    /// Whether `verdict` is an answer the validator may give on `signature`
    /// for the operation with hash bytes `op_hash` sent by `sender`.  Without
    /// an implementation's own relation, any verdict may be given.
    closed spec fn answers(&self, sender: Address, op_hash: Seq<u8>, signature: Seq<u8>, verdict: Result<(), Seq<char>>) -> bool {
        true
    }

    /// Whether `signature` authorizes the operation with hash `op_hash` sent by `sender`.
    fn validate_signature(&self, sender: &Address, op_hash: &H256, signature: &[u8]) -> (r: Result<(), String>)
        ensures
            self.answers(*sender, op_hash.bytes@, signature@, check_view(r)),
    ;
}

/// Whether `sig` is an answer `v` may give on `op`'s signature, for its
/// sender and hash.
pub open spec fn signature_answer<V: AccountValidator>(v: V, op: UserOperation, sig: Result<(), Seq<char>>) -> bool {
    v.answers(op.sender, sha256_of(user_op_preimage(op)), op.signature@, sig)
}

/// A user operation: a pseudo-transaction of a smart account.
#[derive(Debug, Clone)]
pub struct UserOperation {
    pub sender: Address,
    pub nonce: u64,
    pub call_data: Vec<u8>,
    pub call_gas_limit: u64,
    pub verification_gas_limit: u64,
    pub pre_verification_gas: u64,
    pub max_fee_per_gas: u128,
    pub paymaster: Option<Address>,
    pub paymaster_data: Vec<u8>,
    pub signature: Vec<u8>,
}

/// The paymaster as hashed: a presence byte, then the address if there is one.
pub open spec fn paymaster_field(p: Option<Address>) -> Seq<u8> {
    match p {
        Some(pm) => seq![1u8] + pm.bytes@,
        None => seq![0u8],
    }
}

/// The bytes hashed to identify an operation; the signature is left out.
/// The variable-length fields carry their length (8 bytes, little-endian)
/// and the paymaster a presence byte, so that no two operations that differ
/// outside their signatures share a preimage.
pub open spec fn user_op_preimage(op: UserOperation) -> Seq<u8> {
    op.sender.bytes@ + (le_bytes(op.nonce as nat, 8) + (le_bytes(op.call_data@.len(), 8) + (op.call_data@ + (
    le_bytes(op.call_gas_limit as nat, 8) + (le_bytes(op.verification_gas_limit as nat, 8) + (le_bytes(
        op.pre_verification_gas as nat,
        8,
    ) + (le_bytes(op.max_fee_per_gas as nat, 16) + (paymaster_field(op.paymaster) + (le_bytes(
        op.paymaster_data@.len(),
        8,
    ) + op.paymaster_data@)))))))))
}

/// Equal concatenations whose first parts have equal lengths have equal parts.
proof fn lemma_split<T>(x: Seq<T>, u: Seq<T>, y: Seq<T>, v: Seq<T>)
    requires
        x + u == y + v,
        x.len() == y.len(),
    ensures
        x == y,
        u == v,
{
    assert(x =~= (x + u).subrange(0, x.len() as int));
    assert(y =~= (y + v).subrange(0, y.len() as int));
    assert(u =~= (x + u).subrange(x.len() as int, (x + u).len() as int));
    assert(v =~= (y + v).subrange(y.len() as int, (y + v).len() as int));
}

/// Equal little-endian encodings of numbers that fit are of equal numbers.
proof fn lemma_le_split(x: nat, y: nat, n: nat, u: Seq<u8>, v: Seq<u8>)
    requires
        le_bytes(x, n) + u == le_bytes(y, n) + v,
        x < pow256(n),
        y < pow256(n),
    ensures
        x == y,
        u == v,
{
    lemma_le_roundtrip(x, n);
    lemma_le_roundtrip(y, n);
    lemma_split(le_bytes(x, n), u, le_bytes(y, n), v);
}

/// Equal paymaster fields followed by anything are of equal paymasters.
proof fn lemma_paymaster_split(p: Option<Address>, q: Option<Address>, u: Seq<u8>, v: Seq<u8>)
    requires
        paymaster_field(p) + u == paymaster_field(q) + v,
    ensures
        p == q,
        u == v,
{
    broadcast use vstd::array::group_array_axioms;

    let fp = paymaster_field(p);
    let fq = paymaster_field(q);
    assert((fp + u)[0] == fp[0]);
    assert((fq + v)[0] == fq[0]);
    match (p, q) {
        (Some(a), Some(b)) => {
            lemma_split(fp, u, fq, v);
            assert(a.bytes@ =~= fp.subrange(1, 21));
            assert(b.bytes@ =~= fq.subrange(1, 21));
            assert(a.bytes =~= b.bytes) by {
                assert forall|i: int| 0 <= i < 20 implies a.bytes[i] == b.bytes[i] by {
                    assert(a.bytes@[i] == b.bytes@[i]);
                }
            }
        },
        (None, None) => {
            lemma_split(fp, u, fq, v);
        },
        _ => {},
    }
}

/// `a + b + c`, capped at `u64::MAX`.
pub open spec fn saturating_sum3(a: u64, b: u64, c: u64) -> u64 {
    if a + b + c > u64::MAX {
        u64::MAX
    } else {
        (a + b + c) as u64
    }
}

/// The gas an operation may cost its sponsor: total gas times the fee cap, saturating.
pub open spec fn gas_cost(op: UserOperation) -> u128 {
    let g = saturating_sum3(op.call_gas_limit, op.verification_gas_limit, op.pre_verification_gas);
    if g * op.max_fee_per_gas > u128::MAX {
        u128::MAX
    } else {
        (g * op.max_fee_per_gas) as u128
    }
}

/// The structural error of an operation, if any.
pub open spec fn structure_error(op: UserOperation) -> Option<Seq<char>> {
    if op.call_gas_limit == 0 {
        Some("call_gas_limit must be > 0"@)
    } else if op.verification_gas_limit == 0 {
        Some("verification_gas_limit must be > 0"@)
    } else if op.max_fee_per_gas == 0 {
        Some("max_fee_per_gas must be > 0"@)
    } else if op.signature@.len() == 0 {
        Some("signature must not be empty"@)
    } else {
        None
    }
}

impl UserOperation {
    /// The bytes that are hashed.
    pub fn preimage(&self) -> (b: Vec<u8>)
        ensures
            b@ == user_op_preimage(*self),
    {
        let mut b: Vec<u8> = Vec::new();
        push_all(&mut b, self.sender.bytes.as_slice());
        push_le(&mut b, self.nonce as u128, 8);
        push_len_prefixed(&mut b, self.call_data.as_slice());
        push_le(&mut b, self.call_gas_limit as u128, 8);
        push_le(&mut b, self.verification_gas_limit as u128, 8);
        push_le(&mut b, self.pre_verification_gas as u128, 8);
        push_le(&mut b, self.max_fee_per_gas, 16);
        match &self.paymaster {
            Some(pm) => {
                b.push(1u8);
                push_all(&mut b, pm.bytes.as_slice());
            },
            None => {
                b.push(0u8);
            },
        }
        push_len_prefixed(&mut b, self.paymaster_data.as_slice());
        proof {
            assert(b@ =~= user_op_preimage(*self));
        }
        b
    }

    /// The operation's hash: the SHA-256 digest of its preimage.
    pub fn hash(&self) -> (h: H256)
        ensures
            h.bytes@ == sha256_of(user_op_preimage(*self)),
    {
        let b = self.preimage();
        H256 { bytes: sha256(b.as_slice()) }
    }

    /// The total gas of the operation, saturating at `u64::MAX`.
    pub fn total_gas(&self) -> (g: u64)
        ensures
            g == saturating_sum3(self.call_gas_limit, self.verification_gas_limit, self.pre_verification_gas),
    {
        self.call_gas_limit.saturating_add(self.verification_gas_limit).saturating_add(self.pre_verification_gas)
    }

    /// Check the structural constraints: nonzero gas limits and fee cap, a signature.
    pub fn validate(&self) -> (r: Result<(), String>)
        ensures
            match structure_error(*self) {
                Some(m) => r is Err && r->Err_0@ == m,
                None => r is Ok,
            },
    {
        if self.call_gas_limit == 0 {
            return Err(String::from_str("call_gas_limit must be > 0"));
        }
        if self.verification_gas_limit == 0 {
            return Err(String::from_str("verification_gas_limit must be > 0"));
        }
        if self.max_fee_per_gas == 0 {
            return Err(String::from_str("max_fee_per_gas must be > 0"));
        }
        if self.signature.len() == 0 {
            return Err(String::from_str("signature must not be empty"));
        }
        Ok(())
    }

    /// The sponsor's cost of the operation.
    pub fn gas_cost(&self) -> (c: u128)
        ensures
            c == gas_cost(*self),
    {
        match (self.total_gas() as u128).checked_mul(self.max_fee_per_gas) {
            Some(c) => c,
            None => u128::MAX,
        }
    }
}

/// The operation's preimage, hence its hash, does not depend on its signature.
pub proof fn lemma_hash_ignores_signature(a: UserOperation, b: UserOperation)
    requires
        a.sender == b.sender,
        a.nonce == b.nonce,
        a.call_data@ == b.call_data@,
        a.call_gas_limit == b.call_gas_limit,
        a.verification_gas_limit == b.verification_gas_limit,
        a.pre_verification_gas == b.pre_verification_gas,
        a.max_fee_per_gas == b.max_fee_per_gas,
        a.paymaster == b.paymaster,
        a.paymaster_data@ == b.paymaster_data@,
    ensures
        user_op_preimage(a) == user_op_preimage(b),
{
}

/// Operations that differ only in their nonce have different preimages.
pub proof fn lemma_preimage_distinguishes_nonce(a: UserOperation, b: UserOperation)
    requires
        a.sender == b.sender,
        a.nonce != b.nonce,
    ensures
        user_op_preimage(a) != user_op_preimage(b),
{
    lemma_pow256_8();
    lemma_le_roundtrip(a.nonce as nat, 8);
    lemma_le_roundtrip(b.nonce as nat, 8);
    let pa = user_op_preimage(a);
    let pb = user_op_preimage(b);
    if pa == pb {
        assert(pa.subrange(20, 28) =~= le_bytes(a.nonce as nat, 8));
        assert(pb.subrange(20, 28) =~= le_bytes(b.nonce as nat, 8));
    }
}

/// Operations with the same preimage (hence the same hash) agree on every
/// field except their signatures.
pub proof fn lemma_preimage_injective(a: UserOperation, b: UserOperation)
    requires
        user_op_preimage(a) == user_op_preimage(b),
        a.call_data@.len() <= usize::MAX,
        b.call_data@.len() <= usize::MAX,
        a.paymaster_data@.len() <= usize::MAX,
        b.paymaster_data@.len() <= usize::MAX,
    ensures
        a.sender == b.sender,
        a.nonce == b.nonce,
        a.call_data@ == b.call_data@,
        a.call_gas_limit == b.call_gas_limit,
        a.verification_gas_limit == b.verification_gas_limit,
        a.pre_verification_gas == b.pre_verification_gas,
        a.max_fee_per_gas == b.max_fee_per_gas,
        a.paymaster == b.paymaster,
        a.paymaster_data@ == b.paymaster_data@,
{
    broadcast use vstd::array::group_array_axioms;

    lemma_pow256_8();
    lemma_pow256_16();
    let r8 = le_bytes(a.nonce as nat, 8) + (le_bytes(a.call_data@.len(), 8) + (a.call_data@ + (le_bytes(
        a.call_gas_limit as nat,
        8,
    ) + (le_bytes(a.verification_gas_limit as nat, 8) + (le_bytes(a.pre_verification_gas as nat, 8) + (
    le_bytes(a.max_fee_per_gas as nat, 16) + (paymaster_field(a.paymaster) + (le_bytes(
        a.paymaster_data@.len(),
        8,
    ) + a.paymaster_data@))))))));
    let s8 = le_bytes(b.nonce as nat, 8) + (le_bytes(b.call_data@.len(), 8) + (b.call_data@ + (le_bytes(
        b.call_gas_limit as nat,
        8,
    ) + (le_bytes(b.verification_gas_limit as nat, 8) + (le_bytes(b.pre_verification_gas as nat, 8) + (
    le_bytes(b.max_fee_per_gas as nat, 16) + (paymaster_field(b.paymaster) + (le_bytes(
        b.paymaster_data@.len(),
        8,
    ) + b.paymaster_data@))))))));
    lemma_split(a.sender.bytes@, r8, b.sender.bytes@, s8);
    assert(a.sender.bytes =~= b.sender.bytes) by {
        assert forall|i: int| 0 <= i < 20 implies a.sender.bytes[i] == b.sender.bytes[i] by {
            assert(a.sender.bytes@[i] == b.sender.bytes@[i]);
        }
    }
    let r7 = le_bytes(a.call_data@.len(), 8) + (a.call_data@ + (le_bytes(a.call_gas_limit as nat, 8) + (
    le_bytes(a.verification_gas_limit as nat, 8) + (le_bytes(a.pre_verification_gas as nat, 8) + (le_bytes(
        a.max_fee_per_gas as nat,
        16,
    ) + (paymaster_field(a.paymaster) + (le_bytes(a.paymaster_data@.len(), 8) + a.paymaster_data@)))))));
    let s7 = le_bytes(b.call_data@.len(), 8) + (b.call_data@ + (le_bytes(b.call_gas_limit as nat, 8) + (
    le_bytes(b.verification_gas_limit as nat, 8) + (le_bytes(b.pre_verification_gas as nat, 8) + (le_bytes(
        b.max_fee_per_gas as nat,
        16,
    ) + (paymaster_field(b.paymaster) + (le_bytes(b.paymaster_data@.len(), 8) + b.paymaster_data@)))))));
    lemma_le_split(a.nonce as nat, b.nonce as nat, 8, r7, s7);
    let r6 = a.call_data@ + (le_bytes(a.call_gas_limit as nat, 8) + (le_bytes(a.verification_gas_limit as nat, 8)
        + (le_bytes(a.pre_verification_gas as nat, 8) + (le_bytes(a.max_fee_per_gas as nat, 16) + (
    paymaster_field(a.paymaster) + (le_bytes(a.paymaster_data@.len(), 8) + a.paymaster_data@))))));
    let s6 = b.call_data@ + (le_bytes(b.call_gas_limit as nat, 8) + (le_bytes(b.verification_gas_limit as nat, 8)
        + (le_bytes(b.pre_verification_gas as nat, 8) + (le_bytes(b.max_fee_per_gas as nat, 16) + (
    paymaster_field(b.paymaster) + (le_bytes(b.paymaster_data@.len(), 8) + b.paymaster_data@))))));
    lemma_le_split(a.call_data@.len(), b.call_data@.len(), 8, r6, s6);
    let r5 = le_bytes(a.call_gas_limit as nat, 8) + (le_bytes(a.verification_gas_limit as nat, 8) + (le_bytes(
        a.pre_verification_gas as nat,
        8,
    ) + (le_bytes(a.max_fee_per_gas as nat, 16) + (paymaster_field(a.paymaster) + (le_bytes(
        a.paymaster_data@.len(),
        8,
    ) + a.paymaster_data@)))));
    let s5 = le_bytes(b.call_gas_limit as nat, 8) + (le_bytes(b.verification_gas_limit as nat, 8) + (le_bytes(
        b.pre_verification_gas as nat,
        8,
    ) + (le_bytes(b.max_fee_per_gas as nat, 16) + (paymaster_field(b.paymaster) + (le_bytes(
        b.paymaster_data@.len(),
        8,
    ) + b.paymaster_data@)))));
    lemma_split(a.call_data@, r5, b.call_data@, s5);
    let r4 = le_bytes(a.verification_gas_limit as nat, 8) + (le_bytes(a.pre_verification_gas as nat, 8) + (
    le_bytes(a.max_fee_per_gas as nat, 16) + (paymaster_field(a.paymaster) + (le_bytes(
        a.paymaster_data@.len(),
        8,
    ) + a.paymaster_data@))));
    let s4 = le_bytes(b.verification_gas_limit as nat, 8) + (le_bytes(b.pre_verification_gas as nat, 8) + (
    le_bytes(b.max_fee_per_gas as nat, 16) + (paymaster_field(b.paymaster) + (le_bytes(
        b.paymaster_data@.len(),
        8,
    ) + b.paymaster_data@))));
    lemma_le_split(a.call_gas_limit as nat, b.call_gas_limit as nat, 8, r4, s4);
    let r3 = le_bytes(a.pre_verification_gas as nat, 8) + (le_bytes(a.max_fee_per_gas as nat, 16) + (
    paymaster_field(a.paymaster) + (le_bytes(a.paymaster_data@.len(), 8) + a.paymaster_data@)));
    let s3 = le_bytes(b.pre_verification_gas as nat, 8) + (le_bytes(b.max_fee_per_gas as nat, 16) + (
    paymaster_field(b.paymaster) + (le_bytes(b.paymaster_data@.len(), 8) + b.paymaster_data@)));
    lemma_le_split(a.verification_gas_limit as nat, b.verification_gas_limit as nat, 8, r3, s3);
    let r2 = le_bytes(a.max_fee_per_gas as nat, 16) + (paymaster_field(a.paymaster) + (le_bytes(
        a.paymaster_data@.len(),
        8,
    ) + a.paymaster_data@));
    let s2 = le_bytes(b.max_fee_per_gas as nat, 16) + (paymaster_field(b.paymaster) + (le_bytes(
        b.paymaster_data@.len(),
        8,
    ) + b.paymaster_data@));
    lemma_le_split(a.pre_verification_gas as nat, b.pre_verification_gas as nat, 8, r2, s2);
    let r1 = paymaster_field(a.paymaster) + (le_bytes(a.paymaster_data@.len(), 8) + a.paymaster_data@);
    let s1 = paymaster_field(b.paymaster) + (le_bytes(b.paymaster_data@.len(), 8) + b.paymaster_data@);
    lemma_le_split(a.max_fee_per_gas as nat, b.max_fee_per_gas as nat, 16, r1, s1);
    lemma_paymaster_split(
        a.paymaster,
        b.paymaster,
        le_bytes(a.paymaster_data@.len(), 8) + a.paymaster_data@,
        le_bytes(b.paymaster_data@.len(), 8) + b.paymaster_data@,
    );
    lemma_le_split(a.paymaster_data@.len(), b.paymaster_data@.len(), 8, a.paymaster_data@, b.paymaster_data@);
}

/// The entry point's registries, as plain maps.
pub struct EntryPointView {
    pub accounts: Map<Address, H256>,
    pub paymasters: Map<Address, u128>,
    pub nonces: Map<Address, u64>,
}

/// Validates and executes user operations.
pub struct EntryPoint {
    accounts: KeyMap<Address, H256>,
    paymasters: KeyMap<Address, u128>,
    nonces: KeyMap<Address, u64>,
}

impl View for EntryPoint {
    type V = EntryPointView;

    closed spec fn view(&self) -> EntryPointView {
        EntryPointView { accounts: self.accounts@, paymasters: self.paymasters@, nonces: self.nonces@ }
    }
}

/// The next nonce expected from `sender`.
pub open spec fn nonce_of(nonces: Map<Address, u64>, sender: Address) -> u64 {
    if nonces.contains_key(sender) {
        nonces[sender]
    } else {
        0
    }
}

/// A validation result as plain values.
pub open spec fn check_view(r: Result<(), String>) -> Result<(), Seq<char>> {
    match r {
        Ok(()) => Ok(()),
        Err(m) => Err(m@),
    }
}

/// The outcome of validating `op` at state `ep`, given the account
/// validator's verdict `sig` on its signature (consulted only once the
/// structure and the sender's registration are fine).
pub open spec fn user_op_check(ep: EntryPointView, op: UserOperation, sig: Result<(), Seq<char>>) -> Result<
    (),
    Seq<char>,
> {
    match structure_error(op) {
        Some(m) => Err(m),
        None => if !ep.accounts.contains_key(op.sender) {
            Err("sender 0x"@ + hex_of(op.sender.bytes@) + " is not a registered smart account"@)
        } else {
            match sig {
                Err(m) => Err(m),
                Ok(()) => match op.paymaster {
                    None => Ok(()),
                    Some(pm) => if !ep.paymasters.contains_key(pm) {
                        Err("paymaster not registered"@)
                    } else if ep.paymasters[pm] < gas_cost(op) {
                        Err("paymaster deposit "@ + decimal(ep.paymasters[pm] as nat) + " insufficient for gas cost "@
                            + decimal(gas_cost(op) as nat))
                    } else {
                        Ok(())
                    },
                },
            }
        },
    }
}

/// Whether validation of `op` is decided before the signature is looked at.
pub open spec fn decided_before_signature(ep: EntryPointView, op: UserOperation) -> bool {
    structure_error(op) is Some || !ep.accounts.contains_key(op.sender)
}

/// The result of one operation of a bundle, as plain values (its hash apart).
pub struct OpOutcome {
    pub success: bool,
    pub gas_used: u64,
    pub error: Option<Seq<char>>,
}

/// One operation of a bundle at state `ep`, given its validation result
/// `check`: the next state, and the operation's outcome or the error that
/// aborts the bundle.
pub open spec fn op_step(ep: EntryPointView, op: UserOperation, check: Result<(), Seq<char>>) -> (
    EntryPointView,
    Result<OpOutcome, Seq<char>>,
) {
    match check {
        Err(e) => (ep, Ok(OpOutcome { success: false, gas_used: op.verification_gas_limit, error: Some(e) })),
        Ok(()) => {
            let expected = nonce_of(ep.nonces, op.sender);
            if op.nonce != expected {
                (
                    ep,
                    Ok(
                        OpOutcome {
                            success: false,
                            gas_used: op.verification_gas_limit,
                            error: Some(
                                "invalid nonce: expected "@ + decimal(expected as nat) + ", got "@ + decimal(
                                    op.nonce as nat,
                                ),
                            ),
                        },
                    ),
                )
            } else if expected == u64::MAX {
                (ep, Err("nonce overflow"@))
            } else {
                let ep1 = EntryPointView { nonces: ep.nonces.insert(op.sender, (expected + 1) as u64), ..ep };
                let done = OpOutcome { success: true, gas_used: op.call_gas_limit, error: None };
                match op.paymaster {
                    Some(pm) => if ep1.paymasters.contains_key(pm) {
                        let deposit = ep1.paymasters[pm];
                        let cost = gas_cost(op);
                        if deposit < cost {
                            (
                                ep1,
                                Err(
                                    "insufficient paymaster deposit: have "@ + decimal(deposit as nat) + ", need "@
                                        + decimal(cost as nat),
                                ),
                            )
                        } else {
                            (
                                EntryPointView {
                                    paymasters: ep1.paymasters.insert(pm, (deposit - cost) as u128),
                                    ..ep1
                                },
                                Ok(done),
                            )
                        }
                    } else {
                        (ep1, Ok(done))
                    },
                    None => (ep1, Ok(done)),
                }
            }
        },
    }
}

/// A bundle run from state `ep` with validation results `checks`: the final
/// state, and the outcomes or the error that aborted the bundle.
pub open spec fn ops_run(ep: EntryPointView, ops: Seq<UserOperation>, checks: Seq<Result<(), Seq<char>>>) -> (
    EntryPointView,
    Result<Seq<OpOutcome>, Seq<char>>,
)
    decreases ops.len(),
{
    if ops.len() == 0 || checks.len() != ops.len() {
        (ep, Ok(Seq::empty()))
    } else {
        let (mid, prior) = ops_run(ep, ops.drop_last(), checks.drop_last());
        match prior {
            Err(e) => (mid, Err(e)),
            Ok(outs) => {
                let (next, out) = op_step(mid, ops.last(), checks.last());
                match out {
                    Err(e) => (next, Err(e)),
                    Ok(o) => (next, Ok(outs.push(o))),
                }
            },
        }
    }
}

/// Each validation result of `checks` is one that validation can give at the
/// state where its operation runs, for some verdict of the account validator.
pub open spec fn checks_possible<V: AccountValidator>(
    v: V,
    ep: EntryPointView,
    ops: Seq<UserOperation>,
    checks: Seq<Result<(), Seq<char>>>,
) -> bool
    decreases ops.len(),
{
    if checks.len() != ops.len() {
        false
    } else if ops.len() == 0 {
        true
    } else {
        let (mid, prior) = ops_run(ep, ops.drop_last(), checks.drop_last());
        &&& checks_possible(v, ep, ops.drop_last(), checks.drop_last())
        &&& (prior is Ok ==> exists|sig: Result<(), Seq<char>>|
            checks.last() == #[trigger] user_op_check(mid, ops.last(), sig))
        &&& (prior is Ok && !decided_before_signature(mid, ops.last()) ==> exists|sig: Result<(), Seq<char>>|
            #[trigger] signature_answer(v, ops.last(), sig) && checks.last() == user_op_check(mid, ops.last(), sig))
    }
}

/// The result of executing one user operation.
#[derive(Debug, Clone)]
pub struct UserOpResult {
    pub op_hash: H256,
    pub success: bool,
    pub gas_used: u64,
    pub error: Option<String>,
}

/// The outcome part of a result.
pub open spec fn outcome_of(r: UserOpResult) -> OpOutcome {
    OpOutcome {
        success: r.success,
        gas_used: r.gas_used,
        error: match r.error {
            Some(m) => Some(m@),
            None => None,
        },
    }
}

/// Append a decimal numeral to a message.
fn push_u128(s: &mut String, x: u128)
    ensures
        final(s)@ == old(s)@ + decimal(x as nat),
{
    crate::text::push_decimal(s, x);
}

impl EntryPoint {
    /// An entry point with nothing registered.
    pub fn new() -> (ep: Self)
        ensures
            ep@.accounts == Map::<Address, H256>::empty(),
            ep@.paymasters == Map::<Address, u128>::empty(),
            ep@.nonces == Map::<Address, u64>::empty(),
    {
        EntryPoint { accounts: KeyMap::new(), paymasters: KeyMap::new(), nonces: KeyMap::new() }
    }

    /// Register a smart account with the hash of its validation code.
    pub fn register_account(&mut self, address: Address, code_hash: H256)
        ensures
            final(self)@.accounts == old(self)@.accounts.insert(address, code_hash),
            final(self)@.paymasters == old(self)@.paymasters,
            final(self)@.nonces == old(self)@.nonces,
    {
        self.accounts.insert(address, code_hash);
    }

    /// Register a paymaster with its deposit.
    pub fn register_paymaster(&mut self, address: Address, deposit: u128)
        ensures
            final(self)@.paymasters == old(self)@.paymasters.insert(address, deposit),
            final(self)@.accounts == old(self)@.accounts,
            final(self)@.nonces == old(self)@.nonces,
    {
        self.paymasters.insert(address, deposit);
    }

    /// The validation error decided before the signature is looked at, if any.
    fn precheck(&self, op: &UserOperation) -> (r: Option<String>)
        ensures
            r is Some <==> decided_before_signature(self@, *op),
            forall|sig: Result<(), Seq<char>>|
                r is Some ==> #[trigger] user_op_check(self@, *op, sig) == Err::<(), Seq<char>>(r->0@),
    {
        match op.validate() {
            Err(m) => return Some(m),
            Ok(()) => {},
        }
        if !self.accounts.contains_key(&op.sender) {
            let mut m = String::from_str("sender 0x");
            let hex = crate::bytes::hex_encode(op.sender.bytes.as_slice());
            m.append(hex.as_str());
            m.append(" is not a registered smart account");
            return Some(m);
        }
        None
    }

    /// Validate `op` given the account validator's verdict `sig` on its signature.
    pub fn check_user_op(&self, op: &UserOperation, sig: Result<(), String>) -> (r: Result<(), String>)
        ensures
            check_view(r) == user_op_check(self@, *op, check_view(sig)),
    {
        match self.precheck(op) {
            Some(m) => return Err(m),
            None => {},
        }
        match sig {
            Err(m) => return Err(m),
            Ok(()) => {},
        }
        match &op.paymaster {
            None => Ok(()),
            Some(pm) => {
                let deposit = match self.paymasters.get(pm) {
                    Some(d) => *d,
                    None => return Err(String::from_str("paymaster not registered")),
                };
                let cost = op.gas_cost();
                if deposit < cost {
                    let mut m = String::from_str("paymaster deposit ");
                    push_u128(&mut m, deposit);
                    m.append(" insufficient for gas cost ");
                    push_u128(&mut m, cost);
                    return Err(m);
                }
                Ok(())
            },
        }
    }

    /// Validate `op`: its structure, its sender's registration, its signature
    /// (by `validator`, given the operation's hash) and its sponsor's deposit.
    pub fn validate_user_op<V: AccountValidator>(&self, op: &UserOperation, validator: &V) -> (r: Result<(), String>)
        ensures
            exists|sig: Result<(), Seq<char>>| check_view(r) == #[trigger] user_op_check(self@, *op, sig),
            !decided_before_signature(self@, *op) ==> exists|sig: Result<(), Seq<char>>|
                #[trigger] signature_answer(*validator, *op, sig) && check_view(r) == user_op_check(self@, *op, sig),
            decided_before_signature(self@, *op) ==> forall|sig: Result<(), Seq<char>>|
                check_view(r) == #[trigger] user_op_check(self@, *op, sig),
    {
        match self.precheck(op) {
            Some(m) => {
                let r: Result<(), String> = Err(m);
                proof {
                    assert(check_view(r) == user_op_check(self@, *op, Ok(())));
                }
                return r;
            },
            None => {},
        }
        let op_hash = op.hash();
        let sig = validator.validate_signature(&op.sender, &op_hash, op.signature.as_slice());
        let ghost s = check_view(sig);
        let r = self.check_user_op(op, sig);
        proof {
            assert(check_view(r) == user_op_check(self@, *op, s));
            assert(signature_answer(*validator, *op, s));
        }
        r
    }

    /// Run one operation of a bundle whose validation gave `check`.
    pub fn handle_op(&mut self, op: &UserOperation, check: Result<(), String>) -> (r: Result<UserOpResult, String>)
        ensures
            ({
                let (next, out) = op_step(old(self)@, *op, check_view(check));
                &&& final(self)@ == next
                &&& match out {
                    Ok(o) => r is Ok && outcome_of(r->Ok_0) == o && r->Ok_0.op_hash.bytes@ == sha256_of(
                        user_op_preimage(*op),
                    ),
                    Err(e) => r is Err && r->Err_0@ == e,
                }
            }),
    {
        match check {
            Err(e) => {
                return Ok(
                    UserOpResult {
                        op_hash: op.hash(),
                        success: false,
                        gas_used: op.verification_gas_limit,
                        error: Some(e),
                    },
                );
            },
            Ok(()) => {},
        }
        let expected = match self.nonces.get(&op.sender) {
            Some(n) => *n,
            None => 0,
        };
        if op.nonce != expected {
            let mut m = String::from_str("invalid nonce: expected ");
            push_u128(&mut m, expected as u128);
            m.append(", got ");
            push_u128(&mut m, op.nonce as u128);
            return Ok(
                UserOpResult {
                    op_hash: op.hash(),
                    success: false,
                    gas_used: op.verification_gas_limit,
                    error: Some(m),
                },
            );
        }
        let next = match expected.checked_add(1) {
            Some(n) => n,
            None => return Err(String::from_str("nonce overflow")),
        };
        self.nonces.insert(op.sender, next);
        match &op.paymaster {
            Some(pm) => {
                match self.paymasters.get(pm) {
                    Some(d) => {
                        let deposit = *d;
                        let cost = op.gas_cost();
                        if deposit < cost {
                            let mut m = String::from_str("insufficient paymaster deposit: have ");
                            push_u128(&mut m, deposit);
                            m.append(", need ");
                            push_u128(&mut m, cost);
                            return Err(m);
                        }
                        self.paymasters.insert(*pm, deposit - cost);
                    },
                    None => {},
                }
            },
            None => {},
        }
        Ok(UserOpResult { op_hash: op.hash(), success: true, gas_used: op.call_gas_limit, error: None })
    }

    /// Run a bundle: validate each operation with `validator`, check and bump
    /// its sender's nonce, charge its sponsor.  Invalid operations are
    /// reported and passed over; a nonce overflow or an underfunded sponsor
    /// aborts the bundle.
    pub fn handle_ops<V: AccountValidator>(&mut self, ops: &[UserOperation], validator: &V) -> (r: Result<
        Vec<UserOpResult>,
        String,
    >)
        ensures
            exists|checks: Seq<Result<(), Seq<char>>>|
                #![trigger ops_run(old(self)@, ops@, checks)]
                {
                    &&& checks_possible(*validator, old(self)@, ops@, checks)
                    &&& final(self)@ == ops_run(old(self)@, ops@, checks).0
                    &&& match ops_run(old(self)@, ops@, checks).1 {
                        Ok(outs) => r is Ok && r->Ok_0@.len() == ops@.len() && forall|i: int|
                            0 <= i < ops@.len() ==> outcome_of(#[trigger] r->Ok_0@[i]) == outs[i]
                                && r->Ok_0@[i].op_hash.bytes@ == sha256_of(user_op_preimage(ops@[i])),
                        Err(e) => r is Err && r->Err_0@ == e,
                    }
                },
    {
        let ghost start = self@;
        let ghost mut checks: Seq<Result<(), Seq<char>>> = Seq::empty();
        let mut results: Vec<UserOpResult> = Vec::new();
        let mut i: usize = 0;
        proof {
            assert(ops@.subrange(0, 0) =~= Seq::<UserOperation>::empty());
            assert(results@.map_values(|x: UserOpResult| outcome_of(x)) =~= Seq::<OpOutcome>::empty());
        }
        while i < ops.len()
            invariant
                start == old(self)@,
                i <= ops@.len(),
                checks.len() == i,
                checks_possible(*validator, start, ops@.subrange(0, i as int), checks),
                ops_run(start, ops@.subrange(0, i as int), checks) == (self@, Ok::<Seq<OpOutcome>, Seq<char>>(
                    results@.map_values(|x: UserOpResult| outcome_of(x)),
                )),
                results@.len() == i,
                forall|k: int|
                    0 <= k < i ==> (#[trigger] results@[k]).op_hash.bytes@ == sha256_of(user_op_preimage(ops@[k])),
            decreases ops@.len() - i,
        {
            let op = &ops[i];
            let ghost before = self@;
            let ghost outs_before = results@.map_values(|x: UserOpResult| outcome_of(x));
            let check = self.validate_user_op(op, validator);
            let ghost c = check_view(check);
            let ghost prefix = ops@.subrange(0, i as int);
            let ghost next_prefix = ops@.subrange(0, i + 1);
            proof {
                let old_checks = checks;
                checks = checks.push(c);
                assert(checks.drop_last() =~= old_checks);
                assert(next_prefix.drop_last() =~= prefix);
                assert(next_prefix.last() == *op);
                assert(checks.last() == c);
            }
            let step = self.handle_op(op, check);
            match step {
                Ok(res) => {
                    results.push(res);
                    proof {
                        assert(results@.map_values(|x: UserOpResult| outcome_of(x)) =~= outs_before.push(
                            outcome_of(res),
                        ));
                    }
                },
                Err(e) => {
                    let r: Result<Vec<UserOpResult>, String> = Err(e);
                    let ghost n = ops@.len() as int;
                    let ghost full = checks + Seq::new((n - (i + 1)) as nat, |j: int| Ok::<(), Seq<char>>(()));
                    proof {
                        assert(ops_run(start, next_prefix, checks) == (self@, Err::<Seq<OpOutcome>, Seq<char>>(r->Err_0@)));
                        lemma_run_stops(*validator, start, ops@, checks, i + 1, n);
                        assert(ops@.subrange(0, n) =~= ops@);
                        assert(ops_run(start, ops@, full) == ops_run(start, next_prefix, checks));
                        assert(old(self)@ == start);
                        assert({
                            &&& checks_possible(*validator, old(self)@, ops@, full)
                            &&& self@ == ops_run(old(self)@, ops@, full).0
                            &&& match ops_run(old(self)@, ops@, full).1 {
                                Ok(outs) => r is Ok && r->Ok_0@.len() == ops@.len() && forall|i: int|
                                    0 <= i < ops@.len() ==> outcome_of(#[trigger] r->Ok_0@[i]) == outs[i]
                                        && r->Ok_0@[i].op_hash.bytes@ == sha256_of(user_op_preimage(ops@[i])),
                                Err(e) => r is Err && r->Err_0@ == e,
                            }
                        });
                    }
                    return r;
                },
            }
            i = i + 1;
        }
        proof {
            assert(ops@.subrange(0, ops@.len() as int) =~= ops@);
            assert(ops_run(start, ops@, checks).1 == Ok::<Seq<OpOutcome>, Seq<char>>(
                results@.map_values(|x: UserOpResult| outcome_of(x)),
            ));
        }
        Ok(results)
    }
}

/// Once a bundle has aborted, later operations change nothing, whatever
/// their validation results.
proof fn lemma_run_stops<V: AccountValidator>(
    v: V,
    ep: EntryPointView,
    ops: Seq<UserOperation>,
    checks: Seq<Result<(), Seq<char>>>,
    k: int,
    m: int,
)
    requires
        0 <= k <= m <= ops.len(),
        checks.len() == k,
        ops_run(ep, ops.subrange(0, k), checks).1 is Err,
        checks_possible(v, ep, ops.subrange(0, k), checks),
    ensures
        ({
            let full = checks + Seq::new((m - k) as nat, |j: int| Ok::<(), Seq<char>>(()));
            &&& checks_possible(v, ep, ops.subrange(0, m), full)
            &&& ops_run(ep, ops.subrange(0, m), full) == ops_run(ep, ops.subrange(0, k), checks)
        }),
    decreases m - k,
{
    let full = checks + Seq::new((m - k) as nat, |j: int| Ok::<(), Seq<char>>(()));
    if m == k {
        assert(full =~= checks);
    } else {
        lemma_run_stops(v, ep, ops, checks, k, m - 1);
        let shorter = checks + Seq::new((m - 1 - k) as nat, |j: int| Ok::<(), Seq<char>>(()));
        assert(full.drop_last() =~= shorter);
        assert(ops.subrange(0, m).drop_last() =~= ops.subrange(0, m - 1));
    }
}

/// An operation that passes validation and carries its sender's expected
/// nonce succeeds and advances that nonce by one (without a sponsor, or
/// with a sufficiently funded one).
pub proof fn lemma_nonce_advances(ep: EntryPointView, op: UserOperation)
    requires
        op.nonce == nonce_of(ep.nonces, op.sender),
        op.nonce < u64::MAX,
        op.paymaster is Some ==> (ep.paymasters.contains_key(op.paymaster->0) ==> ep.paymasters[op.paymaster->0]
            >= gas_cost(op)),
    ensures
        op_step(ep, op, Ok(())).1 is Ok,
        op_step(ep, op, Ok(())).1->Ok_0.success,
        nonce_of(op_step(ep, op, Ok(())).0.nonces, op.sender) == op.nonce + 1,
{
}

/// Replaying an operation that succeeded fails: the sender's nonce has moved on.
pub proof fn lemma_replay_rejected(ep: EntryPointView, op: UserOperation, again: Result<(), Seq<char>>)
    requires
        op_step(ep, op, Ok(())).1 is Ok,
        op_step(ep, op, Ok(())).1->Ok_0.success,
    ensures
        op_step(op_step(ep, op, Ok(())).0, op, again).1 is Ok,
        !op_step(op_step(ep, op, Ok(())).0, op, again).1->Ok_0.success,
{
}

/// Resubmitting an operation that succeeded in one bundle, in a later
/// bundle from the state the first left, never succeeds: whatever its
/// validation gives, the sender's nonce has moved on (the outcome reports
/// the nonce, or the validation error).
pub proof fn lemma_bundle_replay_rejected(
    ep: EntryPointView,
    op: UserOperation,
    first: Result<(), Seq<char>>,
    again: Result<(), Seq<char>>,
)
    requires
        ops_run(ep, seq![op], seq![first]).1 is Ok,
        ops_run(ep, seq![op], seq![first]).1->Ok_0[0].success,
    ensures
        ({
            let next = ops_run(ep, seq![op], seq![first]).0;
            let replay = ops_run(next, seq![op], seq![again]).1;
            &&& replay is Ok
            &&& !replay->Ok_0[0].success
            &&& again is Ok ==> replay->Ok_0[0].error == Some(
                "invalid nonce: expected "@ + decimal(op.nonce as nat + 1) + ", got "@ + decimal(op.nonce as nat),
            )
        }),
{
    reveal_with_fuel(ops_run, 2);
    assert(seq![op].drop_last() =~= Seq::<UserOperation>::empty());
    assert(seq![first].drop_last() =~= Seq::<Result<(), Seq<char>>>::empty());
    assert(seq![again].drop_last() =~= Seq::<Result<(), Seq<char>>>::empty());
    assert(first is Ok);
    let next = op_step(ep, op, first).0;
    assert(nonce_of(next.nonces, op.sender) == op.nonce + 1);
}

/// A bundle whose run did not abort passed through each of its prefixes
/// without aborting, with the outcomes of the whole run's start.
proof fn lemma_run_prefix(
    ep: EntryPointView,
    ops: Seq<UserOperation>,
    checks: Seq<Result<(), Seq<char>>>,
    k: int,
)
    requires
        checks.len() == ops.len(),
        0 <= k <= ops.len(),
        ops_run(ep, ops, checks).1 is Ok,
    ensures
        ops_run(ep, ops.take(k), checks.take(k)).1 is Ok,
        ops_run(ep, ops.take(k), checks.take(k)).1->Ok_0 == ops_run(ep, ops, checks).1->Ok_0.take(k),
        ops_run(ep, ops, checks).1->Ok_0.len() == ops.len(),
    decreases ops.len() - k,
{
    lemma_run_len(ep, ops, checks);
    if k == ops.len() {
        assert(ops.take(k) =~= ops);
        assert(checks.take(k) =~= checks);
        assert(ops_run(ep, ops, checks).1->Ok_0.take(k) =~= ops_run(ep, ops, checks).1->Ok_0);
    } else {
        lemma_run_prefix(ep, ops, checks, k + 1);
        assert(ops.take(k + 1).drop_last() =~= ops.take(k));
        assert(checks.take(k + 1).drop_last() =~= checks.take(k));
        let full = ops_run(ep, ops, checks).1->Ok_0;
        assert(full.take(k + 1).take(k) =~= full.take(k));
        lemma_run_len(ep, ops.take(k), checks.take(k));
        assert(ops_run(ep, ops.take(k + 1), checks.take(k + 1)).1->Ok_0.drop_last() =~= ops_run(
            ep,
            ops.take(k),
            checks.take(k),
        ).1->Ok_0);
        assert(full.take(k + 1).drop_last() =~= full.take(k));
    }
}

/// A run that does not abort has one outcome per operation.
proof fn lemma_run_len(ep: EntryPointView, ops: Seq<UserOperation>, checks: Seq<Result<(), Seq<char>>>)
    ensures
        checks.len() == ops.len() && ops_run(ep, ops, checks).1 is Ok ==> ops_run(ep, ops, checks).1->Ok_0.len()
            == ops.len(),
    decreases ops.len(),
{
    if ops.len() > 0 && checks.len() == ops.len() {
        lemma_run_len(ep, ops.drop_last(), checks.drop_last());
    }
}

/// The law of the `i`-th operation of a bundle that did not abort: it
/// succeeds exactly when its validation passed and it carries its sender's
/// nonce at that point.  A success advances that nonce by one and, with a
/// registered sponsor, lowers the sponsor's deposit by the operation's gas
/// cost; a failure changes nothing.
pub open spec fn bundle_step_law(
    ep: EntryPointView,
    ops: Seq<UserOperation>,
    checks: Seq<Result<(), Seq<char>>>,
    i: int,
) -> bool {
    let before = ops_run(ep, ops.take(i), checks.take(i)).0;
    let after = ops_run(ep, ops.take(i + 1), checks.take(i + 1)).0;
    let op = ops[i];
    let o = ops_run(ep, ops, checks).1->Ok_0[i];
    &&& o.success == (checks[i] is Ok && op.nonce == nonce_of(before.nonces, op.sender))
    &&& o.success ==> nonce_of(after.nonces, op.sender) == op.nonce + 1 && after.accounts == before.accounts
    &&& o.success && op.paymaster is Some && before.paymasters.contains_key(op.paymaster->Some_0)
        ==> before.paymasters[op.paymaster->Some_0] >= gas_cost(op) && after.paymasters
        == before.paymasters.insert(
        op.paymaster->Some_0,
        (before.paymasters[op.paymaster->Some_0] - gas_cost(op)) as u128,
    )
    &&& !o.success ==> after == before
}

/// The bundle law: operations run left to right, and each one obeys
/// [`bundle_step_law`] at the state the operations before it left.
pub proof fn lemma_bundle_outcomes(ep: EntryPointView, ops: Seq<UserOperation>, checks: Seq<Result<(), Seq<char>>>)
    requires
        checks.len() == ops.len(),
        ops_run(ep, ops, checks).1 is Ok,
    ensures
        ops_run(ep, ops, checks).1->Ok_0.len() == ops.len(),
        forall|i: int| 0 <= i < ops.len() ==> #[trigger] bundle_step_law(ep, ops, checks, i),
{
    lemma_run_len(ep, ops, checks);
    assert forall|i: int| 0 <= i < ops.len() implies #[trigger] bundle_step_law(ep, ops, checks, i) by {
        lemma_run_prefix(ep, ops, checks, i + 1);
        lemma_run_prefix(ep, ops, checks, i);
        assert(ops.take(i + 1).drop_last() =~= ops.take(i));
        assert(checks.take(i + 1).drop_last() =~= checks.take(i));
        assert(ops.take(i + 1).last() == ops[i]);
        assert(checks.take(i + 1).last() == checks[i]);
        let full = ops_run(ep, ops, checks).1->Ok_0;
        assert(full.take(i + 1)[i] == full[i]);
    }
}

impl Default for EntryPoint {
    fn default() -> (ep: Self)
        ensures
            ep@.accounts == Map::<Address, H256>::empty(),
            ep@.paymasters == Map::<Address, u128>::empty(),
            ep@.nonces == Map::<Address, u64>::empty(),
    {
        Self::new()
    }
}

} // verus!
