//! Persistent-state storage: column families, write batches and what a batch
//! does to a store, and the selection of entries that pruning removes.
use vstd::prelude::*;

use crate::text::{digits_value, parse_decimal_spec};
use vstd::slice::slice_to_vec;
use vstd::string::StringExecFns;

verus! {

pub const CF_ACCOUNTS: &'static str = "accounts";

pub const CF_UTXOS: &'static str = "utxos";

pub const CF_MERKLE: &'static str = "merkle_nodes";

pub const CF_BLOCKS: &'static str = "blocks";

pub const CF_RECEIPTS: &'static str = "receipts";

pub const CF_METADATA: &'static str = "metadata";

/// Spent UTXOs by slot; keys are an 8-byte big-endian slot then the UTXO id.
pub const CF_SPENT_UTXOS: &'static str = "spent_utxos";

/// The persisted staking state.
pub const CF_STAKING: &'static str = "staking";

/// One write of a batch.
#[derive(Debug)]
pub enum BatchOperation {
    Put { cf: String, key: Vec<u8>, value: Vec<u8> },
    Delete { cf: String, key: Vec<u8> },
}

/// A batch write, as plain values.
pub enum BatchOp {
    Put { cf: Seq<char>, key: Seq<u8>, value: Seq<u8> },
    Delete { cf: Seq<char>, key: Seq<u8> },
}

impl View for BatchOperation {
    type V = BatchOp;

    open spec fn view(&self) -> BatchOp {
        match self {
            BatchOperation::Put { cf, key, value } => BatchOp::Put { cf: cf@, key: key@, value: value@ },
            BatchOperation::Delete { cf, key } => BatchOp::Delete { cf: cf@, key: key@ },
        }
    }
}

/// A store: (column family, key) mapped to a value.
pub type StoreView = Map<(Seq<char>, Seq<u8>), Seq<u8>>;

/// The store after one write.
pub open spec fn apply_op(db: StoreView, op: BatchOp) -> StoreView {
    match op {
        BatchOp::Put { cf, key, value } => db.insert((cf, key), value),
        BatchOp::Delete { cf, key } => db.remove((cf, key)),
    }
}

/// The store after the writes of `ops`, in order.
pub open spec fn apply_ops(db: StoreView, ops: Seq<BatchOp>) -> StoreView
    decreases ops.len(),
{
    if ops.len() == 0 {
        db
    } else {
        apply_op(apply_ops(db, ops.drop_last()), ops.last())
    }
}

/// Applying two batches one after the other is applying their concatenation.
pub proof fn lemma_apply_concat(db: StoreView, a: Seq<BatchOp>, b: Seq<BatchOp>)
    ensures
        apply_ops(db, a + b) == apply_ops(apply_ops(db, a), b),
    decreases b.len(),
{
    if b.len() == 0 {
        assert(a + b =~= a);
    } else {
        lemma_apply_concat(db, a, b.drop_last());
        assert((a + b).drop_last() =~= a + b.drop_last());
        assert((a + b).last() == b.last());
    }
}

/// After a batch, a key holds the value of the batch's last write to it, or
/// what it held before when the batch does not write it.
pub proof fn lemma_apply_last_write(db: StoreView, ops: Seq<BatchOp>, cf: Seq<char>, key: Seq<u8>, value: Seq<u8>)
    requires
        ops.len() > 0,
        ops.last() == (BatchOp::Put { cf, key, value }),
    ensures
        apply_ops(db, ops).contains_key((cf, key)),
        apply_ops(db, ops)[(cf, key)] == value,
{
}

/// A set of writes committed together.
#[derive(Debug)]
pub struct StorageBatch {
    operations: Vec<BatchOperation>,
}

impl View for StorageBatch {
    type V = Seq<BatchOp>;

    closed spec fn view(&self) -> Seq<BatchOp> {
        self.operations@.map_values(|o: BatchOperation| o@)
    }
}

impl StorageBatch {
    /// An empty batch.
    pub fn new() -> (b: Self)
        ensures
            b@ == Seq::<BatchOp>::empty(),
    {
        let b = StorageBatch { operations: Vec::new() };
        proof {
            assert(b@ =~= Seq::<BatchOp>::empty());
        }
        b
    }

    /// Add a write of `value` under `key` in column family `cf`.
    pub fn put(&mut self, cf: &str, key: Vec<u8>, value: Vec<u8>)
        ensures
            final(self)@ == old(self)@.push(BatchOp::Put { cf: cf@, key: key@, value: value@ }),
    {
        self.operations.push(BatchOperation::Put { cf: String::from_str(cf), key, value });
        proof {
            assert(self@ =~= old(self)@.push(BatchOp::Put { cf: cf@, key: key@, value: value@ }));
        }
    }

    /// Add a deletion of `key` in column family `cf`.
    pub fn delete(&mut self, cf: &str, key: Vec<u8>)
        ensures
            final(self)@ == old(self)@.push(BatchOp::Delete { cf: cf@, key: key@ }),
    {
        self.operations.push(BatchOperation::Delete { cf: String::from_str(cf), key });
        proof {
            assert(self@ =~= old(self)@.push(BatchOp::Delete { cf: cf@, key: key@ }));
        }
    }

    /// Append all writes of `other`, after this batch's own.
    pub fn extend(&mut self, other: StorageBatch)
        ensures
            final(self)@ == old(self)@ + other@,
    {
        let ghost appended = other@;
        let mut other = other;
        self.operations.append(&mut other.operations);
        proof {
            assert(self@ =~= old(self)@ + appended);
        }
    }

    /// The number of writes.
    pub fn len(&self) -> (n: usize)
        ensures
            n == self@.len(),
    {
        self.operations.len()
    }

    /// The writes, in order.
    pub fn operations(&self) -> (ops: &Vec<BatchOperation>)
        ensures
            ops@.map_values(|o: BatchOperation| o@) == self@,
    {
        &self.operations
    }
}

impl Default for StorageBatch {
    fn default() -> (b: Self)
        ensures
            b@ == Seq::<BatchOp>::empty(),
    {
        Self::new()
    }
}

/// The number whose big-endian bytes are `s`.
pub open spec fn be_value(s: Seq<u8>) -> nat
    decreases s.len(),
{
    if s.len() == 0 {
        0
    } else {
        be_value(s.drop_last()) * 256 + s.last() as nat
    }
}

/// The big-endian bytes of a number are below `256^len`.
proof fn lemma_be_value_bound(s: Seq<u8>)
    ensures
        be_value(s) < crate::bytes::pow256(s.len()),
    decreases s.len(),
{
    if s.len() > 0 {
        lemma_be_value_bound(s.drop_last());
        assert(be_value(s.drop_last()) * 256 + 255 < crate::bytes::pow256(s.len())) by (nonlinear_arith)
            requires
                be_value(s.drop_last()) < crate::bytes::pow256((s.len() - 1) as nat),
                crate::bytes::pow256(s.len()) == 256 * crate::bytes::pow256((s.len() - 1) as nat),
        ;
    }
}

/// The value of eight big-endian bytes.
pub fn be_u64(b: &[u8]) -> (x: u64)
    requires
        b@.len() == 8,
    ensures
        x == be_value(b@),
{
    let mut acc: u64 = 0;
    let mut i: usize = 0;
    proof {
        assert(b@.subrange(0, 0) =~= Seq::<u8>::empty());
    }
    while i < 8
        invariant
            b@.len() == 8,
            i <= 8,
            acc == be_value(b@.subrange(0, i as int)),
        decreases 8 - i,
    {
        proof {
            let s = b@.subrange(0, i + 1);
            assert(s.drop_last() =~= b@.subrange(0, i as int));
            lemma_be_value_bound(s);
            crate::bytes::lemma_pow_monotone(s.len(), 8);
            crate::bytes::lemma_pow256_8();
        }
        acc = acc * 256 + b[i] as u64;
        i = i + 1;
    }
    proof {
        assert(b@.subrange(0, 8) =~= b@);
    }
    acc
}

/// The slot of a spent-UTXO key: its first eight bytes, big-endian.
pub open spec fn spent_key_slot(k: Seq<u8>) -> nat {
    be_value(k.subrange(0, 8))
}

/// The spent-UTXO keys to prune below `min_slot`, scanning `keys` in order:
/// keys shorter than eight bytes are passed over, and the scan stops at the
/// first key whose slot is `min_slot` or later.
pub open spec fn spent_prune_plan(keys: Seq<Seq<u8>>, min_slot: u64) -> Seq<Seq<u8>>
    decreases keys.len(),
{
    if keys.len() == 0 {
        Seq::empty()
    } else if keys[0].len() < 8 {
        spent_prune_plan(keys.drop_first(), min_slot)
    } else if spent_key_slot(keys[0]) >= min_slot {
        Seq::empty()
    } else {
        seq![keys[0]] + spent_prune_plan(keys.drop_first(), min_slot)
    }
}

/// The deletions of `keys` from column family `cf`.
pub open spec fn deletions(cf: Seq<char>, keys: Seq<Seq<u8>>) -> Seq<BatchOp> {
    keys.map_values(|k: Seq<u8>| BatchOp::Delete { cf, key: k })
}

/// The batch deleting the spent-UTXO records below `min_slot`, from the keys
/// of that column family in ascending order, and how many it deletes.
pub fn plan_spent_utxo_pruning(keys: &[Vec<u8>], min_slot: u64) -> (r: (StorageBatch, u64))
    ensures
        r.0@ == deletions(CF_SPENT_UTXOS@, spent_prune_plan(keys@.map_values(|k: Vec<u8>| k@), min_slot)),
        r.1 == spent_prune_plan(keys@.map_values(|k: Vec<u8>| k@), min_slot).len(),
{
    let ghost all = keys@.map_values(|k: Vec<u8>| k@);
    let mut batch = StorageBatch::new();
    let mut count: u64 = 0;
    let ghost mut planned: Seq<Seq<u8>> = Seq::empty();
    let mut i: usize = 0;
    proof {
        assert(all.skip(0) =~= all);
        assert(Seq::<Seq<u8>>::empty() + all =~= all);
        assert(batch@ =~= deletions(CF_SPENT_UTXOS@, planned));
    }
    while i < keys.len()
        invariant_except_break
            i <= keys@.len(),
            all == keys@.map_values(|k: Vec<u8>| k@),
            spent_prune_plan(all, min_slot) == planned + spent_prune_plan(all.skip(i as int), min_slot),
            batch@ == deletions(CF_SPENT_UTXOS@, planned),
            count == planned.len(),
            planned.len() <= i,
        ensures
            all == keys@.map_values(|k: Vec<u8>| k@),
            spent_prune_plan(all, min_slot) == planned,
            batch@ == deletions(CF_SPENT_UTXOS@, planned),
            count == planned.len(),
        decreases keys@.len() - i,
    {
        let key = &keys[i];
        proof {
            assert(all.skip(i as int).drop_first() =~= all.skip(i + 1));
            assert(all.skip(i as int)[0] == key@);
        }
        if key.len() >= 8 {
            let slot = be_u64(vstd::slice::slice_subrange(key.as_slice(), 0, 8));
            if slot >= min_slot {
                proof {
                    assert(planned + Seq::<Seq<u8>>::empty() =~= planned);
                }
                break;
            }
            batch.delete(CF_SPENT_UTXOS, slice_to_vec(key.as_slice()));
            proof {
                assert(planned + spent_prune_plan(all.skip(i as int), min_slot) =~= planned.push(key@)
                    + spent_prune_plan(all.skip(i + 1), min_slot));
                planned = planned.push(key@);
                assert(deletions(CF_SPENT_UTXOS@, planned) =~= deletions(CF_SPENT_UTXOS@, planned.drop_last()).push(
                    BatchOp::Delete { cf: CF_SPENT_UTXOS@, key: key@ },
                ));
            }
            count = count + 1;
        }
        i = i + 1;
    }
    proof {
        if i == keys@.len() {
            assert(all.skip(i as int) =~= Seq::<Seq<u8>>::empty());
            assert(planned + Seq::<Seq<u8>>::empty() =~= planned);
        }
    }
    (batch, count)
}

/// The slot of a block-index key `slot:N` (as bytes), parsed as a `u64`.
pub open spec fn slot_key_spec(key: Seq<u8>) -> Option<u64> {
    let prefix = seq!['s' as u8, 'l' as u8, 'o' as u8, 't' as u8, ':' as u8];
    if key.len() >= 5 && key.subrange(0, 5) == prefix {
        parse_decimal_spec(key.subrange(5, key.len() as int).map_values(|b: u8| b as char), u64::MAX)
    } else {
        None
    }
}

/// The slot named by a block-index key `slot:N`, or `None` for any other key.
pub fn parse_slot_key(key: &[u8]) -> (r: Option<u64>)
    ensures
        r == slot_key_spec(key@),
{
    let n = key.len();
    if n < 5 || key[0] != 115 || key[1] != 108 || key[2] != 111 || key[3] != 116 || key[4] != 58 {
        proof {
            if n >= 5 {
                let prefix = seq!['s' as u8, 'l' as u8, 'o' as u8, 't' as u8, ':' as u8];
                assert(key@.subrange(0, 5) != prefix) by {
                    if key@.subrange(0, 5) == prefix {
                        assert(key@.subrange(0, 5)[0] == key@[0]);
                        assert(key@.subrange(0, 5)[1] == key@[1]);
                        assert(key@.subrange(0, 5)[2] == key@[2]);
                        assert(key@.subrange(0, 5)[3] == key@[3]);
                        assert(key@.subrange(0, 5)[4] == key@[4]);
                    }
                }
            }
        }
        return None;
    }
    proof {
        let prefix = seq!['s' as u8, 'l' as u8, 'o' as u8, 't' as u8, ':' as u8];
        assert(key@.subrange(0, 5) =~= prefix);
    }
    let ghost d = key@.subrange(5, n as int).map_values(|b: u8| b as char);
    parse_ascii_u64(vstd::slice::slice_subrange(key, 5, n))
}

/// Parse ASCII bytes as an unsigned 64-bit decimal number.
fn parse_ascii_u64(p: &[u8]) -> (r: Option<u64>)
    ensures
        r == parse_decimal_spec(p@.map_values(|b: u8| b as char), u64::MAX),
{
    let ghost c = p@.map_values(|b: u8| b as char);
    let n = p.len();
    let start: usize = if n > 0 && p[0] == 43 {
        1
    } else {
        0
    };
    let ghost d = c.subrange(start as int, n as int);
    proof {
        if n > 0 && c[0] == '+' {
            assert(d =~= c.drop_first());
        } else {
            assert(d =~= c);
        }
    }
    if start == n {
        return None;
    }
    let mut acc: u128 = 0;
    let mut i: usize = start;
    proof {
        assert(d.subrange(0, 0) =~= Seq::<char>::empty());
    }
    while i < n
        invariant
            n == p@.len(),
            c == p@.map_values(|b: u8| b as char),
            start <= i <= n,
            d == c.subrange(start as int, n as int),
            d == (if c.len() > 0 && c[0] == '+' {
                c.drop_first()
            } else {
                c
            }),
            d.len() > 0,
            crate::text::all_digits(d.subrange(0, i - start)),
            acc == digits_value(d.subrange(0, i - start)),
            acc <= u64::MAX,
        decreases n - i,
    {
        let b = p[i];
        if !(48 <= b && b <= 57) {
            proof {
                assert(d[i - start] == c[i as int]);
                assert(c[i as int] == b as char);
            }
            return None;
        }
        let ghost prefix = d.subrange(0, i - start + 1);
        proof {
            assert(prefix.drop_last() =~= d.subrange(0, i - start));
            assert(prefix.last() == b as char);
        }
        acc = acc * 10 + (b as u128 - 48);
        i = i + 1;
        proof {
            assert(acc == digits_value(d.subrange(0, i - start)));
            assert(crate::text::all_digits(d.subrange(0, i - start)));
        }
        if acc > u64::MAX as u128 {
            proof {
                if crate::text::all_digits(d) {
                    crate::text::lemma_digits_prefix(d, i - start);
                }
            }
            return None;
        }
    }
    proof {
        assert(d.subrange(0, n - start) =~= d);
    }
    Some(acc as u64)
}

/// Whether a block-index entry names a slot below `min_slot`, so that pruning removes it.
pub fn block_index_prunable(key: &[u8], min_slot: u64) -> (r: bool)
    ensures
        r == (slot_key_spec(key@) is Some && slot_key_spec(key@)->0 < min_slot),
{
    match parse_slot_key(key) {
        Some(slot) => slot < min_slot,
        None => false,
    }
}

/// Add the deletions that prune one block: the block itself, the receipts of
/// its transactions, then its slot-index entry.
pub fn add_block_pruning(batch: &mut StorageBatch, index_key: &[u8], block_hash: &[u8], tx_hashes: &[Vec<u8>])
    ensures
        final(batch)@ == old(batch)@ + seq![BatchOp::Delete { cf: CF_BLOCKS@, key: block_hash@ }]
            + deletions(CF_RECEIPTS@, tx_hashes@.map_values(|h: Vec<u8>| h@)) + seq![
            BatchOp::Delete { cf: CF_METADATA@, key: index_key@ },
        ],
{
    batch.delete(CF_BLOCKS, slice_to_vec(block_hash));
    let ghost after_block = batch@;
    let mut i: usize = 0;
    while i < tx_hashes.len()
        invariant
            i <= tx_hashes@.len(),
            batch@ == after_block + deletions(
                CF_RECEIPTS@,
                tx_hashes@.subrange(0, i as int).map_values(|h: Vec<u8>| h@),
            ),
        decreases tx_hashes@.len() - i,
    {
        batch.delete(CF_RECEIPTS, slice_to_vec(tx_hashes[i].as_slice()));
        proof {
            assert(deletions(CF_RECEIPTS@, tx_hashes@.subrange(0, i + 1).map_values(|h: Vec<u8>| h@)) =~= deletions(
                CF_RECEIPTS@,
                tx_hashes@.subrange(0, i as int).map_values(|h: Vec<u8>| h@),
            ).push(BatchOp::Delete { cf: CF_RECEIPTS@, key: tx_hashes@[i as int]@ }));
        }
        i = i + 1;
    }
    proof {
        assert(tx_hashes@.subrange(0, tx_hashes@.len() as int) =~= tx_hashes@);
    }
    batch.delete(CF_METADATA, slice_to_vec(index_key));
}

} // verus!
