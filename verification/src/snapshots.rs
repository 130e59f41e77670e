//! State snapshots: file names, retention, compression of the encoded state,
//! and the storage writes that import one.
use vstd::prelude::*;

use crate::bytes::{be_bytes, push_be};
use crate::hashing::{sha256, sha256_of};
use crate::merkle::{merkle_root, SparseMerkleTree};
use crate::storage::{BatchOp, StorageBatch, CF_ACCOUNTS, CF_METADATA, CF_UTXOS};
use crate::types::{Address, H256};
use vstd::slice::slice_to_vec;
use vstd::string::StringSliceAdditionalSpecFns;
use crate::text::{all_digits, decimal, decimal_padded, digits_value, is_digit, occurs_at, parse_decimal,
    parse_decimal_spec};
use vstd::string::StrSliceExecFns;
use vstd::string::StringExecFns;

verus! {

/// When and at which height a snapshot was taken.
#[derive(Clone, Copy, Debug)]
pub struct SnapshotMetadata {
    pub height: u64,
    pub generated_at: u64,
}

/// The file name of the snapshot at `height`: `snapshot_`, the height with
/// ten digits at least, then `.bin.zst`.
pub open spec fn snapshot_name(height: nat) -> Seq<char> {
    "snapshot_"@ + decimal_padded(height, 10) + ".bin.zst"@
}

/// The number of digits of the decimal numeral of `n`.
pub fn decimal_len(n: u64) -> (k: usize)
    ensures
        k == decimal(n as nat).len(),
        1 <= k <= 20,
    decreases n,
{
    proof {
        lemma_decimal_len_bound(n as nat);
    }
    if n < 10 {
        1
    } else {
        decimal_len(n / 10) + 1
    }
}

/// A decimal numeral has at least one digit, and a `u64` has at most twenty.
pub proof fn lemma_decimal_len_bound(n: nat)
    ensures
        decimal(n).len() >= 1,
        n <= u64::MAX ==> decimal(n).len() <= 20,
    decreases n,
{
    if n >= 10 {
        lemma_decimal_len_bound(n / 10);
        if n <= u64::MAX {
            lemma_decimal_len_at_most(n, 20);
        }
    }
}

/// `10` to the power `k`.
pub open spec fn pow10(k: nat) -> nat
    decreases k,
{
    if k == 0 {
        1
    } else {
        10 * pow10((k - 1) as nat)
    }
}

/// A number below `10^k` has at most `k` digits.
proof fn lemma_decimal_len_at_most(n: nat, k: nat)
    requires
        k >= 1,
        n < pow10(k) || (k == 20 && n <= u64::MAX),
    ensures
        decimal(n).len() <= k,
    decreases k,
{
    if k == 20 && n <= u64::MAX {
        assert(pow10(20) == 100_000_000_000_000_000_000) by {
            reveal_with_fuel(pow10, 21);
        }
    }
    if n >= 10 {
        assert(k >= 2) by {
            if k == 1 {
                assert(pow10(1) == 10);
            }
        }
        assert(n / 10 < pow10((k - 1) as nat));
        lemma_decimal_len_at_most(n / 10, (k - 1) as nat);
    }
}

/// The snapshot file name for `height`.
pub fn snapshot_filename(height: u64) -> (s: String)
    ensures
        s@ == snapshot_name(height as nat),
{
    let mut s = String::from_str("snapshot_");
    let len = decimal_len(height);
    let mut k: usize = len;
    let ghost start = s@;
    proof {
        reveal_strlit("snapshot_");
    }
    while k < 10
        invariant
            len <= k,
            k <= 10 || k == len,
            s@ == start + Seq::new((k - len) as nat, |i: int| '0'),
        decreases 10 - k,
    {
        crate::text::push_char(&mut s, '0');
        proof {
            assert(s@ =~= start + Seq::new((k + 1 - len) as nat, |i: int| '0'));
        }
        k = k + 1;
    }
    crate::text::push_decimal(&mut s, height as u128);
    s.append(".bin.zst");
    proof {
        let d = decimal(height as nat);
        if d.len() >= 10 {
            assert(Seq::new((k - len) as nat, |i: int| '0') =~= Seq::<char>::empty());
        }
        assert(s@ =~= snapshot_name(height as nat));
    }
    s
}

/// The height named by a snapshot file name, if it is one: `snapshot_`,
/// a `u64` numeral, `.bin.zst`.
pub open spec fn snapshot_height_spec(name: Seq<char>) -> Option<u64> {
    let p = "snapshot_"@;
    let x = ".bin.zst"@;
    if occurs_at(name, p, 0) && name.len() >= p.len() + x.len() && occurs_at(name, x, name.len() - x.len()) {
        parse_decimal_spec(name.subrange(p.len() as int, name.len() - x.len()), u64::MAX)
    } else {
        None
    }
}

/// The height named by a snapshot file name.
pub fn parse_snapshot_filename(name: &str) -> (r: Option<u64>)
    ensures
        r == snapshot_height_spec(name@),
{
    proof {
        reveal_strlit("snapshot_");
        reveal_strlit(".bin.zst");
    }
    let n = name.unicode_len();
    if n < 17 || !crate::text::matches_at(name, "snapshot_", 0) || !crate::text::matches_at(name, ".bin.zst", n - 8) {
        return None;
    }
    parse_decimal(name.substring_char(9, n - 8), u64::MAX)
}

/// Whether `name` is a snapshot file, as retention counts them.
pub open spec fn is_snapshot_file_spec(name: Seq<char>) -> bool {
    &&& occurs_at(name, "snapshot_"@, 0)
    &&& name.len() >= ".bin.zst"@.len()
    &&& occurs_at(name, ".bin.zst"@, name.len() - ".bin.zst"@.len())
    &&& !occurs_at(name, ".tmp_"@, 0)
}

/// Whether `name` is a snapshot file: `snapshot_…​.bin.zst`, not a temporary file.
pub fn is_snapshot_file(name: &str) -> (r: bool)
    ensures
        r == is_snapshot_file_spec(name@),
{
    proof {
        reveal_strlit(".bin.zst");
    }
    let n = name.unicode_len();
    crate::text::matches_at(name, "snapshot_", 0) && n >= 8 && crate::text::matches_at(name, ".bin.zst", n - 8)
        && !crate::text::matches_at(name, ".tmp_", 0)
}

/// How many of `total` snapshots to delete so that `keep` remain.
pub fn prune_count(total: usize, keep: usize) -> (r: usize)
    ensures
        r == (if total > keep {
            total - keep
        } else {
            0
        }),
{
    if total > keep {
        total - keep
    } else {
        0
    }
}

/// `s` is in ascending order.
pub open spec fn sorted_ascending(s: Seq<u64>) -> bool {
    forall|i: int, j: int| 0 <= i < j < s.len() ==> s[i] <= s[j]
}

/// The heights in ascending order.
pub fn sort_heights(heights: &Vec<u64>) -> (r: Vec<u64>)
    ensures
        sorted_ascending(r@),
        r@.to_multiset() == heights@.to_multiset(),
{
    broadcast use vstd::seq_lib::to_multiset_insert;

    let mut out: Vec<u64> = Vec::new();
    let mut i: usize = 0;
    proof {
        assert(heights@.subrange(0, 0) =~= Seq::<u64>::empty());
    }
    while i < heights.len()
        invariant
            i <= heights@.len(),
            sorted_ascending(out@),
            out@.to_multiset() == heights@.subrange(0, i as int).to_multiset(),
        decreases heights@.len() - i,
    {
        let x = heights[i];
        let mut p: usize = 0;
        while p < out.len() && out[p] <= x
            invariant
                p <= out@.len(),
                forall|k: int| 0 <= k < p ==> out@[k] <= x,
            decreases out@.len() - p,
        {
            p = p + 1;
        }
        let ghost before = out@;
        out.insert(p, x);
        proof {
            assert(heights@.subrange(0, i + 1) =~= heights@.subrange(0, i as int).push(x));
            vstd::seq_lib::to_multiset_build(heights@.subrange(0, i as int), x);
            assert(out@ == before.insert(p as int, x));
            vstd::seq_lib::to_multiset_insert(before, p as int, x);
            assert(out@.to_multiset() == before.to_multiset().insert(x));
            assert forall|a: int, b: int| 0 <= a < b < out@.len() implies out@[a] <= out@[b] by {
                if b < p {
                } else if b == p {
                } else if a < p {
                    assert(out@[b] == before[b - 1]);
                    if p < before.len() {
                        assert(before[p as int] > x);
                    }
                } else if a == p {
                    assert(out@[b] == before[b - 1]);
                    assert(before[p as int] > x);
                } else {
                    assert(out@[a] == before[a - 1]);
                    assert(out@[b] == before[b - 1]);
                }
            }
        }
        i = i + 1;
    }
    proof {
        assert(heights@.subrange(0, heights@.len() as int) =~= heights@);
    }
    out
}

/// Byte-wise lexicographic order: `a` equals `b` or comes before it.
pub open spec fn bytes_le(a: Seq<u8>, b: Seq<u8>) -> bool
    decreases a.len(),
{
    if a.len() == 0 {
        true
    } else if b.len() == 0 {
        false
    } else if a[0] != b[0] {
        a[0] < b[0]
    } else {
        bytes_le(a.drop_first(), b.drop_first())
    }
}

/// The order snapshot files are sorted in: by the bytes of their names.
pub open spec fn name_le(a: String, b: String) -> bool {
    bytes_le(vstd::utf8::encode_utf8(a@), vstd::utf8::encode_utf8(b@))
}

/// Any two byte strings are ordered one way or the other.
proof fn lemma_bytes_le_total(a: Seq<u8>, b: Seq<u8>)
    ensures
        bytes_le(a, b) || bytes_le(b, a),
    decreases a.len(),
{
    if a.len() > 0 && b.len() > 0 && a[0] == b[0] {
        lemma_bytes_le_total(a.drop_first(), b.drop_first());
    }
}

/// The byte order is transitive.
proof fn lemma_bytes_le_trans(a: Seq<u8>, b: Seq<u8>, c: Seq<u8>)
    requires
        bytes_le(a, b),
        bytes_le(b, c),
    ensures
        bytes_le(a, c),
    decreases a.len(),
{
    if a.len() > 0 && b.len() > 0 && c.len() > 0 && a[0] == b[0] && b[0] == c[0] {
        lemma_bytes_le_trans(a.drop_first(), b.drop_first(), c.drop_first());
    }
}

/// Whether the bytes of `a` come no later than those of `b`.
fn bytes_le_exec(a: &[u8], b: &[u8]) -> (r: bool)
    ensures
        r == bytes_le(a@, b@),
{
    let mut i: usize = 0;
    proof {
        assert(a@.skip(0) =~= a@);
        assert(b@.skip(0) =~= b@);
    }
    while i < a.len() && i < b.len() && a[i] == b[i]
        invariant
            i <= a@.len(),
            i <= b@.len(),
            bytes_le(a@, b@) == bytes_le(a@.skip(i as int), b@.skip(i as int)),
        decreases a@.len() - i,
    {
        proof {
            assert(a@.skip(i as int).drop_first() =~= a@.skip(i + 1));
            assert(b@.skip(i as int).drop_first() =~= b@.skip(i + 1));
        }
        i = i + 1;
    }
    proof {
        if i < a.len() && i < b.len() {
            assert(a@.skip(i as int)[0] == a@[i as int]);
            assert(b@.skip(i as int)[0] == b@[i as int]);
        }
    }
    if i == a.len() {
        true
    } else if i == b.len() {
        false
    } else {
        a[i] < b[i]
    }
}

/// Whether the name `a` sorts no later than `b`.
fn name_le_exec(a: &String, b: &String) -> (r: bool)
    ensures
        r == name_le(*a, *b),
{
    bytes_le_exec(a.as_str().as_bytes(), b.as_str().as_bytes())
}

/// Whether a name is that of a snapshot file.
pub open spec fn snapshot_pred() -> spec_fn(String) -> bool {
    |s: String| is_snapshot_file_spec(s@)
}

/// The snapshot files among `names`, in their order.
pub open spec fn snapshot_names(names: Seq<String>) -> Seq<String> {
    names.filter(snapshot_pred())
}

/// Which snapshot files to delete so that only the `keep` last (in name
/// order) remain: the first ones in name order, as many as exceed `keep`.
pub fn snapshots_to_prune(names: &[String], keep: usize) -> (r: Vec<String>)
    ensures
        ({
            let f = snapshot_names(names@);
            &&& r@.len() == (if f.len() > keep {
                f.len() - keep
            } else {
                0
            })
            &&& forall|i: int, j: int| 0 <= i < j < r@.len() ==> name_le(r@[i], r@[j])
            &&& r@.to_multiset().subset_of(f.to_multiset())
            &&& forall|x: String, y: String|
                r@.contains(x) && f.to_multiset().count(y) > r@.to_multiset().count(y) ==> #[trigger] name_le(x, y)
        }),
{
    broadcast use vstd::seq_lib::to_multiset_insert;
    broadcast use vstd::seq_lib::to_multiset_build;

    let ghost pred = snapshot_pred();
    let mut sorted: Vec<String> = Vec::new();
    let mut i: usize = 0;
    proof {
        assert(names@.subrange(0, 0).filter(pred) =~= Seq::<String>::empty());
    }
    while i < names.len()
        invariant
            i <= names@.len(),
            pred == snapshot_pred(),
            forall|a: int, b: int| 0 <= a < b < sorted@.len() ==> name_le(sorted@[a], sorted@[b]),
            sorted@.to_multiset() == names@.subrange(0, i as int).filter(pred).to_multiset(),
        decreases names@.len() - i,
    {
        let x = names[i].clone();
        proof {
            assert(names@.subrange(0, i + 1) =~= names@.subrange(0, i as int).push(names@[i as int]));
            names@.subrange(0, i as int).lemma_filter_push(names@[i as int], pred);
        }
        if is_snapshot_file(x.as_str()) {
            let mut p: usize = 0;
            while p < sorted.len() && name_le_exec(&sorted[p], &x)
                invariant
                    p <= sorted@.len(),
                    forall|k: int| 0 <= k < p ==> name_le(sorted@[k], x),
                decreases sorted@.len() - p,
            {
                p = p + 1;
            }
            let ghost before = sorted@;
            assert(forall|a: int, b: int| 0 <= a < b < before.len() ==> name_le(before[a], before[b]));
            sorted.insert(p, x);
            proof {
                assert(sorted@ == before.insert(p as int, x));
                vstd::seq_lib::to_multiset_insert(before, p as int, x);
                vstd::seq_lib::to_multiset_build(names@.subrange(0, i as int).filter(pred), x);
                if p < before.len() {
                    lemma_bytes_le_total(vstd::utf8::encode_utf8(x@), vstd::utf8::encode_utf8(before[p as int]@));
                }
                assert forall|a: int, b: int| 0 <= a < b < sorted@.len() implies name_le(sorted@[a], sorted@[b]) by {
                    if b < p {
                    } else if b == p {
                    } else if a < p {
                        assert(sorted@[b] == before[b - 1]);
                        if b - 1 > p {
                            assert(name_le(before[p as int], before[b - 1]));
                            lemma_bytes_le_trans(
                                vstd::utf8::encode_utf8(x@),
                                vstd::utf8::encode_utf8(before[p as int]@),
                                vstd::utf8::encode_utf8(before[b - 1]@),
                            );
                        }
                        lemma_bytes_le_trans(
                            vstd::utf8::encode_utf8(sorted@[a]@),
                            vstd::utf8::encode_utf8(x@),
                            vstd::utf8::encode_utf8(before[b - 1]@),
                        );
                    } else if a == p {
                        assert(sorted@[b] == before[b - 1]);
                        if b - 1 > p {
                            assert(name_le(before[p as int], before[b - 1]));
                            lemma_bytes_le_trans(
                                vstd::utf8::encode_utf8(x@),
                                vstd::utf8::encode_utf8(before[p as int]@),
                                vstd::utf8::encode_utf8(before[b - 1]@),
                            );
                        }
                    } else {
                        assert(sorted@[a] == before[a - 1]);
                        assert(sorted@[b] == before[b - 1]);
                    }
                }
            }
        }
        i = i + 1;
    }
    proof {
        assert(names@.subrange(0, names@.len() as int) =~= names@);
    }
    let k = prune_count(sorted.len(), keep);
    let mut r: Vec<String> = Vec::new();
    let mut j: usize = 0;
    while j < k
        invariant
            j <= k,
            k <= sorted@.len(),
            r@ == sorted@.take(j as int),
        decreases k - j,
    {
        r.push(sorted[j].clone());
        proof {
            assert(r@ =~= sorted@.take(j + 1));
        }
        j = j + 1;
    }
    proof {
        let f = snapshot_names(names@);
        let rest = sorted@.skip(k as int);
        assert(sorted@ =~= r@ + rest);
        vstd::seq_lib::lemma_multiset_commutative(r@, rest);
        assert(f.to_multiset() == sorted@.to_multiset());
        assert(sorted@.len() == f.len()) by {
            vstd::seq_lib::to_multiset_len(sorted@);
            vstd::seq_lib::to_multiset_len(f);
        }
        assert forall|x: String, y: String|
            r@.contains(x) && f.to_multiset().count(y) > r@.to_multiset().count(y) implies #[trigger] name_le(x, y) by {
            assert(rest.to_multiset().count(y) > 0);
            assert(rest.contains(y)) by {
                vstd::seq_lib::to_multiset_contains(rest, y);
            }
            let a = choose|a: int| 0 <= a < r@.len() && r@[a] == x;
            let b = choose|b: int| 0 <= b < rest.len() && rest[b] == y;
            assert(sorted@[a] == x);
            assert(sorted@[k + b] == y);
        }
    }
    r
}

/// What the zstd encoder at level 3 produces for `data`.
pub uninterp spec fn zstd_level3(data: Seq<u8>) -> Seq<u8>;

/// `zstd::stream::encode_all` at level 3: the zstd frame of `bytes`, which
/// is `zstd_level3` of the input.  Reading a byte slice and writing a `Vec`
/// cannot fail, and level 3 is a valid level, so the encoder's calls into
/// libzstd fail only when memory runs out; the contract claims success.
#[verifier::external_body]
fn zstd_encode_all(bytes: &[u8]) -> (r: Result<Vec<u8>, String>)
    ensures
        r is Ok,
        r->Ok_0@ == zstd_level3(bytes@),
{
    zstd::stream::encode_all(bytes, 3).map_err(|e| e.to_string())
}

/// `zstd::stream::decode_all`: the data of a zstd frame.  Decoding what the
/// level-3 encoder produced gives the original data back (zstd is lossless);
/// of other input nothing is stated.
#[verifier::external_body]
fn zstd_decode_all(bytes: &[u8]) -> (r: Result<Vec<u8>, String>)
    ensures
        forall|d: Seq<u8>| #[trigger] zstd_level3(d) == bytes@ ==> r is Ok && r->Ok_0@ == d,
{
    zstd::stream::decode_all(bytes).map_err(|e| e.to_string())
}

/// Compress with zstd at level 3.
pub fn compress(bytes: &[u8]) -> (r: Result<Vec<u8>, String>)
    ensures
        r is Ok,
        r->Ok_0@ == zstd_level3(bytes@),
{
    zstd_encode_all(bytes)
}

/// Decompress zstd data.
pub fn decompress(bytes: &[u8]) -> (r: Result<Vec<u8>, String>)
    ensures
        forall|d: Seq<u8>| #[trigger] zstd_level3(d) == bytes@ ==> r is Ok && r->Ok_0@ == d,
{
    zstd_decode_all(bytes)
}

/// A decimal numeral is all digits and is worth its number.
pub proof fn lemma_decimal_digits(n: nat)
    ensures
        all_digits(decimal(n)),
        digits_value(decimal(n)) == n,
        decimal(n).len() >= 1,
    decreases n,
{
    let c = crate::text::digit_char((n % 10) as int);
    assert(c as nat == 48 + n % 10);
    if n >= 10 {
        lemma_decimal_digits(n / 10);
        let d = decimal(n);
        assert(d.drop_last() =~= decimal(n / 10));
        assert(d.last() == c);
        assert(digits_value(d) == digits_value(d.drop_last()) * 10 + (d.last() as nat - 48) as nat);
        assert(digits_value(d) == (n / 10) * 10 + n % 10);
    } else {
        let d = decimal(n);
        assert(d.drop_last() =~= Seq::<char>::empty());
        assert(d.last() == c);
        assert(digits_value(d) == digits_value(d.drop_last()) * 10 + (d.last() as nat - 48) as nat);
        assert(digits_value(d.drop_last()) == 0);
    }
}

/// Leading zeros change neither digit-ness nor value.
pub proof fn lemma_zero_padding(c: nat, d: Seq<char>)
    requires
        all_digits(d),
    ensures
        all_digits(Seq::new(c, |i: int| '0') + d),
        digits_value(Seq::new(c, |i: int| '0') + d) == digits_value(d),
    decreases d.len(),
{
    let z = Seq::new(c, |i: int| '0');
    if d.len() == 0 {
        assert(z + d =~= z);
        lemma_zeros_value(c);
    } else {
        lemma_zero_padding(c, d.drop_last());
        assert((z + d).drop_last() =~= z + d.drop_last());
    }
}

/// A string of zeros is worth nothing.
proof fn lemma_zeros_value(c: nat)
    ensures
        all_digits(Seq::new(c, |i: int| '0')),
        digits_value(Seq::new(c, |i: int| '0')) == 0,
    decreases c,
{
    if c > 0 {
        lemma_zeros_value((c - 1) as nat);
        assert(Seq::new(c, |i: int| '0').drop_last() =~= Seq::new((c - 1) as nat, |i: int| '0'));
    }
}

/// The snapshot file name of a height names that height.
pub proof fn lemma_snapshot_name_roundtrip(height: u64)
    ensures
        snapshot_height_spec(snapshot_name(height as nat)) == Some(height),
{
    reveal_strlit("snapshot_");
    reveal_strlit(".bin.zst");
    let d = decimal(height as nat);
    lemma_decimal_digits(height as nat);
    let padded = decimal_padded(height as nat, 10);
    if d.len() >= 10 {
        assert(padded == d);
    } else {
        lemma_zero_padding((10 - d.len()) as nat, d);
    }
    let name = snapshot_name(height as nat);
    let p = "snapshot_"@;
    let x = ".bin.zst"@;
    assert(name.subrange(0, 9) =~= p);
    assert(name.subrange(name.len() - 8, name.len() as int) =~= x);
    assert(name.subrange(9, name.len() - 8) =~= padded);
    assert(padded.len() > 0);
    assert(is_digit(padded[0]));
}

/// The Merkle leaves of imported accounts: each address mapped to the
/// digest of its encoded account, a later entry for an address replacing an
/// earlier one.
pub open spec fn account_digests(accounts: Seq<(Address, Seq<u8>)>) -> Map<Address, Seq<u8>>
    decreases accounts.len(),
{
    if accounts.len() == 0 {
        Map::empty()
    } else {
        account_digests(accounts.drop_last()).insert(accounts.last().0, sha256_of(accounts.last().1))
    }
}

/// `m` holds, as hashes, exactly the digests `d`.
pub open spec fn holds_digests(m: Map<Address, H256>, d: Map<Address, Seq<u8>>) -> bool {
    &&& m.dom() == d.dom()
    &&& forall|a: Address| #[trigger] m.contains_key(a) ==> m[a].bytes@ == d[a]
}

/// The writes that import a snapshot: accounts, outputs, then the state
/// root and the snapshot height (big-endian) under their metadata keys.
pub open spec fn import_ops(
    state_root: H256,
    height: u64,
    accounts: Seq<(Address, Seq<u8>)>,
    utxos: Seq<(Seq<u8>, Seq<u8>)>,
) -> Seq<BatchOp> {
    accounts.map_values(|e: (Address, Seq<u8>)| BatchOp::Put { cf: CF_ACCOUNTS@, key: e.0.bytes@, value: e.1 })
        + utxos.map_values(|e: (Seq<u8>, Seq<u8>)| BatchOp::Put { cf: CF_UTXOS@, key: e.0, value: e.1 }) + seq![
        BatchOp::Put { cf: CF_METADATA@, key: "state_root".spec_bytes(), value: state_root.bytes@ },
        BatchOp::Put { cf: CF_METADATA@, key: "snapshot_height".spec_bytes(), value: be_bytes(height as nat, 8) },
    ]
}

/// Pairs of byte vectors as plain values.
pub open spec fn byte_pairs(v: Seq<(Vec<u8>, Vec<u8>)>) -> Seq<(Seq<u8>, Seq<u8>)> {
    v.map_values(|e: (Vec<u8>, Vec<u8>)| (e.0@, e.1@))
}

/// Encoded accounts as plain values.
pub open spec fn account_pairs(v: Seq<(Address, Vec<u8>)>) -> Seq<(Address, Seq<u8>)> {
    v.map_values(|e: (Address, Vec<u8>)| (e.0, e.1@))
}

/// Check a decoded snapshot and plan its import.  The state root must not be
/// zero, and must be the root of the Merkle tree of the accounts' digests
/// (`accounts` holds each address with its encoded account, `utxos` each
/// encoded output id with its encoded output).
pub fn import_batch(
    state_root: &H256,
    height: u64,
    accounts: &[(Address, Vec<u8>)],
    utxos: &[(Vec<u8>, Vec<u8>)],
) -> (r: Result<StorageBatch, String>)
    ensures
        (forall|i: int| 0 <= i < 32 ==> state_root.bytes[i] == 0) ==> r is Err && r->Err_0@
            == "snapshot has zero state root — likely corrupted"@,
        !(forall|i: int| 0 <= i < 32 ==> state_root.bytes[i] == 0) ==> exists|m: Map<Address, H256>|
            #![trigger merkle_root(m)]
            {
                &&& holds_digests(m, account_digests(account_pairs(accounts@)))
                &&& merkle_root(m) != state_root.bytes@ ==> r is Err
                &&& merkle_root(m) == state_root.bytes@ ==> r is Ok && r->Ok_0@ == import_ops(
                    *state_root,
                    height,
                    account_pairs(accounts@),
                    byte_pairs(utxos@),
                )
            },
{
    if state_root.is_zero() {
        return Err(String::from_str("snapshot has zero state root — likely corrupted"));
    }
    let mut tree = SparseMerkleTree::new();
    let mut i: usize = 0;
    proof {
        assert(account_pairs(accounts@).take(0) =~= Seq::<(Address, Seq<u8>)>::empty());
    }
    while i < accounts.len()
        invariant
            i <= accounts@.len(),
            tree.wf(),
            holds_digests(tree@, account_digests(account_pairs(accounts@).take(i as int))),
        decreases accounts@.len() - i,
    {
        let (address, encoded) = (&accounts[i].0, &accounts[i].1);
        let digest = H256 { bytes: sha256(encoded.as_slice()) };
        tree.update(*address, digest);
        proof {
            let all = account_pairs(accounts@);
            assert(all.take(i + 1).drop_last() =~= all.take(i as int));
            assert(all.take(i + 1).last() == (*address, encoded@));
            let d = account_digests(all.take(i + 1));
            assert(tree@.dom() =~= d.dom());
        }
        i = i + 1;
    }
    proof {
        assert(account_pairs(accounts@).take(accounts@.len() as int) =~= account_pairs(accounts@));
    }
    let computed = tree.root();
    let ghost m = tree@;
    if computed != *state_root {
        let mut msg = String::from_str("snapshot Merkle root mismatch: claimed 0x");
        let claimed = crate::bytes::hex_encode(state_root.bytes.as_slice());
        msg.append(claimed.as_str());
        msg.append(", computed 0x");
        let got = crate::bytes::hex_encode(computed.bytes.as_slice());
        msg.append(got.as_str());
        msg.append(" — data may be tampered");
        proof {
            if merkle_root(m) == state_root.bytes@ {
                assert(computed.bytes =~= state_root.bytes);
            }
        }
        return Err(msg);
    }
    let mut batch = StorageBatch::new();
    let mut k: usize = 0;
    while k < accounts.len()
        invariant
            k <= accounts@.len(),
            batch@ == account_pairs(accounts@).take(k as int).map_values(
                |e: (Address, Seq<u8>)| BatchOp::Put { cf: CF_ACCOUNTS@, key: e.0.bytes@, value: e.1 },
            ),
        decreases accounts@.len() - k,
    {
        let key = slice_to_vec(accounts[k].0.bytes.as_slice());
        let value = slice_to_vec(accounts[k].1.as_slice());
        batch.put(CF_ACCOUNTS, key, value);
        proof {
            let all = account_pairs(accounts@);
            assert(all.take(k + 1) =~= all.take(k as int).push(all[k as int]));
            assert(batch@ =~= all.take(k + 1).map_values(
                |e: (Address, Seq<u8>)| BatchOp::Put { cf: CF_ACCOUNTS@, key: e.0.bytes@, value: e.1 },
            ));
        }
        k = k + 1;
    }
    let ghost after_accounts = batch@;
    let mut u: usize = 0;
    while u < utxos.len()
        invariant
            u <= utxos@.len(),
            batch@ == after_accounts + byte_pairs(utxos@).take(u as int).map_values(
                |e: (Seq<u8>, Seq<u8>)| BatchOp::Put { cf: CF_UTXOS@, key: e.0, value: e.1 },
            ),
        decreases utxos@.len() - u,
    {
        let key = slice_to_vec(utxos[u].0.as_slice());
        let value = slice_to_vec(utxos[u].1.as_slice());
        batch.put(CF_UTXOS, key, value);
        proof {
            let all = byte_pairs(utxos@);
            assert(all.take(u + 1) =~= all.take(u as int).push(all[u as int]));
            assert(batch@ =~= after_accounts + all.take(u + 1).map_values(
                |e: (Seq<u8>, Seq<u8>)| BatchOp::Put { cf: CF_UTXOS@, key: e.0, value: e.1 },
            ));
        }
        u = u + 1;
    }
    batch.put(CF_METADATA, slice_to_vec("state_root".as_bytes()), slice_to_vec(state_root.bytes.as_slice()));
    let mut height_bytes: Vec<u8> = Vec::new();
    push_be(&mut height_bytes, height as u128, 8);
    proof {
        assert(height_bytes@ =~= be_bytes(height as nat, 8));
    }
    batch.put(CF_METADATA, slice_to_vec("snapshot_height".as_bytes()), height_bytes);
    proof {
        assert(account_pairs(accounts@).take(accounts@.len() as int) =~= account_pairs(accounts@));
        assert(byte_pairs(utxos@).take(utxos@.len() as int) =~= byte_pairs(utxos@));
        assert(batch@ =~= import_ops(*state_root, height, account_pairs(accounts@), byte_pairs(utxos@)));
    }
    Ok(batch)
}

} // verus!
