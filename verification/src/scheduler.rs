//! Parallel transaction scheduling: transactions are split, by their declared
//! read, write and input sets, into batches whose members do not conflict.
use vstd::prelude::*;

use crate::types::{Address, H256};

verus! {

/// A transaction output, by the hash of its transaction and its position.
#[derive(Clone, Copy, Debug)]
pub struct UtxoId {
    pub tx_hash: H256,
    pub output_index: u32,
}

/// What a transaction touches: the accounts it reads and writes and the
/// outputs it spends.
#[derive(Clone, Debug)]
pub struct TxAccess {
    pub reads: Vec<Address>,
    pub writes: Vec<Address>,
    pub inputs: Vec<UtxoId>,
}

/// The two lists have an element in common.
pub open spec fn shares<T>(a: Seq<T>, b: Seq<T>) -> bool {
    exists|i: int, j: int| 0 <= i < a.len() && 0 <= j < b.len() && #[trigger] a[i] == #[trigger] b[j]
}

/// Two transactions conflict: write-write, write-read or read-write on an
/// account, or a shared input.
pub open spec fn conflicts(a: TxAccess, b: TxAccess) -> bool {
    ||| shares(a.writes@, b.writes@)
    ||| shares(a.writes@, b.reads@)
    ||| shares(b.writes@, a.reads@)
    ||| shares(a.inputs@, b.inputs@)
}

/// `later` must run after `earlier`: it reads what `earlier` writes, or
/// writes what `earlier` reads.
pub open spec fn depends_on(later: TxAccess, earlier: TxAccess) -> bool {
    shares(later.reads@, earlier.writes@) || shares(later.writes@, earlier.reads@)
}

/// The transaction at position `p` of `rem` may join a batch holding `chosen`:
/// it conflicts with none of them and depends on no earlier unchosen one.
pub open spec fn admissible(txs: Seq<TxAccess>, rem: Seq<usize>, p: int, chosen: Seq<usize>) -> bool {
    &&& forall|c: int| 0 <= c < chosen.len() ==> !conflicts(txs[rem[p] as int], #[trigger] txs[chosen[c] as int])
    &&& forall|j: int|
        0 <= j < p && !chosen.contains(rem[j]) ==> !depends_on(txs[rem[p] as int], #[trigger] txs[rem[j] as int])
}

/// The batch picked from the first `k` waiting transactions, in order, with
/// at most `max` members.
pub open spec fn round_pick(txs: Seq<TxAccess>, rem: Seq<usize>, k: nat, max: nat) -> Seq<usize>
    decreases k,
{
    if k == 0 {
        Seq::empty()
    } else {
        let prev = round_pick(txs, rem, (k - 1) as nat, max);
        if prev.len() >= max {
            prev
        } else if admissible(txs, rem, k - 1, prev) {
            prev.push(rem[k - 1])
        } else {
            prev
        }
    }
}

/// `rem` without the members of `b`.
pub open spec fn without(rem: Seq<usize>, b: Seq<usize>) -> Seq<usize> {
    rem.filter(|x: usize| !b.contains(x))
}

/// Filtering out an element that occurs makes a sequence shorter.
pub proof fn lemma_filter_shorter<T>(s: Seq<T>, pred: spec_fn(T) -> bool, i: int)
    requires
        0 <= i < s.len(),
        !pred(s[i]),
    ensures
        s.filter(pred).len() < s.len(),
    decreases s.len(),
{
    reveal_with_fuel(Seq::filter, 1);
    s.drop_last().lemma_filter_len(pred);
    if i < s.len() - 1 {
        assert(s.drop_last()[i] == s[i]);
        lemma_filter_shorter(s.drop_last(), pred, i);
    }
}

/// A batch picked from `rem` only holds members of `rem`.
pub proof fn lemma_pick_members(txs: Seq<TxAccess>, rem: Seq<usize>, k: nat, max: nat)
    requires
        k <= rem.len(),
    ensures
        forall|c: int|
            0 <= c < round_pick(txs, rem, k, max).len() ==> exists|p: int|
                0 <= p < k && #[trigger] rem[p] == #[trigger] round_pick(txs, rem, k, max)[c],
    decreases k,
{
    if k > 0 {
        lemma_pick_members(txs, rem, (k - 1) as nat, max);
        let prev = round_pick(txs, rem, (k - 1) as nat, max);
        let cur = round_pick(txs, rem, k, max);
        assert forall|c: int| 0 <= c < cur.len() implies exists|p: int|
            0 <= p < k && #[trigger] rem[p] == #[trigger] cur[c] by {
            if c < prev.len() {
                assert(cur[c] == prev[c]);
                let p = choose|p: int| 0 <= p < k - 1 && #[trigger] rem[p] == #[trigger] prev[c];
                assert(rem[p] == cur[c]);
            } else {
                assert(cur[c] == rem[k - 1]);
            }
        }
    }
}

/// The batches of the schedule of the waiting transactions `rem`: a batch
/// is picked, its members leave, and so on while batches are not empty.
pub open spec fn schedule_spec(txs: Seq<TxAccess>, rem: Seq<usize>, max: nat) -> Seq<Seq<usize>>
    decreases rem.len(),
{
    if rem.len() == 0 {
        Seq::empty()
    } else {
        let b = round_pick(txs, rem, rem.len(), max);
        if b.len() == 0 {
            Seq::empty()
        } else {
            proof {
                lemma_pick_members(txs, rem, rem.len(), max);
                let p = choose|p: int| 0 <= p < rem.len() && #[trigger] rem[p] == #[trigger] b[0];
                assert(b.contains(rem[p]));
                lemma_filter_shorter(rem, |x: usize| !b.contains(x), p);
            }
            seq![b] + schedule_spec(txs, without(rem, b), max)
        }
    }
}

/// The positions `0..n`.
pub open spec fn all_positions(n: nat) -> Seq<usize> {
    Seq::new(n, |i: int| i as usize)
}

/// Whether two address lists share an element.
fn shares_addresses(a: &Vec<Address>, b: &Vec<Address>) -> (r: bool)
    ensures
        r == shares(a@, b@),
{
    let mut i: usize = 0;
    while i < a.len()
        invariant
            i <= a@.len(),
            forall|x: int, y: int| 0 <= x < i && 0 <= y < b@.len() ==> a@[x] != b@[y],
        decreases a@.len() - i,
    {
        let mut j: usize = 0;
        while j < b.len()
            invariant
                i < a@.len(),
                j <= b@.len(),
                forall|x: int, y: int| 0 <= x < i && 0 <= y < b@.len() ==> a@[x] != b@[y],
                forall|y: int| 0 <= y < j ==> a@[i as int] != b@[y],
            decreases b@.len() - j,
        {
            if a[i] == b[j] {
                proof {
                    assert(a@[i as int] == b@[j as int]);
                }
                return true;
            }
            j = j + 1;
        }
        i = i + 1;
    }
    false
}

/// Whether two outputs are the same.
fn same_utxo(a: &UtxoId, b: &UtxoId) -> (r: bool)
    ensures
        r == (*a == *b),
{
    a.tx_hash == b.tx_hash && a.output_index == b.output_index
}

/// Whether two input lists share an output.
fn shares_inputs(a: &Vec<UtxoId>, b: &Vec<UtxoId>) -> (r: bool)
    ensures
        r == shares(a@, b@),
{
    let mut i: usize = 0;
    while i < a.len()
        invariant
            i <= a@.len(),
            forall|x: int, y: int| 0 <= x < i && 0 <= y < b@.len() ==> a@[x] != b@[y],
        decreases a@.len() - i,
    {
        let mut j: usize = 0;
        while j < b.len()
            invariant
                i < a@.len(),
                j <= b@.len(),
                forall|x: int, y: int| 0 <= x < i && 0 <= y < b@.len() ==> a@[x] != b@[y],
                forall|y: int| 0 <= y < j ==> a@[i as int] != b@[y],
            decreases b@.len() - j,
        {
            if same_utxo(&a[i], &b[j]) {
                proof {
                    assert(a@[i as int] == b@[j as int]);
                }
                return true;
            }
            j = j + 1;
        }
        i = i + 1;
    }
    false
}

impl TxAccess {
    /// Whether this transaction conflicts with `other`.
    pub fn conflicts_with(&self, other: &TxAccess) -> (r: bool)
        ensures
            r == conflicts(*self, *other),
    {
        shares_addresses(&self.writes, &other.writes) || shares_addresses(&self.writes, &other.reads)
            || shares_addresses(&other.writes, &self.reads) || shares_inputs(&self.inputs, &other.inputs)
    }

    /// Whether this transaction must wait for the earlier `other`.
    pub fn depends_on(&self, other: &TxAccess) -> (r: bool)
        ensures
            r == depends_on(*self, *other),
    {
        shares_addresses(&self.reads, &other.writes) || shares_addresses(&self.writes, &other.reads)
    }
}

/// Whether `v` holds `x`.
fn holds(v: &Vec<usize>, x: usize) -> (r: bool)
    ensures
        r == v@.contains(x),
{
    let mut i: usize = 0;
    while i < v.len()
        invariant
            i <= v@.len(),
            forall|j: int| 0 <= j < i ==> v@[j] != x,
        decreases v@.len() - i,
    {
        if v[i] == x {
            return true;
        }
        i = i + 1;
    }
    false
}

/// A picked batch stays the same once it is full.
proof fn lemma_pick_full(txs: Seq<TxAccess>, rem: Seq<usize>, k: nat, n: nat, max: nat)
    requires
        k <= n,
        round_pick(txs, rem, k, max).len() >= max,
    ensures
        round_pick(txs, rem, n, max) == round_pick(txs, rem, k, max),
    decreases n - k,
{
    if k < n {
        lemma_pick_full(txs, rem, k, (n - 1) as nat, max);
    }
}

/// Splits transactions into batches of mutually non-conflicting ones.
pub struct ParallelScheduler {
    max_batch_size: usize,
}

impl ParallelScheduler {
    /// The batch size limit.
    pub closed spec fn spec_max_batch_size(&self) -> nat {
        self.max_batch_size as nat
    }

    /// A scheduler with batches of at most 1000 transactions.
    pub fn new() -> (s: Self)
        ensures
            s.spec_max_batch_size() == 1000,
    {
        ParallelScheduler { max_batch_size: 1000 }
    }

    /// Whether the waiting transaction at position `p` may join `chosen`.
    fn is_admissible(txs: &[TxAccess], rem: &Vec<usize>, p: usize, chosen: &Vec<usize>) -> (r: bool)
        requires
            p < rem@.len(),
            forall|i: int| 0 <= i < rem@.len() ==> (#[trigger] rem@[i]) < txs@.len(),
            forall|i: int| 0 <= i < chosen@.len() ==> (#[trigger] chosen@[i]) < txs@.len(),
        ensures
            r == admissible(txs@, rem@, p as int, chosen@),
    {
        let tx = &txs[rem[p]];
        let mut c: usize = 0;
        while c < chosen.len()
            invariant
                c <= chosen@.len(),
                p < rem@.len(),
                tx == txs@[rem@[p as int] as int],
                forall|i: int| 0 <= i < chosen@.len() ==> (#[trigger] chosen@[i]) < txs@.len(),
                forall|i: int| 0 <= i < c ==> !conflicts(*tx, #[trigger] txs@[chosen@[i] as int]),
            decreases chosen@.len() - c,
        {
            if tx.conflicts_with(&txs[chosen[c]]) {
                return false;
            }
            c = c + 1;
        }
        let mut j: usize = 0;
        while j < p
            invariant
                j <= p,
                p < rem@.len(),
                tx == txs@[rem@[p as int] as int],
                forall|i: int| 0 <= i < rem@.len() ==> (#[trigger] rem@[i]) < txs@.len(),
                forall|i: int|
                    0 <= i < j && !chosen@.contains(rem@[i]) ==> !depends_on(*tx, #[trigger] txs@[rem@[i] as int]),
            decreases p - j,
        {
            if !holds(chosen, rem[j]) && tx.depends_on(&txs[rem[j]]) {
                return false;
            }
            j = j + 1;
        }
        true
    }

    /// Pick the next batch from the waiting transactions `rem`.
    fn pick_round(&self, txs: &[TxAccess], rem: &Vec<usize>) -> (b: Vec<usize>)
        requires
            forall|i: int| 0 <= i < rem@.len() ==> (#[trigger] rem@[i]) < txs@.len(),
        ensures
            b@ == round_pick(txs@, rem@, rem@.len(), self.max_batch_size as nat),
    {
        let max = self.max_batch_size;
        let mut chosen: Vec<usize> = Vec::new();
        let mut k: usize = 0;
        while k < rem.len()
            invariant_except_break
                k <= rem@.len(),
                chosen@ == round_pick(txs@, rem@, k as nat, max as nat),
            invariant
                forall|i: int| 0 <= i < rem@.len() ==> (#[trigger] rem@[i]) < txs@.len(),
                forall|i: int| 0 <= i < chosen@.len() ==> (#[trigger] chosen@[i]) < txs@.len(),
            ensures
                chosen@ == round_pick(txs@, rem@, rem@.len(), max as nat),
            decreases rem@.len() - k,
        {
            if chosen.len() >= max {
                proof {
                    lemma_pick_full(txs@, rem@, k as nat, rem@.len(), max as nat);
                }
                break;
            }
            if Self::is_admissible(txs, rem, k, &chosen) {
                chosen.push(rem[k]);
            }
            k = k + 1;
        }
        chosen
    }

    /// Split `transactions` into batches, given as positions in
    /// `transactions`: each batch takes, in order, every waiting transaction
    /// that conflicts with none already in it and depends on no earlier
    /// waiting one, up to the batch size limit.
    pub fn schedule(&self, transactions: &[TxAccess]) -> (batches: Vec<Vec<usize>>)
        ensures
            batches@.map_values(|b: Vec<usize>| b@) == schedule_spec(
                transactions@,
                all_positions(transactions@.len()),
                self.spec_max_batch_size(),
            ),
    {
        let n = transactions.len();
        let mut remaining: Vec<usize> = Vec::new();
        let mut i: usize = 0;
        while i < n
            invariant
                n == transactions@.len(),
                i <= n,
                remaining@ =~= all_positions(i as nat),
            decreases n - i,
        {
            remaining.push(i);
            i = i + 1;
        }
        let ghost full = schedule_spec(transactions@, remaining@, self.max_batch_size as nat);
        let mut batches: Vec<Vec<usize>> = Vec::new();
        while remaining.len() > 0
            invariant_except_break
                batches@.map_values(|b: Vec<usize>| b@) + schedule_spec(
                    transactions@,
                    remaining@,
                    self.max_batch_size as nat,
                ) == full,
            invariant
                forall|i: int| 0 <= i < remaining@.len() ==> (#[trigger] remaining@[i]) < transactions@.len(),
            ensures
                batches@.map_values(|b: Vec<usize>| b@) == full,
            decreases remaining@.len(),
        {
            let batch = self.pick_round(transactions, &remaining);
            if batch.len() == 0 {
                proof {
                    assert(batches@.map_values(|b: Vec<usize>| b@) + Seq::<Seq<usize>>::empty() =~= batches@.map_values(
                        |b: Vec<usize>| b@,
                    ));
                }
                break;
            }
            let ghost old_rem = remaining@;
            let ghost old_batches = batches@.map_values(|b: Vec<usize>| b@);
            let mut next: Vec<usize> = Vec::new();
            let mut k: usize = 0;
            while k < remaining.len()
                invariant
                    k <= remaining@.len(),
                    remaining@ == old_rem,
                    next@ == remaining@.take(k as int).filter(|x: usize| !batch@.contains(x)),
                    forall|i: int| 0 <= i < remaining@.len() ==> (#[trigger] remaining@[i]) < transactions@.len(),
                    forall|i: int| 0 <= i < next@.len() ==> (#[trigger] next@[i]) < transactions@.len(),
                decreases remaining@.len() - k,
            {
                proof {
                    crate::seqfind::lemma_filter_take_step(remaining@, |x: usize| !batch@.contains(x), k as int);
                }
                if !holds(&batch, remaining[k]) {
                    next.push(remaining[k]);
                }
                k = k + 1;
            }
            proof {
                assert(remaining@.take(remaining@.len() as int) =~= remaining@);
                assert(next@ == without(old_rem, batch@));
                lemma_pick_members(transactions@, old_rem, old_rem.len(), self.max_batch_size as nat);
                let p = choose|p: int| 0 <= p < old_rem.len() && #[trigger] old_rem[p] == #[trigger] batch@[0];
                assert(batch@.contains(old_rem[p]));
                lemma_filter_shorter(old_rem, |x: usize| !batch@.contains(x), p);
            }
            remaining = next;
            batches.push(batch);
            proof {
                assert(batches@.map_values(|b: Vec<usize>| b@) =~= old_batches.push(batch@));
                assert(schedule_spec(transactions@, old_rem, self.max_batch_size as nat) == seq![batch@]
                    + schedule_spec(transactions@, remaining@, self.max_batch_size as nat));
                assert(old_batches.push(batch@) + schedule_spec(transactions@, remaining@, self.max_batch_size as nat)
                    =~= old_batches + (seq![batch@] + schedule_spec(
                    transactions@,
                    remaining@,
                    self.max_batch_size as nat,
                )));
            }
        }
        proof {
            assert(all_positions(n as nat) =~= all_positions(transactions@.len()));
        }
        batches
    }
}

impl Default for ParallelScheduler {
    fn default() -> (s: Self)
        ensures
            s.spec_max_batch_size() == 1000,
    {
        Self::new()
    }
}

/// The values of `s` increase strictly.
pub open spec fn ascending(s: Seq<usize>) -> bool {
    forall|i: int, j: int| 0 <= i < j < s.len() ==> s[i] < s[j]
}

/// Sharing is symmetric.
proof fn lemma_shares_symmetric<T>(a: Seq<T>, b: Seq<T>)
    ensures
        shares(a, b) == shares(b, a),
{
    if shares(a, b) {
        let (i, j) = choose|i: int, j: int| 0 <= i < a.len() && 0 <= j < b.len() && #[trigger] a[i] == #[trigger] b[j];
        assert(b[j] == a[i]);
    }
    if shares(b, a) {
        let (i, j) = choose|i: int, j: int| 0 <= i < b.len() && 0 <= j < a.len() && #[trigger] b[i] == #[trigger] a[j];
        assert(a[j] == b[i]);
    }
}

/// Conflict is symmetric.
proof fn lemma_conflicts_symmetric(a: TxAccess, b: TxAccess)
    ensures
        conflicts(a, b) == conflicts(b, a),
{
    lemma_shares_symmetric(a.writes@, b.writes@);
    lemma_shares_symmetric(a.inputs@, b.inputs@);
}

/// A transaction that depends on another conflicts with it.
proof fn lemma_dependency_conflicts(later: TxAccess, earlier: TxAccess)
    ensures
        depends_on(later, earlier) ==> conflicts(later, earlier),
{
    lemma_shares_symmetric(later.reads@, earlier.writes@);
}

/// Filtering keeps values in increasing order.
proof fn lemma_filter_ascending(s: Seq<usize>, pred: spec_fn(usize) -> bool)
    requires
        ascending(s),
    ensures
        ascending(s.filter(pred)),
    decreases s.len(),
{
    reveal_with_fuel(Seq::filter, 1);
    if s.len() > 0 {
        let d = s.drop_last();
        assert(ascending(d)) by {
            assert forall|i: int, j: int| 0 <= i < j < d.len() implies d[i] < d[j] by {
                assert(d[i] == s[i] && d[j] == s[j]);
            }
        }
        lemma_filter_ascending(d, pred);
        let f = d.filter(pred);
        if pred(s.last()) {
            assert forall|i: int| 0 <= i < f.len() implies f[i] < s.last() by {
                assert(f.contains(f[i]));
                d.lemma_filter_contains_rev(pred, f[i]);
                let k = choose|k: int| 0 <= k < d.len() && d[k] == f[i];
                assert(s[k] == d[k]);
            }
            let g = f.push(s.last());
            assert forall|i: int, j: int| 0 <= i < j < g.len() implies g[i] < g[j] by {
                if j == g.len() - 1 {
                    assert(g[i] == f[i]);
                } else {
                    assert(g[i] == f[i] && g[j] == f[j]);
                }
            }
        }
    }
}

/// What a picked batch is made of: positions in increasing order, no two of
/// which conflict, each picked because it was admissible when its turn came;
/// and with room for one, the batch is never empty.
proof fn lemma_pick_facts(txs: Seq<TxAccess>, rem: Seq<usize>, k: nat, max: nat)
    requires
        k <= rem.len(),
        ascending(rem),
    ensures
        ascending(round_pick(txs, rem, k, max)),
        forall|c1: int, c2: int|
            0 <= c1 < c2 < round_pick(txs, rem, k, max).len() ==> !conflicts(
                txs[round_pick(txs, rem, k, max)[c2] as int],
                txs[round_pick(txs, rem, k, max)[c1] as int],
            ),
        forall|t: int|
            0 <= t < k && #[trigger] round_pick(txs, rem, k, max).contains(rem[t]) ==> admissible(
                txs,
                rem,
                t,
                round_pick(txs, rem, t as nat, max),
            ),
        max >= 1 && k >= 1 ==> round_pick(txs, rem, k, max).len() >= 1,
    decreases k,
{
    if k > 0 {
        lemma_pick_facts(txs, rem, (k - 1) as nat, max);
        lemma_pick_members(txs, rem, (k - 1) as nat, max);
        let prev = round_pick(txs, rem, (k - 1) as nat, max);
        let cur = round_pick(txs, rem, k, max);
        let x = rem[k - 1];
        // Every earlier pick is smaller than the newcomer.
        assert forall|c: int| 0 <= c < prev.len() implies prev[c] < x by {
            let p = choose|p: int| 0 <= p < k - 1 && #[trigger] rem[p] == #[trigger] prev[c];
        }
        if cur.len() > prev.len() {
            assert(cur == prev.push(x));
            assert forall|i: int, j: int| 0 <= i < j < cur.len() implies cur[i] < cur[j] by {
                if j == cur.len() - 1 {
                    assert(cur[i] == prev[i]);
                } else {
                    assert(cur[i] == prev[i] && cur[j] == prev[j]);
                }
            }
            assert forall|c1: int, c2: int| 0 <= c1 < c2 < cur.len() implies !conflicts(
                txs[cur[c2] as int],
                txs[cur[c1] as int],
            ) by {
                assert(cur[c1] == prev[c1]);
                if c2 < prev.len() {
                    assert(cur[c2] == prev[c2]);
                }
            }
        }
        assert forall|t: int| 0 <= t < k && #[trigger] cur.contains(rem[t]) implies admissible(
            txs,
            rem,
            t,
            round_pick(txs, rem, t as nat, max),
        ) by {
            let c = choose|c: int| 0 <= c < cur.len() && cur[c] == rem[t];
            if c < prev.len() {
                assert(cur[c] == prev[c]);
                assert(prev.contains(rem[t]));
                if t == k - 1 {
                    assert(prev[c] < x);
                }
            } else {
                assert(cur[c] == x);
                if t < k - 1 {
                    assert(rem[t] < rem[k - 1]);
                }
            }
        }
    }
}

/// What the schedule of the waiting positions `rem` is made of: members of
/// `rem`, no two conflicting in one batch, each at most once, every one of
/// them when batches have room, and a dependency always in an earlier batch.
proof fn lemma_schedule_facts(txs: Seq<TxAccess>, rem: Seq<usize>, max: nat)
    requires
        ascending(rem),
    ensures
        ({
            let s = schedule_spec(txs, rem, max);
            &&& forall|i: int, c: int| 0 <= i < s.len() && 0 <= c < s[i].len() ==> rem.contains(#[trigger] s[i][c])
            &&& forall|i: int, c1: int, c2: int|
                0 <= i < s.len() && 0 <= c1 < c2 < s[i].len() ==> !conflicts(
                    txs[#[trigger] s[i][c2] as int],
                    txs[#[trigger] s[i][c1] as int],
                )
            &&& forall|i1: int, c1: int, i2: int, c2: int|
                0 <= i1 < s.len() && 0 <= c1 < s[i1].len() && 0 <= i2 < s.len() && 0 <= c2 < s[i2].len()
                    && #[trigger] s[i1][c1] == #[trigger] s[i2][c2] ==> i1 == i2 && c1 == c2
            &&& max >= 1 ==> forall|t: int|
                0 <= t < rem.len() ==> exists|i: int, c: int|
                    0 <= i < s.len() && 0 <= c < s[i].len() && #[trigger] s[i][c] == #[trigger] rem[t]
            &&& forall|i1: int, c1: int, i2: int, c2: int|
                0 <= i1 < s.len() && 0 <= c1 < s[i1].len() && 0 <= i2 < s.len() && 0 <= c2 < s[i2].len()
                    && s[i1][c1] < s[i2][c2] && depends_on(txs[#[trigger] s[i2][c2] as int], txs[#[trigger] s[i1][c1] as int])
                    ==> i1 < i2
        }),
    decreases rem.len(),
{
    let s = schedule_spec(txs, rem, max);
    if rem.len() > 0 {
        let n = rem.len();
        let b = round_pick(txs, rem, n, max);
        lemma_pick_facts(txs, rem, n, max);
        lemma_pick_members(txs, rem, n, max);
        if b.len() > 0 {
            let pred = |x: usize| !b.contains(x);
            let r2 = without(rem, b);
            let p0 = choose|p: int| 0 <= p < n && #[trigger] rem[p] == #[trigger] b[0];
            assert(b.contains(rem[p0]));
            lemma_filter_shorter(rem, pred, p0);
            lemma_filter_ascending(rem, pred);
            lemma_schedule_facts(txs, r2, max);
            let s2 = schedule_spec(txs, r2, max);
            assert(s == seq![b] + s2);
            assert(s[0] == b);
            assert forall|i: int| 1 <= i < s.len() implies s[i] == s2[i - 1] by {}
            // Members of later batches are waiting positions outside `b`.
            assert forall|i: int, c: int| 1 <= i < s.len() && 0 <= c < s[i].len() implies rem.contains(
                s[i][c],
            ) && !b.contains(s[i][c]) by {
                assert(s[i][c] == s2[i - 1][c]);
                assert(r2.contains(s2[i - 1][c]));
                rem.lemma_filter_contains_rev(pred, s2[i - 1][c]);
                let k = choose|k: int| 0 <= k < r2.len() && r2[k] == s2[i - 1][c];
                rem.lemma_filter_pred(pred, k);
            }
            assert forall|c: int| 0 <= c < b.len() implies rem.contains(#[trigger] b[c]) by {
                let p = choose|p: int| 0 <= p < n && #[trigger] rem[p] == #[trigger] b[c];
            }
            assert forall|i1: int, c1: int, i2: int, c2: int|
                0 <= i1 < s.len() && 0 <= c1 < s[i1].len() && 0 <= i2 < s.len() && 0 <= c2 < s[i2].len()
                    && #[trigger] s[i1][c1] == #[trigger] s[i2][c2] implies i1 == i2 && c1 == c2 by {
                if i1 == 0 && i2 == 0 {
                    if c1 < c2 {
                        assert(b[c1] < b[c2]);
                    } else if c2 < c1 {
                        assert(b[c2] < b[c1]);
                    }
                } else if i1 == 0 {
                    assert(b.contains(b[c1]));
                } else if i2 == 0 {
                    assert(b.contains(b[c2]));
                } else {
                    assert(s2[i1 - 1][c1] == s2[i2 - 1][c2]);
                }
            }
            if max >= 1 {
                assert forall|t: int| 0 <= t < rem.len() implies exists|i: int, c: int|
                    0 <= i < s.len() && 0 <= c < s[i].len() && #[trigger] s[i][c] == #[trigger] rem[t] by {
                    if b.contains(rem[t]) {
                        let c = choose|c: int| 0 <= c < b.len() && b[c] == rem[t];
                        assert(s[0][c] == rem[t]);
                    } else {
                        rem.lemma_filter_contains(pred, t);
                        let t2 = choose|t2: int| 0 <= t2 < r2.len() && r2[t2] == rem[t];
                        let (i, c) = choose|i: int, c: int|
                            0 <= i < s2.len() && 0 <= c < s2[i].len() && #[trigger] s2[i][c] == #[trigger] r2[t2];
                        assert(s[i + 1][c] == rem[t]);
                    }
                }
            }
            assert forall|i1: int, c1: int, i2: int, c2: int|
                0 <= i1 < s.len() && 0 <= c1 < s[i1].len() && 0 <= i2 < s.len() && 0 <= c2 < s[i2].len()
                    && s[i1][c1] < s[i2][c2] && depends_on(txs[#[trigger] s[i2][c2] as int], txs[#[trigger] s[i1][c1] as int])
                    implies i1 < i2 by {
                let p = s[i1][c1];
                let q = s[i2][c2];
                if i2 == 0 {
                    // `q` joined the first batch although `p` waits before it.
                    let t = choose|t: int| 0 <= t < n && #[trigger] rem[t] == #[trigger] b[c2];
                    assert(b.contains(rem[t]));
                    assert(admissible(txs, rem, t, round_pick(txs, rem, t as nat, max)));
                    let chosen = round_pick(txs, rem, t as nat, max);
                    let jp = choose|jp: int| 0 <= jp < n && rem[jp] == p;
                    if jp >= t {
                        if jp > t {
                            assert(rem[t] < rem[jp]);
                        }
                    }
                    lemma_dependency_conflicts(txs[q as int], txs[p as int]);
                    if chosen.contains(p) {
                        let c = choose|c: int| 0 <= c < chosen.len() && chosen[c] == p;
                        assert(!conflicts(txs[rem[t] as int], txs[chosen[c] as int]));
                    } else {
                        assert(!depends_on(txs[rem[t] as int], txs[rem[jp] as int]));
                    }
                } else if i1 > 0 {
                    assert(s2[i1 - 1][c1] == p && s2[i2 - 1][c2] == q);
                }
            }
            assert forall|i: int, c1: int, c2: int|
                0 <= i < s.len() && 0 <= c1 < c2 < s[i].len() implies !conflicts(
                    txs[#[trigger] s[i][c2] as int],
                    txs[#[trigger] s[i][c1] as int],
                ) by {
                if i > 0 {
                    assert(s[i][c1] == s2[i - 1][c1] && s[i][c2] == s2[i - 1][c2]);
                }
            }
        }
    }
}

/// `x` is in one of the batches of `s`.
pub open spec fn scheduled(s: Seq<Seq<usize>>, x: usize) -> bool {
    exists|i: int, c: int| 0 <= i < s.len() && 0 <= c < s[i].len() && s[i][c] == x
}

/// The positions `0..n` are in increasing order.
proof fn lemma_all_positions_ascending(n: nat)
    requires
        n <= usize::MAX,
    ensures
        ascending(all_positions(n)),
        forall|i: int| 0 <= i < n ==> #[trigger] all_positions(n)[i] == i,
{
    let all = all_positions(n);
    assert forall|i: int| 0 <= i < n implies #[trigger] all[i] == i by {
        assert(i <= usize::MAX);
    }
    assert forall|i: int, j: int| 0 <= i < j < n implies all[i] < all[j] by {
        assert(all[i] == i && all[j] == j);
    }
}

/// Within a batch, no two transactions conflict: every batch of the schedule
/// can run in parallel.
pub proof fn lemma_schedule_batches_conflict_free(txs: Seq<TxAccess>, max: nat)
    requires
        txs.len() <= usize::MAX,
    ensures
        ({
            let s = schedule_spec(txs, all_positions(txs.len()), max);
            forall|i: int, c1: int, c2: int|
                0 <= i < s.len() && 0 <= c1 < s[i].len() && 0 <= c2 < s[i].len() && c1 != c2 ==> !conflicts(
                    txs[#[trigger] s[i][c1] as int],
                    txs[#[trigger] s[i][c2] as int],
                )
        }),
{
    lemma_all_positions_ascending(txs.len());
    lemma_schedule_facts(txs, all_positions(txs.len()), max);
    let s = schedule_spec(txs, all_positions(txs.len()), max);
    assert forall|i: int, c1: int, c2: int|
        0 <= i < s.len() && 0 <= c1 < s[i].len() && 0 <= c2 < s[i].len() && c1 != c2 implies !conflicts(
        txs[#[trigger] s[i][c1] as int],
        txs[#[trigger] s[i][c2] as int],
    ) by {
        lemma_conflicts_symmetric(txs[s[i][c1] as int], txs[s[i][c2] as int]);
    }
}

/// The schedule is a partition of the transactions: with room for at least
/// one transaction per batch, every position `0..n` is in exactly one batch,
/// once, and nothing else is.
pub proof fn lemma_schedule_partitions(txs: Seq<TxAccess>, max: nat)
    requires
        txs.len() <= usize::MAX,
        max >= 1,
    ensures
        ({
            let s = schedule_spec(txs, all_positions(txs.len()), max);
            &&& forall|i: int, c: int| 0 <= i < s.len() && 0 <= c < s[i].len() ==> #[trigger] s[i][c] < txs.len()
            &&& forall|p: usize| p < txs.len() ==> #[trigger] scheduled(s, p)
            &&& forall|i1: int, c1: int, i2: int, c2: int|
                0 <= i1 < s.len() && 0 <= c1 < s[i1].len() && 0 <= i2 < s.len() && 0 <= c2 < s[i2].len()
                    && #[trigger] s[i1][c1] == #[trigger] s[i2][c2] ==> i1 == i2 && c1 == c2
        }),
{
    let all = all_positions(txs.len());
    lemma_all_positions_ascending(txs.len());
    lemma_schedule_facts(txs, all, max);
    let s = schedule_spec(txs, all, max);
    assert forall|i: int, c: int| 0 <= i < s.len() && 0 <= c < s[i].len() implies #[trigger] s[i][c] < txs.len() by {
        assert(all.contains(s[i][c]));
    }
    assert forall|p: usize| p < txs.len() implies #[trigger] scheduled(s, p) by {
        assert(all[p as int] == p);
        let (i, c) = choose|i: int, c: int|
            0 <= i < s.len() && 0 <= c < s[i].len() && #[trigger] s[i][c] == #[trigger] all[p as int];
    }
}

/// A picked batch holds at most `max` transactions.
proof fn lemma_pick_bound(txs: Seq<TxAccess>, rem: Seq<usize>, k: nat, max: nat)
    ensures
        round_pick(txs, rem, k, max).len() <= max,
    decreases k,
{
    if k > 0 {
        lemma_pick_bound(txs, rem, (k - 1) as nat, max);
    }
}

/// Every batch of a schedule holds at least one and at most `max` transactions.
proof fn lemma_schedule_sizes(txs: Seq<TxAccess>, rem: Seq<usize>, max: nat)
    ensures
        forall|i: int|
            0 <= i < schedule_spec(txs, rem, max).len() ==> 1 <= #[trigger] schedule_spec(txs, rem, max)[i].len()
                <= max,
    decreases rem.len(),
{
    if rem.len() > 0 {
        let b = round_pick(txs, rem, rem.len(), max);
        lemma_pick_bound(txs, rem, rem.len(), max);
        if b.len() > 0 {
            lemma_pick_members(txs, rem, rem.len(), max);
            let p = choose|p: int| 0 <= p < rem.len() && #[trigger] rem[p] == #[trigger] b[0];
            assert(b.contains(rem[p]));
            lemma_filter_shorter(rem, |x: usize| !b.contains(x), p);
            let rest = without(rem, b);
            lemma_schedule_sizes(txs, rest, max);
            let s = schedule_spec(txs, rem, max);
            assert(s == seq![b] + schedule_spec(txs, rest, max));
            assert forall|i: int| 0 <= i < s.len() implies 1 <= #[trigger] s[i].len() <= max by {
                if i > 0 {
                    assert(s[i] == schedule_spec(txs, rest, max)[i - 1]);
                }
            }
        }
    }
}

/// Batches are never empty and never hold more than the batch limit.
pub proof fn lemma_schedule_batch_sizes(txs: Seq<TxAccess>, max: nat)
    requires
        txs.len() <= usize::MAX,
    ensures
        ({
            let s = schedule_spec(txs, all_positions(txs.len()), max);
            forall|i: int| 0 <= i < s.len() ==> 1 <= #[trigger] s[i].len() <= max
        }),
{
    lemma_schedule_sizes(txs, all_positions(txs.len()), max);
}

/// Dependencies are kept in order: when a later transaction reads what an
/// earlier one writes, or writes what it reads, the earlier one runs in an
/// earlier batch.
pub proof fn lemma_schedule_respects_dependencies(txs: Seq<TxAccess>, max: nat)
    requires
        txs.len() <= usize::MAX,
    ensures
        ({
            let s = schedule_spec(txs, all_positions(txs.len()), max);
            forall|i1: int, c1: int, i2: int, c2: int|
                0 <= i1 < s.len() && 0 <= c1 < s[i1].len() && 0 <= i2 < s.len() && 0 <= c2 < s[i2].len()
                    && s[i1][c1] < s[i2][c2] && depends_on(txs[#[trigger] s[i2][c2] as int], txs[#[trigger] s[i1][c1] as int])
                    ==> i1 < i2
        }),
{
    lemma_all_positions_ascending(txs.len());
    lemma_schedule_facts(txs, all_positions(txs.len()), max);
}

} // verus!
