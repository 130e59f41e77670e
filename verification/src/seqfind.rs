//! The first position in a sequence at which a predicate holds.
use vstd::prelude::*;

verus! {

/// `i` is the first position of `s` at which `p` holds.
pub open spec fn is_first_match<T>(s: Seq<T>, p: spec_fn(T) -> bool, i: int) -> bool {
    &&& 0 <= i < s.len()
    &&& p(s[i])
    &&& forall|j: int| 0 <= j < i ==> !p(#[trigger] s[j])
}

/// The first position of `s` at which `p` holds, or -1 when there is none.
pub open spec fn first_match<T>(s: Seq<T>, p: spec_fn(T) -> bool) -> int {
    if exists|i: int| is_first_match(s, p, i) {
        choose|i: int| is_first_match(s, p, i)
    } else {
        -1
    }
}

/// The first match is unique, and is -1 exactly when nothing matches.
pub proof fn lemma_first_match<T>(s: Seq<T>, p: spec_fn(T) -> bool, i: int)
    ensures
        is_first_match(s, p, i) ==> first_match(s, p) == i,
        (forall|j: int| 0 <= j < s.len() ==> !p(#[trigger] s[j])) ==> first_match(s, p) == -1,
        first_match(s, p) == -1 || is_first_match(s, p, first_match(s, p)),
{
    if is_first_match(s, p, i) {
        let k = choose|k: int| is_first_match(s, p, k);
        assert(is_first_match(s, p, k));
        if k < i {
            assert(!p(s[k]));
        }
        if i < k {
            assert(!p(s[i]));
        }
    }
}


/// Filtering a one-longer prefix either keeps or drops the new element.
pub proof fn lemma_filter_take_step<T>(s: Seq<T>, p: spec_fn(T) -> bool, i: int)
    requires
        0 <= i < s.len(),
    ensures
        s.take(i + 1).filter(p) == (if p(s[i]) {
            s.take(i).filter(p).push(s[i])
        } else {
            s.take(i).filter(p)
        }),
{
    reveal_with_fuel(Seq::filter, 1);
    assert(s.take(i + 1).drop_last() =~= s.take(i));
    assert(s.take(i + 1).last() == s[i]);
}

/// A sequence is its own longest prefix.
pub proof fn lemma_take_full<T>(s: Seq<T>)
    ensures
        s.take(s.len() as int) == s,
{
    assert(s.take(s.len() as int) =~= s);
}


/// The sum of `f` over the elements of `s`.
pub open spec fn sum_by<T>(s: Seq<T>, f: spec_fn(T) -> int) -> int
    decreases s.len(),
{
    if s.len() == 0 {
        0
    } else {
        sum_by(s.drop_last(), f) + f(s.last())
    }
}

/// `x` capped at `u128::MAX`: the result of saturating additions.
pub open spec fn cap128(x: int) -> int {
    if x > u128::MAX as int {
        u128::MAX as int
    } else {
        x
    }
}

/// The sum over a one-longer prefix adds the new element.
pub proof fn lemma_sum_take_step<T>(s: Seq<T>, f: spec_fn(T) -> int, i: int)
    requires
        0 <= i < s.len(),
    ensures
        sum_by(s.take(i + 1), f) == sum_by(s.take(i), f) + f(s[i]),
{
    assert(s.take(i + 1).drop_last() =~= s.take(i));
    assert(s.take(i + 1).last() == s[i]);
}

/// Sums of non-negative terms are non-negative.
pub proof fn lemma_sum_nonneg<T>(s: Seq<T>, f: spec_fn(T) -> int)
    requires
        forall|x: T| #[trigger] f(x) >= 0,
    ensures
        sum_by(s, f) >= 0,
    decreases s.len(),
{
    if s.len() > 0 {
        lemma_sum_nonneg(s.drop_last(), f);
    }
}

/// Saturating one step at a time is saturating once at the end.
pub proof fn lemma_cap_add(x: int, y: int)
    requires
        x >= 0,
        y >= 0,
    ensures
        cap128(cap128(x) + y) == cap128(x + y),
{
}


/// `i` is the last position of `s` at which `p` holds.
pub open spec fn is_last_match<T>(s: Seq<T>, p: spec_fn(T) -> bool, i: int) -> bool {
    &&& 0 <= i < s.len()
    &&& p(s[i])
    &&& forall|j: int| i < j < s.len() ==> !p(#[trigger] s[j])
}

/// The last position of `s` at which `p` holds, or -1 when there is none.
pub open spec fn last_match<T>(s: Seq<T>, p: spec_fn(T) -> bool) -> int {
    if exists|i: int| is_last_match(s, p, i) {
        choose|i: int| is_last_match(s, p, i)
    } else {
        -1
    }
}

/// The last match is unique, and is -1 exactly when nothing matches.
pub proof fn lemma_last_match<T>(s: Seq<T>, p: spec_fn(T) -> bool, i: int)
    ensures
        is_last_match(s, p, i) ==> last_match(s, p) == i,
        (forall|j: int| 0 <= j < s.len() ==> !p(#[trigger] s[j])) ==> last_match(s, p) == -1,
{
    if is_last_match(s, p, i) {
        let k = choose|k: int| is_last_match(s, p, k);
        assert(is_last_match(s, p, k));
        if k < i {
            assert(!p(s[i]));
        }
        if i < k {
            assert(!p(s[k]));
        }
    }
}

/// Replacing one element changes the sum by the difference.
pub proof fn lemma_sum_update<T>(s: Seq<T>, f: spec_fn(T) -> int, i: int, x: T)
    requires
        0 <= i < s.len(),
    ensures
        sum_by(s.update(i, x), f) == sum_by(s, f) - f(s[i]) + f(x),
    decreases s.len(),
{
    let t = s.update(i, x);
    if i < s.len() - 1 {
        assert(t.drop_last() =~= s.drop_last().update(i, x));
        lemma_sum_update(s.drop_last(), f, i, x);
    } else {
        assert(t.drop_last() =~= s.drop_last());
    }
}

/// Adding `k` of each element to `g` of each element adds the sum of `k`.
pub proof fn lemma_sum_map_add<T>(s: Seq<T>, h: spec_fn(T) -> T, g: spec_fn(T) -> int, k: spec_fn(T) -> int)
    requires
        forall|i: int| 0 <= i < s.len() ==> g(h(#[trigger] s[i])) == g(s[i]) + k(s[i]),
    ensures
        sum_by(s.map_values(h), g) == sum_by(s, g) + sum_by(s, k),
    decreases s.len(),
{
    if s.len() > 0 {
        let d = s.drop_last();
        assert(s.map_values(h).drop_last() =~= d.map_values(h));
        assert forall|i: int| 0 <= i < d.len() implies g(h(#[trigger] d[i])) == g(d[i]) + k(d[i]) by {
            assert(d[i] == s[i]);
        }
        lemma_sum_map_add(d, h, g, k);
        assert(g(h(s[s.len() - 1])) == g(s.last()) + k(s.last()));
    }
}

/// With non-negative terms, one term is at most the sum.
pub proof fn lemma_sum_term_bound<T>(s: Seq<T>, f: spec_fn(T) -> int, i: int)
    requires
        0 <= i < s.len(),
        forall|x: T| #[trigger] f(x) >= 0,
    ensures
        f(s[i]) <= sum_by(s, f),
    decreases s.len(),
{
    lemma_sum_nonneg(s.drop_last(), f);
    if i < s.len() - 1 {
        assert(s.drop_last()[i] == s[i]);
        lemma_sum_term_bound(s.drop_last(), f, i);
    }
}

/// Appending an element adds its term.
pub proof fn lemma_sum_push<T>(s: Seq<T>, f: spec_fn(T) -> int, x: T)
    ensures
        sum_by(s.push(x), f) == sum_by(s, f) + f(x),
{
    assert(s.push(x).drop_last() =~= s);
}

/// Filtering out only zero terms keeps the sum.
pub proof fn lemma_sum_filter_zero<T>(s: Seq<T>, p: spec_fn(T) -> bool, f: spec_fn(T) -> int)
    requires
        forall|i: int| 0 <= i < s.len() && !p(#[trigger] s[i]) ==> f(s[i]) == 0,
    ensures
        sum_by(s.filter(p), f) == sum_by(s, f),
    decreases s.len(),
{
    reveal_with_fuel(Seq::filter, 1);
    if s.len() > 0 {
        let d = s.drop_last();
        assert forall|i: int| 0 <= i < d.len() && !p(#[trigger] d[i]) implies f(d[i]) == 0 by {
            assert(d[i] == s[i]);
        }
        lemma_sum_filter_zero(d, p, f);
        if p(s.last()) {
            lemma_sum_push(d.filter(p), f, s.last());
        } else {
            assert(!p(s[s.len() - 1]));
        }
    }
}

/// A sum of zeros is zero.
pub proof fn lemma_sum_zero<T>(s: Seq<T>, f: spec_fn(T) -> int)
    requires
        forall|i: int| 0 <= i < s.len() ==> f(#[trigger] s[i]) == 0,
    ensures
        sum_by(s, f) == 0,
    decreases s.len(),
{
    if s.len() > 0 {
        let d = s.drop_last();
        assert forall|i: int| 0 <= i < d.len() implies f(#[trigger] d[i]) == 0 by {
            assert(d[i] == s[i]);
        }
        lemma_sum_zero(d, f);
        assert(f(s[s.len() - 1]) == 0);
    }
}

/// Negating every term negates the sum.
pub proof fn lemma_sum_negate<T>(s: Seq<T>, f: spec_fn(T) -> int, g: spec_fn(T) -> int)
    requires
        forall|x: T| #[trigger] g(x) == -f(x),
    ensures
        sum_by(s, g) == -sum_by(s, f),
    decreases s.len(),
{
    if s.len() > 0 {
        lemma_sum_negate(s.drop_last(), f, g);
    }
}

} // verus!
