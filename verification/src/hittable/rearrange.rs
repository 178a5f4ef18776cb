use vstd::prelude::*;
use vstd::seq_lib::{lemma_multiset_commutative, to_multiset_contains};

verus! {

/// Whether `after` is `before` with the entries from `start` to `end`
/// in another order and all others in place.
pub open spec fn rearranged<T>(before: Seq<T>, after: Seq<T>, start: int, end: int) -> bool {
    &&& after.len() == before.len()
    &&& forall|i: int|
        0 <= i < before.len() && !(start <= i < end) ==> #[trigger] after[i] == before[i]
    &&& after.subrange(start, end).to_multiset() == before.subrange(start, end).to_multiset()
}

/// Every entry of a rearranged range stood somewhere in that range before.
pub proof fn lemma_rearranged_member<T>(before: Seq<T>, after: Seq<T>, start: int, end: int, i: int)
    requires
        rearranged(before, after, start, end),
        0 <= start <= i < end <= before.len(),
    ensures
        exists|j: int| start <= j < end && #[trigger] before[j] == after[i],
{
    let sa = after.subrange(start, end);
    let sb = before.subrange(start, end);
    let x = after[i];
    assert(sa[i - start] == x);
    assert(sa.contains(x));
    to_multiset_contains(sa, x);
    to_multiset_contains(sb, x);
    assert(sb.contains(x));
    let k = choose|k: int| 0 <= k < sb.len() && sb[k] == x;
    assert(before[start + k] == x);
}

/// Rearranging part of a range rearranges the range.
pub proof fn lemma_rearranged_widen<T>(
    before: Seq<T>,
    after: Seq<T>,
    start: int,
    lo: int,
    hi: int,
    end: int,
)
    requires
        rearranged(before, after, lo, hi),
        0 <= start <= lo <= hi <= end <= before.len(),
    ensures
        rearranged(before, after, start, end),
{
    let b0 = before.subrange(start, lo);
    let b1 = before.subrange(lo, hi);
    let b2 = before.subrange(hi, end);
    let a0 = after.subrange(start, lo);
    let a1 = after.subrange(lo, hi);
    let a2 = after.subrange(hi, end);
    assert(a0 =~= b0);
    assert(a2 =~= b2);
    assert(before.subrange(start, end) =~= (b0 + b1) + b2);
    assert(after.subrange(start, end) =~= (a0 + a1) + a2);
    lemma_multiset_commutative(b0, b1);
    lemma_multiset_commutative(b0 + b1, b2);
    lemma_multiset_commutative(a0, a1);
    lemma_multiset_commutative(a0 + a1, a2);
}

/// Rearranging twice within one range is rearranging once.
pub proof fn lemma_rearranged_twice<T>(a: Seq<T>, b: Seq<T>, c: Seq<T>, start: int, end: int)
    requires
        rearranged(a, b, start, end),
        rearranged(b, c, start, end),
    ensures
        rearranged(a, c, start, end),
{
}

/// What was rearranged can be rearranged back.
pub proof fn lemma_rearranged_back<T>(before: Seq<T>, after: Seq<T>, start: int, end: int)
    requires
        rearranged(before, after, start, end),
    ensures
        rearranged(after, before, start, end),
{
}

} // verus!
