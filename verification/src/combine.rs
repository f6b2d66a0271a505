//! The order-independent combiner: per-entry digests are folded with
//! wrapping 64-bit addition, a commutative and associative operator, so
//! the aggregate depends only on the multiset of entries.

use vstd::prelude::*;

verus! {

/// The modulus of 64-bit wraparound arithmetic.
pub open spec fn word() -> int {
    0x1_0000_0000_0000_0000
}

/// The exact (unbounded) sum of the digests of the entries of `s`,
/// each entry digested by `d`.
pub open spec fn digest_sum<A>(s: Seq<A>, d: spec_fn(A) -> u64) -> int
    decreases s.len(),
{
    if s.len() == 0 {
        0
    } else {
        d(s[0]) + digest_sum(s.drop_first(), d)
    }
}

/// The aggregate hash of the entries of `s` under the per-entry digest
/// `d`: their digests summed with 64-bit wraparound, starting from 0.
pub open spec fn combined_of<A>(s: Seq<A>, d: spec_fn(A) -> u64) -> u64 {
    (digest_sum(s, d) % word()) as u64
}

/// `s` lists every entry of `es` exactly once.
pub open spec fn enumerates<A>(s: Seq<A>, es: Set<A>) -> bool {
    &&& s.no_duplicates()
    &&& s.to_set() == es
}

/// The aggregate hash of a set of entries: the combined hash of any
/// enumeration of `es`. Well-defined because all enumerations agree
/// (`lemma_combined_of_enumeration`).
pub open spec fn aggregate_of<A>(es: Set<A>, d: spec_fn(A) -> u64) -> u64 {
    let s = choose|s: Seq<A>| enumerates(s, es);
    combined_of(s, d)
}

proof fn lemma_digest_sum_nonneg<A>(s: Seq<A>, d: spec_fn(A) -> u64)
    ensures
        digest_sum(s, d) >= 0,
    decreases s.len(),
{
    if s.len() > 0 {
        lemma_digest_sum_nonneg(s.drop_first(), d);
    }
}

/// Appending one entry adds its digest to the unbounded sum.
pub proof fn lemma_digest_sum_push<A>(s: Seq<A>, d: spec_fn(A) -> u64, x: A)
    ensures
        digest_sum(s.push(x), d) == digest_sum(s, d) + d(x),
    decreases s.len(),
{
    if s.len() == 0 {
        reveal_with_fuel(digest_sum, 2);
        assert(s.push(x)[0] == x);
        assert(s.push(x).drop_first() =~= Seq::<A>::empty());
    } else {
        assert(s.push(x)[0] == s[0]);
        assert(s.push(x).drop_first() =~= s.drop_first().push(x));
        lemma_digest_sum_push(s.drop_first(), d, x);
    }
}

proof fn lemma_digest_sum_remove<A>(s: Seq<A>, d: spec_fn(A) -> u64, i: int)
    requires
        0 <= i < s.len(),
    ensures
        digest_sum(s.remove(i), d) == digest_sum(s, d) - d(s[i]),
    decreases s.len(),
{
    if i == 0 {
        assert(s.remove(0) =~= s.drop_first());
    } else {
        lemma_digest_sum_remove(s.drop_first(), d, i - 1);
        assert(s.remove(i).drop_first() =~= s.drop_first().remove(i - 1));
        assert(s.remove(i)[0] == s[0]);
    }
}

/// The unbounded digest sum is invariant under reordering: it depends
/// only on the multiset of entries.
pub proof fn lemma_digest_sum_permutation<A>(a: Seq<A>, b: Seq<A>, d: spec_fn(A) -> u64)
    requires
        a.to_multiset() == b.to_multiset(),
    ensures
        digest_sum(a, d) == digest_sum(b, d),
    decreases a.len(),
{
    broadcast use vstd::seq_lib::group_to_multiset_ensures;

    if a.len() == 0 {
        assert(b.to_multiset().len() == 0);
        assert(b.len() == 0);
    } else {
        let x = a[0];
        assert(a.contains(x));
        assert(b.to_multiset().count(x) > 0);
        assert(b.contains(x));
        let j = choose|j: int| 0 <= j < b.len() && b[j] == x;
        assert(a.drop_first() =~= a.remove(0));
        assert(a.remove(0).to_multiset() =~= a.to_multiset().remove(x));
        assert(b.remove(j).to_multiset() =~= b.to_multiset().remove(x));
        lemma_digest_sum_permutation(a.drop_first(), b.remove(j), d);
        lemma_digest_sum_remove(b, d, j);
    }
}

/// Order independence of the combiner: two entry sequences holding the
/// same entries with the same multiplicities combine to the same
/// aggregate, whatever the order.
pub proof fn lemma_combined_of_permutation<A>(a: Seq<A>, b: Seq<A>, d: spec_fn(A) -> u64)
    requires
        a.to_multiset() == b.to_multiset(),
    ensures
        combined_of(a, d) == combined_of(b, d),
{
    lemma_digest_sum_permutation(a, b, d);
}

/// Two duplicate-free sequences over the same set of entries hold the
/// same multiset of entries.
pub proof fn lemma_enumerations_share_multiset<A>(a: Seq<A>, b: Seq<A>)
    requires
        a.no_duplicates(),
        b.no_duplicates(),
        a.to_set() == b.to_set(),
    ensures
        a.to_multiset() == b.to_multiset(),
{
    broadcast use vstd::seq_lib::group_to_multiset_ensures;

    a.lemma_multiset_has_no_duplicates();
    b.lemma_multiset_has_no_duplicates();
    assert forall|x: A| a.to_multiset().count(x) == b.to_multiset().count(x) by {
        assert(a.contains(x) <==> a.to_set().contains(x));
        assert(b.contains(x) <==> b.to_set().contains(x));
        if a.contains(x) {
            assert(a.to_multiset().count(x) > 0);
            assert(a.to_multiset().contains(x));
            assert(b.to_multiset().contains(x));
        } else {
            assert(a.to_multiset().count(x) == 0);
            assert(b.to_multiset().count(x) == 0);
        }
    }
    assert(a.to_multiset() =~= b.to_multiset());
}

/// The combined hash of any enumeration of `es` is the aggregate hash
/// of `es`: the aggregate is a pure function of the entry set.
pub proof fn lemma_combined_of_enumeration<A>(s: Seq<A>, es: Set<A>, d: spec_fn(A) -> u64)
    requires
        enumerates(s, es),
    ensures
        combined_of(s, d) == aggregate_of(es, d),
{
    let c = choose|c: Seq<A>| enumerates(c, es);
    assert(enumerates(c, es));
    lemma_enumerations_share_multiset(s, c);
    lemma_combined_of_permutation(s, c, d);
}

} // verus!
