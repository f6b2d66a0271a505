//! The unique-element container variant: a wrapper around std's
//! `HashSet` whose aggregate hash is independent of insertion and
//! iteration order.

use vstd::prelude::*;

use std::collections::hash_map::RandomState;
use std::collections::HashSet;
use std::hash::BuildHasher;
use std::hash::Hash;

use crate::combine::combined_of;
use crate::combine::digest_sum;
use crate::combine::enumerates;
use crate::combine::lemma_combined_of_enumeration;
use crate::combine::lemma_digest_sum_push;
use crate::combine::word;
use crate::digest::elem_digest_fn;
use crate::digest::set_aggregate;
use crate::digest::Digester;
use crate::digest::Digestible;
use crate::digest::HashStrategy;
use vstd::std_specs::hash::builds_valid_hashers;
use vstd::std_specs::hash::obeys_key_model;

verus! {

broadcast use vstd::std_specs::hash::group_hash_axioms;

/// Relies on `HashSet::with_hasher`: it creates an empty set that will
/// use the given hash builder.
pub assume_specification<T, S>[ HashSet::<T, S>::with_hasher ](
    hasher: S,
) -> (s: HashSet<T, S>)
    ensures
        s@ == Set::<T>::empty(),
;

/// Relies on `HashSet::with_capacity_and_hasher`: it creates an empty
/// set with at least the given capacity that will use the given hash
/// builder.
pub assume_specification<T, S>[ HashSet::<T, S>::with_capacity_and_hasher ](
    capacity: usize,
    hasher: S,
) -> (s: HashSet<T, S>)
    ensures
        s@ == Set::<T>::empty(),
;

/// A unique-element container that forwards its operations to std's
/// `HashSet` and adds one capability: an aggregate hash of its
/// contents that is independent of insertion and iteration order.
#[verifier::reject_recursive_types(S)]
pub struct HashableSet<T, S = RandomState> {
    inner: HashSet<T, S>,
}

impl<T, S> View for HashableSet<T, S> {
    type V = Set<T>;

    closed spec fn view(&self) -> Set<T> {
        self.inner@
    }
}

impl<T> HashableSet<T> {
    /// Create an empty set.
    pub fn new() -> (s: Self)
        ensures
            s@ == Set::<T>::empty(),
    {
        HashableSet { inner: HashSet::new() }
    }

    /// Create an empty set with at least the given capacity.
    pub fn with_capacity(capacity: usize) -> (s: Self)
        ensures
            s@ == Set::<T>::empty(),
    {
        HashableSet { inner: HashSet::with_capacity(capacity) }
    }
}

impl<T, S> HashableSet<T, S> {
    /// Create an empty set that will use the given hash builder.
    pub fn with_hasher(hash_builder: S) -> (s: Self)
        ensures
            s@ == Set::<T>::empty(),
    {
        HashableSet { inner: HashSet::with_hasher(hash_builder) }
    }

    /// Create an empty set with at least the given capacity that will
    /// use the given hash builder.
    pub fn with_capacity_and_hasher(capacity: usize, hash_builder: S) -> (s: Self)
        ensures
            s@ == Set::<T>::empty(),
    {
        HashableSet { inner: HashSet::with_capacity_and_hasher(capacity, hash_builder) }
    }

    /// Wrap an existing std set, preserving its contents exactly.
    pub fn from_set(s: HashSet<T, S>) -> (r: Self)
        ensures
            r@ == s@,
    {
        HashableSet { inner: s }
    }

    /// Unwrap into the underlying std set, preserving the contents
    /// exactly.
    pub fn into_set(self) -> (s: HashSet<T, S>)
        ensures
            s@ == self@,
    {
        self.inner
    }

    /// Borrow the underlying std set.
    pub fn as_set(&self) -> (s: &HashSet<T, S>)
        ensures
            s@ == self@,
    {
        &self.inner
    }

    /// The number of elements.
    pub fn len(&self) -> (n: usize)
        requires
            obeys_key_model::<T>(),
            builds_valid_hashers::<S>(),
        ensures
            n == self@.len(),
    {
        self.inner.len()
    }

    /// Whether the set holds no element.
    pub fn is_empty(&self) -> (e: bool)
        requires
            obeys_key_model::<T>(),
            builds_valid_hashers::<S>(),
        ensures
            e == self@.is_empty(),
    {
        self.inner.is_empty()
    }
}

impl<T: Eq + Hash, S: BuildHasher> HashableSet<T, S> {
    /// Add `t`, returning whether it was newly added.
    pub fn insert(&mut self, t: T) -> (added: bool)
        requires
            obeys_key_model::<T>(),
            builds_valid_hashers::<S>(),
        ensures
            final(self)@ == old(self)@.insert(t),
            added == !old(self)@.contains(t),
    {
        self.inner.insert(t)
    }

    /// Add every element of `elems`, in order.
    pub fn extend(&mut self, elems: Vec<T>)
        requires
            obeys_key_model::<T>(),
            builds_valid_hashers::<S>(),
        ensures
            final(self)@ == inserted_all(old(self)@, elems@),
    {
        let ghost all = elems@;
        let ghost s0 = self@;
        let mut rest = elems;
        while rest.len() > 0
            invariant
                obeys_key_model::<T>(),
                builds_valid_hashers::<S>(),
                rest@.len() <= all.len(),
                rest@ =~= all.skip(all.len() - rest@.len()),
                self@ == inserted_all(s0, all.take(all.len() - rest@.len())),
            decreases rest.len(),
        {
            let ghost k: int = all.len() - rest@.len();
            let t = rest.remove(0);
            proof {
                assert(t == all[k]);
                assert(rest@ =~= all.skip(k + 1));
                assert(all.take(k + 1) =~= all.take(k).push(t));
                lemma_inserted_all_push(s0, all.take(k), t);
            }
            self.insert(t);
        }
        proof {
            assert(all.take(all.len() as int) =~= all);
        }
    }

    /// Remove `t`, returning whether it was present.
    pub fn remove(&mut self, t: &T) -> (removed: bool)
        requires
            obeys_key_model::<T>(),
            builds_valid_hashers::<S>(),
        ensures
            final(self)@ == old(self)@.remove(*t),
            removed == old(self)@.contains(*t),
    {
        self.inner.remove(t)
    }

    /// Whether `t` is an element.
    pub fn contains(&self, t: &T) -> (r: bool)
        requires
            obeys_key_model::<T>(),
            builds_valid_hashers::<S>(),
        ensures
            r == self@.contains(*t),
    {
        self.inner.contains(t)
    }

    /// Remove every element.
    pub fn clear(&mut self)
        ensures
            final(self)@ == Set::<T>::empty(),
    {
        self.inner.clear()
    }
}

fn is_subset<T: Eq + Hash, S: BuildHasher>(a: &HashSet<T, S>, b: &HashSet<T, S>) -> (r: bool)
    requires
        obeys_key_model::<T>(),
        builds_valid_hashers::<S>(),
    ensures
        r == a@.subset_of(b@),
{
    if a.is_empty() {
        proof {
            assert(a@ =~= Set::<T>::empty());
        }
        return true;
    }
    let mut ok = true;
    for t in it: a.iter()
        invariant
            obeys_key_model::<T>(),
            builds_valid_hashers::<S>(),
            it.seq().unref().to_set() == a@,
            ok <==> (forall|i: int|
                0 <= i < it.index() ==> b@.contains(#[trigger] it.seq().unref()[i])),
            it.index() == it.seq().len() ==> (ok <==> a@.subset_of(b@)),
    {
        let c = b.contains(t);
        ok = ok && c;
        proof {
            assert(t == it.seq()[it.index()]);
            assert(c == b@.contains(it.seq().unref()[it.index()]));
            assert((it.index() + 1 == it.seq().len() && ok) ==> a@.subset_of(b@)) by {
                if forall|i: int|
                    0 <= i < it.seq().len() ==> b@.contains(#[trigger] it.seq().unref()[i]) {
                    assert forall|x: T| a@.contains(x) implies b@.contains(x) by {
                        assert(it.seq().unref().to_set().contains(x));
                        assert(it.seq().unref().contains(x));
                        let i = choose|i: int|
                            0 <= i < it.seq().unref().len() && it.seq().unref()[i] == x;
                        assert(b@.contains(it.seq().unref()[i]));
                    }
                }
            }
            assert((it.index() + 1 == it.seq().len() && a@.subset_of(b@)) ==> (ok
                <==> a@.subset_of(b@))) by {
                if a@.subset_of(b@) {
                    assert forall|i: int|
                        0 <= i < it.index() + 1 implies b@.contains(
                        #[trigger] it.seq().unref()[i],
                    ) by {
                        assert(it.seq().unref().contains(it.seq().unref()[i]));
                        assert(it.seq().unref().to_set().contains(it.seq().unref()[i]));
                        assert(a@.contains(it.seq().unref()[i]));
                    }
                }
            }
        }
    }
    ok
}

impl<T: Eq + Hash, S: BuildHasher> HashableSet<T, S> {
    /// Whether `self` and `other` hold exactly the same elements.
    pub fn content_eq(&self, other: &Self) -> (r: bool)
        requires
            obeys_key_model::<T>(),
            builds_valid_hashers::<S>(),
        ensures
            r == (self@ == other@),
    {
        let ab = is_subset(&self.inner, &other.inner);
        let ba = is_subset(&other.inner, &self.inner);
        proof {
            if self@.subset_of(other@) && other@.subset_of(self@) {
                assert(self@ =~= other@);
            }
        }
        ab && ba
    }
}

impl<T: Digestible + Eq + Hash, S: BuildHasher> HashableSet<T, S> {
    /// The aggregate hash of the current contents under `strategy`:
    /// each element is digested by one fresh digester fed its
    /// representation, and the per-element digests are folded with
    /// wrapping 64-bit addition. The result is a pure function of the
    /// element set, whatever order the elements are stored or visited
    /// in.
    pub fn combined_hash<St: HashStrategy>(&self, strategy: &St) -> (r: u64)
        requires
            obeys_key_model::<T>(),
            builds_valid_hashers::<S>(),
        ensures
            r == set_aggregate::<St, T>(self@),
    {
        let ghost d = elem_digest_fn::<St, T>();
        if self.inner.is_empty() {
            proof {
                assert(self@ =~= Set::<T>::empty());
                assert(Seq::<T>::empty().to_set() =~= Set::<T>::empty());
                assert(enumerates(Seq::<T>::empty(), self@));
                lemma_combined_of_enumeration(Seq::<T>::empty(), self@, d);
            }
            return 0;
        }
        let ghost mut done: Seq<T> = Seq::empty();
        let mut acc: u64 = 0;
        for t in it: self.inner.iter()
            invariant
                obeys_key_model::<T>(),
                builds_valid_hashers::<S>(),
                d == elem_digest_fn::<St, T>(),
                done =~= it.seq().unref().take(it.index()),
                acc as int == digest_sum(done, d) % word(),
                it.seq().no_duplicates(),
                it.seq().unref().to_set() == self@,
                it.index() == it.seq().len() ==> enumerates(done, self@),
        {
            let mut dg = strategy.fresh_digester();
            let tb = t.repr_bytes();
            dg.write_piece(tb.as_slice());
            let h = dg.finish();
            proof {
                let elem = *t;
                assert(it.index() < it.seq().len());
                assert(t == it.seq()[it.index()]);
                assert(elem == it.seq().unref()[it.index()]);
                assert(dg.digested() =~= seq![elem.repr()]);
                assert(h == d(elem));
                assert(it.seq().unref().take(it.index() + 1) =~= done.push(elem));
                lemma_digest_sum_push(done, d, elem);
                vstd::arithmetic::div_mod::lemma_add_mod_noop(
                    digest_sum(done, d),
                    h as int,
                    word(),
                );
                vstd::arithmetic::div_mod::lemma_small_mod(h as nat, word() as nat);
                vstd::arithmetic::div_mod::lemma_mod_multiples_vanish(
                    1,
                    acc + h - word(),
                    word(),
                );
                vstd::arithmetic::div_mod::lemma_small_mod(
                    (if acc + h < word() {
                        acc + h
                    } else {
                        acc + h - word()
                    }) as nat,
                    word() as nat,
                );
            }
            proof {
                done = done.push(*t);
            }
            proof {
                assert forall|i: int, j: int|
                    0 <= i < j < it.seq().unref().len() implies it.seq().unref()[i]
                    != it.seq().unref()[j] by {
                    assert(it.seq()[i] != it.seq()[j]);
                }
                assert(it.seq().unref().no_duplicates());
                assert(done =~= it.seq().unref().take(it.index() + 1));
                assert(it.index() + 1 == it.seq().len() ==> done =~= it.seq().unref());
                assert(it.index() + 1 == it.seq().len() ==> enumerates(done, self@));
            }
            acc = acc.wrapping_add(h);
        }
        proof {
            assert(enumerates(done, self@));
            lemma_combined_of_enumeration(done, self@, d);
            assert(combined_of(done, d) == set_aggregate::<St, T>(self@));
        }
        acc
    }
}

impl<T: Copy + Eq + Hash, S: BuildHasher> HashableSet<T, S> {
    /// The current elements, in an unspecified order, each exactly
    /// once.
    pub fn to_elements(&self) -> (r: Vec<T>)
        requires
            obeys_key_model::<T>(),
            builds_valid_hashers::<S>(),
        ensures
            r@.no_duplicates(),
            r@.to_set() == self@,
            r@.len() == self@.len(),
    {
        if self.inner.is_empty() {
            let r: Vec<T> = Vec::new();
            proof {
                assert(self@ =~= Set::<T>::empty());
                assert(r@.to_set() =~= Set::<T>::empty());
            }
            return r;
        }
        let mut r: Vec<T> = Vec::new();
        for t in it: self.inner.iter()
            invariant
                obeys_key_model::<T>(),
                builds_valid_hashers::<S>(),
                r@ =~= it.seq().unref().take(it.index()),
                it.seq().no_duplicates(),
                it.seq().unref().to_set() == self@,
                it.seq().len() == self@.len(),
                it.index() == it.seq().len() ==> r@.no_duplicates() && r@.to_set() == self@
                    && r@.len() == self@.len(),
        {
            r.push(*t);
            proof {
                assert(t == it.seq()[it.index()]);
                assert(r@ =~= it.seq().unref().take(it.index() + 1));
                assert forall|i: int, j: int|
                    0 <= i < j < it.seq().unref().len() implies it.seq().unref()[i]
                    != it.seq().unref()[j] by {
                    assert(it.seq()[i] != it.seq()[j]);
                }
                assert(it.seq().unref().no_duplicates());
                assert(it.index() + 1 == it.seq().len() ==> r@ =~= it.seq().unref());
            }
        }
        r
    }
}

/// The contents of `s0` after inserting the elements of `s`, in order.
pub open spec fn inserted_all<T>(s0: Set<T>, s: Seq<T>) -> Set<T>
    decreases s.len(),
{
    if s.len() == 0 {
        s0
    } else {
        inserted_all(s0, s.drop_last()).insert(s.last())
    }
}

/// The contents of a set built by inserting the elements of `s`, in
/// order, into an empty set.
pub open spec fn set_from_elems<T>(s: Seq<T>) -> Set<T> {
    inserted_all(Set::empty(), s)
}

proof fn lemma_inserted_all_push<T>(s0: Set<T>, s: Seq<T>, t: T)
    ensures
        inserted_all(s0, s.push(t)) == inserted_all(s0, s).insert(t),
{
    assert(s.push(t).drop_last() =~= s);
    assert(s.push(t).last() == t);
}

proof fn lemma_set_from_elems_is_to_set<T>(s: Seq<T>)
    ensures
        set_from_elems(s) == s.to_set(),
    decreases s.len(),
{
    if s.len() == 0 {
        assert(set_from_elems(s) =~= s.to_set());
    } else {
        let rest = s.drop_last();
        lemma_set_from_elems_is_to_set(rest);
        assert forall|x: T| s.contains(x) implies rest.contains(x) || x == s.last() by {
            let i = choose|i: int| 0 <= i < s.len() && s[i] == x;
            if i < s.len() - 1 {
                assert(rest[i] == x);
            }
        }
        assert forall|x: T| rest.contains(x) implies s.contains(x) by {
            let i = choose|i: int| 0 <= i < rest.len() && rest[i] == x;
            assert(s[i] == x);
        }
        assert(s[s.len() - 1] == s.last());
        assert(s.contains(s.last()));
        assert(set_from_elems(s) =~= s.to_set());
    }
}

/// Order independence at the container level: inserting the same
/// elements in any two orders builds sets with exactly the same
/// contents.
pub proof fn lemma_insert_order_independent<T>(a: Seq<T>, b: Seq<T>)
    requires
        a.to_multiset() == b.to_multiset(),
    ensures
        set_from_elems(a) == set_from_elems(b),
{
    broadcast use vstd::seq_lib::group_to_multiset_ensures;

    lemma_set_from_elems_is_to_set(a);
    lemma_set_from_elems_is_to_set(b);
    assert forall|x: T| a.contains(x) implies b.contains(x) by {
        assert(a.to_multiset().count(x) > 0);
    }
    assert forall|x: T| b.contains(x) implies a.contains(x) by {
        assert(b.to_multiset().count(x) > 0);
    }
    assert(a.to_set() =~= b.to_set());
}

/// Order independence of the aggregate hash: containers built from
/// the same elements inserted in any two orders have the same
/// aggregate hash under the same strategy.
pub proof fn lemma_hash_insert_order_independent<St: HashStrategy, T: Digestible>(
    a: Seq<T>,
    b: Seq<T>,
)
    requires
        a.to_multiset() == b.to_multiset(),
    ensures
        set_aggregate::<St, T>(set_from_elems(a)) == set_aggregate::<St, T>(set_from_elems(b)),
{
    lemma_insert_order_independent(a, b);
}

/// The hash/equality contract: two sets that hold exactly the same
/// elements have the same aggregate hash under the same strategy.
pub proof fn lemma_equal_contents_equal_hash<St: HashStrategy, T: Digestible>(a: Set<T>, b: Set<T>)
    requires
        forall|t: T| #[trigger] a.contains(t) <==> #[trigger] b.contains(t),
    ensures
        set_aggregate::<St, T>(a) == set_aggregate::<St, T>(b),
{
    assert(a =~= b);
}

} // verus!
