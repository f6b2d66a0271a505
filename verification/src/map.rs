//! The key/value container variant: a wrapper around std's `HashMap`
//! whose aggregate hash is independent of insertion and iteration
//! order.

use vstd::prelude::*;

use std::collections::hash_map::RandomState;
use std::collections::HashMap;
use std::hash::BuildHasher;
use std::hash::Hash;

use crate::combine::combined_of;
use crate::combine::digest_sum;
use crate::combine::enumerates;
use crate::combine::lemma_combined_of_enumeration;
use crate::combine::lemma_digest_sum_push;
use crate::combine::word;
use crate::digest::map_aggregate;
use crate::digest::pair_digest_fn;
use crate::digest::Digester;
use crate::digest::Digestible;
use crate::digest::HashStrategy;
use vstd::std_specs::cmp::PartialEqSpec;
use vstd::std_specs::hash::builds_valid_hashers;
use vstd::std_specs::hash::obeys_key_model;

verus! {

broadcast use vstd::std_specs::hash::group_hash_axioms;

/// Relies on `HashMap::with_hasher`: it creates an empty map that will
/// use the given hash builder.
pub assume_specification<K, V, S>[ HashMap::<K, V, S>::with_hasher ](
    hash_builder: S,
) -> (m: HashMap<K, V, S>)
    ensures
        m@ == (Map::<K, V>::empty()),
;

/// Relies on `HashMap::with_capacity_and_hasher`: it creates an empty
/// map with at least the given capacity that will use the given hash
/// builder.
pub assume_specification<K, V, S>[ HashMap::<K, V, S>::with_capacity_and_hasher ](
    capacity: usize,
    hash_builder: S,
) -> (m: HashMap<K, V, S>)
    ensures
        m@ == (Map::<K, V>::empty()),
;

/// A key/value container that forwards its operations to std's
/// `HashMap` and adds one capability: an aggregate hash of its
/// contents that is independent of insertion and iteration order.
#[verifier::reject_recursive_types(S)]
pub struct HashableMap<K, V, S = RandomState> {
    inner: HashMap<K, V, S>,
}

impl<K, V, S> View for HashableMap<K, V, S> {
    type V = Map<K, V>;

    closed spec fn view(&self) -> Map<K, V> {
        self.inner@
    }
}

impl<K, V> HashableMap<K, V> {
    /// Create an empty map.
    pub fn new() -> (m: Self)
        ensures
            m@ == Map::<K, V>::empty(),
    {
        HashableMap { inner: HashMap::new() }
    }

    /// Create an empty map with at least the given capacity.
    pub fn with_capacity(capacity: usize) -> (m: Self)
        ensures
            m@ == Map::<K, V>::empty(),
    {
        HashableMap { inner: HashMap::with_capacity(capacity) }
    }
}

impl<K, V, S> HashableMap<K, V, S> {
    /// Create an empty map that will use the given hash builder.
    pub fn with_hasher(hash_builder: S) -> (m: Self)
        ensures
            m@ == Map::<K, V>::empty(),
    {
        HashableMap { inner: HashMap::with_hasher(hash_builder) }
    }

    /// Create an empty map with at least the given capacity that will
    /// use the given hash builder.
    pub fn with_capacity_and_hasher(capacity: usize, hash_builder: S) -> (m: Self)
        ensures
            m@ == Map::<K, V>::empty(),
    {
        HashableMap { inner: HashMap::with_capacity_and_hasher(capacity, hash_builder) }
    }

    /// Wrap an existing std map, preserving its contents exactly.
    pub fn from_map(m: HashMap<K, V, S>) -> (r: Self)
        ensures
            r@ == m@,
    {
        HashableMap { inner: m }
    }

    /// Unwrap into the underlying std map, preserving the contents
    /// exactly.
    pub fn into_map(self) -> (m: HashMap<K, V, S>)
        ensures
            m@ == self@,
    {
        self.inner
    }

    /// Borrow the underlying std map.
    pub fn as_map(&self) -> (m: &HashMap<K, V, S>)
        ensures
            m@ == self@,
    {
        &self.inner
    }

    /// The number of entries.
    pub fn len(&self) -> (n: usize)
        requires
            obeys_key_model::<K>(),
            builds_valid_hashers::<S>(),
        ensures
            n == self@.dom().len(),
    {
        self.inner.len()
    }

    /// Whether the map holds no entry.
    pub fn is_empty(&self) -> (e: bool)
        requires
            obeys_key_model::<K>(),
            builds_valid_hashers::<S>(),
        ensures
            e == self@.is_empty(),
    {
        self.inner.is_empty()
    }
}

impl<K: Eq + Hash, V, S: BuildHasher> HashableMap<K, V, S> {
    /// Map `k` to `v`, returning the value previously under `k`, if
    /// any.
    pub fn insert(&mut self, k: K, v: V) -> (prev: Option<V>)
        requires
            obeys_key_model::<K>(),
            builds_valid_hashers::<S>(),
        ensures
            final(self)@ == old(self)@.insert(k, v),
            match prev {
                Some(p) => old(self)@.contains_key(k) && p == old(self)@[k],
                None => !old(self)@.contains_key(k),
            },
    {
        self.inner.insert(k, v)
    }

    /// Insert every entry of `entries`, in order: a later entry wins
    /// over an earlier one under the same key.
    pub fn extend(&mut self, entries: Vec<(K, V)>)
        requires
            obeys_key_model::<K>(),
            builds_valid_hashers::<S>(),
        ensures
            final(self)@ == inserted_all(old(self)@, entries@),
    {
        let ghost all = entries@;
        let ghost m0 = self@;
        let mut rest = entries;
        while rest.len() > 0
            invariant
                obeys_key_model::<K>(),
                builds_valid_hashers::<S>(),
                rest@.len() <= all.len(),
                rest@ =~= all.skip(all.len() - rest@.len()),
                self@ == inserted_all(m0, all.take(all.len() - rest@.len())),
            decreases rest.len(),
        {
            let ghost k: int = all.len() - rest@.len();
            let p = rest.remove(0);
            proof {
                assert(p == all[k]);
                assert(rest@ =~= all.skip(k + 1));
                assert(all.take(k + 1) =~= all.take(k).push(p));
                lemma_inserted_all_push(m0, all.take(k), p);
            }
            self.insert(p.0, p.1);
        }
        proof {
            assert(all.take(all.len() as int) =~= all);
        }
    }

    /// Remove the entry under `k`, returning its value, if any.
    pub fn remove(&mut self, k: &K) -> (prev: Option<V>)
        requires
            obeys_key_model::<K>(),
            builds_valid_hashers::<S>(),
        ensures
            final(self)@ == old(self)@.remove(*k),
            match prev {
                Some(p) => old(self)@.contains_key(*k) && p == old(self)@[*k],
                None => !old(self)@.contains_key(*k),
            },
    {
        self.inner.remove(k)
    }

    /// The value under `k`, if any.
    pub fn get(&self, k: &K) -> (v: Option<&V>)
        requires
            obeys_key_model::<K>(),
            builds_valid_hashers::<S>(),
        ensures
            match v {
                Some(v) => self@.contains_key(*k) && *v == self@[*k],
                None => !self@.contains_key(*k),
            },
    {
        self.inner.get(k)
    }

    /// Whether an entry is under `k`.
    pub fn contains_key(&self, k: &K) -> (r: bool)
        requires
            obeys_key_model::<K>(),
            builds_valid_hashers::<S>(),
        ensures
            r == self@.contains_key(*k),
    {
        self.inner.contains_key(k)
    }

    /// Remove every entry.
    pub fn clear(&mut self)
        ensures
            final(self)@ == Map::<K, V>::empty(),
    {
        self.inner.clear()
    }
}

fn is_submap<K: Eq + Hash, V: PartialEq, S: BuildHasher>(
    a: &HashMap<K, V, S>,
    b: &HashMap<K, V, S>,
) -> (r: bool)
    requires
        obeys_key_model::<K>(),
        builds_valid_hashers::<S>(),
        V::obeys_eq_spec(),
        forall|x: V, y: V| #[trigger] x.eq_spec(&y) <==> x == y,
    ensures
        r == a@.submap_of(b@),
{
    if a.is_empty() {
        proof {
            assert(a@.dom() =~= Set::<K>::empty());
        }
        return true;
    }
    let mut ok = true;
    for p in it: a.iter()
        invariant
            obeys_key_model::<K>(),
            builds_valid_hashers::<S>(),
            V::obeys_eq_spec(),
            forall|x: V, y: V| #[trigger] x.eq_spec(&y) <==> x == y,
            it.seq().unref().to_set() == a@.kv_pairs(),
            ok <==> (forall|i: int|
                0 <= i < it.index() ==> b@.contains_key(#[trigger] it.seq().unref()[i].0)
                    && b@[it.seq().unref()[i].0] == it.seq().unref()[i].1),
            it.index() == it.seq().len() ==> (ok <==> a@.submap_of(b@)),
    {
        let c = match b.get(p.0) {
            Some(w) => p.1.eq(w),
            None => false,
        };
        ok = ok && c;
        proof {
            assert(it.index() < it.seq().len());
            assert(p == it.seq()[it.index()]);
            assert(c == (b@.contains_key(it.seq().unref()[it.index()].0)
                && b@[it.seq().unref()[it.index()].0] == it.seq().unref()[it.index()].1));
            assert((it.index() + 1 == it.seq().len() && ok) ==> a@.submap_of(b@)) by {
                if forall|i: int|
                    0 <= i < it.seq().len() ==> b@.contains_key(
                        #[trigger] it.seq().unref()[i].0,
                    ) && b@[it.seq().unref()[i].0] == it.seq().unref()[i].1 {
                    assert forall|k: K| #[trigger]
                        a@.dom().contains(k) implies b@.dom().contains(k) && a@[k] == b@[k] by {
                        assert(a@.kv_pairs().contains((k, a@[k])));
                        assert(it.seq().unref().to_set().contains((k, a@[k])));
                        assert(it.seq().unref().contains((k, a@[k])));
                        let i = choose|i: int|
                            0 <= i < it.seq().unref().len() && it.seq().unref()[i] == (
                            k,
                            a@[k],
                            );
                        assert(b@.contains_key(it.seq().unref()[i].0));
                    }
                }
            }
            assert((it.index() + 1 == it.seq().len() && a@.submap_of(b@)) ==> (ok <==> a@.submap_of(
                b@,
            ))) by {
                if a@.submap_of(b@) {
                    assert forall|i: int| 0 <= i < it.index() + 1 implies b@.contains_key(
                        #[trigger] it.seq().unref()[i].0,
                    ) && b@[it.seq().unref()[i].0] == it.seq().unref()[i].1 by {
                        let q = it.seq().unref()[i];
                        assert(it.seq().unref().contains(q));
                        assert(it.seq().unref().to_set().contains(q));
                        assert(a@.kv_pairs().contains(q));
                        assert(a@.dom().contains(q.0) && a@[q.0] == q.1);
                        assert(b@.dom().contains(q.0) && a@[q.0] == b@[q.0]);
                        assert(b@.contains_key(q.0) && b@[q.0] == q.1);
                    }
                }
            }
        }
    }
    ok
}

fn dom_subset<K: Eq + Hash, V, S: BuildHasher>(
    a: &HashMap<K, V, S>,
    b: &HashMap<K, V, S>,
) -> (r: bool)
    requires
        obeys_key_model::<K>(),
        builds_valid_hashers::<S>(),
    ensures
        r == a@.dom().subset_of(b@.dom()),
{
    if a.is_empty() {
        proof {
            assert(a@.dom() =~= Set::<K>::empty());
        }
        return true;
    }
    let mut ok = true;
    for p in it: a.iter()
        invariant
            obeys_key_model::<K>(),
            builds_valid_hashers::<S>(),
            it.seq().unref().to_set() == a@.kv_pairs(),
            ok <==> (forall|i: int|
                0 <= i < it.index() ==> b@.contains_key(#[trigger] it.seq().unref()[i].0)),
            it.index() == it.seq().len() ==> (ok <==> a@.dom().subset_of(b@.dom())),
    {
        let c = b.contains_key(p.0);
        ok = ok && c;
        proof {
            assert(p == it.seq()[it.index()]);
            assert(c == b@.contains_key(it.seq().unref()[it.index()].0));
            assert((it.index() + 1 == it.seq().len() && ok) ==> a@.dom().subset_of(b@.dom())) by {
                if forall|i: int|
                    0 <= i < it.seq().len() ==> b@.contains_key(
                        #[trigger] it.seq().unref()[i].0,
                    ) {
                    assert forall|k: K| #[trigger]
                        a@.dom().contains(k) implies b@.dom().contains(k) by {
                        assert(a@.kv_pairs().contains((k, a@[k])));
                        assert(it.seq().unref().to_set().contains((k, a@[k])));
                        assert(it.seq().unref().contains((k, a@[k])));
                        let i = choose|i: int|
                            0 <= i < it.seq().unref().len() && it.seq().unref()[i] == (
                            k,
                            a@[k],
                            );
                        assert(b@.contains_key(it.seq().unref()[i].0));
                    }
                }
            }
            assert((it.index() + 1 == it.seq().len() && a@.dom().subset_of(b@.dom())) ==> (ok
                <==> a@.dom().subset_of(b@.dom()))) by {
                if a@.dom().subset_of(b@.dom()) {
                    assert forall|i: int| 0 <= i < it.index() + 1 implies b@.contains_key(
                        #[trigger] it.seq().unref()[i].0,
                    ) by {
                        let q = it.seq().unref()[i];
                        assert(it.seq().unref().contains(q));
                        assert(it.seq().unref().to_set().contains(q));
                        assert(a@.kv_pairs().contains(q));
                        assert(a@.dom().contains(q.0));
                    }
                }
            }
        }
    }
    ok
}

impl<K: Eq + Hash, V: PartialEq, S: BuildHasher> HashableMap<K, V, S> {
    /// Whether `self` and `other` hold exactly the same key-to-value
    /// mappings.
    pub fn content_eq(&self, other: &Self) -> (r: bool)
        requires
            obeys_key_model::<K>(),
            builds_valid_hashers::<S>(),
            V::obeys_eq_spec(),
            forall|x: V, y: V| #[trigger] x.eq_spec(&y) <==> x == y,
        ensures
            r == (self@ == other@),
    {
        let ab = is_submap(&self.inner, &other.inner);
        let ba = dom_subset(&other.inner, &self.inner);
        proof {
            if self@.submap_of(other@) && other@.dom().subset_of(self@.dom()) {
                assert(self@.dom() =~= other@.dom());
                assert(self@ =~= other@);
            }
        }
        ab && ba
    }
}

impl<K: Digestible + Eq + Hash, V: Digestible, S: BuildHasher> HashableMap<K, V, S> {
    /// The aggregate hash of the current contents under `strategy`:
    /// each entry is digested by one fresh digester, fed the key's
    /// representation and then the value's, and the per-entry digests
    /// are folded with wrapping 64-bit addition. The result is a pure
    /// function of the set of entries, whatever order they are stored
    /// or visited in.
    pub fn combined_hash<St: HashStrategy>(&self, strategy: &St) -> (r: u64)
        requires
            obeys_key_model::<K>(),
            builds_valid_hashers::<S>(),
        ensures
            r == map_aggregate::<St, K, V>(self@),
    {
        let ghost d = pair_digest_fn::<St, K, V>();
        if self.inner.is_empty() {
            proof {
                assert(self@.dom() =~= Set::<K>::empty());
                assert(self@.kv_pairs() =~= Set::<(K, V)>::empty());
                assert(Seq::<(K, V)>::empty().to_set() =~= Set::<(K, V)>::empty());
                assert(enumerates(Seq::<(K, V)>::empty(), self@.kv_pairs()));
                lemma_combined_of_enumeration(Seq::<(K, V)>::empty(), self@.kv_pairs(), d);
            }
            return 0;
        }
        let ghost mut done: Seq<(K, V)> = Seq::empty();
        let mut acc: u64 = 0;
        for p in it: self.inner.iter()
            invariant
                obeys_key_model::<K>(),
                builds_valid_hashers::<S>(),
                d == pair_digest_fn::<St, K, V>(),
                done =~= it.seq().unref().take(it.index()),
                acc as int == digest_sum(done, d) % word(),
                it.seq().no_duplicates(),
                it.seq().unref().to_set() == self@.kv_pairs(),
                it.index() == it.seq().len() ==> enumerates(done, self@.kv_pairs()),
        {
            let mut dg = strategy.fresh_digester();
            let kb = p.0.repr_bytes();
            dg.write_piece(kb.as_slice());
            let vb = p.1.repr_bytes();
            dg.write_piece(vb.as_slice());
            let h = dg.finish();
            proof {
                let entry = (*p.0, *p.1);
                assert(it.index() < it.seq().len());
                assert(p == it.seq()[it.index()]);
                assert(entry == it.seq().unref()[it.index()]);
                assert(dg.digested() =~= seq![entry.0.repr(), entry.1.repr()]);
                assert(h == d(entry));
                assert(it.seq().unref().take(it.index() + 1) =~= done.push(entry));
                lemma_digest_sum_push(done, d, entry);
                vstd::arithmetic::div_mod::lemma_add_mod_noop(
                    digest_sum(done, d),
                    h as int,
                    word(),
                );
                vstd::arithmetic::div_mod::lemma_small_mod(h as nat, word() as nat);
                vstd::arithmetic::div_mod::lemma_mod_multiples_vanish(
                    1,
                    acc + h - word(),
                    word(),
                );
                vstd::arithmetic::div_mod::lemma_small_mod(
                    (if acc + h < word() {
                        acc + h
                    } else {
                        acc + h - word()
                    }) as nat,
                    word() as nat,
                );
            }
            proof {
                done = done.push((*p.0, *p.1));
            }
            proof {
                assert forall|i: int, j: int|
                    0 <= i < j < it.seq().unref().len() implies it.seq().unref()[i]
                    != it.seq().unref()[j] by {
                    assert(it.seq()[i] != it.seq()[j]);
                }
                assert(it.seq().unref().no_duplicates());
                assert(done =~= it.seq().unref().take(it.index() + 1));
                assert(it.index() + 1 == it.seq().len() ==> done =~= it.seq().unref());
                assert(it.index() + 1 == it.seq().len() ==> enumerates(done, self@.kv_pairs()));
            }
            acc = acc.wrapping_add(h);
        }
        proof {
            assert(enumerates(done, self@.kv_pairs()));
            lemma_combined_of_enumeration(done, self@.kv_pairs(), d);
            assert(combined_of(done, d) == map_aggregate::<St, K, V>(self@));
        }
        acc
    }
}

impl<K: Copy + Eq + Hash, V: Copy, S: BuildHasher> HashableMap<K, V, S> {
    /// The current entries, in an unspecified order, each exactly
    /// once.
    pub fn to_entries(&self) -> (r: Vec<(K, V)>)
        requires
            obeys_key_model::<K>(),
            builds_valid_hashers::<S>(),
        ensures
            r@.no_duplicates(),
            r@.to_set() == self@.kv_pairs(),
            r@.len() == self@.dom().len(),
    {
        if self.inner.is_empty() {
            let r: Vec<(K, V)> = Vec::new();
            proof {
                assert(self@.dom() =~= Set::<K>::empty());
                assert(self@.kv_pairs() =~= Set::<(K, V)>::empty());
                assert(r@.to_set() =~= Set::<(K, V)>::empty());
            }
            return r;
        }
        let mut r: Vec<(K, V)> = Vec::new();
        for p in it: self.inner.iter()
            invariant
                obeys_key_model::<K>(),
                builds_valid_hashers::<S>(),
                r@ =~= it.seq().unref().take(it.index()),
                it.seq().no_duplicates(),
                it.seq().unref().to_set() == self@.kv_pairs(),
                it.seq().len() == self@.dom().len(),
                it.index() == it.seq().len() ==> r@.no_duplicates() && r@.to_set()
                    == self@.kv_pairs() && r@.len() == self@.dom().len(),
        {
            r.push((*p.0, *p.1));
            proof {
                assert(p == it.seq()[it.index()]);
                assert(r@ =~= it.seq().unref().take(it.index() + 1));
                assert forall|i: int, j: int|
                    0 <= i < j < it.seq().unref().len() implies it.seq().unref()[i]
                    != it.seq().unref()[j] by {
                    assert(it.seq()[i] != it.seq()[j]);
                }
                assert(it.seq().unref().no_duplicates());
                assert(it.index() + 1 == it.seq().len() ==> r@ =~= it.seq().unref());
            }
        }
        r
    }
}

/// The contents of `m` after inserting the entries of `s`, in order.
pub open spec fn inserted_all<K, V>(m: Map<K, V>, s: Seq<(K, V)>) -> Map<K, V>
    decreases s.len(),
{
    if s.len() == 0 {
        m
    } else {
        inserted_all(m, s.drop_last()).insert(s.last().0, s.last().1)
    }
}

/// The contents of a map built by inserting the entries of `s`, in
/// order, into an empty map.
pub open spec fn map_from_entries<K, V>(s: Seq<(K, V)>) -> Map<K, V> {
    inserted_all(Map::empty(), s)
}

proof fn lemma_inserted_all_push<K, V>(m: Map<K, V>, s: Seq<(K, V)>, p: (K, V))
    ensures
        inserted_all(m, s.push(p)) == inserted_all(m, s).insert(p.0, p.1),
{
    assert(s.push(p).drop_last() =~= s);
    assert(s.push(p).last() == p);
}

/// The keys of the entries of `s` are pairwise distinct.
pub open spec fn distinct_keys<K, V>(s: Seq<(K, V)>) -> bool {
    forall|i: int, j: int| 0 <= i < j < s.len() ==> s[i].0 != s[j].0
}

proof fn lemma_map_from_entries_characterization<K, V>(s: Seq<(K, V)>)
    requires
        distinct_keys(s),
    ensures
        forall|p: (K, V)| #[trigger]
            s.contains(p) ==> map_from_entries(s).contains_pair(p.0, p.1),
        forall|k: K| #[trigger]
            map_from_entries(s).contains_key(k) ==> exists|p: (K, V)|
                s.contains(p) && p.0 == k,
    decreases s.len(),
{
    if s.len() > 0 {
        let rest = s.drop_last();
        let last = s.last();
        let m = map_from_entries(s);
        let m0 = map_from_entries(rest);
        assert(distinct_keys(rest)) by {
            assert forall|i: int, j: int| 0 <= i < j < rest.len() implies rest[i].0 != rest[j].0 by {
                assert(s[i].0 != s[j].0);
            }
        }
        lemma_map_from_entries_characterization(rest);
        assert forall|p: (K, V)| #[trigger] s.contains(p) implies m.contains_pair(p.0, p.1) by {
            let i = choose|i: int| 0 <= i < s.len() && s[i] == p;
            if i == s.len() - 1 {
                assert(m.contains_pair(last.0, last.1));
            } else {
                assert(rest[i] == p);
                assert(rest.contains(p));
                assert(m0.contains_pair(p.0, p.1));
                assert(p.0 != last.0);
            }
        }
        assert forall|k: K| #[trigger] m.contains_key(k) implies exists|p: (K, V)|
            s.contains(p) && p.0 == k by {
            if k == last.0 {
                assert(s[s.len() - 1] == last);
                assert(s.contains(last) && last.0 == k);
            } else {
                assert(m0.contains_key(k));
                let p = choose|p: (K, V)| rest.contains(p) && p.0 == k;
                let i = choose|i: int| 0 <= i < rest.len() && rest[i] == p;
                assert(s[i] == p);
                assert(s.contains(p) && p.0 == k);
            }
        }
    }
}

/// Order independence at the container level: inserting the same
/// entries, their keys pairwise distinct, in any two orders builds
/// maps with exactly the same contents.
pub proof fn lemma_insert_order_independent<K, V>(a: Seq<(K, V)>, b: Seq<(K, V)>)
    requires
        a.to_multiset() == b.to_multiset(),
        distinct_keys(a),
        distinct_keys(b),
    ensures
        map_from_entries(a) == map_from_entries(b),
{
    broadcast use vstd::seq_lib::group_to_multiset_ensures;

    let ma = map_from_entries(a);
    let mb = map_from_entries(b);
    lemma_map_from_entries_characterization(a);
    lemma_map_from_entries_characterization(b);
    assert forall|p: (K, V)| a.contains(p) implies b.contains(p) by {
        assert(a.to_multiset().count(p) > 0);
    }
    assert forall|p: (K, V)| b.contains(p) implies a.contains(p) by {
        assert(b.to_multiset().count(p) > 0);
    }
    assert forall|k: K| ma.contains_key(k) implies mb.contains_key(k) && ma[k] == mb[k] by {
        let p = choose|p: (K, V)| a.contains(p) && p.0 == k;
        assert(ma.contains_pair(p.0, p.1));
        assert(b.contains(p));
        assert(mb.contains_pair(p.0, p.1));
    }
    assert forall|k: K| mb.contains_key(k) implies ma.contains_key(k) by {
        let p = choose|p: (K, V)| b.contains(p) && p.0 == k;
        assert(a.contains(p));
        assert(ma.contains_pair(p.0, p.1));
    }
    assert(ma =~= mb);
}

/// Order independence of the aggregate hash: containers built from
/// the same entries, their keys pairwise distinct, inserted in any
/// two orders have the same aggregate hash under the same strategy.
pub proof fn lemma_hash_insert_order_independent<
    St: HashStrategy,
    K: Digestible,
    V: Digestible,
>(a: Seq<(K, V)>, b: Seq<(K, V)>)
    requires
        a.to_multiset() == b.to_multiset(),
        distinct_keys(a),
        distinct_keys(b),
    ensures
        map_aggregate::<St, K, V>(map_from_entries(a)) == map_aggregate::<St, K, V>(
            map_from_entries(b),
        ),
{
    lemma_insert_order_independent(a, b);
}

/// The hash/equality contract: two maps that hold exactly the same
/// key-to-value mappings have the same aggregate hash under the same
/// strategy.
pub proof fn lemma_equal_contents_equal_hash<St: HashStrategy, K: Digestible, V: Digestible>(
    a: Map<K, V>,
    b: Map<K, V>,
)
    requires
        forall|k: K| #[trigger] a.contains_key(k) <==> #[trigger] b.contains_key(k),
        forall|k: K| a.contains_key(k) ==> a[k] == b[k],
    ensures
        map_aggregate::<St, K, V>(a) == map_aggregate::<St, K, V>(b),
{
    assert(a =~= b);
}

} // verus!
