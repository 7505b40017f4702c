//! The engine's deterministic hash maps (an insertion-ordered map with a
//! fixed hasher, from the physics crate) holding plain keys and values.
//! Each method below makes one call into that map; its contract states what
//! the call does to the contents.

use rapier3d::parry::utils::hashmap::HashMap as EngineMap;
use vstd::prelude::*;

verus! {

/// Node identifier -> raw handle parts.
#[verifier::external_body]
pub struct UidToHandleMap {
    inner: EngineMap<String, (u32, u32)>,
}

/// The entries of an identifier -> handle map.
pub uninterp spec fn uid_to_handle_contents(m: UidToHandleMap) -> Map<Seq<char>, (u32, u32)>;

impl UidToHandleMap {
    /// `HashMap::default`: an empty map.
    #[verifier::external_body]
    pub fn new() -> (r: Self)
        ensures
            uid_to_handle_contents(r) =~= Map::empty(),
    {
        UidToHandleMap { inner: EngineMap::default() }
    }

    /// `IndexMap::insert`: binds `key` to `value`, replacing an earlier binding.
    #[verifier::external_body]
    pub fn insert(&mut self, key: String, value: (u32, u32))
        ensures
            uid_to_handle_contents(*final(self)) == uid_to_handle_contents(*old(self)).insert(key@, value),
    {
        self.inner.insert(key, value);
    }

    /// `IndexMap::get`: the value bound to `key`, if any.
    #[verifier::external_body]
    pub fn get(&self, key: &str) -> (r: Option<(u32, u32)>)
        ensures
            r == (if uid_to_handle_contents(*self).contains_key(key@) {
                Some(uid_to_handle_contents(*self)[key@])
            } else {
                None
            }),
    {
        self.inner.get(key).copied()
    }

    /// `IndexMap::contains_key`: whether `key` is bound.
    #[verifier::external_body]
    pub fn contains_key(&self, key: &str) -> (r: bool)
        ensures
            r == uid_to_handle_contents(*self).contains_key(key@),
    {
        self.inner.contains_key(key)
    }

    /// `IndexMap::swap_remove`: unbinds `key` and hands back its value.
    #[verifier::external_body]
    pub fn swap_remove(&mut self, key: &str) -> (r: Option<(u32, u32)>)
        ensures
            uid_to_handle_contents(*final(self)) == uid_to_handle_contents(*old(self)).remove(key@),
            r == (if uid_to_handle_contents(*old(self)).contains_key(key@) {
                Some(uid_to_handle_contents(*old(self))[key@])
            } else {
                None
            }),
    {
        self.inner.swap_remove(key)
    }

    /// `IndexMap::clone`: a map with the same entries.
    #[verifier::external_body]
    pub fn duplicate(&self) -> (r: Self)
        ensures
            uid_to_handle_contents(r) == uid_to_handle_contents(*self),
    {
        UidToHandleMap { inner: self.inner.clone() }
    }

    /// `IndexMap::iter`, copied out: every entry once, in the map's order.
    #[verifier::external_body]
    pub fn entries(&self) -> (r: Vec<(String, (u32, u32))>)
        ensures
            forall|i: int| 0 <= i < r@.len() ==> uid_to_handle_contents(*self).contains_key((#[trigger] r@[i]).0@)
                && uid_to_handle_contents(*self)[r@[i].0@] == r@[i].1,
            forall|i: int, j: int| 0 <= i < j < r@.len() ==> (#[trigger] r@[i]).0@ != (#[trigger] r@[j]).0@,
            forall|k: Seq<char>| #[trigger] uid_to_handle_contents(*self).contains_key(k) ==>
                exists|i: int| 0 <= i < r@.len() && r@[i].0@ == k,
    {
        self.inner.iter().map(|(k, v)| (k.clone(), *v)).collect()
    }
}

/// Raw handle parts -> node identifier.
#[verifier::external_body]
pub struct HandleToUidMap {
    inner: EngineMap<(u32, u32), String>,
}

/// The entries of a handle -> identifier map.
pub uninterp spec fn handle_to_uid_contents(m: HandleToUidMap) -> Map<(u32, u32), Seq<char>>;

impl HandleToUidMap {
    /// `HashMap::default`: an empty map.
    #[verifier::external_body]
    pub fn new() -> (r: Self)
        ensures
            handle_to_uid_contents(r) =~= Map::empty(),
    {
        HandleToUidMap { inner: EngineMap::default() }
    }

    /// `IndexMap::insert`: binds `key` to `value`, replacing an earlier binding.
    #[verifier::external_body]
    pub fn insert(&mut self, key: (u32, u32), value: String)
        ensures
            handle_to_uid_contents(*final(self)) == handle_to_uid_contents(*old(self)).insert(key, value@),
    {
        self.inner.insert(key, value);
    }

    /// `IndexMap::get`, cloned: the value bound to `key`, if any.
    #[verifier::external_body]
    pub fn get(&self, key: &(u32, u32)) -> (r: Option<String>)
        ensures
            r is Some <==> handle_to_uid_contents(*self).contains_key(*key),
            r matches Some(s) ==> s@ == handle_to_uid_contents(*self)[*key],
    {
        self.inner.get(key).cloned()
    }

    /// `IndexMap::contains_key`: whether `key` is bound.
    #[verifier::external_body]
    pub fn contains_key(&self, key: &(u32, u32)) -> (r: bool)
        ensures
            r == handle_to_uid_contents(*self).contains_key(*key),
    {
        self.inner.contains_key(key)
    }

    /// `IndexMap::swap_remove`: unbinds `key` and hands back its value.
    #[verifier::external_body]
    pub fn swap_remove(&mut self, key: &(u32, u32)) -> (r: Option<String>)
        ensures
            handle_to_uid_contents(*final(self)) == handle_to_uid_contents(*old(self)).remove(*key),
            r is Some <==> handle_to_uid_contents(*old(self)).contains_key(*key),
            r matches Some(s) ==> s@ == handle_to_uid_contents(*old(self))[*key],
    {
        self.inner.swap_remove(key)
    }

    /// `IndexMap::clone`: a map with the same entries.
    #[verifier::external_body]
    pub fn duplicate(&self) -> (r: Self)
        ensures
            handle_to_uid_contents(r) == handle_to_uid_contents(*self),
    {
        HandleToUidMap { inner: self.inner.clone() }
    }

    /// `IndexMap::iter`, copied out: every entry once, in the map's order.
    #[verifier::external_body]
    pub fn entries(&self) -> (r: Vec<((u32, u32), String)>)
        ensures
            forall|i: int| 0 <= i < r@.len() ==> handle_to_uid_contents(*self).contains_key((#[trigger] r@[i]).0)
                && handle_to_uid_contents(*self)[r@[i].0] == r@[i].1@,
            forall|i: int, j: int| 0 <= i < j < r@.len() ==> (#[trigger] r@[i]).0 != (#[trigger] r@[j]).0,
            forall|k: (u32, u32)| #[trigger] handle_to_uid_contents(*self).contains_key(k) ==>
                exists|i: int| 0 <= i < r@.len() && r@[i].0 == k,
    {
        self.inner.iter().map(|(k, v)| (*k, v.clone())).collect()
    }
}


/// Tick -> state hash.
#[verifier::external_body]
pub struct TickHashMap {
    inner: EngineMap<u64, u64>,
}

/// The entries of a tick -> hash map.
pub uninterp spec fn tick_hash_contents(m: TickHashMap) -> Map<u64, u64>;

impl TickHashMap {
    /// `HashMap::default`: an empty map.
    #[verifier::external_body]
    pub fn new() -> (r: Self)
        ensures
            tick_hash_contents(r) =~= Map::empty(),
    {
        TickHashMap { inner: EngineMap::default() }
    }

    /// `IndexMap::insert`: binds `key` to `value`, replacing an earlier binding.
    #[verifier::external_body]
    pub fn insert(&mut self, key: u64, value: u64)
        ensures
            tick_hash_contents(*final(self)) == tick_hash_contents(*old(self)).insert(key, value),
    {
        self.inner.insert(key, value);
    }

    /// `IndexMap::iter`, copied out: every entry once, in the map's order.
    #[verifier::external_body]
    pub fn entries(&self) -> (r: Vec<(u64, u64)>)
        ensures
            forall|i: int| 0 <= i < r@.len() ==> tick_hash_contents(*self).contains_key((#[trigger] r@[i]).0)
                && tick_hash_contents(*self)[r@[i].0] == r@[i].1,
            forall|i: int, j: int| 0 <= i < j < r@.len() ==> (#[trigger] r@[i]).0 != (#[trigger] r@[j]).0,
            forall|k: u64| #[trigger] tick_hash_contents(*self).contains_key(k) ==>
                exists|i: int| 0 <= i < r@.len() && r@[i].0 == k,
    {
        self.inner.iter().map(|(k, v)| (*k, *v)).collect()
    }
}

/// Ticks strictly ascend along the list.
pub open spec fn ticks_ascend(s: Seq<(u64, u64)>) -> bool {
    forall|i: int, j: int| 0 <= i < j < s.len() ==> (#[trigger] s[i]).0 < (#[trigger] s[j]).0
}

/// Inserts an entry with a fresh tick where its tick belongs.
fn insert_by_tick(r: &mut Vec<(u64, u64)>, x: (u64, u64))
    requires
        ticks_ascend(old(r)@),
        forall|k: int| 0 <= k < old(r)@.len() ==> (#[trigger] old(r)@[k]).0 != x.0,
    ensures
        ticks_ascend(final(r)@),
        final(r)@.to_multiset() == old(r)@.to_multiset().insert(x),
{
    broadcast use vstd::seq_lib::group_to_multiset_ensures;
    let mut p = r.len();
    while p > 0 && r[p - 1].0 > x.0
        invariant
            p <= r@.len(),
            r@ == old(r)@,
            forall|k: int| p <= k < r@.len() ==> (#[trigger] r@[k]).0 > x.0,
        decreases p,
    {
        p = p - 1;
    }
    let ghost before = r@;
    r.insert(p, x);
    proof {
        let after = r@;
        assert forall|a: int, b: int| 0 <= a < b < after.len() implies (#[trigger] after[a]).0 < (#[trigger] after[b]).0 by {
            if b < p {
            } else if a < p && b == p {
                assert(before[a].0 <= before[p - 1].0);
                assert(before[p - 1].0 != x.0);
            } else if a < p && b > p {
                assert(after[b] == before[b - 1]);
            } else if a == p {
                assert(after[b] == before[b - 1]);
            } else {
                assert(after[a] == before[a - 1]);
                assert(after[b] == before[b - 1]);
            }
        }
    }
}

/// The entries of a tick -> hash map in ascending tick order: each entry
/// once, and nothing else.
pub fn tick_hashes_in_order(m: &TickHashMap) -> (r: Vec<(u64, u64)>)
    ensures
        ticks_ascend(r@),
        forall|i: int| 0 <= i < r@.len() ==> tick_hash_contents(*m).contains_key((#[trigger] r@[i]).0)
            && tick_hash_contents(*m)[r@[i].0] == r@[i].1,
        forall|k: u64| #[trigger] tick_hash_contents(*m).contains_key(k) ==> exists|i: int| 0 <= i < r@.len() && r@[i].0 == k,
{
    broadcast use vstd::seq_lib::group_to_multiset_ensures;
    let e = m.entries();
    let n = e.len();
    let mut r: Vec<(u64, u64)> = Vec::new();
    let mut i: usize = 0;
    assert(e@.take(0) =~= Seq::<(u64, u64)>::empty());
    while i < n
        invariant
            n == e@.len(),
            i <= n,
            forall|a: int, b: int| 0 <= a < b < e@.len() ==> (#[trigger] e@[a]).0 != (#[trigger] e@[b]).0,
            ticks_ascend(r@),
            r@.to_multiset() == e@.take(i as int).to_multiset(),
        decreases n - i,
    {
        let x = e[i];
        proof {
            assert forall|k: int| 0 <= k < r@.len() implies (#[trigger] r@[k]).0 != x.0 by {
                assert(r@.contains(r@[k]));
                vstd::seq_lib::to_multiset_contains(r@, r@[k]);
                vstd::seq_lib::to_multiset_contains(e@.take(i as int), r@[k]);
                assert(e@.take(i as int).contains(r@[k]));
                let j = choose|j: int| 0 <= j < i && e@.take(i as int)[j] == r@[k];
                assert(e@[j] == r@[k]);
            }
            assert(e@.take(i + 1) =~= e@.take(i as int).push(x));
            vstd::seq_lib::to_multiset_build(e@.take(i as int), x);
        }
        insert_by_tick(&mut r, x);
        proof {
            assert(r@.to_multiset() == e@.take(i + 1).to_multiset());
        }
        i = i + 1;
    }
    proof {
        assert(e@.take(n as int) =~= e@);
        assert forall|a: int| 0 <= a < r@.len() implies tick_hash_contents(*m).contains_key((#[trigger] r@[a]).0)
            && tick_hash_contents(*m)[r@[a].0] == r@[a].1 by {
            assert(r@.contains(r@[a]));
            vstd::seq_lib::to_multiset_contains(r@, r@[a]);
            vstd::seq_lib::to_multiset_contains(e@, r@[a]);
            assert(e@.contains(r@[a]));
            let j = choose|j: int| 0 <= j < e@.len() && e@[j] == r@[a];
        }
        assert forall|k: u64| #[trigger] tick_hash_contents(*m).contains_key(k) implies exists|a: int| 0 <= a < r@.len() && r@[a].0 == k by {
            let j = choose|j: int| 0 <= j < e@.len() && e@[j].0 == k;
            assert(e@.contains(e@[j]));
            vstd::seq_lib::to_multiset_contains(r@, e@[j]);
            vstd::seq_lib::to_multiset_contains(e@, e@[j]);
            assert(r@.contains(e@[j]));
            let a = choose|a: int| 0 <= a < r@.len() && r@[a] == e@[j];
            assert(r@[a].0 == k);
        }
    }
    r
}

/// Whether entry `i` is the last one for its tick.
pub open spec fn last_entry_for(entries: Seq<(u64, u64)>, i: int) -> bool {
    forall|j: int| i < j < entries.len() ==> (#[trigger] entries[j]).0 != entries[i].0
}

/// A map holding the given entries; a later entry for a tick replaces an
/// earlier one.
pub fn tick_hash_map_from_entries(entries: &Vec<(u64, u64)>) -> (r: TickHashMap)
    ensures
        forall|k: u64| #[trigger] tick_hash_contents(r).contains_key(k) <==> exists|i: int| 0 <= i < entries@.len() && entries@[i].0 == k,
        forall|i: int| 0 <= i < entries@.len() && last_entry_for(entries@, i) ==>
            tick_hash_contents(r)[(#[trigger] entries@[i]).0] == entries@[i].1,
{
    let mut m = TickHashMap::new();
    let n = entries.len();
    let mut i: usize = 0;
    while i < n
        invariant
            n == entries@.len(),
            i <= n,
            forall|k: u64| #[trigger] tick_hash_contents(m).contains_key(k) <==> exists|j: int| 0 <= j < i && entries@[j].0 == k,
            forall|j: int| 0 <= j < i && last_entry_for(entries@.take(i as int), j) ==>
                tick_hash_contents(m)[(#[trigger] entries@[j]).0] == entries@[j].1,
        decreases n - i,
    {
        let (k, v) = entries[i];
        let ghost before = m;
        m.insert(k, v);
        proof {
            assert forall|q: u64| #[trigger] tick_hash_contents(m).contains_key(q) <==> exists|j: int| 0 <= j < i + 1 && entries@[j].0 == q by {
                if q == k {
                    assert(entries@[i as int].0 == q);
                }
            }
            assert forall|j: int| 0 <= j < i + 1 && last_entry_for(entries@.take(i + 1), j) implies
                tick_hash_contents(m)[(#[trigger] entries@[j]).0] == entries@[j].1 by {
                if j < i {
                    assert(entries@.take(i + 1)[i as int].0 != entries@[j].0);
                    assert forall|l: int| j < l < entries@.take(i as int).len() implies (#[trigger] entries@.take(i as int)[l]).0 != entries@.take(i as int)[j].0 by {
                        assert(entries@.take(i as int)[l] == entries@.take(i + 1)[l]);
                    }
                }
            }
        }
        i = i + 1;
    }
    proof {
        assert(entries@.take(n as int) =~= entries@);
    }
    m
}

} // verus!
