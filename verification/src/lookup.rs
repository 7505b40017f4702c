//! The lookup table that ties the identifiers of editor nodes to the raw
//! handles of their physics objects, in both directions, and the sorted list
//! of colliders that snapshots carry.

use crate::maps::{handle_to_uid_contents, uid_to_handle_contents, HandleToUidMap, UidToHandleMap};
use vstd::prelude::*;

verus! {

/// The lookup table seen as two maps and a sequence.
#[verifier::ext_equal]
pub struct LookupView {
    pub godot_to_rapier: Map<Seq<char>, (u32, u32)>,
    pub rapier_to_godot: Map<(u32, u32), Seq<char>>,
    pub snapshot_colliders: Seq<(u32, u32)>,
}

/// Identifiers of nodes against raw handles of their physics objects.
pub struct LookupTable {
    pub godot_to_rapier: UidToHandleMap,
    pub rapier_to_godot: HandleToUidMap,
    pub snapshot_colliders: Vec<(u32, u32)>,
}

impl View for LookupTable {
    type V = LookupView;

    open spec fn view(&self) -> LookupView {
        LookupView {
            godot_to_rapier: uid_to_handle_contents(self.godot_to_rapier),
            rapier_to_godot: handle_to_uid_contents(self.rapier_to_godot),
            snapshot_colliders: self.snapshot_colliders@,
        }
    }
}

/// The order of raw handles: by index, then by generation.
pub open spec fn handle_le(a: (u32, u32), b: (u32, u32)) -> bool {
    a.0 < b.0 || (a.0 == b.0 && a.1 <= b.1)
}

/// A sequence of raw handles in ascending order.
pub open spec fn handles_sorted(s: Seq<(u32, u32)>) -> bool {
    forall|i: int, j: int| 0 <= i < j < s.len() ==> handle_le(#[trigger] s[i], #[trigger] s[j])
}

/// Binds identifier and handle to each other.
pub open spec fn lookup_insert(v: LookupView, uid: Seq<char>, handle: (u32, u32)) -> LookupView {
    LookupView {
        godot_to_rapier: v.godot_to_rapier.insert(uid, handle),
        rapier_to_godot: v.rapier_to_godot.insert(handle, uid),
        snapshot_colliders: v.snapshot_colliders,
    }
}

/// Unbinds an identifier and the handle it is bound to.
pub open spec fn lookup_remove_by_uid(v: LookupView, uid: Seq<char>) -> LookupView {
    if v.godot_to_rapier.contains_key(uid) {
        LookupView {
            godot_to_rapier: v.godot_to_rapier.remove(uid),
            rapier_to_godot: v.rapier_to_godot.remove(v.godot_to_rapier[uid]),
            snapshot_colliders: v.snapshot_colliders,
        }
    } else {
        v
    }
}

/// Unbinds a handle and the identifier it is bound to.
pub open spec fn lookup_remove_by_handle(v: LookupView, handle: (u32, u32)) -> LookupView {
    if v.rapier_to_godot.contains_key(handle) {
        LookupView {
            godot_to_rapier: v.godot_to_rapier.remove(v.rapier_to_godot[handle]),
            rapier_to_godot: v.rapier_to_godot.remove(handle),
            snapshot_colliders: v.snapshot_colliders,
        }
    } else {
        v
    }
}

/// Every identifier and handle is bound to exactly one partner, which is
/// bound back to it.
pub open spec fn lookup_consistent(v: LookupView) -> bool {
    &&& forall|u: Seq<char>| #[trigger] v.godot_to_rapier.contains_key(u) ==>
        v.rapier_to_godot.contains_key(v.godot_to_rapier[u]) && v.rapier_to_godot[v.godot_to_rapier[u]] == u
    &&& forall|h: (u32, u32)| #[trigger] v.rapier_to_godot.contains_key(h) ==>
        v.godot_to_rapier.contains_key(v.rapier_to_godot[h]) && v.godot_to_rapier[v.rapier_to_godot[h]] == h
}

impl LookupTable {
    /// The snapshot collider list is kept in ascending order.
    pub open spec fn wf(&self) -> bool {
        handles_sorted(self.snapshot_colliders@)
    }

    /// An empty table.
    pub fn new() -> (t: Self)
        ensures
            t@.godot_to_rapier == Map::<Seq<char>, (u32, u32)>::empty(),
            t@.rapier_to_godot == Map::<(u32, u32), Seq<char>>::empty(),
            t@.snapshot_colliders == Seq::<(u32, u32)>::empty(),
            t.wf(),
    {
        LookupTable {
            godot_to_rapier: UidToHandleMap::new(),
            rapier_to_godot: HandleToUidMap::new(),
            snapshot_colliders: Vec::new(),
        }
    }

    /// Binds a node identifier and a raw handle to each other.
    pub fn insert(&mut self, godot_uid: String, rapier_handle: (u32, u32))
        ensures
            final(self)@ == lookup_insert(old(self)@, godot_uid@, rapier_handle),
    {
        let copy = godot_uid.clone();
        self.godot_to_rapier.insert(godot_uid, rapier_handle);
        self.rapier_to_godot.insert(rapier_handle, copy);
    }

    /// Whether an identifier is already in use.
    pub fn cuid_exists(&self, cuid: &str) -> (r: bool)
        ensures
            r == self@.godot_to_rapier.contains_key(cuid@),
    {
        let g2r = self.godot_to_rapier.contains_key(cuid);
        let rapier_handle = self.godot_to_rapier.get(cuid);
        match rapier_handle {
            Some(rapier_handle) => {
                let r2g = self.rapier_to_godot.contains_key(&rapier_handle);
                g2r || r2g
            },
            None => g2r,
        }
    }

    /// The raw handle bound to an identifier.
    pub fn get_rapier_handle(&self, godot_uid: &str) -> (r: Option<(u32, u32)>)
        ensures
            r == (if self@.godot_to_rapier.contains_key(godot_uid@) {
                Some(self@.godot_to_rapier[godot_uid@])
            } else {
                None
            }),
    {
        self.godot_to_rapier.get(godot_uid)
    }

    /// The identifier bound to a raw handle.
    pub fn get_godot_uid(&self, rapier_handle: &(u32, u32)) -> (r: Option<String>)
        ensures
            r is Some <==> self@.rapier_to_godot.contains_key(*rapier_handle),
            r matches Some(s) ==> s@ == self@.rapier_to_godot[*rapier_handle],
    {
        self.rapier_to_godot.get(rapier_handle)
    }

    /// Unbinds an identifier and the handle bound to it; hands back the handle.
    pub fn remove_by_uid(&mut self, godot_uid: &str) -> (r: Option<(u32, u32)>)
        ensures
            final(self)@ == lookup_remove_by_uid(old(self)@, godot_uid@),
            r == (if old(self)@.godot_to_rapier.contains_key(godot_uid@) {
                Some(old(self)@.godot_to_rapier[godot_uid@])
            } else {
                None
            }),
    {
        match self.godot_to_rapier.swap_remove(godot_uid) {
            Some(rapier_handle) => {
                let _ = self.rapier_to_godot.swap_remove(&rapier_handle);
                assert(self@ =~= lookup_remove_by_uid(old(self)@, godot_uid@));
                Some(rapier_handle)
            },
            None => {
                assert(self@ =~= lookup_remove_by_uid(old(self)@, godot_uid@));
                None
            },
        }
    }

    /// Unbinds a handle and the identifier bound to it; hands back the identifier.
    pub fn remove_by_handle(&mut self, rapier_handle: &(u32, u32)) -> (r: Option<String>)
        ensures
            final(self)@ == lookup_remove_by_handle(old(self)@, *rapier_handle),
            r is Some <==> old(self)@.rapier_to_godot.contains_key(*rapier_handle),
            r matches Some(s) ==> s@ == old(self)@.rapier_to_godot[*rapier_handle],
    {
        match self.rapier_to_godot.swap_remove(rapier_handle) {
            Some(godot_uid) => {
                let _ = self.godot_to_rapier.swap_remove(godot_uid.as_str());
                assert(self@ =~= lookup_remove_by_handle(old(self)@, *rapier_handle));
                Some(godot_uid)
            },
            None => {
                assert(self@ =~= lookup_remove_by_handle(old(self)@, *rapier_handle));
                None
            },
        }
    }

    /// Adds a collider to those that snapshots carry, and sorts the list.
    pub fn insert_snapshot_collider(&mut self, raw_handle: (u32, u32))
        ensures
            final(self).wf(),
            final(self)@.snapshot_colliders.to_multiset() == old(self)@.snapshot_colliders.to_multiset().insert(raw_handle),
            handles_sorted(old(self)@.snapshot_colliders) ==> exists|p: int| 0 <= p <= old(self)@.snapshot_colliders.len()
                && final(self)@.snapshot_colliders == old(self)@.snapshot_colliders.insert(p, raw_handle),
            final(self)@.godot_to_rapier == old(self)@.godot_to_rapier,
            final(self)@.rapier_to_godot == old(self)@.rapier_to_godot,
    {
        broadcast use vstd::seq_lib::group_to_multiset_ensures;
        if !handles_ascend(&self.snapshot_colliders) {
            let mut list = Vec::new();
            std::mem::swap(&mut list, &mut self.snapshot_colliders);
            self.snapshot_colliders = sort_handles(list);
        }
        insert_handle_sorted(&mut self.snapshot_colliders, raw_handle);
    }

    /// Drops every copy of a collider from those that snapshots carry, and
    /// sorts the list.
    pub fn remove_snapshot_collider(&mut self, raw_handle: &(u32, u32))
        ensures
            final(self).wf(),
            final(self)@.snapshot_colliders.to_multiset()
                == old(self)@.snapshot_colliders.filter(|x: (u32, u32)| x != *raw_handle).to_multiset(),
            handles_sorted(old(self)@.snapshot_colliders) ==> final(self)@.snapshot_colliders
                == old(self)@.snapshot_colliders.filter(|x: (u32, u32)| x != *raw_handle),
            final(self)@.godot_to_rapier == old(self)@.godot_to_rapier,
            final(self)@.rapier_to_godot == old(self)@.rapier_to_godot,
    {
        let ghost target = *raw_handle;
        let ghost keep = |x: (u32, u32)| x != target;
        let ghost orig = self.snapshot_colliders@;
        let mut kept: Vec<(u32, u32)> = Vec::new();
        let mut i: usize = 0;
        let n = self.snapshot_colliders.len();
        assert(orig.take(0) =~= Seq::<(u32, u32)>::empty());
        while i < n
            invariant
                n == orig.len(),
                i <= n,
                self.snapshot_colliders@ == orig,
                kept@ == orig.take(i as int).filter(keep),
                keep == (|x: (u32, u32)| x != target),
                target == *raw_handle,
                handles_sorted(orig) ==> handles_sorted(kept@),
                handles_sorted(orig) ==> forall|j: int, k: int| 0 <= j < kept@.len() && i <= k < n
                    ==> handle_le(#[trigger] kept@[j], #[trigger] orig[k]),
            decreases n - i,
        {
            let x = self.snapshot_colliders[i];
            if x.0 != raw_handle.0 || x.1 != raw_handle.1 {
                kept.push(x);
            }
            proof {
                assert(orig.take(i + 1).drop_last() =~= orig.take(i as int));
                orig.take(i as int).lemma_filter_push(orig[i as int], keep);
                assert(orig.take(i as int).push(orig[i as int]) =~= orig.take(i + 1));
            }
            i = i + 1;
        }
        assert(orig.take(n as int) =~= orig);
        if handles_ascend(&kept) {
            self.snapshot_colliders = kept;
        } else {
            self.snapshot_colliders = sort_handles(kept);
        }
    }
}

/// Inserts a handle into an ascending list where it belongs.
fn insert_handle_sorted(v: &mut Vec<(u32, u32)>, raw_handle: (u32, u32))
    requires
        handles_sorted(old(v)@),
    ensures
        handles_sorted(final(v)@),
        exists|p: int| 0 <= p <= old(v)@.len() && final(v)@ == old(v)@.insert(p, raw_handle),
        final(v)@.to_multiset() == old(v)@.to_multiset().insert(raw_handle),
{
    broadcast use vstd::seq_lib::group_to_multiset_ensures;
    let mut p = v.len();
    while p > 0 && !handle_at_most(v[p - 1], raw_handle)
        invariant
            p <= v@.len(),
            v@ == old(v)@,
            handles_sorted(v@),
            forall|k: int| p <= k < v@.len() ==> !handle_le(#[trigger] v@[k], raw_handle),
        decreases p,
    {
        p = p - 1;
    }
    let ghost before = v@;
    v.insert(p, raw_handle);
    proof {
        assert(v@ == before.insert(p as int, raw_handle));
        let after = v@;
        assert forall|i: int, j: int| 0 <= i < j < after.len() implies handle_le(#[trigger] after[i], #[trigger] after[j]) by {
            if j < p {
            } else if i < p && j == p {
                assert(handle_le(before[i], before[p - 1]));
            } else if i < p && j > p {
                assert(after[j] == before[j - 1]);
            } else if i == p {
                assert(after[j] == before[j - 1]);
            } else {
                assert(after[i] == before[i - 1]);
                assert(after[j] == before[j - 1]);
            }
        }
    }
}

/// The handles in ascending order, each as often as in the list.
fn sort_handles(v: Vec<(u32, u32)>) -> (r: Vec<(u32, u32)>)
    ensures
        handles_sorted(r@),
        r@.to_multiset() == v@.to_multiset(),
{
    broadcast use vstd::seq_lib::group_to_multiset_ensures;
    let mut r: Vec<(u32, u32)> = Vec::new();
    let n = v.len();
    let mut i: usize = 0;
    assert(v@.take(0) =~= Seq::<(u32, u32)>::empty());
    while i < n
        invariant
            n == v@.len(),
            i <= n,
            handles_sorted(r@),
            r@.to_multiset() == v@.take(i as int).to_multiset(),
        decreases n - i,
    {
        proof {
            assert(v@.take(i + 1) =~= v@.take(i as int).push(v@[i as int]));
            vstd::seq_lib::to_multiset_build(v@.take(i as int), v@[i as int]);
        }
        insert_handle_sorted(&mut r, v[i]);
        i = i + 1;
    }
    assert(v@.take(n as int) =~= v@);
    r
}

fn handle_at_most(a: (u32, u32), b: (u32, u32)) -> (r: bool)
    ensures
        r == handle_le(a, b),
{
    a.0 < b.0 || (a.0 == b.0 && a.1 <= b.1)
}


/// The lookup table as plain lists, as snapshots store it.
#[derive(Debug)]
pub struct LookupEntries {
    pub godot_to_rapier: Vec<(String, (u32, u32))>,
    pub rapier_to_godot: Vec<((u32, u32), String)>,
    pub snapshot_colliders: Vec<(u32, u32)>,
}

/// The identifier -> handle map that binding these entries in order builds.
pub open spec fn uid_map_of(s: Seq<(String, (u32, u32))>) -> Map<Seq<char>, (u32, u32)>
    decreases s.len(),
{
    if s.len() == 0 {
        Map::empty()
    } else {
        uid_map_of(s.drop_last()).insert(s.last().0@, s.last().1)
    }
}

/// The handle -> identifier map that binding these entries in order builds.
pub open spec fn handle_map_of(s: Seq<((u32, u32), String)>) -> Map<(u32, u32), Seq<char>>
    decreases s.len(),
{
    if s.len() == 0 {
        Map::empty()
    } else {
        handle_map_of(s.drop_last()).insert(s.last().0, s.last().1@)
    }
}

proof fn lemma_uid_map_of_distinct(s: Seq<(String, (u32, u32))>)
    requires
        forall|i: int, j: int| 0 <= i < j < s.len() ==> (#[trigger] s[i]).0@ != (#[trigger] s[j]).0@,
    ensures
        forall|k: Seq<char>| #[trigger] uid_map_of(s).contains_key(k) <==> exists|i: int| 0 <= i < s.len() && s[i].0@ == k,
        forall|i: int| 0 <= i < s.len() ==> uid_map_of(s)[(#[trigger] s[i]).0@] == s[i].1,
    decreases s.len(),
{
    if s.len() > 0 {
        let d = s.drop_last();
        assert forall|i: int, j: int| 0 <= i < j < d.len() implies (#[trigger] d[i]).0@ != (#[trigger] d[j]).0@ by {
            assert(d[i] == s[i] && d[j] == s[j]);
        }
        lemma_uid_map_of_distinct(d);
        assert forall|k: Seq<char>| #[trigger] uid_map_of(s).contains_key(k) <==> exists|i: int| 0 <= i < s.len() && s[i].0@ == k by {
            if uid_map_of(s).contains_key(k) && k != s.last().0@ {
                assert(uid_map_of(s) == uid_map_of(d).insert(s.last().0@, s.last().1));
                assert(uid_map_of(d).contains_key(k));
                let i = choose|i: int| 0 <= i < d.len() && d[i].0@ == k;
                assert(s[i] == d[i]);
            }
            if exists|i: int| 0 <= i < s.len() && s[i].0@ == k {
                let i = choose|i: int| 0 <= i < s.len() && s[i].0@ == k;
                if i < s.len() - 1 {
                    assert(d[i] == s[i]);
                }
            }
        }
        assert forall|i: int| 0 <= i < s.len() implies uid_map_of(s)[(#[trigger] s[i]).0@] == s[i].1 by {
            if i < s.len() - 1 {
                assert(d[i] == s[i]);
                assert(s[i].0@ != s[s.len() - 1].0@);
            }
        }
    }
}

proof fn lemma_handle_map_of_distinct(s: Seq<((u32, u32), String)>)
    requires
        forall|i: int, j: int| 0 <= i < j < s.len() ==> (#[trigger] s[i]).0 != (#[trigger] s[j]).0,
    ensures
        forall|k: (u32, u32)| #[trigger] handle_map_of(s).contains_key(k) <==> exists|i: int| 0 <= i < s.len() && s[i].0 == k,
        forall|i: int| 0 <= i < s.len() ==> handle_map_of(s)[(#[trigger] s[i]).0] == s[i].1@,
    decreases s.len(),
{
    if s.len() > 0 {
        let d = s.drop_last();
        assert forall|i: int, j: int| 0 <= i < j < d.len() implies (#[trigger] d[i]).0 != (#[trigger] d[j]).0 by {
            assert(d[i] == s[i] && d[j] == s[j]);
        }
        lemma_handle_map_of_distinct(d);
        assert forall|k: (u32, u32)| #[trigger] handle_map_of(s).contains_key(k) <==> exists|i: int| 0 <= i < s.len() && s[i].0 == k by {
            if handle_map_of(s).contains_key(k) && k != s.last().0 {
                assert(handle_map_of(s) == handle_map_of(d).insert(s.last().0, s.last().1@));
                assert(handle_map_of(d).contains_key(k));
                let i = choose|i: int| 0 <= i < d.len() && d[i].0 == k;
                assert(s[i] == d[i]);
            }
            if exists|i: int| 0 <= i < s.len() && s[i].0 == k {
                let i = choose|i: int| 0 <= i < s.len() && s[i].0 == k;
                if i < s.len() - 1 {
                    assert(d[i] == s[i]);
                }
            }
        }
        assert forall|i: int| 0 <= i < s.len() implies handle_map_of(s)[(#[trigger] s[i]).0] == s[i].1@ by {
            if i < s.len() - 1 {
                assert(d[i] == s[i]);
                assert(s[i].0 != s[s.len() - 1].0);
            }
        }
    }
}

/// The table that binding listed entries in order gives.
pub open spec fn table_of_entries(
    godot_to_rapier: Seq<(String, (u32, u32))>,
    rapier_to_godot: Seq<((u32, u32), String)>,
    snapshot_colliders: Seq<(u32, u32)>,
) -> LookupView {
    LookupView {
        godot_to_rapier: uid_map_of(godot_to_rapier),
        rapier_to_godot: handle_map_of(rapier_to_godot),
        snapshot_colliders,
    }
}

/// A copy of a list of raw handles.
fn copy_handles(v: &Vec<(u32, u32)>) -> (r: Vec<(u32, u32)>)
    ensures
        r@ == v@,
{
    let mut r: Vec<(u32, u32)> = Vec::new();
    let n = v.len();
    let mut i: usize = 0;
    while i < n
        invariant
            n == v@.len(),
            i <= n,
            r@ == v@.take(i as int),
        decreases n - i,
    {
        r.push(v[i]);
        i = i + 1;
        assert(r@ =~= v@.take(i as int));
    }
    assert(v@.take(n as int) =~= v@);
    r
}

/// Whether a list of raw handles ascends.
fn handles_ascend(v: &Vec<(u32, u32)>) -> (r: bool)
    ensures
        r == handles_sorted(v@),
{
    let n = v.len();
    if n == 0 {
        return true;
    }
    let mut i: usize = 1;
    while i < n
        invariant
            n == v@.len(),
            1 <= i <= n,
            handles_sorted(v@.take(i as int)),
        decreases n - i,
    {
        if !handle_at_most(v[i - 1], v[i]) {
            assert(!handle_le(v@[i - 1], v@[i as int]));
            return false;
        }
        proof {
            let t = v@.take(i + 1);
            assert forall|a: int, b: int| 0 <= a < b < t.len() implies handle_le(#[trigger] t[a], #[trigger] t[b]) by {
                assert(t[a] == v@[a]);
                assert(t[b] == v@[b]);
                if b < i {
                    assert(v@.take(i as int)[a] == v@[a]);
                    assert(v@.take(i as int)[b] == v@[b]);
                } else if a < i - 1 {
                    assert(v@.take(i as int)[a] == v@[a]);
                    assert(v@.take(i as int)[i - 1] == v@[i - 1]);
                }
            }
        }
        i = i + 1;
    }
    assert(v@.take(n as int) =~= v@);
    true
}

impl Clone for LookupTable {
    /// A table with the same bindings and snapshot colliders.
    fn clone(&self) -> (r: Self)
        ensures
            r@ == self@,
    {
        LookupTable {
            godot_to_rapier: self.godot_to_rapier.duplicate(),
            rapier_to_godot: self.rapier_to_godot.duplicate(),
            snapshot_colliders: copy_handles(&self.snapshot_colliders),
        }
    }
}

impl LookupTable {
    /// The table as plain lists; binding the listed entries again in order
    /// gives back the same table.
    pub fn to_entries(&self) -> (r: LookupEntries)
        ensures
            uid_map_of(r.godot_to_rapier@) == self@.godot_to_rapier,
            handle_map_of(r.rapier_to_godot@) == self@.rapier_to_godot,
            r.snapshot_colliders@ == self@.snapshot_colliders,
    {
        let godot_to_rapier = self.godot_to_rapier.entries();
        let rapier_to_godot = self.rapier_to_godot.entries();
        proof {
            lemma_uid_map_of_distinct(godot_to_rapier@);
            lemma_handle_map_of_distinct(rapier_to_godot@);
            assert(uid_map_of(godot_to_rapier@) =~= self@.godot_to_rapier);
            assert(handle_map_of(rapier_to_godot@) =~= self@.rapier_to_godot);
        }
        LookupEntries { godot_to_rapier, rapier_to_godot, snapshot_colliders: copy_handles(&self.snapshot_colliders) }
    }

    /// The table that binds the listed entries in order; the snapshot
    /// colliders are sorted.
    pub fn from_entries(entries: LookupEntries) -> (t: LookupTable)
        ensures
            t.wf(),
            t@.godot_to_rapier == uid_map_of(entries.godot_to_rapier@),
            t@.rapier_to_godot == handle_map_of(entries.rapier_to_godot@),
            t@.snapshot_colliders.to_multiset() == entries.snapshot_colliders@.to_multiset(),
            handles_sorted(entries.snapshot_colliders@) ==> t@ == table_of_entries(
                entries.godot_to_rapier@,
                entries.rapier_to_godot@,
                entries.snapshot_colliders@,
            ),
    {
        let mut g2r = UidToHandleMap::new();
        let n = entries.godot_to_rapier.len();
        let mut i: usize = 0;
        assert(uid_to_handle_contents(g2r) =~= uid_map_of(entries.godot_to_rapier@.take(0)));
        while i < n
            invariant
                n == entries.godot_to_rapier@.len(),
                i <= n,
                uid_to_handle_contents(g2r) == uid_map_of(entries.godot_to_rapier@.take(i as int)),
            decreases n - i,
        {
            let (k, v) = &entries.godot_to_rapier[i];
            g2r.insert(k.clone(), *v);
            proof {
                let t = entries.godot_to_rapier@.take(i + 1);
                assert(t.drop_last() =~= entries.godot_to_rapier@.take(i as int));
            }
            i = i + 1;
        }
        assert(entries.godot_to_rapier@.take(n as int) =~= entries.godot_to_rapier@);
        let mut r2g = HandleToUidMap::new();
        let m = entries.rapier_to_godot.len();
        let mut j: usize = 0;
        assert(handle_to_uid_contents(r2g) =~= handle_map_of(entries.rapier_to_godot@.take(0)));
        while j < m
            invariant
                m == entries.rapier_to_godot@.len(),
                j <= m,
                handle_to_uid_contents(r2g) == handle_map_of(entries.rapier_to_godot@.take(j as int)),
            decreases m - j,
        {
            let (k, v) = &entries.rapier_to_godot[j];
            r2g.insert(*k, v.clone());
            proof {
                let t = entries.rapier_to_godot@.take(j + 1);
                assert(t.drop_last() =~= entries.rapier_to_godot@.take(j as int));
            }
            j = j + 1;
        }
        assert(entries.rapier_to_godot@.take(m as int) =~= entries.rapier_to_godot@);
        let ghost listed = entries.snapshot_colliders@;
        let snapshot_colliders = if handles_ascend(&entries.snapshot_colliders) {
            entries.snapshot_colliders
        } else {
            sort_handles(entries.snapshot_colliders)
        };
        let t = LookupTable { godot_to_rapier: g2r, rapier_to_godot: r2g, snapshot_colliders };
        proof {
            if handles_sorted(listed) {
                assert(t@ =~= table_of_entries(entries.godot_to_rapier@, entries.rapier_to_godot@, listed));
            }
        }
        t
    }
}

/// Storing a well-formed table as lists and reading the lists back gives the
/// same table: what `to_entries` lists, `from_entries` rebuilds unchanged.
pub proof fn lemma_entries_round_trip(
    t: LookupView,
    godot_to_rapier: Seq<(String, (u32, u32))>,
    rapier_to_godot: Seq<((u32, u32), String)>,
    snapshot_colliders: Seq<(u32, u32)>,
)
    requires
        handles_sorted(t.snapshot_colliders),
        uid_map_of(godot_to_rapier) == t.godot_to_rapier,
        handle_map_of(rapier_to_godot) == t.rapier_to_godot,
        snapshot_colliders == t.snapshot_colliders,
    ensures
        handles_sorted(snapshot_colliders),
        table_of_entries(godot_to_rapier, rapier_to_godot, snapshot_colliders) == t,
{
    assert(table_of_entries(godot_to_rapier, rapier_to_godot, snapshot_colliders) =~= t);
}

/// Reading an identifier or a handle right after binding them gives the
/// partner back.
pub proof fn lemma_lookup_read_after_insert(v: LookupView, uid: Seq<char>, handle: (u32, u32))
    ensures
        lookup_insert(v, uid, handle).godot_to_rapier.contains_key(uid),
        lookup_insert(v, uid, handle).godot_to_rapier[uid] == handle,
        lookup_insert(v, uid, handle).rapier_to_godot.contains_key(handle),
        lookup_insert(v, uid, handle).rapier_to_godot[handle] == uid,
{
}

/// Unbinding an identifier, or its handle, undoes binding a fresh identifier
/// to a fresh handle.
pub proof fn lemma_remove_undoes_insert(v: LookupView, uid: Seq<char>, handle: (u32, u32))
    requires
        !v.godot_to_rapier.contains_key(uid),
        !v.rapier_to_godot.contains_key(handle),
    ensures
        lookup_remove_by_uid(lookup_insert(v, uid, handle), uid) == v,
        lookup_remove_by_handle(lookup_insert(v, uid, handle), handle) == v,
{
    assert(lookup_remove_by_uid(lookup_insert(v, uid, handle), uid) =~= v);
    assert(lookup_remove_by_handle(lookup_insert(v, uid, handle), handle) =~= v);
}

/// Binding a fresh identifier to a fresh handle, and unbinding either way,
/// keep every binding matched by its reverse.
pub proof fn lemma_lookup_stays_consistent(v: LookupView, uid: Seq<char>, handle: (u32, u32))
    requires
        lookup_consistent(v),
    ensures
        !v.godot_to_rapier.contains_key(uid) && !v.rapier_to_godot.contains_key(handle)
            ==> lookup_consistent(lookup_insert(v, uid, handle)),
        lookup_consistent(lookup_remove_by_uid(v, uid)),
        lookup_consistent(lookup_remove_by_handle(v, handle)),
{
    if !v.godot_to_rapier.contains_key(uid) && !v.rapier_to_godot.contains_key(handle) {
        let w = lookup_insert(v, uid, handle);
        assert forall|u: Seq<char>| #[trigger] w.godot_to_rapier.contains_key(u) implies
            w.rapier_to_godot.contains_key(w.godot_to_rapier[u]) && w.rapier_to_godot[w.godot_to_rapier[u]] == u by {
            if u != uid {
                assert(v.godot_to_rapier.contains_key(u));
                assert(v.godot_to_rapier[u] != handle);
            }
        }
        assert forall|h: (u32, u32)| #[trigger] w.rapier_to_godot.contains_key(h) implies
            w.godot_to_rapier.contains_key(w.rapier_to_godot[h]) && w.godot_to_rapier[w.rapier_to_godot[h]] == h by {
            if h != handle {
                assert(v.rapier_to_godot.contains_key(h));
                assert(v.rapier_to_godot[h] != uid);
            }
        }
    }
    let a = lookup_remove_by_uid(v, uid);
    if v.godot_to_rapier.contains_key(uid) {
        assert forall|u: Seq<char>| #[trigger] a.godot_to_rapier.contains_key(u) implies
            a.rapier_to_godot.contains_key(a.godot_to_rapier[u]) && a.rapier_to_godot[a.godot_to_rapier[u]] == u by {
            assert(v.godot_to_rapier.contains_key(u));
        }
        assert forall|h: (u32, u32)| #[trigger] a.rapier_to_godot.contains_key(h) implies
            a.godot_to_rapier.contains_key(a.rapier_to_godot[h]) && a.godot_to_rapier[a.rapier_to_godot[h]] == h by {
            assert(v.rapier_to_godot.contains_key(h));
        }
    }
    let b = lookup_remove_by_handle(v, handle);
    if v.rapier_to_godot.contains_key(handle) {
        assert forall|u: Seq<char>| #[trigger] b.godot_to_rapier.contains_key(u) implies
            b.rapier_to_godot.contains_key(b.godot_to_rapier[u]) && b.rapier_to_godot[b.godot_to_rapier[u]] == u by {
            assert(v.godot_to_rapier.contains_key(u));
        }
        assert forall|h: (u32, u32)| #[trigger] b.rapier_to_godot.contains_key(h) implies
            b.godot_to_rapier.contains_key(b.rapier_to_godot[h]) && b.godot_to_rapier[b.rapier_to_godot[h]] == h by {
            assert(v.rapier_to_godot.contains_key(h));
        }
    }
}

proof fn lemma_filter_all_kept(s: Seq<(u32, u32)>, keep: spec_fn((u32, u32)) -> bool)
    requires
        forall|i: int| 0 <= i < s.len() ==> keep(#[trigger] s[i]),
    ensures
        s.filter(keep) == s,
    decreases s.len(),
{
    if s.len() > 0 {
        let d = s.drop_last();
        assert forall|i: int| 0 <= i < d.len() implies keep(#[trigger] d[i]) by {
            assert(d[i] == s[i]);
        }
        lemma_filter_all_kept(d, keep);
        d.lemma_filter_push(s.last(), keep);
        assert(d.push(s.last()) =~= s);
    } else {
        assert(s.filter(keep) =~= s);
    }
}

/// Adding a collider that snapshots did not carry, then dropping it, leaves
/// the list as it was.
pub proof fn lemma_snapshot_insert_then_remove(s: Seq<(u32, u32)>, p: int, handle: (u32, u32))
    requires
        0 <= p <= s.len(),
        !s.contains(handle),
    ensures
        s.insert(p, handle).filter(|x: (u32, u32)| x != handle) == s,
{
    let keep = |x: (u32, u32)| x != handle;
    let t = s.insert(p, handle);
    assert(t =~= s.take(p) + seq![handle] + s.skip(p));
    assert(s =~= s.take(p) + s.skip(p));
    Seq::filter_distributes_over_add(s.take(p) + seq![handle], s.skip(p), keep);
    Seq::filter_distributes_over_add(s.take(p), seq![handle], keep);
    Seq::<(u32, u32)>::empty().lemma_filter_push(handle, keep);
    assert(Seq::<(u32, u32)>::empty().push(handle) =~= seq![handle]);
    assert(Seq::<(u32, u32)>::empty().filter(keep) =~= Seq::<(u32, u32)>::empty());
    assert forall|i: int| 0 <= i < s.take(p).len() implies keep(#[trigger] s.take(p)[i]) by {
        assert(s.take(p)[i] == s[i]);
    }
    assert forall|i: int| 0 <= i < s.skip(p).len() implies keep(#[trigger] s.skip(p)[i]) by {
        assert(s.skip(p)[i] == s[i + p]);
    }
    lemma_filter_all_kept(s.take(p), keep);
    lemma_filter_all_kept(s.skip(p), keep);
}

} // verus!
