//! The in-memory cache store: a mapping from a derived cache key to the
//! record persisted for it, with lookup-with-validation and
//! insert-with-overwrite.

use crate::arith::sat_mul64;
use crate::text::str_eq;
use crate::units::SizeUnit;
use vstd::prelude::*;

verus! {

/// One persisted cache record: the stored magnitude, the identity it was
/// computed for, and the unit the magnitude is expressed in.
#[derive(Debug, Clone, Copy, PartialEq, Eq, Structural)]
pub struct CacheEntry {
    pub size: u64,
    pub inode: u64,
    pub device_id: u64,
    pub size_unit: SizeUnit,
}

/// The mapping described by an association list, earliest entry winning.
pub open spec fn assoc_map(s: Seq<(Seq<char>, CacheEntry)>) -> Map<Seq<char>, CacheEntry>
    decreases s.len(),
{
    if s.len() == 0 {
        Map::empty()
    } else {
        assoc_map(s.drop_first()).insert(s[0].0, s[0].1)
    }
}

/// The association list after `k` is bound to `e`: the first binding of `k`
/// is replaced in place, or a new binding is appended.
pub open spec fn assoc_update(
    s: Seq<(Seq<char>, CacheEntry)>,
    k: Seq<char>,
    e: CacheEntry,
) -> Seq<(Seq<char>, CacheEntry)>
    decreases s.len(),
{
    if s.len() == 0 {
        seq![(k, e)]
    } else if s[0].0 == k {
        seq![(k, e)] + s.drop_first()
    } else {
        seq![s[0]] + assoc_update(s.drop_first(), k, e)
    }
}

/// What a validated lookup returns: the scaled byte value of the record bound
/// to `key`, provided its stored volume id equals the live one; otherwise a
/// miss.
pub open spec fn spec_lookup(
    m: Map<Seq<char>, CacheEntry>,
    key: Seq<char>,
    live_volume_id: u64,
) -> Option<u64> {
    if m.contains_key(key) && m[key].device_id == live_volume_id {
        Some(sat_mul64(m[key].size, m[key].size_unit.spec_scale()))
    } else {
        None
    }
}

/// A record is served only for the volume it was computed on: when the live
/// volume id differs from the stored one, the lookup misses even though the
/// key is present, which forces a recomputation.
pub proof fn lemma_lookup_rejects_volume_change(
    m: Map<Seq<char>, CacheEntry>,
    key: Seq<char>,
    live_volume_id: u64,
)
    requires
        m.contains_key(key),
        m[key].device_id != live_volume_id,
    ensures
        spec_lookup(m, key, live_volume_id) is None,
{
}

proof fn lemma_assoc_map_first(s: Seq<(Seq<char>, CacheEntry)>, i: int, k: Seq<char>)
    requires
        0 <= i < s.len(),
        s[i].0 == k,
        forall|j: int| 0 <= j < i ==> (#[trigger] s[j]).0 != k,
    ensures
        assoc_map(s).contains_key(k),
        assoc_map(s)[k] == s[i].1,
    decreases s.len(),
{
    if i > 0 {
        lemma_assoc_map_first(s.drop_first(), i - 1, k);
    }
}

proof fn lemma_assoc_map_none(s: Seq<(Seq<char>, CacheEntry)>, k: Seq<char>)
    requires
        forall|j: int| 0 <= j < s.len() ==> (#[trigger] s[j]).0 != k,
    ensures
        !assoc_map(s).contains_key(k),
    decreases s.len(),
{
    if s.len() > 0 {
        lemma_assoc_map_none(s.drop_first(), k);
    }
}

proof fn lemma_assoc_update_found(s: Seq<(Seq<char>, CacheEntry)>, i: int, k: Seq<char>, e: CacheEntry)
    requires
        0 <= i < s.len(),
        s[i].0 == k,
        forall|j: int| 0 <= j < i ==> (#[trigger] s[j]).0 != k,
    ensures
        assoc_update(s, k, e) == s.update(i, (k, e)),
    decreases s.len(),
{
    if i == 0 {
        assert(assoc_update(s, k, e) =~= s.update(0, (k, e)));
    } else {
        lemma_assoc_update_found(s.drop_first(), i - 1, k, e);
        assert(s.update(i, (k, e)).drop_first() =~= s.drop_first().update(i - 1, (k, e)));
        assert(assoc_update(s, k, e) =~= s.update(i, (k, e)));
    }
}

/// Binding a key that does not occur in the list appends the new record.
pub proof fn lemma_assoc_update_missing(s: Seq<(Seq<char>, CacheEntry)>, k: Seq<char>, e: CacheEntry)
    requires
        forall|j: int| 0 <= j < s.len() ==> (#[trigger] s[j]).0 != k,
    ensures
        assoc_update(s, k, e) == s.push((k, e)),
    decreases s.len(),
{
    if s.len() == 0 {
        assert(assoc_update(s, k, e) =~= s.push((k, e)));
    } else {
        lemma_assoc_update_missing(s.drop_first(), k, e);
        assert(s.push((k, e)).drop_first() =~= s.drop_first().push((k, e)));
        assert(assoc_update(s, k, e) =~= s.push((k, e)));
    }
}

/// Updating a binding acts on the described mapping as a plain `insert`.
pub proof fn lemma_assoc_update_map(s: Seq<(Seq<char>, CacheEntry)>, k: Seq<char>, e: CacheEntry)
    ensures
        assoc_map(assoc_update(s, k, e)) == assoc_map(s).insert(k, e),
    decreases s.len(),
{
    let u = assoc_update(s, k, e);
    if s.len() == 0 {
        assert(u =~= seq![(k, e)]);
        assert(u.len() == 1);
        assert(u[0] == (k, e));
        assert(u.drop_first().len() == 0);
        assert(assoc_map(u.drop_first()) == Map::<Seq<char>, CacheEntry>::empty());
        assert(assoc_map(u) == Map::<Seq<char>, CacheEntry>::empty().insert(k, e));
        assert(assoc_map(s) == Map::<Seq<char>, CacheEntry>::empty());
        assert(assoc_map(u) == assoc_map(s).insert(k, e));
    } else if s[0].0 == k {
        assert(u.drop_first() =~= s.drop_first());
        assert(u[0] == (k, e));
        assert(assoc_map(u) == assoc_map(s.drop_first()).insert(k, e));
        assert(assoc_map(s) == assoc_map(s.drop_first()).insert(k, s[0].1));
        assert(assoc_map(u) =~= assoc_map(s).insert(k, e));
    } else {
        lemma_assoc_update_map(s.drop_first(), k, e);
        assert(u.drop_first() =~= assoc_update(s.drop_first(), k, e));
        assert(u[0] == s[0]);
        assert(assoc_map(u) == assoc_map(s.drop_first()).insert(k, e).insert(s[0].0, s[0].1));
        assert(assoc_map(u) =~= assoc_map(s).insert(k, e));
    }
}

/// The in-memory cache store.
pub struct CacheStore {
    entries: Vec<(String, CacheEntry)>,
}

impl View for CacheStore {
    type V = Seq<(Seq<char>, CacheEntry)>;

    closed spec fn view(&self) -> Seq<(Seq<char>, CacheEntry)> {
        self.entries@.map_values(|p: (String, CacheEntry)| (p.0@, p.1))
    }
}

impl CacheStore {
    /// No key is bound twice.
    pub open spec fn wf(self) -> bool {
        forall|i: int, j: int|
            0 <= i < j < self@.len() ==> (#[trigger] self@[i]).0 != (#[trigger] self@[j]).0
    }

    /// The mapping this store describes.
    pub open spec fn as_map(self) -> Map<Seq<char>, CacheEntry> {
        assoc_map(self@)
    }

    /// An empty store.
    pub fn new() -> (r: CacheStore)
        ensures
            r@ == Seq::<(Seq<char>, CacheEntry)>::empty(),
            r.wf(),
    {
        let r = CacheStore { entries: Vec::new() };
        proof {
            assert(r@ =~= Seq::<(Seq<char>, CacheEntry)>::empty());
        }
        r
    }

    /// The number of records held.
    pub fn len(&self) -> (r: usize)
        ensures
            r == self@.len(),
    {
        self.entries.len()
    }

    /// The record bound to `key`, if any.
    pub fn get(&self, key: &String) -> (r: Option<CacheEntry>)
        requires
            self.wf(),
        ensures
            r matches Some(e) ==> self.as_map().contains_key(key@) && e == self.as_map()[key@],
            r is None ==> !self.as_map().contains_key(key@),
    {
        let n = self.entries.len();
        for i in 0..n
            invariant
                n == self.entries@.len(),
                forall|j: int| 0 <= j < i ==> (#[trigger] self@[j]).0 != key@,
        {
            if str_eq(self.entries[i].0.as_str(), key.as_str()) {
                proof {
                    lemma_assoc_map_first(self@, i as int, key@);
                }
                return Some(self.entries[i].1);
            }
        }
        proof {
            lemma_assoc_map_none(self@, key@);
        }
        None
    }

    /// Validated lookup: the scaled byte value for `key`, served only when
    /// the stored volume id equals `live_volume_id`; otherwise a miss.
    pub fn lookup(&self, key: &String, live_volume_id: u64) -> (r: Option<u64>)
        requires
            self.wf(),
        ensures
            r == spec_lookup(self.as_map(), key@, live_volume_id),
    {
        match self.get(key) {
            Some(e) => {
                if e.device_id == live_volume_id {
                    Some(crate::arith::sat_mul_u64(e.size, e.size_unit.unit_scale()))
                } else {
                    None
                }
            },
            None => None,
        }
    }

    /// The key of the record at position `i`.
    pub fn key_at(&self, i: usize) -> (r: &String)
        requires
            i < self@.len(),
        ensures
            r@ == self@[i as int].0,
    {
        &self.entries[i].0
    }

    /// The record at position `i`.
    pub fn entry_at(&self, i: usize) -> (r: CacheEntry)
        requires
            i < self@.len(),
        ensures
            r == self@[i as int].1,
    {
        self.entries[i].1
    }

    /// Binds `key` to `entry` exactly as given, overwriting any existing
    /// record for that key.
    pub fn insert_record(&mut self, key: String, entry: CacheEntry)
        requires
            old(self).wf(),
        ensures
            final(self)@ == assoc_update(old(self)@, key@, entry),
            final(self).as_map() == old(self).as_map().insert(key@, entry),
            final(self).wf(),
    {
        let n = self.entries.len();
        for i in 0..n
            invariant
                old(self).wf(),
                self.entries@ == old(self).entries@,
                self@ == old(self)@,
                n == self.entries@.len(),
                forall|j: int| 0 <= j < i ==> (#[trigger] old(self)@[j]).0 != key@,
        {
            let hit = str_eq(self.entries[i].0.as_str(), key.as_str());
            proof {
                assert(self@[i as int] == (self.entries@[i as int].0@, self.entries@[i as int].1));
                assert(hit == (old(self)@[i as int].0 == key@));
            }
            if hit {
                self.entries.remove(i);
                self.entries.insert(i, (key, entry));
                proof {
                    let before = old(self)@;
                    lemma_assoc_update_found(before, i as int, key@, entry);
                    assert(self.entries@ == old(self).entries@.remove(i as int).insert(
                        i as int,
                        (key, entry),
                    ));
                    assert(self@.len() == before.len());
                    assert forall|j: int| 0 <= j < self@.len() implies self@[j] == before.update(
                        i as int,
                        (key@, entry),
                    )[j] by {
                        if j == i {
                            assert(self.entries@[j] == (key, entry));
                        } else if j < i {
                            assert(self.entries@[j] == old(self).entries@[j]);
                        } else {
                            assert(self.entries@[j] == old(self).entries@[j]);
                        }
                    }
                    assert(self@ =~= before.update(i as int, (key@, entry)));
                    lemma_assoc_update_map(before, key@, entry);
                    assert(old(self)@[i as int].0 == key@);
                    assert forall|p: int, q: int| 0 <= p < q < self@.len() implies (
                    #[trigger] self@[p]).0 != (#[trigger] self@[q]).0 by {
                        if q == i {
                            assert(old(self)@[p].0 != key@);
                        } else if p == i {
                            assert(old(self)@[i as int].0 != old(self)@[q].0);
                        } else {
                            assert(old(self)@[p].0 != old(self)@[q].0);
                        }
                    }
                }
                return ;
            }
        }
        self.entries.push((key, entry));
        proof {
            lemma_assoc_update_missing(old(self)@, key@, entry);
            assert(self@ =~= old(self)@.push((key@, entry)));
            lemma_assoc_update_map(old(self)@, key@, entry);
            assert forall|p: int, q: int| 0 <= p < q < self@.len() implies (
            #[trigger] self@[p]).0 != (#[trigger] self@[q]).0 by {
                if q < old(self)@.len() {
                    assert(old(self)@[p].0 != old(self)@[q].0);
                } else {
                    assert(self@[q].0 == key@);
                    assert(old(self)@[p].0 != key@);
                }
            }
        }
    }

    /// Binds `key` to a freshly computed byte total, overwriting any existing
    /// record; recomputed records are always written in raw-byte form.
    pub fn insert(&mut self, key: String, size: u64, device_id: u64, inode: u64)
        requires
            old(self).wf(),
        ensures
            final(self)@ == assoc_update(
                old(self)@,
                key@,
                CacheEntry { size, inode, device_id, size_unit: SizeUnit::Bytes },
            ),
            final(self).as_map() == old(self).as_map().insert(
                key@,
                CacheEntry { size, inode, device_id, size_unit: SizeUnit::Bytes },
            ),
            final(self).wf(),
    {
        self.insert_record(key, CacheEntry { size, inode, device_id, size_unit: SizeUnit::Bytes })
    }
}

} // verus!
