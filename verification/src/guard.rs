//! The cycle guard: the set of filesystem identities currently on the active
//! recursion path.  An identity is entered when the traversal descends into a
//! directory and left when that subtree finishes, so only true on-path cycles
//! are flagged, while later, non-cyclic reappearances of the same identity
//! are still computed.

use vstd::prelude::*;

verus! {

/// The transient, per-root-traversal set of identities on the active path.
pub struct CycleGuard {
    active: Vec<(u64, u64)>,
}

impl View for CycleGuard {
    type V = Set<(u64, u64)>;

    closed spec fn view(&self) -> Set<(u64, u64)> {
        self.active@.to_set()
    }
}

impl CycleGuard {
    /// The backing vector holds no identity twice.
    pub closed spec fn wf(self) -> bool {
        forall|i: int, j: int|
            0 <= i < j < self.active@.len() ==> (#[trigger] self.active@[i]) != (
            #[trigger] self.active@[j])
    }

    /// A fresh guard with no identity active.
    pub fn new() -> (r: CycleGuard)
        ensures
            r@ == Set::<(u64, u64)>::empty(),
            r.wf(),
    {
        let r = CycleGuard { active: Vec::new() };
        proof {
            assert(r@ =~= Set::<(u64, u64)>::empty());
        }
        r
    }

    /// Whether `id` is currently on the active path.
    pub fn contains(&self, id: (u64, u64)) -> (r: bool)
        ensures
            r == self@.contains(id),
    {
        let n = self.active.len();
        for i in 0..n
            invariant
                n == self.active@.len(),
                forall|j: int| 0 <= j < i ==> self.active@[j] != id,
        {
            let cur = self.active[i];
            if cur.0 == id.0 && cur.1 == id.1 {
                assert(self.active@.contains(id));
                return true;
            }
        }
        assert(!self.active@.contains(id));
        false
    }

    /// Marks `id` active.  Returns `true` when it was entered, `false` when
    /// it was already active (a cycle), in which case nothing changes.
    pub fn enter(&mut self, id: (u64, u64)) -> (entered: bool)
        requires
            old(self).wf(),
        ensures
            final(self).wf(),
            entered == !old(self)@.contains(id),
            final(self)@ == old(self)@.insert(id),
    {
        if self.contains(id) {
            proof {
                assert(self@ =~= self@.insert(id));
            }
            false
        } else {
            self.active.push(id);
            proof {
                let before = old(self).active@;
                let after = self.active@;
                assert forall|x: (u64, u64)| after.contains(x) implies before.to_set().insert(
                    id,
                ).contains(x) by {
                    let k = choose|k: int| 0 <= k < after.len() && after[k] == x;
                    if k < before.len() {
                        assert(before[k] == x);
                    }
                }
                assert forall|x: (u64, u64)| before.to_set().insert(id).contains(x)
                    implies after.contains(x) by {
                    if x == id {
                        assert(after[after.len() - 1] == x);
                    } else {
                        let k = choose|k: int| 0 <= k < before.len() && before[k] == x;
                        assert(after[k] == x);
                    }
                }
                assert(self@ =~= old(self)@.insert(id));
                assert forall|p: int, q: int| 0 <= p < q < after.len() implies after[p]
                    != after[q] by {
                    if q < before.len() {
                        assert(before[p] != before[q]);
                    } else {
                        assert(after[q] == id);
                        assert(!before.contains(id));
                        assert(before[p] == after[p]);
                    }
                }
            }
            true
        }
    }

    /// Removes `id` from the active path; a no-op when it is not active.
    pub fn leave(&mut self, id: (u64, u64))
        requires
            old(self).wf(),
        ensures
            final(self).wf(),
            final(self)@ == old(self)@.remove(id),
    {
        let n = self.active.len();
        for i in 0..n
            invariant
                old(self).wf(),
                n == self.active@.len(),
                self.active@ == old(self).active@,
                forall|j: int| 0 <= j < i ==> self.active@[j] != id,
        {
            let cur = self.active[i];
            if cur.0 == id.0 && cur.1 == id.1 {
                self.active.remove(i);
                proof {
                    let before = old(self).active@;
                    let after = self.active@;
                    assert(before[i as int] == id);
                    assert forall|x: (u64, u64)| after.contains(x) implies before.to_set().remove(
                        id,
                    ).contains(x) by {
                        let k = choose|k: int| 0 <= k < after.len() && after[k] == x;
                        if k < i {
                            assert(before[k] == x);
                            assert(before[k] != before[i as int]);
                        } else {
                            assert(before[k + 1] == x);
                            assert(before[i as int] != before[k + 1]);
                        }
                        assert(x != id);
                        assert(before.contains(x));
                    }
                    assert forall|x: (u64, u64)| before.to_set().remove(id).contains(x)
                        implies after.contains(x) by {
                        let k = choose|k: int| 0 <= k < before.len() && before[k] == x;
                        assert(k != i);
                        if k < i {
                            assert(after[k] == x);
                        } else {
                            assert(after[k - 1] == x);
                        }
                    }
                    assert(self@ =~= old(self)@.remove(id));
                    assert forall|p: int, q: int| 0 <= p < q < after.len() implies after[p]
                        != after[q] by {
                        let bp: int = if p < i { p } else { p + 1 };
                        let bq: int = if q < i { q } else { q + 1 };
                        assert(after[p] == before[bp]);
                        assert(after[q] == before[bq]);
                        assert(bp < bq);
                        assert(before[bp] != before[bq]);
                    }
                }
                return ;
            }
        }
        proof {
            assert(!old(self)@.contains(id));
            assert(self@ =~= old(self)@.remove(id));
        }
    }
}

} // verus!
