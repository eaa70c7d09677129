//! The traversal engine: a recursive depth-first size accumulator over a
//! snapshot, composing the cycle guard, the cache store and the cache key
//! derivation, and producing a resolved byte total per entry together with
//! diagnostic counts.

use crate::arith::{lemma_sat_add64_assoc, sat_add64};
use crate::digest::{cache_key_for, spec_cache_key};
use crate::fileinfo::FileInfo;
use crate::guard::CycleGuard;
use crate::store::{assoc_map, assoc_update, spec_lookup, CacheEntry, CacheStore};
use crate::tree::{lemma_tree_identities_finite, node_identity, tree_identities, FsNode, FsTree};
use crate::units::SizeUnit;
use vstd::prelude::*;

verus! {

/// What one traversal call produces: the resolved byte total, the cache
/// contents afterwards, and the diagnostic counts accumulated on the way.
#[verifier::ext_equal]
pub struct ResolveOut {
    pub total: u64,
    pub cache: Seq<(Seq<char>, CacheEntry)>,
    pub cycles: u64,
    pub errors: u64,
    pub dirs_listed: u64,
    pub cache_hits: u64,
    pub list_failures: u64,
}

/// Diagnostic counts reported by a traversal; all accumulation saturates.
pub struct TraversalReport {
    pub cycles: u64,
    pub errors: u64,
    pub dirs_listed: u64,
    pub cache_hits: u64,
    pub list_failures: u64,
}

impl TraversalReport {
    pub fn new() -> (r: TraversalReport)
        ensures
            r.cycles == 0,
            r.errors == 0,
            r.dirs_listed == 0,
            r.cache_hits == 0,
            r.list_failures == 0,
    {
        TraversalReport { cycles: 0, errors: 0, dirs_listed: 0, cache_hits: 0, list_failures: 0 }
    }
}

/// An outcome that contributes `total` bytes and touches nothing else.
pub open spec fn spec_leaf_out(total: u64, cache: Seq<(Seq<char>, CacheEntry)>) -> ResolveOut {
    ResolveOut { total, cache, cycles: 0, errors: 0, dirs_listed: 0, cache_hits: 0, list_failures: 0 }
}

/// An outcome that contributes nothing but one count of `cycles`.
pub open spec fn spec_cycle_out(cache: Seq<(Seq<char>, CacheEntry)>) -> ResolveOut {
    ResolveOut { total: 0, cache, cycles: 1, errors: 0, dirs_listed: 0, cache_hits: 0, list_failures: 0 }
}

/// Two outcomes in sequence: totals and counts accumulate (saturating), the
/// cache ends as the second left it.
pub open spec fn spec_combine(a: ResolveOut, b: ResolveOut) -> ResolveOut {
    ResolveOut {
        total: sat_add64(a.total, b.total),
        cache: b.cache,
        cycles: sat_add64(a.cycles, b.cycles),
        errors: sat_add64(a.errors, b.errors),
        dirs_listed: sat_add64(a.dirs_listed, b.dirs_listed),
        cache_hits: sat_add64(a.cache_hits, b.cache_hits),
        list_failures: sat_add64(a.list_failures, b.list_failures),
    }
}

/// Sequencing outcomes is associative.
pub proof fn lemma_combine_assoc(a: ResolveOut, b: ResolveOut, c: ResolveOut)
    ensures
        spec_combine(spec_combine(a, b), c) == spec_combine(a, spec_combine(b, c)),
{
}

/// How many identities of the snapshot are not yet on the active path; the
/// traversal's termination measure.
pub open spec fn unvisited(t: Seq<FsNode>, visited: Set<(u64, u64)>) -> int {
    tree_identities(t).difference(visited).len() as int
}

/// Entering a directory that is in the snapshot and not yet on the path
/// strictly shrinks the unvisited remainder.
pub proof fn lemma_unvisited_shrinks(t: Seq<FsNode>, visited: Set<(u64, u64)>, id: (u64, u64))
    requires
        tree_identities(t).contains(id),
        !visited.contains(id),
    ensures
        unvisited(t, visited.insert(id)) < unvisited(t, visited),
{
    let x = tree_identities(t);
    lemma_tree_identities_finite(t);
    let d = x.difference(visited);
    assert(d.subset_of(x));
    vstd::set_lib::lemma_len_subset(d, x);
    assert(d.contains(id));
    assert(x.difference(visited.insert(id)) =~= d.remove(id));
    vstd::set::axiom_set_remove_len(d, id);
}

/// The identity of the node at `idx` is one of the snapshot's identities.
pub proof fn lemma_identity_in_tree(t: Seq<FsNode>, idx: int)
    requires
        0 <= idx < t.len(),
    ensures
        tree_identities(t).contains(node_identity(t[idx])),
{
    let mapped = t.map_values(|n: FsNode| node_identity(n));
    assert(mapped[idx] == node_identity(t[idx]));
    assert(mapped.contains(node_identity(t[idx])));
}

/// The outcome of resolving the entry at `idx`: a non-directory yields its
/// raw length; a directory already on the active path is a cycle; otherwise
/// the cache is consulted (unless recomputation is forced), and on a miss
/// the children are accumulated and the total is written back to the cache
/// in raw-byte form.
pub open spec fn spec_resolve(
    t: Seq<FsNode>,
    idx: int,
    visited: Set<(u64, u64)>,
    cache: Seq<(Seq<char>, CacheEntry)>,
    recalculate: bool,
    ignore_symlinks: bool,
) -> ResolveOut
    decreases unvisited(t, visited), 0int, 0int,
    via spec_resolve_decreases
{
    if !(0 <= idx < t.len()) {
        spec_leaf_out(0, cache)
    } else {
        let n = t[idx];
        if !n.info.is_directory {
            spec_leaf_out(n.info.size, cache)
        } else {
            let id = node_identity(n);
            if visited.contains(id) {
                spec_cycle_out(cache)
            } else {
                let key = spec_cache_key(n.info.inode, n.volume_id);
                let hit = if recalculate {
                    None
                } else {
                    spec_lookup(assoc_map(cache), key, n.volume_id)
                };
                if hit is Some {
                    ResolveOut {
                        total: hit.unwrap(),
                        cache,
                        cycles: 0,
                        errors: 0,
                        dirs_listed: 0,
                        cache_hits: 1,
                        list_failures: 0,
                    }
                } else if !n.list_ok {
                    ResolveOut {
                        total: 0,
                        cache,
                        cycles: 0,
                        errors: 0,
                        dirs_listed: 0,
                        cache_hits: 0,
                        list_failures: 1,
                    }
                } else {
                    let ch = spec_resolve_children(
                        t,
                        idx,
                        0,
                        visited.insert(id),
                        cache,
                        recalculate,
                        ignore_symlinks,
                    );
                    ResolveOut {
                        total: ch.total,
                        cache: assoc_update(
                            ch.cache,
                            key,
                            CacheEntry {
                                size: ch.total,
                                inode: n.info.inode,
                                device_id: n.volume_id,
                                size_unit: SizeUnit::Bytes,
                            },
                        ),
                        cycles: ch.cycles,
                        errors: sat_add64(ch.errors, n.unreadable_children),
                        dirs_listed: sat_add64(ch.dirs_listed, 1),
                        cache_hits: ch.cache_hits,
                        list_failures: ch.list_failures,
                    }
                }
            }
        }
    }
}

#[via_fn]
proof fn spec_resolve_decreases(
    t: Seq<FsNode>,
    idx: int,
    visited: Set<(u64, u64)>,
    cache: Seq<(Seq<char>, CacheEntry)>,
    recalculate: bool,
    ignore_symlinks: bool,
) {
    if 0 <= idx < t.len() {
        let n = t[idx];
        let id = node_identity(n);
        if n.info.is_directory && !visited.contains(id) {
            lemma_identity_in_tree(t, idx);
            lemma_unvisited_shrinks(t, visited, id);
        }
    }
}

/// The outcome of one child of `t[idx]`, in the context of the path
/// `visited` (which contains the parent's identity): a child directory whose
/// identity is already on the path is a cycle edge, skipped with one
/// warning; any other directory is resolved recursively; a symbolic link is
/// skipped when links are ignored; any other entry contributes its raw
/// length.
pub open spec fn spec_child_step(
    t: Seq<FsNode>,
    c: int,
    visited: Set<(u64, u64)>,
    cache: Seq<(Seq<char>, CacheEntry)>,
    recalculate: bool,
    ignore_symlinks: bool,
) -> ResolveOut
    decreases unvisited(t, visited), 1int, 0int,
{
    if !(0 <= c < t.len()) {
        spec_leaf_out(0, cache)
    } else {
        let cn = t[c];
        if cn.info.is_directory {
            if visited.contains(node_identity(cn)) {
                spec_cycle_out(cache)
            } else {
                spec_resolve(t, c, visited, cache, recalculate, ignore_symlinks)
            }
        } else {
            if ignore_symlinks && cn.info.file_type@ == "symlink"@ {
                spec_leaf_out(0, cache)
            } else {
                spec_leaf_out(cn.info.size, cache)
            }
        }
    }
}

/// The accumulated outcome of the children of `t[idx]` from position `pos`
/// on, each child seeing the cache as the previous one left it.
pub open spec fn spec_resolve_children(
    t: Seq<FsNode>,
    idx: int,
    pos: int,
    visited: Set<(u64, u64)>,
    cache: Seq<(Seq<char>, CacheEntry)>,
    recalculate: bool,
    ignore_symlinks: bool,
) -> ResolveOut
    decreases
        unvisited(t, visited),
        2int,
        (if 0 <= idx < t.len() {
            t[idx].children@.len() - pos
        } else {
            0int
        }),
{
    if !(0 <= idx < t.len()) || !(0 <= pos < t[idx].children@.len()) {
        spec_leaf_out(0, cache)
    } else {
        let c = t[idx].children@[pos] as int;
        let step = spec_child_step(t, c, visited, cache, recalculate, ignore_symlinks);
        let rest = spec_resolve_children(
            t,
            idx,
            pos + 1,
            visited,
            step.cache,
            recalculate,
            ignore_symlinks,
        );
        spec_combine(step, rest)
    }
}

/// Resolves the byte total of the snapshot entry at `idx`, exactly as
/// `spec_resolve` describes: the cache is read and written through `cache`,
/// the active path through `guard` (restored on return), and the diagnostic
/// counts are added, saturating, onto `report`.
pub fn resolve_size(
    tree: &FsTree,
    idx: usize,
    cache: &mut CacheStore,
    recalculate: bool,
    guard: &mut CycleGuard,
    ignore_symlinks: bool,
    report: &mut TraversalReport,
) -> (total: u64)
    requires
        tree.wf(),
        idx < tree.nodes@.len(),
        old(cache).wf(),
        old(guard).wf(),
    ensures
        final(cache).wf(),
        final(guard).wf(),
        final(guard)@ == old(guard)@,
        ({
            let out = spec_resolve(
                tree.nodes@,
                idx as int,
                old(guard)@,
                old(cache)@,
                recalculate,
                ignore_symlinks,
            );
            &&& total == out.total
            &&& final(cache)@ == out.cache
            &&& final(report).cycles == sat_add64(old(report).cycles, out.cycles)
            &&& final(report).errors == sat_add64(old(report).errors, out.errors)
            &&& final(report).dirs_listed == sat_add64(old(report).dirs_listed, out.dirs_listed)
            &&& final(report).cache_hits == sat_add64(old(report).cache_hits, out.cache_hits)
            &&& final(report).list_failures == sat_add64(
                old(report).list_failures,
                out.list_failures,
            )
        }),
    decreases unvisited(tree.nodes@, old(guard)@),
{
    let ghost t = tree.nodes@;
    let ghost v0 = old(guard)@;
    let ghost c0 = old(cache)@;
    let ghost out = spec_resolve(t, idx as int, v0, c0, recalculate, ignore_symlinks);

    if !tree.nodes[idx].info.is_directory {
        return tree.nodes[idx].info.size;
    }
    let inode = tree.nodes[idx].info.inode;
    let volume_id = tree.nodes[idx].volume_id;
    let id = (inode, volume_id);
    proof {
        assert(id == node_identity(t[idx as int]));
    }
    let entered = guard.enter(id);
    if !entered {
        report.cycles = report.cycles.saturating_add(1);
        proof {
            assert(guard@ =~= v0);
        }
        return 0;
    }
    let key = cache_key_for(inode, volume_id);
    if !recalculate {
        match cache.lookup(&key, volume_id) {
            Some(v) => {
                report.cache_hits = report.cache_hits.saturating_add(1);
                guard.leave(id);
                proof {
                    assert(guard@ =~= v0);
                }
                return v;
            },
            None => {},
        }
    }
    if !tree.nodes[idx].list_ok {
        report.list_failures = report.list_failures.saturating_add(1);
        guard.leave(id);
        proof {
            assert(guard@ =~= v0);
        }
        return 0;
    }
    let ghost v1 = v0.insert(id);
    let ghost target = spec_resolve_children(t, idx as int, 0, v1, c0, recalculate, ignore_symlinks);
    let mut total: u64 = 0;
    let ghost mut done = spec_leaf_out(0, c0);
    let nchildren = tree.nodes[idx].children.len();
    proof {
        assert(spec_combine(done, spec_resolve_children(t, idx as int, 0, v1, c0, recalculate, ignore_symlinks)) =~= target);
    }
    for j in 0..nchildren
        invariant
            tree.wf(),
            t == tree.nodes@,
            v0 == old(guard)@,
            c0 == old(cache)@,
            idx < t.len(),
            t[idx as int].info.is_directory,
            t[idx as int].list_ok,
            inode == t[idx as int].info.inode,
            volume_id == t[idx as int].volume_id,
            id == node_identity(t[idx as int]),
            !v0.contains(id),
            v1 == v0.insert(id),
            !recalculate ==> spec_lookup(
                assoc_map(c0),
                spec_cache_key(inode, volume_id),
                volume_id,
            ) is None,
            nchildren == t[idx as int].children@.len(),
            guard.wf(),
            guard@ == v1,
            cache.wf(),
            key@ == spec_cache_key(inode, volume_id),
            out == spec_resolve(t, idx as int, v0, c0, recalculate, ignore_symlinks),
            target == spec_resolve_children(t, idx as int, 0, v1, c0, recalculate, ignore_symlinks),
            done.total == total,
            done.cache == cache@,
            report.cycles == sat_add64(old(report).cycles, done.cycles),
            report.errors == sat_add64(old(report).errors, done.errors),
            report.dirs_listed == sat_add64(old(report).dirs_listed, done.dirs_listed),
            report.cache_hits == sat_add64(old(report).cache_hits, done.cache_hits),
            report.list_failures == sat_add64(old(report).list_failures, done.list_failures),
            spec_combine(
                done,
                spec_resolve_children(
                    t,
                    idx as int,
                    j as int,
                    v1,
                    cache@,
                    recalculate,
                    ignore_symlinks,
                ),
            ) == target,
    {
        let c = tree.nodes[idx].children[j];
        proof {
            assert(t[idx as int].children@[j as int] < t.len());
        }
        let ghost done_before = done;
        let ghost cache_before = cache@;
        let ghost report_before = *report;
        let ghost step = spec_child_step(t, c as int, v1, cache@, recalculate, ignore_symlinks);
        let ghost rest_here = spec_resolve_children(
            t,
            idx as int,
            j as int,
            v1,
            cache@,
            recalculate,
            ignore_symlinks,
        );
        proof {
            assert(rest_here == spec_combine(
                step,
                spec_resolve_children(
                    t,
                    idx as int,
                    j + 1,
                    v1,
                    step.cache,
                    recalculate,
                    ignore_symlinks,
                ),
            ));
        }
        if tree.nodes[c].info.is_directory {
            let cid = (tree.nodes[c].info.inode, tree.nodes[c].volume_id);
            proof {
                assert(cid == node_identity(t[c as int]));
            }
            if guard.contains(cid) {
                report.cycles = report.cycles.saturating_add(1);
                proof {
                    assert(step =~= spec_cycle_out(cache@));
                    done = spec_combine(done, step);
                }
            } else {
                proof {
                    lemma_identity_in_tree(t, idx as int);
                    lemma_unvisited_shrinks(t, v0, id);
                }
                let sub = resolve_size(
                    tree,
                    c,
                    cache,
                    recalculate,
                    guard,
                    ignore_symlinks,
                    report,
                );
                total = total.saturating_add(sub);
                proof {
                    assert(step =~= spec_resolve(
                        t,
                        c as int,
                        v1,
                        cache_before,
                        recalculate,
                        ignore_symlinks,
                    ));
                    done = spec_combine(done, step);
                }
            }
        } else {
            if ignore_symlinks && tree.nodes[c].info.is_symlink_entry() {
                proof {
                    assert(step =~= spec_leaf_out(0, cache@));
                    done = spec_combine(done, step);
                }
            } else {
                total = total.saturating_add(tree.nodes[c].info.size);
                proof {
                    assert(step =~= spec_leaf_out(t[c as int].info.size, cache@));
                    done = spec_combine(done, step);
                }
            }
        }
        proof {
            let rest_next = spec_resolve_children(
                t,
                idx as int,
                j + 1,
                v1,
                cache@,
                recalculate,
                ignore_symlinks,
            );
            assert(step.cache == cache@);
            lemma_combine_assoc(done_before, step, rest_next);
            assert(spec_combine(done, rest_next) == target);
            lemma_sat_add64_assoc(old(report).cycles, done_before.cycles, step.cycles);
            lemma_sat_add64_assoc(old(report).errors, done_before.errors, step.errors);
            lemma_sat_add64_assoc(old(report).dirs_listed, done_before.dirs_listed, step.dirs_listed);
            lemma_sat_add64_assoc(old(report).cache_hits, done_before.cache_hits, step.cache_hits);
            lemma_sat_add64_assoc(
                old(report).list_failures,
                done_before.list_failures,
                step.list_failures,
            );
        }
    }
    proof {
        assert(spec_resolve_children(
            t,
            idx as int,
            nchildren as int,
            v1,
            cache@,
            recalculate,
            ignore_symlinks,
        ) =~= spec_leaf_out(0, cache@));
        assert(spec_combine(done, spec_leaf_out(0, cache@)) =~= done);
        assert(done =~= target);
    }
    report.errors = report.errors.saturating_add(tree.nodes[idx].unreadable_children);
    report.dirs_listed = report.dirs_listed.saturating_add(1);
    cache.insert(key, total, volume_id, inode);
    guard.leave(id);
    proof {
        assert(guard@ =~= v0);
        lemma_sat_add64_assoc(old(report).errors, target.errors, t[idx as int].unreadable_children);
        lemma_sat_add64_assoc(old(report).dirs_listed, target.dirs_listed, 1);
        assert(out.total == target.total);
        assert(final(cache)@ == out.cache);
    }
    total
}

/// A snapshot that is an honest tree: every child link points strictly
/// forward in the table, and no two nodes name the same filesystem object.
pub open spec fn spec_tree_like(t: Seq<FsNode>) -> bool {
    &&& forall|i: int, j: int|
        0 <= i < t.len() && 0 <= j < t[i].children@.len() ==> i < #[trigger] t[i].children@[j]
            < t.len()
    &&& forall|i: int, j: int|
        0 <= i < j < t.len() ==> node_identity(#[trigger] t[i]) != node_identity(#[trigger] t[j])
}

/// The saturating sum of the regular-file byte lengths reachable from `idx`
/// (symbolic links excluded when they are ignored); a non-directory counts
/// its own length.
pub open spec fn spec_subtree_sum(t: Seq<FsNode>, idx: int, ignore_symlinks: bool) -> u64
    decreases t.len() - idx, 1int, 0int,
        when spec_tree_like(t)
{
    if !(0 <= idx < t.len()) {
        0
    } else if !t[idx].info.is_directory {
        t[idx].info.size
    } else {
        spec_sum_children(t, idx, 0, ignore_symlinks)
    }
}

/// The saturating sum contributed by the children of `t[idx]` from `pos` on.
pub open spec fn spec_sum_children(
    t: Seq<FsNode>,
    idx: int,
    pos: int,
    ignore_symlinks: bool,
) -> u64
    decreases
        t.len() - idx,
        0int,
        (if 0 <= idx < t.len() {
            t[idx].children@.len() - pos
        } else {
            0int
        }),
        when spec_tree_like(t)
        via spec_sum_children_decreases
{
    if !(0 <= idx < t.len()) || !(0 <= pos < t[idx].children@.len()) {
        0
    } else {
        let c = t[idx].children@[pos] as int;
        let here = if !(0 <= c < t.len()) {
            0
        } else if t[c].info.is_directory {
            spec_subtree_sum(t, c, ignore_symlinks)
        } else if ignore_symlinks && t[c].info.file_type@ == "symlink"@ {
            0
        } else {
            t[c].info.size
        };
        sat_add64(here, spec_sum_children(t, idx, pos + 1, ignore_symlinks))
    }
}

#[via_fn]
proof fn spec_sum_children_decreases(t: Seq<FsNode>, idx: int, pos: int, ignore_symlinks: bool) {
    if spec_tree_like(t) && 0 <= idx < t.len() && 0 <= pos < t[idx].children@.len() {
        assert(idx < t[idx].children@[pos] < t.len());
    }
}

/// Cycle termination, per edge: a child directory whose identity is already
/// on the active path — the current directory itself or any ancestor —
/// contributes nothing to the total and exactly one cycle warning, and the
/// traversal goes on with the remaining children over an unchanged cache.
/// (That every traversal terminates at all is carried by the `unvisited`
/// measure of the engine itself.)
pub proof fn lemma_cycle_edge_excluded(
    t: Seq<FsNode>,
    idx: int,
    pos: int,
    visited: Set<(u64, u64)>,
    cache: Seq<(Seq<char>, CacheEntry)>,
    recalculate: bool,
    ignore_symlinks: bool,
)
    requires
        0 <= idx < t.len(),
        0 <= pos < t[idx].children@.len(),
        t[idx].children@[pos] < t.len(),
        t[t[idx].children@[pos] as int].info.is_directory,
        visited.contains(node_identity(t[t[idx].children@[pos] as int])),
    ensures
        spec_child_step(
            t,
            t[idx].children@[pos] as int,
            visited,
            cache,
            recalculate,
            ignore_symlinks,
        ) == spec_cycle_out(cache),
        spec_resolve_children(t, idx, pos, visited, cache, recalculate, ignore_symlinks)
            == spec_combine(
            spec_cycle_out(cache),
            spec_resolve_children(t, idx, pos + 1, visited, cache, recalculate, ignore_symlinks),
        ),
{
    let c = t[idx].children@[pos] as int;
    let step = spec_child_step(t, c, visited, cache, recalculate, ignore_symlinks);
    assert(step == spec_cycle_out(cache));
    assert(step.cache == cache);
    assert(spec_resolve_children(t, idx, pos, visited, cache, recalculate, ignore_symlinks)
        == spec_combine(
        step,
        spec_resolve_children(t, idx, pos + 1, visited, step.cache, recalculate, ignore_symlinks),
    ));
}

/// Additivity: over a tree-shaped snapshot whose directories are readable,
/// a traversal that recomputes resolves exactly the saturating sum of the
/// reachable regular-file byte lengths, whatever the cache holds.
pub proof fn lemma_additivity(
    t: Seq<FsNode>,
    idx: int,
    visited: Set<(u64, u64)>,
    cache: Seq<(Seq<char>, CacheEntry)>,
    ignore_symlinks: bool,
)
    requires
        spec_tree_like(t),
        0 <= idx < t.len(),
        forall|i: int| idx <= i < t.len() ==> !visited.contains(node_identity(#[trigger] t[i])),
        forall|i: int| idx <= i < t.len() && (#[trigger] t[i]).info.is_directory ==> t[i].list_ok,
    ensures
        spec_resolve(t, idx, visited, cache, true, ignore_symlinks).total == spec_subtree_sum(
            t,
            idx,
            ignore_symlinks,
        ),
    decreases t.len() - idx, 1int, 0int,
{
    let n = t[idx];
    if n.info.is_directory {
        let id = node_identity(n);
        assert(!visited.contains(id));
        assert(n.list_ok);
        let v1 = visited.insert(id);
        assert forall|i: int| idx < i < t.len() implies !v1.contains(
            node_identity(#[trigger] t[i]),
        ) by {
            assert(node_identity(t[i]) != node_identity(t[idx]));
            assert(!visited.contains(node_identity(t[i])));
        }
        lemma_additivity_children(t, idx, 0, v1, cache, ignore_symlinks);
    }
}

proof fn lemma_additivity_children(
    t: Seq<FsNode>,
    idx: int,
    pos: int,
    visited: Set<(u64, u64)>,
    cache: Seq<(Seq<char>, CacheEntry)>,
    ignore_symlinks: bool,
)
    requires
        spec_tree_like(t),
        0 <= idx < t.len(),
        0 <= pos,
        forall|i: int| idx < i < t.len() ==> !visited.contains(node_identity(#[trigger] t[i])),
        forall|i: int| idx < i < t.len() && (#[trigger] t[i]).info.is_directory ==> t[i].list_ok,
    ensures
        spec_resolve_children(t, idx, pos, visited, cache, true, ignore_symlinks).total
            == spec_sum_children(t, idx, pos, ignore_symlinks),
    decreases
        t.len() - idx,
        0int,
        (if pos <= t[idx].children@.len() {
            t[idx].children@.len() - pos
        } else {
            0int
        }),
{
    if 0 <= pos < t[idx].children@.len() {
        let c = t[idx].children@[pos] as int;
        assert(idx < t[idx].children@[pos] < t.len());
        let step = spec_child_step(t, c, visited, cache, true, ignore_symlinks);
        if t[c].info.is_directory {
            assert(!visited.contains(node_identity(t[c])));
            assert forall|i: int| c <= i < t.len() implies !visited.contains(
                node_identity(#[trigger] t[i]),
            ) by {
                assert(idx < i < t.len());
            }
            assert forall|i: int|
                c <= i < t.len() && (#[trigger] t[i]).info.is_directory implies t[i].list_ok by {
                assert(idx < i < t.len());
            }
            lemma_additivity(t, c, visited, cache, ignore_symlinks);
        }
        lemma_additivity_children(t, idx, pos + 1, visited, step.cache, ignore_symlinks);
    }
}

/// The unclamped (mathematical) counterpart of `spec_subtree_sum`.
pub open spec fn spec_exact_subtree_sum(t: Seq<FsNode>, idx: int, ignore_symlinks: bool) -> int
    decreases t.len() - idx, 1int, 0int,
        when spec_tree_like(t)
{
    if !(0 <= idx < t.len()) {
        0
    } else if !t[idx].info.is_directory {
        t[idx].info.size as int
    } else {
        spec_exact_sum_children(t, idx, 0, ignore_symlinks)
    }
}

/// The unclamped sum contributed by the children of `t[idx]` from `pos` on.
pub open spec fn spec_exact_sum_children(
    t: Seq<FsNode>,
    idx: int,
    pos: int,
    ignore_symlinks: bool,
) -> int
    decreases
        t.len() - idx,
        0int,
        (if 0 <= idx < t.len() {
            t[idx].children@.len() - pos
        } else {
            0int
        }),
        when spec_tree_like(t)
        via spec_exact_sum_children_decreases
{
    if !(0 <= idx < t.len()) || !(0 <= pos < t[idx].children@.len()) {
        0
    } else {
        let c = t[idx].children@[pos] as int;
        let here: int = if !(0 <= c < t.len()) {
            0
        } else if t[c].info.is_directory {
            spec_exact_subtree_sum(t, c, ignore_symlinks)
        } else if ignore_symlinks && t[c].info.file_type@ == "symlink"@ {
            0
        } else {
            t[c].info.size as int
        };
        here + spec_exact_sum_children(t, idx, pos + 1, ignore_symlinks)
    }
}

#[via_fn]
proof fn spec_exact_sum_children_decreases(
    t: Seq<FsNode>,
    idx: int,
    pos: int,
    ignore_symlinks: bool,
) {
    if spec_tree_like(t) && 0 <= idx < t.len() && 0 <= pos < t[idx].children@.len() {
        assert(idx < t[idx].children@[pos] < t.len());
    }
}

/// Saturation: the accumulated total is the true sum clamped at the largest
/// representable value — sizes that would exceed it yield exactly that
/// maximum and never wrap.
pub proof fn lemma_sum_saturates(t: Seq<FsNode>, idx: int, ignore_symlinks: bool)
    requires
        spec_tree_like(t),
    ensures
        spec_exact_subtree_sum(t, idx, ignore_symlinks) >= 0,
        spec_subtree_sum(t, idx, ignore_symlinks) == (if spec_exact_subtree_sum(
            t,
            idx,
            ignore_symlinks,
        ) > u64::MAX {
            u64::MAX as int
        } else {
            spec_exact_subtree_sum(t, idx, ignore_symlinks)
        }),
    decreases t.len() - idx, 1int, 0int,
{
    if 0 <= idx < t.len() && t[idx].info.is_directory {
        lemma_sum_children_saturates(t, idx, 0, ignore_symlinks);
    }
}

proof fn lemma_sum_children_saturates(t: Seq<FsNode>, idx: int, pos: int, ignore_symlinks: bool)
    requires
        spec_tree_like(t),
        0 <= idx < t.len(),
        0 <= pos,
    ensures
        spec_exact_sum_children(t, idx, pos, ignore_symlinks) >= 0,
        spec_sum_children(t, idx, pos, ignore_symlinks) == (if spec_exact_sum_children(
            t,
            idx,
            pos,
            ignore_symlinks,
        ) > u64::MAX {
            u64::MAX as int
        } else {
            spec_exact_sum_children(t, idx, pos, ignore_symlinks)
        }),
    decreases
        t.len() - idx,
        0int,
        (if pos <= t[idx].children@.len() {
            t[idx].children@.len() - pos
        } else {
            0int
        }),
{
    if 0 <= pos < t[idx].children@.len() {
        let c = t[idx].children@[pos] as int;
        assert(idx < t[idx].children@[pos] < t.len());
        if t[c].info.is_directory {
            lemma_sum_saturates(t, c, ignore_symlinks);
        }
        lemma_sum_children_saturates(t, idx, pos + 1, ignore_symlinks);
    }
}

/// Additivity and saturation combined: a recomputing traversal of a
/// tree-shaped, readable snapshot yields the true sum of reachable file
/// lengths, clamped at the largest representable value.
pub proof fn lemma_resolve_additive(
    t: Seq<FsNode>,
    idx: int,
    visited: Set<(u64, u64)>,
    cache: Seq<(Seq<char>, CacheEntry)>,
    ignore_symlinks: bool,
)
    requires
        spec_tree_like(t),
        0 <= idx < t.len(),
        forall|i: int| idx <= i < t.len() ==> !visited.contains(node_identity(#[trigger] t[i])),
        forall|i: int| idx <= i < t.len() && (#[trigger] t[i]).info.is_directory ==> t[i].list_ok,
    ensures
        spec_resolve(t, idx, visited, cache, true, ignore_symlinks).total == (
        if spec_exact_subtree_sum(t, idx, ignore_symlinks) > u64::MAX {
            u64::MAX as int
        } else {
            spec_exact_subtree_sum(t, idx, ignore_symlinks)
        }),
{
    lemma_additivity(t, idx, visited, cache, ignore_symlinks);
    lemma_sum_saturates(t, idx, ignore_symlinks);
}

impl FileInfo {
    /// Resolves this entry's size.  A non-directory answers with its raw
    /// byte length at once; for a directory, whose scanned subtree the
    /// caller supplies as a snapshot rooted at node 0, the traversal engine
    /// computes the total, which is also stored into `self.size`.
    pub fn calculate_directory_size(
        &mut self,
        tree: &FsTree,
        cache: &mut CacheStore,
        recalculate: bool,
        visited: &mut CycleGuard,
        ignore_symlinks: bool,
        report: &mut TraversalReport,
    ) -> (total: u64)
        requires
            tree.wf(),
            old(self).is_directory ==> tree.nodes@.len() > 0,
            old(cache).wf(),
            old(visited).wf(),
        ensures
            final(cache).wf(),
            final(visited).wf(),
            final(visited)@ == old(visited)@,
            final(self).inode == old(self).inode,
            final(self).name == old(self).name,
            final(self).file_type == old(self).file_type,
            final(self).metadata == old(self).metadata,
            final(self).is_directory == old(self).is_directory,
            final(self).full_path == old(self).full_path,
            !old(self).is_directory ==> ({
                &&& total == old(self).size
                &&& final(self).size == old(self).size
                &&& final(cache)@ == old(cache)@
                &&& *final(report) == *old(report)
            }),
            old(self).is_directory ==> ({
                let out = spec_resolve(
                    tree.nodes@,
                    0,
                    old(visited)@,
                    old(cache)@,
                    recalculate,
                    ignore_symlinks,
                );
                &&& total == out.total
                &&& final(self).size == out.total
                &&& final(cache)@ == out.cache
                &&& final(report).cycles == sat_add64(old(report).cycles, out.cycles)
                &&& final(report).errors == sat_add64(old(report).errors, out.errors)
                &&& final(report).dirs_listed == sat_add64(
                    old(report).dirs_listed,
                    out.dirs_listed,
                )
                &&& final(report).cache_hits == sat_add64(old(report).cache_hits, out.cache_hits)
                &&& final(report).list_failures == sat_add64(
                    old(report).list_failures,
                    out.list_failures,
                )
            }),
    {
        if !self.is_directory {
            return self.size;
        }
        let total = resolve_size(tree, 0, cache, recalculate, visited, ignore_symlinks, report);
        self.size = total;
        total
    }
}

} // verus!
