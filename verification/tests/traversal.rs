use lss::digest::cache_key_for;
use lss::fileinfo::{FileInfo, FileMetadata};
use lss::guard::CycleGuard;
use lss::store::{CacheEntry, CacheStore};
use lss::traverse::{resolve_size, TraversalReport};
use lss::tree::{FsNode, FsTree};
use lss::units::SizeUnit;
use sha2::{Digest, Sha256};

fn meta() -> FileMetadata {
    FileMetadata { mode: 0o644, nlink: 1, uid: 0, gid: 0 }
}

fn file_node(name: &str, size: u64, inode: u64, volume: u64) -> FsNode {
    FsNode {
        info: FileInfo::new(
            String::from(name),
            format!("/r/{}", name),
            size,
            inode,
            false,
            false,
            true,
            meta(),
        ),
        volume_id: volume,
        children: vec![],
        list_ok: true,
        unreadable_children: 0,
    }
}

fn symlink_node(name: &str, size: u64, inode: u64, volume: u64) -> FsNode {
    FsNode {
        info: FileInfo::new(
            String::from(name),
            format!("/r/{}", name),
            size,
            inode,
            false,
            true,
            false,
            meta(),
        ),
        volume_id: volume,
        children: vec![],
        list_ok: true,
        unreadable_children: 0,
    }
}

fn dir_node(name: &str, inode: u64, volume: u64, children: Vec<usize>) -> FsNode {
    FsNode {
        info: FileInfo::new(
            String::from(name),
            format!("/r/{}", name),
            0,
            inode,
            true,
            false,
            false,
            meta(),
        ),
        volume_id: volume,
        children,
        list_ok: true,
        unreadable_children: 0,
    }
}

#[test]
fn resolves_three_files_across_a_subdirectory() {
    // R holds a (100), b (200) and C; C holds d (50)
    let tree = FsTree {
        nodes: vec![
            dir_node("R", 1, 10, vec![1, 2, 3]),
            file_node("a", 100, 2, 10),
            file_node("b", 200, 3, 10),
            dir_node("C", 4, 10, vec![4]),
            file_node("d", 50, 5, 10),
        ],
    };
    let mut cache = CacheStore::new();
    let mut guard = CycleGuard::new();
    let mut report = TraversalReport::new();
    let total = resolve_size(&tree, 0, &mut cache, false, &mut guard, false, &mut report);
    assert_eq!(total, 350);
    assert_eq!(report.cycles, 0);
    assert_eq!(report.cache_hits, 0);
    assert_eq!(report.dirs_listed, 2);
    // the store now holds R's total in raw-byte form
    let key = cache_key_for(1, 10);
    let entry = cache.get(&key).unwrap();
    assert_eq!(entry.size, 350);
    assert_eq!(entry.size_unit, SizeUnit::Bytes);
    assert_eq!(entry.device_id, 10);
    assert_eq!(entry.inode, 1);
    assert_eq!(cache.lookup(&key, 10), Some(350));
}

#[test]
fn second_run_is_served_from_the_cache() {
    let tree = FsTree {
        nodes: vec![
            dir_node("R", 1, 10, vec![1, 2, 3]),
            file_node("a", 100, 2, 10),
            file_node("b", 200, 3, 10),
            dir_node("C", 4, 10, vec![4]),
            file_node("d", 50, 5, 10),
        ],
    };
    let mut cache = CacheStore::new();
    let mut guard = CycleGuard::new();
    let mut report = TraversalReport::new();
    let first = resolve_size(&tree, 0, &mut cache, false, &mut guard, false, &mut report);
    assert_eq!(first, 350);
    let mut report2 = TraversalReport::new();
    let second = resolve_size(&tree, 0, &mut cache, false, &mut guard, false, &mut report2);
    assert_eq!(second, 350);
    assert_eq!(report2.cache_hits, 1);
    // no directory was listed again
    assert_eq!(report2.dirs_listed, 0);
}

#[test]
fn forced_recomputation_ignores_the_cache() {
    let tree = FsTree { nodes: vec![dir_node("R", 1, 10, vec![1]), file_node("a", 7, 2, 10)] };
    let mut cache = CacheStore::new();
    cache.insert_record(
        cache_key_for(1, 10),
        CacheEntry { size: 12345, inode: 1, device_id: 10, size_unit: SizeUnit::Bytes },
    );
    let mut guard = CycleGuard::new();
    let mut report = TraversalReport::new();
    let total = resolve_size(&tree, 0, &mut cache, true, &mut guard, false, &mut report);
    assert_eq!(total, 7);
    assert_eq!(report.cache_hits, 0);
    assert_eq!(cache.lookup(&cache_key_for(1, 10), 10), Some(7));
}

#[test]
fn symlink_loop_back_to_root_is_excluded() {
    // R holds a (100), b (50) and a followed link that is R itself
    let tree = FsTree {
        nodes: vec![
            dir_node("R", 1, 10, vec![1, 2, 3]),
            file_node("a", 100, 2, 10),
            file_node("b", 50, 3, 10),
            dir_node("loop", 1, 10, vec![1, 2, 3]),
        ],
    };
    let mut cache = CacheStore::new();
    let mut guard = CycleGuard::new();
    let mut report = TraversalReport::new();
    let total = resolve_size(&tree, 0, &mut cache, false, &mut guard, false, &mut report);
    assert_eq!(total, 150);
    assert_eq!(report.cycles, 1);
}

#[test]
fn deeper_ancestor_cycle_is_excluded_once() {
    // R -> C -> link back to R
    let tree = FsTree {
        nodes: vec![
            dir_node("R", 1, 10, vec![1, 2]),
            file_node("a", 10, 2, 10),
            dir_node("C", 3, 10, vec![3, 4]),
            file_node("d", 5, 4, 10),
            dir_node("back", 1, 10, vec![1, 2]),
        ],
    };
    let mut cache = CacheStore::new();
    let mut guard = CycleGuard::new();
    let mut report = TraversalReport::new();
    let total = resolve_size(&tree, 0, &mut cache, false, &mut guard, false, &mut report);
    assert_eq!(total, 15);
    assert_eq!(report.cycles, 1);
}

#[test]
fn totals_saturate_instead_of_wrapping() {
    let tree = FsTree {
        nodes: vec![
            dir_node("R", 1, 10, vec![1, 2]),
            file_node("huge", u64::MAX, 2, 10),
            file_node("one", 1, 3, 10),
        ],
    };
    let mut cache = CacheStore::new();
    let mut guard = CycleGuard::new();
    let mut report = TraversalReport::new();
    let total = resolve_size(&tree, 0, &mut cache, false, &mut guard, false, &mut report);
    assert_eq!(total, u64::MAX);
}

#[test]
fn volume_change_invalidates_a_matching_key() {
    let tree = FsTree { nodes: vec![dir_node("R", 1, 10, vec![1]), file_node("a", 40, 2, 10)] };
    let key = cache_key_for(1, 10);
    let mut cache = CacheStore::new();
    cache.insert_record(
        key.clone(),
        CacheEntry { size: 9999, inode: 1, device_id: 99, size_unit: SizeUnit::Bytes },
    );
    // the record is served for its own volume only
    assert_eq!(cache.lookup(&key, 99), Some(9999));
    assert_eq!(cache.lookup(&key, 10), None);
    let mut guard = CycleGuard::new();
    let mut report = TraversalReport::new();
    let total = resolve_size(&tree, 0, &mut cache, false, &mut guard, false, &mut report);
    assert_eq!(total, 40);
    assert_eq!(report.cache_hits, 0);
    // the stale record was overwritten for the live volume
    let e = cache.get(&key).unwrap();
    assert_eq!(e.size, 40);
    assert_eq!(e.device_id, 10);
}

#[test]
fn cached_magnitudes_are_scaled_by_their_unit() {
    let tree = FsTree { nodes: vec![dir_node("R", 1, 10, vec![1]), file_node("a", 1, 2, 10)] };
    let mut cache = CacheStore::new();
    cache.insert_record(
        cache_key_for(1, 10),
        CacheEntry { size: 3, inode: 1, device_id: 10, size_unit: SizeUnit::Kilobytes },
    );
    let mut guard = CycleGuard::new();
    let mut report = TraversalReport::new();
    let total = resolve_size(&tree, 0, &mut cache, false, &mut guard, false, &mut report);
    assert_eq!(total, 3000);
    assert_eq!(report.cache_hits, 1);
}

#[test]
fn ignored_symlinks_contribute_nothing() {
    let tree = FsTree {
        nodes: vec![
            dir_node("R", 1, 10, vec![1, 2]),
            file_node("a", 100, 2, 10),
            symlink_node("link", 25, 3, 10),
        ],
    };
    let mut cache = CacheStore::new();
    let mut guard = CycleGuard::new();
    let mut report = TraversalReport::new();
    let total = resolve_size(&tree, 0, &mut cache, false, &mut guard, true, &mut report);
    assert_eq!(total, 100);
    let mut cache2 = CacheStore::new();
    let mut report2 = TraversalReport::new();
    let with_links = resolve_size(&tree, 0, &mut cache2, false, &mut guard, false, &mut report2);
    assert_eq!(with_links, 125);
}

#[test]
fn unreadable_listing_counts_and_yields_zero() {
    let mut root = dir_node("R", 1, 10, vec![]);
    root.list_ok = false;
    let tree = FsTree { nodes: vec![root] };
    let mut cache = CacheStore::new();
    let mut guard = CycleGuard::new();
    let mut report = TraversalReport::new();
    let total = resolve_size(&tree, 0, &mut cache, false, &mut guard, false, &mut report);
    assert_eq!(total, 0);
    assert_eq!(report.list_failures, 1);
    // nothing was cached for the unreadable directory
    assert!(cache.get(&cache_key_for(1, 10)).is_none());
}

#[test]
fn unreadable_children_are_counted_as_errors() {
    let mut root = dir_node("R", 1, 10, vec![1]);
    root.unreadable_children = 3;
    let tree = FsTree { nodes: vec![root, file_node("a", 5, 2, 10)] };
    let mut cache = CacheStore::new();
    let mut guard = CycleGuard::new();
    let mut report = TraversalReport::new();
    let total = resolve_size(&tree, 0, &mut cache, false, &mut guard, false, &mut report);
    assert_eq!(total, 5);
    assert_eq!(report.errors, 3);
}

#[test]
fn calculate_directory_size_on_a_file_returns_its_length() {
    let mut info =
        FileInfo::new(String::from("f"), String::from("/f"), 123, 9, false, false, true, meta());
    let tree = FsTree { nodes: vec![] };
    let mut cache = CacheStore::new();
    let mut guard = CycleGuard::new();
    let mut report = TraversalReport::new();
    let total =
        info.calculate_directory_size(&tree, &mut cache, false, &mut guard, false, &mut report);
    assert_eq!(total, 123);
    assert_eq!(info.size, 123);
    assert_eq!(cache.len(), 0);
}

#[test]
fn calculate_directory_size_stores_the_total() {
    let tree = FsTree { nodes: vec![dir_node("R", 1, 10, vec![1]), file_node("a", 42, 2, 10)] };
    let mut info =
        FileInfo::new(String::from("R"), String::from("/r"), 0, 1, true, false, false, meta());
    let mut cache = CacheStore::new();
    let mut guard = CycleGuard::new();
    let mut report = TraversalReport::new();
    let total =
        info.calculate_directory_size(&tree, &mut cache, false, &mut guard, false, &mut report);
    assert_eq!(total, 42);
    assert_eq!(info.size, 42);
}

#[test]
fn sibling_subtrees_with_shared_identity_both_count() {
    // two sibling directories are the same physical object (a hard link):
    // each appearance is computed; the second is a cache hit, not a cycle
    let tree = FsTree {
        nodes: vec![
            dir_node("R", 1, 10, vec![1, 2]),
            dir_node("c1", 5, 10, vec![3]),
            dir_node("c2", 5, 10, vec![3]),
            file_node("f", 30, 6, 10),
        ],
    };
    let mut cache = CacheStore::new();
    let mut guard = CycleGuard::new();
    let mut report = TraversalReport::new();
    let total = resolve_size(&tree, 0, &mut cache, false, &mut guard, false, &mut report);
    assert_eq!(total, 60);
    assert_eq!(report.cycles, 0);
    assert_eq!(report.cache_hits, 1);
}

#[test]
fn guard_tracks_only_the_active_path() {
    let mut guard = CycleGuard::new();
    assert!(!guard.contains((1, 2)));
    assert!(guard.enter((1, 2)));
    assert!(guard.contains((1, 2)));
    assert!(!guard.enter((1, 2)));
    assert!(guard.enter((3, 4)));
    guard.leave((1, 2));
    assert!(!guard.contains((1, 2)));
    assert!(guard.contains((3, 4)));
    // leaving an identity that is not active changes nothing
    guard.leave((9, 9));
    assert!(guard.contains((3, 4)));
}

#[test]
fn digest_keys_match_the_published_sha256() {
    let key = cache_key_for(123, 456);
    let mut hasher = Sha256::new();
    hasher.update("123".as_bytes());
    hasher.update("456".as_bytes());
    let digest = hasher.finalize();
    let mut expected = String::new();
    for b in digest.as_slice() {
        expected += &format!("{:02x}", b);
    }
    assert_eq!(key, expected);
    assert_eq!(key.len(), 64);
}

#[test]
fn empty_directory_resolves_to_zero_and_is_cached() {
    let tree = FsTree { nodes: vec![dir_node("R", 1, 10, vec![])] };
    let mut cache = CacheStore::new();
    let mut guard = CycleGuard::new();
    let mut report = TraversalReport::new();
    let total = resolve_size(&tree, 0, &mut cache, false, &mut guard, false, &mut report);
    assert_eq!(total, 0);
    assert_eq!(report.dirs_listed, 1);
    assert_eq!(cache.lookup(&cache_key_for(1, 10), 10), Some(0));
}

#[test]
fn non_directory_root_yields_its_raw_length() {
    let tree = FsTree { nodes: vec![file_node("plain", 77, 1, 10)] };
    let mut cache = CacheStore::new();
    let mut guard = CycleGuard::new();
    let mut report = TraversalReport::new();
    let total = resolve_size(&tree, 0, &mut cache, false, &mut guard, false, &mut report);
    assert_eq!(total, 77);
    // no cache involvement for non-directories
    assert_eq!(cache.len(), 0);
    assert_eq!(report.dirs_listed, 0);
}

#[test]
fn scaled_lookup_saturates() {
    let mut cache = CacheStore::new();
    let key = cache_key_for(1, 10);
    cache.insert_record(
        key.clone(),
        CacheEntry { size: u64::MAX, inode: 1, device_id: 10, size_unit: SizeUnit::Kibibytes },
    );
    assert_eq!(cache.lookup(&key, 10), Some(u64::MAX));
}
