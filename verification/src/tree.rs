//! An in-memory snapshot of a scanned directory tree.
//!
//! The traversal engine works on plain data: each node carries the entry's
//! discovered metadata, its filesystem identity, and the indices of its
//! children inside one flat node table.  Cycles introduced by followed
//! symbolic links appear as child indices whose identity repeats an
//! ancestor's; the engine, not the snapshot, is responsible for breaking
//! them.

use crate::fileinfo::FileInfo;
use vstd::prelude::*;

verus! {

/// One node of a snapshot: the scanned entry, the volume it lives on, and its
/// children (meaningful only for directories).  `list_ok` records whether the
/// directory's listing could be read at all; `unreadable_children` counts
/// child entries whose metadata could not be read and which therefore appear
/// in no child list.
pub struct FsNode {
    pub info: FileInfo,
    pub volume_id: u64,
    pub children: Vec<usize>,
    pub list_ok: bool,
    pub unreadable_children: u64,
}

/// A flat table of snapshot nodes; child links are indices into the table.
pub struct FsTree {
    pub nodes: Vec<FsNode>,
}

/// The filesystem identity of a node: its (node id, volume id) pair.  Two
/// nodes with equal identity name the same physical filesystem object.
pub open spec fn node_identity(n: FsNode) -> (u64, u64) {
    (n.info.inode, n.volume_id)
}

/// All identities that appear anywhere in the node table.
pub open spec fn tree_identities(nodes: Seq<FsNode>) -> Set<(u64, u64)> {
    nodes.map_values(|n: FsNode| node_identity(n)).to_set()
}

impl FsTree {
    /// Every child index points back into the table.
    pub open spec fn wf(self) -> bool {
        forall|i: int, j: int|
            0 <= i < self.nodes@.len() && 0 <= j < self.nodes@[i].children@.len()
                ==> #[trigger] self.nodes@[i].children@[j] < self.nodes@.len()
    }

    /// The number of nodes in the snapshot.
    pub fn len(&self) -> (r: usize)
        ensures
            r == self.nodes@.len(),
    {
        self.nodes.len()
    }
}

/// The set of identities in a table is finite.
pub proof fn lemma_tree_identities_finite(nodes: Seq<FsNode>)
    ensures
        tree_identities(nodes).finite(),
{
    vstd::seq_lib::seq_to_set_is_finite(nodes.map_values(|n: FsNode| node_identity(n)));
}

} // verus!
