//! In-memory snapshot of a filesystem subtree and depth-bounded size
//! aggregation over it. A directory whose entries could not be read is
//! represented with no entries, so it contributes zero bytes and never
//! aborts an aggregation; a symbolic link is recorded as a leaf of its own
//! reported size, never as a traversal target.

use vstd::prelude::*;

verus! {

/// One named entry inside a directory snapshot.
pub struct FsEntry {
    pub name: String,
    pub node: FsNode,
}

/// A filesystem subtree as captured at scan time: a file with its size in
/// bytes, or a directory with the entries that could be read from it.
pub enum FsNode {
    File { size: u64 },
    Dir { entries: Vec<FsEntry> },
}

impl FsNode {
    /// Whether this snapshot node is a directory.
    pub open spec fn spec_is_dir(&self) -> bool {
        self is Dir
    }

    /// Whether this snapshot node is a directory.
    pub fn is_dir(&self) -> (r: bool)
        ensures
            r == self.spec_is_dir(),
    {
        match self {
            FsNode::Dir { .. } => true,
            FsNode::File { .. } => false,
        }
    }
}

/// The exact sum of the file sizes reachable from `n` within `levels`
/// further directory levels: a file contributes its size; a directory
/// contributes the sizes of the files among its entries when one level is
/// left, and so on down, with 0 once the level budget is exhausted.
pub open spec fn spec_node_bytes(n: FsNode, levels: nat) -> nat
    decreases n,
{
    match n {
        FsNode::File { size } => size as nat,
        FsNode::Dir { entries } => if levels == 0 {
            0
        } else {
            spec_entries_bytes(entries@, (levels - 1) as nat)
        },
    }
}

/// The sum of `spec_node_bytes` over a sequence of directory entries.
pub open spec fn spec_entries_bytes(s: Seq<FsEntry>, levels: nat) -> nat
    decreases s,
{
    if s.len() == 0 {
        0
    } else {
        spec_entries_bytes(s.drop_last(), levels) + spec_node_bytes(s.last().node, levels)
    }
}

/// A sum clamped to what a 64-bit byte counter can carry.
pub open spec fn sat64(n: nat) -> nat {
    if n > u64::MAX {
        u64::MAX as nat
    } else {
        n
    }
}

/// Removing one entry takes exactly its contribution out of the sum.
pub proof fn lemma_entries_bytes_remove(s: Seq<FsEntry>, i: int, levels: nat)
    requires
        0 <= i < s.len(),
    ensures
        spec_entries_bytes(s, levels) == spec_entries_bytes(s.remove(i), levels)
            + spec_node_bytes(s[i].node, levels),
    decreases s.len(),
{
    if i == s.len() - 1 {
        assert(s.remove(i) =~= s.drop_last());
    } else {
        assert(s.remove(i).drop_last() =~= s.drop_last().remove(i));
        assert(s.remove(i).last() == s.last());
        lemma_entries_bytes_remove(s.drop_last(), i, levels);
    }
}

/// The aggregate size of a directory does not depend on the order in which
/// its entries were enumerated: any two enumerations with the same entries
/// sum to the same byte count.
pub proof fn lemma_entries_bytes_permutation(s1: Seq<FsEntry>, s2: Seq<FsEntry>, levels: nat)
    requires
        s1.to_multiset() == s2.to_multiset(),
    ensures
        spec_entries_bytes(s1, levels) == spec_entries_bytes(s2, levels),
    decreases s1.len(),
{
    broadcast use vstd::seq_lib::group_to_multiset_ensures;

    if s1.len() == 0 {
        assert(s1.to_multiset().len() == s1.len());
        assert(s2.to_multiset().len() == s2.len());
        assert(s2.len() == 0);
    } else {
        let e = s1.last();
        assert(s1.to_multiset().contains(e));
        assert(s2.to_multiset().contains(e));
        assert(s2.contains(e));
        let i = choose|i: int| 0 <= i < s2.len() && s2[i] == e;
        assert(s1.drop_last() =~= s1.remove(s1.len() - 1));
        assert(s1.remove(s1.len() - 1).to_multiset() =~= s1.to_multiset().remove(e));
        assert(s2.remove(i).to_multiset() =~= s2.to_multiset().remove(e));
        lemma_entries_bytes_permutation(s1.drop_last(), s2.remove(i), levels);
        lemma_entries_bytes_remove(s2, i, levels);
    }
}

/// Depth-bounded aggregation over a snapshot node, clamped at the largest
/// 64-bit value; an exhausted level budget, like a directory read failure
/// at snapshot time, contributes zero rather than an error.
pub fn node_size(n: &FsNode, levels: u64) -> (r: u64)
    ensures
        r as nat == sat64(spec_node_bytes(*n, levels as nat)),
    decreases *n,
{
    match n {
        FsNode::File { size } => *size,
        FsNode::Dir { entries } => {
            if levels == 0 {
                0
            } else {
                let ghost lv: nat = (levels - 1) as nat;
                let mut total: u64 = 0;
                let mut i: usize = 0;
                assert(entries@.subrange(0, 0) =~= Seq::<FsEntry>::empty());
                while i < entries.len()
                    invariant
                        levels >= 1,
                        lv == (levels - 1) as nat,
                        n is Dir,
                        entries == n->Dir_entries,
                        i <= entries@.len(),
                        total as nat == sat64(
                            spec_entries_bytes(entries@.subrange(0, i as int), lv),
                        ),
                    decreases entries@.len() - i,
                {
                    proof {
                        assert(decreases_to!(*n => *entries));
                        assert(decreases_to!(*entries => entries@));
                        assert(decreases_to!(entries@ => entries@[i as int]));
                        assert(decreases_to!(entries@[i as int] => entries@[i as int].node));
                        assert(decreases_to!(*n => entries@[i as int].node));
                    }
                    let part = node_size(&entries[i].node, levels - 1);
                    total = total.saturating_add(part);
                    proof {
                        assert(entries@.subrange(0, i + 1).drop_last() =~= entries@.subrange(
                            0,
                            i as int,
                        ));
                        assert(entries@.subrange(0, i + 1).last() == entries@[i as int]);
                        let pa = spec_entries_bytes(entries@.subrange(0, i as int), lv);
                        let pb = spec_node_bytes(entries@[i as int].node, lv);
                        assert(spec_entries_bytes(entries@.subrange(0, i + 1), lv) == pa + pb);
                        if pa > u64::MAX {
                            assert(total as nat == sat64(pa + pb));
                        } else if pb > u64::MAX {
                            assert(part == u64::MAX);
                            assert(total as nat == sat64(pa + pb));
                        } else {
                            assert(total as nat == sat64(pa + pb));
                        }
                    }
                    i += 1;
                }
                assert(entries@.subrange(0, entries@.len() as int) =~= entries@);
                total
            }
        },
    }
}

/// The total size in bytes of the subtree under `n`, descending at most
/// `max_depth` directory levels past the immediate entries: entries deeper
/// than the bound are not recursed into and contribute nothing, so the
/// result is a lower bound on the true subtree size past the limit.
pub fn aggregate(n: &FsNode, max_depth: u64) -> (r: u64)
    requires
        max_depth < u64::MAX,
    ensures
        r as nat == sat64(spec_node_bytes(*n, (max_depth + 1) as nat)),
{
    node_size(n, max_depth + 1)
}

} // verus!
