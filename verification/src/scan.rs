//! The scan engine. A caller snapshots the immediate children of a root
//! (each with the subtree that could be read under it) and hands them
//! here; the engine measures every child, filters the results against a
//! minimum size, sorts them largest-first with a deterministic tie-break
//! by path, and produces the progress trace: one event per sampling
//! interval while entries are processed, then a terminal event pinned at
//! 100 percent. A missing root fails the request synchronously and
//! produces no events at all.

use vstd::prelude::*;
use crate::bytes::spec_format_bytes;
use crate::item::{
    build_item, spec_content, spec_contents, spec_item_type, FileItem, ItemContent,
};
use crate::order::{sort_items, spec_sorted, ListOrder};
use crate::tree::{sat64, spec_node_bytes, FsNode};

verus! {

/// One immediate child of the scanned root: its name, its full path, and
/// the snapshot of the subtree under it.
pub struct ChildInfo {
    pub name: String,
    pub path: String,
    pub node: FsNode,
}

/// What a scan reads from one child: name, path, kind, and the
/// depth-bounded byte count of its subtree (already clamped to 64 bits).
pub struct ChildKey {
    pub name: Seq<char>,
    pub path: Seq<char>,
    pub dir: bool,
    pub bytes: nat,
}

/// The key of one child under a level budget.
pub open spec fn spec_child_key(c: ChildInfo, levels: nat) -> ChildKey {
    ChildKey {
        name: c.name@,
        path: c.path@,
        dir: c.node.spec_is_dir(),
        bytes: sat64(spec_node_bytes(c.node, levels)),
    }
}

/// The keys of a child sequence under a level budget.
pub open spec fn spec_keys(cs: Seq<ChildInfo>, levels: nat) -> Seq<ChildKey> {
    cs.map_values(|c: ChildInfo| spec_child_key(c, levels))
}

/// The record a kept child turns into.
pub open spec fn spec_record_of(k: ChildKey) -> ItemContent {
    ItemContent {
        id: k.path,
        name: k.name,
        size: spec_format_bytes(k.bytes),
        size_bytes: k.bytes as u64,
        item_type: spec_item_type(k.dir, k.name),
        path: k.path,
        last_modified: Option::None,
    }
}

/// The records that survive the minimum-size filter, in enumeration
/// order: exactly those children whose measured size reaches `min_size`
/// (the bound is inclusive), each turned into its record.
pub open spec fn spec_kept(keys: Seq<ChildKey>, min_size: nat) -> Seq<ItemContent>
    decreases keys,
{
    if keys.len() == 0 {
        Seq::empty()
    } else {
        let rest = spec_kept(keys.drop_last(), min_size);
        if keys.last().bytes >= min_size {
            rest.push(spec_record_of(keys.last()))
        } else {
            rest
        }
    }
}

/// Measures every child against the level budget `max_depth` and keeps
/// the records of those reaching `min_size`, in enumeration order.
pub fn collect_items(children: &Vec<ChildInfo>, max_depth: u64, min_size: u64) -> (r: Vec<
    FileItem,
>)
    requires
        max_depth < u64::MAX,
    ensures
        spec_contents(r@) == spec_kept(
            spec_keys(children@, (max_depth + 1) as nat),
            min_size as nat,
        ),
        forall|m: int| 0 <= m < r@.len() ==> #[trigger] r@[m].size_bytes >= min_size,
{
    let ghost levels: nat = (max_depth + 1) as nat;
    let mut r: Vec<FileItem> = Vec::new();
    let mut i: usize = 0;
    assert(spec_contents(r@) =~= spec_kept(
        spec_keys(children@.subrange(0, 0), levels),
        min_size as nat,
    ));
    while i < children.len()
        invariant
            i <= children@.len(),
            max_depth < u64::MAX,
            levels == (max_depth + 1) as nat,
            spec_contents(r@) == spec_kept(
                spec_keys(children@.subrange(0, i as int), levels),
                min_size as nat,
            ),
            forall|m: int| 0 <= m < r@.len() ==> #[trigger] r@[m].size_bytes >= min_size,
        decreases children@.len() - i,
    {
        let c = &children[i];
        let it = build_item(c.name.clone(), c.path.clone(), &c.node, max_depth);
        let ghost k = spec_child_key(children@[i as int], levels);
        proof {
            assert(it.size_bytes as nat == k.bytes);
            assert(spec_content(it) == spec_record_of(k));
            assert(spec_keys(children@.subrange(0, i + 1), levels).drop_last() =~= spec_keys(
                children@.subrange(0, i as int),
                levels,
            ));
            assert(spec_keys(children@.subrange(0, i + 1), levels).last() == k);
        }
        if it.size_bytes >= min_size {
            let ghost rr = r@;
            r.push(it);
            proof {
                assert(spec_contents(r@) =~= spec_contents(rr).push(spec_content(it)));
            }
        } else {
            proof {
                assert(k.bytes < min_size as nat);
            }
        }
        i += 1;
    }
    assert(children@.subrange(0, children@.len() as int) =~= children@);
    r
}

/// A single-level listing: measures each immediate child of the browsed
/// directory (directories by a shallow aggregate), applies the
/// minimum-size filter (pass 0 to keep everything), and sorts the records
/// into the selected order.
pub fn list_directory(children: Vec<ChildInfo>, order: ListOrder, max_depth: u64, min_size: u64)
    -> (r: Vec<FileItem>)
    requires
        max_depth < u64::MAX,
    ensures
        spec_sorted(order, spec_contents(r@)),
        spec_contents(r@).to_multiset() == spec_kept(
            spec_keys(children@, (max_depth + 1) as nat),
            min_size as nat,
        ).to_multiset(),
        forall|m: int| 0 <= m < r@.len() ==> #[trigger] r@[m].size_bytes >= min_size,
{
    let mut items = collect_items(&children, max_depth, min_size);
    let ghost before = items@;
    sort_items(order, &mut items);
    proof {
        crate::order::lemma_map_values_to_multiset(
            items@,
            before,
            |it: FileItem| spec_content(it),
        );
        assert forall|m: int| 0 <= m < items@.len() implies #[trigger] items@[m].size_bytes
            >= min_size by {
            items@.to_multiset_ensures();
            before.to_multiset_ensures();
            assert(items@.contains(items@[m]));
            assert(before.to_multiset().contains(items@[m]));
            assert(before.contains(items@[m]));
        }
    }
    items
}


/// Completion percentage reported while `count` of `total` entries have
/// been processed, capped at 99 so that only the terminal event reads
/// 100; 0 when the total is unknown or zero.
pub open spec fn spec_progress_percent(count: nat, total: nat) -> nat {
    if total == 0 {
        0
    } else if count * 100 / total >= 99 {
        99
    } else {
        count * 100 / total
    }
}

/// The heuristic completion ratio of a running scan.
pub fn progress_percent(count: u64, total: u64) -> (r: u64)
    ensures
        r == spec_progress_percent(count as nat, total as nat),
        r <= 99,
{
    if total == 0 {
        0
    } else {
        let p: u128 = count as u128 * 100 / total as u128;
        if p >= 99 {
            99
        } else {
            p as u64
        }
    }
}

/// One progress notification: the entry being processed, the cumulative
/// count of processed entries, and the completion percentage.
pub struct ScanProgress {
    pub current_path: String,
    pub files_scanned: u64,
    pub progress: u64,
}

/// The displayed content of a progress notification.
pub struct EventView {
    pub path: Seq<char>,
    pub files_scanned: u64,
    pub progress: u64,
}

/// The content of one notification.
pub open spec fn spec_event_view(e: ScanProgress) -> EventView {
    EventView { path: e.current_path@, files_scanned: e.files_scanned, progress: e.progress }
}

/// The contents of a notification sequence.
pub open spec fn spec_event_views(s: Seq<ScanProgress>) -> Seq<EventView> {
    s.map_values(|e: ScanProgress| spec_event_view(e))
}

/// The progress trace emitted while the first `n` of `total` entries are
/// processed in order: one event per entry whose ordinal is a multiple of
/// the sampling interval, carrying that entry's path, the cumulative
/// count so far, and the completion percentage.
pub open spec fn spec_events_upto(paths: Seq<Seq<char>>, total: nat, interval: nat, n: nat)
    -> Seq<EventView>
    decreases n,
{
    if n == 0 {
        Seq::empty()
    } else {
        let rest = spec_events_upto(paths, total, interval, (n - 1) as nat);
        if ((n - 1) as nat) % interval == 0 {
            rest.push(
                EventView {
                    path: paths[n - 1],
                    files_scanned: (n - 1) as u64,
                    progress: spec_progress_percent((n - 1) as nat, total) as u64,
                },
            )
        } else {
            rest
        }
    }
}

/// Every event of the trace carries a cumulative count below `n`, and the
/// counts never decrease from one event to the next.
pub proof fn lemma_events_monotonic(paths: Seq<Seq<char>>, total: nat, interval: nat, n: nat)
    requires
        interval >= 1,
        n <= u64::MAX,
    ensures
        forall|e: int|
            0 <= e < spec_events_upto(paths, total, interval, n).len()
                ==> #[trigger] spec_events_upto(paths, total, interval, n)[e].files_scanned < n,
        forall|e1: int, e2: int|
            0 <= e1 <= e2 < spec_events_upto(paths, total, interval, n).len()
                ==> spec_events_upto(paths, total, interval, n)[e1].files_scanned
                <= spec_events_upto(paths, total, interval, n)[e2].files_scanned,
    decreases n,
{
    if n > 0 {
        lemma_events_monotonic(paths, total, interval, (n - 1) as nat);
        let prev = spec_events_upto(paths, total, interval, (n - 1) as nat);
        let cur = spec_events_upto(paths, total, interval, n);
        assert(forall|e: int| 0 <= e < prev.len() ==> #[trigger] prev[e].files_scanned < n);
        if ((n - 1) as nat) % interval == 0 {
            assert(cur == prev.push(cur[cur.len() - 1]));
            assert(forall|e: int| 0 <= e < prev.len() ==> cur[e] == prev[e]);
            assert(cur[cur.len() - 1].files_scanned == n - 1);
        }
    }
}

/// Everything a finished scan hands back: the sorted, filtered records,
/// the progress trace, and the final cumulative count.
pub struct ScanOutcome {
    pub items: Vec<FileItem>,
    pub events: Vec<ScanProgress>,
    pub files_scanned: u64,
}

/// The paths of a child sequence.
pub open spec fn spec_child_paths(cs: Seq<ChildInfo>) -> Seq<Seq<char>> {
    cs.map_values(|c: ChildInfo| c.path@)
}

/// What `run_scan` promises of its outcome for a given child snapshot:
/// the records are exactly the children that reach the size threshold,
/// sorted largest-first with ties broken by path; the trace is one event
/// per sampling interval followed by the terminal event at 100 percent;
/// the final count equals the number of children processed, filtered or
/// not; and the counts reported by successive events never decrease.
pub open spec fn spec_scan_outcome_ok(
    children: Seq<ChildInfo>,
    out: ScanOutcome,
    max_depth: u64,
    min_size: u64,
    interval: u64,
) -> bool {
    let keys = spec_keys(children, (max_depth + 1) as nat);
    let trace = spec_events_upto(
        spec_child_paths(children),
        children.len(),
        interval as nat,
        children.len(),
    );
    &&& spec_sorted(ListOrder::SizeDescending, spec_contents(out.items@))
    &&& spec_contents(out.items@).to_multiset() == spec_kept(
        keys,
        min_size as nat,
    ).to_multiset()
    &&& forall|m: int| 0 <= m < out.items@.len() ==> #[trigger] out.items@[m].size_bytes
        >= min_size
    &&& out.files_scanned == children.len()
    &&& spec_event_views(out.events@) == trace.push(
        EventView {
            path: "Complete"@,
            files_scanned: children.len() as u64,
            progress: 100,
        },
    )
    &&& forall|e1: int, e2: int|
        0 <= e1 <= e2 < out.events@.len() ==> spec_event_views(out.events@)[e1].files_scanned
            <= spec_event_views(out.events@)[e2].files_scanned
}

/// Runs one scan over a snapshot of the root's children: measures and
/// filters every child, sorts the survivors largest-first, and emits the
/// progress trace with its terminal event. Every child counts toward the
/// cumulative total, whether or not the filter keeps it.
pub fn run_scan(children: Vec<ChildInfo>, max_depth: u64, min_size: u64, interval: u64) -> (out:
    ScanOutcome)
    requires
        max_depth < u64::MAX,
        interval >= 1,
    ensures
        spec_scan_outcome_ok(children@, out, max_depth, min_size, interval),
{
    let total_entries: usize = children.len();
    let total: u64 = total_entries as u64;
    let ghost paths = spec_child_paths(children@);
    let mut events: Vec<ScanProgress> = Vec::new();
    let mut counter: u64 = 0;
    let mut i: usize = 0;
    assert(spec_event_views(events@) =~= spec_events_upto(
        paths,
        total as nat,
        interval as nat,
        0,
    ));
    while i < total_entries
        invariant
            i <= total_entries,
            total_entries == children@.len(),
            total == total_entries as u64,
            counter == i,
            interval >= 1,
            paths == spec_child_paths(children@),
            spec_event_views(events@) == spec_events_upto(
                paths,
                total as nat,
                interval as nat,
                i as nat,
            ),
        decreases total_entries - i,
    {
        if counter % interval == 0 {
            let pct = progress_percent(counter, total);
            let ghost before = events@;
            events.push(
                ScanProgress {
                    current_path: children[i].path.clone(),
                    files_scanned: counter,
                    progress: pct,
                },
            );
            proof {
                assert(paths[i as int] == children@[i as int].path@);
                assert(spec_event_views(events@) =~= spec_event_views(before).push(
                    spec_event_view(events@.last()),
                ));
            }
        }
        counter = counter + 1;
        i += 1;
    }
    let mut items = collect_items(&children, max_depth, min_size);
    let ghost before_sort = items@;
    sort_items(ListOrder::SizeDescending, &mut items);
    proof {
        crate::order::lemma_map_values_to_multiset(
            items@,
            before_sort,
            |it: FileItem| spec_content(it),
        );
        assert forall|m: int| 0 <= m < items@.len() implies #[trigger] items@[m].size_bytes
            >= min_size by {
            items@.to_multiset_ensures();
            before_sort.to_multiset_ensures();
            assert(items@.contains(items@[m]));
            assert(before_sort.to_multiset().contains(items@[m]));
            assert(before_sort.contains(items@[m]));
        }
    }
    let ghost trace_events = events@;
    events.push(
        ScanProgress {
            current_path: String::from_str("Complete"),
            files_scanned: counter,
            progress: 100,
        },
    );
    proof {
        assert(spec_event_views(events@) =~= spec_event_views(trace_events).push(
            spec_event_view(events@.last()),
        ));
        lemma_events_monotonic(paths, total as nat, interval as nat, total_entries as nat);
        let evs = spec_event_views(events@);
        assert forall|e1: int, e2: int| 0 <= e1 <= e2 < events@.len() implies evs[e1].files_scanned
            <= evs[e2].files_scanned by {
            if e2 < events@.len() - 1 {
                assert(evs[e1] == spec_event_views(trace_events)[e1]);
                assert(evs[e2] == spec_event_views(trace_events)[e2]);
            } else if e1 < events@.len() - 1 {
                assert(evs[e1] == spec_event_views(trace_events)[e1]);
                assert(evs[e1].files_scanned < total_entries as nat);
            }
        }
    }
    ScanOutcome { items, events, files_scanned: counter }
}

/// The acknowledgment and outcome of a scan request. A request whose root
/// was found is acknowledged at once and carries a full outcome; one
/// whose root is missing is refused synchronously and produces nothing —
/// in particular, no progress event at all.
pub struct ScanResponse {
    pub ack: Result<String, String>,
    pub outcome: Option<ScanOutcome>,
}

/// Serves one scan request. `root` carries the snapshot of the root's
/// immediate children, or nothing when the root path does not exist; a
/// missing root is the one error a scan reports, and it is reported
/// before any work is done.
pub fn start_scan(root: Option<Vec<ChildInfo>>, max_depth: u64, min_size: u64, interval: u64)
    -> (r: ScanResponse)
    requires
        max_depth < u64::MAX,
        interval >= 1,
    ensures
        r.ack is Ok <==> root is Some,
        r.outcome is Some <==> root is Some,
        root is None ==> r.ack->Err_0@ == "Scan root does not exist"@,
        root is Some ==> r.ack->Ok_0@ == "Scan started"@ && spec_scan_outcome_ok(
            root->0@,
            r.outcome->0,
            max_depth,
            min_size,
            interval,
        ),
{
    match root {
        Option::None => ScanResponse {
            ack: Result::Err(String::from_str("Scan root does not exist")),
            outcome: Option::None,
        },
        Option::Some(children) => {
            let out = run_scan(children, max_depth, min_size, interval);
            ScanResponse {
                ack: Result::Ok(String::from_str("Scan started")),
                outcome: Option::Some(out),
            }
        },
    }
}


/// Removing one child removes exactly its record, when kept, from the
/// kept records.
proof fn lemma_kept_remove(keys: Seq<ChildKey>, i: int, min: nat)
    requires
        0 <= i < keys.len(),
    ensures
        keys[i].bytes >= min ==> spec_kept(keys, min).to_multiset() == spec_kept(
            keys.remove(i),
            min,
        ).to_multiset().insert(spec_record_of(keys[i])),
        keys[i].bytes < min ==> spec_kept(keys, min).to_multiset() == spec_kept(
            keys.remove(i),
            min,
        ).to_multiset(),
    decreases keys.len(),
{
    broadcast use vstd::multiset::group_multiset_axioms;

    let dl = keys.drop_last();
    spec_kept(dl, min).to_multiset_ensures();
    spec_kept(keys.remove(i), min).to_multiset_ensures();
    if i == keys.len() - 1 {
        assert(keys.remove(i) =~= dl);
    } else {
        assert(keys.remove(i).drop_last() =~= dl.remove(i));
        assert(keys.remove(i).last() == keys.last());
        lemma_kept_remove(dl, i, min);
        spec_kept(dl.remove(i), min).to_multiset_ensures();
        if keys.last().bytes >= min {
            assert(spec_kept(keys, min).to_multiset() =~= spec_kept(dl, min).to_multiset().insert(
                spec_record_of(keys.last()),
            ));
            assert(spec_kept(keys.remove(i), min).to_multiset() =~= spec_kept(
                dl.remove(i),
                min,
            ).to_multiset().insert(spec_record_of(keys.last())));
        }
        if keys[i].bytes >= min {
            assert(spec_kept(keys, min).to_multiset() =~= spec_kept(
                keys.remove(i),
                min,
            ).to_multiset().insert(spec_record_of(keys[i])));
        } else {
            assert(spec_kept(keys, min).to_multiset() =~= spec_kept(
                keys.remove(i),
                min,
            ).to_multiset());
        }
    }
}

/// The kept records do not depend on the order in which the children
/// were enumerated: two enumerations with the same children keep the
/// same records.
pub proof fn lemma_kept_permutation(k1: Seq<ChildKey>, k2: Seq<ChildKey>, min: nat)
    requires
        k1.to_multiset() == k2.to_multiset(),
    ensures
        spec_kept(k1, min).to_multiset() == spec_kept(k2, min).to_multiset(),
    decreases k1.len(),
{
    broadcast use vstd::multiset::group_multiset_axioms;

    k1.to_multiset_ensures();
    k2.to_multiset_ensures();
    if k1.len() == 0 {
        assert(k2.len() == 0);
    } else {
        let e = k1.last();
        assert(k1[k1.len() - 1] == e);
        assert(k1.contains(e));
        assert(k1.to_multiset().contains(e));
        assert(k2.to_multiset().contains(e));
        assert(k2.contains(e));
        let i = choose|i: int| 0 <= i < k2.len() && k2[i] == e;
        assert(k1.drop_last() =~= k1.remove(k1.len() - 1));
        assert(k1.remove(k1.len() - 1).to_multiset() =~= k1.to_multiset().remove(e));
        assert(k2.remove(i).to_multiset() =~= k2.to_multiset().remove(e));
        lemma_kept_permutation(k1.drop_last(), k2.remove(i), min);
        lemma_kept_remove(k2, i, min);
        spec_kept(k1.drop_last(), min).to_multiset_ensures();
        if e.bytes >= min {
            assert(spec_kept(k1, min).to_multiset() =~= spec_kept(
                k1.drop_last(),
                min,
            ).to_multiset().insert(spec_record_of(e)));
        }
        assert(spec_kept(k1, min).to_multiset() =~= spec_kept(k2, min).to_multiset());
    }
}

/// Every kept record is the record of one of the children scanned, and
/// that child reached the size threshold.
proof fn lemma_kept_membership(keys: Seq<ChildKey>, min: nat, x: ItemContent)
    requires
        spec_kept(keys, min).to_multiset().contains(x),
    ensures
        exists|j: int|
            0 <= j < keys.len() && #[trigger] keys[j].bytes >= min && x == spec_record_of(
                keys[j],
            ),
    decreases keys.len(),
{
    broadcast use vstd::multiset::group_multiset_axioms;

    let dl = keys.drop_last();
    spec_kept(dl, min).to_multiset_ensures();
    assert(keys.len() > 0) by {
        spec_kept(keys, min).to_multiset_ensures();
    }
    if keys.last().bytes >= min && x == spec_record_of(keys.last()) {
        assert(keys[keys.len() - 1].bytes >= min && x == spec_record_of(keys[keys.len() - 1]));
    } else {
        if keys.last().bytes >= min {
            assert(spec_kept(keys, min).to_multiset() =~= spec_kept(dl, min).to_multiset().insert(
                spec_record_of(keys.last()),
            ));
        }
        assert(spec_kept(dl, min).to_multiset().contains(x));
        lemma_kept_membership(dl, min, x);
        let j = choose|j: int|
            0 <= j < dl.len() && #[trigger] dl[j].bytes >= min && x == spec_record_of(dl[j]);
        assert(keys[j].bytes >= min && x == spec_record_of(keys[j]));
    }
}

/// Children with pairwise distinct paths, as every real directory
/// listing has.
pub open spec fn spec_paths_distinct(keys: Seq<ChildKey>) -> bool {
    forall|i: int, j: int| 0 <= i < j < keys.len() ==> keys[i].path != keys[j].path
}

/// The determinism law of a scan. Whatever order the filesystem
/// enumerated the children in — two scans of the same directory content
/// read the same children, possibly in different orders — the sorted,
/// filtered results are exactly equal, record for record: the sort is
/// total, the tie-break by path is decisive because no two children of
/// one directory share a path, and the filter and measurement look at
/// each child alone. Listing a directory twice with no change in between
/// is the special case of identical key collections.
pub proof fn lemma_scan_deterministic(
    order: ListOrder,
    k1: Seq<ChildKey>,
    k2: Seq<ChildKey>,
    r1: Seq<ItemContent>,
    r2: Seq<ItemContent>,
    min: nat,
)
    requires
        k1.to_multiset() == k2.to_multiset(),
        spec_paths_distinct(k1),
        spec_sorted(order, r1),
        r1.to_multiset() == spec_kept(k1, min).to_multiset(),
        spec_sorted(order, r2),
        r2.to_multiset() == spec_kept(k2, min).to_multiset(),
    ensures
        r1 == r2,
{
    lemma_kept_permutation(k1, k2, min);
    assert forall|u: ItemContent, v: ItemContent|
        r1.to_multiset().contains(u) && r1.to_multiset().contains(v) && u.path == v.path
            implies u == v by {
        lemma_kept_membership(k1, min, u);
        lemma_kept_membership(k1, min, v);
        let ju = choose|j: int|
            0 <= j < k1.len() && #[trigger] k1[j].bytes >= min && u == spec_record_of(k1[j]);
        let jv = choose|j: int|
            0 <= j < k1.len() && #[trigger] k1[j].bytes >= min && v == spec_record_of(k1[j]);
        assert(k1[ju].path == u.path);
        assert(k1[jv].path == v.path);
        assert(ju == jv);
    }
    crate::order::lemma_sorted_unique_by_path(order, r1, r2);
}

} // verus!


