use diskscan::item::FileItem;
use diskscan::order::ListOrder;
use diskscan::scan::{list_directory, run_scan, start_scan, ChildInfo};
use diskscan::tree::{FsEntry, FsNode};

fn file(size: u64) -> FsNode {
    FsNode::File { size }
}

fn dir(entries: Vec<FsEntry>) -> FsNode {
    FsNode::Dir { entries }
}

fn entry(name: &str, node: FsNode) -> FsEntry {
    FsEntry { name: name.to_string(), node }
}

fn child(name: &str, path: &str, node: FsNode) -> ChildInfo {
    ChildInfo { name: name.to_string(), path: path.to_string(), node }
}

/// The tree under `/data`: files `a` (100 bytes) and `b` (2048 bytes),
/// and a subdirectory `c` holding `d` (1,048,576 bytes).
fn data_tree() -> Vec<ChildInfo> {
    vec![
        child("a", "/data/a", file(100)),
        child("b", "/data/b", file(2048)),
        child("c", "/data/c", dir(vec![entry("d", file(1048576))])),
    ]
}

fn names(items: &[FileItem]) -> Vec<String> {
    items.iter().map(|it| it.name.clone()).collect()
}

#[test]
fn listing_directories_first() {
    let items = list_directory(data_tree(), ListOrder::DirectoriesFirst, 3, 0);
    assert_eq!(names(&items), vec!["c", "a", "b"]);
    assert_eq!(items[0].item_type, "directory");
    assert_eq!(items[0].size_bytes, 1048576);
    assert_eq!(items[0].size, "1.00 MB");
    assert_eq!(items[1].size_bytes, 100);
    assert_eq!(items[1].size, "100 bytes");
    assert_eq!(items[2].size_bytes, 2048);
    assert_eq!(items[2].size, "2.00 KB");
}

#[test]
fn scan_size_descending() {
    let out = run_scan(data_tree(), 5, 0, 5);
    let sizes: Vec<u64> = out.items.iter().map(|it| it.size_bytes).collect();
    assert_eq!(sizes, vec![1048576, 2048, 100]);
    assert_eq!(names(&out.items), vec!["c", "b", "a"]);
}

#[test]
fn listing_is_idempotent() {
    let first = list_directory(data_tree(), ListOrder::SizeDescending, 3, 0);
    let second = list_directory(data_tree(), ListOrder::SizeDescending, 3, 0);
    assert_eq!(first.len(), second.len());
    for (x, y) in first.iter().zip(second.iter()) {
        assert_eq!(x.id, y.id);
        assert_eq!(x.name, y.name);
        assert_eq!(x.size, y.size);
        assert_eq!(x.size_bytes, y.size_bytes);
        assert_eq!(x.item_type, y.item_type);
        assert_eq!(x.path, y.path);
    }
}

#[test]
fn listing_ignores_enumeration_order() {
    let mut shuffled = data_tree();
    shuffled.reverse();
    let first = list_directory(data_tree(), ListOrder::SizeDescending, 3, 0);
    let second = list_directory(shuffled, ListOrder::SizeDescending, 3, 0);
    assert_eq!(names(&first), names(&second));
    for (x, y) in first.iter().zip(second.iter()) {
        assert_eq!(x.path, y.path);
        assert_eq!(x.size_bytes, y.size_bytes);
    }
}

#[test]
fn minimum_size_filter_is_inclusive() {
    let items = list_directory(data_tree(), ListOrder::SizeDescending, 3, 2048);
    let kept: Vec<u64> = items.iter().map(|it| it.size_bytes).collect();
    assert_eq!(kept, vec![1048576, 2048]);
    for it in &items {
        assert!(it.size_bytes >= 2048);
    }
}

#[test]
fn minimum_size_filter_drops_small_entries() {
    let items = list_directory(data_tree(), ListOrder::SizeDescending, 3, 4096);
    let kept: Vec<u64> = items.iter().map(|it| it.size_bytes).collect();
    assert_eq!(kept, vec![1048576]);
}

#[test]
fn unreadable_directory_counts_zero_and_spares_siblings() {
    let children = vec![
        child("locked", "/data/locked", dir(vec![])),
        child("big", "/data/big", file(4096)),
    ];
    let items = list_directory(children, ListOrder::SizeDescending, 3, 0);
    assert_eq!(names(&items), vec!["big", "locked"]);
    assert_eq!(items[1].size_bytes, 0);
    assert_eq!(items[1].item_type, "directory");
}

#[test]
fn scan_of_missing_root_fails_without_events() {
    let r = start_scan(None, 5, 0, 5);
    assert_eq!(r.ack, Err("Scan root does not exist".to_string()));
    assert!(r.outcome.is_none());
}

#[test]
fn scan_of_existing_root_acknowledges_and_completes() {
    let r = start_scan(Some(data_tree()), 5, 0, 5);
    assert_eq!(r.ack, Ok("Scan started".to_string()));
    let out = r.outcome.unwrap();
    assert_eq!(out.files_scanned, 3);
    let last = out.events.last().unwrap();
    assert_eq!(last.progress, 100);
    assert_eq!(last.current_path, "Complete");
    assert_eq!(last.files_scanned, 3);
}

#[test]
fn progress_counts_never_decrease() {
    let children: Vec<ChildInfo> = (0..12)
        .map(|i| child(&format!("f{i}"), &format!("/data/f{i}"), file(10 * i as u64)))
        .collect();
    let out = run_scan(children, 5, 0, 5);
    assert_eq!(out.files_scanned, 12);
    let counts: Vec<u64> = out.events.iter().map(|e| e.files_scanned).collect();
    assert_eq!(counts, vec![0, 5, 10, 12]);
    for w in counts.windows(2) {
        assert!(w[0] <= w[1]);
    }
    assert_eq!(out.events[0].progress, 0);
    assert_eq!(out.events[1].progress, 41);
    assert_eq!(out.events[2].progress, 83);
    assert_eq!(out.events[3].progress, 100);
}

#[test]
fn ties_break_by_path() {
    let children = vec![
        child("y", "/data/y", file(512)),
        child("x", "/data/x", file(512)),
    ];
    let items = list_directory(children, ListOrder::SizeDescending, 3, 0);
    assert_eq!(items[0].path, "/data/x");
    assert_eq!(items[1].path, "/data/y");
}

#[test]
fn aggregation_respects_depth_bound() {
    // d sits one level below c; with a zero depth bound the scan reads
    // the entries of c but does not descend past them.
    let deep = dir(vec![entry("inner", dir(vec![entry("leaf", file(777))]))]);
    let children = vec![child("c", "/data/c", deep)];
    let shallow = list_directory(children, ListOrder::SizeDescending, 0, 0);
    assert_eq!(shallow[0].size_bytes, 0);
    let deep2 = dir(vec![entry("inner", dir(vec![entry("leaf", file(777))]))]);
    let children2 = vec![child("c", "/data/c", deep2)];
    let full = list_directory(children2, ListOrder::SizeDescending, 2, 0);
    assert_eq!(full[0].size_bytes, 777);
}
