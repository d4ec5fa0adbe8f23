use diskscan::bytes::format_bytes;
use diskscan::item::{build_item, item_type_of};
use diskscan::ops::{plan_delete, plan_trash, RemovalOp};
use diskscan::scan::{progress_percent, ChildInfo};
use diskscan::text::{str_lt, to_lower, u64_to_string};
use diskscan::tree::{aggregate, FsEntry, FsNode};
use diskscan::volume::volume_record;
use diskscan::walker::{is_hidden, is_protected, visible_children};

#[test]
fn formats_plain_byte_counts() {
    assert_eq!(format_bytes(0), "0 bytes");
    assert_eq!(format_bytes(100), "100 bytes");
    assert_eq!(format_bytes(1023), "1023 bytes");
}

#[test]
fn formats_scaled_units() {
    assert_eq!(format_bytes(1024), "1.00 KB");
    assert_eq!(format_bytes(1536), "1.50 KB");
    assert_eq!(format_bytes(2048), "2.00 KB");
    assert_eq!(format_bytes(1048576), "1.00 MB");
    assert_eq!(format_bytes(5 * 1024 * 1024 * 1024), "5.00 GB");
    assert_eq!(format_bytes(1024 * 1024 * 1024 * 1024), "1.00 TB");
}

#[test]
fn rounds_to_hundredths_half_up() {
    // 1234 bytes = 1.205078125 KB: the half hundredth rounds up.
    assert_eq!(format_bytes(1234), "1.21 KB");
    // 1228 bytes = 1.19921875 KB: rounds up to 1.20.
    assert_eq!(format_bytes(1228), "1.20 KB");
}

#[test]
fn renders_decimals() {
    assert_eq!(u64_to_string(0), "0");
    assert_eq!(u64_to_string(7), "7");
    assert_eq!(u64_to_string(105), "105");
    assert_eq!(u64_to_string(u64::MAX), "18446744073709551615");
}

#[test]
fn folds_ascii_case() {
    assert_eq!(to_lower("TXT"), "txt");
    assert_eq!(to_lower("TarGz"), "targz");
    assert_eq!(to_lower("mp4"), "mp4");
}

#[test]
fn orders_strings_by_code_point() {
    assert!(str_lt("/data/x", "/data/y"));
    assert!(!str_lt("/data/y", "/data/x"));
    assert!(str_lt("/data", "/data/x"));
    assert!(!str_lt("/data/x", "/data/x"));
}

#[test]
fn categorizes_entries() {
    assert_eq!(item_type_of(true, "whatever"), "directory");
    assert_eq!(item_type_of(false, "movie.MP4"), "mp4");
    assert_eq!(item_type_of(false, "archive.tar.gz"), "gz");
    assert_eq!(item_type_of(false, "noext"), "file");
    assert_eq!(item_type_of(false, ".gitignore"), "file");
    assert_eq!(item_type_of(false, "trailing."), "");
}

#[test]
fn aggregates_with_depth_cutoff() {
    let tree = FsNode::Dir {
        entries: vec![
            FsEntry { name: "a".to_string(), node: FsNode::File { size: 10 } },
            FsEntry {
                name: "sub".to_string(),
                node: FsNode::Dir {
                    entries: vec![FsEntry {
                        name: "b".to_string(),
                        node: FsNode::File { size: 32 },
                    }],
                },
            },
        ],
    };
    assert_eq!(aggregate(&tree, 0), 10);
    assert_eq!(aggregate(&tree, 1), 42);
    assert_eq!(aggregate(&tree, 5), 42);
}

#[test]
fn aggregation_saturates_instead_of_overflowing() {
    let tree = FsNode::Dir {
        entries: vec![
            FsEntry { name: "a".to_string(), node: FsNode::File { size: u64::MAX } },
            FsEntry { name: "b".to_string(), node: FsNode::File { size: 1 } },
        ],
    };
    assert_eq!(aggregate(&tree, 0), u64::MAX);
}

#[test]
fn builds_item_records() {
    let it = build_item(
        "video.MKV".to_string(),
        "/data/video.MKV".to_string(),
        &FsNode::File { size: 2048 },
        5,
    );
    assert_eq!(it.id, "/data/video.MKV");
    assert_eq!(it.name, "video.MKV");
    assert_eq!(it.path, "/data/video.MKV");
    assert_eq!(it.size_bytes, 2048);
    assert_eq!(it.size, "2.00 KB");
    assert_eq!(it.item_type, "mkv");
    assert!(it.last_modified.is_none());
    assert!(it.children.is_none());
}

#[test]
fn reports_progress_ratio() {
    assert_eq!(progress_percent(0, 0), 0);
    assert_eq!(progress_percent(0, 10), 0);
    assert_eq!(progress_percent(5, 10), 50);
    assert_eq!(progress_percent(10, 10), 99);
    assert_eq!(progress_percent(50, 10), 99);
}

#[test]
fn builds_volume_records() {
    let d = volume_record("Main".to_string(), "/".to_string(), 2048, 1024);
    assert_eq!(d.name, "Main");
    assert_eq!(d.path, "/");
    assert_eq!(d.total_space, "2.00 KB");
    assert_eq!(d.used_space, "1.00 KB");
    assert_eq!(d.free_space, "1.00 KB");
    assert_eq!(d.usage_percentage, 50);
}

#[test]
fn blank_volume_name_falls_back_to_mount() {
    let d = volume_record("   ".to_string(), "/mnt/data".to_string(), 0, 0);
    assert_eq!(d.name, "/mnt/data");
    assert_eq!(d.usage_percentage, 0);
}

#[test]
fn plans_deletion() {
    let plan = plan_delete(true, true, "/data/old").unwrap();
    assert!(matches!(plan.op, RemovalOp::RemoveDirAll));
    assert_eq!(plan.success_message, "Successfully deleted directory '/data/old'");
    assert_eq!(plan.failure_prefix, "Failed to delete directory: ");
    let plan = plan_delete(true, false, "/data/f").unwrap();
    assert!(matches!(plan.op, RemovalOp::RemoveFile));
    assert_eq!(plan.success_message, "Successfully deleted file '/data/f'");
}

#[test]
fn refuses_removal_of_missing_entries() {
    assert_eq!(
        plan_delete(false, false, "/gone").unwrap_err(),
        "File or directory does not exist"
    );
    assert_eq!(
        plan_trash(false, true, "/gone").unwrap_err(),
        "File or directory does not exist"
    );
}

#[test]
fn plans_trash_moves() {
    let plan = plan_trash(true, false, "/data/f").unwrap();
    assert_eq!(plan.success_message, "Successfully moved file '/data/f' to trash");
    assert_eq!(plan.failure_prefix, "Failed to move file to trash: ");
}

#[test]
fn recognizes_hidden_and_protected_names() {
    assert!(is_hidden(".cache"));
    assert!(!is_hidden("cache"));
    assert!(!is_hidden(""));
    assert!(is_protected("$RECYCLE.BIN"));
    assert!(is_protected("System Volume Information"));
    assert!(is_protected(".Trashes"));
    assert!(!is_protected("Documents"));
}

#[test]
fn filters_traversal_entries() {
    let children = vec![
        ChildInfo {
            name: ".hidden".to_string(),
            path: "/d/.hidden".to_string(),
            node: FsNode::File { size: 1 },
        },
        ChildInfo {
            name: "visible".to_string(),
            path: "/d/visible".to_string(),
            node: FsNode::File { size: 2 },
        },
        ChildInfo {
            name: ".fseventsd".to_string(),
            path: "/d/.fseventsd".to_string(),
            node: FsNode::Dir { entries: vec![] },
        },
    ];
    let kept = visible_children(children, false);
    let kept_names: Vec<String> = kept.iter().map(|c| c.name.clone()).collect();
    assert_eq!(kept_names, vec!["visible"]);

    let children = vec![
        ChildInfo {
            name: ".hidden".to_string(),
            path: "/d/.hidden".to_string(),
            node: FsNode::File { size: 1 },
        },
        ChildInfo {
            name: ".fseventsd".to_string(),
            path: "/d/.fseventsd".to_string(),
            node: FsNode::Dir { entries: vec![] },
        },
    ];
    let kept = visible_children(children, true);
    let kept_names: Vec<String> = kept.iter().map(|c| c.name.clone()).collect();
    assert_eq!(kept_names, vec![".hidden"]);
}
