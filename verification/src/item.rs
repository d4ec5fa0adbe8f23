//! Result records of a scan: one `FileItem` per filesystem entry, carrying
//! the entry's identifier (its path), display name, byte size with its
//! formatted rendering, and a category token — `directory` for directories,
//! otherwise the entry's file-name extension folded to lower case, or
//! `file` when there is none.

use vstd::prelude::*;
use crate::bytes::{format_bytes, spec_format_bytes};
use crate::text::{spec_lower, to_lower};
use crate::tree::{sat64, spec_node_bytes, FsNode};

verus! {

/// One entry of a scan result. `id` and `path` both hold the entry's
/// path, which callers use as the record's identifier. `children` is kept
/// for listings that materialize a tree; the operations here always leave
/// it empty, as they do `last_modified`.
pub struct FileItem {
    pub id: String,
    pub name: String,
    pub size: String,
    pub size_bytes: u64,
    pub item_type: String,
    pub path: String,
    pub last_modified: Option<String>,
    pub children: Option<Vec<FileItem>>,
}

/// The displayed content of a `FileItem`, with every string taken as its
/// character sequence. Two records with the same content are
/// indistinguishable to a consumer of a scan result.
pub struct ItemContent {
    pub id: Seq<char>,
    pub name: Seq<char>,
    pub size: Seq<char>,
    pub size_bytes: u64,
    pub item_type: Seq<char>,
    pub path: Seq<char>,
    pub last_modified: Option<Seq<char>>,
}

/// The content of one record.
pub open spec fn spec_content(it: FileItem) -> ItemContent {
    ItemContent {
        id: it.id@,
        name: it.name@,
        size: it.size@,
        size_bytes: it.size_bytes,
        item_type: it.item_type@,
        path: it.path@,
        last_modified: match it.last_modified {
            Option::None => Option::None,
            Option::Some(s) => Option::Some(s@),
        },
    }
}

/// The contents of a sequence of records.
pub open spec fn spec_contents(s: Seq<FileItem>) -> Seq<ItemContent> {
    s.map_values(|it: FileItem| spec_content(it))
}

/// The index of the last `.` in `s`, or -1 when there is none.
pub open spec fn spec_last_dot(s: Seq<char>) -> int
    decreases s,
{
    if s.len() == 0 {
        -1
    } else if s.last() == '.' {
        s.len() - 1
    } else {
        spec_last_dot(s.drop_last())
    }
}

/// The extension of a file name: what follows the last `.`, provided that
/// dot is neither absent nor the leading character (a name that only
/// starts with a dot has no extension).
pub open spec fn spec_extension(name: Seq<char>) -> Option<Seq<char>> {
    let p = spec_last_dot(name);
    if p >= 1 {
        Option::Some(name.skip(p + 1))
    } else {
        Option::None
    }
}

/// The category token of an entry: `directory` for a directory, otherwise
/// the lower-cased extension of its name, or `file` without one.
pub open spec fn spec_item_type(dir: bool, name: Seq<char>) -> Seq<char> {
    if dir {
        "directory"@
    } else {
        match spec_extension(name) {
            Option::Some(e) => spec_lower(e),
            Option::None => "file"@,
        }
    }
}

/// Computes the category token of an entry from its kind and name.
pub fn item_type_of(dir: bool, name: &str) -> (r: String)
    ensures
        r@ == spec_item_type(dir, name@),
{
    if dir {
        return String::from_str("directory");
    }
    let len = name.unicode_len();
    let mut i: usize = len;
    assert(name@.subrange(0, len as int) =~= name@);
    loop
        invariant
            !dir,
            i <= len,
            len == name@.len(),
            spec_last_dot(name@) == spec_last_dot(name@.subrange(0, i as int)),
        decreases i,
    {
        if i == 0 {
            assert(name@.subrange(0, 0) =~= Seq::<char>::empty());
            assert(spec_last_dot(name@) == -1);
            return String::from_str("file");
        }
        let c = name.get_char(i - 1);
        if c == '.' {
            assert(name@.subrange(0, i as int).last() == name@[i - 1]);
            assert(spec_last_dot(name@) == i - 1);
            if i - 1 == 0 {
                return String::from_str("file");
            }
            let ext = name.substring_char(i, len);
            assert(ext@ =~= name@.skip(i as int));
            return to_lower(ext);
        }
        assert(name@.subrange(0, i as int).last() == name@[i - 1]);
        assert(name@.subrange(0, i as int).drop_last() =~= name@.subrange(0, i - 1));
        i -= 1;
    }
}

/// Builds the result record for one entry: the path serves as the
/// identifier, the size is the depth-bounded aggregate of the entry's
/// snapshot, and the category token follows the entry's kind and name.
pub fn build_item(name: String, path: String, node: &FsNode, max_depth: u64) -> (it: FileItem)
    requires
        max_depth < u64::MAX,
    ensures
        it.id@ == path@,
        it.name@ == name@,
        it.path@ == path@,
        it.size_bytes as nat == sat64(spec_node_bytes(*node, (max_depth + 1) as nat)),
        it.size@ == spec_format_bytes(it.size_bytes as nat),
        it.item_type@ == spec_item_type(node.spec_is_dir(), name@),
        it.last_modified is None,
        it.children is None,
{
    let size_bytes = crate::tree::aggregate(node, max_depth);
    let dir = node.is_dir();
    let item_type = item_type_of(dir, name.as_str());
    let size = format_bytes(size_bytes);
    let id = path.clone();
    FileItem {
        id,
        name,
        size,
        size_bytes,
        item_type,
        path,
        last_modified: Option::None,
        children: Option::None,
    }
}

} // verus!
