//! Traversal filters. A walk may exclude hidden entries (names that start
//! with a dot; some operating modes keep them) and always prunes a short
//! denylist of operating-system index and trash directories at the
//! directory level, so a scan neither wastes work under them nor trips
//! over their permission errors.

use vstd::prelude::*;
use crate::scan::ChildInfo;

verus! {

/// A hidden entry: its name starts with the hidden-file marker.
pub open spec fn spec_hidden(name: Seq<char>) -> bool {
    name.len() > 0 && name[0] == '.'
}

/// Whether a name marks a hidden entry.
pub fn is_hidden(name: &str) -> (r: bool)
    ensures
        r == spec_hidden(name@),
{
    if name.unicode_len() == 0 {
        false
    } else {
        name.get_char(0) == '.'
    }
}

/// A name on the denylist of well-known protected directories.
pub open spec fn spec_protected(name: Seq<char>) -> bool {
    ||| name == ".Spotlight-V100"@
    ||| name == ".fseventsd"@
    ||| name == ".Trashes"@
    ||| name == ".DocumentRevisions-V100"@
    ||| name == "System Volume Information"@
    ||| name == "$RECYCLE.BIN"@
}

/// Whether a name is on the protected-directory denylist.
pub fn is_protected(name: &str) -> (r: bool)
    ensures
        r == spec_protected(name@),
{
    let n = name.to_owned();
    if n == String::from_str(".Spotlight-V100") {
        true
    } else if n == String::from_str(".fseventsd") {
        true
    } else if n == String::from_str(".Trashes") {
        true
    } else if n == String::from_str(".DocumentRevisions-V100") {
        true
    } else if n == String::from_str("System Volume Information") {
        true
    } else if n == String::from_str("$RECYCLE.BIN") {
        true
    } else {
        false
    }
}

/// Whether a walk keeps an entry of this name.
pub open spec fn spec_keep_entry(include_hidden: bool, name: Seq<char>) -> bool {
    (include_hidden || !spec_hidden(name)) && !spec_protected(name)
}

/// The children a walk visits, in enumeration order: protected
/// directories are always pruned, hidden entries only when the mode
/// excludes them.
pub open spec fn spec_visible(cs: Seq<ChildInfo>, include_hidden: bool) -> Seq<ChildInfo>
    decreases cs,
{
    if cs.len() == 0 {
        Seq::empty()
    } else {
        let rest = spec_visible(cs.drop_last(), include_hidden);
        if spec_keep_entry(include_hidden, cs.last().name@) {
            rest.push(cs.last())
        } else {
            rest
        }
    }
}

/// Applies the traversal filters to a child snapshot: what comes back is
/// exactly the entries a walk visits, in their original order.
pub fn visible_children(children: Vec<ChildInfo>, include_hidden: bool) -> (r: Vec<ChildInfo>)
    ensures
        r@ == spec_visible(children@, include_hidden),
{
    let ghost cs = children@;
    let mut rest = children;
    let mut r: Vec<ChildInfo> = Vec::new();
    let mut i: usize = 0;
    let upper: usize = rest.len();
    assert(cs.len() == upper);
    assert(rest@ =~= cs.skip(0));
    assert(r@ =~= spec_visible(cs.subrange(0, 0), include_hidden));
    while rest.len() > 0
        invariant
            cs.len() <= usize::MAX,
            i + rest@.len() == cs.len(),
            rest@ == cs.skip(i as int),
            r@ == spec_visible(cs.subrange(0, i as int), include_hidden),
        decreases rest@.len(),
    {
        let c = rest.remove(0);
        assert(c == cs[i as int]);
        let keep = {
            let name = c.name.as_str();
            let hidden = is_hidden(name);
            let protected_name = is_protected(name);
            (include_hidden || !hidden) && !protected_name
        };
        proof {
            assert(cs.subrange(0, i + 1).drop_last() =~= cs.subrange(0, i as int));
            assert(cs.subrange(0, i + 1).last() == cs[i as int]);
            assert(cs.skip(i as int).remove(0) =~= cs.skip(i + 1));
        }
        if keep {
            r.push(c);
        }
        i += 1;
    }
    assert(cs.subrange(0, cs.len() as int) =~= cs);
    r
}

} // verus!
