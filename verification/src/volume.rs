//! Volume records. The operating system reports a volume's name, mount
//! path and capacity counters; this module turns one such report into the
//! displayed record: formatted capacity strings, a usage percentage, and
//! a display name that falls back to the mount path when the reported
//! name is blank.

use vstd::prelude::*;
use crate::bytes::{format_bytes, spec_format_bytes};

verus! {

/// One mounted storage volume as displayed: its name, mount path,
/// formatted capacity figures, and integer usage percentage (0 to 100).
pub struct Drive {
    pub name: String,
    pub path: String,
    pub total_space: String,
    pub used_space: String,
    pub free_space: String,
    pub usage_percentage: u64,
}

/// An ASCII whitespace character.
pub open spec fn spec_is_space(c: char) -> bool {
    c == ' ' || c == '\t' || c == '\n' || c == '\r'
}

/// A name with nothing to display: empty or all whitespace.
pub open spec fn spec_is_blank(s: Seq<char>) -> bool {
    forall|i: int| 0 <= i < s.len() ==> spec_is_space(#[trigger] s[i])
}

/// Whether a reported volume name is blank.
pub fn is_blank(s: &str) -> (r: bool)
    ensures
        r == spec_is_blank(s@),
{
    let len = s.unicode_len();
    let mut i: usize = 0;
    while i < len
        invariant
            i <= len,
            len == s@.len(),
            forall|k: int| 0 <= k < i ==> spec_is_space(#[trigger] s@[k]),
        decreases len - i,
    {
        let c = s.get_char(i);
        if !(c == ' ' || c == '\t' || c == '\n' || c == '\r') {
            return false;
        }
        i += 1;
    }
    true
}

/// The used share of a volume, out of 100; 0 when the total is zero.
pub open spec fn spec_usage_percent(used: nat, total: nat) -> nat {
    if total == 0 {
        0
    } else {
        used * 100 / total
    }
}

/// The used capacity: what the total exceeds the available space by,
/// never below zero.
pub open spec fn spec_used(total: nat, available: nat) -> nat {
    if available >= total {
        0
    } else {
        (total - available) as nat
    }
}

/// Builds the record of one volume from what the operating system
/// reports: name (the mount path stands in for a blank name), mount
/// path, the three capacity figures formatted, and the usage percentage
/// rounded down.
pub fn volume_record(name: String, mount: String, total: u64, available: u64) -> (d: Drive)
    ensures
        d.name@ == if spec_is_blank(name@) {
            mount@
        } else {
            name@
        },
        d.path@ == mount@,
        d.total_space@ == spec_format_bytes(total as nat),
        d.used_space@ == spec_format_bytes(spec_used(total as nat, available as nat)),
        d.free_space@ == spec_format_bytes(available as nat),
        d.usage_percentage == spec_usage_percent(spec_used(total as nat, available as nat),
        total as nat),
        d.usage_percentage <= 100,
{
    let used: u64 = total.saturating_sub(available);
    let pct: u64 = if total == 0 {
        0
    } else {
        let p: u128 = used as u128 * 100 / total as u128;
        assert(used <= total);
        assert(p <= 100) by (nonlinear_arith)
            requires
                p == used as int * 100 / total as int,
                0 < total <= u64::MAX,
                used <= total,
        ;
        p as u64
    };
    let display_name = if is_blank(name.as_str()) {
        mount.clone()
    } else {
        name
    };
    Drive {
        name: display_name,
        path: mount,
        total_space: format_bytes(total),
        used_space: format_bytes(used),
        free_space: format_bytes(available),
        usage_percentage: pct,
    }
}

} // verus!
