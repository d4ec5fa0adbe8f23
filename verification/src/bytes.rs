//! Human-readable rendering of byte counts: a count is shown against the
//! largest binary unit it reaches, with exactly two fraction digits, or as
//! a plain count below one kilobyte.

use vstd::prelude::*;
use crate::text::{digit_char, spec_dec, u64_to_string, push_char};

verus! {

pub const KB: u64 = 1024;

pub const MB: u64 = 1024 * 1024;

pub const GB: u64 = 1024 * 1024 * 1024;

pub const TB: u64 = 1024 * 1024 * 1024 * 1024;

/// The number of hundredths of `unit` that `bytes` amounts to, rounded to
/// the nearest hundredth with halves rounded up.
pub open spec fn spec_hundredths(bytes: nat, unit: nat) -> nat {
    (bytes * 200 / unit + 1) / 2
}

/// The two fraction digits for a value of `f` hundredths (meaningful for
/// `f < 100`).
pub open spec fn spec_two_frac_digits(f: nat) -> Seq<char> {
    seq![digit_char(f / 10), digit_char(f % 10)]
}

/// `bytes` rendered as a multiple of `unit` with two fraction digits.
pub open spec fn spec_scaled(bytes: nat, unit: nat) -> Seq<char> {
    let h = spec_hundredths(bytes, unit);
    spec_dec(h / 100) + "."@ + spec_two_frac_digits(h % 100)
}

/// The exact character sequence `format_bytes` returns for a count.
pub open spec fn spec_format_bytes(bytes: nat) -> Seq<char> {
    if bytes >= TB {
        spec_scaled(bytes, TB as nat) + " TB"@
    } else if bytes >= GB {
        spec_scaled(bytes, GB as nat) + " GB"@
    } else if bytes >= MB {
        spec_scaled(bytes, MB as nat) + " MB"@
    } else if bytes >= KB {
        spec_scaled(bytes, KB as nat) + " KB"@
    } else {
        spec_dec(bytes) + " bytes"@
    }
}

fn format_scaled(bytes: u64, unit: u64) -> (r: String)
    requires
        unit >= 1024,
    ensures
        r@ == spec_scaled(bytes as nat, unit as nat),
{
    let q: u128 = bytes as u128 * 200 / unit as u128;
    proof {
        vstd::arithmetic::div_mod::lemma_div_is_ordered_by_denominator(
            bytes as int * 200,
            1024,
            unit as int,
        );
        assert(bytes as int * 200 / 1024 < 0x4000000000000000) by (nonlinear_arith)
            requires bytes <= 0xFFFF_FFFF_FFFF_FFFFu64,
        ;
    }
    let h: u128 = (q + 1) / 2;
    assert(h == spec_hundredths(bytes as nat, unit as nat));
    let whole: u64 = (h / 100) as u64;
    let frac: u64 = (h % 100) as u64;
    let mut r = u64_to_string(whole);
    push_char(&mut r, '.');
    push_char(&mut r, frac_digit_high(frac));
    push_char(&mut r, frac_digit_low(frac));
    proof {
        reveal_strlit(".");
        assert(r@ =~= spec_scaled(bytes as nat, unit as nat));
    }
    r
}

fn frac_digit_high(f: u64) -> (c: char)
    requires
        f < 100,
    ensures
        c == digit_char((f / 10) as nat),
{
    let b: u8 = 48 + ((f / 10) as u8);
    b as char
}

fn frac_digit_low(f: u64) -> (c: char)
    requires
        f < 100,
    ensures
        c == digit_char((f % 10) as nat),
{
    let b: u8 = 48 + ((f % 10) as u8);
    b as char
}

/// Renders a byte count for display: two fraction digits against the
/// largest binary unit reached (terabytes down to kilobytes), or the plain
/// count with the suffix `bytes` below one kilobyte. The fraction is the
/// nearest hundredth of the unit, halves rounded up.
pub fn format_bytes(bytes: u64) -> (r: String)
    ensures
        r@ == spec_format_bytes(bytes as nat),
{
    if bytes >= TB {
        let s = format_scaled(bytes, TB);
        s.concat(" TB")
    } else if bytes >= GB {
        let s = format_scaled(bytes, GB);
        s.concat(" GB")
    } else if bytes >= MB {
        let s = format_scaled(bytes, MB);
        s.concat(" MB")
    } else if bytes >= KB {
        let s = format_scaled(bytes, KB);
        s.concat(" KB")
    } else {
        let s = u64_to_string(bytes);
        s.concat(" bytes")
    }
}

} // verus!
