//! Result orderings. A scan result is sorted either largest-first (ties
//! broken by path, so the order is deterministic) or directories-first
//! with names alphabetical (for browsing views). Both orders are total,
//! and a sorted result is uniquely determined by its records whenever no
//! two records share a path.

use vstd::prelude::*;
use vstd::multiset::Multiset;
use crate::item::{spec_content, spec_contents, FileItem, ItemContent};
use crate::text::{
    lemma_seq_char_lt_asymmetric, lemma_seq_char_lt_connected, lemma_seq_char_lt_irreflexive,
    lemma_seq_char_lt_transitive, seq_char_le, seq_char_lt, str_lt,
};

verus! {

/// The selectable output orders of a listing.
#[derive(Clone, Copy)]
pub enum ListOrder {
    /// Largest byte size first; equal sizes ordered by path.
    SizeDescending,
    /// Directories before files, then names alphabetical, then paths.
    DirectoriesFirst,
}

/// Whether a record's category token marks it as a directory.
pub open spec fn spec_is_dir_type(c: ItemContent) -> bool {
    c.item_type == "directory"@
}

/// The non-strict order that `order` sorts records into.
pub open spec fn spec_le(order: ListOrder, a: ItemContent, b: ItemContent) -> bool {
    match order {
        ListOrder::SizeDescending => a.size_bytes > b.size_bytes || (a.size_bytes == b.size_bytes
            && seq_char_le(a.path, b.path)),
        ListOrder::DirectoriesFirst => {
            let ad = spec_is_dir_type(a);
            let bd = spec_is_dir_type(b);
            if ad != bd {
                ad
            } else if a.name != b.name {
                seq_char_lt(a.name, b.name)
            } else {
                seq_char_le(a.path, b.path)
            }
        },
    }
}

/// A sequence of records in the order `order` prescribes.
pub open spec fn spec_sorted(order: ListOrder, s: Seq<ItemContent>) -> bool {
    forall|i: int, j: int| 0 <= i < j < s.len() ==> spec_le(order, s[i], s[j])
}

/// Any two records are comparable under either order.
pub proof fn lemma_le_connected(order: ListOrder, a: ItemContent, b: ItemContent)
    ensures
        spec_le(order, a, b) || spec_le(order, b, a),
{
    lemma_seq_char_lt_connected(a.path, b.path);
    lemma_seq_char_lt_connected(a.name, b.name);
}

/// Both orders are transitive.
pub proof fn lemma_le_transitive(order: ListOrder, a: ItemContent, b: ItemContent, c: ItemContent)
    requires
        spec_le(order, a, b),
        spec_le(order, b, c),
    ensures
        spec_le(order, a, c),
{
    lemma_seq_char_lt_irreflexive(a.path);
    lemma_seq_char_lt_irreflexive(a.name);
    lemma_seq_char_lt_irreflexive(b.path);
    lemma_seq_char_lt_irreflexive(b.name);
    lemma_seq_char_lt_irreflexive(c.path);
    lemma_seq_char_lt_irreflexive(c.name);
    if seq_char_lt(a.path, b.path) && seq_char_lt(b.path, c.path) {
        lemma_seq_char_lt_transitive(a.path, b.path, c.path);
    }
    if seq_char_lt(a.name, b.name) && seq_char_lt(b.name, c.name) {
        lemma_seq_char_lt_transitive(a.name, b.name, c.name);
    }
}

/// Records ordered both ways under one order have the same path.
pub proof fn lemma_le_both_ways(order: ListOrder, a: ItemContent, b: ItemContent)
    requires
        spec_le(order, a, b),
        spec_le(order, b, a),
    ensures
        a.path == b.path,
{
    if seq_char_lt(a.path, b.path) {
        lemma_seq_char_lt_asymmetric(a.path, b.path);
    }
    if seq_char_lt(a.name, b.name) {
        lemma_seq_char_lt_asymmetric(a.name, b.name);
    }
}

/// In a size-descending result the byte sizes never increase from one
/// record to the next.
pub proof fn lemma_size_descending(s: Seq<ItemContent>)
    requires
        spec_sorted(ListOrder::SizeDescending, s),
    ensures
        forall|i: int, j: int| 0 <= i <= j < s.len() ==> s[i].size_bytes >= s[j].size_bytes,
{
    assert forall|i: int, j: int| 0 <= i <= j < s.len() implies s[i].size_bytes
        >= s[j].size_bytes by {
        if i < j {
            assert(spec_le(ListOrder::SizeDescending, s[i], s[j]));
        }
    }
}

/// Compares two records under `order`.
pub fn item_le(order: ListOrder, a: &FileItem, b: &FileItem) -> (r: bool)
    ensures
        r == spec_le(order, spec_content(*a), spec_content(*b)),
{
    match order {
        ListOrder::SizeDescending => {
            if a.size_bytes > b.size_bytes {
                true
            } else if a.size_bytes == b.size_bytes {
                str_lt(a.path.as_str(), b.path.as_str()) || a.path == b.path
            } else {
                false
            }
        },
        ListOrder::DirectoriesFirst => {
            let dir_token = String::from_str("directory");
            let ad = a.item_type == dir_token;
            let bd = b.item_type == dir_token;
            if ad != bd {
                ad
            } else if !(a.name == b.name) {
                str_lt(a.name.as_str(), b.name.as_str())
            } else {
                str_lt(a.path.as_str(), b.path.as_str()) || a.path == b.path
            }
        },
    }
}

/// Inserting an element adds exactly it to a sequence's multiset.
proof fn lemma_insert_to_multiset<A>(s: Seq<A>, j: int, x: A)
    requires
        0 <= j <= s.len(),
    ensures
        s.insert(j, x).to_multiset() == s.to_multiset().insert(x),
{
    broadcast use vstd::seq_lib::group_to_multiset_ensures;

    Seq::<A>::empty().to_multiset_ensures();
    let left = s.subrange(0, j);
    let right = s.subrange(j, s.len() as int);
    assert(s.insert(j, x) =~= left + seq![x] + right);
    assert(s =~= left + right);
    vstd::seq_lib::lemma_multiset_commutative(left + seq![x], right);
    vstd::seq_lib::lemma_multiset_commutative(left, seq![x]);
    vstd::seq_lib::lemma_multiset_commutative(left, right);
    assert(seq![x] =~= Seq::<A>::empty().push(x));
    assert(seq![x].to_multiset() =~= Multiset::<A>::empty().insert(x));
    assert(s.insert(j, x).to_multiset() =~= s.to_multiset().insert(x));
}

/// A sorted front of length `n` stated over the whole sequence's indices.
proof fn lemma_sorted_to_range(order: ListOrder, s: Seq<ItemContent>, n: int)
    requires
        0 <= n <= s.len(),
        spec_sorted(order, s.subrange(0, n)),
    ensures
        forall|k1: int, k2: int| 0 <= k1 < k2 < n ==> spec_le(order, s[k1], s[k2]),
{
    let x = s.subrange(0, n);
    assert forall|k1: int, k2: int| 0 <= k1 < k2 < n implies spec_le(order, s[k1], s[k2]) by {
        assert(x[k1] == s[k1]);
        assert(x[k2] == s[k2]);
        assert(spec_le(order, x[k1], x[k2]));
    }
}

/// The converse: index-wise order of the front gives a sorted subrange.
proof fn lemma_range_to_sorted(order: ListOrder, s: Seq<ItemContent>, n: int)
    requires
        0 <= n <= s.len(),
        forall|k1: int, k2: int| 0 <= k1 < k2 < n ==> spec_le(order, s[k1], s[k2]),
    ensures
        spec_sorted(order, s.subrange(0, n)),
{
    let x = s.subrange(0, n);
    assert forall|k1: int, k2: int| 0 <= k1 < k2 < x.len() implies spec_le(order, x[k1], x[k2]) by {
        assert(x[k1] == s[k1]);
        assert(x[k2] == s[k2]);
    }
}

/// Sorts the records in place into the order `order` prescribes. The
/// result is a permutation of the input: no record is dropped, added or
/// rewritten, only moved.
pub fn sort_items(order: ListOrder, items: &mut Vec<FileItem>)
    ensures
        final(items)@.len() == old(items)@.len(),
        final(items)@.to_multiset() == old(items)@.to_multiset(),
        spec_sorted(order, spec_contents(final(items)@)),
{
    let mut i: usize = 1;
    if items.len() < 2 {
        proof {
            assert(spec_contents(items@) =~= spec_contents(items@).subrange(
                0,
                items@.len() as int,
            ));
        }
        return;
    }
    while i < items.len()
        invariant
            1 <= i <= items@.len(),
            items@.len() == old(items)@.len(),
            items@.to_multiset() == old(items)@.to_multiset(),
            spec_sorted(order, spec_contents(items@).subrange(0, i as int)),
        decreases items@.len() - i,
    {
        let ghost s = items@;
        let ghost cs = spec_contents(items@);
        let ghost ii = i as int;
        let mut j: usize = i;
        while j > 0 && !item_le(order, &items[j - 1], &items[i])
            invariant
                0 <= j <= i < items@.len(),
                items@ == s,
                cs == spec_contents(s),
                ii == i as int,
                spec_sorted(order, cs.subrange(0, ii)),
                forall|k: int| j <= k < i ==> spec_le(order, cs[ii], #[trigger] cs[k]),
            decreases j,
        {
            proof {
                lemma_le_connected(order, cs[j - 1], cs[ii]);
            }
            j -= 1;
        }
        let ghost ji = j as int;
        proof {
            lemma_sorted_to_range(order, cs, ii);
        }
        if j < i {
            let x = items.remove(i);
            items.insert(j, x);
            proof {
                s.to_multiset_ensures();
                assert(s.contains(s[ii]));
                assert(s.remove(ii).to_multiset() =~= s.to_multiset().remove(s[ii]));
                lemma_insert_to_multiset(s.remove(ii), ji, s[ii]);
                assert(s.to_multiset().contains(s[ii]));
                assert(items@.to_multiset() =~= s.to_multiset());
                let ns = items@;
                let ncs = spec_contents(ns);
                assert(forall|m: int| 0 <= m < ji ==> ns[m] == s[m]);
                assert(forall|m: int| ji < m <= ii ==> ns[m] == s[m - 1]);
                assert(ns[ji] == s[ii]);
                assert forall|k1: int, k2: int| 0 <= k1 < k2 < ii + 1 implies spec_le(
                    order,
                    ncs[k1],
                    ncs[k2],
                ) by {
                    if k1 < ji && k2 < ji {
                        assert(spec_le(order, cs[k1], cs[k2]));
                    } else if k2 == ji {
                        assert(k1 < ji);
                        assert(spec_le(order, cs[ji - 1], cs[ii]));
                        if k1 < ji - 1 {
                            assert(spec_le(order, cs[k1], cs[ji - 1]));
                            lemma_le_transitive(order, cs[k1], cs[ji - 1], cs[ii]);
                        }
                    } else if k1 == ji {
                        assert(ji < k2 <= ii);
                        assert(spec_le(order, cs[ii], cs[k2 - 1]));
                    } else if k1 < ji {
                        assert(ji < k2 <= ii);
                        assert(ji <= k2 - 1 < ii);
                        if k1 < k2 - 1 {
                            assert(spec_le(order, cs[k1], cs[k2 - 1]));
                        } else {
                            assert(k1 == k2 - 1);
                            assert(ncs[k2] == cs[k2 - 1]);
                            assert(ncs[k1] == cs[k1]);
                        }
                    } else {
                        assert(ji < k1 < k2 <= ii);
                        assert(spec_le(order, cs[k1 - 1], cs[k2 - 1]));
                    }
                }
                lemma_range_to_sorted(order, ncs, ii + 1);
                assert(ncs.subrange(0, ii + 1) =~= spec_contents(items@).subrange(0, ii + 1));
            }
        } else {
            proof {
                assert(j == i);
                assert(spec_le(order, cs[ii - 1], cs[ii]));
                assert forall|k1: int, k2: int| 0 <= k1 < k2 < ii + 1 implies spec_le(
                    order,
                    cs[k1],
                    cs[k2],
                ) by {
                    if k2 == ii && k1 < ii - 1 {
                        assert(spec_le(order, cs[k1], cs[ii - 1]));
                        lemma_le_transitive(order, cs[k1], cs[ii - 1], cs[ii]);
                    }
                }
                lemma_range_to_sorted(order, cs, ii + 1);
            }
        }
        i += 1;
    }
    proof {
        assert(spec_contents(items@).subrange(0, items@.len() as int) =~= spec_contents(items@));
    }
}

/// A permutation maps to a permutation: two sequences holding the same
/// elements still hold the same elements after `f` is applied to each.
pub proof fn lemma_map_values_to_multiset<A, B>(s1: Seq<A>, s2: Seq<A>, f: spec_fn(A) -> B)
    requires
        s1.to_multiset() == s2.to_multiset(),
    ensures
        s1.map_values(f).to_multiset() == s2.map_values(f).to_multiset(),
    decreases s1.len(),
{
    broadcast use vstd::multiset::group_multiset_axioms;

    s1.to_multiset_ensures();
    s2.to_multiset_ensures();
    if s1.len() == 0 {
        assert(s2.len() == 0);
        assert(s1.map_values(f) =~= s2.map_values(f));
    } else {
        let e = s1.last();
        assert(s1[s1.len() - 1] == e);
        assert(s1.contains(e));
        assert(s1.to_multiset().contains(e));
        assert(s2.to_multiset().contains(e));
        assert(s2.contains(e));
        let i = choose|i: int| 0 <= i < s2.len() && s2[i] == e;
        assert(s1.drop_last() =~= s1.remove(s1.len() - 1));
        assert(s1.remove(s1.len() - 1).to_multiset() =~= s1.to_multiset().remove(e));
        assert(s2.remove(i).to_multiset() =~= s2.to_multiset().remove(e));
        lemma_map_values_to_multiset(s1.drop_last(), s2.remove(i), f);
        let m1 = s1.map_values(f);
        let m2 = s2.map_values(f);
        let dm = s1.drop_last().map_values(f);
        m1.to_multiset_ensures();
        m2.to_multiset_ensures();
        dm.to_multiset_ensures();
        assert(m1 =~= dm.push(f(e)));
        assert(m1.to_multiset() =~= dm.to_multiset().insert(f(e)));
        assert(m2.remove(i) =~= s2.remove(i).map_values(f));
        assert(m2.remove(i).to_multiset() =~= m2.to_multiset().remove(m2[i]));
        assert(m2[i] == f(e));
        assert(m2.contains(m2[i]));
        assert(m2.to_multiset().contains(f(e)));
        assert(m1.to_multiset() =~= m2.to_multiset());
    }
}

/// A sorted result is uniquely determined by its set of records: two
/// sorted sequences holding the same records — with no two distinct
/// records sharing a path — are equal. This is what makes the tie-break
/// by path deterministic.
pub proof fn lemma_sorted_unique_by_path(order: ListOrder, s1: Seq<ItemContent>, s2: Seq<
    ItemContent,
>)
    requires
        spec_sorted(order, s1),
        spec_sorted(order, s2),
        s1.to_multiset() == s2.to_multiset(),
        forall|u: ItemContent, v: ItemContent|
            s1.to_multiset().contains(u) && s1.to_multiset().contains(v) && u.path == v.path
                ==> u == v,
    ensures
        s1 == s2,
    decreases s1.len(),
{
    broadcast use vstd::seq_lib::group_to_multiset_ensures;
    broadcast use vstd::multiset::group_multiset_axioms;

    if s1.len() == 0 || s2.len() == 0 {
        assert(s1.to_multiset().len() == s1.len());
        assert(s2.to_multiset().len() == s2.len());
        assert(s1 =~= s2);
    } else {
        assert(s1.to_multiset().contains(s1[0]));
        assert(s2.to_multiset().contains(s2[0]));
        assert(s2.contains(s1[0]));
        assert(s1.contains(s2[0]));
        let i = choose|i: int| 0 <= i < s2.len() && s2[i] == s1[0];
        let k = choose|k: int| 0 <= k < s1.len() && s1[k] == s2[0];
        if i > 0 {
            assert(spec_le(order, s2[0], s2[i]));
        }
        if k > 0 {
            assert(spec_le(order, s1[0], s1[k]));
        }
        assert(spec_le(order, s1[0], s2[0]) || s1[0] == s2[0]);
        assert(spec_le(order, s2[0], s1[0]) || s1[0] == s2[0]);
        if s1[0] != s2[0] {
            lemma_le_both_ways(order, s1[0], s2[0]);
            assert(s1[0] == s2[0]);
        }
        assert(s1.drop_first() =~= s1.remove(0));
        assert(s2.drop_first() =~= s2.remove(0));
        assert(s1.remove(0).to_multiset() =~= s1.to_multiset().remove(s1[0]));
        assert(s2.remove(0).to_multiset() =~= s2.to_multiset().remove(s2[0]));
        assert forall|u: ItemContent, v: ItemContent|
            s1.drop_first().to_multiset().contains(u) && s1.drop_first().to_multiset().contains(v)
                && u.path == v.path implies u == v by {
            assert(s1.to_multiset().contains(u));
            assert(s1.to_multiset().contains(v));
        }
        lemma_sorted_unique_by_path(order, s1.drop_first(), s2.drop_first());
        assert(s1 =~= s2) by {
            assert forall|m: int| 0 <= m < s1.len() implies s1[m] == s2[m] by {
                if m > 0 {
                    assert(s1[m] == s1.drop_first()[m - 1]);
                    assert(s2[m] == s2.drop_first()[m - 1]);
                }
            }
        }
    }
}

} // verus!
