//! The library's cross-function laws: building an ACL from a well-formed
//! entry list, storing it on a filesystem object and reading it back
//! yields the input entries again, up to translation normalization,
//! platform-defined reordering and mask synthesis.

use vstd::prelude::*;
use vstd::multiset::Multiset;
use vstd::seq_lib::lemma_multiset_commutative;

use crate::acl::read_entry_views;
use crate::acl::spec_read;
use crate::acl::spec_write;
use crate::acl::AclOption;
use crate::acl::AclView;
use crate::acl::FsView;
use crate::acl::NativeView;
use crate::builder::group_class_union;
use crate::builder::has_tag;
use crate::builder::insert_sorted;
use crate::builder::mac_collect;
use crate::builder::posix_collect;
use crate::builder::posix_required_missing;
use crate::builder::sel_match;
use crate::builder::sort_entries;
use crate::builder::spec_build_mac;
use crate::builder::spec_build_posix;
use crate::entry::EntryView;
use crate::native::mac_xlate;
use crate::native::posix_entry_view;
use crate::native::posix_xlate;
use crate::native::Platform;
use crate::native::PosixEntry;
use crate::native::PosixTag;

verus! {

broadcast use vstd::seq_lib::group_to_multiset_ensures;

/// True when no two native entries carry the same tag.
pub open spec fn distinct_tags(s: Seq<PosixEntry>) -> bool {
    forall|i: int, j: int| 0 <= i < j < s.len() ==> s[i].tag != s[j].tag
}

/// Entries with pairwise distinct tags show no repeated tag.
proof fn lemma_distinct_first_dup(v: Seq<PosixEntry>, n: int)
    requires
        distinct_tags(v),
        0 <= n <= v.len(),
    ensures
        crate::acl::posix_first_dup(v, n) is None,
    decreases n,
{
    if n > 0 {
        lemma_distinct_first_dup(v, n - 1);
        assert forall|k: int| 0 <= k < n - 1 implies (#[trigger] v.take(n - 1)[k]).tag != v[n
            - 1].tag by {
            assert(v.take(n - 1)[k] == v[k]);
        }
        assert(!has_tag(v.take(n - 1), v[n - 1].tag));
    }
}

/// Collected native entries carry pairwise distinct tags.
proof fn lemma_collect_distinct(entries: Seq<EntryView>, sel: Option<bool>, n: int)
    requires
        0 <= n,
        posix_collect(entries, sel, n) is Ok,
    ensures
        distinct_tags(posix_collect(entries, sel, n)->Ok_0),
    decreases n,
{
    if n > 0 {
        lemma_collect_distinct(entries, sel, n - 1);
        let prev = posix_collect(entries, sel, n - 1)->Ok_0;
        let cur = posix_collect(entries, sel, n)->Ok_0;
        if cur != prev {
            let pe = posix_xlate(entries[n - 1])->Ok_0;
            assert(!has_tag(prev, pe.tag));
            assert forall|i: int, j: int| 0 <= i < j < cur.len() implies cur[i].tag
                != cur[j].tag by {
                if j == cur.len() - 1 {
                    assert(cur[i] == prev[i]);
                    assert(!has_tag(prev, pe.tag));
                    assert(prev[i].tag != pe.tag);
                } else {
                    assert(cur[i] == prev[i] && cur[j] == prev[j]);
                }
            }
        }
    }
}

/// Every selected input entry translates and lands in the collection,
/// and everything in the collection came from a selected input entry.
proof fn lemma_collect_members(entries: Seq<EntryView>, sel: Option<bool>, n: int)
    requires
        0 <= n <= entries.len(),
        posix_collect(entries, sel, n) is Ok,
    ensures
        forall|i: int|
            0 <= i < n && sel_match(entries[i], sel) ==> (#[trigger] posix_xlate(entries[i]))
                is Ok && (posix_collect(entries, sel, n)->Ok_0).contains(
                posix_xlate(entries[i])->Ok_0,
            ),
        forall|pe: PosixEntry|
            (posix_collect(entries, sel, n)->Ok_0).contains(pe) ==> exists|i: int|
                0 <= i < n && sel_match(#[trigger] entries[i], sel) && posix_xlate(entries[i])
                    == Ok::<PosixEntry, crate::native::XlateErr>(pe),
    decreases n,
{
    if n > 0 {
        lemma_collect_members(entries, sel, n - 1);
        let prev = posix_collect(entries, sel, n - 1)->Ok_0;
        let cur = posix_collect(entries, sel, n)->Ok_0;
        if sel_match(entries[n - 1], sel) {
            let pe = posix_xlate(entries[n - 1])->Ok_0;
            assert(cur == prev.push(pe));
            assert(cur[cur.len() - 1] == pe);
            assert(cur.contains(pe));
            assert forall|i: int|
                0 <= i < n && sel_match(entries[i], sel) implies (#[trigger] posix_xlate(
                entries[i],
            )) is Ok && cur.contains(posix_xlate(entries[i])->Ok_0) by {
                if i < n - 1 {
                    let q = posix_xlate(entries[i])->Ok_0;
                    assert(prev.contains(q));
                    let k = choose|k: int| 0 <= k < prev.len() && prev[k] == q;
                    assert(cur[k] == q);
                }
            }
            assert forall|q: PosixEntry| cur.contains(q) implies exists|i: int|
                0 <= i < n && sel_match(#[trigger] entries[i], sel) && posix_xlate(entries[i])
                    == Ok::<PosixEntry, crate::native::XlateErr>(q) by {
                let k = choose|k: int| 0 <= k < cur.len() && cur[k] == q;
                if k < prev.len() {
                    assert(prev[k] == q);
                    assert(prev.contains(q));
                } else {
                    assert(q == pe);
                    assert(sel_match(entries[n - 1], sel) && posix_xlate(entries[n - 1]) == Ok::<
                        PosixEntry,
                        crate::native::XlateErr,
                    >(q));
                }
            }
        } else {
            assert(cur == prev);
        }
    }
}

/// Inserting keeps exactly the old entries plus the new one.
proof fn lemma_insert_sorted_multiset(e: PosixEntry, s: Seq<PosixEntry>)
    ensures
        insert_sorted(e, s).to_multiset() == s.to_multiset().insert(e),
    decreases s.len(),
{
    if s.len() > 0 && crate::builder::key_lt(s[0], e) {
        lemma_insert_sorted_multiset(e, s.drop_first());
        let rest = insert_sorted(e, s.drop_first());
        lemma_multiset_commutative(seq![s[0]], rest);
        assert(seq![s[0]] + rest == insert_sorted(e, s));
        assert(Seq::<PosixEntry>::empty().push(s[0]) =~= seq![s[0]]);
        assert(seq![s[0]].to_multiset() =~= Multiset::<PosixEntry>::empty().insert(s[0]));
        lemma_multiset_commutative(seq![s[0]], s.drop_first());
        assert(seq![s[0]] + s.drop_first() =~= s);
        assert(insert_sorted(e, s).to_multiset() =~= s.to_multiset().insert(e));
    } else {
        lemma_multiset_commutative(seq![e], s);
        assert(seq![e] + s == insert_sorted(e, s));
        assert(Seq::<PosixEntry>::empty().push(e) =~= seq![e]);
        assert(seq![e].to_multiset() =~= Multiset::<PosixEntry>::empty().insert(e));
        assert(insert_sorted(e, s).to_multiset() =~= s.to_multiset().insert(e));
    }
}

/// Sorting keeps exactly the same entries.
proof fn lemma_sort_multiset(s: Seq<PosixEntry>)
    ensures
        sort_entries(s).to_multiset() == s.to_multiset(),
    decreases s.len(),
{
    if s.len() > 0 {
        lemma_sort_multiset(s.drop_last());
        lemma_insert_sorted_multiset(s.last(), sort_entries(s.drop_last()));
        assert(s.drop_last().push(s.last()) =~= s);
    }
}

/// A duplicate-free entry list rearranged never repeats a value.
proof fn lemma_rearranged_values_distinct(a: Seq<PosixEntry>, b: Seq<PosixEntry>, i: int, j: int)
    requires
        a.to_multiset() == b.to_multiset(),
        distinct_tags(a),
        0 <= i < j < b.len(),
    ensures
        b[i] != b[j],
{
    broadcast use vstd::seq_lib::group_to_multiset_ensures;

    if b[i] == b[j] {
        let b2 = b.remove(j);
        assert(b2.to_multiset() == b.to_multiset().remove(b[j]));
        assert(b2[i] == b[i]);
        assert(b2.contains(b[i]));
        assert(b2.to_multiset().count(b[i]) > 0);
        assert(b.to_multiset().count(b[i]) >= 2);
        assert(a.to_multiset().count(b[i]) >= 2);
        assert(a.contains(b[i])) by {
            assert(a.to_multiset().count(b[i]) > 0);
        }
        let k = choose|k: int| 0 <= k < a.len() && a[k] == b[i];
        assert(a.remove(k).to_multiset() == a.to_multiset().remove(a[k]));
        assert(a.remove(k).to_multiset().count(b[i]) >= 1);
        assert(a.remove(k).contains(b[i]));
        let k2 = choose|k2: int| 0 <= k2 < a.remove(k).len() && a.remove(k)[k2] == b[i];
        if k2 < k {
            assert(a[k2] == b[i]);
            assert(a[k2].tag == a[k].tag);
        } else {
            assert(a[k2 + 1] == b[i]);
            assert(a[k2 + 1].tag == a[k].tag);
        }
    }
}

/// A multiset-preserving rearrangement keeps membership, tag presence
/// and tag distinctness.
proof fn lemma_multiset_contains(a: Seq<PosixEntry>, b: Seq<PosixEntry>)
    requires
        a.to_multiset() == b.to_multiset(),
    ensures
        forall|pe: PosixEntry| a.contains(pe) <==> b.contains(pe),
        forall|t: PosixTag| has_tag(a, t) <==> has_tag(b, t),
        distinct_tags(a) ==> distinct_tags(b),
{
    assert forall|pe: PosixEntry| a.contains(pe) <==> b.contains(pe) by {
        vstd::seq_lib::to_multiset_contains(a, pe);
        vstd::seq_lib::to_multiset_contains(b, pe);
        assert(a.to_multiset().count(pe) == b.to_multiset().count(pe));
    }
    assert forall|t: PosixTag| has_tag(a, t) <==> has_tag(b, t) by {
        if has_tag(a, t) {
            let i = choose|i: int| 0 <= i < a.len() && a[i].tag == t;
            assert(a.contains(a[i]));
            assert(b.contains(a[i]));
            let j = choose|j: int| 0 <= j < b.len() && b[j] == a[i];
            assert(has_tag(b, t));
        }
        if has_tag(b, t) {
            let i = choose|i: int| 0 <= i < b.len() && b[i].tag == t;
            assert(b.contains(b[i]));
            assert(a.contains(b[i]));
            let j = choose|j: int| 0 <= j < a.len() && a[j] == b[i];
            assert(has_tag(a, t));
        }
    }
    if distinct_tags(a) {
        assert forall|i: int, j: int| 0 <= i < j < b.len() implies b[i].tag != b[j].tag by {
            a.to_multiset_ensures();
            b.to_multiset_ensures();
            lemma_rearranged_values_distinct(a, b, i, j);
            assert(a.contains(b[i]));
            assert(a.contains(b[j]));
            let ki = choose|k: int| 0 <= k < a.len() && a[k] == b[i];
            let kj = choose|k: int| 0 <= k < a.len() && a[k] == b[j];
            if ki != kj {
            } else {
                assert(b[i] == b[j]);
            }
        }
    }
}

/// A built class-model ACL passes the structural check of the write
/// path: distinct tags, the required entries, and a mask entry.
proof fn lemma_built_acl_checks(entries: Seq<EntryView>, sorted: bool)
    requires
        entries.len() > 0,
        spec_build_posix(entries, Option::None, sorted) is Ok,
        (spec_build_posix(entries, Option::None, sorted)->Ok_0).len() > 0,
    ensures
        crate::acl::posix_check_msg(spec_build_posix(entries, Option::None, sorted)->Ok_0)
            is None,
{
    let c = posix_collect(entries, Option::None, entries.len() as int)->Ok_0;
    lemma_collect_distinct(entries, Option::None, entries.len() as int);
    assert(posix_required_missing(c) is None);
    let s2 = if has_tag(c, PosixTag::Mask) {
        c
    } else {
        c.push(PosixEntry { tag: PosixTag::Mask, perm: group_class_union(c) })
    };
    assert(distinct_tags(s2)) by {
        if !has_tag(c, PosixTag::Mask) {
            assert forall|i: int, j: int| 0 <= i < j < s2.len() implies s2[i].tag != s2[j].tag by {
                if j == s2.len() - 1 {
                    assert(s2[i] == c[i]);
                    assert(c[i].tag != PosixTag::Mask);
                } else {
                    assert(s2[i] == c[i] && s2[j] == c[j]);
                }
            }
        }
    }
    assert(has_tag(s2, PosixTag::Mask)) by {
        if !has_tag(c, PosixTag::Mask) {
            assert(s2[s2.len() - 1].tag == PosixTag::Mask);
        }
    }
    assert(has_tag(s2, PosixTag::UserObj) && has_tag(s2, PosixTag::GroupObj) && has_tag(
        s2,
        PosixTag::Other,
    )) by {
        assert forall|t: PosixTag| has_tag(c, t) implies has_tag(s2, t) by {
            let i = choose|i: int| 0 <= i < c.len() && c[i].tag == t;
            assert(s2[i].tag == t);
        }
    }
    let fin = spec_build_posix(entries, Option::None, sorted)->Ok_0;
    if sorted {
        lemma_sort_multiset(s2);
        lemma_multiset_contains(s2, fin);
    }
    lemma_distinct_first_dup(fin, fin.len() as int);
}

/// Building a class-model ACL from a non-empty well-formed entry list,
/// writing it to a filesystem object and reading it back yields exactly
/// the translated input entries — plus the synthesized mask entry when
/// the input supplied none. On canonical-order storage the entries come
/// back reordered; membership is preserved both ways. An empty input is
/// excluded: an empty access ACL cannot be written.
pub proof fn lemma_build_write_read_round_trip(
    platform: Platform,
    entries: Seq<EntryView>,
    o: FsView,
)
    requires
        platform.spec_is_posix(),
        o.access is Posix,
        entries.len() > 0,
        spec_build_posix(entries, Option::None, platform == Platform::Linux) is Ok,
    ensures
        ({
            let s = spec_build_posix(entries, Option::None, platform == Platform::Linux)->Ok_0;
            let a = AclView { native: NativeView::Posix(s), default_acl: false };
            let c = posix_collect(entries, Option::None, entries.len() as int)->Ok_0;
            &&& spec_write(a, o, AclOption::spec_empty()) is Ok
            &&& spec_read(
                spec_write(a, o, AclOption::spec_empty())->Ok_0,
                AclOption::spec_empty(),
            ) == Ok::<AclView, (crate::error::ErrorKind, Seq<char>)>(a)
            &&& forall|i: int|
                0 <= i < entries.len() ==> (#[trigger] posix_xlate(entries[i])) is Ok
                    && read_entry_views(a).contains(
                    posix_entry_view(posix_xlate(entries[i])->Ok_0, false),
                )
            &&& forall|ev: EntryView|
                read_entry_views(a).contains(ev) ==> (exists|i: int|
                    0 <= i < entries.len() && posix_xlate(#[trigger] entries[i]) is Ok && ev
                        == posix_entry_view(posix_xlate(entries[i])->Ok_0, false)) || ev
                    == posix_entry_view(
                    PosixEntry { tag: PosixTag::Mask, perm: group_class_union(c) },
                    false,
                )
        }),
{
    let sorted = platform == Platform::Linux;
    let n = entries.len() as int;
    let c = posix_collect(entries, Option::None, n)->Ok_0;
    let s = spec_build_posix(entries, Option::None, sorted)->Ok_0;
    let a = AclView { native: NativeView::Posix(s), default_acl: false };
    lemma_collect_members(entries, Option::None, n);
    assert(c.len() > 0) by {
        assert(sel_match(entries[0], Option::None));
        assert(c.contains(posix_xlate(entries[0])->Ok_0));
    }
    let s2 = if has_tag(c, PosixTag::Mask) {
        c
    } else {
        c.push(PosixEntry { tag: PosixTag::Mask, perm: group_class_union(c) })
    };
    assert(s.len() > 0) by {
        if sorted {
            lemma_sort_multiset(s2);
            s2.to_multiset_ensures();
            s.to_multiset_ensures();
        }
    }
    lemma_built_acl_checks(entries, sorted);
    assert(spec_write(a, o, AclOption::spec_empty()) is Ok);
    let o2 = spec_write(a, o, AclOption::spec_empty())->Ok_0;
    assert(spec_read(o2, AclOption::spec_empty()) == Ok::<
        AclView,
        (crate::error::ErrorKind, Seq<char>),
    >(a));
    if sorted {
        lemma_sort_multiset(s2);
        lemma_multiset_contains(s2, s);
    }
    assert(forall|pe: PosixEntry| s2.contains(pe) <==> s.contains(pe));
    assert forall|pe: PosixEntry| c.contains(pe) implies s2.contains(pe) by {
        let i = choose|i: int| 0 <= i < c.len() && c[i] == pe;
        assert(s2[i] == pe);
    }
    assert forall|pe: PosixEntry| s2.contains(pe) implies c.contains(pe) || pe == (PosixEntry {
        tag: PosixTag::Mask,
        perm: group_class_union(c),
    }) by {
        let i = choose|i: int| 0 <= i < s2.len() && s2[i] == pe;
        if i < c.len() {
            assert(c[i] == pe);
        }
    }
    let rv = read_entry_views(a);
    assert forall|pe: PosixEntry| s.contains(pe) implies rv.contains(
        posix_entry_view(pe, false),
    ) by {
        let i = choose|i: int| 0 <= i < s.len() && s[i] == pe;
        assert(rv[i] == posix_entry_view(pe, false));
    }
    assert forall|i: int| 0 <= i < entries.len() implies (#[trigger] posix_xlate(entries[i])) is Ok
        && rv.contains(posix_entry_view(posix_xlate(entries[i])->Ok_0, false)) by {
        assert(sel_match(entries[i], Option::None));
        let pe = posix_xlate(entries[i])->Ok_0;
        assert(c.contains(pe));
        assert(s2.contains(pe));
        assert(s.contains(pe));
    }
    assert forall|ev: EntryView| rv.contains(ev) implies (exists|i: int|
        0 <= i < entries.len() && posix_xlate(#[trigger] entries[i]) is Ok && ev
            == posix_entry_view(posix_xlate(entries[i])->Ok_0, false)) || ev == posix_entry_view(
        PosixEntry { tag: PosixTag::Mask, perm: group_class_union(c) },
        false,
    ) by {
        let k = choose|k: int| 0 <= k < rv.len() && rv[k] == ev;
        assert(ev == posix_entry_view(s[k], false));
        assert(s.contains(s[k]));
        assert(s2.contains(s[k]));
        if c.contains(s[k]) {
            let i = choose|i: int|
                0 <= i < n && sel_match(entries[i], Option::None) && posix_xlate(entries[i])
                    == Ok::<PosixEntry, crate::native::XlateErr>(s[k]);
            assert(posix_xlate(entries[i]) is Ok && ev == posix_entry_view(
                posix_xlate(entries[i])->Ok_0,
                false,
            ));
        }
    }
}

/// The collected richer-model entries are the translations of the
/// inputs, in order.
proof fn lemma_mac_collect_index(entries: Seq<EntryView>, n: int)
    requires
        0 <= n,
        mac_collect(entries, n) is Ok,
    ensures
        (mac_collect(entries, n)->Ok_0).len() == n,
        forall|i: int|
            0 <= i < n ==> (#[trigger] mac_xlate(entries[i])) is Ok && (mac_collect(
                entries,
                n,
            )->Ok_0)[i] == mac_xlate(entries[i])->Ok_0,
    decreases n,
{
    if n > 0 {
        lemma_mac_collect_index(entries, n - 1);
    }
}

/// The richer-model counterpart: building from a well-formed entry list,
/// writing and reading back yields exactly the translated input entries,
/// in input order, with no mask synthesis and no reordering.
pub proof fn lemma_build_write_read_round_trip_rich(entries: Seq<EntryView>, o: FsView)
    requires
        o.access is Mac,
        spec_build_mac(entries) is Ok,
    ensures
        ({
            let s = spec_build_mac(entries)->Ok_0;
            let a = AclView { native: NativeView::Mac(s), default_acl: false };
            &&& spec_write(a, o, AclOption::spec_empty()) is Ok
            &&& spec_read(
                spec_write(a, o, AclOption::spec_empty())->Ok_0,
                AclOption::spec_empty(),
            ) == Ok::<AclView, (crate::error::ErrorKind, Seq<char>)>(a)
            &&& read_entry_views(a).len() == entries.len()
            &&& forall|i: int|
                0 <= i < entries.len() ==> (#[trigger] mac_xlate(entries[i])) is Ok
                    && read_entry_views(a)[i] == crate::acl::mac_read_view(
                    mac_xlate(entries[i])->Ok_0,
                    false,
                )
        }),
{
    lemma_mac_collect_index(entries, entries.len() as int);
}

} // verus!
