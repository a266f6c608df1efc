//! The ACL builder: turns an ordered list of portable entries into one
//! native ACL, enforcing the structural invariants.
//!
//! On POSIX.1e-class platforms the builder rejects duplicate entries,
//! requires the owning-user, owning-group and other entries on any
//! non-empty input, and synthesizes the mask entry (the union of every
//! group-class permission set) when none was supplied. Canonical-order
//! storage sorts by kind precedence then qualifier; insertion-order
//! storage appends a synthesized mask at the end. On the richer model the
//! builder enforces the capacity bound and duplicate detection only.

use vstd::prelude::*;

use crate::entry::AclEntry;
use crate::entry::AclKind;
use crate::entry::EntryView;
use crate::error::AclError;
use crate::error::ErrorKind;
use crate::native::mac_xlate;
use crate::native::posix_xlate;
use crate::native::xlate_mac;
use crate::native::xlate_posix;
use crate::native::MacEntry;
use crate::native::PosixEntry;
use crate::native::PosixTag;
use crate::native::XlateErr;
use crate::numtext::dec_chars;
use crate::numtext::dec_string_u32;
use crate::perm::Perm;

verus! {

/// The richer model's fixed capacity: one native ACL holds at most this
/// many entries.
pub const MAX_RICH_ENTRIES: usize = 128;

/// The views of a list of portable entries.
pub open spec fn entry_views(s: Seq<AclEntry>) -> Seq<EntryView> {
    s.map_values(|e: AclEntry| e@)
}

/// Why a build failed, with the input position that failed.
pub enum BuildErr {
    /// Entry `idx` could not be translated to a native entry.
    Xlate { idx: int, err: XlateErr },
    /// Entry `idx` repeats the kind and qualifier of an earlier entry.
    Dup { idx: int, kind: AclKind },
    /// A required class entry is absent from a non-empty input.
    Missing { kind: AclKind },
    /// The input exceeds the platform's supported entry count.
    TooMany,
}

/// The error class a build failure is reported as.
pub open spec fn build_err_kind(be: BuildErr) -> ErrorKind {
    match be {
        BuildErr::TooMany => ErrorKind::CapacityExceeded,
        _ => ErrorKind::Validation,
    }
}

/// The word naming an entry kind inside error messages.
pub open spec fn kind_word(k: AclKind) -> Seq<char> {
    match k {
        AclKind::User => "user"@,
        AclKind::Group => "group"@,
        AclKind::Mask => "mask"@,
        AclKind::Other => "other"@,
        AclKind::Everyone => "everyone"@,
    }
}

/// The message naming why one entry failed translation.
pub open spec fn xlate_msg(e: EntryView, x: XlateErr) -> Seq<char> {
    match x {
        XlateErr::UnsupportedKind => "unsupported entry kind \""@ + kind_word(e.kind) + "\""@,
        XlateErr::DenyNotSupported => "deny entries are not supported on this platform"@,
        XlateErr::UnexpectedQualifier => "unexpected qualifier \""@ + e.name + "\""@,
        XlateErr::UnknownUser => "unknown user name \""@ + e.name + "\""@,
        XlateErr::UnknownGroup => "unknown group name \""@ + e.name + "\""@,
    }
}

/// The full message of a build failure. With `dflt_words`, the messages
/// of the default half of a split build say "default entry".
pub open spec fn build_err_msg(entries: Seq<EntryView>, be: BuildErr, dflt_words: bool) -> Seq<
    char,
> {
    match be {
        BuildErr::Xlate { idx, err } => "entry "@ + dec_chars(idx as nat) + ": "@ + xlate_msg(
            entries[idx],
            err,
        ),
        BuildErr::Dup { idx, kind } => "entry "@ + dec_chars(idx as nat) + ": duplicate "@ + (
        if dflt_words {
            "default "@
        } else {
            Seq::<char>::empty()
        }) + "entry for \""@ + kind_word(kind) + "\""@,
        BuildErr::Missing { kind } => "missing required "@ + (if dflt_words {
            "default "@
        } else {
            Seq::<char>::empty()
        }) + "entry \""@ + kind_word(kind) + "\""@,
        BuildErr::TooMany => "Too many ACL entries"@,
    }
}

/// Whether an entry takes part in this build: all entries, or only those
/// whose default-ACL marker matches the requested half of a split build.
pub open spec fn sel_match(e: EntryView, sel: Option<bool>) -> bool {
    match sel {
        Option::None => true,
        Option::Some(want) => e.flags.is_default == want,
    }
}

/// True when some native entry in `s` carries tag `t`.
pub open spec fn has_tag(s: Seq<PosixEntry>, t: PosixTag) -> bool {
    exists|i: int| 0 <= i < s.len() && (#[trigger] s[i]).tag == t
}

/// The translated native entries of the first `n` input entries, or the
/// first failure: a translation error or a duplicate tag.
pub open spec fn posix_collect(entries: Seq<EntryView>, sel: Option<bool>, n: int) -> Result<
    Seq<PosixEntry>,
    BuildErr,
>
    decreases n,
{
    if n <= 0 {
        Ok(Seq::empty())
    } else {
        match posix_collect(entries, sel, n - 1) {
            Err(b) => Err(b),
            Ok(acc) => {
                let e = entries[n - 1];
                if !sel_match(e, sel) {
                    Ok(acc)
                } else {
                    match posix_xlate(e) {
                        Err(x) => Err(BuildErr::Xlate { idx: n - 1, err: x }),
                        Ok(pe) => if has_tag(acc, pe.tag) {
                            Err(BuildErr::Dup { idx: n - 1, kind: e.kind })
                        } else {
                            Ok(acc.push(pe))
                        },
                    }
                }
            },
        }
    }
}

/// Once translation has failed, collecting further entries fails the same
/// way.
pub proof fn lemma_posix_collect_err(entries: Seq<EntryView>, sel: Option<bool>, n: int, m: int)
    requires
        0 <= n <= m,
        posix_collect(entries, sel, n) is Err,
    ensures
        posix_collect(entries, sel, m) == posix_collect(entries, sel, n),
    decreases m - n,
{
    if m > n {
        lemma_posix_collect_err(entries, sel, n, m - 1);
    }
}

/// Once translation has failed, collecting further entries fails the same
/// way.
pub proof fn lemma_mac_collect_err(entries: Seq<EntryView>, n: int, m: int)
    requires
        0 <= n <= m,
        mac_collect(entries, n) is Err,
    ensures
        mac_collect(entries, m) == mac_collect(entries, n),
    decreases m - n,
{
    if m > n {
        lemma_mac_collect_err(entries, n, m - 1);
    }
}

/// The first required class entry absent from `s`, checked in the order
/// owning user, owning group, other.
pub open spec fn posix_required_missing(s: Seq<PosixEntry>) -> Option<AclKind> {
    if !has_tag(s, PosixTag::UserObj) {
        Some(AclKind::User)
    } else if !has_tag(s, PosixTag::GroupObj) {
        Some(AclKind::Group)
    } else if !has_tag(s, PosixTag::Other) {
        Some(AclKind::Other)
    } else {
        None
    }
}

/// True for the tags whose permissions the POSIX.1e mask caps: named
/// users, named groups and the owning group.
pub open spec fn is_group_class(t: PosixTag) -> bool {
    match t {
        PosixTag::User(_) => true,
        PosixTag::Group(_) => true,
        PosixTag::GroupObj => true,
        _ => false,
    }
}

/// The union of every group-class permission set in `s`: the permissions
/// of a synthesized mask entry.
pub open spec fn group_class_union(s: Seq<PosixEntry>) -> Perm
    decreases s.len(),
{
    if s.len() == 0 {
        Perm { read: false, write: false, execute: false }
    } else {
        group_class_union(s.drop_last()).spec_union(
            if is_group_class(s.last().tag) {
                s.last().perm
            } else {
                Perm { read: false, write: false, execute: false }
            },
        )
    }
}

/// The canonical sort key of a native entry: kind precedence, then the
/// numeric qualifier.
pub open spec fn tag_rank(t: PosixTag) -> int {
    match t {
        PosixTag::UserObj => 0,
        PosixTag::User(_) => 1,
        PosixTag::GroupObj => 2,
        PosixTag::Group(_) => 3,
        PosixTag::Mask => 4,
        PosixTag::Other => 5,
    }
}

/// The numeric qualifier part of the canonical sort key.
pub open spec fn tag_id(t: PosixTag) -> int {
    match t {
        PosixTag::User(id) => id as int,
        PosixTag::Group(id) => id as int,
        _ => 0,
    }
}

/// Strict canonical order between two native entries.
pub open spec fn key_lt(a: PosixEntry, b: PosixEntry) -> bool {
    tag_rank(a.tag) < tag_rank(b.tag) || (tag_rank(a.tag) == tag_rank(b.tag) && tag_id(a.tag)
        < tag_id(b.tag))
}

/// The canonical kind precedence of the portable model carries over to
/// the native sort key: a translated entry sorts by its portable rank.
pub proof fn lemma_rank_carries_over(e: EntryView)
    requires
        posix_xlate(e) is Ok,
    ensures
        tag_rank((posix_xlate(e)->Ok_0).tag) == e.rank(),
{
}

/// `e` inserted in front of the first element of `s` not below it.
pub open spec fn insert_sorted(e: PosixEntry, s: Seq<PosixEntry>) -> Seq<PosixEntry>
    decreases s.len(),
{
    if s.len() > 0 && key_lt(s[0], e) {
        seq![s[0]] + insert_sorted(e, s.drop_first())
    } else {
        seq![e] + s
    }
}

/// `s` sorted into canonical order by repeated insertion.
pub open spec fn sort_entries(s: Seq<PosixEntry>) -> Seq<PosixEntry>
    decreases s.len(),
{
    if s.len() == 0 {
        Seq::empty()
    } else {
        insert_sorted(s.last(), sort_entries(s.drop_last()))
    }
}

/// What building a POSIX.1e native ACL from a list of portable entries
/// yields. An empty selection builds an empty ACL; a non-empty one must
/// contain the three required class entries, and receives a synthesized
/// mask when none was supplied. With `sorted`, native storage holds the
/// entries in canonical order; otherwise in input order, a synthesized
/// mask last.
pub open spec fn spec_build_posix(
    entries: Seq<EntryView>,
    sel: Option<bool>,
    sorted: bool,
) -> Result<Seq<PosixEntry>, BuildErr> {
    match posix_collect(entries, sel, entries.len() as int) {
        Err(b) => Err(b),
        Ok(s) => if s.len() == 0 {
            Ok(s)
        } else {
            match posix_required_missing(s) {
                Some(k) => Err(BuildErr::Missing { kind: k }),
                None => {
                    let s2 = if has_tag(s, PosixTag::Mask) {
                        s
                    } else {
                        s.push(PosixEntry { tag: PosixTag::Mask, perm: group_class_union(s) })
                    };
                    Ok(
                        if sorted {
                            sort_entries(s2)
                        } else {
                            s2
                        },
                    )
                },
            }
        },
    }
}

/// True when some native entry in `s` carries the identifier `g`.
pub open spec fn has_guid(s: Seq<MacEntry>, g: u128) -> bool {
    exists|i: int| 0 <= i < s.len() && (#[trigger] s[i]).guid == g
}

/// The translated richer-model entries of the first `n` input entries,
/// or the first failure.
pub open spec fn mac_collect(entries: Seq<EntryView>, n: int) -> Result<Seq<MacEntry>, BuildErr>
    decreases n,
{
    if n <= 0 {
        Ok(Seq::empty())
    } else {
        match mac_collect(entries, n - 1) {
            Err(b) => Err(b),
            Ok(acc) => {
                let e = entries[n - 1];
                match mac_xlate(e) {
                    Err(x) => Err(BuildErr::Xlate { idx: n - 1, err: x }),
                    Ok(me) => if has_guid(acc, me.guid) {
                        Err(BuildErr::Dup { idx: n - 1, kind: e.kind })
                    } else {
                        Ok(acc.push(me))
                    },
                }
            },
        }
    }
}

/// What building a richer-model native ACL yields: the capacity bound is
/// checked first, then the entries are translated in input order with
/// duplicate detection; no mask synthesis and no required entries.
pub open spec fn spec_build_mac(entries: Seq<EntryView>) -> Result<Seq<MacEntry>, BuildErr> {
    if entries.len() > MAX_RICH_ENTRIES {
        Err(BuildErr::TooMany)
    } else {
        mac_collect(entries, entries.len() as int)
    }
}

/// The word naming an entry kind inside error messages.
pub fn kind_word_of(k: AclKind) -> (r: &'static str)
    ensures
        r@ == kind_word(k),
{
    match k {
        AclKind::User => "user",
        AclKind::Group => "group",
        AclKind::Mask => "mask",
        AclKind::Other => "other",
        AclKind::Everyone => "everyone",
    }
}

/// The message of a translation failure at input position `idx`.
fn msg_xlate(idx: usize, e: &AclEntry, x: XlateErr) -> (r: String)
    ensures
        r@ == "entry "@ + dec_chars(idx as nat) + ": "@ + xlate_msg(e@, x),
{
    let mut s = String::from_str("entry ");
    let d = dec_string_u32_ext(idx);
    s.append(d.as_str());
    s.append(": ");
    match x {
        XlateErr::UnsupportedKind => {
            s.append("unsupported entry kind \"");
            s.append(kind_word_of(e.kind));
            s.append("\"");
        },
        XlateErr::DenyNotSupported => {
            s.append("deny entries are not supported on this platform");
        },
        XlateErr::UnexpectedQualifier => {
            s.append("unexpected qualifier \"");
            s.append(e.name.as_str());
            s.append("\"");
        },
        XlateErr::UnknownUser => {
            s.append("unknown user name \"");
            s.append(e.name.as_str());
            s.append("\"");
        },
        XlateErr::UnknownGroup => {
            s.append("unknown group name \"");
            s.append(e.name.as_str());
            s.append("\"");
        },
    }
    s
}

/// The decimal text of an input position.
fn dec_string_u32_ext(idx: usize) -> (r: String)
    ensures
        r@ == dec_chars(idx as nat),
{
    let mut v: Vec<u8> = Vec::new();
    crate::numtext::push_dec_u64(&mut v, idx as u64);
    proof {
        crate::numtext::lemma_dec_bytes_round_trip(idx as nat);
        assert(v@ =~= crate::numtext::dec_bytes(idx as nat));
    }
    crate::numtext::ascii_to_string(v)
}

/// The message of a duplicate entry at input position `idx`.
fn msg_dup(idx: usize, kind: AclKind, dflt_words: bool) -> (r: String)
    ensures
        r@ == "entry "@ + dec_chars(idx as nat) + ": duplicate "@ + (if dflt_words {
            "default "@
        } else {
            Seq::<char>::empty()
        }) + "entry for \""@ + kind_word(kind) + "\""@,
{
    let mut s = String::from_str("entry ");
    let d = dec_string_u32_ext(idx);
    s.append(d.as_str());
    s.append(": duplicate ");
    if dflt_words {
        s.append("default ");
    } else {
        proof {
            assert(s@ + Seq::<char>::empty() =~= s@);
        }
    }
    s.append("entry for \"");
    s.append(kind_word_of(kind));
    s.append("\"");
    s
}

/// The message of a missing required class entry.
fn msg_missing(kind: AclKind, dflt_words: bool) -> (r: String)
    ensures
        r@ == "missing required "@ + (if dflt_words {
            "default "@
        } else {
            Seq::<char>::empty()
        }) + "entry \""@ + kind_word(kind) + "\""@,
{
    let mut s = String::from_str("missing required ");
    if dflt_words {
        s.append("default ");
    } else {
        proof {
            assert(s@ + Seq::<char>::empty() =~= s@);
        }
    }
    s.append("entry \"");
    s.append(kind_word_of(kind));
    s.append("\"");
    s
}

/// The kind a native tag belongs to, for messages about native entries.
pub open spec fn tag_kind(t: PosixTag) -> AclKind {
    match t {
        PosixTag::UserObj => AclKind::User,
        PosixTag::User(_) => AclKind::User,
        PosixTag::GroupObj => AclKind::Group,
        PosixTag::Group(_) => AclKind::Group,
        PosixTag::Mask => AclKind::Mask,
        PosixTag::Other => AclKind::Other,
    }
}

/// The word naming a native tag's kind inside error messages.
pub fn kind_word_of_tag(t: PosixTag) -> (r: &'static str)
    ensures
        r@ == kind_word(tag_kind(t)),
{
    match t {
        PosixTag::UserObj => "user",
        PosixTag::User(_) => "user",
        PosixTag::GroupObj => "group",
        PosixTag::Group(_) => "group",
        PosixTag::Mask => "mask",
        PosixTag::Other => "other",
    }
}

/// True when some native entry of `v` carries tag `t`.
pub fn find_tag(v: &Vec<PosixEntry>, t: PosixTag) -> (r: bool)
    ensures
        r == has_tag(v@, t),
{
    let mut i: usize = 0;
    while i < v.len()
        invariant
            0 <= i <= v@.len(),
            forall|k: int| 0 <= k < i ==> (#[trigger] v@[k]).tag != t,
        decreases v@.len() - i,
    {
        if v[i].tag == t {
            return true;
        }
        i = i + 1;
    }
    false
}

/// True when some native entry of `v` carries identifier `g`.
fn find_guid(v: &Vec<MacEntry>, g: u128) -> (r: bool)
    ensures
        r == has_guid(v@, g),
{
    let mut i: usize = 0;
    while i < v.len()
        invariant
            0 <= i <= v@.len(),
            forall|k: int| 0 <= k < i ==> (#[trigger] v@[k]).guid != g,
        decreases v@.len() - i,
    {
        if v[i].guid == g {
            return true;
        }
        i = i + 1;
    }
    false
}

/// Strict canonical order between two native entries, as `key_lt` states.
fn entry_lt(a: &PosixEntry, b: &PosixEntry) -> (r: bool)
    ensures
        r == key_lt(*a, *b),
{
    let ra: u32 = match a.tag {
        PosixTag::UserObj => 0,
        PosixTag::User(_) => 1,
        PosixTag::GroupObj => 2,
        PosixTag::Group(_) => 3,
        PosixTag::Mask => 4,
        PosixTag::Other => 5,
    };
    let rb: u32 = match b.tag {
        PosixTag::UserObj => 0,
        PosixTag::User(_) => 1,
        PosixTag::GroupObj => 2,
        PosixTag::Group(_) => 3,
        PosixTag::Mask => 4,
        PosixTag::Other => 5,
    };
    let ia: u32 = match a.tag {
        PosixTag::User(id) => id,
        PosixTag::Group(id) => id,
        _ => 0,
    };
    let ib: u32 = match b.tag {
        PosixTag::User(id) => id,
        PosixTag::Group(id) => id,
        _ => 0,
    };
    ra < rb || (ra == rb && ia < ib)
}

/// `insert_sorted` splits at the first position whose entry is not below
/// `e`.
proof fn lemma_insert_sorted_split(e: PosixEntry, s: Seq<PosixEntry>, p: int)
    requires
        0 <= p <= s.len(),
        forall|i: int| 0 <= i < p ==> key_lt(#[trigger] s[i], e),
        p < s.len() ==> !key_lt(s[p], e),
    ensures
        insert_sorted(e, s) == s.take(p) + seq![e] + s.skip(p),
    decreases p,
{
    if p == 0 {
        assert(insert_sorted(e, s) =~= s.take(0) + seq![e] + s.skip(0));
    } else {
        lemma_insert_sorted_split(e, s.drop_first(), p - 1);
        assert(s.drop_first().take(p - 1) =~= s.take(p).drop_first());
        assert(s.drop_first().skip(p - 1) =~= s.skip(p));
        assert(insert_sorted(e, s) =~= s.take(p) + seq![e] + s.skip(p));
    }
}

/// Inserts `e` at its canonical position.
fn insert_entry(v: &mut Vec<PosixEntry>, e: PosixEntry)
    ensures
        final(v)@ == insert_sorted(e, old(v)@),
{
    let mut j: usize = 0;
    while j < v.len() && entry_lt(&v[j], &e)
        invariant
            0 <= j <= v@.len(),
            v@ == old(v)@,
            forall|i: int| 0 <= i < j ==> key_lt(#[trigger] v@[i], e),
        decreases v@.len() - j,
    {
        j = j + 1;
    }
    proof {
        lemma_insert_sorted_split(e, v@, j as int);
    }
    v.insert(j, e);
    assert(v@ =~= old(v)@.take(j as int) + seq![e] + old(v)@.skip(j as int));
}

/// Sorts the native entries into canonical order.
fn sort_native(v: Vec<PosixEntry>) -> (r: Vec<PosixEntry>)
    ensures
        r@ == sort_entries(v@),
{
    let mut out: Vec<PosixEntry> = Vec::new();
    let mut i: usize = 0;
    while i < v.len()
        invariant
            0 <= i <= v@.len(),
            out@ == sort_entries(v@.take(i as int)),
        decreases v@.len() - i,
    {
        proof {
            assert(v@.take(i + 1).drop_last() =~= v@.take(i as int));
            assert(v@.take(i + 1).last() == v@[i as int]);
        }
        insert_entry(&mut out, v[i]);
        i = i + 1;
    }
    assert(v@.take(v@.len() as int) =~= v@);
    out
}

/// The union of every group-class permission set, as `group_class_union`
/// states.
fn mask_perms(v: &Vec<PosixEntry>) -> (r: Perm)
    ensures
        r == group_class_union(v@),
{
    let mut acc = Perm::empty();
    let mut i: usize = 0;
    while i < v.len()
        invariant
            0 <= i <= v@.len(),
            acc == group_class_union(v@.take(i as int)),
        decreases v@.len() - i,
    {
        proof {
            assert(v@.take(i + 1).drop_last() =~= v@.take(i as int));
            assert(v@.take(i + 1).last() == v@[i as int]);
        }
        let gc = match v[i].tag {
            PosixTag::User(_) => true,
            PosixTag::Group(_) => true,
            PosixTag::GroupObj => true,
            _ => false,
        };
        if gc {
            acc = acc.union(v[i].perm);
        } else {
            acc = acc.union(Perm::empty());
        }
        i = i + 1;
    }
    assert(v@.take(v@.len() as int) =~= v@);
    acc
}

/// Builds a POSIX.1e native ACL from the selected portable entries, as
/// `spec_build_posix` states; a failure carries the class and the exact
/// message that `build_err_msg` states.
pub fn build_posix_acl(
    entries: &Vec<AclEntry>,
    sel: Option<bool>,
    sorted: bool,
    dflt_words: bool,
) -> (r: Result<Vec<PosixEntry>, AclError>)
    ensures
        r is Ok <==> spec_build_posix(entry_views(entries@), sel, sorted) is Ok,
        r matches Ok(v) ==> Ok::<Seq<PosixEntry>, BuildErr>(v@) == spec_build_posix(
            entry_views(entries@),
            sel,
            sorted,
        ),
        r matches Err(err) ==> {
            &&& spec_build_posix(entry_views(entries@), sel, sorted) matches Err(be)
            &&& err.kind == build_err_kind(be)
            &&& err.message@ == build_err_msg(entry_views(entries@), be, dflt_words)
        },
{
    let ghost evs = entry_views(entries@);
    let mut acc: Vec<PosixEntry> = Vec::new();
    let mut i: usize = 0;
    while i < entries.len()
        invariant
            0 <= i <= entries@.len(),
            evs == entry_views(entries@),
            posix_collect(evs, sel, i as int) == Ok::<Seq<PosixEntry>, BuildErr>(acc@),
        decreases entries@.len() - i,
    {
        let e = &entries[i];
        assert(evs[i as int] == e@);
        let selected = match sel {
            Option::None => true,
            Option::Some(want) => e.flags.is_default == want,
        };
        if selected {
            match xlate_posix(e) {
                Err(x) => {
                    proof {
                        assert(posix_collect(evs, sel, i + 1) == Err::<Seq<PosixEntry>, BuildErr>(
                            BuildErr::Xlate { idx: i as int, err: x },
                        ));
                        lemma_posix_collect_err(evs, sel, i + 1, evs.len() as int);
                    }
                    return Err(AclError::new(ErrorKind::Validation, msg_xlate(i, e, x)));
                },
                Ok(pe) => {
                    if find_tag(&acc, pe.tag) {
                        proof {
                            assert(posix_collect(evs, sel, i + 1) == Err::<
                                Seq<PosixEntry>,
                                BuildErr,
                            >(BuildErr::Dup { idx: i as int, kind: e@.kind }));
                            lemma_posix_collect_err(evs, sel, i + 1, evs.len() as int);
                        }
                        return Err(
                            AclError::new(ErrorKind::Validation, msg_dup(i, e.kind, dflt_words)),
                        );
                    }
                    acc.push(pe);
                },
            }
        }
        i = i + 1;
    }
    if acc.len() == 0 {
        return Ok(acc);
    }
    if !find_tag(&acc, PosixTag::UserObj) {
        return Err(AclError::new(ErrorKind::Validation, msg_missing(AclKind::User, dflt_words)));
    }
    if !find_tag(&acc, PosixTag::GroupObj) {
        return Err(AclError::new(ErrorKind::Validation, msg_missing(AclKind::Group, dflt_words)));
    }
    if !find_tag(&acc, PosixTag::Other) {
        return Err(AclError::new(ErrorKind::Validation, msg_missing(AclKind::Other, dflt_words)));
    }
    if !find_tag(&acc, PosixTag::Mask) {
        let mp = mask_perms(&acc);
        acc.push(PosixEntry { tag: PosixTag::Mask, perm: mp });
    }
    if sorted {
        Ok(sort_native(acc))
    } else {
        Ok(acc)
    }
}

/// Builds a richer-model native ACL from the portable entries, as
/// `spec_build_mac` states; a failure carries the class and the exact
/// message that `build_err_msg` states.
pub fn build_mac_acl(entries: &Vec<AclEntry>) -> (r: Result<Vec<MacEntry>, AclError>)
    ensures
        r is Ok <==> spec_build_mac(entry_views(entries@)) is Ok,
        r matches Ok(v) ==> Ok::<Seq<MacEntry>, BuildErr>(v@) == spec_build_mac(
            entry_views(entries@),
        ),
        r matches Err(err) ==> {
            &&& spec_build_mac(entry_views(entries@)) matches Err(be)
            &&& err.kind == build_err_kind(be)
            &&& err.message@ == build_err_msg(entry_views(entries@), be, false)
        },
{
    let ghost evs = entry_views(entries@);
    if entries.len() > MAX_RICH_ENTRIES {
        return Err(
            AclError::new(ErrorKind::CapacityExceeded, String::from_str("Too many ACL entries")),
        );
    }
    let mut acc: Vec<MacEntry> = Vec::new();
    let mut i: usize = 0;
    while i < entries.len()
        invariant
            0 <= i <= entries@.len(),
            entries@.len() <= MAX_RICH_ENTRIES,
            evs == entry_views(entries@),
            mac_collect(evs, i as int) == Ok::<Seq<MacEntry>, BuildErr>(acc@),
        decreases entries@.len() - i,
    {
        let e = &entries[i];
        assert(evs[i as int] == e@);
        match xlate_mac(e) {
            Err(x) => {
                proof {
                    assert(mac_collect(evs, i + 1) == Err::<Seq<MacEntry>, BuildErr>(
                        BuildErr::Xlate { idx: i as int, err: x },
                    ));
                    lemma_mac_collect_err(evs, i + 1, evs.len() as int);
                }
                return Err(AclError::new(ErrorKind::Validation, msg_xlate(i, e, x)));
            },
            Ok(me) => {
                if find_guid(&acc, me.guid) {
                    proof {
                        assert(mac_collect(evs, i + 1) == Err::<Seq<MacEntry>, BuildErr>(
                            BuildErr::Dup { idx: i as int, kind: e@.kind },
                        ));
                        lemma_mac_collect_err(evs, i + 1, evs.len() as int);
                    }
                    return Err(AclError::new(ErrorKind::Validation, msg_dup(i, e.kind, false)));
                }
                acc.push(me);
            },
        }
        i = i + 1;
    }
    Ok(acc)
}

} // verus!
