//! The portable text codec: an independent, simplified line-oriented
//! grammar, one entry per line.
//!
//! A parsed line is `kind ':' qualifier ':' permission-letters`, where the
//! kind is a short ASCII token naming a user, group or related kind, the
//! letters are any combination of `r`, `w` and `x` in any order, leading
//! and trailing whitespace is ignored, blank lines are skipped, and
//! everything after an unescaped `#` is a discarded comment (`\#` keeps a
//! literal `#`). Every parsed line is an allow entry with empty flags.
//! Serialization emits the canonical form
//! `allow-or-deny '::' kind ':' qualifier ':' comma-joined-permission-words`,
//! one newline-terminated line per entry, in input order.

use vstd::prelude::*;
use vstd::string::StrSliceExecFns;
use vstd::string::StringExecFns;
use vstd::string::StringSliceAdditionalSpecFns;

use crate::builder::entry_views;
use crate::builder::kind_word;
use crate::builder::kind_word_of;
use crate::codec::copy_range;
use crate::codec::find_byte;
use crate::codec::find_from;
use crate::codec::range_is_word;
use crate::codec::render_permflags;
use crate::entry::AclEntry;
use crate::entry::AclKind;
use crate::entry::EntryView;
use crate::error::AclError;
use crate::error::ErrorKind;
use crate::flag::Flag;
use crate::perm::Perm;

verus! {

/// The line with its comment removed: a `#` ends the line unless escaped
/// by a backslash, which is dropped.
pub open spec fn strip_comment(s: Seq<u8>) -> Seq<u8>
    decreases s.len(),
{
    if s.len() == 0 {
        Seq::empty()
    } else if s[0] == 92 && s.len() >= 2 && s[1] == 35 {
        seq![35u8] + strip_comment(s.skip(2))
    } else if s[0] == 35 {
        Seq::empty()
    } else {
        seq![s[0]] + strip_comment(s.skip(1))
    }
}

/// True for the whitespace bytes the grammar ignores at line ends.
pub open spec fn is_space(b: u8) -> bool {
    b == 32 || b == 9 || b == 13
}

/// The first position from `i` that holds no whitespace.
pub open spec fn trim_start_idx(s: Seq<u8>, i: int) -> int
    decreases s.len() - i,
{
    if i < 0 || i >= s.len() {
        s.len() as int
    } else if is_space(s[i]) {
        trim_start_idx(s, i + 1)
    } else {
        i
    }
}

/// The position after the last non-whitespace byte before `i`.
pub open spec fn trim_end_idx(s: Seq<u8>, i: int) -> int
    decreases i,
{
    if i <= 0 || i > s.len() {
        0
    } else if is_space(s[i - 1]) {
        trim_end_idx(s, i - 1)
    } else {
        i
    }
}

/// The line with leading and trailing whitespace removed.
pub open spec fn trim(s: Seq<u8>) -> Seq<u8> {
    let a = trim_start_idx(s, 0);
    let b = trim_end_idx(s, s.len() as int);
    if a >= b {
        Seq::empty()
    } else {
        s.subrange(a, b)
    }
}

/// The permission set of a string of permission letters, in any order.
pub open spec fn parse_letters(s: Seq<u8>) -> Option<Perm>
    decreases s.len(),
{
    if s.len() == 0 {
        Some(Perm { read: false, write: false, execute: false })
    } else {
        match parse_letters(s.drop_last()) {
            None => None,
            Some(p) => if s.last() == 114 {
                Some(Perm { read: true, ..p })
            } else if s.last() == 119 {
                Some(Perm { write: true, ..p })
            } else if s.last() == 120 {
                Some(Perm { execute: true, ..p })
            } else {
                None
            },
        }
    }
}

/// The kind a short token names.
pub open spec fn parse_kind_token(t: Seq<u8>) -> Option<AclKind> {
    if t == crate::numtext::chars_bytes("u"@) || t == crate::numtext::chars_bytes("user"@) {
        Some(AclKind::User)
    } else if t == crate::numtext::chars_bytes("g"@) || t == crate::numtext::chars_bytes(
        "group"@,
    ) {
        Some(AclKind::Group)
    } else if t == crate::numtext::chars_bytes("o"@) || t == crate::numtext::chars_bytes(
        "other"@,
    ) {
        Some(AclKind::Other)
    } else if t == crate::numtext::chars_bytes("m"@) || t == crate::numtext::chars_bytes(
        "mask"@,
    ) {
        Some(AclKind::Mask)
    } else if t == crate::numtext::chars_bytes("e"@) || t == crate::numtext::chars_bytes(
        "everyone"@,
    ) {
        Some(AclKind::Everyone)
    } else {
        None
    }
}

/// One cleaned, trimmed, non-blank line of the portable grammar: the
/// kind token, the qualifier bytes (ASCII, and empty for the unqualified
/// kinds) and the permission letters.
pub open spec fn spec_portable_line(t: Seq<u8>) -> Option<(AclKind, Seq<u8>, Perm)> {
    let c1 = find_from(t, 0, 58);
    let c2 = find_from(t, c1 + 1, 58);
    if c1 < 0 || c2 < 0 {
        None
    } else {
        let qual = t.subrange(c1 + 1, c2);
        match (parse_kind_token(t.take(c1)), parse_letters(t.skip(c2 + 1))) {
            (Some(k), Some(p)) => if !(forall|i: int| 0 <= i < qual.len() ==> qual[i] < 128) {
                None
            } else if qual.len() > 0 && (k == AclKind::Mask || k == AclKind::Other || k
                == AclKind::Everyone) {
                None
            } else {
                Some((k, qual, p))
            },
            _ => None,
        }
    }
}

/// The entry a parsed portable line denotes: an allow entry with empty
/// flags.
pub open spec fn portable_entry_view(t3: (AclKind, Seq<u8>, Perm)) -> EntryView {
    EntryView {
        kind: t3.0,
        name: t3.1.map_values(|b: u8| b as char),
        perms: t3.2,
        flags: Flag::spec_empty(),
        allow: true,
    }
}

/// The entries parsed from the portable text starting at `pos`: one line
/// per entry, blank lines skipped, the final newline optional.
pub open spec fn spec_portable_at(b: Seq<u8>, pos: int) -> Option<Seq<(AclKind, Seq<u8>, Perm)>>
    decreases b.len() - pos,
{
    if pos < 0 || pos >= b.len() {
        Some(Seq::empty())
    } else {
        let k = find_from(b, pos, 10);
        if k < 0 {
            let t = trim(strip_comment(b.subrange(pos, b.len() as int)));
            if t.len() == 0 {
                Some(Seq::empty())
            } else {
                match spec_portable_line(t) {
                    None => None,
                    Some(e) => Some(seq![e]),
                }
            }
        } else if k < pos || k >= b.len() {
            None
        } else {
            let t = trim(strip_comment(b.subrange(pos, k)));
            if t.len() == 0 {
                spec_portable_at(b, k + 1)
            } else {
                match spec_portable_line(t) {
                    None => None,
                    Some(e) => match spec_portable_at(b, k + 1) {
                        None => None,
                        Some(rest) => Some(seq![e] + rest),
                    },
                }
            }
        }
    }
}

/// What parsing a portable document yields.
pub open spec fn spec_from_portable(b: Seq<u8>) -> Option<Seq<(AclKind, Seq<u8>, Perm)>> {
    spec_portable_at(b, 0)
}

/// Removes the comment of one line, as `strip_comment` states.
fn strip_comment_vec(line: &Vec<u8>) -> (r: Vec<u8>)
    ensures
        r@ == strip_comment(line@),
{
    let n = line.len();
    let mut out: Vec<u8> = Vec::new();
    let mut pos: usize = 0;
    proof {
        assert(line@.skip(0) =~= line@);
        assert(Seq::<u8>::empty() + strip_comment(line@) =~= strip_comment(line@));
    }
    while pos < n
        invariant
            0 <= pos <= n == line@.len(),
            strip_comment(line@) == out@ + strip_comment(line@.skip(pos as int)),
        decreases n - pos,
    {
        let b = line[pos];
        if b == 92 && pos + 1 < n && line[pos + 1] == 35 {
            proof {
                assert(line@.skip(pos as int)[0] == 92);
                assert(line@.skip(pos as int)[1] == 35);
                assert(line@.skip(pos as int).skip(2) =~= line@.skip(pos + 2));
                assert(out@ + (seq![35u8] + strip_comment(line@.skip(pos + 2))) =~= out@.push(35u8)
                    + strip_comment(line@.skip(pos + 2)));
            }
            out.push(35);
            pos = pos + 2;
        } else if b == 35 {
            proof {
                assert(line@.skip(pos as int)[0] == 35);
                assert(out@ + Seq::<u8>::empty() =~= out@);
            }
            return out;
        } else {
            proof {
                assert(line@.skip(pos as int)[0] == b);
                assert(line@.skip(pos as int).skip(1) =~= line@.skip(pos + 1));
                assert(out@ + (seq![b] + strip_comment(line@.skip(pos + 1))) =~= out@.push(b)
                    + strip_comment(line@.skip(pos + 1)));
            }
            out.push(b);
            pos = pos + 1;
        }
    }
    proof {
        assert(line@.skip(n as int).len() == 0);
        assert(out@ + Seq::<u8>::empty() =~= out@);
    }
    out
}

/// Removes leading and trailing whitespace, as `trim` states.
fn trim_vec(s: &Vec<u8>) -> (r: Vec<u8>)
    ensures
        r@ == trim(s@),
{
    let n = s.len();
    let mut a: usize = 0;
    while a < n && (s[a] == 32 || s[a] == 9 || s[a] == 13)
        invariant
            0 <= a <= n == s@.len(),
            trim_start_idx(s@, 0) == trim_start_idx(s@, a as int),
        decreases n - a,
    {
        a = a + 1;
    }
    assert(trim_start_idx(s@, a as int) == a as int);
    let mut b: usize = n;
    while b > 0 && (s[b - 1] == 32 || s[b - 1] == 9 || s[b - 1] == 13)
        invariant
            0 <= b <= n == s@.len(),
            trim_end_idx(s@, n as int) == trim_end_idx(s@, b as int),
        decreases b,
    {
        b = b - 1;
    }
    assert(trim_end_idx(s@, b as int) == b as int);
    if a >= b {
        let r: Vec<u8> = Vec::new();
        return r;
    }
    copy_range(s, a, b)
}

/// Parses a string of permission letters, as `parse_letters` states.
fn parse_letters_vec(t: &Vec<u8>, start: usize, end: usize) -> (r: Option<Perm>)
    requires
        start <= end <= t@.len(),
    ensures
        r == parse_letters(t@.subrange(start as int, end as int)),
{
    let ghost sub = t@.subrange(start as int, end as int);
    let mut p = Perm::empty();
    let mut j: usize = start;
    while j < end
        invariant
            start <= j <= end <= t@.len(),
            sub == t@.subrange(start as int, end as int),
            parse_letters(sub.take(j - start)) == Some(p),
        decreases end - j,
    {
        proof {
            assert(sub.take(j + 1 - start).drop_last() =~= sub.take(j - start));
            assert(sub.take(j + 1 - start).last() == sub[j - start]);
            assert(sub[j - start] == t@[j as int]);
        }
        let b = t[j];
        if b == 114 {
            p = Perm { read: true, ..p };
        } else if b == 119 {
            p = Perm { write: true, ..p };
        } else if b == 120 {
            p = Perm { execute: true, ..p };
        } else {
            proof {
                lemma_parse_letters_fail(sub, j + 1 - start);
            }
            return None;
        }
        j = j + 1;
    }
    assert(sub.take(end - start) =~= sub);
    Some(p)
}

/// A bad letter spoils the whole string.
proof fn lemma_parse_letters_fail(s: Seq<u8>, j: int)
    requires
        0 <= j <= s.len(),
        parse_letters(s.take(j)) is None,
    ensures
        parse_letters(s) is None,
    decreases s.len() - j,
{
    if j == s.len() {
        assert(s.take(j) =~= s);
    } else {
        assert(s.take(j + 1).drop_last() =~= s.take(j));
        lemma_parse_letters_fail(s, j + 1);
    }
}

/// Parses the kind token in `t[0..c1]`, as `parse_kind_token` states.
fn parse_kind_token_vec(t: &Vec<u8>, c1: usize) -> (r: Option<AclKind>)
    requires
        c1 <= t@.len(),
    ensures
        r == parse_kind_token(t@.take(c1 as int)),
{
    proof {
        reveal_strlit("u");
        reveal_strlit("user");
        reveal_strlit("g");
        reveal_strlit("group");
        reveal_strlit("o");
        reveal_strlit("other");
        reveal_strlit("m");
        reveal_strlit("mask");
        reveal_strlit("e");
        reveal_strlit("everyone");
    }
    assert(t@.take(c1 as int) =~= t@.subrange(0, c1 as int));
    if range_is_word(t, 0, c1, "u") || range_is_word(t, 0, c1, "user") {
        Some(AclKind::User)
    } else if range_is_word(t, 0, c1, "g") || range_is_word(t, 0, c1, "group") {
        Some(AclKind::Group)
    } else if range_is_word(t, 0, c1, "o") || range_is_word(t, 0, c1, "other") {
        Some(AclKind::Other)
    } else if range_is_word(t, 0, c1, "m") || range_is_word(t, 0, c1, "mask") {
        Some(AclKind::Mask)
    } else if range_is_word(t, 0, c1, "e") || range_is_word(t, 0, c1, "everyone") {
        Some(AclKind::Everyone)
    } else {
        None
    }
}

/// Parses one cleaned line, as `spec_portable_line` states; the parsed
/// qualifier is returned as a fresh string.
fn parse_portable_line(t: &Vec<u8>) -> (r: Option<AclEntry>)
    ensures
        r is Some <==> spec_portable_line(t@) is Some,
        r matches Some(e) ==> spec_portable_line(t@) matches Some(t3) && e@ == portable_entry_view(
            t3,
        ),
{
    let n = t.len();
    let c1 = match find_byte(t, 0, 58) {
        Some(k) => k,
        None => {
            return None;
        },
    };
    assert(c1 < n);
    let c2 = match find_byte(t, c1 + 1, 58) {
        Some(k) => k,
        None => {
            return None;
        },
    };
    assert(c1 + 1 <= c2 < n);
    let kind = match parse_kind_token_vec(t, c1) {
        Some(k) => k,
        None => {
            return None;
        },
    };
    let p = match parse_letters_vec(t, c2 + 1, n) {
        Some(p) => p,
        None => {
            assert(t@.skip(c2 + 1) =~= t@.subrange(c2 + 1, n as int));
            return None;
        },
    };
    assert(t@.skip(c2 + 1) =~= t@.subrange(c2 + 1, n as int));
    let ghost qual = t@.subrange(c1 + 1, c2 as int);
    let mut w: Vec<u8> = Vec::new();
    let mut j: usize = c1 + 1;
    while j < c2
        invariant
            c1 + 1 <= j <= c2 <= t@.len(),
            qual == t@.subrange(c1 + 1, c2 as int),
            find_from(t@, 0, 58) == c1 as int,
            find_from(t@, c1 + 1, 58) == c2 as int,
            parse_kind_token(t@.take(c1 as int)) is Some,
            parse_letters(t@.skip(c2 + 1)) is Some,
            w@ == qual.take(j - (c1 + 1)),
            forall|i: int| 0 <= i < j - (c1 + 1) ==> qual[i] < 128,
        decreases c2 - j,
    {
        let b = t[j];
        assert(qual[j - (c1 + 1)] == b);
        if b >= 128 {
            assert(!(forall|i: int| 0 <= i < qual.len() ==> qual[i] < 128));
            return None;
        }
        w.push(b);
        j = j + 1;
        assert(w@ =~= qual.take(j - (c1 + 1)));
    }
    assert(w@ =~= qual);
    if (c2 > c1 + 1) && (match kind {
        AclKind::Mask => true,
        AclKind::Other => true,
        AclKind::Everyone => true,
        _ => false,
    }) {
        return None;
    }
    let name = crate::numtext::ascii_to_string(w);
    Some(AclEntry { kind, name, perms: p, flags: Flag::empty(), allow: true })
}

/// Parses portable text into a list of allow entries, one per non-blank
/// line, as `spec_from_portable` states; a line the grammar rejects is a
/// validation error.
pub fn from_portable_text(text: &str) -> (r: Result<Vec<AclEntry>, AclError>)
    ensures
        r is Ok <==> spec_from_portable(text.spec_bytes()) is Some,
        r matches Ok(es) ==> {
            &&& spec_from_portable(text.spec_bytes()) matches Some(t3s)
            &&& entry_views(es@) == portable_views(t3s)
        },
        r matches Err(err) ==> err.kind == ErrorKind::Validation && err.message@
            == "invalid portable ACL text"@,
{
    let b = text.as_bytes_vec();
    let ghost bs = text.spec_bytes();
    let n = b.len();
    let mut acc: Vec<AclEntry> = Vec::new();
    let mut pos: usize = 0;
    while pos < n
        invariant
            0 <= pos <= n == bs.len(),
            b@ == bs,
            bs == text.spec_bytes(),
            (match spec_portable_at(bs, pos as int) {
                Option::None => spec_from_portable(bs) is None,
                Option::Some(t) => spec_from_portable(bs) matches Some(all) && all == entry_t3s(
                    acc@,
                ) + t,
            }),
            entry_views(acc@) == portable_views(entry_t3s(acc@)),
        decreases n - pos,
    {
        let (end, is_last) = match find_byte(&b, pos, 10) {
            Some(k) => (k, false),
            None => (n, true),
        };
        let line = copy_range(&b, pos, end);
        let cleaned = strip_comment_vec(&line);
        let t = trim_vec(&cleaned);
        if t.len() == 0 {
            pos = if is_last {
                n
            } else {
                end + 1
            };
        } else {
            proof {
                assert(line@ == bs.subrange(pos as int, end as int));
                if is_last {
                    assert(find_from(bs, pos as int, 10) < 0);
                } else {
                    assert(find_from(bs, pos as int, 10) == end as int);
                }
            }
            let e = match parse_portable_line(&t) {
                Some(e) => e,
                None => {
                    proof {
                        assert(spec_portable_at(bs, pos as int) is None);
                        assert(spec_from_portable(bs) is None);
                    }
                    return Err(
                        AclError::new(
                            ErrorKind::Validation,
                            String::from_str("invalid portable ACL text"),
                        ),
                    );
                },
            };
            proof {
                let t3 = spec_portable_line(t@).unwrap();
                assert(forall|i: int| 0 <= i < t3.1.len() ==> t3.1[i] < 128);
                assert(e.name@.map_values(|c: char| c as u8) =~= t3.1) by {
                    assert(e@.name == t3.1.map_values(|b0: u8| b0 as char));
                    assert forall|i: int|
                        0 <= i < t3.1.len() implies e.name@.map_values(|c: char| c as u8)[i]
                        == t3.1[i] by {
                        assert(e.name@[i] == t3.1[i] as char);
                    }
                }
                assert(entry_t3s(acc@.push(e)) =~~= entry_t3s(acc@).push(t3));
                assert forall|k: int| 0 <= k < acc@.len() + 1 implies entry_views(acc@.push(e))[k]
                    =~~= portable_views(entry_t3s(acc@).push(t3))[k] by {
                    if k < acc@.len() {
                        assert(entry_views(acc@.push(e))[k] == acc@[k]@);
                        assert(entry_views(acc@)[k] == acc@[k]@);
                        assert(portable_views(entry_t3s(acc@))[k] == portable_entry_view(
                            entry_t3s(acc@)[k],
                        ));
                        assert((entry_t3s(acc@).push(t3))[k] == entry_t3s(acc@)[k]);
                    } else {
                        assert(entry_views(acc@.push(e))[k] == e@);
                    }
                }
                assert(entry_views(acc@.push(e)) =~~= portable_views(entry_t3s(acc@).push(t3)));
                if !is_last && spec_portable_at(bs, end + 1) is Some {
                    let rest = spec_portable_at(bs, end + 1).unwrap();
                    assert(entry_t3s(acc@) + (seq![t3] + rest) =~= entry_t3s(acc@).push(t3)
                        + rest);
                }
                if is_last {
                    assert(entry_t3s(acc@) + seq![t3] =~= entry_t3s(acc@).push(t3));
                    assert(entry_t3s(acc@).push(t3) + Seq::<(AclKind, Seq<u8>, Perm)>::empty()
                        =~= entry_t3s(acc@).push(t3));
                }
            }
            acc.push(e);
            pos = if is_last {
                n
            } else {
                end + 1
            };
        }
    }
    assert(spec_portable_at(bs, pos as int) == Some(Seq::<(AclKind, Seq<u8>, Perm)>::empty()));
    assert(entry_t3s(acc@) + Seq::<(AclKind, Seq<u8>, Perm)>::empty() =~= entry_t3s(acc@));
    Ok(acc)
}

/// The entry views a list of parsed portable lines denotes.
pub open spec fn portable_views(ts: Seq<(AclKind, Seq<u8>, Perm)>) -> Seq<EntryView> {
    Seq::new(ts.len(), |k: int| portable_entry_view(ts[k]))
}

/// The kind, qualifier bytes and permissions of already-parsed entries,
/// used to relate the accumulator to the specification.
pub open spec fn entry_t3s(es: Seq<AclEntry>) -> Seq<(AclKind, Seq<u8>, Perm)> {
    es.map_values(
        |e: AclEntry| (e.kind, e.name@.map_values(|c: char| c as u8), e.perms),
    )
}

/// One line of the canonical portable serialization.
pub open spec fn render_portable_line(e: EntryView) -> Seq<char> {
    (if e.allow {
        "allow"@
    } else {
        "deny"@
    }) + "::"@ + kind_word(e.kind) + ":"@ + e.name + ":"@ + render_permflags(
        e.perms,
        Flag::spec_empty(),
    ).map_values(|b: u8| b as char) + "\n"@
}

/// The canonical portable serialization of the first `n` entries, in
/// input order.
pub open spec fn spec_to_portable(s: Seq<EntryView>, n: int) -> Seq<char>
    decreases n,
{
    if n <= 0 {
        Seq::empty()
    } else {
        spec_to_portable(s, n - 1) + render_portable_line(s[n - 1])
    }
}

/// Serializes entries to portable text, one line per entry in input
/// order, as `spec_to_portable` states.
pub fn to_portable_text(entries: &Vec<AclEntry>) -> (r: String)
    ensures
        r@ == spec_to_portable(entry_views(entries@), entries@.len() as int),
{
    let mut out = String::new();
    let mut i: usize = 0;
    while i < entries.len()
        invariant
            0 <= i <= entries@.len(),
            out@ == spec_to_portable(entry_views(entries@), i as int),
        decreases entries@.len() - i,
    {
        let e = &entries[i];
        assert(entry_views(entries@)[i as int] == e@);
        if e.allow {
            out.append("allow");
        } else {
            out.append("deny");
        }
        out.append("::");
        out.append(kind_word_of(e.kind));
        out.append(":");
        out.append(e.name.as_str());
        out.append(":");
        let pf = crate::codec::render_permflags_vec(e.perms, Flag::empty());
        proof {
            crate::codec::lemma_permflag_words_valid(e.perms, Flag::spec_empty());
            crate::codec::lemma_join_no_sep(crate::codec::permflag_words(
                e.perms,
                Flag::spec_empty(),
            ));
        }
        let pfs = crate::numtext::ascii_to_string(pf);
        out.append(pfs.as_str());
        out.append("\n");
        i = i + 1;
        assert(out@ =~= spec_to_portable(entry_views(entries@), i as int));
    }
    out
}

} // verus!
