//! The native-text codec: serializes and parses each platform's own ACL
//! text grammar, byte for byte.
//!
//! The class-model grammar is one `kind:qualifier:rwx` triplet per line.
//! The richer-model grammar is a header line followed by
//! `kind:identifier:name:id:allow-or-deny:permission[,flag,...]` lines.
//! Serializing and then parsing a document reproduces the ACL exactly;
//! the round-trip lemmas state this.

use vstd::prelude::*;

use crate::builder::kind_word;
use crate::builder::tag_kind;
use crate::entry::AclKind;
use crate::flag::Flag;
use crate::native::mac_principal;
use crate::native::MacEntry;
use crate::native::PosixEntry;
use crate::native::PosixTag;
use crate::native::EVERYONE_GUID;
use crate::native::GROUP_GUID_BASE;
use crate::native::USER_GUID_BASE;
use crate::numtext::guid_bytes;
use crate::numtext::spec_parse_guid_b;
use crate::numtext::chars_bytes;
use crate::numtext::dec_bytes;
use crate::numtext::is_dec_byte;
use crate::numtext::lemma_dec_bytes_round_trip;
use crate::numtext::spec_parse_u32;
use crate::perm::Perm;

verus! {

/// The position of the first `t` at or after `from`, or a negative value
/// when there is none.
pub open spec fn find_from(b: Seq<u8>, from: int, t: u8) -> int
    decreases b.len() - from,
{
    if from < 0 || from >= b.len() {
        -1
    } else if b[from] == t {
        from
    } else {
        find_from(b, from + 1, t)
    }
}

/// `find_from` returns the position of the first occurrence.
pub proof fn lemma_find_from_found(b: Seq<u8>, from: int, m: int, t: u8)
    requires
        0 <= from <= m < b.len(),
        b[m] == t,
        forall|j: int| from <= j < m ==> b[j] != t,
    ensures
        find_from(b, from, t) == m,
    decreases m - from,
{
    if from < m {
        lemma_find_from_found(b, from + 1, m, t);
    }
}

/// `find_from` reports absence when no byte matches.
pub proof fn lemma_find_from_none(b: Seq<u8>, from: int, t: u8)
    requires
        0 <= from,
        forall|j: int| from <= j < b.len() ==> b[j] != t,
    ensures
        find_from(b, from, t) == -1,
    decreases b.len() - from,
{
    if from < b.len() {
        lemma_find_from_none(b, from + 1, t);
    }
}

/// The first `t` at or after `from`, as `find_from` states.
pub fn find_byte(b: &Vec<u8>, from: usize, t: u8) -> (r: Option<usize>)
    requires
        from <= b@.len(),
    ensures
        r is None ==> find_from(b@, from as int, t) < 0,
        r matches Some(k) ==> {
            &&& find_from(b@, from as int, t) == k as int
            &&& from <= k < b@.len()
            &&& b@[k as int] == t
        },
{
    let mut j: usize = from;
    while j < b.len()
        invariant
            from <= j <= b@.len(),
            forall|k: int| from <= k < j ==> b@[k] != t,
        decreases b@.len() - j,
    {
        if b[j] == t {
            proof {
                lemma_find_from_found(b@, from as int, j as int, t);
            }
            return Some(j);
        }
        j = j + 1;
    }
    proof {
        lemma_find_from_none(b@, from as int, t);
    }
    None
}

/// Appends the bytes of an ASCII string.
pub fn push_str_ascii(v: &mut Vec<u8>, s: &str)
    requires
        crate::numtext::ascii_seq(s@),
    ensures
        final(v)@ == old(v)@ + chars_bytes(s@),
{
    let n = s.unicode_len();
    let mut j: usize = 0;
    while j < n
        invariant
            0 <= j <= n == s@.len(),
            crate::numtext::ascii_seq(s@),
            v@ == old(v)@ + chars_bytes(s@).take(j as int),
        decreases n - j,
    {
        let c = s.get_char(j);
        v.push(c as u8);
        j = j + 1;
        assert(v@ =~= old(v)@ + chars_bytes(s@).take(j as int));
    }
    assert(chars_bytes(s@).take(n as int) =~= chars_bytes(s@));
}

/// True when `b[start..end]` holds exactly the bytes of the ASCII word.
pub fn range_is_word(b: &Vec<u8>, start: usize, end: usize, w: &str) -> (r: bool)
    requires
        start <= end <= b@.len(),
        crate::numtext::ascii_seq(w@),
    ensures
        r == (b@.subrange(start as int, end as int) == chars_bytes(w@)),
{
    let n = w.unicode_len();
    if end - start != n {
        assert(b@.subrange(start as int, end as int).len() != chars_bytes(w@).len());
        return false;
    }
    let mut j: usize = 0;
    while j < n
        invariant
            0 <= j <= n == w@.len(),
            start <= end <= b@.len(),
            end - start == n,
            crate::numtext::ascii_seq(w@),
            forall|k: int| 0 <= k < j ==> b@[start + k] == chars_bytes(w@)[k],
        decreases n - j,
    {
        let c = w.get_char(j);
        if b[start + j] != c as u8 {
            assert(b@.subrange(start as int, end as int)[j as int] != chars_bytes(w@)[j as int]);
            return false;
        }
        j = j + 1;
    }
    assert(b@.subrange(start as int, end as int) =~= chars_bytes(w@));
    true
}

/// Copies `b[start..end]` into a fresh vector.
pub fn copy_range(b: &Vec<u8>, start: usize, end: usize) -> (r: Vec<u8>)
    requires
        start <= end <= b@.len(),
    ensures
        r@ == b@.subrange(start as int, end as int),
{
    let mut out: Vec<u8> = Vec::new();
    let mut j: usize = start;
    while j < end
        invariant
            start <= j <= end <= b@.len(),
            out@ == b@.subrange(start as int, j as int),
        decreases end - j,
    {
        out.push(b[j]);
        j = j + 1;
        assert(out@ =~= b@.subrange(start as int, j as int));
    }
    out
}

/// The three permission characters of the class-model grammar.
pub open spec fn perm3(p: Perm) -> Seq<u8> {
    seq![
        if p.read {
            114u8
        } else {
            45u8
        },
        if p.write {
            119u8
        } else {
            45u8
        },
        if p.execute {
            120u8
        } else {
            45u8
        },
    ]
}

/// The permission set of three permission characters, when well-formed.
pub open spec fn parse_perm3(b: Seq<u8>) -> Option<Perm> {
    if b.len() == 3 && (b[0] == 114 || b[0] == 45) && (b[1] == 119 || b[1] == 45) && (b[2] == 120
        || b[2] == 45) {
        Some(Perm { read: b[0] == 114, write: b[1] == 119, execute: b[2] == 120 })
    } else {
        None
    }
}

/// The numeric qualifier text of a native tag: the decimal id of a named
/// user or group, empty otherwise.
pub open spec fn posix_qual_bytes(t: PosixTag) -> Seq<u8> {
    match t {
        PosixTag::User(id) => dec_bytes(id as nat),
        PosixTag::Group(id) => dec_bytes(id as nat),
        _ => Seq::empty(),
    }
}

/// One line of the class-model grammar, without its newline.
pub open spec fn render_posix_line(pe: PosixEntry) -> Seq<u8> {
    chars_bytes(kind_word(tag_kind(pe.tag))) + seq![58u8] + posix_qual_bytes(pe.tag) + seq![58u8]
        + perm3(pe.perm)
}

/// The class-model text of the first `n` native entries, one line each.
pub open spec fn render_posix_upto(s: Seq<PosixEntry>, n: int) -> Seq<u8>
    decreases n,
{
    if n <= 0 {
        Seq::empty()
    } else {
        render_posix_upto(s, n - 1) + render_posix_line(s[n - 1]) + seq![10u8]
    }
}

/// The class-model text of a native ACL.
pub open spec fn render_posix(s: Seq<PosixEntry>) -> Seq<u8> {
    render_posix_upto(s, s.len() as int)
}

/// The native entry of one class-model line, when well-formed.
pub open spec fn spec_posix_line(line: Seq<u8>) -> Option<PosixEntry> {
    let c1 = find_from(line, 0, 58);
    let c2 = find_from(line, c1 + 1, 58);
    if c1 < 0 || c2 < 0 {
        None
    } else {
        let tagpart = line.take(c1);
        let qual = line.subrange(c1 + 1, c2);
        match parse_perm3(line.skip(c2 + 1)) {
            None => None,
            Some(p) => if tagpart == chars_bytes("user"@) {
                if qual.len() == 0 {
                    Some(PosixEntry { tag: PosixTag::UserObj, perm: p })
                } else {
                    match spec_parse_u32(qual) {
                        Some(id) => Some(PosixEntry { tag: PosixTag::User(id), perm: p }),
                        None => None,
                    }
                }
            } else if tagpart == chars_bytes("group"@) {
                if qual.len() == 0 {
                    Some(PosixEntry { tag: PosixTag::GroupObj, perm: p })
                } else {
                    match spec_parse_u32(qual) {
                        Some(id) => Some(PosixEntry { tag: PosixTag::Group(id), perm: p }),
                        None => None,
                    }
                }
            } else if tagpart == chars_bytes("mask"@) {
                if qual.len() == 0 {
                    Some(PosixEntry { tag: PosixTag::Mask, perm: p })
                } else {
                    None
                }
            } else if tagpart == chars_bytes("other"@) {
                if qual.len() == 0 {
                    Some(PosixEntry { tag: PosixTag::Other, perm: p })
                } else {
                    None
                }
            } else {
                None
            },
        }
    }
}

/// The native entries parsed from the class-model text starting at `pos`:
/// newline-terminated lines, each a well-formed triplet.
pub open spec fn spec_parse_posix_at(b: Seq<u8>, pos: int) -> Option<Seq<PosixEntry>>
    decreases b.len() - pos,
{
    if pos < 0 || pos >= b.len() {
        Some(Seq::empty())
    } else {
        let k = find_from(b, pos, 10);
        if k < pos || k >= b.len() {
            None
        } else {
            match spec_posix_line(b.subrange(pos, k)) {
                None => None,
                Some(pe) => match spec_parse_posix_at(b, k + 1) {
                    None => None,
                    Some(rest) => Some(seq![pe] + rest),
                },
            }
        }
    }
}

/// What parsing a class-model document yields.
pub open spec fn spec_parse_posix(b: Seq<u8>) -> Option<Seq<PosixEntry>> {
    spec_parse_posix_at(b, 0)
}

/// Appends one class-model line and its newline.
fn push_posix_line(v: &mut Vec<u8>, pe: &PosixEntry)
    ensures
        final(v)@ == old(v)@ + render_posix_line(*pe) + seq![10u8],
{
    proof {
        reveal_strlit("user");
        reveal_strlit("group");
        reveal_strlit("mask");
        reveal_strlit("other");
    }
    let w = crate::builder::kind_word_of_tag(pe.tag);
    push_str_ascii(v, w);
    v.push(58);
    match pe.tag {
        PosixTag::User(id) => crate::numtext::push_dec_u64(v, id as u64),
        PosixTag::Group(id) => crate::numtext::push_dec_u64(v, id as u64),
        _ => {
        },
    }
    v.push(58);
    v.push(if pe.perm.read {
        114
    } else {
        45
    });
    v.push(if pe.perm.write {
        119
    } else {
        45
    });
    v.push(if pe.perm.execute {
        120
    } else {
        45
    });
    v.push(10);
    assert(v@ =~= old(v)@ + render_posix_line(*pe) + seq![10u8]);
}

/// Renders a class-model native ACL as text bytes.
pub fn render_posix_text(s: &Vec<PosixEntry>) -> (r: Vec<u8>)
    ensures
        r@ == render_posix(s@),
{
    let mut out: Vec<u8> = Vec::new();
    let mut i: usize = 0;
    while i < s.len()
        invariant
            0 <= i <= s@.len(),
            out@ == render_posix_upto(s@, i as int),
        decreases s@.len() - i,
    {
        push_posix_line(&mut out, &s[i]);
        i = i + 1;
    }
    out
}

/// Parses one class-model line, as `spec_posix_line` states.
fn parse_posix_line(line: &Vec<u8>) -> (r: Option<PosixEntry>)
    ensures
        r == spec_posix_line(line@),
{
    proof {
        reveal_strlit("user");
        reveal_strlit("group");
        reveal_strlit("mask");
        reveal_strlit("other");
    }
    let n = line.len();
    let c1 = match find_byte(line, 0, 58) {
        Some(k) => k,
        None => {
            return None;
        },
    };
    assert(c1 < n);
    let c2 = match find_byte(line, c1 + 1, 58) {
        Some(k) => k,
        None => {
            return None;
        },
    };
    assert(c1 + 1 <= c2 < n);
    if n - (c2 + 1) != 3 {
        return None;
    }
    let b0 = line[c2 + 1];
    let b1 = line[c2 + 2];
    let b2 = line[c2 + 3];
    if !(b0 == 114 || b0 == 45) || !(b1 == 119 || b1 == 45) || !(b2 == 120 || b2 == 45) {
        assert(parse_perm3(line@.skip(c2 + 1)) is None);
        return None;
    }
    let p = Perm { read: b0 == 114, write: b1 == 119, execute: b2 == 120 };
    assert(line@.skip(c2 + 1) =~= seq![b0, b1, b2]);
    assert(parse_perm3(line@.skip(c2 + 1)) == Some(p));
    let qual_empty = c2 == c1 + 1;
    assert(qual_empty == (line@.subrange(c1 + 1, c2 as int).len() == 0));
    if range_is_word(line, 0, c1, "user") {
        assert(line@.take(c1 as int) == chars_bytes("user"@));
        if qual_empty {
            Some(PosixEntry { tag: PosixTag::UserObj, perm: p })
        } else {
            match crate::numtext::parse_u32_bytes(line, c1 + 1, c2) {
                Some(id) => Some(PosixEntry { tag: PosixTag::User(id), perm: p }),
                None => None,
            }
        }
    } else if range_is_word(line, 0, c1, "group") {
        if qual_empty {
            Some(PosixEntry { tag: PosixTag::GroupObj, perm: p })
        } else {
            match crate::numtext::parse_u32_bytes(line, c1 + 1, c2) {
                Some(id) => Some(PosixEntry { tag: PosixTag::Group(id), perm: p }),
                None => None,
            }
        }
    } else if range_is_word(line, 0, c1, "mask") {
        if qual_empty {
            Some(PosixEntry { tag: PosixTag::Mask, perm: p })
        } else {
            None
        }
    } else if range_is_word(line, 0, c1, "other") {
        if qual_empty {
            Some(PosixEntry { tag: PosixTag::Other, perm: p })
        } else {
            None
        }
    } else {
        None
    }
}

/// One rendered class-model line holds no newline and parses back to its
/// entry.
pub proof fn lemma_posix_line_round_trip(pe: PosixEntry)
    ensures
        forall|j: int|
            0 <= j < render_posix_line(pe).len() ==> (#[trigger] render_posix_line(pe)[j]) != 10,
        spec_posix_line(render_posix_line(pe)) == Some(pe),
{
    reveal_strlit("user");
    reveal_strlit("group");
    reveal_strlit("mask");
    reveal_strlit("other");
    let wu = chars_bytes("user"@);
    let wg = chars_bytes("group"@);
    let wm = chars_bytes("mask"@);
    let wo = chars_bytes("other"@);
    assert(wu =~= seq![117u8, 115u8, 101u8, 114u8]);
    assert(wg =~= seq![103u8, 114u8, 111u8, 117u8, 112u8]);
    assert(wm =~= seq![109u8, 97u8, 115u8, 107u8]);
    assert(wo =~= seq![111u8, 116u8, 104u8, 101u8, 114u8]);
    let w = chars_bytes(kind_word(tag_kind(pe.tag)));
    let q = posix_qual_bytes(pe.tag);
    let line = render_posix_line(pe);
    match pe.tag {
        PosixTag::User(id) => {
            lemma_dec_bytes_round_trip(id as nat);
        },
        PosixTag::Group(id) => {
            lemma_dec_bytes_round_trip(id as nat);
        },
        _ => {
        },
    }
    assert(forall|j: int| 0 <= j < q.len() ==> is_dec_byte(#[trigger] q[j]));
    let c1 = w.len() as int;
    let c2 = c1 + 1 + q.len() as int;
    assert(line.len() == c2 + 1 + 3);
    assert(line[c1] == 58);
    assert(line[c2] == 58);
    assert forall|j: int| 0 <= j < c1 implies line[j] != 58 && line[j] != 10 by {
        assert(line[j] == w[j]);
    }
    assert forall|j: int| c1 < j < c2 implies line[j] != 58 && line[j] != 10 by {
        assert(line[j] == q[j - (c1 + 1)]);
    }
    lemma_find_from_found(line, 0, c1, 58);
    lemma_find_from_found(line, c1 + 1, c2, 58);
    assert(line.take(c1) =~= w);
    assert(line.subrange(c1 + 1, c2) =~= q);
    assert(line.skip(c2 + 1) =~= perm3(pe.perm));
    assert(parse_perm3(perm3(pe.perm)) == Some(pe.perm));
    match pe.tag {
        PosixTag::UserObj => {
        },
        PosixTag::User(id) => {
            assert(spec_parse_u32(q) == Some(id));
        },
        PosixTag::GroupObj => {
            assert(w != wu);
        },
        PosixTag::Group(id) => {
            assert(w != wu);
            assert(spec_parse_u32(q) == Some(id));
        },
        PosixTag::Mask => {
            assert(w[0] == 109 && wu[0] == 117);
            assert(w != wu);
            assert(w != wg);
        },
        PosixTag::Other => {
            assert(w != wu);
            assert(w[0] == 111 && wg[0] == 103);
            assert(w != wg);
            assert(w != wm);
        },
    }
    assert(spec_posix_line(line) == Some(pe));
    assert forall|j: int| 0 <= j < line.len() implies (#[trigger] line[j]) != 10 by {
        if j == c1 || j == c2 {
        } else if j < c1 {
        } else if j < c2 {
        } else {
            assert(line[j] == perm3(pe.perm)[j - (c2 + 1)]);
        }
    }
}

/// The class-model text of a non-empty ACL starts with its first line.
proof fn lemma_render_posix_head_upto(s: Seq<PosixEntry>, n: int)
    requires
        1 <= n <= s.len(),
    ensures
        render_posix_upto(s, n) == render_posix_line(s[0]) + seq![10u8] + render_posix_upto(
            s.drop_first(),
            n - 1,
        ),
    decreases n,
{
    if n == 1 {
        assert(render_posix_upto(s, 0) =~= Seq::<u8>::empty());
        assert(render_posix_upto(s.drop_first(), 0) =~= Seq::<u8>::empty());
        assert(render_posix_upto(s, 1) =~= render_posix_line(s[0]) + seq![10u8]
            + render_posix_upto(s.drop_first(), 0));
    } else {
        lemma_render_posix_head_upto(s, n - 1);
        assert(s.drop_first()[n - 2] == s[n - 1]);
        assert(render_posix_upto(s, n) =~= render_posix_line(s[0]) + seq![10u8]
            + render_posix_upto(s.drop_first(), n - 1));
    }
}

/// Parsing picks the rendered entries back out of any text that ends in
/// them.
proof fn lemma_parse_render_posix_at(b: Seq<u8>, pos: int, s: Seq<PosixEntry>)
    requires
        0 <= pos <= b.len(),
        b.skip(pos) == render_posix(s),
    ensures
        spec_parse_posix_at(b, pos) == Some(s),
    decreases s.len(),
{
    if s.len() == 0 {
        assert(b.skip(pos).len() == 0);
        assert(s =~= Seq::<PosixEntry>::empty());
    } else {
        lemma_render_posix_head_upto(s, s.len() as int);
        lemma_posix_line_round_trip(s[0]);
        let line = render_posix_line(s[0]);
        let rest = render_posix_upto(s.drop_first(), s.len() - 1);
        assert(rest == render_posix(s.drop_first()));
        let k = pos + line.len() as int;
        assert(b.skip(pos).len() == line.len() + 1 + rest.len());
        assert forall|j: int| pos <= j < k implies b[j] != 10 by {
            assert(b[j] == b.skip(pos)[j - pos]);
            assert(b.skip(pos)[j - pos] == line[j - pos]);
        }
        assert(b[k] == b.skip(pos)[line.len() as int]);
        assert(b[k] == 10);
        lemma_find_from_found(b, pos, k, 10);
        assert(b.subrange(pos, k) =~= line);
        assert forall|j: int| 0 <= j < rest.len() implies b.skip(k + 1)[j] == rest[j] by {
            assert(b.skip(k + 1)[j] == b[k + 1 + j]);
            assert(b[k + 1 + j] == b.skip(pos)[line.len() + 1 + j]);
            assert(b.skip(pos)[line.len() + 1 + j] == rest[j]);
        }
        assert(b.skip(k + 1) =~= rest);
        lemma_parse_render_posix_at(b, k + 1, s.drop_first());
        assert(seq![s[0]] + s.drop_first() =~= s);
    }
}

/// Serializing a class-model native ACL and parsing the text reproduces
/// the ACL exactly.
pub proof fn lemma_posix_text_round_trip(s: Seq<PosixEntry>)
    ensures
        spec_parse_posix(render_posix(s)) == Some(s),
{
    assert(render_posix(s).skip(0) =~= render_posix(s));
    lemma_parse_render_posix_at(render_posix(s), 0, s);
}

/// Parses a class-model document, as `spec_parse_posix` states.
pub fn parse_posix_text(b: &Vec<u8>) -> (r: Option<Vec<PosixEntry>>)
    ensures
        r is Some <==> spec_parse_posix(b@) is Some,
        r matches Some(v) ==> spec_parse_posix(b@) == Some(v@),
{
    let mut acc: Vec<PosixEntry> = Vec::new();
    let mut pos: usize = 0;
    let n = b.len();
    while pos < n
        invariant
            0 <= pos <= n == b@.len(),
            spec_parse_posix(b@) == (match spec_parse_posix_at(b@, pos as int) {
                Option::None => Option::<Seq<PosixEntry>>::None,
                Option::Some(t) => Option::Some(acc@ + t),
            }),
        decreases n - pos,
    {
        let k = match find_byte(b, pos, 10) {
            Some(k) => k,
            None => {
                return None;
            },
        };
        let line = copy_range(b, pos, k);
        let pe = match parse_posix_line(&line) {
            Some(pe) => pe,
            None => {
                return None;
            },
        };
        proof {
            assert(find_from(b@, pos as int, 10) == k as int);
            assert(line@ == b@.subrange(pos as int, k as int));
            assert(spec_posix_line(b@.subrange(pos as int, k as int)) == Some(pe));
            assert(spec_parse_posix_at(b@, pos as int) == (match spec_parse_posix_at(b@, k + 1) {
                Option::None => Option::<Seq<PosixEntry>>::None,
                Option::Some(rest) => Option::Some(seq![pe] + rest),
            }));
            if spec_parse_posix_at(b@, k + 1) is Some {
                assert(acc@ + (seq![pe] + spec_parse_posix_at(b@, k + 1).unwrap()) =~= acc@.push(pe)
                    + spec_parse_posix_at(b@, k + 1).unwrap());
            }
        }
        acc.push(pe);
        pos = k + 1;
    }
    assert(spec_parse_posix_at(b@, pos as int) == Some(Seq::<PosixEntry>::empty()));
    assert(acc@ + Seq::<PosixEntry>::empty() =~= acc@);
    Some(acc)
}


/// The word naming a richer-model principal in native text, from its
/// identifier's classification.
pub open spec fn mac_kind_word(g: u128) -> Seq<char> {
    match mac_principal(g).0 {
        AclKind::Group => "group"@,
        AclKind::Everyone => "everyone"@,
        _ => "user"@,
    }
}

/// The empty permission-and-flag pair.
pub open spec fn pf_empty() -> (Perm, Flag) {
    (Perm { read: false, write: false, execute: false }, Flag::spec_empty())
}

/// The union of two permission-and-flag pairs.
pub open spec fn pf_union(a: (Perm, Flag), b: (Perm, Flag)) -> (Perm, Flag) {
    (a.0.spec_union(b.0), a.1.spec_union(b.1))
}

/// The permission or flag one word of the comma list denotes.
pub open spec fn pf_word_delta(w: Seq<u8>) -> Option<(Perm, Flag)> {
    if w == chars_bytes("read"@) {
        Some(((Perm { read: true, write: false, execute: false }), Flag::spec_empty()))
    } else if w == chars_bytes("write"@) {
        Some(((Perm { read: false, write: true, execute: false }), Flag::spec_empty()))
    } else if w == chars_bytes("execute"@) {
        Some(((Perm { read: false, write: false, execute: true }), Flag::spec_empty()))
    } else if w == chars_bytes("file_inherit"@) {
        Some((pf_empty().0, (Flag { file_inherit: true, ..Flag::spec_empty() })))
    } else if w == chars_bytes("directory_inherit"@) {
        Some((pf_empty().0, (Flag { dir_inherit: true, ..Flag::spec_empty() })))
    } else if w == chars_bytes("no_inherit"@) {
        Some((pf_empty().0, (Flag { no_inherit: true, ..Flag::spec_empty() })))
    } else if w == chars_bytes("inherited"@) {
        Some((pf_empty().0, (Flag { inherited: true, ..Flag::spec_empty() })))
    } else {
        None
    }
}

/// The words of a comma list: permissions first, then inheritance flags,
/// each in canonical order. The default-ACL marker never appears in
/// native text.
pub open spec fn permflag_words(p: Perm, f: Flag) -> Seq<Seq<u8>> {
    (if p.read {
        seq![chars_bytes("read"@)]
    } else {
        Seq::<Seq<u8>>::empty()
    }) + (if p.write {
        seq![chars_bytes("write"@)]
    } else {
        Seq::<Seq<u8>>::empty()
    }) + (if p.execute {
        seq![chars_bytes("execute"@)]
    } else {
        Seq::<Seq<u8>>::empty()
    }) + (if f.file_inherit {
        seq![chars_bytes("file_inherit"@)]
    } else {
        Seq::<Seq<u8>>::empty()
    }) + (if f.dir_inherit {
        seq![chars_bytes("directory_inherit"@)]
    } else {
        Seq::<Seq<u8>>::empty()
    }) + (if f.no_inherit {
        seq![chars_bytes("no_inherit"@)]
    } else {
        Seq::<Seq<u8>>::empty()
    }) + (if f.inherited {
        seq![chars_bytes("inherited"@)]
    } else {
        Seq::<Seq<u8>>::empty()
    })
}

/// The words joined with commas.
pub open spec fn join_comma(ws: Seq<Seq<u8>>) -> Seq<u8>
    decreases ws.len(),
{
    if ws.len() == 0 {
        Seq::empty()
    } else if ws.len() == 1 {
        ws[0]
    } else {
        join_comma(ws.drop_last()) + seq![44u8] + ws.last()
    }
}

/// The comma list of a permission and flag set.
pub open spec fn render_permflags(p: Perm, f: Flag) -> Seq<u8> {
    join_comma(permflag_words(p, f))
}

/// The permissions and flags parsed from position `pos` of a comma list.
pub open spec fn pf_at(b: Seq<u8>, pos: int) -> Option<(Perm, Flag)>
    decreases b.len() - pos,
{
    if pos < 0 || pos > b.len() {
        None
    } else {
        let k = find_from(b, pos, 44);
        if k < 0 {
            pf_word_delta(b.subrange(pos, b.len() as int))
        } else if k < pos || k >= b.len() {
            None
        } else {
            match pf_word_delta(b.subrange(pos, k)) {
                None => None,
                Some(d) => match pf_at(b, k + 1) {
                    None => None,
                    Some(rest) => Some(pf_union(d, rest)),
                },
            }
        }
    }
}

/// What parsing a comma list of permission and flag words yields.
pub open spec fn spec_permflags(b: Seq<u8>) -> Option<(Perm, Flag)> {
    if b.len() == 0 {
        Some(pf_empty())
    } else {
        pf_at(b, 0)
    }
}

/// The header line of the richer-model grammar.
pub open spec fn mac_header() -> Seq<u8> {
    chars_bytes("!#acl 1"@) + seq![10u8]
}

/// One line of the richer-model grammar, without its newline: the kind
/// word, the identifier text, empty name and id fields, the allow or
/// deny word, and the comma list.
pub open spec fn render_mac_line(me: MacEntry) -> Seq<u8> {
    chars_bytes(mac_kind_word(me.guid)) + seq![58u8] + guid_bytes(me.guid) + seq![
        58u8,
        58u8,
        58u8,
    ] + chars_bytes(
        if me.allow {
            "allow"@
        } else {
            "deny"@
        },
    ) + seq![58u8] + render_permflags(me.perm, me.flags)
}

/// The richer-model lines of the first `n` native entries.
pub open spec fn render_mac_upto(s: Seq<MacEntry>, n: int) -> Seq<u8>
    decreases n,
{
    if n <= 0 {
        Seq::empty()
    } else {
        render_mac_upto(s, n - 1) + render_mac_line(s[n - 1]) + seq![10u8]
    }
}

/// The richer-model text of a native ACL: the header, then one line per
/// entry.
pub open spec fn render_mac(s: Seq<MacEntry>) -> Seq<u8> {
    mac_header() + render_mac_upto(s, s.len() as int)
}

/// The identifier a parsed richer-model line denotes. A non-empty
/// identifier field is parsed permissively: a malformed identifier
/// resolves to the zero identifier rather than failing. With an empty
/// identifier field, a numeric name or id field embeds into the kind's
/// fixed-prefix range; anything else degrades to zero.
pub open spec fn mac_text_guid(kind: AclKind, f1: Seq<u8>, f2: Seq<u8>, f3: Seq<u8>) -> u128 {
    if f1.len() > 0 {
        match spec_parse_guid_b(f1) {
            Some(g) => g,
            None => 0,
        }
    } else if kind == AclKind::Everyone {
        EVERYONE_GUID
    } else {
        let base = if kind == AclKind::User {
            USER_GUID_BASE
        } else {
            GROUP_GUID_BASE
        };
        if f2.len() > 0 {
            match spec_parse_u32(f2) {
                Some(id) => (base + id) as u128,
                None => 0,
            }
        } else if f3.len() > 0 {
            match spec_parse_u32(f3) {
                Some(id) => (base + id) as u128,
                None => 0,
            }
        } else {
            0
        }
    }
}

/// The native entry of one richer-model line, when well-formed.
pub open spec fn spec_mac_line(line: Seq<u8>) -> Option<MacEntry> {
    let c1 = find_from(line, 0, 58);
    let c2 = find_from(line, c1 + 1, 58);
    let c3 = find_from(line, c2 + 1, 58);
    let c4 = find_from(line, c3 + 1, 58);
    let c5 = find_from(line, c4 + 1, 58);
    if c1 < 0 || c2 < 0 || c3 < 0 || c4 < 0 || c5 < 0 {
        None
    } else {
        let kindpart = line.take(c1);
        let kind = if kindpart == chars_bytes("user"@) {
            Some(AclKind::User)
        } else if kindpart == chars_bytes("group"@) {
            Some(AclKind::Group)
        } else if kindpart == chars_bytes("everyone"@) {
            Some(AclKind::Everyone)
        } else {
            None
        };
        let aw = line.subrange(c4 + 1, c5);
        let allow = if aw == chars_bytes("allow"@) {
            Some(true)
        } else if aw == chars_bytes("deny"@) {
            Some(false)
        } else {
            None
        };
        match (kind, allow, spec_permflags(line.skip(c5 + 1))) {
            (Some(k), Some(a), Some(pf)) => Some(
                MacEntry {
                    guid: mac_text_guid(
                        k,
                        line.subrange(c1 + 1, c2),
                        line.subrange(c2 + 1, c3),
                        line.subrange(c3 + 1, c4),
                    ),
                    allow: a,
                    perm: pf.0,
                    flags: pf.1,
                },
            ),
            _ => None,
        }
    }
}

/// The native entries parsed from the richer-model lines starting at
/// `pos`.
pub open spec fn spec_parse_mac_at(b: Seq<u8>, pos: int) -> Option<Seq<MacEntry>>
    decreases b.len() - pos,
{
    if pos < 0 || pos >= b.len() {
        Some(Seq::empty())
    } else {
        let k = find_from(b, pos, 10);
        if k < pos || k >= b.len() {
            None
        } else {
            match spec_mac_line(b.subrange(pos, k)) {
                None => None,
                Some(me) => match spec_parse_mac_at(b, k + 1) {
                    None => None,
                    Some(rest) => Some(seq![me] + rest),
                },
            }
        }
    }
}

/// What parsing a richer-model document yields: the header line, then
/// the entries.
pub open spec fn spec_parse_mac(b: Seq<u8>) -> Option<Seq<MacEntry>> {
    if b.len() >= 8 && b.take(8) == mac_header() {
        spec_parse_mac_at(b, 8)
    } else {
        None
    }
}

/// Appends one comma-list word, with a separating comma when needed.
fn pf_append(out: &mut Vec<u8>, sep: bool, w: &str)
    requires
        crate::numtext::ascii_seq(w@),
    ensures
        final(out)@ == old(out)@ + (if sep {
            seq![44u8]
        } else {
            Seq::<u8>::empty()
        }) + chars_bytes(w@),
{
    if sep {
        out.push(44);
    }
    push_str_ascii(out, w);
    assert(out@ =~= old(out)@ + (if sep {
        seq![44u8]
    } else {
        Seq::<u8>::empty()
    }) + chars_bytes(w@));
}

/// Joining one more word onto a comma list.
proof fn lemma_join_comma_snoc(ws: Seq<Seq<u8>>, w: Seq<u8>)
    ensures
        join_comma(ws.push(w)) == (if ws.len() == 0 {
            w
        } else {
            join_comma(ws) + seq![44u8] + w
        }),
{
    if ws.len() == 0 {
        assert(ws.push(w)[0] == w);
        assert(join_comma(ws.push(w)) == w);
    } else {
        assert(ws.push(w).drop_last() =~= ws);
        assert(ws.push(w).last() == w);
    }
}

/// Appends one optional word of the comma list, tracking the words
/// rendered so far.
fn pf_opt(
    out: &mut Vec<u8>,
    first: &mut bool,
    bit: bool,
    w: &str,
    done: Ghost<Seq<Seq<u8>>>,
) -> (r: Ghost<Seq<Seq<u8>>>)
    requires
        crate::numtext::ascii_seq(w@),
        old(out)@ == join_comma(done@),
        *old(first) == (done@.len() == 0),
    ensures
        r@ == done@ + (if bit {
            seq![chars_bytes(w@)]
        } else {
            Seq::<Seq<u8>>::empty()
        }),
        final(out)@ == join_comma(r@),
        *final(first) == (r@.len() == 0),
{
    if bit {
        pf_append(out, !*first, w);
        proof {
            lemma_join_comma_snoc(done@, chars_bytes(w@));
        }
        *first = false;
        proof {
            assert(done@.push(chars_bytes(w@)) =~= done@ + seq![chars_bytes(w@)]);
        }
        Ghost(done@.push(chars_bytes(w@)))
    } else {
        proof {
            assert(done@ + Seq::<Seq<u8>>::empty() =~= done@);
        }
        Ghost(done@)
    }
}

/// Renders the comma list of a permission and flag set.
pub fn render_permflags_vec(p: Perm, f: Flag) -> (r: Vec<u8>)
    ensures
        r@ == render_permflags(p, f),
{
    proof {
        reveal_strlit("read");
        reveal_strlit("write");
        reveal_strlit("execute");
        reveal_strlit("file_inherit");
        reveal_strlit("directory_inherit");
        reveal_strlit("no_inherit");
        reveal_strlit("inherited");
    }
    let mut out: Vec<u8> = Vec::new();
    let mut first: bool = true;
    let mut done: Ghost<Seq<Seq<u8>>> = Ghost(Seq::empty());
    done = pf_opt(&mut out, &mut first, p.read, "read", done);
    done = pf_opt(&mut out, &mut first, p.write, "write", done);
    done = pf_opt(&mut out, &mut first, p.execute, "execute", done);
    done = pf_opt(&mut out, &mut first, f.file_inherit, "file_inherit", done);
    done = pf_opt(&mut out, &mut first, f.dir_inherit, "directory_inherit", done);
    done = pf_opt(&mut out, &mut first, f.no_inherit, "no_inherit", done);
    done = pf_opt(&mut out, &mut first, f.inherited, "inherited", done);
    proof {
        assert(done@ =~= permflag_words(p, f));
    }
    out
}

/// The word naming a richer-model principal, as `mac_kind_word` states.
fn mac_kind_word_of(g: u128) -> (r: &'static str)
    ensures
        r@ == mac_kind_word(g),
{
    if g == EVERYONE_GUID {
        "everyone"
    } else if USER_GUID_BASE <= g && g <= USER_GUID_BASE + u32::MAX as u128 {
        "user"
    } else if GROUP_GUID_BASE <= g && g <= GROUP_GUID_BASE + u32::MAX as u128 {
        "group"
    } else {
        "user"
    }
}

/// Appends one richer-model line and its newline.
fn push_mac_line(v: &mut Vec<u8>, me: &MacEntry)
    ensures
        final(v)@ == old(v)@ + render_mac_line(*me) + seq![10u8],
{
    proof {
        reveal_strlit("user");
        reveal_strlit("group");
        reveal_strlit("everyone");
        reveal_strlit("allow");
        reveal_strlit("deny");
    }
    let w = mac_kind_word_of(me.guid);
    push_str_ascii(v, w);
    v.push(58);
    crate::numtext::push_guid(v, me.guid);
    v.push(58);
    v.push(58);
    v.push(58);
    if me.allow {
        push_str_ascii(v, "allow");
    } else {
        push_str_ascii(v, "deny");
    }
    v.push(58);
    let mut pf = render_permflags_vec(me.perm, me.flags);
    v.append(&mut pf);
    v.push(10);
    assert(v@ =~= old(v)@ + render_mac_line(*me) + seq![10u8]);
}

/// Renders a richer-model native ACL as text bytes.
pub fn render_mac_text(s: &Vec<MacEntry>) -> (r: Vec<u8>)
    ensures
        r@ == render_mac(s@),
{
    proof {
        reveal_strlit("!#acl 1");
    }
    let mut out: Vec<u8> = Vec::new();
    push_str_ascii(&mut out, "!#acl 1");
    out.push(10);
    assert(out@ =~= mac_header());
    let mut i: usize = 0;
    while i < s.len()
        invariant
            0 <= i <= s@.len(),
            out@ == mac_header() + render_mac_upto(s@, i as int),
        decreases s@.len() - i,
    {
        push_mac_line(&mut out, &s[i]);
        i = i + 1;
        assert(out@ =~= mac_header() + render_mac_upto(s@, i as int));
    }
    out
}

/// The permission or flag denoted by `b[start..end]`, as `pf_word_delta`
/// states.
fn word_delta(b: &Vec<u8>, start: usize, end: usize) -> (r: Option<(Perm, Flag)>)
    requires
        start <= end <= b@.len(),
    ensures
        r == pf_word_delta(b@.subrange(start as int, end as int)),
{
    proof {
        reveal_strlit("read");
        reveal_strlit("write");
        reveal_strlit("execute");
        reveal_strlit("file_inherit");
        reveal_strlit("directory_inherit");
        reveal_strlit("no_inherit");
        reveal_strlit("inherited");
    }
    if range_is_word(b, start, end, "read") {
        Some((Perm::new(true, false, false), Flag::empty()))
    } else if range_is_word(b, start, end, "write") {
        Some((Perm::new(false, true, false), Flag::empty()))
    } else if range_is_word(b, start, end, "execute") {
        Some((Perm::new(false, false, true), Flag::empty()))
    } else if range_is_word(b, start, end, "file_inherit") {
        let mut f = Flag::empty();
        f.file_inherit = true;
        Some((Perm::empty(), f))
    } else if range_is_word(b, start, end, "directory_inherit") {
        let mut f = Flag::empty();
        f.dir_inherit = true;
        Some((Perm::empty(), f))
    } else if range_is_word(b, start, end, "no_inherit") {
        let mut f = Flag::empty();
        f.no_inherit = true;
        Some((Perm::empty(), f))
    } else if range_is_word(b, start, end, "inherited") {
        let mut f = Flag::empty();
        f.inherited = true;
        Some((Perm::empty(), f))
    } else {
        None
    }
}

/// Parses a comma list, as `spec_permflags` states.
fn parse_permflags(b: &Vec<u8>) -> (r: Option<(Perm, Flag)>)
    ensures
        r == spec_permflags(b@),
{
    let n = b.len();
    if n == 0 {
        return Some((Perm::empty(), Flag::empty()));
    }
    let mut acc_p = Perm::empty();
    let mut acc_f = Flag::empty();
    let mut pos: usize = 0;
    loop
        invariant
            0 <= pos <= n == b@.len(),
            n > 0,
            pf_at(b@, 0) == (match pf_at(b@, pos as int) {
                Option::None => Option::<(Perm, Flag)>::None,
                Option::Some(d) => Option::Some(pf_union((acc_p, acc_f), d)),
            }),
        decreases n - pos,
    {
        let (endw, last) = match find_byte(b, pos, 44) {
            Some(k) => (k, false),
            None => (n, true),
        };
        let d = match word_delta(b, pos, endw) {
            Some(d) => d,
            None => {
                return None;
            },
        };
        acc_p = acc_p.union(d.0);
        acc_f = acc_f.union(d.1);
        if last {
            return Some((acc_p, acc_f));
        }
        pos = endw + 1;
    }
}

/// Parses one richer-model line, as `spec_mac_line` states.
fn parse_mac_line(line: &Vec<u8>) -> (r: Option<MacEntry>)
    ensures
        r == spec_mac_line(line@),
{
    proof {
        reveal_strlit("user");
        reveal_strlit("group");
        reveal_strlit("everyone");
        reveal_strlit("allow");
        reveal_strlit("deny");
    }
    let n = line.len();
    let c1 = match find_byte(line, 0, 58) {
        Some(k) => k,
        None => {
            return None;
        },
    };
    let c2 = match find_byte(line, c1 + 1, 58) {
        Some(k) => k,
        None => {
            return None;
        },
    };
    let c3 = match find_byte(line, c2 + 1, 58) {
        Some(k) => k,
        None => {
            return None;
        },
    };
    let c4 = match find_byte(line, c3 + 1, 58) {
        Some(k) => k,
        None => {
            return None;
        },
    };
    let c5 = match find_byte(line, c4 + 1, 58) {
        Some(k) => k,
        None => {
            return None;
        },
    };
    let kind = if range_is_word(line, 0, c1, "user") {
        AclKind::User
    } else if range_is_word(line, 0, c1, "group") {
        AclKind::Group
    } else if range_is_word(line, 0, c1, "everyone") {
        AclKind::Everyone
    } else {
        return None;
    };
    let allow = if range_is_word(line, c4 + 1, c5, "allow") {
        true
    } else if range_is_word(line, c4 + 1, c5, "deny") {
        false
    } else {
        return None;
    };
    let pf_field = copy_range(line, c5 + 1, n);
    let pf = match parse_permflags(&pf_field) {
        Some(pf) => pf,
        None => {
            return None;
        },
    };
    let f1_len = c2 - (c1 + 1);
    let guid: u128 = if f1_len > 0 {
        if f1_len == 36 {
            match crate::numtext::parse_guid_bytes(line, c1 + 1) {
                Some(g) => g,
                None => 0,
            }
        } else {
            assert(crate::numtext::spec_parse_guid_b(line@.subrange(c1 + 1, c2 as int)) is None);
            0
        }
    } else if kind == AclKind::Everyone {
        EVERYONE_GUID
    } else {
        let base: u128 = if kind == AclKind::User {
            USER_GUID_BASE
        } else {
            GROUP_GUID_BASE
        };
        if c3 - (c2 + 1) > 0 {
            match crate::numtext::parse_u32_bytes(line, c2 + 1, c3) {
                Some(id) => base + id as u128,
                None => 0,
            }
        } else if c4 - (c3 + 1) > 0 {
            match crate::numtext::parse_u32_bytes(line, c3 + 1, c4) {
                Some(id) => base + id as u128,
                None => 0,
            }
        } else {
            0
        }
    };
    Some(MacEntry { guid, allow: allow, perm: pf.0, flags: pf.1 })
}

/// Parses a richer-model document, as `spec_parse_mac` states.
pub fn parse_mac_text(b: &Vec<u8>) -> (r: Option<Vec<MacEntry>>)
    ensures
        r is Some <==> spec_parse_mac(b@) is Some,
        r matches Some(v) ==> spec_parse_mac(b@) == Some(v@),
{
    proof {
        reveal_strlit("!#acl 1");
    }
    let n = b.len();
    if n < 8 {
        return None;
    }
    if !range_is_word(b, 0, 7, "!#acl 1") || b[7] != 10 {
        assert(b@.take(8) != mac_header()) by {
            if b@.take(8) == mac_header() {
                assert(b@.subrange(0, 7) =~= chars_bytes("!#acl 1"@));
                assert(b@[7] == mac_header()[7]);
            }
        }
        return None;
    }
    assert(b@.take(8) =~= mac_header());
    let mut acc: Vec<MacEntry> = Vec::new();
    let mut pos: usize = 8;
    while pos < n
        invariant
            8 <= pos <= n == b@.len(),
            spec_parse_mac_at(b@, 8) == (match spec_parse_mac_at(b@, pos as int) {
                Option::None => Option::<Seq<MacEntry>>::None,
                Option::Some(t) => Option::Some(acc@ + t),
            }),
        decreases n - pos,
    {
        let k = match find_byte(b, pos, 10) {
            Some(k) => k,
            None => {
                return None;
            },
        };
        let line = copy_range(b, pos, k);
        let me = match parse_mac_line(&line) {
            Some(me) => me,
            None => {
                return None;
            },
        };
        proof {
            if spec_parse_mac_at(b@, k + 1) is Some {
                assert(acc@ + (seq![me] + spec_parse_mac_at(b@, k + 1).unwrap()) =~= acc@.push(me)
                    + spec_parse_mac_at(b@, k + 1).unwrap());
            }
        }
        acc.push(me);
        pos = k + 1;
    }
    assert(spec_parse_mac_at(b@, pos as int) == Some(Seq::<MacEntry>::empty()));
    assert(acc@ + Seq::<MacEntry>::empty() =~= acc@);
    Some(acc)
}


/// A word fit for the comma list: non-empty, free of separators, and
/// denoting a permission or flag.
pub open spec fn valid_pf_word(w: Seq<u8>) -> bool {
    &&& w.len() > 0
    &&& forall|j: int| 0 <= j < w.len() ==> w[j] != 44 && w[j] != 10 && w[j] != 58 && w[j] < 128
    &&& pf_word_delta(w) is Some
}

/// The union of everything a word list denotes.
pub open spec fn pf_union_all(ws: Seq<Seq<u8>>) -> (Perm, Flag)
    decreases ws.len(),
{
    if ws.len() == 0 {
        pf_empty()
    } else {
        pf_union(pf_word_delta(ws[0]).unwrap(), pf_union_all(ws.drop_first()))
    }
}

/// A comma list of two or more words starts with its first word and a
/// comma.
proof fn lemma_join_comma_head(ws: Seq<Seq<u8>>)
    requires
        ws.len() >= 2,
    ensures
        join_comma(ws) == ws[0] + seq![44u8] + join_comma(ws.drop_first()),
    decreases ws.len(),
{
    if ws.len() == 2 {
        assert(ws.drop_last()[0] == ws[0]);
        assert(ws.drop_last().len() == 1);
        assert(join_comma(ws.drop_last()) == ws[0]);
        assert(ws.drop_first().len() == 1);
        assert(join_comma(ws.drop_first()) == ws.drop_first()[0]);
        assert(ws.drop_first()[0] == ws.last());
        assert(join_comma(ws) =~= ws[0] + seq![44u8] + join_comma(ws.drop_first()));
    } else {
        lemma_join_comma_head(ws.drop_last());
        assert(ws.drop_last().drop_first() =~= ws.drop_first().drop_last());
        assert(ws.drop_last()[0] == ws[0]);
        assert(ws.drop_first().last() == ws.last());
        assert(ws.drop_first().len() >= 2);
        assert(join_comma(ws) =~= ws[0] + seq![44u8] + join_comma(ws.drop_first()));
    }
}

/// A comma list of valid words holds no newline and no colon.
pub proof fn lemma_join_no_sep(ws: Seq<Seq<u8>>)
    requires
        forall|i: int| 0 <= i < ws.len() ==> valid_pf_word(#[trigger] ws[i]),
    ensures
        forall|j: int|
            0 <= j < join_comma(ws).len() ==> (#[trigger] join_comma(ws)[j]) != 10 && join_comma(
                ws,
            )[j] != 58 && join_comma(ws)[j] < 128,
    decreases ws.len(),
{
    if ws.len() == 0 {
    } else if ws.len() == 1 {
        assert(valid_pf_word(ws[0]));
        assert forall|j: int|
            0 <= j < join_comma(ws).len() implies (#[trigger] join_comma(ws)[j]) != 10
            && join_comma(ws)[j] != 58 && join_comma(ws)[j] < 128 by {
            assert(join_comma(ws)[j] == ws[0][j]);
        }
    } else {
        lemma_join_comma_head(ws);
        assert(forall|i: int|
            0 <= i < ws.drop_first().len() ==> valid_pf_word(#[trigger] ws.drop_first()[i]));
        lemma_join_no_sep(ws.drop_first());
        assert(valid_pf_word(ws[0]));
        let w0 = ws[0];
        let rest = join_comma(ws.drop_first());
        assert forall|j: int|
            0 <= j < join_comma(ws).len() implies (#[trigger] join_comma(ws)[j]) != 10
            && join_comma(ws)[j] != 58 && join_comma(ws)[j] < 128 by {
            if j < w0.len() {
                assert(join_comma(ws)[j] == w0[j]);
            } else if j == w0.len() {
                assert(join_comma(ws)[j] == 44);
            } else {
                assert(join_comma(ws)[j] == rest[j - w0.len() - 1]);
            }
        }
    }
}

/// Parsing a comma list of valid words yields the union of what they
/// denote.
proof fn lemma_pf_at_join(b: Seq<u8>, pos: int, ws: Seq<Seq<u8>>)
    requires
        0 <= pos <= b.len(),
        b.skip(pos) == join_comma(ws),
        ws.len() >= 1,
        forall|i: int| 0 <= i < ws.len() ==> valid_pf_word(#[trigger] ws[i]),
    ensures
        pf_at(b, pos) == Some(pf_union_all(ws)),
    decreases ws.len(),
{
    let w0 = ws[0];
    assert(valid_pf_word(ws[0]));
    if ws.len() == 1 {
        assert(b.skip(pos) == w0);
        assert forall|j: int| pos <= j < b.len() implies b[j] != 44 by {
            assert(b[j] == b.skip(pos)[j - pos]);
        }
        lemma_find_from_none(b, pos, 44);
        assert(b.subrange(pos, b.len() as int) =~= w0);
        let d = pf_word_delta(w0).unwrap();
        assert(ws.drop_first().len() == 0);
        assert(pf_union_all(ws.drop_first()) == pf_empty());
        assert(pf_union(d, pf_empty()).0 =~= d.0);
        assert(pf_union(d, pf_empty()).1 =~= d.1);
        assert(pf_union(d, pf_empty()) =~= d);
        assert(pf_word_delta(b.subrange(pos, b.len() as int)) == Some(d));
        assert(pf_at(b, pos) == Some(pf_union_all(ws)));
    } else {
        lemma_join_comma_head(ws);
        let rest = join_comma(ws.drop_first());
        let k = pos + w0.len() as int;
        assert(b.skip(pos).len() == w0.len() + 1 + rest.len());
        assert forall|j: int| pos <= j < k implies b[j] != 44 by {
            assert(b[j] == b.skip(pos)[j - pos]);
            assert(b.skip(pos)[j - pos] == w0[j - pos]);
        }
        assert(b[k] == b.skip(pos)[w0.len() as int]);
        assert(b[k] == 44);
        lemma_find_from_found(b, pos, k, 44);
        assert(b.subrange(pos, k) =~= w0);
        assert forall|j: int| 0 <= j < rest.len() implies b.skip(k + 1)[j] == rest[j] by {
            assert(b.skip(k + 1)[j] == b[k + 1 + j]);
            assert(b[k + 1 + j] == b.skip(pos)[w0.len() + 1 + j]);
            assert(b.skip(pos)[w0.len() + 1 + j] == rest[j]);
        }
        assert(b.skip(k + 1) =~= rest);
        assert(forall|i: int|
            0 <= i < ws.drop_first().len() ==> valid_pf_word(#[trigger] ws.drop_first()[i]));
        lemma_pf_at_join(b, k + 1, ws.drop_first());
        assert(pf_at(b, pos) == Some(pf_union_all(ws)));
    }
}

/// The union a concatenation of word lists denotes, by halves.
proof fn lemma_pf_union_all_concat(a: Seq<Seq<u8>>, b: Seq<Seq<u8>>)
    ensures
        pf_union_all(a + b) == pf_union(pf_union_all(a), pf_union_all(b)),
    decreases a.len(),
{
    if a.len() == 0 {
        assert(a + b =~= b);
        assert(pf_union(pf_empty(), pf_union_all(b)) == pf_union_all(b));
    } else {
        assert((a + b).drop_first() =~= a.drop_first() + b);
        assert((a + b)[0] == a[0]);
        lemma_pf_union_all_concat(a.drop_first(), b);
    }
}

/// The facts about the seven comma-list words: each is valid and denotes
/// exactly its own bit.
proof fn lemma_pf_word_facts()
    ensures
        valid_pf_word(chars_bytes("read"@)),
        valid_pf_word(chars_bytes("write"@)),
        valid_pf_word(chars_bytes("execute"@)),
        valid_pf_word(chars_bytes("file_inherit"@)),
        valid_pf_word(chars_bytes("directory_inherit"@)),
        valid_pf_word(chars_bytes("no_inherit"@)),
        valid_pf_word(chars_bytes("inherited"@)),
        pf_word_delta(chars_bytes("read"@)) == Some(
            ((Perm { read: true, write: false, execute: false }), Flag::spec_empty()),
        ),
        pf_word_delta(chars_bytes("write"@)) == Some(
            ((Perm { read: false, write: true, execute: false }), Flag::spec_empty()),
        ),
        pf_word_delta(chars_bytes("execute"@)) == Some(
            ((Perm { read: false, write: false, execute: true }), Flag::spec_empty()),
        ),
        pf_word_delta(chars_bytes("file_inherit"@)) == Some(
            (pf_empty().0, (Flag { file_inherit: true, ..Flag::spec_empty() })),
        ),
        pf_word_delta(chars_bytes("directory_inherit"@)) == Some(
            (pf_empty().0, (Flag { dir_inherit: true, ..Flag::spec_empty() })),
        ),
        pf_word_delta(chars_bytes("no_inherit"@)) == Some(
            (pf_empty().0, (Flag { no_inherit: true, ..Flag::spec_empty() })),
        ),
        pf_word_delta(chars_bytes("inherited"@)) == Some(
            (pf_empty().0, (Flag { inherited: true, ..Flag::spec_empty() })),
        ),
{
    reveal_strlit("read");
    reveal_strlit("write");
    reveal_strlit("execute");
    reveal_strlit("file_inherit");
    reveal_strlit("directory_inherit");
    reveal_strlit("no_inherit");
    reveal_strlit("inherited");
    assert(chars_bytes("read"@) =~= seq![114u8, 101u8, 97u8, 100u8]);
    assert(chars_bytes("write"@) =~= seq![119u8, 114u8, 105u8, 116u8, 101u8]);
    assert(chars_bytes("execute"@) =~= seq![101u8, 120u8, 101u8, 99u8, 117u8, 116u8, 101u8]);
    assert(chars_bytes("file_inherit"@) =~= seq![
        102u8,
        105u8,
        108u8,
        101u8,
        95u8,
        105u8,
        110u8,
        104u8,
        101u8,
        114u8,
        105u8,
        116u8,
    ]);
    assert(chars_bytes("directory_inherit"@) =~= seq![
        100u8,
        105u8,
        114u8,
        101u8,
        99u8,
        116u8,
        111u8,
        114u8,
        121u8,
        95u8,
        105u8,
        110u8,
        104u8,
        101u8,
        114u8,
        105u8,
        116u8,
    ]);
    assert(chars_bytes("no_inherit"@) =~= seq![
        110u8,
        111u8,
        95u8,
        105u8,
        110u8,
        104u8,
        101u8,
        114u8,
        105u8,
        116u8,
    ]);
    assert(chars_bytes("inherited"@) =~= seq![
        105u8,
        110u8,
        104u8,
        101u8,
        114u8,
        105u8,
        116u8,
        101u8,
        100u8,
    ]);
}

/// The fold over a single-word list.
proof fn lemma_pf_union_single(w: Seq<u8>, d: (Perm, Flag))
    requires
        pf_word_delta(w) == Some(d),
    ensures
        pf_union_all(seq![w]) == pf_union(d, pf_empty()),
{
    assert(seq![w][0] == w);
    assert(seq![w].drop_first().len() == 0);
    assert(pf_union_all(seq![w].drop_first()) == pf_empty());
}

/// Every word of a permission-and-flag word list is valid.
#[verifier::rlimit(80)]
pub proof fn lemma_permflag_words_valid(p: Perm, f: Flag)
    ensures
        forall|i: int|
            0 <= i < permflag_words(p, f).len() ==> valid_pf_word(
                #[trigger] permflag_words(p, f)[i],
            ),
{
    lemma_pf_word_facts();
    let a1: Seq<Seq<u8>> = if p.read {
        seq![chars_bytes("read"@)]
    } else {
        Seq::empty()
    };
    let a2: Seq<Seq<u8>> = if p.write {
        seq![chars_bytes("write"@)]
    } else {
        Seq::empty()
    };
    let a3: Seq<Seq<u8>> = if p.execute {
        seq![chars_bytes("execute"@)]
    } else {
        Seq::empty()
    };
    let a4: Seq<Seq<u8>> = if f.file_inherit {
        seq![chars_bytes("file_inherit"@)]
    } else {
        Seq::empty()
    };
    let a5: Seq<Seq<u8>> = if f.dir_inherit {
        seq![chars_bytes("directory_inherit"@)]
    } else {
        Seq::empty()
    };
    let a6: Seq<Seq<u8>> = if f.no_inherit {
        seq![chars_bytes("no_inherit"@)]
    } else {
        Seq::empty()
    };
    let a7: Seq<Seq<u8>> = if f.inherited {
        seq![chars_bytes("inherited"@)]
    } else {
        Seq::empty()
    };
    let ws = permflag_words(p, f);
    assert(ws == a1 + a2 + a3 + a4 + a5 + a6 + a7);
    assert forall|i: int| 0 <= i < ws.len() implies valid_pf_word(#[trigger] ws[i]) by {
        if i < a1.len() {
            assert(ws[i] == a1[0]);
        } else if i < a1.len() + a2.len() {
            assert(ws[i] == a2[0]);
        } else if i < a1.len() + a2.len() + a3.len() {
            assert(ws[i] == a3[0]);
        } else if i < a1.len() + a2.len() + a3.len() + a4.len() {
            assert(ws[i] == a4[0]);
        } else if i < a1.len() + a2.len() + a3.len() + a4.len() + a5.len() {
            assert(ws[i] == a5[0]);
        } else if i < a1.len() + a2.len() + a3.len() + a4.len() + a5.len() + a6.len() {
            assert(ws[i] == a6[0]);
        } else {
            assert(ws[i] == a7[0]);
        }
    }
}

/// The words of a permission-and-flag word list together denote exactly
/// the given sets.
#[verifier::rlimit(100)]
#[verifier::spinoff_prover]
proof fn lemma_permflag_words_denote(p: Perm, f: Flag)
    requires
        f.is_default == false,
    ensures
        pf_union_all(permflag_words(p, f)) == (p, f),
        permflag_words(p, f).len() == 0 ==> p == (Perm {
            read: false,
            write: false,
            execute: false,
        }) && f == Flag::spec_empty(),
{
    lemma_pf_word_facts();
    let a1: Seq<Seq<u8>> = if p.read {
        seq![chars_bytes("read"@)]
    } else {
        Seq::empty()
    };
    let a2: Seq<Seq<u8>> = if p.write {
        seq![chars_bytes("write"@)]
    } else {
        Seq::empty()
    };
    let a3: Seq<Seq<u8>> = if p.execute {
        seq![chars_bytes("execute"@)]
    } else {
        Seq::empty()
    };
    let a4: Seq<Seq<u8>> = if f.file_inherit {
        seq![chars_bytes("file_inherit"@)]
    } else {
        Seq::empty()
    };
    let a5: Seq<Seq<u8>> = if f.dir_inherit {
        seq![chars_bytes("directory_inherit"@)]
    } else {
        Seq::empty()
    };
    let a6: Seq<Seq<u8>> = if f.no_inherit {
        seq![chars_bytes("no_inherit"@)]
    } else {
        Seq::empty()
    };
    let a7: Seq<Seq<u8>> = if f.inherited {
        seq![chars_bytes("inherited"@)]
    } else {
        Seq::empty()
    };
    if p.read {
        lemma_pf_union_single(
            chars_bytes("read"@),
            ((Perm { read: true, write: false, execute: false }), Flag::spec_empty()),
        );
    }
    if p.write {
        lemma_pf_union_single(
            chars_bytes("write"@),
            ((Perm { read: false, write: true, execute: false }), Flag::spec_empty()),
        );
    }
    if p.execute {
        lemma_pf_union_single(
            chars_bytes("execute"@),
            ((Perm { read: false, write: false, execute: true }), Flag::spec_empty()),
        );
    }
    if f.file_inherit {
        lemma_pf_union_single(
            chars_bytes("file_inherit"@),
            (pf_empty().0, (Flag { file_inherit: true, ..Flag::spec_empty() })),
        );
    }
    if f.dir_inherit {
        lemma_pf_union_single(
            chars_bytes("directory_inherit"@),
            (pf_empty().0, (Flag { dir_inherit: true, ..Flag::spec_empty() })),
        );
    }
    if f.no_inherit {
        lemma_pf_union_single(
            chars_bytes("no_inherit"@),
            (pf_empty().0, (Flag { no_inherit: true, ..Flag::spec_empty() })),
        );
    }
    if f.inherited {
        lemma_pf_union_single(
            chars_bytes("inherited"@),
            (pf_empty().0, (Flag { inherited: true, ..Flag::spec_empty() })),
        );
    }
    let t7 = a7;
    let t6 = a6 + t7;
    let t5 = a5 + t6;
    let t4 = a4 + t5;
    let t3 = a3 + t4;
    let t2 = a2 + t3;
    let t1 = a1 + t2;
    lemma_pf_union_all_concat(a6, t7);
    lemma_pf_union_all_concat(a5, t6);
    lemma_pf_union_all_concat(a4, t5);
    lemma_pf_union_all_concat(a3, t4);
    lemma_pf_union_all_concat(a2, t3);
    lemma_pf_union_all_concat(a1, t2);
    let ws = permflag_words(p, f);
    assert(ws =~= t1);
    let u = pf_union_all(t1);
    assert(u.0.read == p.read && u.0.write == p.write && u.0.execute == p.execute);
    assert(u.1.is_default == false && u.1.file_inherit == f.file_inherit && u.1.dir_inherit
        == f.dir_inherit && u.1.no_inherit == f.no_inherit && u.1.inherited == f.inherited);
    assert(u.0 =~= p);
    assert(u.1 =~= f);
    assert(u =~= (p, f));
}

/// The comma list of a permission and flag set parses back to it, and
/// holds no newline and no colon. The default-ACL marker is structural
/// metadata that native text never carries, so it must be clear.
pub proof fn lemma_permflags_round_trip(p: Perm, f: Flag)
    requires
        f.is_default == false,
    ensures
        spec_permflags(render_permflags(p, f)) == Some((p, f)),
        forall|j: int|
            0 <= j < render_permflags(p, f).len() ==> (#[trigger] render_permflags(p, f)[j]) != 10
                && render_permflags(p, f)[j] != 58,
{
    lemma_permflag_words_valid(p, f);
    lemma_permflag_words_denote(p, f);
    let ws = permflag_words(p, f);
    lemma_join_no_sep(ws);
    if ws.len() == 0 {
        assert(render_permflags(p, f).len() == 0);
    } else {
        let b = render_permflags(p, f);
        if ws.len() == 1 {
            assert(b == ws[0]);
            assert(valid_pf_word(ws[0]));
            assert(b.len() > 0);
        } else {
            lemma_join_comma_head(ws);
            assert(valid_pf_word(ws[0]));
            assert(b.len() > 0);
        }
        assert(b.skip(0) =~= b);
        lemma_pf_at_join(b, 0, ws);
    }
}


/// One rendered richer-model line holds no newline and parses back to
/// its entry. The default-ACL marker never appears in native text, so
/// it must be clear.
#[verifier::rlimit(100)]
#[verifier::spinoff_prover]
pub proof fn lemma_mac_line_round_trip(me: MacEntry)
    requires
        me.flags.is_default == false,
    ensures
        forall|j: int|
            0 <= j < render_mac_line(me).len() ==> (#[trigger] render_mac_line(me)[j]) != 10,
        spec_mac_line(render_mac_line(me)) == Some(me),
{
    reveal_strlit("user");
    reveal_strlit("group");
    reveal_strlit("everyone");
    reveal_strlit("allow");
    reveal_strlit("deny");
    let wu = chars_bytes("user"@);
    let wg = chars_bytes("group"@);
    let we = chars_bytes("everyone"@);
    let wa = chars_bytes("allow"@);
    let wd = chars_bytes("deny"@);
    assert(wu =~= seq![117u8, 115u8, 101u8, 114u8]);
    assert(wg =~= seq![103u8, 114u8, 111u8, 117u8, 112u8]);
    assert(we =~= seq![101u8, 118u8, 101u8, 114u8, 121u8, 111u8, 110u8, 101u8]);
    assert(wa =~= seq![97u8, 108u8, 108u8, 111u8, 119u8]);
    assert(wd =~= seq![100u8, 101u8, 110u8, 121u8]);
    let g = me.guid;
    let w = chars_bytes(mac_kind_word(g));
    let gb = crate::numtext::guid_bytes(g);
    let a = chars_bytes(
        if me.allow {
            "allow"@
        } else {
            "deny"@
        },
    );
    let pf = render_permflags(me.perm, me.flags);
    crate::numtext::lemma_guid_round_trip(g);
    lemma_permflags_round_trip(me.perm, me.flags);
    assert forall|j: int| 0 <= j < 36 implies gb[j] != 58 && gb[j] != 10 by {
        if j != 8 && j != 13 && j != 18 && j != 23 {
            assert(crate::numtext::nib_pos(crate::numtext::guid_nib_of(j)) == j);
            assert(0 <= crate::numtext::guid_nib_of(j) < 32);
            assert(crate::numtext::is_hex_byte(gb[j]));
        }
    }
    let line = render_mac_line(me);
    let c1 = w.len() as int;
    let c2 = c1 + 37;
    let c3 = c2 + 1;
    let c4 = c3 + 1;
    let c5 = c4 + 1 + a.len() as int;
    assert(line.len() == c5 + 1 + pf.len());
    assert(line[c1] == 58);
    assert(line[c2] == 58);
    assert(line[c3] == 58);
    assert(line[c4] == 58);
    assert(line[c5] == 58);
    assert forall|j: int| 0 <= j < c1 implies line[j] != 58 && line[j] != 10 by {
        assert(line[j] == w[j]);
    }
    assert forall|j: int| c1 < j < c2 implies line[j] != 58 && line[j] != 10 by {
        assert(line[j] == gb[j - (c1 + 1)]);
    }
    assert forall|j: int| c4 < j < c5 implies line[j] != 58 && line[j] != 10 by {
        assert(line[j] == a[j - (c4 + 1)]);
    }
    assert forall|j: int| c5 < j < line.len() implies line[j] != 58 && line[j] != 10 by {
        assert(line[j] == pf[j - (c5 + 1)]);
    }
    lemma_find_from_found(line, 0, c1, 58);
    lemma_find_from_found(line, c1 + 1, c2, 58);
    lemma_find_from_found(line, c2 + 1, c3, 58);
    lemma_find_from_found(line, c3 + 1, c4, 58);
    lemma_find_from_found(line, c4 + 1, c5, 58);
    assert(line.take(c1) =~= w);
    assert(line.subrange(c1 + 1, c2) =~= gb);
    assert(line.subrange(c2 + 1, c3) =~= Seq::<u8>::empty());
    assert(line.subrange(c3 + 1, c4) =~= Seq::<u8>::empty());
    assert(line.subrange(c4 + 1, c5) =~= a);
    assert(line.skip(c5 + 1) =~= pf);
    if me.allow {
    } else {
        assert(a != wa);
    }
    match mac_principal(g).0 {
        AclKind::Group => {
            assert(w != wu);
        },
        AclKind::Everyone => {
            assert(w != wu);
            assert(w != wg);
        },
        _ => {
        },
    }
    assert(gb.len() == 36);
    assert(crate::numtext::spec_parse_guid_b(gb) == Some(g));
    assert(spec_mac_line(line) == Some(me));
    assert forall|j: int| 0 <= j < line.len() implies (#[trigger] line[j]) != 10 by {
        if j == c1 || j == c2 || j == c3 || j == c4 || j == c5 {
        }
    }
}

/// The richer-model lines of a non-empty ACL start with the first line.
proof fn lemma_render_mac_head_upto(s: Seq<MacEntry>, n: int)
    requires
        1 <= n <= s.len(),
    ensures
        render_mac_upto(s, n) == render_mac_line(s[0]) + seq![10u8] + render_mac_upto(
            s.drop_first(),
            n - 1,
        ),
    decreases n,
{
    if n == 1 {
        assert(render_mac_upto(s, 0) =~= Seq::<u8>::empty());
        assert(render_mac_upto(s.drop_first(), 0) =~= Seq::<u8>::empty());
        assert(render_mac_upto(s, 1) =~= render_mac_line(s[0]) + seq![10u8] + render_mac_upto(
            s.drop_first(),
            0,
        ));
    } else {
        lemma_render_mac_head_upto(s, n - 1);
        assert(s.drop_first()[n - 2] == s[n - 1]);
        assert(render_mac_upto(s, n) =~= render_mac_line(s[0]) + seq![10u8] + render_mac_upto(
            s.drop_first(),
            n - 1,
        ));
    }
}

/// Parsing picks the rendered richer-model entries back out.
#[verifier::rlimit(100)]
#[verifier::spinoff_prover]
proof fn lemma_parse_render_mac_at(b: Seq<u8>, pos: int, s: Seq<MacEntry>)
    requires
        0 <= pos <= b.len(),
        b.skip(pos) == render_mac_upto(s, s.len() as int),
        forall|i: int| 0 <= i < s.len() ==> (#[trigger] s[i]).flags.is_default == false,
    ensures
        spec_parse_mac_at(b, pos) == Some(s),
    decreases s.len(),
{
    if s.len() == 0 {
        assert(b.skip(pos).len() == 0);
        assert(s =~= Seq::<MacEntry>::empty());
    } else {
        lemma_render_mac_head_upto(s, s.len() as int);
        assert(s[0].flags.is_default == false);
        lemma_mac_line_round_trip(s[0]);
        let line = render_mac_line(s[0]);
        let rest = render_mac_upto(s.drop_first(), s.len() - 1);
        let k = pos + line.len() as int;
        assert(b.skip(pos).len() == line.len() + 1 + rest.len());
        assert forall|j: int| pos <= j < k implies b[j] != 10 by {
            assert(b[j] == b.skip(pos)[j - pos]);
            assert(b.skip(pos)[j - pos] == line[j - pos]);
        }
        assert(b[k] == b.skip(pos)[line.len() as int]);
        assert(b[k] == 10);
        lemma_find_from_found(b, pos, k, 10);
        assert(b.subrange(pos, k) =~= line);
        assert forall|j: int| 0 <= j < rest.len() implies b.skip(k + 1)[j] == rest[j] by {
            assert(b.skip(k + 1)[j] == b[k + 1 + j]);
            assert(b[k + 1 + j] == b.skip(pos)[line.len() + 1 + j]);
            assert(b.skip(pos)[line.len() + 1 + j] == rest[j]);
        }
        assert(b.skip(k + 1) =~= rest);
        assert(forall|i: int|
            0 <= i < s.drop_first().len() ==> (#[trigger] s.drop_first()[i]).flags.is_default
                == false);
        lemma_parse_render_mac_at(b, k + 1, s.drop_first());
        assert(seq![s[0]] + s.drop_first() =~= s);
    }
}

/// Serializing a richer-model native ACL and parsing the text reproduces
/// the ACL exactly, for the ACLs the richer model stores: the default-ACL
/// marker never reaches a native entry.
pub proof fn lemma_mac_text_round_trip(s: Seq<MacEntry>)
    requires
        forall|i: int| 0 <= i < s.len() ==> (#[trigger] s[i]).flags.is_default == false,
    ensures
        spec_parse_mac(render_mac(s)) == Some(s),
{
    reveal_strlit("!#acl 1");
    let b = render_mac(s);
    assert(mac_header().len() == 8);
    assert(b.len() >= 8);
    assert(b.take(8) =~= mac_header());
    assert forall|j: int| 0 <= j < render_mac_upto(s, s.len() as int).len() implies b.skip(8)[j]
        == render_mac_upto(s, s.len() as int)[j] by {
        assert(b.skip(8)[j] == b[8 + j]);
    }
    assert(b.skip(8) =~= render_mac_upto(s, s.len() as int));
    lemma_parse_render_mac_at(b, 8, s);
}


/// Every byte of one rendered class-model line is plain ASCII.
proof fn lemma_posix_line_ascii(pe: PosixEntry)
    ensures
        forall|j: int|
            0 <= j < render_posix_line(pe).len() ==> (#[trigger] render_posix_line(pe)[j]) < 128,
{
    reveal_strlit("user");
    reveal_strlit("group");
    reveal_strlit("mask");
    reveal_strlit("other");
    assert(chars_bytes("user"@) =~= seq![117u8, 115u8, 101u8, 114u8]);
    assert(chars_bytes("group"@) =~= seq![103u8, 114u8, 111u8, 117u8, 112u8]);
    assert(chars_bytes("mask"@) =~= seq![109u8, 97u8, 115u8, 107u8]);
    assert(chars_bytes("other"@) =~= seq![111u8, 116u8, 104u8, 101u8, 114u8]);
    let w = chars_bytes(kind_word(tag_kind(pe.tag)));
    let q = posix_qual_bytes(pe.tag);
    match pe.tag {
        PosixTag::User(id) => {
            lemma_dec_bytes_round_trip(id as nat);
        },
        PosixTag::Group(id) => {
            lemma_dec_bytes_round_trip(id as nat);
        },
        _ => {
        },
    }
    let line = render_posix_line(pe);
    assert forall|j: int| 0 <= j < line.len() implies (#[trigger] line[j]) < 128 by {
        if j < w.len() {
            assert(line[j] == w[j]);
        } else if j == w.len() {
        } else if j < w.len() + 1 + q.len() {
            assert(line[j] == q[j - (w.len() + 1)]);
            assert(is_dec_byte(q[j - (w.len() + 1)]));
        } else if j == w.len() + 1 + q.len() {
        } else {
            assert(line[j] == perm3(pe.perm)[j - (w.len() + 1 + q.len() + 1)]);
        }
    }
}

/// Every byte of a rendered class-model document is plain ASCII.
pub proof fn lemma_render_posix_ascii(s: Seq<PosixEntry>, n: int)
    requires
        0 <= n <= s.len(),
    ensures
        forall|j: int|
            0 <= j < render_posix_upto(s, n).len() ==> (#[trigger] render_posix_upto(s, n)[j])
                < 128,
    decreases n,
{
    if n > 0 {
        lemma_render_posix_ascii(s, n - 1);
        lemma_posix_line_ascii(s[n - 1]);
        let prev = render_posix_upto(s, n - 1);
        let line = render_posix_line(s[n - 1]);
        assert forall|j: int| 0 <= j < render_posix_upto(s, n).len() implies (
        #[trigger] render_posix_upto(s, n)[j]) < 128 by {
            if j < prev.len() {
                assert(render_posix_upto(s, n)[j] == prev[j]);
            } else if j < prev.len() + line.len() {
                assert(render_posix_upto(s, n)[j] == line[j - prev.len()]);
            } else {
                assert(render_posix_upto(s, n)[j] == 10);
            }
        }
    }
}

/// Every byte of one rendered richer-model line is plain ASCII.
proof fn lemma_mac_line_ascii(me: MacEntry)
    ensures
        forall|j: int|
            0 <= j < render_mac_line(me).len() ==> (#[trigger] render_mac_line(me)[j]) < 128,
{
    reveal_strlit("user");
    reveal_strlit("group");
    reveal_strlit("everyone");
    reveal_strlit("allow");
    reveal_strlit("deny");
    assert(chars_bytes("user"@) =~= seq![117u8, 115u8, 101u8, 114u8]);
    assert(chars_bytes("group"@) =~= seq![103u8, 114u8, 111u8, 117u8, 112u8]);
    assert(chars_bytes("everyone"@) =~= seq![101u8, 118u8, 101u8, 114u8, 121u8, 111u8, 110u8, 101u8]);
    assert(chars_bytes("allow"@) =~= seq![97u8, 108u8, 108u8, 111u8, 119u8]);
    assert(chars_bytes("deny"@) =~= seq![100u8, 101u8, 110u8, 121u8]);
    let g = me.guid;
    let w = chars_bytes(mac_kind_word(g));
    let gb = guid_bytes(g);
    let a = chars_bytes(
        if me.allow {
            "allow"@
        } else {
            "deny"@
        },
    );
    let pf = render_permflags(me.perm, me.flags);
    crate::numtext::lemma_guid_round_trip(g);
    assert forall|j: int| 0 <= j < 36 implies gb[j] < 128 by {
        if j != 8 && j != 13 && j != 18 && j != 23 {
            assert(crate::numtext::nib_pos(crate::numtext::guid_nib_of(j)) == j);
            assert(0 <= crate::numtext::guid_nib_of(j) < 32);
            assert(crate::numtext::is_hex_byte(gb[j]));
        }
    }
    lemma_permflag_words_valid(me.perm, me.flags);
    lemma_join_no_sep(permflag_words(me.perm, me.flags));
    let line = render_mac_line(me);
    let c1 = w.len() as int;
    let c2 = c1 + 37;
    let c5 = c2 + 3 + a.len() as int;
    assert forall|j: int| 0 <= j < line.len() implies (#[trigger] line[j]) < 128 by {
        if j < c1 {
            assert(line[j] == w[j]);
        } else if j == c1 {
        } else if j < c2 {
            assert(line[j] == gb[j - (c1 + 1)]);
        } else if j <= c2 + 2 {
        } else if j < c5 {
            assert(line[j] == a[j - (c2 + 3)]);
        } else if j == c5 {
        } else {
            assert(line[j] == pf[j - (c5 + 1)]);
        }
    }
}

/// Every byte of a rendered richer-model document is plain ASCII.
pub proof fn lemma_render_mac_ascii(s: Seq<MacEntry>, n: int)
    requires
        0 <= n <= s.len(),
    ensures
        forall|j: int|
            0 <= j < render_mac_upto(s, n).len() ==> (#[trigger] render_mac_upto(s, n)[j]) < 128,
    decreases n,
{
    if n > 0 {
        lemma_render_mac_ascii(s, n - 1);
        lemma_mac_line_ascii(s[n - 1]);
        let prev = render_mac_upto(s, n - 1);
        let line = render_mac_line(s[n - 1]);
        assert forall|j: int| 0 <= j < render_mac_upto(s, n).len() implies (
        #[trigger] render_mac_upto(s, n)[j]) < 128 by {
            if j < prev.len() {
                assert(render_mac_upto(s, n)[j] == prev[j]);
            } else if j < prev.len() + line.len() {
                assert(render_mac_upto(s, n)[j] == line[j - prev.len()]);
            } else {
                assert(render_mac_upto(s, n)[j] == 10);
            }
        }
    }
}

} // verus!




