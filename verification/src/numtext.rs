//! Decimal and hexadecimal text helpers over byte sequences, with the
//! round-trip lemmas the codecs build on. All text handled here is ASCII,
//! kept as bytes; the codecs convert to `String` at the edge.

use vstd::prelude::*;

verus! {

/// True for an ASCII decimal digit byte.
pub open spec fn is_dec_byte(b: u8) -> bool {
    48 <= b <= 57
}

/// True for a non-empty sequence of ASCII decimal digit bytes.
pub open spec fn is_dec_seq(s: Seq<u8>) -> bool {
    s.len() > 0 && forall|i: int| 0 <= i < s.len() ==> is_dec_byte(#[trigger] s[i])
}

/// The numeric value of a sequence of decimal digit bytes.
pub open spec fn dec_val(s: Seq<u8>) -> nat
    decreases s.len(),
{
    if s.len() == 0 {
        0
    } else {
        dec_val(s.drop_last()) * 10 + (if is_dec_byte(s.last()) {
            (s.last() - 48) as nat
        } else {
            0
        })
    }
}

/// The shortest decimal digit rendering of `n`, most significant digit
/// first.
pub open spec fn dec_bytes(n: nat) -> Seq<u8>
    decreases n,
{
    if n < 10 {
        seq![(48 + n) as u8]
    } else {
        dec_bytes(n / 10).push((48 + n % 10) as u8)
    }
}

/// The decimal rendering of `n` as characters, for contracts about
/// messages and qualifiers.
pub open spec fn dec_chars(n: nat) -> Seq<char> {
    dec_bytes(n).map_values(|b: u8| b as char)
}

/// `dec_bytes` renders only digit bytes and parses back to its argument.
pub proof fn lemma_dec_bytes_round_trip(n: nat)
    ensures
        is_dec_seq(dec_bytes(n)),
        dec_val(dec_bytes(n)) == n,
        n >= 10 ==> dec_bytes(n).len() >= 2,
    decreases n,
{
    reveal_with_fuel(dec_val, 3);
    if n < 10 {
        assert(dec_bytes(n) =~= seq![(48 + n) as u8]);
        assert(dec_bytes(n).drop_last() =~= Seq::<u8>::empty());
        assert(dec_val(dec_bytes(n)) == n);
    } else {
        lemma_dec_bytes_round_trip(n / 10);
        assert(dec_bytes(n).drop_last() =~= dec_bytes(n / 10));
        assert(dec_bytes(n).last() == (48 + n % 10) as u8);
        assert(n == (n / 10) * 10 + n % 10) by (nonlinear_arith);
        assert(dec_val(dec_bytes(n)) == n);
    }
}

/// Unfolds the value of a digit prefix by one byte.
pub proof fn lemma_dec_val_take_step(s: Seq<u8>, j: int)
    requires
        0 <= j < s.len(),
    ensures
        dec_val(s.take(j + 1)) == dec_val(s.take(j)) * 10 + (if is_dec_byte(s[j]) {
            (s[j] - 48) as nat
        } else {
            0
        }),
{
    assert(s.take(j + 1).drop_last() =~= s.take(j));
    assert(s.take(j + 1).last() == s[j]);
}

/// The value of a digit sequence is at least the value of any prefix.
pub proof fn lemma_dec_val_prefix_le(s: Seq<u8>, j: int)
    requires
        0 <= j <= s.len(),
    ensures
        dec_val(s.take(j)) <= dec_val(s),
    decreases s.len() - j,
{
    if j == s.len() {
        assert(s.take(j) =~= s);
    } else {
        lemma_dec_val_take_step(s, j);
        lemma_dec_val_prefix_le(s, j + 1);
    }
}

/// Appends the decimal rendering of `n` to `v`.
pub fn push_dec_u64(v: &mut Vec<u8>, n: u64)
    ensures
        final(v)@ == old(v)@ + dec_bytes(n as nat),
    decreases n,
{
    if n < 10 {
        v.push(48 + n as u8);
        assert(v@ =~= old(v)@ + dec_bytes(n as nat));
    } else {
        push_dec_u64(v, n / 10);
        v.push(48 + (n % 10) as u8);
        assert(v@ =~= old(v)@ + dec_bytes(n as nat));
    }
}

/// What parsing a decimal qualifier yields: the value, when the bytes are
/// all digits and the value fits in 32 bits.
pub open spec fn spec_parse_u32(s: Seq<u8>) -> Option<u32> {
    if is_dec_seq(s) && dec_val(s) <= u32::MAX {
        Some(dec_val(s) as u32)
    } else {
        None
    }
}

/// Parses `s[start..end]` as a decimal number fitting in 32 bits.
pub fn parse_u32_bytes(s: &Vec<u8>, start: usize, end: usize) -> (r: Option<u32>)
    requires
        start <= end <= s@.len(),
    ensures
        r == spec_parse_u32(s@.subrange(start as int, end as int)),
{
    let ghost t = s@.subrange(start as int, end as int);
    if start == end {
        return None;
    }
    let mut acc: u64 = 0;
    let mut j: usize = start;
    while j < end
        invariant
            start <= j <= end <= s@.len(),
            t == s@.subrange(start as int, end as int),
            acc == dec_val(t.take(j - start)),
            acc <= u32::MAX,
            forall|i: int| 0 <= i < j - start ==> is_dec_byte(#[trigger] t[i]),
        decreases end - j,
    {
        let b = s[j];
        assert(t[j - start] == b);
        if b < 48 || b > 57 {
            return None;
        }
        proof {
            lemma_dec_val_take_step(t, j - start);
        }
        let next: u64 = acc * 10 + (b - 48) as u64;
        j = j + 1;
        if next > u32::MAX as u64 {
            proof {
                lemma_dec_val_prefix_le(t, j - start);
            }
            return None;
        }
        acc = next;
    }
    assert(t.take(end - start) =~= t);
    Some(acc as u32)
}

/// True for an ASCII hexadecimal digit byte, either case.
pub open spec fn is_hex_byte(b: u8) -> bool {
    (48 <= b <= 57) || (65 <= b <= 70) || (97 <= b <= 102)
}

/// The value of one hexadecimal digit byte.
pub open spec fn hex_val(b: u8) -> nat {
    if 48 <= b <= 57 {
        (b - 48) as nat
    } else if 65 <= b <= 70 {
        (b - 55) as nat
    } else if 97 <= b <= 102 {
        (b - 87) as nat
    } else {
        0
    }
}

/// The uppercase hexadecimal digit byte for a value below sixteen.
pub open spec fn hex_digit(d: nat) -> u8 {
    if d < 10 {
        (48 + d) as u8
    } else {
        (55 + d) as u8
    }
}

/// A hexadecimal digit renders to a hex byte that parses back to itself.
pub proof fn lemma_hex_digit_round_trip(d: nat)
    requires
        d < 16,
    ensures
        is_hex_byte(hex_digit(d)),
        hex_val(hex_digit(d)) == d,
{
}

/// True when every character is plain ASCII.
pub open spec fn ascii_seq(s: Seq<char>) -> bool {
    forall|i: int| #![trigger s[i]] 0 <= i < s.len() ==> (s[i] as u32) < 128
}

/// The bytes of a sequence of ASCII characters.
pub open spec fn chars_bytes(s: Seq<char>) -> Seq<u8> {
    s.map_values(|c: char| c as u8)
}

/// What parsing a qualifier string as a decimal number yields.
pub open spec fn spec_parse_u32_c(s: Seq<char>) -> Option<u32> {
    if ascii_seq(s) {
        spec_parse_u32(chars_bytes(s))
    } else {
        None
    }
}

/// Parses a qualifier string as a decimal number fitting in 32 bits.
pub fn parse_u32_str(s: &str) -> (r: Option<u32>)
    ensures
        r == spec_parse_u32_c(s@),
{
    let ghost t = chars_bytes(s@);
    let n = s.unicode_len();
    if n == 0 {
        return None;
    }
    let mut acc: u64 = 0;
    let mut j: usize = 0;
    while j < n
        invariant
            0 <= j <= n == s@.len(),
            t == chars_bytes(s@),
            acc == dec_val(t.take(j as int)),
            acc <= u32::MAX,
            forall|i: int| 0 <= i < j ==> is_dec_byte(#[trigger] t[i]),
            forall|i: int| #![trigger s@[i]] 0 <= i < j ==> (s@[i] as u32) < 128,
        decreases n - j,
    {
        let c = s.get_char(j);
        let u = c as u32;
        assert(t[j as int] == c as u8);
        if u < 48 || u > 57 {
            proof {
                if u < 128 {
                    assert(!is_dec_byte(t[j as int]));
                }
            }
            return None;
        }
        proof {
            lemma_dec_val_take_step(t, j as int);
        }
        let next: u64 = acc * 10 + (u - 48) as u64;
        j = j + 1;
        if next > u32::MAX as u64 {
            proof {
                lemma_dec_val_prefix_le(t, j as int);
            }
            return None;
        }
        acc = next;
    }
    assert(t.take(n as int) =~= t);
    Some(acc as u32)
}

/// The byte index, within the canonical 36-byte identifier text, of the
/// hyphen-free position of nibble `j`.
pub open spec fn nib_pos(j: int) -> int {
    if j < 8 {
        j
    } else if j < 12 {
        j + 1
    } else if j < 16 {
        j + 2
    } else if j < 20 {
        j + 3
    } else {
        j + 4
    }
}

/// The value accumulated from the first `j` nibbles of an identifier text.
pub open spec fn guid_val_upto(t: Seq<u8>, j: int) -> u128
    decreases j,
{
    if j <= 0 {
        0
    } else {
        (guid_val_upto(t, j - 1) << 4) | (hex_val(t[nib_pos(j - 1)]) as u128)
    }
}

/// Nibble `j` (most significant first) of a 128-bit identifier.
pub open spec fn guid_nibble(g: u128, j: int) -> u128 {
    (g >> ((4 * (31 - j)) as u128)) & 0xF
}

/// Byte `i` of the canonical identifier text: thirty-two uppercase
/// hexadecimal digits with hyphens after the eighth, twelfth, sixteenth
/// and twentieth.
pub open spec fn guid_byte_at(g: u128, i: int) -> u8 {
    if i == 8 || i == 13 || i == 18 || i == 23 {
        45
    } else {
        hex_digit(guid_nibble(g, guid_nib_of(i)) as nat)
    }
}

/// The nibble index rendered at byte position `i` of the identifier text.
pub open spec fn guid_nib_of(i: int) -> int {
    if i < 8 {
        i
    } else if i < 13 {
        i - 1
    } else if i < 18 {
        i - 2
    } else if i < 23 {
        i - 3
    } else {
        i - 4
    }
}

/// The canonical 36-byte text of a 128-bit identifier.
pub open spec fn guid_bytes(g: u128) -> Seq<u8> {
    Seq::new(36, |i: int| guid_byte_at(g, i))
}

/// The canonical identifier text as characters.
pub open spec fn guid_chars(g: u128) -> Seq<char> {
    guid_bytes(g).map_values(|b: u8| b as char)
}

/// True when `t` has the shape of an identifier text: hyphens in the four
/// fixed places and hexadecimal digits everywhere else.
pub open spec fn is_guid_text(t: Seq<u8>) -> bool {
    &&& t.len() == 36
    &&& t[8] == 45 && t[13] == 45 && t[18] == 45 && t[23] == 45
    &&& forall|j: int| 0 <= j < 32 ==> is_hex_byte(#[trigger] t[nib_pos(j)])
}

/// What parsing an identifier text yields.
pub open spec fn spec_parse_guid_b(t: Seq<u8>) -> Option<u128> {
    if is_guid_text(t) {
        Some(guid_val_upto(t, 32))
    } else {
        None
    }
}

/// What parsing an identifier string yields.
pub open spec fn spec_parse_guid_c(s: Seq<char>) -> Option<u128> {
    if ascii_seq(s) {
        spec_parse_guid_b(chars_bytes(s))
    } else {
        None
    }
}

/// Appends the canonical identifier text of `g` to `v`.
pub fn push_guid(v: &mut Vec<u8>, g: u128)
    ensures
        final(v)@ == old(v)@ + guid_bytes(g),
{
    let mut i: usize = 0;
    while i < 36
        invariant
            0 <= i <= 36,
            v@ == old(v)@ + guid_bytes(g).take(i as int),
        decreases 36 - i,
    {
        if i == 8 || i == 13 || i == 18 || i == 23 {
            v.push(45);
        } else {
            let j: usize = if i < 8 {
                i
            } else if i < 13 {
                i - 1
            } else if i < 18 {
                i - 2
            } else if i < 23 {
                i - 3
            } else {
                i - 4
            };
            let shift: u32 = 4 * (31 - j as u32);
            proof {
                let sh = shift;
                assert(sh < 128 ==> (g >> sh) & 0xF < 16) by (bit_vector);
            }
            let d: u8 = ((g >> shift) & 0xF) as u8;
            let b: u8 = if d < 10 {
                48 + d
            } else {
                55 + d
            };
            assert(b == guid_byte_at(g, i as int));
            v.push(b);
        }
        i = i + 1;
        assert(v@ =~= old(v)@ + guid_bytes(g).take(i as int));
    }
    assert(guid_bytes(g).take(36) =~= guid_bytes(g));
}

/// Parses the 36 bytes starting at `start` as an identifier text.
pub fn parse_guid_bytes(s: &Vec<u8>, start: usize) -> (r: Option<u128>)
    requires
        start + 36 <= s@.len(),
    ensures
        r == spec_parse_guid_b(s@.subrange(start as int, start as int + 36)),
{
    let ghost t = s@.subrange(start as int, start as int + 36);
    let n = s.len();
    assert(start + 36 <= n);
    if s[start + 8] != 45 || s[start + 13] != 45 || s[start + 18] != 45 || s[start + 23] != 45 {
        return None;
    }
    let mut acc: u128 = 0;
    let mut j: usize = 0;
    while j < 32
        invariant
            0 <= j <= 32,
            n == s@.len(),
            start + 36 <= n,
            t == s@.subrange(start as int, start as int + 36),
            acc == guid_val_upto(t, j as int),
            forall|i: int| 0 <= i < j ==> is_hex_byte(#[trigger] t[nib_pos(i)]),
        decreases 32 - j,
    {
        let p: usize = if j < 8 {
            j
        } else if j < 12 {
            j + 1
        } else if j < 16 {
            j + 2
        } else if j < 20 {
            j + 3
        } else {
            j + 4
        };
        let b = s[start + p];
        assert(t[nib_pos(j as int)] == b);
        let d: u8 = if 48 <= b && b <= 57 {
            b - 48
        } else if 65 <= b && b <= 70 {
            b - 55
        } else if 97 <= b && b <= 102 {
            b - 87
        } else {
            return None;
        };
        acc = (acc << 4) | (d as u128);
        j = j + 1;
    }
    assert(t[8] == s@[start as int + 8]);
    assert(t[13] == s@[start as int + 13]);
    assert(t[18] == s@[start as int + 18]);
    assert(t[23] == s@[start as int + 23]);
    Some(acc)
}

/// Parses a qualifier string as an identifier text.
pub fn parse_guid_str(s: &str) -> (r: Option<u128>)
    ensures
        r == spec_parse_guid_c(s@),
{
    let n = s.unicode_len();
    if n != 36 {
        return None;
    }
    let mut w: Vec<u8> = Vec::new();
    let mut j: usize = 0;
    while j < 36
        invariant
            0 <= j <= 36,
            n == s@.len() == 36,
            w@ == chars_bytes(s@).take(j as int),
            forall|i: int| #![trigger s@[i]] 0 <= i < j ==> (s@[i] as u32) < 128,
        decreases 36 - j,
    {
        let c = s.get_char(j);
        if c as u32 >= 128 {
            return None;
        }
        w.push(c as u8);
        j = j + 1;
        assert(w@ =~= chars_bytes(s@).take(j as int));
    }
    assert(w@ =~= chars_bytes(s@));
    let r = parse_guid_bytes(&w, 0);
    assert(w@.subrange(0, 36) =~= chars_bytes(s@));
    r
}

/// Relies on String::from_utf8: a sequence of ASCII bytes is valid UTF-8
/// and decodes to exactly those characters.
#[verifier::external_body]
pub fn ascii_to_string(v: Vec<u8>) -> (s: String)
    requires
        forall|i: int| 0 <= i < v@.len() ==> #[trigger] v@[i] < 128,
    ensures
        s@ == v@.map_values(|b: u8| b as char),
{
    String::from_utf8(v).unwrap_or_default()
}

/// The decimal rendering of `n` as a fresh string.
pub fn dec_string_u32(n: u32) -> (s: String)
    ensures
        s@ == dec_chars(n as nat),
{
    let mut v: Vec<u8> = Vec::new();
    push_dec_u64(&mut v, n as u64);
    proof {
        lemma_dec_bytes_round_trip(n as nat);
        assert(v@ =~= dec_bytes(n as nat));
    }
    ascii_to_string(v)
}

/// The canonical identifier text of `g` as a fresh string.
pub fn guid_string(g: u128) -> (s: String)
    ensures
        s@ == guid_chars(g),
{
    let mut v: Vec<u8> = Vec::new();
    push_guid(&mut v, g);
    proof {
        lemma_guid_round_trip(g);
        assert(v@ =~= guid_bytes(g));
        assert forall|i: int| 0 <= i < v@.len() implies #[trigger] v@[i] < 128 by {
            if i != 8 && i != 13 && i != 18 && i != 23 {
                assert(nib_pos(guid_nib_of(i)) == i);
                assert(0 <= guid_nib_of(i) < 32);
                assert(is_hex_byte(v@[i]));
            }
        }
    }
    ascii_to_string(v)
}

/// The identifier text of `g` parses back to `g`.
pub proof fn lemma_guid_round_trip(g: u128)
    ensures
        is_guid_text(guid_bytes(g)),
        spec_parse_guid_b(guid_bytes(g)) == Some(g),
{
    let t = guid_bytes(g);
    assert forall|j: int| 0 <= j < 32 implies is_hex_byte(#[trigger] t[nib_pos(j)]) by {
        assert(guid_nibble(g, j) < 16) by {
            let k = (4 * (31 - j)) as u128;
            assert((g >> k) & 0xF < 16) by (bit_vector);
        }
        lemma_hex_digit_round_trip(guid_nibble(g, j) as nat);
    }
    assert forall|j: int| 0 <= j <= 32 implies guid_val_upto(t, j) == (if j == 0 {
        0u128
    } else {
        g >> ((4 * (32 - j)) as u128)
    }) by {
        lemma_guid_val_shift(g, j);
    }
    assert(g >> 0u128 == g) by (bit_vector);
}

proof fn lemma_guid_val_shift(g: u128, j: int)
    requires
        0 <= j <= 32,
    ensures
        guid_val_upto(guid_bytes(g), j) == (if j == 0 {
            0u128
        } else {
            g >> ((4 * (32 - j)) as u128)
        }),
    decreases j,
{
    let t = guid_bytes(g);
    if j > 0 {
        lemma_guid_val_shift(g, j - 1);
        let nib = guid_nibble(g, j - 1);
        assert(t[nib_pos(j - 1)] == hex_digit(nib as nat));
        assert(nib < 16) by {
            let k = (4 * (32 - j)) as u128;
            assert((g >> k) & 0xF < 16) by (bit_vector);
        }
        lemma_hex_digit_round_trip(nib as nat);
        if j == 1 {
            assert((0u128 << 4) | ((g >> 124u128) & 0xF) == g >> 124u128) by (bit_vector);
        } else {
            let k = (4 * (32 - j)) as u128;
            assert(k <= 120 ==> ((g >> (k + 4) as u128) << 4) | ((g >> k) & 0xF) == g >> k)
                by (bit_vector);
        }
    }
}

} // verus!
