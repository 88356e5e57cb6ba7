//! Text parsers for upstream answer data: decimal numbers, IPv4 and IPv6
//! addresses, whitespace-separated fields, and quote trimming.  Each parser
//! accepts exactly the grammar its specification states; answer data outside
//! it is treated as malformed and its record is dropped by the caller.

use vstd::prelude::*;
use vstd::arithmetic::power2::pow2;
use vstd::string::StringSliceAdditionalSpecFns;

verus! {

broadcast use vstd::string::is_ascii_spec_bytes;

/// A decimal digit.
pub open spec fn is_digit(c: char) -> bool {
    '0' <= c && c <= '9'
}

/// The value of a decimal digit.
pub open spec fn digit_val(c: char) -> int {
    c as u8 - 48
}

/// Every character is a decimal digit.
pub open spec fn all_digits(s: Seq<char>) -> bool {
    forall|i: int| 0 <= i < s.len() ==> is_digit(#[trigger] s[i])
}

/// The value of a digit string, most significant first.
pub open spec fn dec_val(s: Seq<char>) -> int
    decreases s.len(),
{
    if s.len() == 0 {
        0
    } else {
        dec_val(s.drop_last()) * 10 + digit_val(s.last())
    }
}

/// A digit string's value only grows as digits are appended.
pub proof fn lemma_dec_val_monotone(s: Seq<char>, a: int, b: int)
    requires
        0 <= a <= b <= s.len(),
        forall|j: int| 0 <= j < b ==> is_digit(#[trigger] s[j]),
        dec_val(s.take(a)) >= 0,
    ensures
        dec_val(s.take(a)) <= dec_val(s.take(b)),
        dec_val(s.take(b)) >= 0,
    decreases b - a,
{
    if a < b {
        assert(s.take(b).drop_last() =~= s.take(b - 1));
        assert(s.take(b).last() == s[b - 1]);
        lemma_dec_val_monotone(s, a, b - 1);
        assert(dec_val(s.take(b)) == dec_val(s.take(b - 1)) * 10 + digit_val(s[b - 1]));
        assert(dec_val(s.take(b - 1)) * 10 >= dec_val(s.take(b - 1))) by (nonlinear_arith)
            requires
                dec_val(s.take(b - 1)) >= 0,
        ;
    }
}

/// A valid bounded decimal: non-empty, all digits, value within the bound.
pub open spec fn valid_dec(s: Seq<char>, max: u64) -> bool {
    &&& s.len() >= 1
    &&& all_digits(s)
    &&& dec_val(s) <= max
}

/// Reads a decimal number of at most `max` from the whole string.
pub fn parse_dec(s: &str, max: u64) -> (r: Option<u64>)
    requires
        max <= 0xFFFF_FFFF,
    ensures
        r is Some <==> valid_dec(s@, max),
        r matches Some(v) ==> v == dec_val(s@),
{
    if !s.is_ascii() {
        proof {
            let i = choose|i: int| 0 <= i < s@.len() && !('\0' <= #[trigger] s@[i] <= '\u{7f}');
            assert(!is_digit(s@[i]));
        }
        return None;
    }
    let bytes = s.as_bytes();
    let n = bytes.len();
    if n == 0 {
        return None;
    }
    let mut acc: u64 = 0;
    let mut i: usize = 0;
    proof {
        assert(s@.take(0) =~= Seq::<char>::empty());
    }
    while i < n
        invariant
            n == s@.len() == bytes@.len(),
            s.is_ascii(),
            bytes@ == s.spec_bytes(),
            max <= 0xFFFF_FFFF,
            i <= n,
            forall|j: int| 0 <= j < i ==> is_digit(#[trigger] s@[j]),
            acc == dec_val(s@.take(i as int)),
            acc <= max,
        decreases n - i,
    {
        let b = bytes[i];
        proof {
            assert(bytes@[i as int] == s@[i as int] as u8);
        }
        if b < 48 || b > 57 {
            proof {
                assert(!is_digit(s@[i as int]));
            }
            return None;
        }
        let d = (b - 48) as u64;
        let next = acc * 10 + d;
        proof {
            assert(s@.take(i + 1).drop_last() =~= s@.take(i as int));
            assert(s@.take(i + 1).last() == s@[i as int]);
            assert(is_digit(s@[i as int]));
            assert(digit_val(s@[i as int]) == d);
        }
        if next > max {
            proof {
                lemma_dec_val_monotone(s@, 0, i + 1);
                if valid_dec(s@, max) {
                    lemma_dec_val_monotone(s@, i + 1, n as int);
                    assert(s@.take(n as int) =~= s@);
                }
            }
            return None;
        }
        acc = next;
        i += 1;
    }
    proof {
        assert(s@.take(n as int) =~= s@);
        assert(all_digits(s@));
    }
    Some(acc)
}

/// A valid signed 32-bit decimal: an optional sign, then digits, value in
/// the two's-complement range.
pub open spec fn valid_i32_text(s: Seq<char>) -> bool {
    if s.len() >= 1 && s[0] == '-' {
        valid_dec(s.skip(1), 0x8000_0000)
    } else if s.len() >= 1 && s[0] == '+' {
        valid_dec(s.skip(1), 0x7FFF_FFFF)
    } else {
        valid_dec(s, 0x7FFF_FFFF)
    }
}

/// The value of a signed decimal string.
pub open spec fn i32_text_val(s: Seq<char>) -> int {
    if s.len() >= 1 && s[0] == '-' {
        -dec_val(s.skip(1))
    } else if s.len() >= 1 && s[0] == '+' {
        dec_val(s.skip(1))
    } else {
        dec_val(s)
    }
}

/// Reads a signed 32-bit decimal from the whole string.
pub fn parse_i32(s: &str) -> (r: Option<i32>)
    ensures
        r is Some <==> valid_i32_text(s@),
        r matches Some(v) ==> v == i32_text_val(s@),
{
    if s.is_empty() {
        return None;
    }
    proof {
        assert(s@.len() >= 1);
    }
    let first = s.get_char(0);
    if first == '-' {
        let rest = s.substring_char(1, s.unicode_len());
        proof {
            assert(rest@ =~= s@.skip(1));
        }
        match parse_dec(rest, 0x8000_0000) {
            Some(v) => {
                if v == 0x8000_0000 {
                    Some(i32::MIN)
                } else {
                    Some(-(v as i32))
                }
            },
            None => None,
        }
    } else if first == '+' {
        let rest = s.substring_char(1, s.unicode_len());
        proof {
            assert(rest@ =~= s@.skip(1));
        }
        match parse_dec(rest, 0x7FFF_FFFF) {
            Some(v) => Some(v as i32),
            None => None,
        }
    } else {
        match parse_dec(s, 0x7FFF_FFFF) {
            Some(v) => Some(v as i32),
            None => None,
        }
    }
}

/// Splits at every separator, keeping empty pieces (so a trailing separator
/// yields a trailing empty piece, and the empty string is one empty piece).
pub open spec fn split_all_rec(s: Seq<char>, sep: char, cur: Seq<char>, acc: Seq<Seq<char>>) -> Seq<
    Seq<char>,
>
    decreases s.len(),
{
    if s.len() == 0 {
        acc.push(cur)
    } else if s.first() == sep {
        split_all_rec(s.drop_first(), sep, Seq::empty(), acc.push(cur))
    } else {
        split_all_rec(s.drop_first(), sep, cur.push(s.first()), acc)
    }
}

/// The pieces of a string between separators.
pub open spec fn split_all(s: Seq<char>, sep: char) -> Seq<Seq<char>> {
    split_all_rec(s, sep, Seq::empty(), Seq::empty())
}

/// Splits a string at every occurrence of the separator.
pub fn split_on(s: &str, sep: char) -> (r: Vec<String>)
    ensures
        r.deep_view() == split_all(s@, sep),
{
    let n = s.unicode_len();
    let mut parts: Vec<String> = Vec::new();
    let mut start: usize = 0;
    let mut i: usize = 0;
    proof {
        assert(s@.skip(0) =~= s@);
        assert(s@.subrange(0, 0) =~= Seq::<char>::empty());
        assert(parts.deep_view() =~= Seq::<Seq<char>>::empty());
    }
    while i < n
        invariant
            n == s@.len(),
            start <= i <= n,
            split_all_rec(
                s@.skip(i as int),
                sep,
                s@.subrange(start as int, i as int),
                parts.deep_view(),
            ) == split_all(s@, sep),
        decreases n - i,
    {
        let ghost dv0 = parts.deep_view();
        let c = s.get_char(i);
        proof {
            assert(s@.skip(i as int).first() == s@[i as int]);
        }
        if c == sep {
            let piece = s.substring_char(start, i);
            parts.push(piece.to_owned());
            proof {
                assert(parts.deep_view() =~= dv0.push(s@.subrange(start as int, i as int)));
                assert(s@.skip(i as int).drop_first() =~= s@.skip(i + 1));
                assert(s@.subrange(i + 1, i + 1) =~= Seq::<char>::empty());
            }
            start = i + 1;
        } else {
            proof {
                assert(s@.skip(i as int).drop_first() =~= s@.skip(i + 1));
                assert(s@.subrange(start as int, i as int).push(s@[i as int]) =~= s@.subrange(
                    start as int,
                    i + 1,
                ));
            }
        }
        i += 1;
    }
    let ghost dv0 = parts.deep_view();
    let piece = s.substring_char(start, n);
    parts.push(piece.to_owned());
    proof {
        assert(s@.skip(n as int) =~= Seq::<char>::empty());
        assert(parts.deep_view() =~= dv0.push(s@.subrange(start as int, n as int)));
    }
    parts
}

/// A valid IPv4 address octet: one to three digits, value at most 255.
pub open spec fn valid_octet(p: Seq<char>) -> bool {
    &&& 1 <= p.len() <= 3
    &&& all_digits(p)
    &&& dec_val(p) <= 255
}

/// A valid dotted-quad IPv4 address text.
pub open spec fn valid_ipv4(s: Seq<char>) -> bool {
    let ps = split_all(s, '.');
    &&& ps.len() == 4
    &&& valid_octet(ps[0])
    &&& valid_octet(ps[1])
    &&& valid_octet(ps[2])
    &&& valid_octet(ps[3])
}

/// The 32-bit value of a dotted-quad IPv4 address text.
pub open spec fn ipv4_value(s: Seq<char>) -> int {
    let ps = split_all(s, '.');
    dec_val(ps[0]) * 0x100_0000 + dec_val(ps[1]) * 0x1_0000 + dec_val(ps[2]) * 0x100 + dec_val(
        ps[3],
    )
}

/// Digits are ASCII characters.
pub proof fn lemma_digits_ascii(s: Seq<char>)
    requires
        all_digits(s),
    ensures
        vstd::utf8::is_ascii_chars(s),
{
    assert forall|i: int| 0 <= i < s.len() implies '\0' <= #[trigger] s[i] <= '\u{7f}' by {
        assert(is_digit(s[i]));
    }
}

/// Reads a dotted-quad IPv4 address.
pub fn parse_ipv4(s: &str) -> (r: Option<u32>)
    ensures
        r is Some <==> valid_ipv4(s@),
        r matches Some(v) ==> v == ipv4_value(s@),
{
    let parts = split_on(s, '.');
    if parts.len() != 4 {
        return None;
    }
    let mut vals: Vec<u32> = Vec::new();
    let mut i: usize = 0;
    while i < 4
        invariant
            parts.deep_view() == split_all(s@, '.'),
            parts@.len() == 4,
            i <= 4,
            vals@.len() == i as int,
            forall|j: int|
                0 <= j < i ==> valid_octet(#[trigger] parts.deep_view()[j]) && vals@[j] == dec_val(
                    parts.deep_view()[j],
                ) && vals@[j] <= 255,
        decreases 4 - i,
    {
        proof {
            assert(parts.deep_view()[i as int] == parts@[i as int]@);
        }
        let p = parts[i].as_str();
        proof {
            assert(p@ == parts.deep_view()[i as int]);
        }
        match parse_dec(p, 255) {
            Some(v) => {
                proof {
                    lemma_digits_ascii(p@);
                    assert(vstd::string::is_ascii(p));
                    assert(p.spec_bytes().len() == p@.len());
                }
                let pb = p.as_bytes();
                if pb.len() > 3 {
                    proof {
                        assert(p@.len() > 3);
                        assert(!valid_octet(parts.deep_view()[i as int]));
                    }
                    return None;
                }
                let ghost vals0 = vals@;
                vals.push(v as u32);
                proof {
                    assert(vals@ =~= vals0.push(v as u32));
                    assert(p@.len() <= 3);
                    assert(valid_octet(parts.deep_view()[i as int]));
                    assert(v <= 255);
                    assert(vals@[i as int] == v as u32);
                    assert(vals@[i as int] == dec_val(parts.deep_view()[i as int]));
                    assert(vals@[i as int] <= 255);
                    assert(forall|j: int| 0 <= j < i ==> vals@[j] == vals0[j]);
                    assert forall|j: int| 0 <= j < i + 1 implies valid_octet(
                        #[trigger] parts.deep_view()[j],
                    ) && vals@[j] == dec_val(parts.deep_view()[j]) && vals@[j] <= 255 by {
                        if j < i {
                            assert(valid_octet(parts.deep_view()[j]));
                        }
                    }
                }
            },
            None => {
                return None;
            },
        }
        i += 1;
    }
    proof {
        assert(valid_octet(parts.deep_view()[0]) && vals@[0] <= 255);
        assert(valid_octet(parts.deep_view()[1]) && vals@[1] <= 255);
        assert(valid_octet(parts.deep_view()[2]) && vals@[2] <= 255);
        assert(valid_octet(parts.deep_view()[3]) && vals@[3] <= 255);
    }
    let v = vals[0] * 0x100_0000 + vals[1] * 0x1_0000 + vals[2] * 0x100 + vals[3];
    Some(v)
}

/// A hexadecimal digit.
pub open spec fn is_hex_digit(c: char) -> bool {
    ('0' <= c && c <= '9') || ('a' <= c && c <= 'f') || ('A' <= c && c <= 'F')
}

/// The value of a hexadecimal digit.
pub open spec fn hex_digit_val(c: char) -> int {
    if '0' <= c && c <= '9' {
        c as u8 - 48
    } else if 'a' <= c && c <= 'f' {
        c as u8 - 87
    } else {
        c as u8 - 55
    }
}

/// Every character is a hexadecimal digit.
pub open spec fn all_hex_digits(s: Seq<char>) -> bool {
    forall|i: int| 0 <= i < s.len() ==> is_hex_digit(#[trigger] s[i])
}

/// The value of a hexadecimal digit string, most significant first.
pub open spec fn hex_val(s: Seq<char>) -> int
    decreases s.len(),
{
    if s.len() == 0 {
        0
    } else {
        hex_val(s.drop_last()) * 16 + hex_digit_val(s.last())
    }
}

/// A valid IPv6 group: one to four hexadecimal digits.
pub open spec fn valid_group(p: Seq<char>) -> bool {
    &&& 1 <= p.len() <= 4
    &&& all_hex_digits(p)
}

/// Reads one IPv6 group.
fn parse_group(s: &str) -> (r: Option<u16>)
    ensures
        r is Some <==> valid_group(s@),
        r matches Some(v) ==> v == hex_val(s@),
{
    if !s.is_ascii() {
        proof {
            let i = choose|i: int| 0 <= i < s@.len() && !('\0' <= #[trigger] s@[i] <= '\u{7f}');
            assert(!is_hex_digit(s@[i]));
        }
        return None;
    }
    let bytes = s.as_bytes();
    let n = bytes.len();
    if n == 0 || n > 4 {
        return None;
    }
    let mut acc: u16 = 0;
    let mut i: usize = 0;
    proof {
        assert(s@.take(0) =~= Seq::<char>::empty());
        vstd::arithmetic::power2::lemma2_to64();
    }
    while i < n
        invariant
            n == s@.len() == bytes@.len(),
            n <= 4,
            s.is_ascii(),
            bytes@ == s.spec_bytes(),
            i <= n,
            forall|j: int| 0 <= j < i ==> is_hex_digit(#[trigger] s@[j]),
            acc == hex_val(s@.take(i as int)),
            acc < pow2((4 * i) as nat),
        decreases n - i,
    {
        let b = bytes[i];
        proof {
            assert(bytes@[i as int] == s@[i as int] as u8);
            vstd::arithmetic::power2::lemma2_to64();
        }
        let d: u16 = if 48 <= b && b <= 57 {
            (b - 48) as u16
        } else if 97 <= b && b <= 102 {
            (b - 87) as u16
        } else if 65 <= b && b <= 70 {
            (b - 55) as u16
        } else {
            proof {
                assert(!is_hex_digit(s@[i as int]));
            }
            return None;
        };
        proof {
            assert(is_hex_digit(s@[i as int]));
            assert(hex_digit_val(s@[i as int]) == d);
            assert(s@.take(i + 1).drop_last() =~= s@.take(i as int));
            assert(s@.take(i + 1).last() == s@[i as int]);
            assert(acc * 16 + d < pow2((4 * (i + 1)) as nat)) by {
                vstd::arithmetic::power2::lemma2_to64();
                assert(pow2((4 * (i + 1)) as nat) == pow2((4 * i) as nat) * 16) by {
                    vstd::arithmetic::power2::lemma_pow2_adds((4 * i) as nat, 4);
                    vstd::arithmetic::power2::lemma2_to64();
                }
                assert(acc * 16 + 16 <= pow2((4 * i) as nat) * 16) by (nonlinear_arith)
                    requires
                        acc < pow2((4 * i) as nat),
                ;
            }
        }
        acc = acc * 16 + d;
        i += 1;
    }
    proof {
        assert(s@.take(n as int) =~= s@);
        assert(all_hex_digits(s@));
    }
    Some(acc)
}

/// The value of a sequence of 16-bit groups, most significant first.
pub open spec fn groups_val(gs: Seq<u16>) -> int
    decreases gs.len(),
{
    if gs.len() == 0 {
        0
    } else {
        groups_val(gs.drop_last()) * 0x1_0000 + gs.last()
    }
}

/// The value of a group sequence is bounded by its width.
pub proof fn lemma_groups_val_bound(gs: Seq<u16>)
    ensures
        0 <= groups_val(gs) < pow2((16 * gs.len()) as nat),
    decreases gs.len(),
{
    vstd::arithmetic::power2::lemma2_to64();
    if gs.len() > 0 {
        lemma_groups_val_bound(gs.drop_last());
        vstd::arithmetic::power2::lemma_pow2_adds((16 * (gs.len() - 1)) as nat, 16);
        assert(groups_val(gs.drop_last()) * 0x1_0000 + 0x1_0000 <= pow2(
            (16 * (gs.len() - 1)) as nat,
        ) * 0x1_0000) by (nonlinear_arith)
            requires
                groups_val(gs.drop_last()) < pow2((16 * (gs.len() - 1)) as nat),
        ;
        assert(groups_val(gs.drop_last()) * 0x1_0000 >= 0) by (nonlinear_arith)
            requires
                groups_val(gs.drop_last()) >= 0,
        ;
    }
}

/// The pieces of an IPv6 text, each piece either a hex group or an empty
/// marker from the `::` elision.
pub open spec fn ipv6_pieces(s: Seq<char>) -> Seq<Seq<char>> {
    split_all(s, ':')
}

/// Whether the pieces in the range are all valid groups.
pub open spec fn pieces_all_groups(ps: Seq<Seq<char>>, from: int, to: int) -> bool {
    forall|i: int| from <= i < to ==> valid_group(#[trigger] ps[i])
}

/// The group values of the pieces in a range.
pub open spec fn pieces_vals(ps: Seq<Seq<char>>, from: int, to: int) -> Seq<u16>
    decreases to - from,
{
    if from >= to {
        Seq::empty()
    } else {
        pieces_vals(ps, from, to - 1).push((hex_val(ps[to - 1]) as u16))
    }
}

/// A range of group values has one value per piece.
pub proof fn lemma_pieces_vals_len(ps: Seq<Seq<char>>, from: int, to: int)
    requires
        from <= to,
    ensures
        pieces_vals(ps, from, to).len() == to - from,
    decreases to - from,
{
    if from < to {
        lemma_pieces_vals_len(ps, from, to - 1);
    }
}

/// A sequence of `n` zero groups.
pub open spec fn zero_groups(n: int) -> Seq<u16> {
    Seq::new(n as nat, |i: int| 0u16)
}

/// How many pieces from index `i` on are empty.
pub open spec fn empties_from(ps: Seq<Seq<char>>, i: int) -> int
    decreases ps.len() - i,
{
    if i < 0 || i >= ps.len() {
        0
    } else {
        (if ps[i].len() == 0 {
            1int
        } else {
            0int
        }) + empties_from(ps, i + 1)
    }
}

/// The index of the first empty piece at or after `i` (the piece count when
/// there is none).
pub open spec fn first_empty_from(ps: Seq<Seq<char>>, i: int) -> int
    decreases ps.len() - i,
{
    if i < 0 || i >= ps.len() {
        ps.len() as int
    } else if ps[i].len() == 0 {
        i
    } else {
        first_empty_from(ps, i + 1)
    }
}

/// The eight groups an IPv6 text denotes, or nothing when the text takes
/// none of the accepted shapes: eight groups and no elision; the bare `::`
/// (three empty pieces); one interior `::` (one empty piece); a leading `::`
/// (two empty pieces at the start); or a trailing `::` (two empty pieces at
/// the end).  The elision stands for the zero groups that complete the eight.
pub open spec fn ipv6_expanded(s: Seq<char>) -> Option<Seq<u16>> {
    let ps = ipv6_pieces(s);
    let n = ps.len() as int;
    let ce = empties_from(ps, 0);
    let e1 = first_empty_from(ps, 0);
    let e2 = first_empty_from(ps, e1 + 1);
    if n == 8 && ce == 0 && pieces_all_groups(ps, 0, 8) {
        Option::Some(pieces_vals(ps, 0, 8))
    } else if n == 3 && ce == 3 {
        Option::Some(zero_groups(8))
    } else if ce == 1 && 0 < e1 && e1 < n - 1 && n <= 8 && pieces_all_groups(ps, 0, e1)
        && pieces_all_groups(ps, e1 + 1, n) {
        Option::Some(pieces_vals(ps, 0, e1) + zero_groups(8 - (n - 1)) + pieces_vals(ps, e1 + 1, n))
    } else if ce == 2 && e1 == 0 && e2 == 1 && 3 <= n <= 9 && pieces_all_groups(ps, 2, n) {
        Option::Some(zero_groups(8 - (n - 2)) + pieces_vals(ps, 2, n))
    } else if ce == 2 && e1 == n - 2 && e2 == n - 1 && 3 <= n <= 9 && pieces_all_groups(
        ps,
        0,
        n - 2,
    ) {
        Option::Some(pieces_vals(ps, 0, n - 2) + zero_groups(8 - (n - 2)))
    } else {
        Option::None
    }
}

/// A valid IPv6 address text.
pub open spec fn valid_ipv6(s: Seq<char>) -> bool {
    ipv6_expanded(s) is Some
}

/// The 128-bit value of a valid IPv6 address text.
pub open spec fn ipv6_value(s: Seq<char>) -> int {
    groups_val(ipv6_expanded(s)->0)
}

/// Reads the group values of the pieces in a range, if they are all valid
/// groups.
fn parse_groups_range(parts: &Vec<String>, from: usize, to: usize) -> (r: Option<Vec<u16>>)
    requires
        from <= to <= parts@.len(),
    ensures
        r is Some <==> pieces_all_groups(parts.deep_view(), from as int, to as int),
        r matches Some(g) ==> g@ == pieces_vals(parts.deep_view(), from as int, to as int),
{
    let ghost ps = parts.deep_view();
    let mut g: Vec<u16> = Vec::new();
    let mut i: usize = from;
    proof {
        assert(g@ =~= pieces_vals(ps, from as int, from as int));
    }
    while i < to
        invariant
            from <= i <= to <= parts@.len(),
            ps == parts.deep_view(),
            pieces_all_groups(ps, from as int, i as int),
            g@ == pieces_vals(ps, from as int, i as int),
        decreases to - i,
    {
        proof {
            assert(ps[i as int] == parts@[i as int]@);
        }
        match parse_group(parts[i].as_str()) {
            Some(v) => {
                g.push(v);
                proof {
                    assert(g@ =~= pieces_vals(ps, from as int, i + 1));
                }
            },
            None => {
                proof {
                    assert(!valid_group(ps[i as int]));
                }
                return None;
            },
        }
        i += 1;
    }
    Some(g)
}

/// Reads an IPv6 address text in grouped hexadecimal form, with at most one
/// `::` elision.
pub fn parse_ipv6(s: &str) -> (r: Option<u128>)
    ensures
        r is Some <==> valid_ipv6(s@),
        r matches Some(v) ==> v == ipv6_value(s@),
{
    let parts = split_on(s, ':');
    let n = parts.len();
    let ghost ps = ipv6_pieces(s@);
    proof {
        assert(ps == parts.deep_view());
    }
    // one pass finds how many pieces are empty and where the first two are
    let mut count: usize = 0;
    let mut e1: usize = n;
    let mut e2: usize = n;
    let mut i: usize = 0;
    while i < n
        invariant
            n == parts@.len(),
            ps == parts.deep_view(),
            ps.len() == n as int,
            i <= n,
            count as int == empties_from(ps, 0) - empties_from(ps, i as int),
            count as int <= i as int,
            (count == 0 ==> e1 == n && first_empty_from(ps, 0) == first_empty_from(ps, i as int)),
            (count > 0 ==> e1 as int == first_empty_from(ps, 0) && (e1 as int) < i as int),
            (count <= 1 ==> e2 == n),
            (count == 1 ==> first_empty_from(ps, e1 + 1) == first_empty_from(ps, i as int)),
            (count >= 2 ==> e2 as int == first_empty_from(ps, e1 + 1) && (e2 as int) < i as int),
        decreases n - i,
    {
        proof {
            assert(ps[i as int] == parts@[i as int]@);
        }
        if parts[i].as_str().is_empty() {
            if count == 0 {
                e1 = i;
            } else if count == 1 {
                e2 = i;
            }
            count = count + 1;
        }
        i += 1;
    }
    proof {
        assert(empties_from(ps, n as int) == 0);
        assert(first_empty_from(ps, n as int) == n as int);
    }
    let gs: Vec<u16> = if count == 0 && n == 8 {
        match parse_groups_range(&parts, 0, 8) {
            Some(g) => g,
            None => {
                return None;
            },
        }
    } else if count == 3 && n == 3 {
        let mut z: Vec<u16> = Vec::new();
        let mut k: usize = 0;
        while k < 8
            invariant
                k <= 8,
                z@ =~= zero_groups(k as int),
            decreases 8 - k,
        {
            z.push(0);
            proof {
                assert(z@ =~= zero_groups(k + 1));
            }
            k += 1;
        }
        z
    } else if count == 1 && 0 < e1 && e1 < n - 1 && n <= 8 {
        let left = match parse_groups_range(&parts, 0, e1) {
            Some(g) => g,
            None => {
                return None;
            },
        };
        let right = match parse_groups_range(&parts, e1 + 1, n) {
            Some(g) => g,
            None => {
                return None;
            },
        };
        let zn = 8 - (n - 1);
        let mut gs: Vec<u16> = left;
        let mut k: usize = 0;
        while k < zn
            invariant
                k <= zn,
                gs@ =~= pieces_vals(ps, 0, e1 as int) + zero_groups(k as int),
            decreases zn - k,
        {
            gs.push(0);
            proof {
                assert(gs@ =~= pieces_vals(ps, 0, e1 as int) + zero_groups(k + 1));
            }
            k += 1;
        }
        let rn = right.len();
        let mut ri: usize = 0;
        proof {
            lemma_pieces_vals_len(ps, e1 + 1, n as int);
            assert(pieces_vals(ps, e1 + 1, n as int).take(0) =~= Seq::<u16>::empty());
            assert(gs@ =~= pieces_vals(ps, 0, e1 as int) + zero_groups(zn as int) + pieces_vals(
                ps,
                e1 + 1,
                n as int,
            ).take(0));
        }
        while ri < rn
            invariant
                rn == right@.len(),
                right@ == pieces_vals(ps, e1 + 1, n as int),
                rn as int == n - e1 - 1,
                ri <= rn,
                gs@ =~= pieces_vals(ps, 0, e1 as int) + zero_groups(zn as int) + pieces_vals(
                    ps,
                    e1 + 1,
                    n as int,
                ).take(ri as int),
            decreases rn - ri,
        {
            gs.push(right[ri]);
            proof {
                assert(pieces_vals(ps, e1 + 1, n as int).take(ri + 1) =~= pieces_vals(
                    ps,
                    e1 + 1,
                    n as int,
                ).take(ri as int).push(right@[ri as int]));
                assert(gs@ =~= pieces_vals(ps, 0, e1 as int) + zero_groups(zn as int)
                    + pieces_vals(ps, e1 + 1, n as int).take(ri + 1));
            }
            ri += 1;
        }
        proof {
            assert(pieces_vals(ps, e1 + 1, n as int).take(rn as int) =~= pieces_vals(
                ps,
                e1 + 1,
                n as int,
            ));
            lemma_pieces_vals_len(ps, 0, e1 as int);
            assert(gs@.len() == 8);
        }
        gs
    } else if count == 2 && e1 == 0 && e2 == 1 && 3 <= n && n <= 9 {
        let right = match parse_groups_range(&parts, 2, n) {
            Some(g) => g,
            None => {
                return None;
            },
        };
        let zn = 8 - (n - 2);
        let mut gs: Vec<u16> = Vec::new();
        let mut k: usize = 0;
        while k < zn
            invariant
                k <= zn,
                gs@ =~= zero_groups(k as int),
            decreases zn - k,
        {
            gs.push(0);
            proof {
                assert(gs@ =~= zero_groups(k + 1));
            }
            k += 1;
        }
        let rn = right.len();
        let mut ri: usize = 0;
        proof {
            lemma_pieces_vals_len(ps, 2, n as int);
            assert(gs@ =~= zero_groups(zn as int) + pieces_vals(ps, 2, n as int).take(0));
        }
        while ri < rn
            invariant
                rn == right@.len(),
                right@ == pieces_vals(ps, 2, n as int),
                rn as int == n - 2,
                ri <= rn,
                gs@ =~= zero_groups(zn as int) + pieces_vals(ps, 2, n as int).take(ri as int),
            decreases rn - ri,
        {
            gs.push(right[ri]);
            proof {
                assert(pieces_vals(ps, 2, n as int).take(ri + 1) =~= pieces_vals(
                    ps,
                    2,
                    n as int,
                ).take(ri as int).push(right@[ri as int]));
                assert(gs@ =~= zero_groups(zn as int) + pieces_vals(ps, 2, n as int).take(ri + 1));
            }
            ri += 1;
        }
        proof {
            assert(pieces_vals(ps, 2, n as int).take(rn as int) =~= pieces_vals(ps, 2, n as int));
            assert(gs@.len() == 8);
        }
        gs
    } else if count == 2 && n >= 2 && e1 == n - 2 && e2 == n - 1 && 3 <= n && n <= 9 {
        let left = match parse_groups_range(&parts, 0, n - 2) {
            Some(g) => g,
            None => {
                return None;
            },
        };
        let zn = 8 - (n - 2);
        let mut gs: Vec<u16> = left;
        let mut k: usize = 0;
        while k < zn
            invariant
                k <= zn,
                gs@ =~= pieces_vals(ps, 0, (n - 2) as int) + zero_groups(k as int),
                n >= 2,
            decreases zn - k,
        {
            gs.push(0);
            proof {
                assert(gs@ =~= pieces_vals(ps, 0, (n - 2) as int) + zero_groups(k + 1));
            }
            k += 1;
        }
        proof {
            lemma_pieces_vals_len(ps, 0, (n - 2) as int);
            assert(gs@.len() == 8);
        }
        gs
    } else {
        return None;
    };
    proof {
        lemma_pieces_vals_len(ps, 0, 8);
        assert(ipv6_expanded(s@) == Option::Some(gs@));
        assert(gs@.len() == 8);
    }
    // assemble the 128-bit value, high group first
    let mut acc: u128 = 0;
    let mut k: usize = 0;
    proof {
        assert(gs@.take(0) =~= Seq::<u16>::empty());
    }
    while k < 8
        invariant
            gs@.len() == 8,
            k <= 8,
            acc == groups_val(gs@.take(k as int)),
        decreases 8 - k,
    {
        proof {
            lemma_groups_val_bound(gs@.take(k as int));
            assert(gs@.take(k as int).len() == k as int);
            vstd::arithmetic::power2::lemma2_to64();
            vstd::arithmetic::power2::lemma2_to64_rest();
            assert(acc < pow2(112)) by {
                if k < 7 {
                    vstd::arithmetic::power2::lemma_pow2_strictly_increases(
                        (16 * k) as nat,
                        112nat,
                    );
                }
            }
            assert(acc * 0x1_0000 + 0x1_0000 <= pow2(112) * 0x1_0000) by (nonlinear_arith)
                requires
                    acc < pow2(112),
            ;
            assert(pow2(112) * 0x1_0000 == pow2(128)) by {
                vstd::arithmetic::power2::lemma_pow2_adds(112nat, 16nat);
            }
            assert(pow2(128) == pow2(64) * pow2(64)) by {
                vstd::arithmetic::power2::lemma_pow2_adds(64nat, 64nat);
            }
            assert(pow2(64) * pow2(64) == 0x1_0000_0000_0000_0000_0000_0000_0000_0000);
            assert(gs@.take(k + 1).drop_last() =~= gs@.take(k as int));
            assert(gs@.take(k + 1).last() == gs@[k as int]);
        }
        acc = acc * 0x1_0000 + (gs[k] as u128);
        k += 1;
    }
    proof {
        assert(gs@.take(8) =~= gs@);
    }
    Some(acc)
}

/// An ASCII whitespace character, as field separators in answer data.
pub open spec fn is_space(c: char) -> bool {
    c == ' ' || c == '\t' || c == '\r' || c == '\n'
}

/// Splits at whitespace runs, keeping only the non-empty fields in between.
pub open spec fn tokens_rec(s: Seq<char>, cur: Seq<char>, acc: Seq<Seq<char>>) -> Seq<Seq<char>>
    decreases s.len(),
{
    if s.len() == 0 {
        if cur.len() == 0 {
            acc
        } else {
            acc.push(cur)
        }
    } else if is_space(s.first()) {
        tokens_rec(
            s.drop_first(),
            Seq::empty(),
            if cur.len() == 0 {
                acc
            } else {
                acc.push(cur)
            },
        )
    } else {
        tokens_rec(s.drop_first(), cur.push(s.first()), acc)
    }
}

/// The whitespace-separated fields of a string.
pub open spec fn spec_tokens(s: Seq<char>) -> Seq<Seq<char>> {
    tokens_rec(s, Seq::empty(), Seq::empty())
}

/// Splits a string into its whitespace-separated fields.
pub fn split_fields(s: &str) -> (r: Vec<String>)
    ensures
        r.deep_view() == spec_tokens(s@),
{
    let n = s.unicode_len();
    let mut parts: Vec<String> = Vec::new();
    let mut start: usize = 0;
    let mut i: usize = 0;
    proof {
        assert(s@.skip(0) =~= s@);
        assert(s@.subrange(0, 0) =~= Seq::<char>::empty());
        assert(parts.deep_view() =~= Seq::<Seq<char>>::empty());
    }
    while i < n
        invariant
            n == s@.len(),
            start <= i <= n,
            tokens_rec(
                s@.skip(i as int),
                s@.subrange(start as int, i as int),
                parts.deep_view(),
            ) == spec_tokens(s@),
        decreases n - i,
    {
        let ghost dv0 = parts.deep_view();
        let c = s.get_char(i);
        proof {
            assert(s@.skip(i as int).first() == s@[i as int]);
        }
        if c == ' ' || c == '\t' || c == '\r' || c == '\n' {
            if start < i {
                let piece = s.substring_char(start, i);
                parts.push(piece.to_owned());
                proof {
                    assert(parts.deep_view() =~= dv0.push(s@.subrange(start as int, i as int)));
                }
            }
            proof {
                assert(s@.skip(i as int).drop_first() =~= s@.skip(i + 1));
                assert(s@.subrange(i + 1, i + 1) =~= Seq::<char>::empty());
            }
            start = i + 1;
        } else {
            proof {
                assert(s@.skip(i as int).drop_first() =~= s@.skip(i + 1));
                assert(s@.subrange(start as int, i as int).push(s@[i as int]) =~= s@.subrange(
                    start as int,
                    i + 1,
                ));
            }
        }
        i += 1;
    }
    proof {
        assert(s@.skip(n as int) =~= Seq::<char>::empty());
    }
    if start < n {
        let ghost dv0 = parts.deep_view();
        let piece = s.substring_char(start, n);
        parts.push(piece.to_owned());
        proof {
            assert(parts.deep_view() =~= dv0.push(s@.subrange(start as int, n as int)));
        }
    } else {
        proof {
            assert(s@.subrange(start as int, n as int) =~= Seq::<char>::empty());
        }
    }
    parts
}

/// The string with every leading double quote removed.
pub open spec fn drop_leading_quotes(s: Seq<char>) -> Seq<char>
    decreases s.len(),
{
    if s.len() > 0 && s.first() == '"' {
        drop_leading_quotes(s.drop_first())
    } else {
        s
    }
}

/// The string with every trailing double quote removed.
pub open spec fn drop_trailing_quotes(s: Seq<char>) -> Seq<char>
    decreases s.len(),
{
    if s.len() > 0 && s.last() == '"' {
        drop_trailing_quotes(s.drop_last())
    } else {
        s
    }
}

/// The string with all leading and trailing double quotes removed.
pub open spec fn spec_trim_quotes(s: Seq<char>) -> Seq<char> {
    drop_trailing_quotes(drop_leading_quotes(s))
}

/// Removes all leading and trailing double quotes.
pub fn trim_quotes(s: &str) -> (r: String)
    ensures
        r@ == spec_trim_quotes(s@),
{
    let n = s.unicode_len();
    let mut a: usize = 0;
    proof {
        assert(s@.skip(0) =~= s@);
    }
    while a < n && s.get_char(a) == '"'
        invariant
            n == s@.len(),
            a <= n,
            drop_leading_quotes(s@) == drop_leading_quotes(s@.skip(a as int)),
        decreases n - a,
    {
        proof {
            assert(s@.skip(a as int).first() == s@[a as int]);
            assert(s@.skip(a as int).drop_first() =~= s@.skip(a + 1));
        }
        a += 1;
    }
    proof {
        if a < n {
            assert(s@.skip(a as int).first() == s@[a as int]);
        } else {
            assert(s@.skip(a as int) =~= Seq::<char>::empty());
        }
        assert(drop_leading_quotes(s@) == s@.skip(a as int));
    }
    let mut b: usize = n;
    while b > a && s.get_char(b - 1) == '"'
        invariant
            n == s@.len(),
            a <= b <= n,
            drop_leading_quotes(s@) == s@.skip(a as int),
            drop_trailing_quotes(s@.skip(a as int)) == drop_trailing_quotes(
                s@.subrange(a as int, b as int),
            ),
        decreases b,
    {
        proof {
            assert(s@.subrange(a as int, b as int).last() == s@[b - 1]);
            assert(s@.subrange(a as int, b as int).drop_last() =~= s@.subrange(a as int, b - 1));
        }
        b -= 1;
    }
    proof {
        assert(s@.skip(a as int) =~= s@.subrange(a as int, n as int));
        if b > a {
            assert(s@.subrange(a as int, b as int).last() == s@[b - 1]);
        }
        assert(drop_trailing_quotes(s@.subrange(a as int, b as int)) == s@.subrange(
            a as int,
            b as int,
        ));
    }
    let r = s.substring_char(a, b);
    r.to_owned()
}

} // verus!