//! ASCII text helpers shared by the blocklist matcher and the answer parsers:
//! case folding, case-insensitive comparison, and line splitting.

use vstd::prelude::*;
use vstd::string::StringSliceAdditionalSpecFns;

verus! {

broadcast use vstd::string::is_ascii_spec_bytes;

/// ASCII case folding of a single character: `A`..`Z` map to `a`..`z`,
/// every other character is unchanged.
pub open spec fn lower_char(c: char) -> char {
    if 'A' <= c && c <= 'Z' {
        (((c as u8) + 32) as u8) as char
    } else {
        c
    }
}

/// ASCII case folding of a character sequence.
pub open spec fn lower(s: Seq<char>) -> Seq<char> {
    s.map_values(|c: char| lower_char(c))
}

/// ASCII case folding of a single byte.
pub open spec fn lower_byte(b: u8) -> u8 {
    if 65 <= b && b <= 90 {
        (b + 32) as u8
    } else {
        b
    }
}

/// For an ASCII character, folding the character and folding its byte value
/// agree, and the folded character is still ASCII.
pub proof fn lemma_lower_char_byte(c: char)
    requires
        '\0' <= c && c <= '\u{7f}',
    ensures
        '\0' <= lower_char(c) && lower_char(c) <= '\u{7f}',
        lower_char(c) as u8 == lower_byte(c as u8),
{
}

/// A character outside the ASCII range is unchanged by folding and stays
/// outside it.
pub proof fn lemma_lower_char_nonascii(c: char)
    requires
        !('\0' <= c && c <= '\u{7f}'),
    ensures
        lower_char(c) == c,
        !('\0' <= lower_char(c) && lower_char(c) <= '\u{7f}'),
{
}

/// Executable ASCII case folding of one byte.
pub fn fold_byte(b: u8) -> (r: u8)
    ensures
        r == lower_byte(b),
{
    if 65 <= b && b <= 90 {
        b + 32
    } else {
        b
    }
}

/// Case-insensitive (ASCII folding) equality of an ASCII string `a` against
/// an arbitrary string `b`.
pub fn eq_ignore_ascii_case(a: &str, b: &str) -> (r: bool)
    requires
        a.is_ascii(),
    ensures
        r == (lower(a@) == lower(b@)),
{
    if !b.is_ascii() {
        proof {
            let i = choose|i: int| 0 <= i < b@.len() && !('\0' <= #[trigger] b@[i] <= '\u{7f}');
            lemma_lower_char_nonascii(b@[i]);
            if lower(a@) == lower(b@) {
                assert(lower(a@).len() == a@.len());
                assert(i < a@.len());
                assert('\0' <= a@[i] <= '\u{7f}');
                assert(lower(a@)[i] == lower(b@)[i]);
                lemma_lower_char_byte(a@[i]);
            }
        }
        return false;
    }
    let ab = a.as_bytes();
    let bb = b.as_bytes();
    if ab.len() != bb.len() {
        proof {
            if lower(a@) == lower(b@) {
                assert(lower(a@).len() == lower(b@).len());
            }
        }
        return false;
    }
    let n = ab.len();
    let mut i: usize = 0;
    while i < n
        invariant
            n == ab@.len() == bb@.len(),
            a.is_ascii(),
            b.is_ascii(),
            ab@ == a.spec_bytes(),
            bb@ == b.spec_bytes(),
            i <= n,
            forall|j: int| 0 <= j < i ==> lower_char(a@[j]) == lower_char(b@[j]),
        decreases n - i,
    {
        let x = fold_byte(ab[i]);
        let y = fold_byte(bb[i]);
        if x != y {
            proof {
                lemma_lower_char_byte(a@[i as int]);
                lemma_lower_char_byte(b@[i as int]);
                if lower(a@) == lower(b@) {
                    assert(lower(a@)[i as int] == lower(b@)[i as int]);
                }
            }
            return false;
        }
        proof {
            lemma_lower_char_byte(a@[i as int]);
            lemma_lower_char_byte(b@[i as int]);
        }
        i += 1;
    }
    proof {
        assert(lower(a@) =~= lower(b@));
    }
    true
}

/// Splits a character sequence at `\n` terminators, accumulating the line
/// under construction in `cur`.  A final line without a terminator is kept;
/// a terminator at the end produces no empty trailing line.
pub open spec fn split_lines_rec(s: Seq<char>, cur: Seq<char>, acc: Seq<Seq<char>>) -> Seq<
    Seq<char>,
>
    decreases s.len(),
{
    if s.len() == 0 {
        if cur.len() == 0 {
            acc
        } else {
            acc.push(cur)
        }
    } else if s.first() == '\n' {
        split_lines_rec(s.drop_first(), Seq::empty(), acc.push(cur))
    } else {
        split_lines_rec(s.drop_first(), cur.push(s.first()), acc)
    }
}

/// The lines of a text: maximal `\n`-free runs; the terminator is not part of
/// a line, and text ending in `\n` has no empty final line.
pub open spec fn spec_lines(s: Seq<char>) -> Seq<Seq<char>> {
    split_lines_rec(s, Seq::empty(), Seq::empty())
}

/// Splits a text into its lines.
pub fn split_lines(text: &str) -> (lines: Vec<String>)
    ensures
        lines.deep_view() == spec_lines(text@),
{
    let n = text.unicode_len();
    let mut lines: Vec<String> = Vec::new();
    let mut start: usize = 0;
    let mut i: usize = 0;
    proof {
        assert(text@.skip(0) =~= text@);
        assert(text@.subrange(0, 0) =~= Seq::<char>::empty());
        assert(lines.deep_view() =~= Seq::<Seq<char>>::empty());
    }
    while i < n
        invariant
            n == text@.len(),
            start <= i <= n,
            split_lines_rec(
                text@.skip(i as int),
                text@.subrange(start as int, i as int),
                lines.deep_view(),
            ) == spec_lines(text@),
        decreases n - i,
    {
        let ghost dv0 = lines.deep_view();
        let c = text.get_char(i);
        proof {
            assert(text@.skip(i as int).first() == text@[i as int]);
        }
        if c == '\n' {
            let line = text.substring_char(start, i);
            lines.push(line.to_owned());
            proof {
                assert(lines.deep_view() =~= dv0.push(text@.subrange(start as int, i as int)));
                assert(text@.skip(i as int).drop_first() =~= text@.skip(i + 1));
                assert(text@.subrange(i + 1, i + 1) =~= Seq::<char>::empty());
            }
            start = i + 1;
        } else {
            proof {
                assert(text@.skip(i as int).drop_first() =~= text@.skip(i + 1));
                assert(text@.subrange(start as int, i as int).push(text@[i as int]) =~= text@
                    .subrange(start as int, i + 1));
            }
        }
        i += 1;
    }
    proof {
        assert(text@.skip(n as int) =~= Seq::<char>::empty());
    }
    if start < n {
        let ghost dv0 = lines.deep_view();
        let line = text.substring_char(start, n);
        lines.push(line.to_owned());
        proof {
            assert(lines.deep_view() =~= dv0.push(text@.subrange(start as int, n as int)));
        }
    } else {
        proof {
            assert(text@.subrange(start as int, n as int) =~= Seq::<char>::empty());
        }
    }
    lines
}
} // verus!
