//! Fully-qualified domain names: ASCII text, dot-separated labels, with a
//! trailing root dot.  Matching elsewhere is case-insensitive; a name keeps
//! the case it was written in.

use vstd::prelude::*;
use vstd::string::StringSliceAdditionalSpecFns;
use crate::text::lower;

verus! {

broadcast use vstd::string::is_ascii_spec_bytes;

/// Characters allowed inside a label.
pub open spec fn is_label_char(c: char) -> bool {
    ('a' <= c && c <= 'z') || ('A' <= c && c <= 'Z') || ('0' <= c && c <= '9') || c == '-' || c
        == '_'
}

/// Byte-level counterpart of [`is_label_char`].
pub open spec fn is_label_byte(b: u8) -> bool {
    (97 <= b && b <= 122) || (65 <= b && b <= 90) || (48 <= b && b <= 57) || b == 45 || b == 95
}

/// A well-formed fully-qualified name: at most 255 characters, ends in the
/// root dot, labels are non-empty runs of label characters.  The bare root
/// `"."` is well formed.
pub open spec fn valid_fqdn(s: Seq<char>) -> bool {
    &&& 1 <= s.len() <= 255
    &&& s.last() == '.'
    &&& forall|i: int| 0 <= i < s.len() ==> is_label_char(#[trigger] s[i]) || s[i] == '.'
    &&& (s.len() > 1 ==> s[0] != '.')
    &&& forall|i: int| 0 < i < s.len() && #[trigger] s[i] == '.' ==> s[i - 1] != '.'
}

/// The fully-qualified form of a written name: a trailing root dot is added
/// where missing.
pub open spec fn fqdn_of(s: Seq<char>) -> Seq<char> {
    if s.len() > 0 && s.last() == '.' {
        s
    } else {
        s.push('.')
    }
}

/// A fully-qualified domain name.
#[derive(Debug, Clone)]
pub struct Name {
    text: String,
}

impl View for Name {
    type V = Seq<char>;

    closed spec fn view(&self) -> Seq<char> {
        self.text@
    }
}

impl DeepView for Name {
    type V = Seq<char>;

    closed spec fn deep_view(&self) -> Seq<char> {
        self.text@
    }
}

impl Name {
    /// Well-formedness: the stored text is a valid fully-qualified name.
    pub open spec fn wf(&self) -> bool {
        valid_fqdn(self@)
    }

    /// Reads a name from its text form, accepting a missing trailing dot and
    /// rejecting anything that is not a well-formed name.
    pub fn parse(input: &str) -> (r: Option<Name>)
        ensures
            r is Some <==> input@.len() > 0 && valid_fqdn(fqdn_of(input@)),
            r is Some ==> r->0@ == fqdn_of(input@) && r->0.wf(),
    {
        if !input.is_ascii() {
            proof {
                let i = choose|i: int|
                    0 <= i < input@.len() && !('\0' <= #[trigger] input@[i] <= '\u{7f}');
                let f = fqdn_of(input@);
                if input@.len() > 0 && valid_fqdn(f) {
                    assert(f[i] == input@[i]);
                    assert(is_label_char(f[i]) || f[i] == '.');
                }
            }
            return None;
        }
        let bytes = input.as_bytes();
        let n = bytes.len();
        if n == 0 {
            return None;
        }
        if n > 255 {
            // Even without a trailing dot the result would be too long.
            proof {
                let f = fqdn_of(input@);
                assert(f.len() >= input@.len());
            }
            return None;
        }
        let mut i: usize = 0;
        let mut ok = true;
        while i < n
            invariant
                n == input@.len() == bytes@.len(),
                input.is_ascii(),
                bytes@ == input.spec_bytes(),
                i <= n,
                ok <==> (forall|j: int|
                    0 <= j < i ==> is_label_char(#[trigger] input@[j]) || input@[j] == '.'),
            decreases n - i,
        {
            let b = bytes[i];
            let lb = is_label_byte_exec(b);
            if !lb && b != 46 {
                ok = false;
                proof {
                    assert(!(is_label_char(input@[i as int]) || input@[i as int] == '.'));
                }
            }
            proof {
                lemma_label_byte_char(input@[i as int]);
            }
            i += 1;
        }
        if !ok {
            proof {
                let j = choose|j: int|
                    0 <= j < n && !(is_label_char(#[trigger] input@[j]) || input@[j] == '.');
                let f = fqdn_of(input@);
                if valid_fqdn(f) {
                    assert(f[j] == input@[j]);
                }
            }
            return None;
        }
        // every character is a label character or a dot
        let last_is_dot = bytes[n - 1] == 46;
        proof {
            lemma_label_byte_char(input@[n - 1]);
        }
        if !last_is_dot && n > 254 {
            proof {
                let f = fqdn_of(input@);
                assert(f.len() == n + 1);
            }
            return None;
        }
        if bytes[0] == 46 && n > 1 {
            proof {
                lemma_label_byte_char(input@[0]);
                let f = fqdn_of(input@);
                assert(f[0] == input@[0]);
            }
            return None;
        }
        // no two consecutive dots; and when a trailing dot will be added, the
        // final character must not itself be a dot (that case is n == 1, ".")
        let mut k: usize = 1;
        while k < n
            invariant
                n == input@.len() == bytes@.len(),
                input.is_ascii(),
                bytes@ == input.spec_bytes(),
                1 <= k <= n,
                forall|j: int| 0 < j < k && #[trigger] input@[j] == '.' ==> input@[j - 1] != '.',
            decreases n - k,
        {
            let two_dots = bytes[k] == 46 && bytes[k - 1] == 46;
            proof {
                lemma_label_byte_char(input@[k as int]);
                lemma_label_byte_char(input@[k - 1]);
            }
            if two_dots {
                proof {
                    let f = fqdn_of(input@);
                    if valid_fqdn(f) {
                        assert(f[k as int] == input@[k as int]);
                        assert(f[k - 1] == input@[k - 1]);
                    }
                }
                return None;
            }
            k += 1;
        }
        if last_is_dot {
            proof {
                assert(fqdn_of(input@) == input@);
            }
            Some(Name { text: input.to_owned() })
        } else {
            let mut text = input.to_owned();
            text.append(".");
            proof {
                reveal_strlit(".");
                assert(text@ =~= fqdn_of(input@));
                let f = fqdn_of(input@);
                assert forall|j: int| 0 <= j < f.len() implies is_label_char(#[trigger] f[j])
                    || f[j] == '.' by {
                    if j < n {
                        assert(f[j] == input@[j]);
                    }
                }
                assert forall|j: int| 0 < j < f.len() && #[trigger] f[j] == '.' implies f[j - 1]
                    != '.' by {
                    if j < n {
                        assert(f[j] == input@[j]);
                        assert(f[j - 1] == input@[j - 1]);
                    } else {
                        // the added trailing dot; the previous character is
                        // the last input character, which is not a dot
                        assert(f[j - 1] == input@[n - 1]);
                    }
                }
            }
            Some(Name { text })
        }
    }

    /// A copy of the name.
    pub fn duplicate(&self) -> (r: Name)
        ensures
            r@ == self@,
    {
        Name { text: self.text.clone() }
    }

    /// The name's text form, trailing dot included.
    pub fn to_ascii(&self) -> (r: String)
        ensures
            r@ == self@,
    {
        self.text.clone()
    }

    /// The name's text form, borrowed.
    pub fn as_str(&self) -> (r: &str)
        ensures
            r@ == self@,
    {
        self.text.as_str()
    }

    /// Whether `self`, taken as a zone, contains `name`: its labels are a
    /// suffix of the name's labels, compared case-insensitively.  The root
    /// zone contains every name.
    pub open spec fn spec_zone_of(&self, name: Seq<char>) -> bool {
        let z = lower(self@);
        let m = lower(name);
        z.len() == 1 || (z.len() <= m.len() && m.skip(m.len() - z.len()) == z && (z.len() == m.len()
            || m[m.len() - z.len() - 1] == '.'))
    }

    /// Decides whether this name, as a zone, contains `name`.
    pub fn zone_of(&self, name: &Name) -> (r: bool)
        requires
            self.wf(),
            name.wf(),
        ensures
            r == self.spec_zone_of(name@),
    {
        let zs = self.text.as_str();
        let ms = name.text.as_str();
        proof {
            lemma_fqdn_ascii(self@);
            lemma_fqdn_ascii(name@);
            assert(vstd::string::is_ascii(zs));
            assert(vstd::string::is_ascii(ms));
        }
        let zb = zs.as_bytes();
        let mb = ms.as_bytes();
        let zn = zb.len();
        let mn = mb.len();
        proof {
            assert(lower(self@).len() == self@.len());
            assert(lower(name@).len() == name@.len());
        }
        if zn == 1 {
            return true;
        }
        if zn > mn {
            return false;
        }
        if zn < mn {
            let boundary = mb[mn - zn - 1];
            proof {
                lemma_label_byte_char(name@[mn - zn - 1]);
                crate::text::lemma_lower_char_byte(name@[mn - zn - 1]);
            }
            if boundary != 46 {
                proof {
                    let m = lower(name@);
                    assert(m[mn - zn - 1] == crate::text::lower_char(name@[mn - zn - 1]));
                }
                return false;
            }
        }
        let off = mn - zn;
        let mut i: usize = 0;
        while i < zn
            invariant
                zn == self@.len(),
                mn == name@.len(),
                off == mn - zn,
                self.wf(),
                name.wf(),
                zb@.len() == zn,
                mb@.len() == mn,
                forall|j: int| 0 <= j < zn ==> #[trigger] zb@[j] == self@[j] as u8,
                forall|j: int| 0 <= j < mn ==> #[trigger] mb@[j] == name@[j] as u8,
                i <= zn,
                forall|j: int|
                    0 <= j < i ==> crate::text::lower_char(#[trigger] self@[j])
                        == crate::text::lower_char(name@[off + j]),
            decreases zn - i,
        {
            let x = crate::text::fold_byte(zb[i]);
            let y = crate::text::fold_byte(mb[off + i]);
            proof {
                crate::text::lemma_lower_char_byte(self@[i as int]);
                crate::text::lemma_lower_char_byte(name@[off + i]);
            }
            if x != y {
                proof {
                    let z = lower(self@);
                    let m = lower(name@);
                    if m.skip(mn - zn) == z {
                        assert(m.skip(mn - zn)[i as int] == m[off + i]);
                    }
                }
                return false;
            }
            i += 1;
        }
        proof {
            let z = lower(self@);
            let m = lower(name@);
            assert(m.skip(mn - zn) =~= z);
        }
        true
    }
}

/// A name's deep view is its view.
pub broadcast proof fn lemma_name_deep_view(n: &Name)
    ensures
        #[trigger] n.deep_view() == n@,
{
}

/// Names are made of ASCII characters.
pub proof fn lemma_fqdn_ascii(s: Seq<char>)
    requires
        forall|i: int| 0 <= i < s.len() ==> is_label_char(#[trigger] s[i]) || s[i] == '.',
    ensures
        vstd::utf8::is_ascii_chars(s),
{
    assert forall|i: int| 0 <= i < s.len() implies '\0' <= #[trigger] s[i] <= '\u{7f}' by {
        assert(is_label_char(s[i]) || s[i] == '.');
    }
}

/// Executable test for a label byte.
pub fn is_label_byte_exec(b: u8) -> (r: bool)
    ensures
        r == is_label_byte(b),
{
    (97 <= b && b <= 122) || (65 <= b && b <= 90) || (48 <= b && b <= 57) || b == 45 || b == 95
}

/// For an ASCII character, the byte and character versions of the label test
/// agree, and a dot is exactly byte 46.
pub proof fn lemma_label_byte_char(c: char)
    requires
        '\0' <= c && c <= '\u{7f}',
    ensures
        is_label_char(c) == is_label_byte(c as u8),
        (c == '.') == (c as u8 == 46),
{
}

} // verus!
