//! Character and language classification, and the small string utilities the
//! rest of the library builds on.
//!
//! Targets are handled as `Vec<char>` inside the library; the helpers here
//! convert between `String`/`&str` and `Vec<char>` and classify characters.

use vstd::prelude::*;

verus! {

/// Whether `c` lies in one of the CJK ideograph blocks: the BMP unified
/// ideographs, extensions A through E, the compatibility ideographs, and
/// their supplementary-plane counterparts.
pub open spec fn spec_is_cjk_char(c: char) -> bool {
    ||| ('\u{4E00}' <= c && c <= '\u{9FFF}')
    ||| ('\u{3400}' <= c && c <= '\u{4DBF}')
    ||| ('\u{20000}' <= c && c <= '\u{2A6DF}')
    ||| ('\u{2A700}' <= c && c <= '\u{2B73F}')
    ||| ('\u{2B740}' <= c && c <= '\u{2B81F}')
    ||| ('\u{2B820}' <= c && c <= '\u{2CEAF}')
    ||| ('\u{F900}' <= c && c <= '\u{FAFF}')
    ||| ('\u{2F800}' <= c && c <= '\u{2FA1F}')
}

pub fn is_cjk_char(c: char) -> (r: bool)
    ensures
        r == spec_is_cjk_char(c),
{
    ('\u{4E00}' <= c && c <= '\u{9FFF}') || ('\u{3400}' <= c && c <= '\u{4DBF}') || (
    '\u{20000}' <= c && c <= '\u{2A6DF}') || ('\u{2A700}' <= c && c <= '\u{2B73F}') || (
    '\u{2B740}' <= c && c <= '\u{2B81F}') || ('\u{2B820}' <= c && c <= '\u{2CEAF}') || (
    '\u{F900}' <= c && c <= '\u{FAFF}') || ('\u{2F800}' <= c && c <= '\u{2FA1F}')
}

/// The characters with the Unicode `White_Space` property.
pub open spec fn spec_is_space(c: char) -> bool {
    ||| c == ' '
    ||| ('\u{0009}' <= c && c <= '\u{000D}')
    ||| c == '\u{0085}'
    ||| c == '\u{00A0}'
    ||| c == '\u{1680}'
    ||| ('\u{2000}' <= c && c <= '\u{200A}')
    ||| c == '\u{2028}'
    ||| c == '\u{2029}'
    ||| c == '\u{202F}'
    ||| c == '\u{205F}'
    ||| c == '\u{3000}'
}

pub fn is_space(c: char) -> (r: bool)
    ensures
        r == spec_is_space(c),
{
    c == ' ' || ('\u{0009}' <= c && c <= '\u{000D}') || c == '\u{0085}' || c == '\u{00A0}' || c
        == '\u{1680}' || ('\u{2000}' <= c && c <= '\u{200A}') || c == '\u{2028}' || c == '\u{2029}'
        || c == '\u{202F}' || c == '\u{205F}' || c == '\u{3000}'
}

/// ASCII punctuation: the four ASCII ranges around the letters and digits.
pub open spec fn spec_is_ascii_punct(c: char) -> bool {
    ||| ('!' <= c && c <= '/')
    ||| (':' <= c && c <= '@')
    ||| ('[' <= c && c <= '`')
    ||| ('{' <= c && c <= '~')
}

pub fn is_ascii_punct(c: char) -> (r: bool)
    ensures
        r == spec_is_ascii_punct(c),
{
    ('!' <= c && c <= '/') || (':' <= c && c <= '@') || ('[' <= c && c <= '`') || ('{' <= c && c
        <= '~')
}

/// The CJK punctuation marks that obfuscation leaves visible.
pub open spec fn spec_is_cjk_punct(c: char) -> bool {
    ||| c == '\u{FF0C}'
    ||| c == '\u{3002}'
    ||| c == '\u{FF01}'
    ||| c == '\u{FF1F}'
    ||| c == '\u{FF1B}'
    ||| c == '\u{FF1A}'
    ||| c == '\u{201C}'
    ||| c == '\u{201D}'
    ||| c == '\u{2018}'
    ||| c == '\u{2019}'
    ||| c == '\u{FF08}'
    ||| c == '\u{FF09}'
    ||| c == '\u{3010}'
    ||| c == '\u{3011}'
    ||| c == '\u{300A}'
    ||| c == '\u{300B}'
    ||| c == '\u{3001}'
}

pub fn is_cjk_punct(c: char) -> (r: bool)
    ensures
        r == spec_is_cjk_punct(c),
{
    c == '\u{FF0C}' || c == '\u{3002}' || c == '\u{FF01}' || c == '\u{FF1F}' || c == '\u{FF1B}' || c
        == '\u{FF1A}' || c == '\u{201C}' || c == '\u{201D}' || c == '\u{2018}' || c == '\u{2019}'
        || c == '\u{FF08}' || c == '\u{FF09}' || c == '\u{3010}' || c == '\u{3011}' || c
        == '\u{300A}' || c == '\u{300B}' || c == '\u{3001}'
}

/// What `char::is_alphanumeric` returns: whether the character has one of the
/// Unicode `Alphabetic` or `Number` properties. The full table is Unicode
/// data; only its value on given characters is named here.
pub uninterp spec fn alnum(c: char) -> bool;

/// Relies on `char::is_alphanumeric`: the result depends on the character
/// alone. The ASCII rows of the Unicode table are stated directly: ASCII
/// letters and digits are alphanumeric, the other ASCII characters are not.
#[verifier::external_body]
pub fn is_alnum(c: char) -> (r: bool)
    ensures
        r == alnum(c),
        ('a' <= c && c <= 'z') || ('A' <= c && c <= 'Z') || ('0' <= c && c <= '9') ==> r,
        c < '\u{80}' && !(('a' <= c && c <= 'z') || ('A' <= c && c <= 'Z') || ('0' <= c && c
            <= '9')) ==> !r,
{
    c.is_alphanumeric()
}

/// Whether the sequence `s` starts with the sequence `p`.
pub open spec fn spec_has_prefix(s: Seq<char>, p: Seq<char>) -> bool {
    p.len() <= s.len() && s.subrange(0, p.len() as int) == p
}

/// A language tag of the Chinese/Japanese/Korean family: `zh-*`, `ja-*`, `ko-*`.
pub open spec fn spec_is_cjk_language(s: Seq<char>) -> bool {
    ||| spec_has_prefix(s, seq!['z', 'h', '-'])
    ||| spec_has_prefix(s, seq!['j', 'a', '-'])
    ||| spec_has_prefix(s, seq!['k', 'o', '-'])
}

/// Whether the characters `s` start with the three characters `p0 p1 p2`.
fn starts_with3(s: &Vec<char>, p0: char, p1: char, p2: char) -> (r: bool)
    ensures
        r == spec_has_prefix(s@, seq![p0, p1, p2]),
{
    let r = s.len() >= 3 && s[0] == p0 && s[1] == p1 && s[2] == p2;
    proof {
        if s@.len() >= 3 {
            assert(s@.subrange(0, 3) =~= seq![s@[0], s@[1], s@[2]]);
        }
    }
    r
}

pub fn is_cjk_language(s: &Vec<char>) -> (r: bool)
    ensures
        r == spec_is_cjk_language(s@),
{
    starts_with3(s, 'z', 'h', '-') || starts_with3(s, 'j', 'a', '-') || starts_with3(
        s,
        'k',
        'o',
        '-',
    )
}

/// Whether the characters `s` start with `p0 p1` followed by `-`.
pub fn has_lang_prefix(s: &Vec<char>, p0: char, p1: char) -> (r: bool)
    ensures
        r == spec_has_prefix(s@, seq![p0, p1, '-']),
{
    starts_with3(s, p0, p1, '-')
}

/// The characters of `s`, in order.
pub fn chars_of(s: &str) -> (r: Vec<char>)
    ensures
        r@ == s@,
{
    let n = s.unicode_len();
    let mut r: Vec<char> = Vec::new();
    let mut i: usize = 0;
    while i < n
        invariant
            n == s@.len(),
            i <= n,
            r@ == s@.subrange(0, i as int),
        decreases n - i,
    {
        let c = s.get_char(i);
        r.push(c);
        proof {
            assert(s@.subrange(0, i + 1) =~= s@.subrange(0, i as int).push(s@[i as int]));
        }
        i = i + 1;
    }
    proof {
        assert(s@.subrange(0, n as int) =~= s@);
    }
    r
}

/// Relies on `core::iter::Iterator::collect` over the characters: the string
/// holding exactly the characters of `v`, in order.
#[verifier::external_body]
pub fn string_from_chars(v: &Vec<char>) -> (r: String)
    ensures
        r@ == v@,
{
    v.iter().collect()
}

/// Relies on `String::push`: appends one character.
#[verifier::external_body]
pub fn push_char(s: &mut String, c: char)
    ensures
        final(s)@ == old(s)@.push(c),
{
    s.push(c);
}

/// Relies on `String::pop`: removes and returns the last character, `None` on
/// an empty string.
#[verifier::external_body]
pub fn pop_char(s: &mut String) -> (r: Option<char>)
    ensures
        old(s)@.len() == 0 ==> final(s)@ == old(s)@ && r is None,
        old(s)@.len() > 0 ==> final(s)@ == old(s)@.drop_last() && r == Some(old(s)@.last()),
{
    s.pop()
}

/// Whether two strings hold the same characters.
pub fn str_eq(a: &str, b: &str) -> (r: bool)
    ensures
        r == (a@ == b@),
{
    let na = a.unicode_len();
    let nb = b.unicode_len();
    if na != nb {
        return false;
    }
    let mut i: usize = 0;
    while i < na
        invariant
            na == a@.len(),
            na == b@.len(),
            i <= na,
            forall|j: int| 0 <= j < i ==> a@[j] == b@[j],
        decreases na - i,
    {
        if a.get_char(i) != b.get_char(i) {
            return false;
        }
        i = i + 1;
    }
    proof {
        assert(a@ =~= b@);
    }
    true
}

/// Whether two character vectors hold the same characters.
pub fn chars_eq(a: &Vec<char>, b: &Vec<char>) -> (r: bool)
    ensures
        r == (a@ == b@),
{
    if a.len() != b.len() {
        return false;
    }
    let mut i: usize = 0;
    while i < a.len()
        invariant
            a@.len() == b@.len(),
            i <= a@.len(),
            forall|j: int| 0 <= j < i ==> a@[j] == b@[j],
        decreases a@.len() - i,
    {
        if a[i] != b[i] {
            return false;
        }
        i = i + 1;
    }
    proof {
        assert(a@ =~= b@);
    }
    true
}

} // verus!
