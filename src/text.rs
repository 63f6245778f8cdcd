//! Character-level helpers over dump fields: prefix tests, equality and the
//! decimal integers that follow a one-character marker.
use vstd::prelude::*;
use vstd::string::*;

verus! {

pub open spec fn is_digit(c: char) -> bool {
    '0' <= c && c <= '9'
}

pub open spec fn digit_value(c: char) -> int {
    c as int - '0' as int
}

pub open spec fn all_digits(s: Seq<char>) -> bool {
    forall|i: int| 0 <= i < s.len() ==> is_digit(#[trigger] s[i])
}

/// The number that a string of decimal digits denotes.
pub open spec fn digits_value(s: Seq<char>) -> int
    decreases s.len(),
{
    if s.len() == 0 {
        0
    } else {
        10 * digits_value(s.drop_last()) + digit_value(s.last())
    }
}

/// What follows an optional leading `+`.
pub open spec fn unsigned_digits(s: Seq<char>) -> Seq<char> {
    if s.len() > 0 && s[0] == '+' {
        s.drop_first()
    } else {
        s
    }
}

/// An unsigned decimal as Rust's `u32` parser reads it: an optional `+`,
/// then one or more digits, with a value that fits in 32 bits.
pub open spec fn decimal_u32(s: Seq<char>) -> Option<u32> {
    let d = unsigned_digits(s);
    if d.len() > 0 && all_digits(d) && digits_value(d) <= u32::MAX {
        Some(digits_value(d) as u32)
    } else {
        None
    }
}

/// An integer field of the dump: one marker character (the `(` that opens a
/// tuple, or the letter before a knowledge-base number) and a decimal.
pub open spec fn marked_u32(f: Seq<char>) -> Option<u32> {
    if f.len() == 0 {
        None
    } else {
        decimal_u32(f.drop_first())
    }
}

pub open spec fn starts_with(s: Seq<char>, prefix: Seq<char>) -> bool {
    prefix.len() <= s.len() && s.take(prefix.len() as int) == prefix
}

proof fn lemma_digits_value_nonneg(s: Seq<char>)
    requires
        all_digits(s),
    ensures
        digits_value(s) >= 0,
    decreases s.len(),
{
    if s.len() > 0 {
        lemma_digits_value_nonneg(s.drop_last());
    }
}

/// A prefix of a digit string never denotes more than the whole string.
proof fn lemma_digits_prefix_le(s: Seq<char>, k: int)
    requires
        all_digits(s),
        0 <= k <= s.len(),
    ensures
        digits_value(s.take(k)) <= digits_value(s),
    decreases s.len(),
{
    if k == s.len() {
        assert(s.take(k) =~= s);
    } else {
        let t = s.drop_last();
        assert(all_digits(t));
        lemma_digits_prefix_le(t, k);
        assert(t.take(k) =~= s.take(k));
        lemma_digits_value_nonneg(t);
    }
}

/// Whether `s` begins with `prefix`.
pub fn has_prefix(s: &str, prefix: &str) -> (r: bool)
    ensures
        r == starts_with(s@, prefix@),
{
    let n = prefix.unicode_len();
    let m = s.unicode_len();
    if n > m {
        return false;
    }
    let mut i: usize = 0;
    while i < n
        invariant
            i <= n <= m,
            n == prefix@.len(),
            m == s@.len(),
            forall|j: int| 0 <= j < i ==> s@[j] == prefix@[j],
        decreases n - i,
    {
        if s.get_char(i) != prefix.get_char(i) {
            assert(s@.take(n as int)[i as int] != prefix@[i as int]);
            return false;
        }
        i += 1;
    }
    assert(s@.take(n as int) =~= prefix@);
    true
}

/// Whether two strings hold the same characters.
pub fn same_text(a: &str, b: &str) -> (r: bool)
    ensures
        r == (a@ == b@),
{
    if a.unicode_len() != b.unicode_len() {
        return false;
    }
    let r = has_prefix(a, b);
    assert(a@.take(b@.len() as int) =~= a@);
    r
}

/// Reads the decimal after the first character of `field`.
pub fn parse_marked_u32(field: &str) -> (r: Option<u32>)
    ensures
        r == marked_u32(field@),
{
    let n = field.unicode_len();
    if n == 0 {
        return None;
    }
    let ghost s = field@.drop_first();
    let mut start: usize = 1;
    if n > 1 && field.get_char(1) == '+' {
        start = 2;
    }
    let ghost d = field@.skip(start as int);
    assert(d =~= unsigned_digits(s));
    if start >= n {
        return None;
    }
    let mut v: u64 = 0;
    let mut i: usize = start;
    while i < n
        invariant
            1 <= start <= i <= n,
            n == field@.len(),
            d == field@.skip(start as int),
            s == field@.drop_first(),
            d == unsigned_digits(s),
            all_digits(d.take(i - start)),
            v as int == digits_value(d.take(i - start)),
            v <= u32::MAX,
        decreases n - i,
    {
        let c = field.get_char(i);
        if !('0' <= c && c <= '9') {
            assert(d[i - start] == c);
            assert(!is_digit(d[i - start]));
            return None;
        }
        let ghost k = i - start;
        assert(d.take(k + 1).drop_last() =~= d.take(k));
        assert(d.take(k + 1).last() == c);
        v = v * 10 + (c as u32 - '0' as u32) as u64;
        assert(all_digits(d.take(k + 1)));
        assert(v as int == digits_value(d.take(k + 1)));
        if v > 4294967295u64 {
            proof {
                if all_digits(d) {
                    lemma_digits_prefix_le(d, k + 1);
                    assert(digits_value(d) > u32::MAX);
                }
                assert(decimal_u32(s) is None);
            }
            return None;
        }
        i += 1;
    }
    assert(d.take(n - start) =~= d);
    Some(v as u32)
}

} // verus!

verus! {

/// Unicode Normalization Form C of a string, as the `unicode-normalization`
/// crate computes it.
pub uninterp spec fn nfc_of(s: Seq<char>) -> Seq<char>;

/// Relies on `UnicodeNormalization::nfc` of `unicode-normalization`: the
/// composed form depends on the characters alone.
#[verifier::external_body]
pub(crate) fn normalize_nfc(s: &str) -> (r: String)
    ensures
        r@ == nfc_of(s@),
{
    unicode_normalization::UnicodeNormalization::nfc(s).collect()
}

/// The lines of a text as `str::lines` cuts them: at each `\n`, with a `\r`
/// before it dropped, and no empty line after a final `\n`.
pub uninterp spec fn lines_of(s: Seq<char>) -> Seq<Seq<char>>;

pub open spec fn lines_view(v: Seq<String>) -> Seq<Seq<char>> {
    v.map_values(|l: String| l@)
}

/// Relies on `str::lines`: the lines depend on the text alone.
#[verifier::external_body]
pub(crate) fn split_lines(s: &str) -> (r: Vec<String>)
    ensures
        lines_view(r@) == lines_of(s@),
{
    s.lines().map(String::from).collect()
}

} // verus!
