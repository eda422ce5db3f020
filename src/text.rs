//! String normalisation used to build index keys.

use vstd::prelude::*;
use vstd::utf8::encode_utf8;

verus! {

/// What `str::to_lowercase` returns for a string, as a sequence of chars.
/// Full Unicode lowercasing depends on the characters alone.
pub uninterp spec fn lower_of(s: Seq<char>) -> Seq<char>;

/// Relies on `str::to_lowercase`: Unicode lowercasing of every character.
#[verifier::external_body]
pub(crate) fn lowercase(s: &str) -> (r: String)
    ensures
        r@ == lower_of(s@),
{
    s.to_lowercase()
}

/// The code point of a char after ASCII lowercasing: `A`..`Z` move to
/// `a`..`z`, every other char keeps its code point.
pub open spec fn ascii_fold(c: char) -> u32 {
    if 'A' as u32 <= c as u32 && c as u32 <= 'Z' as u32 {
        (c as u32 + 32) as u32
    } else {
        c as u32
    }
}

/// Two strings are equal up to ASCII case.
pub open spec fn same_ignoring_ascii_case(a: Seq<char>, b: Seq<char>) -> bool {
    &&& a.len() == b.len()
    &&& forall|i: int| 0 <= i < a.len() ==> #[trigger] ascii_fold(a[i]) == ascii_fold(b[i])
}

/// Relies on `str::eq_ignore_ascii_case`: equal lengths, and equal bytes once
/// ASCII letters are lowercased. Bytes of a multi-byte char are never ASCII,
/// so this is the same as comparing the chars after ASCII lowercasing.
#[verifier::external_body]
pub(crate) fn eq_ignore_ascii_case(a: &str, b: &str) -> (r: bool)
    ensures
        r == same_ignoring_ascii_case(a@, b@),
{
    a.eq_ignore_ascii_case(b)
}

/// A string with one leading dot taken off, where it has one.
pub open spec fn strip_dot(s: Seq<char>) -> Seq<char> {
    if s.len() > 0 && s[0] == '.' {
        s.drop_first()
    } else {
        s
    }
}

/// Relies on `str::strip_prefix` with a char pattern: the rest of the string
/// after one leading `.`, or `None` where the string does not start with one.
#[verifier::external_body]
pub(crate) fn strip_dot_prefix(s: &str) -> (r: Option<&str>)
    ensures
        match r {
            Some(rest) => s@.len() > 0 && s@[0] == '.' && rest@ == s@.drop_first(),
            None => !(s@.len() > 0 && s@[0] == '.'),
        },
{
    s.strip_prefix('.')
}

/// The string with one leading dot taken off, where it has one.
pub(crate) fn without_leading_dot(s: &str) -> (r: &str)
    ensures
        r@ == strip_dot(s@),
{
    match strip_dot_prefix(s) {
        Some(rest) => rest,
        None => s,
    }
}

/// Byte-wise ordinal order: `a` sorts strictly before `b` when it is a
/// proper prefix of `b`, or has a smaller byte where they first differ.
pub open spec fn bytes_precede(a: Seq<u8>, b: Seq<u8>) -> bool {
    exists|i: int|
        0 <= i <= a.len() && i <= b.len() && #[trigger] a.take(i) == b.take(i) && ((i == a.len()
            && i < b.len()) || (i < a.len() && i < b.len() && a[i] < b[i]))
}

/// Ordinal order of strings, as `str`'s `Ord` compares them: by their UTF-8
/// bytes.
pub open spec fn name_precedes(a: Seq<char>, b: Seq<char>) -> bool {
    bytes_precede(encode_utf8(a), encode_utf8(b))
}

/// Whether `a` sorts strictly before `b` in ordinal order.
pub fn precedes(a: &str, b: &str) -> (r: bool)
    ensures
        r == name_precedes(a@, b@),
{
    let x = a.as_bytes();
    let y = b.as_bytes();
    let ghost xs = x@;
    let ghost ys = y@;
    let mut i: usize = 0;
    while i < x.len() && i < y.len() && x[i] == y[i]
        invariant
            xs == x@,
            ys == y@,
            i <= xs.len(),
            i <= ys.len(),
            xs.take(i as int) == ys.take(i as int),
        decreases xs.len() - i,
    {
        assert(xs.take(i + 1) == xs.take(i as int).push(xs[i as int]));
        assert(ys.take(i + 1) == ys.take(i as int).push(ys[i as int]));
        i = i + 1;
    }
    let r = if i < x.len() && i < y.len() {
        x[i] < y[i]
    } else {
        i == x.len() && i < y.len()
    };
    proof {
        let m = i as int;
        if !r {
            assert forall|j: int|
                0 <= j <= xs.len() && j <= ys.len() && #[trigger] xs.take(j) == ys.take(j)
                    implies !((j == xs.len() && j < ys.len()) || (j < xs.len() && j < ys.len()
                    && xs[j] < ys[j])) by {
                if j < m {
                    assert(xs.take(m)[j] == ys.take(m)[j]);
                } else if j > m {
                    assert(xs.take(j)[m] == ys.take(j)[m]);
                }
            }
        }
    }
    r
}

} // verus!
