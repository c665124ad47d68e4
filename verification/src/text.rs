//! Character-level helpers for names and identifiers.

use vstd::prelude::*;
use vstd::string::StrSliceExecFns;

verus! {

/// The characters with Unicode's White_Space property, which is what `char::is_whitespace`
/// tests for.
pub open spec fn spec_is_whitespace(c: char) -> bool {
    let u = c as u32;
    ||| 0x09 <= u <= 0x0D
    ||| u == 0x20
    ||| u == 0x85
    ||| u == 0xA0
    ||| u == 0x1680
    ||| 0x2000 <= u <= 0x200A
    ||| u == 0x2028
    ||| u == 0x2029
    ||| u == 0x202F
    ||| u == 0x205F
    ||| u == 0x3000
}

/// Whether a character is white space, as `char::is_whitespace` tests.
fn is_whitespace(c: char) -> (r: bool)
    ensures
        r == spec_is_whitespace(c),
{
    let u = c as u32;
    (0x09 <= u && u <= 0x0D) || u == 0x20 || u == 0x85 || u == 0xA0 || u == 0x1680 || (0x2000 <= u
        && u <= 0x200A) || u == 0x2028 || u == 0x2029 || u == 0x202F || u == 0x205F || u == 0x3000
}

/// Whether nothing but white space is left once the ends are trimmed.
pub open spec fn is_blank(s: Seq<char>) -> bool {
    forall|i: int| 0 <= i < s.len() ==> spec_is_whitespace(#[trigger] s[i])
}

/// Whether the text is empty once white space is trimmed from its ends.
pub fn blank(s: &str) -> (r: bool)
    ensures
        r == is_blank(s@),
{
    let n = s.unicode_len();
    let mut i: usize = 0;
    while i < n
        invariant
            n == s@.len(),
            i <= n,
            forall|j: int| 0 <= j < i ==> spec_is_whitespace(#[trigger] s@[j]),
        decreases n - i,
    {
        if !is_whitespace(s.get_char(i)) {
            return false;
        }
        i = i + 1;
    }
    true
}

/// Calls `String::push`, which appends one character.
#[verifier::external_body]
pub(crate) fn push_char(s: &mut String, c: char)
    ensures
        final(s)@ == old(s)@.push(c),
{
    s.push(c)
}

/// The ASCII upper case of a character; others stay as they are.
pub open spec fn spec_ascii_upper(c: char) -> char {
    if 'a' <= c <= 'z' {
        ((c as u32) - 32) as char
    } else {
        c
    }
}

pub fn ascii_upper(c: char) -> (r: char)
    ensures
        r == spec_ascii_upper(c),
{
    if 'a' <= c && c <= 'z' {
        ((c as u8) - 32) as char
    } else {
        c
    }
}

/// `needle` occurs in `hay` at `i`.
pub open spec fn occurs_at(hay: Seq<char>, needle: Seq<char>, i: int) -> bool {
    0 <= i && i + needle.len() <= hay.len() && hay.subrange(i, i + needle.len() as int) == needle
}

pub open spec fn spec_contains(hay: Seq<char>, needle: Seq<char>) -> bool {
    exists|i: int| occurs_at(hay, needle, i)
}

fn occurs_here(hay: &str, needle: &str, i: usize, m: usize) -> (r: bool)
    requires
        m == needle@.len(),
        i + m <= hay@.len(),
        hay@.len() <= usize::MAX,
    ensures
        r == occurs_at(hay@, needle@, i as int),
{
    for k in 0..m
        invariant
            m == needle@.len(),
            i + m <= hay@.len(),
            hay@.len() <= usize::MAX,
            forall|j: int| 0 <= j < k ==> hay@[i + j] == needle@[j],
    {
        if hay.get_char(i + k) != needle.get_char(k) {
            assert(hay@.subrange(i as int, i + m)[k as int] != needle@[k as int]);
            return false;
        }
    }
    assert(hay@.subrange(i as int, i + m) =~= needle@);
    true
}

/// Whether the text contains the other text.
pub fn contains_text(hay: &str, needle: &str) -> (r: bool)
    ensures
        r == spec_contains(hay@, needle@),
{
    let n = hay.unicode_len();
    let m = needle.unicode_len();
    if m > n {
        proof {
            assert forall|i: int| !occurs_at(hay@, needle@, i) by {}
        }
        return false;
    }
    if m == 0 {
        assert(hay@.subrange(0, 0) =~= needle@);
        assert(occurs_at(hay@, needle@, 0));
        return true;
    }
    let last = n - m;
    let mut i: usize = 0;
    while i <= last
        invariant
            n == hay@.len(),
            m == needle@.len(),
            last + m == n,
            m > 0,
            i <= last + 1,
            forall|j: int| 0 <= j < i ==> !occurs_at(hay@, needle@, j),
        decreases last + 1 - i,
    {
        if occurs_here(hay, needle, i, m) {
            return true;
        }
        i = i + 1;
    }
    proof {
        assert forall|j: int| !occurs_at(hay@, needle@, j) by {
            if 0 <= j && j + m <= n {
                assert(j < i);
            }
        }
    }
    false
}

/// Whether the text begins with the other text.
pub fn starts_with_text(hay: &str, prefix: &str) -> (r: bool)
    ensures
        r == occurs_at(hay@, prefix@, 0),
{
    let n = hay.unicode_len();
    let m = prefix.unicode_len();
    if m > n {
        return false;
    }
    occurs_here(hay, prefix, 0, m)
}

} // verus!
