//! Searching in text.

use vstd::prelude::*;
use vstd::string::{StrSliceExecFns, StringExecFns, StringSliceAdditionalSpecFns};

use crate::slices::str_eq;

verus! {

/// An ASCII letter in lower case; any other byte as it is.
pub open spec fn lower(c: u8) -> u8 {
    if 65 <= c <= 90 {
        (c + 32) as u8
    } else {
        c
    }
}

/// The bytes with their ASCII letters in lower case.
pub open spec fn lowered(s: Seq<u8>) -> Seq<u8> {
    Seq::new(s.len(), |i: int| lower(s[i]))
}

/// `part` stands in `s` at `i`.
pub open spec fn stands_at(s: Seq<u8>, part: Seq<u8>, i: int) -> bool {
    0 <= i && i + part.len() <= s.len() && s.subrange(i, i + part.len()) == part
}

/// `part` stands somewhere in `s`.
pub open spec fn has_part(s: Seq<u8>, part: Seq<u8>) -> bool {
    exists|i: int| #[trigger] stands_at(s, part, i)
}

/// The ASCII letter in lower case.
pub fn lower_byte(c: u8) -> (r: u8)
    ensures
        r == lower(c),
{
    if 65 <= c && c <= 90 {
        c + 32
    } else {
        c
    }
}

/// The bytes with their ASCII letters in lower case.
pub fn lower_bytes(s: &[u8]) -> (r: Vec<u8>)
    ensures
        r@ == lowered(s@),
{
    let mut out: Vec<u8> = Vec::new();
    let mut i: usize = 0;
    while i < s.len()
        invariant
            i <= s@.len(),
            out@ == lowered(s@.take(i as int)),
        decreases s@.len() - i,
    {
        out.push(lower_byte(s[i]));
        i += 1;
        assert(out@ =~= lowered(s@.take(i as int)));
    }
    assert(s@.take(i as int) =~= s@);
    out
}

fn matches_at(s: &[u8], part: &[u8], at: usize) -> (r: bool)
    requires
        at + part@.len() <= s@.len(),
    ensures
        r == stands_at(s@, part@, at as int),
{
    assert(s@.len() == s.len());
    let mut k: usize = 0;
    while k < part.len()
        invariant
            k <= part@.len(),
            at + part@.len() <= s@.len() <= usize::MAX,
            forall|j: int| 0 <= j < k ==> s@[at + j] == part@[j],
        decreases part@.len() - k,
    {
        if s[at + k] != part[k] {
            assert(s@.subrange(at as int, at + part@.len())[k as int] != part@[k as int]);
            return false;
        }
        k += 1;
    }
    assert(s@.subrange(at as int, at + part@.len()) =~= part@);
    true
}

/// `true` if `part` stands somewhere in `s`.
pub fn bytes_contain(s: &[u8], part: &[u8]) -> (r: bool)
    ensures
        r == has_part(s@, part@),
{
    assert(s@.len() == s.len() && part@.len() == part.len());
    if part.len() > s.len() {
        return false;
    }
    let last: usize = s.len() - part.len();
    let mut i: usize = 0;
    while i <= last
        invariant
            i <= last + 1,
            last + part@.len() == s@.len(),
            s@.len() <= usize::MAX,
            last < usize::MAX || i <= last,
            forall|j: int| 0 <= j < i ==> !#[trigger] stands_at(s@, part@, j),
        decreases last + 1 - i,
    {
        if matches_at(s, part, i) {
            assert(stands_at(s@, part@, i as int));
            return true;
        }
        if i == last {
            assert forall|j: int| !#[trigger] stands_at(s@, part@, j) by {}
            return false;
        }
        i += 1;
    }
    false
}

/// `true` if `part` stands in the text.
pub fn text_contains(s: &str, part: &str) -> (r: bool)
    ensures
        r == has_part(s.spec_bytes(), part.spec_bytes()),
{
    bytes_contain(s.as_bytes(), part.as_bytes())
}

/// `true` if `part` stands in the text after its ASCII letters were put in lower case.
pub fn lower_contains(s: &str, part: &str) -> (r: bool)
    ensures
        r == has_part(lowered(s.spec_bytes()), part.spec_bytes()),
{
    let low: Vec<u8> = lower_bytes(s.as_bytes());
    bytes_contain(low.as_slice(), part.as_bytes())
}

/// The text begins with `part`.
pub open spec fn begins(s: Seq<char>, part: Seq<char>) -> bool {
    s.len() >= part.len() && s.subrange(0, part.len() as int) == part
}

/// The text ends with `part`.
pub open spec fn ends(s: Seq<char>, part: Seq<char>) -> bool {
    s.len() >= part.len() && s.subrange(s.len() - part.len(), s.len() as int) == part
}

/// `true` if the text begins with `part`.
pub fn text_begins(s: &str, part: &str) -> (r: bool)
    ensures
        r == begins(s@, part@),
{
    let n: usize = part.unicode_len();
    if s.unicode_len() < n {
        return false;
    }
    str_eq(s.substring_char(0, n), part)
}

/// `true` if the text ends with `part`.
pub fn text_ends(s: &str, part: &str) -> (r: bool)
    ensures
        r == ends(s@, part@),
{
    let n: usize = part.unicode_len();
    let len: usize = s.unicode_len();
    if len < n {
        return false;
    }
    str_eq(s.substring_char(len - n, len), part)
}

/// The text with each match of a pattern replaced, from the left, none of them overlapping.
pub open spec fn replaced(s: Seq<char>, pattern: Seq<char>, with: Seq<char>) -> Seq<char>
    decreases s.len(),
{
    if pattern.len() == 0 || s.len() < pattern.len() {
        s
    } else if s.take(pattern.len() as int) == pattern {
        with + replaced(s.skip(pattern.len() as int), pattern, with)
    } else {
        seq![s[0]] + replaced(s.skip(1), pattern, with)
    }
}

/// Replaces all matches of a pattern, which is not empty.
pub fn replace_all(s: &str, pattern: &str, with: &str) -> (r: String)
    requires
        pattern@.len() > 0,
    ensures
        r@ == replaced(s@, pattern@, with@),
{
    let n: usize = s.unicode_len();
    let m: usize = pattern.unicode_len();
    let mut out: String = String::new();
    let mut i: usize = 0;
    proof {
        assert(s@.skip(0) =~= s@);
        assert(out@ + replaced(s@.skip(0), pattern@, with@) =~= replaced(s@, pattern@, with@));
    }
    while i < n
        invariant
            i <= n,
            n == s@.len(),
            m == pattern@.len(),
            m > 0,
            out@ + replaced(s@.skip(i as int), pattern@, with@) == replaced(s@, pattern@, with@),
        decreases n - i,
    {
        let ghost rest = s@.skip(i as int);
        let ghost before = out@;
        if m <= n - i && str_eq(s.substring_char(i, i + m), pattern) {
            out.append(with);
            proof {
                assert(rest.take(m as int) =~= s@.subrange(i as int, i + m));
                assert(rest.skip(m as int) =~= s@.skip(i + m));
                let tail = replaced(s@.skip(i + m), pattern@, with@);
                assert((before + with@) + tail =~= before + (with@ + tail));
            }
            i += m;
        } else {
            out.push(s.get_char(i));
            proof {
                assert(rest.skip(1) =~= s@.skip(i + 1));
                if m <= n - i {
                    assert(rest.take(m as int) =~= s@.subrange(i as int, i + m));
                }
                let tail = replaced(s@.skip(i + 1), pattern@, with@);
                assert(replaced(rest, pattern@, with@) =~= seq![rest[0]] + tail);
                assert(before.push(rest[0]) + tail =~= before + (seq![rest[0]] + tail));
            }
            i += 1;
        }
    }
    proof {
        assert(s@.skip(i as int) =~= Seq::<char>::empty());
        assert(out@ + Seq::<char>::empty() =~= out@);
    }
    out
}

/// No character of the text begins the pattern.
pub open spec fn never_begins(s: Seq<char>, first: char) -> bool {
    forall|i: int| 0 <= i < s.len() ==> #[trigger] s[i] != first
}

/// A text in which nothing begins a pattern stays as it is. Behind such a text the pattern is
/// replaced, and what follows it is treated as a text of its own.
pub proof fn law_replaced(x: Seq<char>, pattern: Seq<char>, y: Seq<char>, with: Seq<char>)
    requires
        pattern.len() > 0,
        never_begins(x, pattern[0]),
    ensures
        replaced(x, pattern, with) == x,
        replaced(x + pattern + y, pattern, with) == x + with + replaced(y, pattern, with),
    decreases x.len(),
{
    let s = x + pattern + y;
    if x.len() == 0 {
        assert(s =~= pattern + y);
        assert(s.take(pattern.len() as int) =~= pattern);
        assert(s.skip(pattern.len() as int) =~= y);
        assert(x + with + replaced(y, pattern, with) =~= with + replaced(y, pattern, with));
    } else {
        let rest = x.skip(1);
        assert forall|i: int| 0 <= i < rest.len() implies #[trigger] rest[i] != pattern[0] by {
            assert(rest[i] == x[i + 1]);
        }
        law_replaced(rest, pattern, y, with);
        assert(x[0] != pattern[0]);
        assert(s.take(pattern.len() as int)[0] == x[0]);
        assert(s.skip(1) =~= rest + pattern + y);
        assert(replaced(s, pattern, with) =~= x + with + replaced(y, pattern, with));
        if x.len() >= pattern.len() {
            assert(x.take(pattern.len() as int)[0] == x[0]);
            assert(seq![x[0]] + rest =~= x);
        }
    }
}

} // verus!
