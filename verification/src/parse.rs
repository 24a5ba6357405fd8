//! Reading of numbers in names.

use vstd::prelude::*;

use crate::text::dec;

verus! {

/// A decimal digit.
pub open spec fn decimal(c: u8) -> bool {
    48 <= c <= 57
}

/// All characters are decimal digits.
pub open spec fn all_decimal(s: Seq<u8>) -> bool {
    forall|i: int| 0 <= i < s.len() ==> decimal(#[trigger] s[i])
}

/// The number that decimal digits write.
pub open spec fn digits_value(s: Seq<u8>) -> nat
    decreases s.len(),
{
    if s.len() == 0 {
        0
    } else {
        (digits_value(s.drop_last()) * 10 + (s.last() - 48)) as nat
    }
}

/// `s` without a leading plus sign.
pub open spec fn unsigned_part(s: Seq<u8>) -> Seq<u8> {
    if s.len() > 0 && s[0] == 43 {
        s.skip(1)
    } else {
        s
    }
}

/// The number that a text writes: decimal digits, at least one, after at most one plus sign.
pub open spec fn parsed_number(s: Seq<u8>) -> Option<u64> {
    let body = unsigned_part(s);
    if body.len() > 0 && all_decimal(body) && digits_value(body) <= u64::MAX {
        Some(digits_value(body) as u64)
    } else {
        None
    }
}

/// The size that a text writes: a number that is a size on this machine.
pub open spec fn parsed_size(s: Seq<u8>) -> Option<usize> {
    match parsed_number(s) {
        Some(n) => if n <= usize::MAX {
            Some(n as usize)
        } else {
            None
        },
        None => None,
    }
}

proof fn lemma_prefix_value(s: Seq<u8>, n: int)
    requires
        all_decimal(s),
        0 <= n <= s.len(),
    ensures
        digits_value(s.take(n)) <= digits_value(s),
    decreases s.len() - n,
{
    if n < s.len() {
        let next = s.take(n + 1);
        assert(next.drop_last() =~= s.take(n));
        assert(next.last() == s[n]);
        assert(digits_value(s.take(n)) <= digits_value(next));
        lemma_prefix_value(s, n + 1);
    } else {
        assert(s.take(n) =~= s);
    }
}

/// The number that bytes `from..to` write.
pub fn parse_number(s: &[u8], from: usize, to: usize) -> (r: Option<u64>)
    requires
        from <= to <= s@.len(),
    ensures
        r == parsed_number(s@.subrange(from as int, to as int)),
{
    let ghost text = s@.subrange(from as int, to as int);
    let ghost body = unsigned_part(text);
    let mut start: usize = from;
    if from < to && s[from] == 43 {
        start = from + 1;
    }
    assert(body =~= s@.subrange(start as int, to as int));
    if start == to {
        return None;
    }
    let mut value: u64 = 0;
    let mut i: usize = start;
    while i < to
        invariant
            from <= start <= i <= to <= s@.len(),
            body == s@.subrange(start as int, to as int),
            body == unsigned_part(text),
            text == s@.subrange(from as int, to as int),
            forall|j: int| 0 <= j < i - start ==> decimal(#[trigger] body[j]),
            value == digits_value(body.take(i - start)),
        decreases to - i,
    {
        let c: u8 = s[i];
        assert(body[i - start] == c);
        if c < 48 || c > 57 {
            return None;
        }
        proof {
            let next = body.take(i - start + 1);
            assert(next.drop_last() =~= body.take(i - start));
            if all_decimal(body) {
                lemma_prefix_value(body, i - start + 1);
            }
        }
        let d: u64 = (c - 48) as u64;
        value = match value.checked_mul(10) {
            Some(x) => match x.checked_add(d) {
                Some(y) => y,
                None => return None,
            },
            None => return None,
        };
        i += 1;
    }
    assert(body.take(i - start) =~= body);
    Some(value)
}

/// The size that bytes `from..to` write.
pub fn parse_size(s: &[u8], from: usize, to: usize) -> (r: Option<usize>)
    requires
        from <= to <= s@.len(),
    ensures
        r == parsed_size(s@.subrange(from as int, to as int)),
{
    match parse_number(s, from, to) {
        Some(n) => if n <= usize::MAX as u64 {
            Some(n as usize)
        } else {
            None
        },
        None => None,
    }
}

/// The first dot at or after `from`.
pub open spec fn dot_from(s: Seq<u8>, from: int) -> Option<int>
    decreases s.len() - from,
{
    if from < 0 || from >= s.len() {
        None
    } else if s[from] == 46 {
        Some(from)
    } else {
        dot_from(s, from + 1)
    }
}

/// The position of the first dot at or after `from`.
pub fn find_dot(s: &[u8], from: usize) -> (r: Option<usize>)
    ensures
        match r {
            Some(k) => dot_from(s@, from as int) == Some(k as int) && from <= k < s@.len(),
            None => dot_from(s@, from as int) is None,
        },
{
    let mut i: usize = from;
    while i < s.len()
        invariant
            from <= i,
            from <= s@.len() ==> i <= s@.len(),
            dot_from(s@, i as int) == dot_from(s@, from as int),
        decreases s@.len() - i,
    {
        if s[i] == 46 {
            return Some(i);
        }
        i += 1;
    }
    None
}

/// The bytes of a text of ASCII characters.
pub open spec fn ascii_bytes(s: Seq<char>) -> Seq<u8> {
    Seq::new(s.len(), |i: int| s[i] as u8)
}

/// A number that is written in decimal is read back, with or without a plus sign before it.
pub proof fn law_number_read_back(n: u64)
    ensures
        parsed_number(ascii_bytes(dec(n as nat))) == Some(n),
        parsed_number(seq![43u8] + ascii_bytes(dec(n as nat))) == Some(n),
{
    let s = ascii_bytes(dec(n as nat));
    lemma_dec_value(n as nat);
    assert(s[0] != 43);
    assert((seq![43u8] + s).skip(1) =~= s);
}

pub(crate) proof fn lemma_dec_value(n: nat)
    ensures
        dec(n).len() > 0,
        all_decimal(ascii_bytes(dec(n))),
        digits_value(ascii_bytes(dec(n))) == n,
        forall|i: int| 0 <= i < dec(n).len() ==> '0' <= #[trigger] dec(n)[i] <= '9',
    decreases n,
{
    let s = ascii_bytes(dec(n));
    reveal_with_fuel(digits_value, 2);
    if n < 10 {
        assert(s.drop_last() =~= Seq::<u8>::empty());
        assert(s.last() == 48 + n);
    } else {
        lemma_dec_value(n / 10);
        assert(s.drop_last() =~= ascii_bytes(dec(n / 10)));
        assert(s.last() == 48 + n % 10);
        assert forall|i: int| 0 <= i < s.len() implies decimal(#[trigger] s[i]) by {
            if i < s.len() - 1 {
                assert(s[i] == ascii_bytes(dec(n / 10))[i]);
            }
        }
    }
}

} // verus!
