//! Reading an unsigned decimal integer from text.

use vstd::prelude::*;

verus! {

/// The ten ASCII digits.
pub open spec fn is_digit(c: char) -> bool {
    '0' <= c <= '9'
}

/// What a digit counts for.
pub open spec fn digit_value(c: char) -> nat {
    (c as int - '0' as int) as nat
}

/// Every character of `s` is a digit.
pub open spec fn all_digits(s: Seq<char>) -> bool {
    forall|i: int| 0 <= i < s.len() ==> is_digit(#[trigger] s[i])
}

/// The number that the digits of `s` write in base ten.
pub open spec fn digits_value(s: Seq<char>) -> nat
    decreases s.len(),
{
    if s.len() == 0 {
        0
    } else {
        digits_value(s.drop_last()) * 10 + digit_value(s.last())
    }
}

/// `s` without the one plus sign that may lead it.
pub open spec fn unsigned_digits(s: Seq<char>) -> Seq<char> {
    if s.len() > 0 && s.first() == '+' {
        s.drop_first()
    } else {
        s
    }
}

/// The integer that `s` writes: an optional `+`, then one digit or more and
/// nothing else, the whole no greater than `u64::MAX`. Any other text, the
/// empty one too, writes none.
pub open spec fn unsigned_value(s: Seq<char>) -> Option<u64> {
    let d = unsigned_digits(s);
    if d.len() > 0 && all_digits(d) && digits_value(d) <= u64::MAX {
        Some(digits_value(d) as u64)
    } else {
        None
    }
}

/// The integer that `s` writes, and zero where it writes none.
pub open spec fn unsigned_or_zero(s: Seq<char>) -> u64 {
    match unsigned_value(s) {
        Some(v) => v,
        None => 0,
    }
}

/// Digits appended to a number never make it smaller.
pub proof fn lemma_prefix_value(s: Seq<char>, k: int)
    requires
        0 <= k <= s.len(),
    ensures
        digits_value(s.take(k)) <= digits_value(s),
    decreases s.len(),
{
    if k == s.len() {
        assert(s.take(k) =~= s);
    } else {
        lemma_prefix_value(s.drop_last(), k);
        assert(s.drop_last().take(k) =~= s.take(k));
    }
}

/// Reads `chars[from..to]` as an unsigned integer.
pub fn parse_unsigned(chars: &Vec<char>, from: usize, to: usize) -> (r: Option<u64>)
    requires
        from <= to <= chars.len(),
    ensures
        r == unsigned_value(chars@.subrange(from as int, to as int)),
{
    let begin: usize = if from < to && chars[from] == '+' {
        from + 1
    } else {
        from
    };
    let ghost d = chars@.subrange(begin as int, to as int);
    if begin == to {
        return None;
    }
    let mut acc: u64 = 0;
    let mut i: usize = begin;
    while i < to
        invariant
            from <= begin <= i <= to <= chars.len(),
            d == chars@.subrange(begin as int, to as int),
            d == unsigned_digits(chars@.subrange(from as int, to as int)),
            all_digits(d.take(i - begin)),
            acc == digits_value(d.take(i - begin)),
        decreases to - i,
    {
        let c = chars[i];
        if !('0' <= c && c <= '9') {
            assert(!is_digit(d[i - begin]));
            return None;
        }
        let digit: u64 = (c as u32 - '0' as u32) as u64;
        proof {
            assert(d.take(i - begin + 1).drop_last() =~= d.take(i - begin));
            lemma_prefix_value(d, i - begin + 1);
        }
        let tens = match acc.checked_mul(10) {
            Some(v) => v,
            None => { return None; },
        };
        acc = match tens.checked_add(digit) {
            Some(v) => v,
            None => { return None; },
        };
        i += 1;
    }
    assert(d.take(to - begin) =~= d);
    Some(acc)
}

/// Reads `chars[from..to]` as an unsigned integer; text that writes none
/// reads as zero.
pub fn parse_unsigned_or_zero(chars: &Vec<char>, from: usize, to: usize) -> (r: u64)
    requires
        from <= to <= chars.len(),
    ensures
        r == unsigned_or_zero(chars@.subrange(from as int, to as int)),
{
    match parse_unsigned(chars, from, to) {
        Some(v) => v,
        None => 0,
    }
}

} // verus!
