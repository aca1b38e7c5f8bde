//! Decimal rendering of numbers.
use vstd::prelude::*;

verus! {

/// The ASCII digit of a value below 10.
pub open spec fn digit_char(d: nat) -> char {
    ((d + 48) as u8) as char
}

/// The decimal digits of `n`, most significant first, without leading zeros
/// (`0` is written as one digit), as `u64::to_string` writes it.
pub open spec fn decimal(n: nat) -> Seq<char>
    decreases n,
{
    if n < 10 {
        seq![digit_char(n)]
    } else {
        decimal(n / 10).push(digit_char(n % 10))
    }
}

/// The decimal digits of `n`.
pub fn decimal_chars(n: u64) -> (r: Vec<char>)
    ensures
        r@ == decimal(n as nat),
    decreases n,
{
    if n < 10 {
        let mut v: Vec<char> = Vec::new();
        v.push(((n + 48) as u8) as char);
        v
    } else {
        let mut v = decimal_chars(n / 10);
        v.push((((n % 10) + 48) as u8) as char);
        v
    }
}

/// Appends the characters of `tail` to `v`.
pub fn append_chars(v: &mut Vec<char>, tail: &[char])
    ensures
        final(v)@ == old(v)@ + tail@,
{
    let mut i: usize = 0;
    while i < tail.len()
        invariant
            0 <= i <= tail@.len(),
            v@ == old(v)@ + tail@.take(i as int),
        decreases tail@.len() - i,
    {
        assert(tail@.take(i + 1) =~= tail@.take(i as int).push(tail@[i as int]));
        assert(old(v)@ + tail@.take(i + 1) =~= (old(v)@ + tail@.take(i as int)).push(tail@[i as int]));
        v.push(tail[i]);
        i = i + 1;
    }
    assert(tail@.take(tail@.len() as int) =~= tail@);
}

} // verus!
