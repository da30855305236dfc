//! Signed-magnitude amounts and the order on them.

use vstd::prelude::*;

verus! {

/// A signed-magnitude amount: two little-endian 64-bit words of magnitude and
/// a flag that is `true` for a non-negative amount.
pub type Amount = ([u64; 2], bool);

/// The magnitude held in two little-endian words.
pub open spec fn magnitude(words: [u64; 2]) -> nat {
    (words[0] as nat) + (words[1] as nat) * 0x1_0000_0000_0000_0000
}

/// The integer that an amount stands for. A magnitude of zero is zero under
/// either flag.
pub open spec fn signed_value(x: Amount) -> int {
    if x.1 {
        magnitude(x.0) as int
    } else {
        -(magnitude(x.0) as int)
    }
}

/// `up >= va >= low`, bounds included.
pub open spec fn within(up: Amount, va: Amount, low: Amount) -> bool {
    signed_value(up) >= signed_value(va) && signed_value(va) >= signed_value(low)
}

/// The magnitude as one 128-bit integer.
pub fn magnitude_of(words: [u64; 2]) -> (m: u128)
    ensures
        m == magnitude(words),
{
    let lo: u128 = words[0] as u128;
    let hi: u128 = words[1] as u128;
    hi * 0x1_0000_0000_0000_0000u128 + lo
}

/// Whether `a >= b` as integers.
pub fn signed_ge(a: Amount, b: Amount) -> (r: bool)
    ensures
        r == (signed_value(a) >= signed_value(b)),
{
    let ma: u128 = magnitude_of(a.0);
    let mb: u128 = magnitude_of(b.0);
    if a.1 {
        if b.1 {
            ma >= mb
        } else {
            true
        }
    } else {
        if b.1 {
            ma == 0 && mb == 0
        } else {
            ma <= mb
        }
    }
}

/// Whether `up >= va >= low`, bounds included.
pub fn in_range(up: Amount, va: Amount, low: Amount) -> (r: bool)
    ensures
        r == within(up, va, low),
{
    signed_ge(up, va) && signed_ge(va, low)
}

} // verus!
