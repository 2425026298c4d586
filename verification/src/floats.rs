//! Single-precision numbers by their IEEE 754 bit patterns: which number a
//! pattern is, and how patterns are ordered.

use vstd::prelude::*;

verus! {

use vstd::arithmetic::power2::pow2;

/// The bits below the sign.
pub open spec fn magnitude_bits(bits: u32) -> int {
    (bits % 2147483648) as int
}

/// The sign bit is set.
pub open spec fn is_negative(bits: u32) -> bool {
    bits >= 2147483648
}

/// The exponent field.
pub open spec fn exponent_field(bits: u32) -> int {
    magnitude_bits(bits) / 8388608
}

/// The fraction field.
pub open spec fn fraction_field(bits: u32) -> int {
    magnitude_bits(bits) % 8388608
}

/// `bits` is the single-precision number `units * 2^exponent`: positive zero
/// for no units, otherwise a normal number with that sign and value.
pub open spec fn is_number(bits: u32, units: int, exponent: int) -> bool {
    if units == 0 {
        bits == 0
    } else {
        let size = if units < 0 {
            -units
        } else {
            units
        };
        let shift = exponent_field(bits) - 150 - exponent;
        &&& is_negative(bits) == (units < 0)
        &&& 1 <= exponent_field(bits) <= 254
        &&& if shift >= 0 {
            (8388608 + fraction_field(bits)) * pow2(shift as nat) == size
        } else {
            8388608 + fraction_field(bits) == size * pow2((-shift) as nat)
        }
    }
}

/// A pattern with the sign, exponent field and fraction that a number calls
/// for is that number.
pub proof fn lemma_is_number(bits: u32, units: int, exponent: int, size: int, scale: nat)
    requires
        units != 0,
        size == if units < 0 {
            -units
        } else {
            units
        },
        is_negative(bits) == (units < 0),
        1 <= exponent_field(bits) <= 254,
        exponent_field(bits) < 150 + exponent,
        pow2((150 + exponent - exponent_field(bits)) as nat) == scale,
        8388608 + fraction_field(bits) == size * scale,
    ensures
        is_number(bits, units, exponent),
{
}

/// `bits` is not a number.
pub open spec fn is_nan(bits: u32) -> bool {
    magnitude_bits(bits) > 2139095040
}

/// Place of a pattern in the total order of IEEE 754.
pub open spec fn total_key(bits: u32) -> int {
    if is_negative(bits) {
        -1 - magnitude_bits(bits)
    } else {
        magnitude_bits(bits)
    }
}

/// Place of a number in the order of the reals, both zeros alike.
pub open spec fn number_key(bits: u32) -> int {
    if is_negative(bits) {
        -magnitude_bits(bits)
    } else {
        magnitude_bits(bits)
    }
}

/// `a > b` on single-precision numbers; false where one is not a number.
pub open spec fn greater(a: u32, b: u32) -> bool {
    !is_nan(a) && !is_nan(b) && number_key(a) > number_key(b)
}

/// Is `a` above `b` in the total order?
pub fn total_above(a: u32, b: u32) -> (above: bool)
    ensures
        above == (total_key(a) > total_key(b)),
{
    if a >= 2147483648 {
        b >= 2147483648 && a % 2147483648 < b % 2147483648
    } else {
        b >= 2147483648 || a % 2147483648 > b % 2147483648
    }
}

/// Is `bits` not a number?
pub fn bits_are_nan(bits: u32) -> (nan: bool)
    ensures
        nan == is_nan(bits),
{
    bits % 2147483648 > 2139095040
}

/// Is `a > b` as single-precision numbers?
pub fn bits_greater(a: u32, b: u32) -> (above: bool)
    ensures
        above == greater(a, b),
{
    if bits_are_nan(a) || bits_are_nan(b) {
        return false;
    }
    let x: u32 = a % 2147483648;
    let y: u32 = b % 2147483648;
    if a >= 2147483648 {
        b >= 2147483648 && x < y
    } else if b >= 2147483648 {
        x > 0 || y > 0
    } else {
        x > y
    }
}

/// On numbers, the total order agrees with the order of the reals, and ranks
/// negative zero below positive zero.
pub proof fn law_total_order_refines_numbers(a: u32, b: u32)
    ensures
        number_key(a) > number_key(b) ==> total_key(a) > total_key(b),
        total_key(a) == total_key(b) ==> a == b,
{
}

/// A pattern without the sign bit ranks by its value as an integer, one with it
/// ranks the other way round, and below all of those without. Beside that,
/// `greater` sees no difference between the zeros and places nothing that is
/// not a number.
pub proof fn law_order_of_patterns(a: u32, b: u32)
    ensures
        a < 0x8000_0000 && b < 0x8000_0000 ==> (total_key(a) < total_key(b) <==> a < b),
        a >= 0x8000_0000 && b < 0x8000_0000 ==> total_key(a) < total_key(b),
        a >= 0x8000_0000 && b >= 0x8000_0000 ==> (total_key(a) < total_key(b) <==> a > b),
        a <= 0x7f80_0000 && b <= 0x7f80_0000 ==> (greater(a, b) <==> a > b),
        a <= 0x7f80_0000 && 0x8000_0000 < b <= 0xff80_0000 ==> greater(a, b) && !greater(b, a),
        0x8000_0000 <= a <= 0xff80_0000 && 0x8000_0000 <= b <= 0xff80_0000 ==> (greater(a, b)
            <==> a < b),
        !greater(0, 0x8000_0000) && !greater(0x8000_0000, 0),
        0x7f80_0000 < a < 0x8000_0000 || a > 0xff80_0000 ==> !greater(a, b) && !greater(b, a),
{
}

} // verus!
