//! Spatial locations of slices.
//!
//! A location is a real number held as the bit pattern of its IEEE-754
//! single-precision encoding. Slices are ordered by the total order of
//! those encodings, in which every pattern has a place: negative values
//! below positive ones, `-0` below `+0`, and the not-a-number patterns at
//! the two ends.

use vstd::prelude::*;

verus! {

/// The place of a bit pattern in the total order of single-precision
/// values: patterns with a clear sign bit keep their own order, those with
/// the sign bit set come before them in reverse.
pub open spec fn order_key(bits: u32) -> int {
    if bits < 0x8000_0000 {
        bits as int
    } else {
        -1 - (bits - 0x8000_0000)
    }
}

/// Computes the place of a bit pattern in the total order.
pub fn location_key(bits: u32) -> (key: i64)
    ensures
        key == order_key(bits),
{
    if bits < 0x8000_0000 {
        bits as i64
    } else {
        -1 - ((bits - 0x8000_0000) as i64)
    }
}

/// Distinct bit patterns have distinct places, so the order is total.
pub proof fn lemma_order_key_injective(a: u32, b: u32)
    ensures
        order_key(a) == order_key(b) <==> a == b,
{
}

/// Two to the power `e`.
pub open spec fn two_to(e: nat) -> nat
    decreases e,
{
    if e == 0 {
        1
    } else {
        2 * two_to((e - 1) as nat)
    }
}

/// The exponent of the leading binary digit of `i`; 0 for `i` below 2.
pub open spec fn leading_exponent(i: nat) -> nat
    decreases i,
{
    if i <= 1 {
        0
    } else {
        1 + leading_exponent(i / 2)
    }
}

/// The single-precision encoding of a whole number below 2^24: zero is
/// the all-clear pattern; otherwise the exponent field holds the leading
/// exponent plus the bias 127, and the fraction field holds the digits
/// below the leading one, moved up against the top of its 23 bits.
pub open spec fn single_bits(i: nat) -> int {
    if i == 0 {
        0
    } else {
        let e = leading_exponent(i);
        (127 + e) * 0x80_0000 + (i - two_to(e)) * two_to((23 - e) as nat)
    }
}

proof fn lemma_two_to_monotone(a: nat, b: nat)
    requires
        a <= b,
    ensures
        two_to(a) <= two_to(b),
        two_to(a) >= 1,
    decreases b,
{
    if a < b {
        lemma_two_to_monotone(a, (b - 1) as nat);
    } else if a > 0 {
        lemma_two_to_monotone((a - 1) as nat, (a - 1) as nat);
    }
}

proof fn lemma_two_to_values()
    ensures
        two_to(8) == 0x100,
        two_to(15) == 0x8000,
        two_to(16) == 0x1_0000,
        two_to(23) == 0x80_0000,
        two_to(24) == 0x100_0000,
{
    reveal_with_fuel(two_to, 25);
}

proof fn lemma_two_to_adds(a: nat, b: nat)
    ensures
        two_to(a) * two_to(b) == two_to(a + b),
    decreases a,
{
    if a == 0 {
        assert(1 * two_to(b) == two_to(b));
    } else {
        lemma_two_to_adds((a - 1) as nat, b);
        assert(two_to(a) * two_to(b) == 2 * (two_to((a - 1) as nat) * two_to(b)))
            by (nonlinear_arith)
            requires two_to(a) == 2 * two_to((a - 1) as nat);
    }
}

/// The leading exponent of `i` is the `e` with `2^e <= i < 2^(e+1)`.
pub proof fn lemma_leading_exponent(i: nat, e: nat)
    requires
        two_to(e) <= i < two_to(e + 1),
    ensures
        leading_exponent(i) == e,
    decreases e,
{
    if e > 0 {
        lemma_two_to_monotone(0, (e - 1) as nat);
        lemma_leading_exponent(i / 2, (e - 1) as nat);
    }
}

/// Every positive whole number lies between the power of its leading
/// exponent and the next power.
pub proof fn lemma_leading_exponent_bounds(i: nat)
    requires
        i >= 1,
    ensures
        two_to(leading_exponent(i)) <= i < two_to(leading_exponent(i) + 1),
    decreases i,
{
    if i > 1 {
        lemma_leading_exponent_bounds(i / 2);
    }
}

/// The location that a slice gets from its index in a volume: the index
/// as a single-precision number.
pub fn index_location(index: u16) -> (bits: u32)
    ensures
        bits == single_bits(index as nat),
{
    if index == 0 {
        return 0;
    }
    let value: u32 = index as u32;
    let mut exponent: u32 = 0;
    let mut power: u32 = 1;
    let mut scale: u32 = 0x80_0000;
    proof {
        lemma_two_to_values();
    }
    while 2 * power <= value
        invariant
            value == index,
            exponent <= 15,
            power == two_to(exponent as nat),
            scale == two_to((23 - exponent) as nat),
            1 <= power <= value,
        decreases value - power,
    {
        proof {
            lemma_two_to_values();
            if exponent >= 15 {
                lemma_two_to_monotone(15, exponent as nat);
            }
            assert(two_to((23 - exponent) as nat) == 2 * two_to((22 - exponent) as nat));
        }
        power = 2 * power;
        scale = scale / 2;
        exponent = exponent + 1;
    }
    proof {
        lemma_leading_exponent(value as nat, exponent as nat);
        lemma_two_to_values();
        lemma_two_to_monotone((23 - exponent) as nat, 23);
        lemma_two_to_adds(exponent as nat, (23 - exponent) as nat);
        assert((value - power) * scale < 0x80_0000) by (nonlinear_arith)
            requires
                0 <= value - power < power,
                power * scale == 0x80_0000,
                scale >= 1,
        ;
    }
    (127 + exponent) * 0x80_0000 + (value - power) * scale
}

/// A later index lies later in the total order of locations, so ordering
/// by location orders the slices of one volume by index.
pub proof fn lemma_index_location_increases(i: nat, j: nat)
    requires
        i < j < 0x1_0000,
    ensures
        0 <= single_bits(i) < single_bits(j) < 0x8000_0000,
        order_key(single_bits(i) as u32) < order_key(single_bits(j) as u32),
{
    lemma_two_to_values();
    let ej = leading_exponent(j);
    lemma_leading_exponent_bounds(j);
    if ej >= 16 {
        lemma_two_to_monotone(16, ej);
    }
    lemma_two_to_adds(ej, (23 - ej) as nat);
    lemma_two_to_monotone((23 - ej) as nat, 23);
    let pj = two_to(ej) as int;
    let sj = two_to((23 - ej) as nat) as int;
    assert(0 <= (j - pj) * sj < 0x80_0000) by (nonlinear_arith)
        requires
            0 <= j - pj < pj,
            pj * sj == 0x80_0000,
            sj >= 1,
    ;
    if i > 0 {
        let ei = leading_exponent(i);
        lemma_leading_exponent_bounds(i);
        if ei > ej {
            lemma_two_to_monotone(ej + 1, ei);
        }
        lemma_two_to_adds(ei, (23 - ei) as nat);
        lemma_two_to_monotone((23 - ei) as nat, 23);
        let pi = two_to(ei) as int;
        let si = two_to((23 - ei) as nat) as int;
        assert(0 <= (i - pi) * si < 0x80_0000) by (nonlinear_arith)
            requires
                0 <= i - pi < pi,
                pi * si == 0x80_0000,
                si >= 1,
        ;
        if ei == ej {
            assert((i - pi) * si < (j - pj) * sj) by (nonlinear_arith)
                requires
                    i < j,
                    pi == pj,
                    si == sj,
                    si >= 1,
            ;
        } else {
            assert((127 + ei) * 0x80_0000 + 0x80_0000 <= (127 + ej) * 0x80_0000);
        }
    }
}

} // verus!
