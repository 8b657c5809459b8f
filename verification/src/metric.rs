//! Single-precision readings by their IEEE 754 bit pattern. The library orders and
//! screens them exactly; it never does arithmetic on them.

use vstd::prelude::*;

verus! {

/// A single-precision number by its bit pattern.
#[derive(Debug, Clone, Copy, PartialEq, Eq, Structural)]
pub struct Metric {
    pub bits: u32,
}

/// The bit pattern without its sign bit.
pub open spec fn magnitude(bits: u32) -> int {
    bits as int % 0x8000_0000
}

/// Where a number stands in the order of numbers: the sign applied to the bit pattern's
/// magnitude, both zeros being equal. A not-a-number stands nowhere.
pub open spec fn rank(bits: u32) -> Option<int> {
    if magnitude(bits) > 0x7f80_0000 {
        None
    } else if bits >= 0x8000_0000 {
        Some(-magnitude(bits))
    } else {
        Some(magnitude(bits))
    }
}

/// Whether one number is less than another; a not-a-number is neither less nor greater.
pub open spec fn less(a: Metric, b: Metric) -> bool {
    match (rank(a.bits), rank(b.bits)) {
        (Some(x), Some(y)) => x < y,
        _ => false,
    }
}

/// Whether a number is neither infinite nor a not-a-number.
pub open spec fn finite(m: Metric) -> bool {
    magnitude(m.bits) < 0x7f80_0000
}

/// A number that can be written down: itself where it is finite, else zero.
pub open spec fn finite_or_zero(m: Metric) -> Metric {
    if finite(m) {
        m
    } else {
        Metric { bits: 0 }
    }
}

fn rank_of(bits: u32) -> (r: Option<i64>)
    ensures
        match r {
            Some(x) => rank(bits) == Some(x as int),
            None => rank(bits) is None,
        },
{
    let size: u32 = bits % 0x8000_0000;
    if size > 0x7f80_0000 {
        None
    } else if bits >= 0x8000_0000 {
        Some(-(size as i64))
    } else {
        Some(size as i64)
    }
}

impl Metric {
    /// Whether this number is less than `other`.
    pub fn less_than(self, other: Metric) -> (r: bool)
        ensures
            r == less(self, other),
    {
        match (rank_of(self.bits), rank_of(other.bits)) {
            (Some(x), Some(y)) => x < y,
            _ => false,
        }
    }

    /// Whether this number is neither infinite nor a not-a-number.
    pub fn is_finite(self) -> (r: bool)
        ensures
            r == finite(self),
    {
        self.bits % 0x8000_0000 < 0x7f80_0000
    }

    /// This number where it is finite, else zero.
    pub fn or_zero(self) -> (r: Metric)
        ensures
            r == finite_or_zero(self),
            finite(r),
    {
        if self.is_finite() {
            self
        } else {
            Metric { bits: 0 }
        }
    }
}

/// A double-precision number by its bit pattern.
#[derive(Debug, Clone, Copy, PartialEq, Eq, Structural)]
pub struct Amount {
    pub bits: u64,
}

/// Whether a double-precision number is neither infinite nor a not-a-number.
pub open spec fn finite_amount(a: Amount) -> bool {
    a.bits as int % 0x8000_0000_0000_0000 < 0x7ff0_0000_0000_0000
}

/// A double-precision number that can be written down: itself where it is finite, else
/// zero.
pub open spec fn amount_or_zero(a: Amount) -> Amount {
    if finite_amount(a) {
        a
    } else {
        Amount { bits: 0 }
    }
}

impl Amount {
    /// This number where it is finite, else zero.
    pub fn or_zero(self) -> (r: Amount)
        ensures
            r == amount_or_zero(self),
            finite_amount(r),
    {
        if self.bits % 0x8000_0000_0000_0000 < 0x7ff0_0000_0000_0000 {
            self
        } else {
            Amount { bits: 0 }
        }
    }
}

/// The order of numbers is irreflexive and transitive.
pub proof fn less_is_a_strict_order(a: Metric, b: Metric, c: Metric)
    ensures
        !less(a, a),
        less(a, b) && less(b, c) ==> less(a, c),
        less(a, b) ==> !less(b, a),
{
}

/// The order is that of the numbers that the bit patterns stand for: among patterns without
/// the sign bit the greater pattern is the greater number, among those with it the lesser
/// one, every negative number but zero is below every other, both zeros are one number, and a
/// not-a-number is neither below nor above any.
pub proof fn patterns_are_ordered_as_numbers(a: Metric, b: Metric)
    ensures
        a.bits <= 0x7f80_0000 && b.bits <= 0x7f80_0000 ==> (less(a, b) <==> a.bits < b.bits),
        0x8000_0000 <= a.bits <= 0xff80_0000 && 0x8000_0000 <= b.bits <= 0xff80_0000 ==> (less(
            a,
            b,
        ) <==> a.bits > b.bits),
        0x8000_0000 < a.bits <= 0xff80_0000 && b.bits <= 0x7f80_0000 ==> less(a, b),
        a.bits <= 0x7f80_0000 && 0x8000_0000 <= b.bits <= 0xff80_0000 ==> !less(a, b),
        a.bits == 0 && b.bits == 0x8000_0000 ==> !less(a, b) && !less(b, a),
        0x7f80_0000 < a.bits < 0x8000_0000 || a.bits > 0xff80_0000 ==> !less(a, b) && !less(b, a),
{
}

/// A number that can be written down stays as it is; infinity and what is no number become
/// zero.
pub proof fn only_what_cannot_be_written_becomes_zero(m: Metric, a: Amount)
    ensures
        m.bits < 0x7f80_0000 || 0x8000_0000 <= m.bits < 0xff80_0000 ==> finite_or_zero(m) == m,
        0x7f80_0000 <= m.bits < 0x8000_0000 || m.bits >= 0xff80_0000 ==> finite_or_zero(m).bits
            == 0,
        a.bits < 0x7ff0_0000_0000_0000 || 0x8000_0000_0000_0000 <= a.bits < 0xfff0_0000_0000_0000
            ==> amount_or_zero(a) == a,
        0x7ff0_0000_0000_0000 <= a.bits < 0x8000_0000_0000_0000 || a.bits >= 0xfff0_0000_0000_0000
            ==> amount_or_zero(a).bits == 0,
{
}

} // verus!
