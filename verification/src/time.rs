//! Instants and durations in seconds, carried as the bit pattern of an IEEE-754
//! double so that the library can hold, compare and check them exactly.

use vstd::prelude::*;

verus! {

/// The sign bit of a double.
pub const SIGN_BIT: u64 = 0x8000_0000_0000_0000;

/// The bit pattern of positive infinity; every magnitude above it is a NaN.
pub const INFINITY_BITS: u64 = 0x7FF0_0000_0000_0000;

/// A time in seconds, held as the bit pattern of a double (`f64::to_bits`).
#[derive(Clone, Copy, Debug, PartialEq, Eq, Structural)]
pub struct Seconds {
    pub bits: u64,
}

impl Seconds {
    /// The bits without the sign: the absolute value's pattern.
    pub open spec fn magnitude(self) -> nat {
        (self.bits % SIGN_BIT) as nat
    }

    /// Whether the sign bit is set.
    pub open spec fn is_negative(self) -> bool {
        self.bits >= SIGN_BIT
    }

    /// Whether the value is neither infinite nor NaN (`f64::is_finite`).
    pub open spec fn is_finite_spec(self) -> bool {
        self.magnitude() < INFINITY_BITS
    }

    /// Whether the value is a NaN (`f64::is_nan`).
    pub open spec fn is_nan_spec(self) -> bool {
        self.magnitude() > INFINITY_BITS
    }

    /// An integer that orders the values that are not NaN as the reals they
    /// stand for: for doubles of one sign, the order of the magnitudes is the
    /// order of the values, and both zeros map to 0.
    pub open spec fn order_key(self) -> int {
        if self.is_negative() {
            -(self.magnitude() as int)
        } else {
            self.magnitude() as int
        }
    }

    /// `self <= other` on doubles: false when either is NaN.
    pub open spec fn le_spec(self, other: Seconds) -> bool {
        !self.is_nan_spec() && !other.is_nan_spec() && self.order_key() <= other.order_key()
    }

    /// The time whose bit pattern is `bits`.
    pub fn from_bits(bits: u64) -> (s: Seconds)
        ensures
            s.bits == bits,
    {
        Seconds { bits }
    }

    /// The bit pattern of the time.
    pub fn to_bits(self) -> (b: u64)
        ensures
            b == self.bits,
    {
        self.bits
    }

    /// Whether the time is a finite number.
    pub fn is_finite(self) -> (r: bool)
        ensures
            r == self.is_finite_spec(),
    {
        self.bits % SIGN_BIT < INFINITY_BITS
    }

    /// Whether the time is a NaN.
    pub fn is_nan(self) -> (r: bool)
        ensures
            r == self.is_nan_spec(),
    {
        self.bits % SIGN_BIT > INFINITY_BITS
    }

    /// `self <= other`, compared as doubles.
    pub fn le(self, other: Seconds) -> (r: bool)
        ensures
            r == self.le_spec(other),
    {
        if self.is_nan() || other.is_nan() {
            return false;
        }
        let a = self.bits % SIGN_BIT;
        let b = other.bits % SIGN_BIT;
        let an = self.bits >= SIGN_BIT;
        let bn = other.bits >= SIGN_BIT;
        if an && bn {
            b <= a
        } else if an {
            true
        } else if bn {
            a == 0 && b == 0
        } else {
            a <= b
        }
    }
}

/// Among times that are not NaN, `le` is a total order up to the two zeros:
/// reflexive, transitive, and any two times are ordered one way or the other.
pub proof fn lemma_le_total_preorder(a: Seconds, b: Seconds, c: Seconds)
    requires
        !a.is_nan_spec(),
        !b.is_nan_spec(),
        !c.is_nan_spec(),
    ensures
        a.le_spec(a),
        a.le_spec(b) || b.le_spec(a),
        a.le_spec(b) && b.le_spec(c) ==> a.le_spec(c),
        a.le_spec(b) && b.le_spec(a) ==> a.order_key() == b.order_key(),
{
}

} // verus!
