//! The tryte: six balanced trits, a plain numeric type.

use vstd::prelude::*;

use crate::balanced::{
    bal_mod, lemma_bal_mod_unique, lemma_shl_value, lemma_shr_value,
    lemma_value_parity, lemma_value_range, lemma_value_sign,
    lemma_value_zero_iff, lemma_value_zeros, pow3, shl_trits, shr_trits, trits_value, zero_trits,
};
use crate::digits::{
    int_to_trits, lemma_pow3_values, negate_array, nonzero_count_is_even, ripple_add,
    shl_array, shr_array, slice_array, top_nonzero_index, trits_to_int,
};
use crate::trit::Trit;

verus! {

pub const TRYTE_SIZE: usize = 6;

pub const BASE: i64 = 3;

pub const MAX_TRYTE_VALUE: i16 = 364;

pub const MIN_TRYTE_VALUE: i16 = -364;

/// A 6-trit balanced-ternary word (the tryte of the Setun-70 era,
/// but defined here as a plain numeric type). Trit 0 is the junior one.
#[derive(Clone, Copy, Debug)]
pub struct Tryte {
    pub trits: [Trit; TRYTE_SIZE],
}

/// The balanced sum of two trits modulo 3, without carry.
pub open spec fn sat_trit(a: Trit, b: Trit) -> Trit {
    if a == Trit::Z {
        b
    } else if b == Trit::Z {
        a
    } else if a == b {
        a.negated()
    } else {
        Trit::Z
    }
}

impl Tryte {
    /// The integer this tryte stands for.
    pub open spec fn value(self) -> int {
        trits_value(self.trits@)
    }

    pub fn zero() -> (r: Tryte)
        ensures
            r.trits@ == zero_trits(6),
            r.value() == 0,
    {
        let r = Tryte { trits: [Trit::Z, Trit::Z, Trit::Z, Trit::Z, Trit::Z, Trit::Z] };
        proof {
            assert(forall|j: int| 0 <= j < 6 ==> r.trits@[j] == Trit::Z);
            assert(r.trits@ =~= zero_trits(6));
            lemma_value_zeros(6);
        }
        r
    }

    /// Balanced conversion; values outside ±364 wrap modulo 3^6,
    /// mirroring machine arithmetic.
    pub fn from_i16(v: i16) -> (r: Tryte)
        ensures
            r.value() == bal_mod(v as int, 6),
    {
        let (trits, _rest) = int_to_trits::<TRYTE_SIZE>(v as i128);
        Tryte { trits }
    }

    pub fn to_i16(&self) -> (r: i16)
        ensures
            r == self.value(),
    {
        proof {
            lemma_value_range(self.trits@);
            lemma_pow3_values();
        }
        trits_to_int(&self.trits) as i16
    }

    /// Trit-wise ripple addition; the carry out of the senior trit is
    /// returned beside the wrapped sum.
    pub fn add(&self, other: &Tryte) -> (r: (Tryte, Trit))
        ensures
            self.value() + other.value() == r.0.value() + pow3(6) * r.1.value(),
            r.0.value() == bal_mod(self.value() + other.value(), 6),
    {
        let (trits, carry) = ripple_add(&self.trits, &other.trits, Trit::Z);
        let r = Tryte { trits };
        proof {
            lemma_value_range(r.trits@);
            lemma_bal_mod_unique(self.value() + other.value(), r.value(), carry.value(), 6);
        }
        (r, carry)
    }

    /// Subtraction as addition of the tritwise negation.
    pub fn sub(&self, other: &Tryte) -> (r: (Tryte, Trit))
        ensures
            self.value() - other.value() == r.0.value() + pow3(6) * r.1.value(),
            r.0.value() == bal_mod(self.value() - other.value(), 6),
    {
        let neg = Tryte { trits: negate_array(&other.trits) };
        self.add(&neg)
    }

    /// Tritwise multiplication (SMT).
    pub fn smt(&self, other: &Tryte) -> (r: Tryte)
        ensures
            forall|j: int|
                0 <= j < 6 ==> (#[trigger] r.trits@[j]).value() == self.trits@[j].value()
                    * other.trits@[j].value(),
    {
        let mut result = Tryte::zero();
        for i in 0..TRYTE_SIZE
            invariant
                forall|j: int|
                    0 <= j < i ==> (#[trigger] result.trits@[j]).value() == self.trits@[j].value()
                        * other.trits@[j].value(),
        {
            result.trits[i] = self.trits[i].mul(other.trits[i]);
        }
        result
    }

    /// Tritwise addition without carry, i.e. modulo 3 per trit (SAT).
    pub fn sat(&self, other: &Tryte) -> (r: Tryte)
        ensures
            forall|j: int|
                0 <= j < 6 ==> #[trigger] r.trits@[j] == sat_trit(self.trits@[j], other.trits@[j]),
            forall|j: int|
                0 <= j < 6 ==> (#[trigger] r.trits@[j]).value() == bal_mod(
                    self.trits@[j].value() + other.trits@[j].value(),
                    1,
                ),
    {
        let mut result = Tryte::zero();
        for i in 0..TRYTE_SIZE
            invariant
                forall|j: int|
                    0 <= j < i ==> #[trigger] result.trits@[j] == sat_trit(
                        self.trits@[j],
                        other.trits@[j],
                    ),
        {
            let a = self.trits[i];
            let b = other.trits[i];
            result.trits[i] = if a == Trit::Z {
                b
            } else if b == Trit::Z {
                a
            } else if a == b {
                a.neg()
            } else {
                Trit::Z
            };
        }
        proof {
            reveal_with_fuel(pow3, 2);
            assert forall|j: int| 0 <= j < 6 implies (#[trigger] result.trits@[j]).value()
                == bal_mod(self.trits@[j].value() + other.trits@[j].value(), 1) by {
                let x = self.trits@[j].value() + other.trits@[j].value();
                let d = x - result.trits@[j].value();
                let k = if d == 3 {
                    1int
                } else if d == -3 {
                    -1int
                } else {
                    0int
                };
                lemma_bal_mod_unique(x, result.trits@[j].value(), k, 1);
            }
        }
        result
    }

    /// Shift toward the senior end (×3^n, wrapping inside six trits).
    pub fn shl(&self, n: usize) -> (r: Tryte)
        ensures
            r.trits@ == shl_trits(self.trits@, n as nat),
            r.value() == bal_mod(self.value() * pow3(n as nat), 6),
    {
        proof {
            lemma_shl_value(self.trits@, n as nat);
        }
        Tryte { trits: shl_array(&self.trits, n) }
    }

    /// Shift toward the junior end, dropping the `n` junior trits.
    pub fn shr(&self, n: usize) -> (r: Tryte)
        requires
            n <= 6,
        ensures
            r.trits@ == shr_trits(self.trits@, n as nat),
            self.value() == trits_value(self.trits@.take(n as int)) + pow3(n as nat) * r.value(),
    {
        proof {
            lemma_shr_value(self.trits@, n as nat);
        }
        Tryte { trits: shr_array(&self.trits, n) }
    }

    pub fn abs(&self) -> (r: Tryte)
        ensures
            r.value() == (if self.value() < 0 {
                -self.value()
            } else {
                self.value()
            }),
    {
        proof {
            lemma_value_range(self.trits@);
            lemma_pow3_values();
        }
        let v = self.to_i16();
        let a = if v < 0 {
            -v
        } else {
            v
        };
        proof {
            lemma_bal_mod_unique(a as int, a as int, 0, 6);
        }
        Tryte::from_i16(a)
    }

    /// Parity: true if the value is even. Trit-pure: 3 ≡ 1 (mod 2), so
    /// the value mod 2 equals the number of nonzero trits mod 2.
    pub fn is_even(&self) -> (r: bool)
        ensures
            r == (self.value() % 2 == 0),
    {
        proof {
            lemma_value_parity(self.trits@);
        }
        nonzero_count_is_even(&self.trits)
    }

    /// Index of the most significant nonzero trit (−1 if the tryte is
    /// zero). Intended for sign checks and converters: the trit found
    /// carries the sign of the value.
    pub fn top_nonzero(&self) -> (r: i8)
        ensures
            -1 <= r < 6,
            r == -1 <==> self.value() == 0,
            r >= 0 ==> self.trits@[r as int] != Trit::Z,
            forall|j: int| r < j < 6 ==> self.trits@[j] == Trit::Z,
            r >= 0 ==> (self.trits@[r as int] == Trit::P <==> self.value() > 0),
    {
        let r = top_nonzero_index(&self.trits);
        proof {
            lemma_value_zero_iff(self.trits@);
            if r >= 0 {
                lemma_value_sign(self.trits@, r as int);
            }
        }
        r
    }

    /// Trits `from..=to` moved to the junior end, the rest zero.
    pub fn slice(&self, from: usize, to: usize) -> (r: Tryte)
        requires
            from <= to < 6,
        ensures
            forall|j: int|
                0 <= j < 6 ==> #[trigger] r.trits@[j] == (if j <= to - from {
                    self.trits@[from + j]
                } else {
                    Trit::Z
                }),
    {
        Tryte { trits: slice_array(&self.trits, from, to) }
    }
}

impl Default for Tryte {
    fn default() -> (r: Tryte)
        ensures
            r.trits@ == zero_trits(6),
    {
        Tryte::zero()
    }
}

} // verus!
