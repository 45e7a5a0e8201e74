//! The machine word: eighteen balanced trits, assembled from three trytes.

use vstd::arithmetic::div_mod::lemma_div_multiples_vanish;
use vstd::prelude::*;

use crate::balanced::{
    bal_mod, in_trit_range, lemma_bal_mod_unique, lemma_pow3_add, lemma_shl_value,
    lemma_shr_value, lemma_value_concat, lemma_value_parity,
    lemma_value_range, lemma_value_sign, lemma_value_zero_iff, lemma_value_zeros, negate_trits,
    pow3, shl_trits, shr_trits, trits_value, zero_trits,
};
use crate::digits::{
    int_to_trits, lemma_pow3_values, negate_array, nonzero_count_is_even, ripple_add,
    shl_array, shr_array, slice_array, top_nonzero_index, trits_to_int,
};
use crate::trit::Trit;
use crate::tryte::{Tryte, TRYTE_SIZE};

verus! {

pub const WORD_SIZE: usize = 18;

pub const TRYTES_PER_WORD: usize = 3;

/// An 18-trit balanced-ternary machine word, stored as three trytes.
/// Trit 0 is the junior one.
#[derive(Clone, Copy, Debug)]
pub struct Word {
    pub trits: [Trit; WORD_SIZE],
}

impl Word {
    /// The integer this word stands for.
    pub open spec fn value(self) -> int {
        trits_value(self.trits@)
    }

    pub fn zero() -> (r: Word)
        ensures
            r.trits@ == zero_trits(18),
            r.value() == 0,
    {
        let r = Word {
            trits: [
                Trit::Z, Trit::Z, Trit::Z, Trit::Z, Trit::Z, Trit::Z,
                Trit::Z, Trit::Z, Trit::Z, Trit::Z, Trit::Z, Trit::Z,
                Trit::Z, Trit::Z, Trit::Z, Trit::Z, Trit::Z, Trit::Z,
            ],
        };
        proof {
            assert(forall|j: int| 0 <= j < 18 ==> r.trits@[j] == Trit::Z);
            assert(r.trits@ =~= zero_trits(18));
            lemma_value_zeros(18);
        }
        r
    }

    /// Balanced conversion; values outside ±193_710_244 wrap modulo 3^18,
    /// mirroring machine arithmetic.
    pub fn from_i64(v: i64) -> (r: Word)
        ensures
            r.value() == bal_mod(v as int, 18),
    {
        let (trits, _rest) = int_to_trits::<WORD_SIZE>(v as i128);
        Word { trits }
    }

    pub fn to_i64(&self) -> (r: i64)
        ensures
            r == self.value(),
    {
        proof {
            lemma_value_range(self.trits@);
            lemma_pow3_values();
        }
        trits_to_int(&self.trits) as i64
    }

    /// Trit-wise ripple addition over 18 trits; the carry out of the senior trit is
    /// returned beside the wrapped sum.
    pub fn add(&self, other: &Word) -> (r: (Word, Trit))
        ensures
            self.value() + other.value() == r.0.value() + pow3(18) * r.1.value(),
            r.0.value() == bal_mod(self.value() + other.value(), 18),
    {
        let (trits, carry) = ripple_add(&self.trits, &other.trits, Trit::Z);
        let r = Word { trits };
        proof {
            lemma_value_range(r.trits@);
            lemma_bal_mod_unique(self.value() + other.value(), r.value(), carry.value(), 18);
        }
        (r, carry)
    }

    /// Subtraction as addition of the tritwise negation.
    pub fn sub(&self, other: &Word) -> (r: (Word, Trit))
        ensures
            self.value() - other.value() == r.0.value() + pow3(18) * r.1.value(),
            r.0.value() == bal_mod(self.value() - other.value(), 18),
    {
        let neg = Word { trits: negate_array(&other.trits) };
        self.add(&neg)
    }

    /// Shift toward the senior end (×3^n, wrapping inside 18 trits).
    pub fn shl(&self, n: usize) -> (r: Word)
        ensures
            r.trits@ == shl_trits(self.trits@, n as nat),
            r.value() == bal_mod(self.value() * pow3(n as nat), 18),
    {
        proof {
            lemma_shl_value(self.trits@, n as nat);
        }
        Word { trits: shl_array(&self.trits, n) }
    }

    /// Shift toward the junior end, dropping the `n` junior trits.
    pub fn shr(&self, n: usize) -> (r: Word)
        requires
            n <= 18,
        ensures
            r.trits@ == shr_trits(self.trits@, n as nat),
            self.value() == trits_value(self.trits@.take(n as int)) + pow3(n as nat) * r.value(),
    {
        proof {
            lemma_shr_value(self.trits@, n as nat);
        }
        Word { trits: shr_array(&self.trits, n) }
    }

    pub fn abs(&self) -> (r: Word)
        ensures
            r.value() == (if self.value() < 0 {
                -self.value()
            } else {
                self.value()
            }),
    {
        proof {
            lemma_value_range(self.trits@);
            lemma_pow3_values();
        }
        let v = self.to_i64();
        let a = if v < 0 {
            -v
        } else {
            v
        };
        proof {
            lemma_bal_mod_unique(a as int, a as int, 0, 18);
        }
        Word::from_i64(a)
    }

    /// Parity: true if the value is even (number of nonzero trits is
    /// even — 3 ≡ 1 mod 2).
    pub fn is_even(&self) -> (r: bool)
        ensures
            r == (self.value() % 2 == 0),
    {
        proof {
            lemma_value_parity(self.trits@);
        }
        nonzero_count_is_even(&self.trits)
    }

    /// Index of the most significant nonzero trit (−1 if the word is
    /// zero). Intended for sign checks and converters: the trit found
    /// carries the sign of the value.
    pub fn top_nonzero(&self) -> (r: i8)
        ensures
            -1 <= r < 18,
            r == -1 <==> self.value() == 0,
            r >= 0 ==> self.trits@[r as int] != Trit::Z,
            forall|j: int| r < j < 18 ==> self.trits@[j] == Trit::Z,
            r >= 0 ==> (self.trits@[r as int] == Trit::P <==> self.value() > 0),
    {
        let r = top_nonzero_index(&self.trits);
        proof {
            lemma_value_zero_iff(self.trits@);
            if r >= 0 {
                lemma_value_sign(self.trits@, r as int);
            }
        }
        r
    }

    /// Trits `from..=to` moved to the junior end, the rest zero.
    pub fn slice(&self, from: usize, to: usize) -> (r: Word)
        requires
            from <= to < 18,
        ensures
            forall|j: int|
                0 <= j < 18 ==> #[trigger] r.trits@[j] == (if j <= to - from {
                    self.trits@[from + j]
                } else {
                    Trit::Z
                }),
    {
        Word { trits: slice_array(&self.trits, from, to) }
    }
    /// Assembles an 18-trit word from three trytes:
    ///   low  -> trits 0..5,
    ///   mid  -> trits 6..11,
    ///   high -> trits 12..17.
    pub fn from_trytes(low: &Tryte, mid: &Tryte, high: &Tryte) -> (r: Word)
        ensures
            r.trits@ == low.trits@ + mid.trits@ + high.trits@,
            r.value() == low.value() + pow3(6) * mid.value() + pow3(12) * high.value(),
    {
        let mut w = Word::zero();
        for i in 0..TRYTE_SIZE
            invariant
                w.trits@.len() == 18,
                forall|j: int|
                    0 <= j < 18 ==> #[trigger] w.trits@[j] == (if j % 6 < i {
                        (low.trits@ + mid.trits@ + high.trits@)[j]
                    } else {
                        Trit::Z
                    }),
        {
            w.trits[i] = low.trits[i];
            w.trits[i + TRYTE_SIZE] = mid.trits[i];
            w.trits[i + 2 * TRYTE_SIZE] = high.trits[i];
        }
        proof {
            assert(w.trits@ =~= low.trits@ + mid.trits@ + high.trits@);
            lemma_value_concat(low.trits@, mid.trits@);
            lemma_value_concat(low.trits@ + mid.trits@, high.trits@);
            lemma_pow3_add(6, 6);
            lemma_pow3_values();
        }
        w
    }

    /// Splits the word into (low, mid, high) trytes.
    pub fn to_trytes(&self) -> (r: (Tryte, Tryte, Tryte))
        ensures
            r.0.trits@ == self.trits@.subrange(0, 6),
            r.1.trits@ == self.trits@.subrange(6, 12),
            r.2.trits@ == self.trits@.subrange(12, 18),
            self.value() == r.0.value() + pow3(6) * r.1.value() + pow3(12) * r.2.value(),
    {
        let mut low = Tryte::zero();
        let mut mid = Tryte::zero();
        let mut high = Tryte::zero();
        for i in 0..TRYTE_SIZE
            invariant
                forall|j: int|
                    0 <= j < 6 ==> #[trigger] low.trits@[j] == (if j < i {
                        self.trits@[j]
                    } else {
                        Trit::Z
                    }),
                forall|j: int|
                    0 <= j < 6 ==> #[trigger] mid.trits@[j] == (if j < i {
                        self.trits@[j + 6]
                    } else {
                        Trit::Z
                    }),
                forall|j: int|
                    0 <= j < 6 ==> #[trigger] high.trits@[j] == (if j < i {
                        self.trits@[j + 12]
                    } else {
                        Trit::Z
                    }),
        {
            low.trits[i] = self.trits[i];
            mid.trits[i] = self.trits[i + TRYTE_SIZE];
            high.trits[i] = self.trits[i + 2 * TRYTE_SIZE];
        }
        proof {
            assert(low.trits@ =~= self.trits@.subrange(0, 6));
            assert(mid.trits@ =~= self.trits@.subrange(6, 12));
            assert(high.trits@ =~= self.trits@.subrange(12, 18));
            assert(self.trits@ =~= low.trits@ + mid.trits@ + high.trits@);
            lemma_value_concat(low.trits@, mid.trits@);
            lemma_value_concat(low.trits@ + mid.trits@, high.trits@);
            lemma_pow3_add(6, 6);
            lemma_pow3_values();
        }
        (low, mid, high)
    }

    /// Full multiplication, double-word result (low, high): the product
    /// is `low + 3^18 * high`, with `low` the balanced representative.
    pub fn mul(&self, other: &Word) -> (r: (Word, Word))
        ensures
            r.0.value() + pow3(18) * r.1.value() == self.value() * other.value(),
            r.0.value() == bal_mod(self.value() * other.value(), 18),
    {
        proof {
            lemma_value_range(self.trits@);
            lemma_value_range(other.trits@);
            lemma_pow3_values();
            let a = self.value();
            let b = other.value();
            assert(-37523658630539536 <= a * b <= 37523658630539536) by (nonlinear_arith)
                requires
                    -193710244 <= a <= 193710244,
                    -193710244 <= b <= 193710244,
            ;
        }
        let prod = self.to_i64() * other.to_i64();
        let (low, rest) = int_to_trits::<WORD_SIZE>(prod as i128);
        let lo = Word { trits: low };
        proof {
            lemma_value_range(lo.trits@);
            let l = lo.value();
            let q = rest as int;
            assert(-96855122 <= q <= 96855122) by (nonlinear_arith)
                requires
                    prod == l + 387420489 * q,
                    -37523658630539536 <= prod <= 37523658630539536,
                    -193710244 <= l <= 193710244,
            ;
            lemma_bal_mod_unique(q, q, 0, 18);
        }
        let hi = Word::from_i64(rest as i64);
        (lo, hi)
    }

    /// Multiply-accumulate: `other * r * 9 + self`, double-word result:
    /// `low` is the balanced representative of the total, `high` the
    /// balanced residue of the quotient `(total - low) / 3^18`.
    pub fn mul_acc(&self, other: &Word, r: &Word) -> (res: (Word, Word))
        ensures
            res.0.value() == bal_mod(other.value() * r.value() * 9 + self.value(), 18),
            res.1.value() == bal_mod(
                (other.value() * r.value() * 9 + self.value() - res.0.value()) / pow3(18),
                18,
            ),
            in_trit_range(
                (other.value() * r.value() * 9 + self.value() - res.0.value()) / pow3(18),
                18,
            ) ==> res.0.value() + pow3(18) * res.1.value() == other.value() * r.value() * 9
                + self.value(),
    {
        proof {
            lemma_value_range(self.trits@);
            lemma_value_range(other.trits@);
            lemma_value_range(r.trits@);
            lemma_pow3_values();
            let a = other.value();
            let b = r.value();
            assert(-37523658630539536 <= a * b <= 37523658630539536) by (nonlinear_arith)
                requires
                    -193710244 <= a <= 193710244,
                    -193710244 <= b <= 193710244,
            ;
        }
        let prod = other.to_i64() * r.to_i64() * 9 + self.to_i64();
        let (low, rest) = int_to_trits::<WORD_SIZE>(prod as i128);
        let lo = Word { trits: low };
        proof {
            lemma_value_range(lo.trits@);
            let l = lo.value();
            let q = rest as int;
            assert(-2000000000 <= q <= 2000000000) by (nonlinear_arith)
                requires
                    prod == l + 387420489 * q,
                    -400000000000000000 <= prod <= 400000000000000000,
                    -193710244 <= l <= 193710244,
            ;
            assert(prod - l == 387420489 * q);
            lemma_div_multiples_vanish(q, 387420489);
            if in_trit_range(q, 18) {
                lemma_bal_mod_unique(q, q, 0, 18);
            }
        }
        let hi = Word::from_i64(rest as i64);
        (lo, hi)
    }

    /// Tritwise sign inversion.
    pub fn neg(&self) -> (r: Word)
        ensures
            r.trits@ == negate_trits(self.trits@),
            r.value() == -self.value(),
    {
        Word { trits: negate_array(&self.trits) }
    }

    /// Overwrites trits `from..=to` with the junior trits of `src`.
    pub fn set_slice(&mut self, from: usize, to: usize, src: &Word)
        requires
            from <= to < 18,
        ensures
            forall|j: int|
                0 <= j < 18 ==> #[trigger] final(self).trits@[j] == (if from <= j <= to {
                    src.trits@[j - from]
                } else {
                    old(self).trits@[j]
                }),
    {
        let len = to - from + 1;
        for i in 0..len
            invariant
                from <= to < 18,
                len == to - from + 1,
                forall|j: int|
                    0 <= j < 18 ==> #[trigger] self.trits@[j] == (if from <= j < from + i {
                        src.trits@[j - from]
                    } else {
                        old(self).trits@[j]
                    }),
        {
            self.trits[from + i] = src.trits[i];
        }
    }
}

impl Default for Word {
    fn default() -> (r: Word)
        ensures
            r.trits@ == zero_trits(18),
    {
        Word::zero()
    }
}

} // verus!
