//! DWord — a 36-trit balanced-ternary double word (the (S, Y) pair of the
//! Setun-70 long arithmetic: 18-trit × 18-trit → 36-trit products, long
//! shifts and normalisation).
//!
//! Layout: value = hi · 3^18 + lo, with `lo` the balanced representative
//! (the canonical split). All arithmetic is trit-pure: built from
//! `Trit::add` (full ternary adder) and `Word` shifts; no binary
//! intermediates in the data path.

use vstd::arithmetic::div_mod::lemma_mod_multiples_vanish;
use vstd::prelude::*;

use crate::balanced::{
    bal_mod, in_trit_range, lemma_bal_mod_unique, lemma_pow3_add, lemma_shl_exact,
    lemma_shl_step, lemma_shl_value, lemma_shr_value, lemma_value_concat, lemma_value_range,
    lemma_value_sign, lemma_value_zero_iff, lemma_value_zeros, negate_trits, pow3, shl_trits,
    shr_trits, trits_value, zero_trits,
};
use crate::digits::{all_zero, int_to_trits, lemma_pow3_values, ripple_add, trits_to_int};
use crate::trit::Trit;
use crate::word::Word;

verus! {

/// A 36-trit double word: (senior, junior).
#[derive(Clone, Copy, Debug)]
pub struct DWord {
    pub hi: Word,
    pub lo: Word,
}

/// The value of a double word is the value of its 36 trits, junior first.
pub proof fn lemma_dword_value(d: DWord)
    ensures
        trits_value(d.trits()) == d.value(),
        d.trits().len() == 36,
        in_trit_range(d.value(), 36),
{
    lemma_value_concat(d.lo.trits@, d.hi.trits@);
    lemma_value_range(d.trits());
}

impl DWord {
    /// The whole 36-trit balanced value.
    pub open spec fn value(self) -> int {
        self.lo.value() + pow3(18) * self.hi.value()
    }

    /// The 36 trits, junior word first.
    pub open spec fn trits(self) -> Seq<Trit> {
        self.lo.trits@ + self.hi.trits@
    }

    pub fn new(hi: Word, lo: Word) -> (r: DWord)
        ensures
            r.hi == hi,
            r.lo == lo,
            r.value() == lo.value() + pow3(18) * hi.value(),
    {
        DWord { hi, lo }
    }

    pub fn zero() -> (r: DWord)
        ensures
            r.trits() == zero_trits(36),
            r.value() == 0,
    {
        let r = DWord { hi: Word::zero(), lo: Word::zero() };
        proof {
            assert(r.trits() =~= zero_trits(36));
        }
        r
    }

    /// The whole 36-trit balanced value (representation read; the value
    /// fits i128 with huge headroom).
    pub fn to_i128(&self) -> (r: i128)
        ensures
            r == self.value(),
    {
        proof {
            lemma_value_range(self.lo.trits@);
            lemma_value_range(self.hi.trits@);
            lemma_pow3_values();
        }
        trits_to_int(&self.lo.trits) + trits_to_int(&self.hi.trits) * 387420489
    }

    /// Balanced conversion; values outside the range wrap modulo 3^36
    /// (machine arithmetic). For constants and data, not for computed
    /// values.
    pub fn from_i128(v: i128) -> (r: DWord)
        ensures
            r.value() == bal_mod(v as int, 36),
    {
        let (lo, rest) = int_to_trits::<18>(v);
        let (hi, rest2) = int_to_trits::<18>(rest);
        let r = DWord { lo: Word { trits: lo }, hi: Word { trits: hi } };
        proof {
            lemma_value_range(r.lo.trits@);
            lemma_value_range(r.hi.trits@);
            lemma_pow3_values();
            lemma_pow3_add(18, 18);
            let l = r.lo.value();
            let h = r.hi.value();
            let q = rest as int;
            let k = rest2 as int;
            assert(v == l + 387420489 * h + 150094635296999121 * k) by (nonlinear_arith)
                requires
                    v == l + 387420489 * q,
                    q == h + 387420489 * k,
            ;
            assert(in_trit_range(l + 387420489 * h, 36)) by (nonlinear_arith)
                requires
                    -387420488 <= 2 * l <= 387420488,
                    -387420488 <= 2 * h <= 387420488,
                    pow3(36) == 150094635296999121,
            ;
            lemma_bal_mod_unique(v as int, r.value(), k, 36);
        }
        r
    }

    /// Senior-most trit (weight 3^35).
    pub fn top_trit(&self) -> (r: Trit)
        ensures
            r == self.trits()[35],
            r == self.hi.trits@[17],
    {
        self.hi.trits[17]
    }

    /// Parity of the whole 36-trit value.
    pub fn is_even(&self) -> (r: bool)
        ensures
            r == (self.value() % 2 == 0),
    {
        let r = self.hi.is_even() == self.lo.is_even();
        proof {
            let l = self.lo.value();
            let h = self.hi.value();
            lemma_pow3_values();
            assert(l + 387420489 * h == 2 * (193710244 * h) + (l + h));
            lemma_mod_multiples_vanish(193710244 * h, l + h, 2);
        }
        r
    }

    /// Index of the most significant nonzero trit (−1 if zero):
    /// 35..=18 from the senior word, 17..=0 from the junior one.
    pub fn top_nonzero(&self) -> (r: i8)
        ensures
            -1 <= r < 36,
            r == -1 <==> self.value() == 0,
            r >= 0 ==> self.trits()[r as int] != Trit::Z,
            forall|j: int| r < j < 36 ==> self.trits()[j] == Trit::Z,
            r >= 0 ==> (self.trits()[r as int] == Trit::P <==> self.value() > 0),
    {
        let h = self.hi.top_nonzero();
        let r = if h >= 0 {
            18 + h
        } else {
            self.lo.top_nonzero()
        };
        proof {
            let s = self.trits();
            lemma_dword_value(*self);
            assert forall|j: int| r < j < 36 implies s[j] == Trit::Z by {
                if j >= 18 {
                    assert(s[j] == self.hi.trits@[j - 18]);
                } else {
                    assert(s[j] == self.lo.trits@[j]);
                }
            }
            if r >= 0 {
                if h >= 0 {
                    assert(s[r as int] == self.hi.trits@[h as int]);
                } else {
                    assert(s[r as int] == self.lo.trits@[r as int]);
                }
                lemma_value_sign(s, r as int);
            } else {
                lemma_value_zero_iff(s);
            }
        }
        r
    }

    pub fn is_zero(&self) -> (r: bool)
        ensures
            r == (self.value() == 0),
            r == forall|j: int| 0 <= j < 36 ==> self.trits()[j] == Trit::Z,
    {
        let r = all_zero(&self.hi.trits) && all_zero(&self.lo.trits);
        proof {
            let s = self.trits();
            lemma_dword_value(*self);
            lemma_value_zero_iff(s);
            if forall|j: int| 0 <= j < 36 ==> s[j] == Trit::Z {
                assert forall|j: int| 0 <= j < 18 implies self.lo.trits@[j] == Trit::Z by {
                    assert(s[j] == self.lo.trits@[j]);
                }
                assert forall|j: int| 0 <= j < 18 implies self.hi.trits@[j] == Trit::Z by {
                    assert(s[j + 18] == self.hi.trits@[j]);
                }
            }
        }
        r
    }

    /// Full 36-trit addition with carry out of the top (discarded by the
    /// caller when mirroring machine wrap-around).
    pub fn add(&self, other: &DWord) -> (r: (DWord, Trit))
        ensures
            self.value() + other.value() == r.0.value() + pow3(36) * r.1.value(),
            r.0.value() == bal_mod(self.value() + other.value(), 36),
    {
        let (lo, c1) = ripple_add(&self.lo.trits, &other.lo.trits, Trit::Z);
        let (hi, carry) = ripple_add(&self.hi.trits, &other.hi.trits, c1);
        let r = DWord { lo: Word { trits: lo }, hi: Word { trits: hi } };
        proof {
            lemma_pow3_values();
            lemma_dword_value(r);
            let b = 387420489int;
            let a_lo = self.lo.value();
            let a_hi = self.hi.value();
            let b_lo = other.lo.value();
            let b_hi = other.hi.value();
            let r_lo = r.lo.value();
            let r_hi = r.hi.value();
            let x = c1.value();
            let y = carry.value();
            assert(a_lo + b * a_hi + b_lo + b * b_hi == r_lo + b * r_hi + (b * b) * y)
                by (nonlinear_arith)
                requires
                    a_lo + b_lo == r_lo + b * x,
                    a_hi + b_hi + x == r_hi + b * y,
            ;
            lemma_bal_mod_unique(self.value() + other.value(), r.value(), y, 36);
        }
        (r, carry)
    }

    pub fn neg(&self) -> (r: DWord)
        ensures
            r.trits() == negate_trits(self.trits()),
            r.value() == -self.value(),
    {
        let r = DWord { lo: self.lo.neg(), hi: self.hi.neg() };
        proof {
            assert(r.trits() =~= negate_trits(self.trits()));
            let b = pow3(18);
            assert(-self.lo.value() + b * (-self.hi.value()) == -(self.lo.value() + b
                * self.hi.value())) by (nonlinear_arith);
        }
        r
    }

    pub fn sub(&self, other: &DWord) -> (r: (DWord, Trit))
        ensures
            self.value() - other.value() == r.0.value() + pow3(36) * r.1.value(),
            r.0.value() == bal_mod(self.value() - other.value(), 36),
    {
        self.add(&other.neg())
    }

    /// Long shift toward the senior end (×3^n), wrapping inside 36 trits.
    /// lo's top n trits carry into hi's bottom n; hi's overflow is dropped.
    pub fn shl(&self, n: usize) -> (r: DWord)
        ensures
            r.trits() == shl_trits(self.trits(), n as nat),
            r.value() == bal_mod(self.value() * pow3(n as nat), 36),
    {
        let r = if n == 0 {
            *self
        } else if n >= 36 {
            DWord::zero()
        } else if n < 18 {
            let mut hi = self.hi.shl(n);
            for i in 0..n
                invariant
                    n < 18,
                    forall|j: int|
                        0 <= j < 18 ==> #[trigger] hi.trits@[j] == (if j < i {
                            self.lo.trits@[18 - n + j]
                        } else if j >= n {
                            self.hi.trits@[j - n]
                        } else {
                            Trit::Z
                        }),
            {
                hi.trits[i] = self.lo.trits[18 - n + i];
            }
            DWord { hi, lo: self.lo.shl(n) }
        } else {
            // hi shifts out of the 36-trit frame entirely; lo becomes senior.
            DWord { hi: self.lo.shl(n - 18), lo: Word::zero() }
        };
        proof {
            assert(r.trits() =~= shl_trits(self.trits(), n as nat));
            lemma_dword_value(*self);
            lemma_dword_value(r);
            lemma_shl_value(self.trits(), n as nat);
        }
        r
    }

    /// Long shift toward the junior end (÷3^n, dropping the n junior
    /// trits). hi's bottom n trits drop into lo's top n; lo's underflow is
    /// dropped.
    pub fn shr(&self, n: usize) -> (r: DWord)
        ensures
            r.trits() == shr_trits(self.trits(), n as nat),
            n <= 36 ==> self.value() == trits_value(self.trits().take(n as int)) + pow3(n as nat)
                * r.value(),
            n > 36 ==> r.value() == 0,
    {
        let r = if n == 0 {
            *self
        } else if n >= 36 {
            DWord::zero()
        } else if n < 18 {
            let mut lo = self.lo.shr(n);
            for i in 0..n
                invariant
                    n < 18,
                    forall|j: int|
                        0 <= j < 18 ==> #[trigger] lo.trits@[j] == (if j + n < 18 {
                            self.lo.trits@[j + n]
                        } else if j < 18 - n + i {
                            self.hi.trits@[j + n - 18]
                        } else {
                            Trit::Z
                        }),
            {
                lo.trits[18 - n + i] = self.hi.trits[i];
            }
            DWord { hi: self.hi.shr(n), lo }
        } else {
            DWord { hi: Word::zero(), lo: self.hi.shr(n - 18) }
        };
        proof {
            assert(r.trits() =~= shr_trits(self.trits(), n as nat));
            lemma_dword_value(*self);
            lemma_dword_value(r);
            if n <= 36 {
                lemma_shr_value(self.trits(), n as nat);
            } else {
                assert(r.trits() =~= zero_trits(36));
                lemma_value_zeros(36);
            }
        }
        r
    }

    /// Normalisation (XNN): if the senior-most trit is nonzero, divide by
    /// 3 once (i = 1); otherwise multiply by 3 until the senior-most trit
    /// becomes nonzero or the 34-shift bound is reached. Returns the new
    /// double word and the exponent adjustment i (e := e + i).
    pub fn normalize(&self) -> (r: (DWord, i32))
        ensures
            self.trits()[35] != Trit::Z ==> r.1 == 1 && r.0.trits() == shr_trits(
                self.trits(),
                1,
            ) && self.value() == self.trits()[0].value() + 3 * r.0.value(),
            self.trits()[35] == Trit::Z ==> {
                &&& -34 <= r.1 <= -1
                &&& r.0.trits() == shl_trits(self.trits(), (-r.1) as nat)
                &&& r.0.value() == self.value() * pow3((-r.1) as nat)
                &&& forall|j: int| 36 + r.1 <= j < 36 ==> self.trits()[j] == Trit::Z
                &&& (r.1 == -34 || self.trits()[35 + r.1] != Trit::Z)
            },
    {
        let mut x = *self;
        let mut i: i32 = 0;
        if x.top_trit() != Trit::Z {
            x = x.shr(1);
            i = 1;
            proof {
                let s1 = self.trits().take(1);
                lemma_dword_value(*self);
                assert(s1.len() == 1);
                assert(s1.last() == self.trits()[0]);
                assert(s1.drop_last() =~= Seq::<Trit>::empty());
                assert(trits_value(Seq::<Trit>::empty()) == 0);
                assert(trits_value(s1) == self.trits()[0].value() * pow3(0));
                assert(pow3(0) == 1);
                assert(pow3(1) == 3);
                assert(self.value() == self.trits()[0].value() + 3 * x.value());
            }
        } else {
            proof {
                assert(shl_trits(self.trits(), 0) =~= self.trits());
            }
            while x.top_trit() == Trit::Z && i > -34
                invariant
                    -34 <= i <= 0,
                    x.trits() == shl_trits(self.trits(), (-i) as nat),
                    self.trits()[35] == Trit::Z,
                    forall|j: int| 36 + i <= j < 36 ==> self.trits()[j] == Trit::Z,
                decreases i + 34,
            {
                proof {
                    lemma_shl_step(self.trits(), (-i) as nat);
                }
                x = x.shl(1);
                i = i - 1;
            }
            proof {
                lemma_dword_value(*self);
                lemma_dword_value(x);
                lemma_shl_exact(self.trits(), (-i) as nat);
            }
        }
        (x, i)
    }
}

} // verus!
