//! The mathematics of balanced-ternary digit sequences: the value of a
//! little-endian trit sequence, the balanced residue modulo 3^n, and the
//! lemmas that every word type of the crate rests on.

use vstd::arithmetic::div_mod::*;
use vstd::arithmetic::mul::*;
use vstd::prelude::*;

use crate::trit::Trit;

verus! {

/// 3^n.
pub open spec fn pow3(n: nat) -> int
    decreases n,
{
    if n == 0 {
        1
    } else {
        3 * pow3((n - 1) as nat)
    }
}

/// The integer a little-endian balanced-ternary sequence stands for:
/// `s[0] + 3 s[1] + 9 s[2] + ...`.
pub open spec fn trits_value(s: Seq<Trit>) -> int
    decreases s.len(),
{
    if s.len() == 0 {
        0
    } else {
        trits_value(s.drop_last()) + s.last().value() * pow3((s.len() - 1) as nat)
    }
}

/// The number of nonzero trits of a sequence.
pub open spec fn nonzero_count(s: Seq<Trit>) -> nat
    decreases s.len(),
{
    if s.len() == 0 {
        0
    } else {
        nonzero_count(s.drop_last()) + if s.last() == Trit::Z {
            0nat
        } else {
            1nat
        }
    }
}

/// `v` lies in the range of n balanced trits: |v| <= (3^n - 1) / 2.
pub open spec fn in_trit_range(v: int, n: nat) -> bool {
    -(pow3(n) - 1) <= 2 * v <= pow3(n) - 1
}

/// The balanced residue of `v` modulo 3^n: the unique value in the range of
/// n balanced trits that is congruent to `v` modulo 3^n.
pub open spec fn bal_mod(v: int, n: nat) -> int {
    let m = pow3(n);
    (v + (m - 1) / 2) % m - (m - 1) / 2
}

/// A sequence of `n` zero trits.
pub open spec fn zero_trits(n: nat) -> Seq<Trit> {
    Seq::new(n, |j: int| Trit::Z)
}

/// Shift toward the senior end by `n` places within the same length:
/// the `n` junior places become zero, the `n` senior trits are dropped.
pub open spec fn shl_trits(s: Seq<Trit>, n: nat) -> Seq<Trit> {
    Seq::new(s.len(), |j: int| if j >= n { s[j - n] } else { Trit::Z })
}

/// Shift toward the junior end by `n` places within the same length:
/// the `n` junior trits are dropped, the `n` senior places become zero.
pub open spec fn shr_trits(s: Seq<Trit>, n: nat) -> Seq<Trit> {
    Seq::new(s.len(), |j: int| if j + n < s.len() { s[j + n] } else { Trit::Z })
}

pub proof fn lemma_pow3_basics(n: nat)
    ensures
        pow3(n) >= 1,
        pow3(n) % 2 == 1,
        pow3(n + 1) == 3 * pow3(n),
    decreases n,
{
    if n > 0 {
        lemma_pow3_basics((n - 1) as nat);
    }
}

pub proof fn lemma_pow3_monotone(a: nat, b: nat)
    requires
        a <= b,
    ensures
        pow3(a) <= pow3(b),
    decreases b,
{
    if a < b {
        lemma_pow3_monotone(a, (b - 1) as nat);
        lemma_pow3_basics((b - 1) as nat);
    }
}

pub proof fn lemma_pow3_add(a: nat, b: nat)
    ensures
        pow3(a + b) == pow3(a) * pow3(b),
    decreases b,
{
    if b > 0 {
        lemma_pow3_add(a, (b - 1) as nat);
        assert(pow3(a + b) == 3 * pow3((a + b - 1) as nat));
        lemma_mul_is_associative(3, pow3(a), pow3((b - 1) as nat));
        lemma_mul_is_commutative(3, pow3(a));
        lemma_mul_is_associative(pow3(a), 3, pow3((b - 1) as nat));
    }
}

/// Every sequence of n trits has a value in the range of n balanced trits.
pub proof fn lemma_value_range(s: Seq<Trit>)
    ensures
        in_trit_range(trits_value(s), s.len()),
    decreases s.len(),
{
    if s.len() > 0 {
        let k = (s.len() - 1) as nat;
        lemma_value_range(s.drop_last());
        lemma_pow3_basics(k);
    }
}

/// The value of a concatenation: the senior part is weighted by 3^|a|.
pub proof fn lemma_value_concat(a: Seq<Trit>, b: Seq<Trit>)
    ensures
        trits_value(a + b) == trits_value(a) + pow3(a.len()) * trits_value(b),
    decreases b.len(),
{
    if b.len() == 0 {
        assert(a + b =~= a);
    } else {
        let b1 = b.drop_last();
        assert((a + b).drop_last() =~= a + b1);
        assert((a + b).last() == b.last());
        lemma_value_concat(a, b1);
        let k = (b.len() - 1) as nat;
        lemma_pow3_add(a.len(), k);
        let pa = pow3(a.len());
        let pk = pow3(k);
        let t = b.last().value();
        assert(t * (pa * pk) == pa * (t * pk)) by (nonlinear_arith);
        assert(pa * trits_value(b1) + pa * (t * pk) == pa * (trits_value(b1) + t * pk))
            by (nonlinear_arith);
    }
}

/// A sequence of zero trits is worth zero.
pub proof fn lemma_value_zeros(n: nat)
    ensures
        trits_value(zero_trits(n)) == 0,
    decreases n,
{
    if n > 0 {
        assert(zero_trits(n).drop_last() =~= zero_trits((n - 1) as nat));
        lemma_value_zeros((n - 1) as nat);
    }
}

/// If every trit from place `k` upward is zero, only the first `k` count.
pub proof fn lemma_value_zero_tail(s: Seq<Trit>, k: int)
    requires
        0 <= k <= s.len(),
        forall|j: int| k <= j < s.len() ==> s[j] == Trit::Z,
    ensures
        trits_value(s) == trits_value(s.take(k)),
{
    let z = zero_trits((s.len() - k) as nat);
    assert(s =~= s.take(k) + z);
    lemma_value_concat(s.take(k), z);
    lemma_value_zeros((s.len() - k) as nat);
}

/// The value of a prefix one trit longer.
pub proof fn lemma_value_take_step(s: Seq<Trit>, i: int)
    requires
        0 <= i < s.len(),
    ensures
        trits_value(s.take(i + 1)) == trits_value(s.take(i)) + s[i].value() * pow3(i as nat),
{
    assert(s.take(i + 1).drop_last() =~= s.take(i));
}

/// The balanced residue is pinned by any in-range representative.
pub proof fn lemma_bal_mod_unique(v: int, x: int, k: int, n: nat)
    requires
        v == x + pow3(n) * k,
        in_trit_range(x, n),
    ensures
        bal_mod(v, n) == x,
{
    let m = pow3(n);
    lemma_pow3_basics(n);
    let h = (m - 1) / 2;
    assert(2 * h == m - 1);
    assert(0 <= x + h < m);
    assert(v + h == m * k + (x + h)) by {
        lemma_mul_is_commutative(k, m);
    }
    lemma_mod_multiples_vanish(k, x + h, m);
    lemma_small_mod((x + h) as nat, m as nat);
}

/// The balanced residue lies in range and differs from `v` by a multiple
/// of 3^n.
pub proof fn lemma_bal_mod_range(v: int, n: nat)
    ensures
        in_trit_range(bal_mod(v, n), n),
        (v - bal_mod(v, n)) % pow3(n) == 0,
{
    let m = pow3(n);
    lemma_pow3_basics(n);
    let h = (m - 1) / 2;
    assert(2 * h == m - 1);
    lemma_mod_bound(v + h, m);
    lemma_fundamental_div_mod(v + h, m);
    let q = (v + h) / m;
    assert(v - bal_mod(v, n) == m * q);
    lemma_mod_multiples_basic(q, m);
    lemma_mul_is_commutative(q, m);
}

/// Two trit sequences of one length with one value are the same sequence.
pub proof fn lemma_trits_unique(a: Seq<Trit>, b: Seq<Trit>)
    requires
        a.len() == b.len(),
        trits_value(a) == trits_value(b),
    ensures
        a == b,
    decreases a.len(),
{
    if a.len() > 0 {
        let k = (a.len() - 1) as nat;
        let p = pow3(k);
        lemma_value_range(a.drop_last());
        lemma_value_range(b.drop_last());
        lemma_pow3_basics(k);
        assert(a.last() == b.last());
        lemma_trits_unique(a.drop_last(), b.drop_last());
        assert(a =~= a.drop_last().push(a.last()));
        assert(b =~= b.drop_last().push(b.last()));
    } else {
        assert(a =~= b);
    }
}

/// The parity of a balanced-ternary value is the parity of its number of
/// nonzero trits, since 3 is odd.
pub proof fn lemma_value_parity(s: Seq<Trit>)
    ensures
        trits_value(s) % 2 == nonzero_count(s) % 2,
    decreases s.len(),
{
    if s.len() > 0 {
        let k = (s.len() - 1) as nat;
        lemma_value_parity(s.drop_last());
        lemma_pow3_basics(k);
        let p = pow3(k);
        let a = trits_value(s.drop_last());
        let c = nonzero_count(s.drop_last()) as int;
        assert(p == 2 * (p / 2) + 1);
        if s.last() == Trit::P {
            assert((a + p) % 2 == (c + 1) % 2) by {
                lemma_add_mod_noop(a, p, 2);
                lemma_add_mod_noop(c, 1, 2);
            }
        } else if s.last() == Trit::N {
            assert((a - p) % 2 == (c + 1) % 2) by {
                lemma_sub_mod_noop(a, p, 2);
                lemma_add_mod_noop(c, 1, 2);
            }
        }
    }
}

/// A value is zero exactly when all its trits are; otherwise its sign is
/// the sign of its most significant nonzero trit.
pub proof fn lemma_value_sign(s: Seq<Trit>, k: int)
    requires
        0 <= k < s.len(),
        s[k] != Trit::Z,
        forall|j: int| k < j < s.len() ==> s[j] == Trit::Z,
    ensures
        s[k] == Trit::P ==> trits_value(s) > 0,
        s[k] == Trit::N ==> trits_value(s) < 0,
{
    lemma_value_zero_tail(s, k + 1);
    lemma_value_take_step(s, k);
    assert(s.take(k + 1).take(k) =~= s.take(k));
    lemma_value_range(s.take(k));
    lemma_pow3_basics(k as nat);
}

/// The value of an all-zero sequence is zero, and conversely.
pub proof fn lemma_value_zero_iff(s: Seq<Trit>)
    ensures
        (trits_value(s) == 0) <==> (forall|j: int| 0 <= j < s.len() ==> s[j] == Trit::Z),
{
    if forall|j: int| 0 <= j < s.len() ==> s[j] == Trit::Z {
        assert(s =~= zero_trits(s.len()));
        lemma_value_zeros(s.len());
    }
    if trits_value(s) == 0 {
        lemma_value_zeros(s.len());
        lemma_trits_unique(s, zero_trits(s.len()));
    }
}

} // verus!

verus! {

/// Tritwise sign inversion of a sequence.
pub open spec fn negate_trits(s: Seq<Trit>) -> Seq<Trit> {
    Seq::new(s.len(), |j: int| s[j].negated())
}

/// Negating every trit negates the value.
pub proof fn lemma_value_negate(s: Seq<Trit>)
    ensures
        trits_value(negate_trits(s)) == -trits_value(s),
    decreases s.len(),
{
    if s.len() > 0 {
        assert(negate_trits(s).drop_last() =~= negate_trits(s.drop_last()));
        lemma_value_negate(s.drop_last());
    }
}

} // verus!

verus! {

/// Shifting toward the senior end multiplies by 3^n, modulo 3^len.
pub proof fn lemma_shl_value(s: Seq<Trit>, n: nat)
    ensures
        trits_value(shl_trits(s, n)) == bal_mod(trits_value(s) * pow3(n), s.len()),
{
    let len = s.len();
    let v = trits_value(s);
    lemma_value_range(shl_trits(s, n));
    if n >= len {
        assert(shl_trits(s, n) =~= zero_trits(len));
        lemma_value_zeros(len);
        lemma_pow3_add(len, (n - len) as nat);
        let k = v * pow3((n - len) as nat);
        assert(v * pow3(n) == 0 + pow3(len) * k) by (nonlinear_arith)
            requires
                pow3(n) == pow3(len) * pow3((n - len) as nat),
                k == v * pow3((n - len) as nat),
        ;
        lemma_bal_mod_unique(v * pow3(n), 0, k, len);
    } else {
        let lo = s.take(len - n);
        let hi = s.skip(len - n);
        assert(shl_trits(s, n) =~= zero_trits(n) + lo);
        lemma_value_concat(zero_trits(n), lo);
        lemma_value_zeros(n);
        assert(s =~= lo + hi);
        lemma_value_concat(lo, hi);
        lemma_pow3_add((len - n) as nat, n);
        let a = trits_value(lo);
        let b = trits_value(hi);
        let p1 = pow3((len - n) as nat);
        let p2 = pow3(n);
        assert((a + p1 * b) * p2 == p2 * a + (p1 * p2) * b) by (nonlinear_arith);
        lemma_bal_mod_unique(v * p2, p2 * a, b, len);
    }
}

/// Shifting toward the junior end drops the `n` junior trits:
/// `v == (junior n trits) + 3^n * shifted`.
pub proof fn lemma_shr_value(s: Seq<Trit>, n: nat)
    requires
        n <= s.len(),
    ensures
        trits_value(s) == trits_value(s.take(n as int)) + pow3(n) * trits_value(
            shr_trits(s, n),
        ),
{
    let len = s.len();
    let lo = s.take(n as int);
    let hi = s.skip(n as int);
    assert(shr_trits(s, n) =~= hi + zero_trits(n));
    lemma_value_concat(hi, zero_trits(n));
    lemma_value_zeros(n);
    assert(s =~= lo + hi);
    lemma_value_concat(lo, hi);
}

} // verus!

verus! {

/// Shifting toward the senior end is exact multiplication by 3^n when the
/// `n` senior trits are zero.
pub proof fn lemma_shl_exact(s: Seq<Trit>, n: nat)
    requires
        n <= s.len(),
        forall|j: int| s.len() - n <= j < s.len() ==> s[j] == Trit::Z,
    ensures
        trits_value(shl_trits(s, n)) == trits_value(s) * pow3(n),
{
    let len = s.len();
    let m = (len - n) as nat;
    lemma_shl_value(s, n);
    lemma_value_zero_tail(s, m as int);
    lemma_value_range(s.take(m as int));
    lemma_pow3_add(m, n);
    lemma_pow3_basics(n);
    let v = trits_value(s);
    assert(in_trit_range(v * pow3(n), len)) by (nonlinear_arith)
        requires
            -(pow3(m) - 1) <= 2 * v <= pow3(m) - 1,
            pow3(len) == pow3(m) * pow3(n),
            pow3(n) >= 1,
    ;
    lemma_bal_mod_unique(v * pow3(n), v * pow3(n), 0, len);
}

/// A shift by one more place is a shift of the shifted sequence.
pub proof fn lemma_shl_step(s: Seq<Trit>, n: nat)
    ensures
        shl_trits(shl_trits(s, n), 1) == shl_trits(s, n + 1),
{
    assert(shl_trits(shl_trits(s, n), 1) =~= shl_trits(s, n + 1));
}

} // verus!
