//! Executable kernels on fixed-length trit arrays, shared by the tryte,
//! word and double-word types. Each is proved against the value of the
//! digits it reads and writes.

use vstd::prelude::*;

use crate::balanced::{
    bal_mod, lemma_bal_mod_unique, lemma_pow3_add, lemma_pow3_basics,
    lemma_pow3_monotone, lemma_value_negate, lemma_value_range, lemma_value_take_step,
    lemma_value_zero_tail, negate_trits, nonzero_count, pow3, shl_trits, shr_trits, trits_value,
};
use crate::trit::Trit;

verus! {

/// Splits off the junior balanced trit: `v == t + 3 q`.
pub fn split_digit(v: i128) -> (r: (Trit, i128))
    ensures
        v == r.0.value() + 3 * r.1,
{
    let q = v / 3;
    let rem = v % 3;
    if rem == 0 {
        (Trit::Z, q)
    } else if rem == 1 {
        (Trit::P, q)
    } else if rem == 2 {
        (Trit::N, q + 1)
    } else if rem == -1 {
        (Trit::N, q)
    } else {
        (Trit::P, q - 1)
    }
}

/// Balanced conversion of `v` into `N` trits, junior first. Also returns the
/// part of `v` that did not fit: `v == value(trits) + 3^N * rest`.
pub fn int_to_trits<const N: usize>(v: i128) -> (r: ([Trit; N], i128))
    ensures
        v == trits_value(r.0@) + pow3(N as nat) * r.1,
        trits_value(r.0@) == bal_mod(v as int, N as nat),
{
    let mut trits = [Trit::Z; N];
    let mut x = v;
    let mut i: usize = 0;
    while x != 0 && i < N
        invariant
            0 <= i <= N,
            trits@.len() == N,
            forall|j: int| i <= j < N ==> trits@[j] == Trit::Z,
            v == trits_value(trits@.take(i as int)) + pow3(i as nat) * x,
        decreases N - i,
    {
        let (t, q) = split_digit(x);
        proof {
            let s = trits@.update(i as int, t);
            lemma_value_take_step(s, i as int);
            assert(s.take(i as int) =~= trits@.take(i as int));
            lemma_pow3_basics(i as nat);
            let p = pow3(i as nat);
            assert(p * x == t.value() * p + (3 * p) * q) by (nonlinear_arith)
                requires
                    x == t.value() + 3 * q,
            ;
        }
        trits[i] = t;
        x = q;
        i = i + 1;
    }
    proof {
        if x == 0 {
            lemma_value_zero_tail(trits@, i as int);
            assert(pow3(i as nat) * x == 0);
            assert(pow3(N as nat) * x == 0) by (nonlinear_arith)
                requires
                    x == 0,
            ;
        } else {
            assert(trits@.take(N as int) =~= trits@);
        }
        assert(v == trits_value(trits@) + pow3(N as nat) * x);
        lemma_value_range(trits@);
        lemma_bal_mod_unique(v as int, trits_value(trits@), x as int, N as nat);
    }
    (trits, x)
}

/// The powers of three that the word widths use.
pub proof fn lemma_pow3_values()
    ensures
        pow3(6) == 729,
        pow3(9) == 19683,
        pow3(12) == 531441,
        pow3(18) == 387420489,
        pow3(36) == 150094635296999121,
{
    reveal_with_fuel(pow3, 10);
    lemma_pow3_add(6, 6);
    lemma_pow3_add(9, 9);
    lemma_pow3_add(18, 18);
    assert(pow3(18) * pow3(18) == 150094635296999121) by (nonlinear_arith)
        requires
            pow3(18) == 387420489,
    ;
}

/// The value of at most 36 trits, as an integer.
pub fn trits_to_int<const N: usize>(t: &[Trit; N]) -> (r: i128)
    requires
        N <= 36,
    ensures
        r == trits_value(t@),
{
    let mut result: i128 = 0;
    let mut p: i128 = 1;
    for i in 0..N
        invariant
            N <= 36,
            t@.len() == N,
            result == trits_value(t@.take(i as int)),
            p == pow3(i as nat),
    {
        proof {
            lemma_value_take_step(t@, i as int);
            lemma_value_range(t@.take(i as int + 1));
            lemma_pow3_basics(i as nat);
            lemma_pow3_monotone((i + 1) as nat, 36);
            lemma_pow3_values();
            let next = trits_value(t@.take(i as int + 1));
            assert(next == result + t[i as int].value() * p);
            assert(-pow3((i + 1) as nat) <= 2 * next <= pow3((i + 1) as nat));
            assert(pow3((i + 1) as nat) <= 150094635296999121);
        }
        result = result + t[i].to_i8() as i128 * p;
        p = p * 3;
    }
    proof {
        assert(t@.take(N as int) =~= t@);
    }
    result
}

/// Ripple-carry addition of two trit arrays with a carry in; returns the
/// sum digits and the carry out of the senior place.
pub fn ripple_add<const N: usize>(a: &[Trit; N], b: &[Trit; N], carry_in: Trit) -> (r: (
    [Trit; N],
    Trit,
))
    ensures
        trits_value(a@) + trits_value(b@) + carry_in.value() == trits_value(r.0@) + pow3(N as nat)
            * r.1.value(),
{
    let mut result = [Trit::Z; N];
    let mut carry = carry_in;
    for i in 0..N
        invariant
            a@.len() == N,
            b@.len() == N,
            result@.len() == N,
            trits_value(a@.take(i as int)) + trits_value(b@.take(i as int)) + carry_in.value()
                == trits_value(result@.take(i as int)) + pow3(i as nat) * carry.value(),
    {
        let (s, c) = a[i].add(b[i], carry);
        proof {
            let r2 = result@.update(i as int, s);
            lemma_value_take_step(a@, i as int);
            lemma_value_take_step(b@, i as int);
            lemma_value_take_step(r2, i as int);
            assert(r2.take(i as int) =~= result@.take(i as int));
            lemma_pow3_basics(i as nat);
            let p = pow3(i as nat);
            assert(p * carry.value() + a[i as int].value() * p + b[i as int].value() * p
                == s.value() * p + (3 * p) * c.value()) by (nonlinear_arith)
                requires
                    a[i as int].value() + b[i as int].value() + carry.value() == s.value() + 3
                        * c.value(),
            ;
        }
        result[i] = s;
        carry = c;
    }
    proof {
        assert(a@.take(N as int) =~= a@);
        assert(b@.take(N as int) =~= b@);
        assert(result@.take(N as int) =~= result@);
    }
    (result, carry)
}

/// Tritwise sign inversion.
pub fn negate_array<const N: usize>(a: &[Trit; N]) -> (r: [Trit; N])
    ensures
        r@ == negate_trits(a@),
        trits_value(r@) == -trits_value(a@),
{
    let mut result = [Trit::Z; N];
    for i in 0..N
        invariant
            a@.len() == N,
            result@.len() == N,
            forall|j: int| 0 <= j < i ==> result@[j] == a@[j].negated(),
    {
        result[i] = a[i].neg();
    }
    proof {
        assert(result@ =~= negate_trits(a@));
        lemma_value_negate(a@);
    }
    result
}

/// Shift toward the senior end by `n` places; trits shifted past the
/// senior end are dropped.
pub fn shl_array<const N: usize>(a: &[Trit; N], n: usize) -> (r: [Trit; N])
    ensures
        r@ == shl_trits(a@, n as nat),
{
    let mut result = [Trit::Z; N];
    let mut i = n;
    while i < N
        invariant
            a@.len() == N,
            result@.len() == N,
            n <= i || N <= i,
            forall|j: int| 0 <= j < N ==> #[trigger] result@[j] == (if n <= j < i {
                a@[j - n]
            } else {
                Trit::Z
            }),
        decreases N - i,
    {
        result[i] = a[i - n];
        i = i + 1;
    }
    proof {
        assert(result@ =~= shl_trits(a@, n as nat));
    }
    result
}

/// Shift toward the junior end by `n` places; the `n` junior trits are
/// dropped.
pub fn shr_array<const N: usize>(a: &[Trit; N], n: usize) -> (r: [Trit; N])
    requires
        n <= N,
    ensures
        r@ == shr_trits(a@, n as nat),
{
    let mut result = [Trit::Z; N];
    for i in 0..(N - n)
        invariant
            n <= N,
            a@.len() == N,
            result@.len() == N,
            forall|j: int| 0 <= j < N ==> #[trigger] result@[j] == (if j < i {
                a@[j + n]
            } else {
                Trit::Z
            }),
    {
        result[i] = a[i + n];
    }
    proof {
        assert(result@ =~= shr_trits(a@, n as nat));
    }
    result
}

/// Whether the number of nonzero trits is even.
pub fn nonzero_count_is_even<const N: usize>(a: &[Trit; N]) -> (r: bool)
    ensures
        r == (nonzero_count(a@) % 2 == 0),
{
    let mut count: usize = 0;
    for i in 0..N
        invariant
            a@.len() == N,
            count == nonzero_count(a@.take(i as int)),
            count <= i,
    {
        proof {
            assert(a@.take(i + 1).drop_last() =~= a@.take(i as int));
        }
        if a[i] != Trit::Z {
            count = count + 1;
        }
    }
    proof {
        assert(a@.take(N as int) =~= a@);
    }
    count % 2 == 0
}

/// Index of the most significant nonzero trit, or −1 when all are zero.
pub fn top_nonzero_index<const N: usize>(a: &[Trit; N]) -> (r: i8)
    requires
        N <= 127,
    ensures
        -1 <= r < N,
        r == -1 <==> forall|j: int| 0 <= j < N ==> a@[j] == Trit::Z,
        r >= 0 ==> a@[r as int] != Trit::Z,
        forall|j: int| r < j < N ==> a@[j] == Trit::Z,
{
    let mut i = N;
    while i > 0
        invariant
            i <= N,
            N <= 127,
            a@.len() == N,
            forall|j: int| i <= j < N ==> a@[j] == Trit::Z,
        decreases i,
    {
        i = i - 1;
        if a[i] != Trit::Z {
            return i as i8;
        }
    }
    -1
}

/// Trits `from..=to` moved to the junior end; the rest zero.
pub fn slice_array<const N: usize>(a: &[Trit; N], from: usize, to: usize) -> (r: [Trit; N])
    requires
        from <= to < N,
    ensures
        forall|j: int| 0 <= j < N ==> #[trigger] r@[j] == (if j <= to - from {
            a@[from + j]
        } else {
            Trit::Z
        }),
{
    let mut result = [Trit::Z; N];
    let len = to - from + 1;
    for i in 0..len
        invariant
            from <= to < N,
            len == to - from + 1,
            a@.len() == N,
            result@.len() == N,
            forall|j: int| 0 <= j < N ==> #[trigger] result@[j] == (if j < i {
                a@[from + j]
            } else {
                Trit::Z
            }),
    {
        result[i] = a[from + i];
    }
    result
}

} // verus!

verus! {

/// Whether every trit is zero.
pub fn all_zero<const N: usize>(a: &[Trit; N]) -> (r: bool)
    ensures
        r == forall|j: int| 0 <= j < N ==> a@[j] == Trit::Z,
{
    for i in 0..N
        invariant
            a@.len() == N,
            forall|j: int| 0 <= j < i ==> a@[j] == Trit::Z,
    {
        if a[i] != Trit::Z {
            return false;
        }
    }
    true
}

} // verus!
