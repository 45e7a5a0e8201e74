//! Properties of the library that span several operations, stated over the
//! same spec functions as the operations' own contracts.

use vstd::arithmetic::div_mod::lemma_fundamental_div_mod;
use vstd::prelude::*;

use crate::balanced::{
    bal_mod, in_trit_range, lemma_bal_mod_range, lemma_bal_mod_unique, lemma_pow3_basics,
    lemma_trits_unique, lemma_value_range, lemma_value_take_step, negate_trits, pow3, shl_trits, shr_trits, trits_value,
};
use crate::dword::{lemma_dword_value, DWord};
use crate::table::{
    digit_char, digit_symbol_value, is_radix_symbol, magnitude, nonary_char, nonary_string_value,
    radix_digits, radix_string_value, trit_char, trit_string_value, trit_symbol_value,
    twos_complement32, Entry,
};
use crate::trit::Trit;
use crate::ternary_array::{
    TernaryArray, TernaryArray2D, TernaryArray3D, TernaryArray4D, TernaryDefault,
};
use crate::tryte::Tryte;
use crate::word::Word;

verus! {

/// Converting a value that fits in n trits and reading it back gives the
/// value itself: the wrap of `from_i16`, `from_i64` and `from_i128` only
/// touches values out of range.
pub proof fn law_in_range_conversion_is_exact(v: int, n: nat)
    requires
        in_trit_range(v, n),
    ensures
        bal_mod(v, n) == v,
{
    lemma_bal_mod_unique(v, v, 0, n);
}

/// A tryte is determined by its value: converting a tryte to an integer
/// and back gives the same trits.
pub proof fn law_tryte_value_determines_trits(t: Tryte, u: Tryte)
    requires
        u.value() == bal_mod(t.value(), 6),
    ensures
        u.trits@ == t.trits@,
{
    lemma_value_range(t.trits@);
    lemma_bal_mod_unique(t.value(), t.value(), 0, 6);
    lemma_trits_unique(u.trits@, t.trits@);
}

/// A word is determined by its value: converting a word to an integer and
/// back gives the same trits.
pub proof fn law_word_value_determines_trits(w: Word, u: Word)
    requires
        u.value() == bal_mod(w.value(), 18),
    ensures
        u.trits@ == w.trits@,
{
    lemma_value_range(w.trits@);
    lemma_bal_mod_unique(w.value(), w.value(), 0, 18);
    lemma_trits_unique(u.trits@, w.trits@);
}

/// A double word is determined by its value: converting it to an integer
/// and back gives the same trits.
pub proof fn law_dword_value_determines_trits(d: DWord, u: DWord)
    requires
        u.value() == bal_mod(d.value(), 36),
    ensures
        u.trits() == d.trits(),
{
    lemma_dword_value(d);
    lemma_dword_value(u);
    lemma_bal_mod_unique(d.value(), d.value(), 0, 36);
    lemma_trits_unique(u.trits(), d.trits());
}

/// Subtracting what was added gives back the first operand, whatever the
/// wrap in between: `(a + b) - b == a` in n-trit arithmetic.
pub proof fn law_add_then_sub(a: int, b: int, n: nat)
    requires
        in_trit_range(a, n),
    ensures
        bal_mod(bal_mod(a + b, n) - b, n) == a,
{
    let m = pow3(n);
    let s = bal_mod(a + b, n);
    lemma_pow3_basics(n);
    lemma_bal_mod_range(a + b, n);
    lemma_fundamental_div_mod(a + b - s, m);
    let q = (a + b - s) / m;
    assert(a + b - s == m * q);
    assert(m * (-q) == -(m * q)) by (nonlinear_arith);
    lemma_bal_mod_unique(s - b, a, -q, n);
}

/// Negating twice gives back the trits.
pub proof fn law_negate_twice(s: Seq<Trit>)
    ensures
        negate_trits(negate_trits(s)) == s,
{
    assert(negate_trits(negate_trits(s)) =~= s);
}

/// A shift toward the senior end by n places is undone by a shift back
/// when the n senior trits were zero.
pub proof fn law_shl_then_shr(s: Seq<Trit>, n: nat)
    requires
        n <= s.len(),
        forall|j: int| s.len() - n <= j < s.len() ==> s[j] == Trit::Z,
    ensures
        shr_trits(shl_trits(s, n), n) == s,
{
    assert(shr_trits(shl_trits(s, n), n) =~= s);
}

/// A shift toward the junior end followed by a shift back clears the n
/// junior trits and keeps the others.
pub proof fn law_shr_then_shl(s: Seq<Trit>, n: nat)
    ensures
        forall|j: int|
            0 <= j < s.len() ==> #[trigger] shl_trits(shr_trits(s, n), n)[j] == if j < n {
                Trit::Z
            } else {
                s[j]
            },
{
}

/// Splitting a word assembled from three trytes gives the trytes back.
pub proof fn law_trytes_roundtrip(low: Tryte, mid: Tryte, high: Tryte)
    ensures
        (low.trits@ + mid.trits@ + high.trits@).subrange(0, 6) == low.trits@,
        (low.trits@ + mid.trits@ + high.trits@).subrange(6, 12) == mid.trits@,
        (low.trits@ + mid.trits@ + high.trits@).subrange(12, 18) == high.trits@,
{
    let s = low.trits@ + mid.trits@ + high.trits@;
    assert(s.subrange(0, 6) =~= low.trits@);
    assert(s.subrange(6, 12) =~= mid.trits@);
    assert(s.subrange(12, 18) =~= high.trits@);
}

/// A fresh array reads the ternary zero at every index.
pub proof fn law_fresh_array_reads_zero<T: Clone + Default + TernaryDefault>(
    arr: TernaryArray<T>,
    idx: i32,
)
    requires
        arr@ == Map::<i32, T>::empty(),
    ensures
        arr.cell(idx) == T::spec_ternary_default(),
{
}

/// After `set(idx, value)` the cell at `idx` reads `value`, every other
/// cell reads what it read before, and the bounds (hence `len`) are kept.
pub proof fn law_set_then_read<T: Clone + Default + TernaryDefault>(
    before: TernaryArray<T>,
    after: TernaryArray<T>,
    idx: i32,
    value: T,
    j: i32,
)
    requires
        after@ == before@.insert(idx, value),
        after.min_index() == before.min_index(),
        after.max_index() == before.max_index(),
    ensures
        after.cell(j) == if j == idx {
            value
        } else {
            before.cell(j)
        },
        after.max_index() - after.min_index() == before.max_index() - before.min_index(),
{
}

/// Reaching a cell through `get_mut` without writing through the reference
/// changes what no cell reads: a never-written cell is filled with the
/// ternary zero it already read as.
pub proof fn law_get_mut_without_write<T: Clone + Default + TernaryDefault>(
    before: TernaryArray<T>,
    after: TernaryArray<T>,
    idx: i32,
    j: i32,
)
    requires
        after@ == before@.insert(idx, before.cell(idx)),
    ensures
        after.cell(j) == before.cell(j),
{
}

/// A fresh two-dimensional array reads the ternary zero everywhere.
pub proof fn law_fresh_array2d_reads_zero<T: Clone + Default + TernaryDefault>(
    arr: TernaryArray2D<T>,
    i: i32,
    j: i32,
)
    requires
        arr@ == Map::<(i32, i32), T>::empty(),
    ensures
        arr.cell(i, j) == T::spec_ternary_default(),
{
}

/// After `set(i, j, value)` the cell at `(i, j)` reads `value` and every
/// other cell reads what it read before.
pub proof fn law_set_then_read2d<T: Clone + Default + TernaryDefault>(
    before: TernaryArray2D<T>,
    after: TernaryArray2D<T>,
    i: i32,
    j: i32,
    value: T,
    x: i32,
    y: i32,
)
    requires
        after@ == before@.insert((i, j), value),
    ensures
        after.cell(x, y) == if (x, y) == (i, j) {
            value
        } else {
            before.cell(x, y)
        },
{
}

/// A fresh three-dimensional array reads the ternary zero everywhere.
pub proof fn law_fresh_array3d_reads_zero<T: Clone + Default + TernaryDefault>(
    arr: TernaryArray3D<T>,
    i: i32,
    j: i32,
    k: i32,
)
    requires
        arr@ == Map::<(i32, i32, i32), T>::empty(),
    ensures
        arr.cell(i, j, k) == T::spec_ternary_default(),
{
}

/// After `set(i, j, k, value)` the cell at `(i, j, k)` reads `value` and
/// every other cell reads what it read before.
pub proof fn law_set_then_read3d<T: Clone + Default + TernaryDefault>(
    before: TernaryArray3D<T>,
    after: TernaryArray3D<T>,
    i: i32,
    j: i32,
    k: i32,
    value: T,
    x: i32,
    y: i32,
    z: i32,
)
    requires
        after@ == before@.insert((i, j, k), value),
    ensures
        after.cell(x, y, z) == if (x, y, z) == (i, j, k) {
            value
        } else {
            before.cell(x, y, z)
        },
{
}

/// A fresh four-dimensional array reads the ternary zero everywhere.
pub proof fn law_fresh_array4d_reads_zero<T: Clone + Default + TernaryDefault>(
    arr: TernaryArray4D<T>,
    a: i32,
    b: i32,
    c: i32,
    d: i32,
)
    requires
        arr@ == Map::<(i32, i32, i32, i32), T>::empty(),
    ensures
        arr.cell(a, b, c, d) == T::spec_ternary_default(),
{
}

/// After `set(a, b, c, d, value)` the cell at `(a, b, c, d)` reads `value`
/// and every other cell reads what it read before.
pub proof fn law_set_then_read4d<T: Clone + Default + TernaryDefault>(
    before: TernaryArray4D<T>,
    after: TernaryArray4D<T>,
    a: i32,
    b: i32,
    c: i32,
    d: i32,
    value: T,
    w: i32,
    x: i32,
    y: i32,
    z: i32,
)
    requires
        after@ == before@.insert((a, b, c, d), value),
    ensures
        after.cell(w, x, y, z) == if (w, x, y, z) == (a, b, c, d) {
            value
        } else {
            before.cell(w, x, y, z)
        },
{
}

/// Nonary symbols by character code: a digit 0..=4 is written as its own
/// numeral, a digit −4..=−1 as the letter `W`, `X`, `Y` or `Z` counted back
/// from `Z` (so never as a numeral), and no two digits share a symbol.
pub proof fn law_nonary_symbols(d: int, e: int)
    requires
        -4 <= d <= 4,
        -4 <= e <= 4,
    ensures
        0 <= d ==> nonary_char(d) as int == '0' as int + d,
        d < 0 ==> nonary_char(d) as int == 'Z' as int + 1 + d,
        d < 0 ==> !('0' as int <= nonary_char(d) as int <= '9' as int),
        nonary_char(d) == nonary_char(e) ==> d == e,
{
}

/// Reading the nonary string of an entry back, symbol by symbol, gives the
/// entry's value.
pub proof fn law_nonary_string_reads_back(en: Entry, v: int)
    requires
        en.describes(v),
    ensures
        en.str_nonary@.len() == 3,
        nonary_string_value(en.str_nonary@) == v,
{
    let t = en.trits@;
    assert(en.nonary_digits@[0] == t[4].value() + 3 * t[5].value());
    assert(en.nonary_digits@[1] == t[2].value() + 3 * t[3].value());
    assert(en.nonary_digits@[2] == t[0].value() + 3 * t[1].value());
    assert(en.str_nonary@[0] == nonary_char(en.nonary_digits@[0] as int));
    assert(en.str_nonary@[1] == nonary_char(en.nonary_digits@[1] as int));
    assert(en.str_nonary@[2] == nonary_char(en.nonary_digits@[2] as int));
    reveal_with_fuel(pow3, 6);
    assert(pow3(0) == 1 && pow3(1) == 3 && pow3(2) == 9 && pow3(3) == 27 && pow3(4) == 81 && pow3(5)
        == 243);
    assert(t.len() == 6);
    assert(trits_value(t.take(0)) == 0) by {
        assert(t.take(0) =~= Seq::<Trit>::empty());
    }
    lemma_value_take_step(t, 0);
    lemma_value_take_step(t, 1);
    lemma_value_take_step(t, 2);
    lemma_value_take_step(t, 3);
    lemma_value_take_step(t, 4);
    lemma_value_take_step(t, 5);
    assert(t.take(6) =~= t);
    assert(trits_value(t) == t[0].value() + 3 * t[1].value() + 9 * t[2].value() + 27 * t[
        3].value() + 81 * t[4].value() + 243 * t[5].value());
}

/// Distinct table values have distinct nonary strings.
pub proof fn law_nonary_strings_distinct(e1: Entry, v1: int, e2: Entry, v2: int)
    requires
        e1.describes(v1),
        e2.describes(v2),
        v1 != v2,
    ensures
        e1.str_nonary@ != e2.str_nonary@,
{
    law_nonary_string_reads_back(e1, v1);
    law_nonary_string_reads_back(e2, v2);
}

/// A digit below 16 is written as a numeral or an upper-case letter, and
/// reading the symbol back gives the digit.
pub proof fn law_digit_symbols(d: nat)
    requires
        d < 16,
    ensures
        is_radix_symbol(digit_char(d)),
        digit_symbol_value(digit_char(d)) == d,
        d < 10 ==> digit_char(d) as int == '0' as int + d,
{
}

/// The radix-`b` digits of `n` read back as `n`; they are numerals or
/// upper-case letters, and only zero starts with `0`.
pub proof fn law_radix_digits_read_back(n: nat, b: nat)
    requires
        2 <= b <= 16,
    ensures
        radix_string_value(radix_digits(n, b), b as int) == n,
        radix_digits(n, b).len() >= 1,
        forall|j: int| 0 <= j < radix_digits(n, b).len() ==> is_radix_symbol(
            #[trigger] radix_digits(n, b)[j],
        ),
        radix_digits(n, b)[0] == '0' ==> n == 0,
    decreases n,
{
    if n < b {
        law_digit_symbols(n);
        let one = seq![digit_char(n)];
        assert(one.drop_last() =~= Seq::<char>::empty());
        assert(radix_string_value(Seq::<char>::empty(), b as int) == 0);
        assert(radix_string_value(one, b as int) == radix_string_value(one.drop_last(), b as int)
            * b + digit_symbol_value(one.last()));
        assert(0 * (b as int) == 0);
    } else {
        vstd::arithmetic::div_mod::lemma_div_decreases(n as int, b as int);
        vstd::arithmetic::div_mod::lemma_fundamental_div_mod(n as int, b as int);
        vstd::arithmetic::div_mod::lemma_mod_bound(n as int, b as int);
        law_radix_digits_read_back(n / b, b);
        law_digit_symbols(n % b);
        let p = radix_digits(n / b, b);
        assert(radix_digits(n, b) == p.push(digit_char(n % b)));
        assert(p.push(digit_char(n % b)).drop_last() =~= p);
        assert((n / b) * b == b * (n / b)) by (nonlinear_arith);
        assert(n / b >= 1) by {
            vstd::arithmetic::div_mod::lemma_div_is_ordered(b as int, n as int, b as int);
            vstd::arithmetic::div_mod::lemma_div_by_self(b as int);
        }
    }
}

/// Every number string of an entry reads back as the number it renders:
/// the magnitude in bases 2, 10 and 16, the 32-bit two's-complement pattern
/// in bases 2 and 16, the signed decimal with a leading `-` exactly for
/// negative values; and the trit letters read back as the value.
pub proof fn law_entry_strings_read_back(en: Entry, v: int)
    requires
        en.describes(v),
        -364 <= v <= 364,
    ensures
        radix_string_value(en.str_abs_binary@, 2) == magnitude(v),
        radix_string_value(en.str_abs_decimal@, 10) == magnitude(v),
        radix_string_value(en.str_abs_hex@, 16) == magnitude(v),
        radix_string_value(en.str_signed_binary@, 2) == twos_complement32(v),
        radix_string_value(en.str_signed_hex@, 16) == twos_complement32(v),
        v < 0 ==> en.str_signed_decimal@[0] == '-' && -radix_string_value(
            en.str_signed_decimal@.drop_first(),
            10,
        ) == v,
        v >= 0 ==> en.str_signed_decimal@[0] != '-' && radix_string_value(
            en.str_signed_decimal@,
            10,
        ) == v,
        en.str_trits@.len() == 6,
        trit_string_value(en.str_trits@) == v,
        forall|j: int|
            0 <= j < 6 ==> (#[trigger] en.str_trits@[j] == 'P' || en.str_trits@[j] == 'N'
                || en.str_trits@[j] == 'Z'),
{
    law_radix_digits_read_back(magnitude(v), 2);
    law_radix_digits_read_back(magnitude(v), 10);
    law_radix_digits_read_back(magnitude(v), 16);
    law_radix_digits_read_back(twos_complement32(v), 2);
    law_radix_digits_read_back(twos_complement32(v), 16);
    if v < 0 {
        assert((seq!['-'] + radix_digits(magnitude(v), 10)).drop_first() =~= radix_digits(
            magnitude(v),
            10,
        ));
    } else {
        assert(is_radix_symbol(radix_digits(magnitude(v), 10)[0]));
    }
    let t = en.trits@;
    let s = en.str_trits@;
    assert forall|j: int| 0 <= j < 6 implies trit_symbol_value(#[trigger] s[j]) == t[j].value() by {
        assert(s[j] == trit_char(t[j]));
    }
    assert forall|k: int| 0 <= k <= 6 implies trit_string_value(#[trigger] s.take(k))
        == trits_value(t.take(k)) by {
        lemma_trit_prefix(s, t, k);
    }
    assert(s.take(6) =~= s);
    assert(t.take(6) =~= t);
}

proof fn lemma_trit_prefix(s: Seq<char>, t: Seq<Trit>, k: int)
    requires
        s.len() == 6,
        t.len() == 6,
        0 <= k <= 6,
        forall|j: int| 0 <= j < 6 ==> trit_symbol_value(#[trigger] s[j]) == t[j].value(),
    ensures
        trit_string_value(s.take(k)) == trits_value(t.take(k)),
    decreases k,
{
    if k > 0 {
        lemma_trit_prefix(s, t, k - 1);
        assert(s.take(k).drop_last() =~= s.take(k - 1));
        lemma_value_take_step(t, k - 1);
    }
}

} // verus!
