//! The numeric substitution table of the configured word width (six trits,
//! the tryte): for every value in range, its balanced trits, balanced nonary
//! digits, sign and parity facts, and the rendered strings that serve as the
//! primary debugging instrument.

use vstd::arithmetic::div_mod::{lemma_div_decreases, lemma_small_mod};
use vstd::prelude::*;

use crate::balanced::{
    in_trit_range, lemma_bal_mod_unique, pow3, lemma_trits_unique, lemma_value_range, trits_value,
};
use crate::digits::{lemma_pow3_values, trits_to_int};
use crate::trit::Trit;
use crate::tryte::Tryte;

verus! {

/// Trits per table entry.
pub const TRITS: usize = 6;

/// Number of entries: 3^TRITS.
pub const TABLE_SIZE: usize = 729;

/// Largest value in range; the smallest is `-OFFSET`.
pub const OFFSET: i32 = 364;

/// Balanced nonary digits per entry: ceil(TRITS / 2).
pub const NONARY_DIGITS: usize = 3;

/// At this width the whole table is listed at once (see [`entries`]).
pub const HAS_STATIC_TABLE: bool = true;

/// One row of the table.
#[derive(Clone, Debug)]
pub struct Entry {
    pub value: i32,
    /// Balanced trits, least significant first.
    pub trits: [Trit; TRITS],
    /// Balanced nonary digits (each in −4..=4), most significant first.
    pub nonary_digits: [i8; NONARY_DIGITS],
    /// Index of the most significant nonzero trit, −1 for zero.
    pub top_nonzero: i8,
    pub is_even: bool,
    /// The value as a 32-bit signed integer.
    pub signed_binary: i32,
    /// The magnitude of the value.
    pub abs_binary: u32,
    /// `N`/`Z`/`P` per trit, least significant first.
    pub str_trits: String,
    /// Nonary digits most significant first: `W X Y Z` for −4..−1, `0`..`4`.
    pub str_nonary: String,
    pub str_abs_binary: String,
    /// 32-bit two's complement for negative values.
    pub str_signed_binary: String,
    pub str_abs_decimal: String,
    pub str_signed_decimal: String,
    /// Upper-case hexadecimal of the magnitude.
    pub str_abs_hex: String,
    /// Upper-case hexadecimal, 32-bit two's complement for negative values.
    pub str_signed_hex: String,
}

/// The letter of a trit.
pub open spec fn trit_char(t: Trit) -> char {
    match t {
        Trit::N => 'N',
        Trit::Z => 'Z',
        Trit::P => 'P',
    }
}

/// The symbol of a balanced nonary digit.
pub open spec fn nonary_char(d: int) -> char {
    if d == -4 {
        'W'
    } else if d == -3 {
        'X'
    } else if d == -2 {
        'Y'
    } else if d == -1 {
        'Z'
    } else if d == 0 {
        '0'
    } else if d == 1 {
        '1'
    } else if d == 2 {
        '2'
    } else if d == 3 {
        '3'
    } else {
        '4'
    }
}

/// The symbol of a digit 0..=15, upper case.
pub open spec fn digit_char(d: nat) -> char {
    if d == 0 {
        '0'
    } else if d == 1 {
        '1'
    } else if d == 2 {
        '2'
    } else if d == 3 {
        '3'
    } else if d == 4 {
        '4'
    } else if d == 5 {
        '5'
    } else if d == 6 {
        '6'
    } else if d == 7 {
        '7'
    } else if d == 8 {
        '8'
    } else if d == 9 {
        '9'
    } else if d == 10 {
        'A'
    } else if d == 11 {
        'B'
    } else if d == 12 {
        'C'
    } else if d == 13 {
        'D'
    } else if d == 14 {
        'E'
    } else {
        'F'
    }
}

/// The digits of `n` in base `b`, most significant first, without leading
/// zeros (zero is `"0"`).
pub open spec fn radix_digits(n: nat, b: nat) -> Seq<char>
    decreases n,
{
    if b < 2 || n < b {
        seq![digit_char(n)]
    } else {
        proof {
            lemma_div_decreases(n as int, b as int);
        }
        radix_digits(n / b, b).push(digit_char(n % b))
    }
}

/// |v|.
pub open spec fn magnitude(v: int) -> nat {
    if v < 0 {
        (-v) as nat
    } else {
        v as nat
    }
}

/// The 32-bit two's-complement pattern of `v`, as an unsigned number.
pub open spec fn twos_complement32(v: int) -> nat {
    if v < 0 {
        (v + 0x1_0000_0000) as nat
    } else {
        v as nat
    }
}

/// The balanced nonary digit made of trits `2k` and `2k + 1`.
pub open spec fn nonary_digit(trits: Seq<Trit>, k: int) -> int {
    trits[2 * k].value() + 3 * trits[2 * k + 1].value()
}

/// The digit a nonary symbol is read as, by character code: a numeral
/// stands for itself, and the letters before and up to `Z` count down from
/// −1 (`Z` is −1, `Y` −2, `X` −3, `W` −4).
pub open spec fn nonary_symbol_value(c: char) -> int {
    if '0' as int <= c as int <= '9' as int {
        c as int - '0' as int
    } else {
        c as int - 'Z' as int - 1
    }
}

/// The value a string of three nonary symbols is read as, most
/// significant first.
pub open spec fn nonary_string_value(s: Seq<char>) -> int {
    81 * nonary_symbol_value(s[0]) + 9 * nonary_symbol_value(s[1]) + nonary_symbol_value(s[2])
}

/// The digit a radix symbol is read as, by character code: a numeral
/// stands for itself, an upper-case letter `A`.. for 10 onward.
pub open spec fn digit_symbol_value(c: char) -> int {
    if '0' as int <= c as int <= '9' as int {
        c as int - '0' as int
    } else {
        c as int - 'A' as int + 10
    }
}

/// Whether a character is a symbol of the radix strings: a numeral or an
/// upper-case letter `A`..=`F`.
pub open spec fn is_radix_symbol(c: char) -> bool {
    ||| '0' as int <= c as int <= '9' as int
    ||| 'A' as int <= c as int <= 'F' as int
}

/// The number a string of radix-`b` symbols is read as, most significant
/// first.
pub open spec fn radix_string_value(s: Seq<char>, b: int) -> int
    decreases s.len(),
{
    if s.len() == 0 {
        0
    } else {
        radix_string_value(s.drop_last(), b) * b + digit_symbol_value(s.last())
    }
}

/// The value a trit letter is read as: `P` is +1, `N` is −1, `Z` is 0.
pub open spec fn trit_symbol_value(c: char) -> int {
    if c == 'P' {
        1
    } else if c == 'N' {
        -1
    } else {
        0
    }
}

/// The value a string of trit letters is read as, least significant first.
pub open spec fn trit_string_value(s: Seq<char>) -> int
    decreases s.len(),
{
    if s.len() == 0 {
        0
    } else {
        trit_string_value(s.drop_last()) + trit_symbol_value(s.last()) * pow3(
            (s.len() - 1) as nat,
        )
    }
}

impl Entry {
    /// Every field of the entry is the one the table holds for `v`.
    pub open spec fn describes(&self, v: int) -> bool {
        &&& self.value == v
        &&& self.signed_binary == v
        &&& self.abs_binary == magnitude(v)
        &&& trits_value(self.trits@) == v
        &&& forall|j: int|
            0 <= j < 3 ==> #[trigger] self.nonary_digits@[j] == nonary_digit(self.trits@, 2 - j)
        &&& -1 <= self.top_nonzero < 6
        &&& (self.top_nonzero == -1 <==> v == 0)
        &&& self.top_nonzero >= 0 ==> self.trits@[self.top_nonzero as int] != Trit::Z
        &&& forall|j: int| self.top_nonzero < j < 6 ==> self.trits@[j] == Trit::Z
        &&& self.is_even == (v % 2 == 0)
        &&& self.str_trits@ == Seq::new(6, |j: int| trit_char(self.trits@[j]))
        &&& self.str_nonary@ == Seq::new(3, |j: int| nonary_char(self.nonary_digits@[j] as int))
        &&& self.str_abs_binary@ == radix_digits(magnitude(v), 2)
        &&& self.str_signed_binary@ == radix_digits(twos_complement32(v), 2)
        &&& self.str_abs_decimal@ == radix_digits(magnitude(v), 10)
        &&& self.str_signed_decimal@ == if v < 0 {
            seq!['-'] + radix_digits(magnitude(v), 10)
        } else {
            radix_digits(magnitude(v), 10)
        }
        &&& self.str_abs_hex@ == radix_digits(magnitude(v), 16)
        &&& self.str_signed_hex@ == radix_digits(twos_complement32(v), 16)
    }
}

/// `String::push`: appends one character at the end of the string.
#[verifier::external_body]
fn push_char(s: &mut String, c: char)
    ensures
        final(s)@ == old(s)@.push(c),
{
    s.push(c)
}

fn trit_symbol(t: Trit) -> (c: char)
    ensures
        c == trit_char(t),
{
    match t {
        Trit::N => 'N',
        Trit::Z => 'Z',
        Trit::P => 'P',
    }
}

fn nonary_symbol(d: i8) -> (c: char)
    ensures
        c == nonary_char(d as int),
{
    match d {
        -4 => 'W',
        -3 => 'X',
        -2 => 'Y',
        -1 => 'Z',
        0 => '0',
        1 => '1',
        2 => '2',
        3 => '3',
        _ => '4',
    }
}

fn digit_symbol(d: u32) -> (c: char)
    ensures
        c == digit_char(d as nat),
{
    match d {
        0 => '0',
        1 => '1',
        2 => '2',
        3 => '3',
        4 => '4',
        5 => '5',
        6 => '6',
        7 => '7',
        8 => '8',
        9 => '9',
        10 => 'A',
        11 => 'B',
        12 => 'C',
        13 => 'D',
        14 => 'E',
        _ => 'F',
    }
}

/// Appends the base-`b` digits of `n`.
fn push_radix(s: &mut String, n: u32, b: u32)
    requires
        2 <= b <= 16,
    ensures
        final(s)@ == old(s)@ + radix_digits(n as nat, b as nat),
    decreases n,
{
    if n >= b {
        proof {
            lemma_div_decreases(n as int, b as int);
        }
        push_radix(s, n / b, b);
    }
    push_char(s, digit_symbol(n % b));
    proof {
        if n < b {
            lemma_small_mod(n as nat, b as nat);
        }
    }
}

fn radix_string(n: u32, b: u32) -> (s: String)
    requires
        2 <= b <= 16,
    ensures
        s@ == radix_digits(n as nat, b as nat),
{
    let mut s = String::new();
    push_radix(&mut s, n, b);
    proof {
        assert(Seq::<char>::empty() + radix_digits(n as nat, b as nat) =~= radix_digits(
            n as nat,
            b as nat,
        ));
    }
    s
}

/// The entry of a value in range.
fn make_entry(v: i16) -> (e: Entry)
    requires
        -364 <= v <= 364,
    ensures
        e.describes(v as int),
{
    let t = Tryte::from_i16(v);
    proof {
        lemma_pow3_values();
        assert(in_trit_range(v as int, 6));
        lemma_bal_mod_unique(v as int, v as int, 0, 6);
    }
    let top_nonzero = t.top_nonzero();
    let is_even = t.is_even();
    let mut nonary_digits: [i8; NONARY_DIGITS] = [0, 0, 0];
    for j in 0..NONARY_DIGITS
        invariant
            t.trits@.len() == 6,
            forall|m: int| 0 <= m < j ==> #[trigger] nonary_digits@[m] == nonary_digit(t.trits@, 2 - m),
    {
        let k = 2 - j;
        nonary_digits[j] = t.trits[2 * k].to_i8() + 3 * t.trits[2 * k + 1].to_i8();
    }
    let mut str_trits = String::new();
    for j in 0..TRITS
        invariant
            t.trits@.len() == 6,
            str_trits@ == Seq::new(j as nat, |m: int| trit_char(t.trits@[m])),
    {
        push_char(&mut str_trits, trit_symbol(t.trits[j]));
        proof {
            assert(str_trits@ =~= Seq::new((j + 1) as nat, |m: int| trit_char(t.trits@[m])));
        }
    }
    let mut str_nonary = String::new();
    for j in 0..NONARY_DIGITS
        invariant
            str_nonary@ == Seq::new(j as nat, |m: int| nonary_char(nonary_digits@[m] as int)),
    {
        push_char(&mut str_nonary, nonary_symbol(nonary_digits[j]));
        proof {
            assert(str_nonary@ =~= Seq::new(
                (j + 1) as nat,
                |m: int| nonary_char(nonary_digits@[m] as int),
            ));
        }
    }
    let abs_binary: u32 = if v < 0 {
        (-v) as u32
    } else {
        v as u32
    };
    let twos: u32 = if v < 0 {
        (v as i64 + 0x1_0000_0000) as u32
    } else {
        v as u32
    };
    let str_abs_decimal = radix_string(abs_binary, 10);
    let mut str_signed_decimal = String::new();
    if v < 0 {
        push_char(&mut str_signed_decimal, '-');
    }
    push_radix(&mut str_signed_decimal, abs_binary, 10);
    proof {
        if v >= 0 {
            assert(Seq::<char>::empty() + radix_digits(abs_binary as nat, 10) =~= radix_digits(
                abs_binary as nat,
                10,
            ));
        }
    }
    Entry {
        value: v as i32,
        trits: t.trits,
        nonary_digits,
        top_nonzero,
        is_even,
        signed_binary: v as i32,
        abs_binary,
        str_trits,
        str_nonary,
        str_abs_binary: radix_string(abs_binary, 2),
        str_signed_binary: radix_string(twos, 2),
        str_abs_decimal,
        str_signed_decimal,
        str_abs_hex: radix_string(abs_binary, 16),
        str_signed_hex: radix_string(twos, 16),
    }
}

/// The entry of `value`, if it lies in −OFFSET..=OFFSET.
pub fn entry_by_value(value: i32) -> (r: Option<Entry>)
    ensures
        r is Some <==> -OFFSET <= value <= OFFSET,
        r matches Some(e) ==> e.describes(value as int),
{
    if -OFFSET <= value && value <= OFFSET {
        Some(make_entry(value as i16))
    } else {
        None
    }
}

/// The entry whose trits are `trits`; every trit pattern of the width has
/// one.
pub fn entry_by_trits(trits: &[Trit; TRITS]) -> (r: Option<Entry>)
    ensures
        r is Some,
        r matches Some(e) ==> e.describes(trits_value(trits@)) && e.trits@ == trits@,
{
    proof {
        lemma_value_range(trits@);
        lemma_pow3_values();
    }
    let v = trits_to_int(trits) as i16;
    let e = make_entry(v);
    proof {
        lemma_trits_unique(e.trits@, trits@);
    }
    Some(e)
}

/// The whole table, ordered by value from −OFFSET to OFFSET.
pub fn entries() -> (r: Vec<Entry>)
    ensures
        r.len() == TABLE_SIZE,
        forall|i: int| 0 <= i < TABLE_SIZE ==> (#[trigger] r@[i]).describes(i - OFFSET),
{
    let mut r: Vec<Entry> = Vec::new();
    let mut v: i16 = -364;
    while v <= 364
        invariant
            -364 <= v <= 365,
            r.len() == v + 364,
            forall|i: int| 0 <= i < r.len() ==> (#[trigger] r@[i]).describes(i - OFFSET),
        decreases 365 - v,
    {
        r.push(make_entry(v));
        v = v + 1;
    }
    r
}

} // verus!
