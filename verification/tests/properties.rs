use analemma::dword::DWord;
use analemma::table;
use analemma::ternary_array::{TernaryArray, TernaryArray3D, TernaryArray4D, TernaryDefault};
use analemma::trit::Trit;
use analemma::tryte::Tryte;
use analemma::tryte_table;
use analemma::word::Word;

const T6: i64 = 729;
const T18: i128 = 387_420_489;

fn bal(v: i128, m: i128) -> i128 {
    let r = v.rem_euclid(m);
    if r > (m - 1) / 2 { r - m } else { r }
}

fn trits_of(v: i64, n: usize) -> Vec<i8> {
    let mut out = Vec::new();
    let mut x = v;
    for _ in 0..n {
        let r = x.rem_euclid(3);
        let t = if r == 2 { -1 } else { r };
        out.push(t as i8);
        x = (x - t) / 3;
    }
    out
}

#[test]
fn trit_from_i8_rejects_out_of_range() {
    assert_eq!(Trit::from_i8(-1), Some(Trit::N));
    assert_eq!(Trit::from_i8(0), Some(Trit::Z));
    assert_eq!(Trit::from_i8(1), Some(Trit::P));
    assert_eq!(Trit::from_i8(2), None);
    assert_eq!(Trit::from_i8(-2), None);
    assert_eq!(Trit::from_i8(i8::MIN), None);
}

#[test]
fn trit_full_adder_identity_for_all_inputs() {
    let all = [Trit::N, Trit::Z, Trit::P];
    for a in all {
        for b in all {
            for c in all {
                let (s, carry) = a.add(b, c);
                assert_eq!(a.to_i8() + b.to_i8() + c.to_i8(), s.to_i8() + 3 * carry.to_i8());
            }
            assert_eq!(a.mul(b).to_i8(), a.to_i8() * b.to_i8());
        }
        assert_eq!(a.neg().to_i8(), -a.to_i8());
        assert_eq!(a.neg().neg(), a);
    }
}

#[test]
fn trit_default_is_n() {
    assert_eq!(Trit::default(), Trit::N);
    assert_eq!(Trit::ternary_default(), Trit::Z);
}

#[test]
fn tryte_every_value_in_range_roundtrips() {
    for v in -364i16..=364 {
        let t = Tryte::from_i16(v);
        assert_eq!(t.to_i16(), v);
        let digits: Vec<i8> = t.trits.iter().map(|x| x.to_i8()).collect();
        assert_eq!(digits, trits_of(v as i64, 6));
        // the value determines the trits
        let back = Tryte::from_i16(t.to_i16());
        assert_eq!(back.trits, t.trits);
    }
}

#[test]
fn tryte_out_of_range_wraps_modulo_729() {
    for v in [365i16, -365, 729, 1000, -1000, i16::MAX, i16::MIN, i16::MIN + 1] {
        assert_eq!(Tryte::from_i16(v).to_i16() as i64, bal(v as i128, T6 as i128) as i64, "{}", v);
    }
    assert_eq!(Tryte::from_i16(365).to_i16(), -364);
}

#[test]
fn tryte_add_carry_identity_and_inverse() {
    for a in (-364i16..=364).step_by(7) {
        for b in (-364i16..=364).step_by(11) {
            let ta = Tryte::from_i16(a);
            let tb = Tryte::from_i16(b);
            let (s, c) = ta.add(&tb);
            assert_eq!(a as i64 + b as i64, s.to_i16() as i64 + T6 * c.to_i8() as i64);
            assert_eq!(s.to_i16() as i128, bal(a as i128 + b as i128, T6 as i128));
            let (d, c2) = ta.sub(&tb);
            assert_eq!(a as i64 - b as i64, d.to_i16() as i64 + T6 * c2.to_i8() as i64);
            // (a + b) - b == a
            let (back, _) = s.sub(&tb);
            assert_eq!(back.to_i16(), a);
        }
    }
}

#[test]
fn tryte_sat_is_tritwise_sum_modulo_3() {
    let all = [Trit::N, Trit::Z, Trit::P];
    for a in all {
        for b in all {
            let mut x = Tryte::zero();
            let mut y = Tryte::zero();
            x.trits[3] = a;
            y.trits[3] = b;
            let r = x.sat(&y);
            let sum = a.to_i8() as i128 + b.to_i8() as i128;
            assert_eq!(r.trits[3].to_i8() as i128, bal(sum, 3));
            assert_eq!(r.trits[0], Trit::Z);
        }
    }
    let p = Tryte::from_i16(1);
    assert_eq!(p.sat(&p).to_i16(), -1);
    let n = Tryte::from_i16(-1);
    assert_eq!(n.sat(&n).to_i16(), 1);
    assert_eq!(p.sat(&n).to_i16(), 0);
}

#[test]
fn tryte_smt_is_tritwise_product() {
    let a = Tryte::from_i16(-159); // Z P Z Z P N
    let b = Tryte::from_i16(13); // P P P Z Z Z
    let r = a.smt(&b);
    let got: Vec<i8> = r.trits.iter().map(|t| t.to_i8()).collect();
    assert_eq!(got, vec![0, 1, 0, 0, 0, 0]);
}

#[test]
fn tryte_shifts_scale_and_drop() {
    let t = Tryte::from_i16(13);
    assert_eq!(t.shl(1).to_i16(), 39);
    assert_eq!(t.shl(6).to_i16(), 0);
    assert_eq!(t.shl(9).to_i16(), 0);
    assert_eq!(Tryte::from_i16(100).shl(2).to_i16() as i128, bal(900, 729));
    assert_eq!(Tryte::from_i16(39).shr(1).to_i16(), 13);
    assert_eq!(Tryte::from_i16(-13).shr(1).to_i16(), -4);
    assert_eq!(Tryte::from_i16(200).shr(6).to_i16(), 0);
    // shift toward the senior end and back keeps a value whose senior trits are zero
    let u = Tryte::from_i16(-8);
    assert_eq!(u.shl(3).shr(3).trits, u.trits);
}

#[test]
fn tryte_abs_parity_and_top() {
    for v in -364i16..=364 {
        let t = Tryte::from_i16(v);
        assert_eq!(t.abs().to_i16(), v.abs());
        assert_eq!(t.is_even(), v % 2 == 0);
        let top = t.top_nonzero();
        if v == 0 {
            assert_eq!(top, -1);
        } else {
            let s = t.trits[top as usize];
            assert_eq!(s == Trit::P, v > 0);
            assert!(t.trits[(top as usize + 1)..].iter().all(|x| *x == Trit::Z));
        }
    }
}

#[test]
fn tryte_slice_moves_trits_down() {
    let t = Tryte::from_i16(-159); // Z P Z Z P N
    let s = t.slice(1, 4);
    let got: Vec<i8> = s.trits.iter().map(|x| x.to_i8()).collect();
    assert_eq!(got, vec![1, 0, 0, 1, 0, 0]);
    let whole = t.slice(0, 5);
    assert_eq!(whole.trits, t.trits);
    assert_eq!(Tryte::default().trits, Tryte::zero().trits);
}

#[test]
fn word_conversions_and_wrap() {
    let h: i64 = 193_710_244;
    for v in [h, -h, 0, 1, -1, 123_456_789, -98_765_432] {
        assert_eq!(Word::from_i64(v).to_i64(), v);
    }
    for v in [h + 1, -h - 1, i64::MAX, i64::MIN, 1i64 << 40] {
        assert_eq!(Word::from_i64(v).to_i64() as i128, bal(v as i128, T18), "{}", v);
    }
}

#[test]
fn word_mul_keeps_the_whole_product() {
    let h: i64 = 193_710_244;
    for (a, b) in [(10i64, 20i64), (h, h), (-h, h), (h, 2), (12345, -6789), (-1, -1), (0, h)] {
        let (lo, hi) = Word::from_i64(a).mul(&Word::from_i64(b));
        let prod = a as i128 * b as i128;
        assert_eq!(lo.to_i64() as i128 + hi.to_i64() as i128 * T18, prod, "{} * {}", a, b);
        assert_eq!(lo.to_i64() as i128, bal(prod, T18));
    }
    // a product just below 3^18: low is the balanced −1, high carries 1
    let (lo, hi) = Word::from_i64(h).mul(&Word::from_i64(2));
    assert_eq!(lo.to_i64(), -1);
    assert_eq!(hi.to_i64(), 1);
}

#[test]
fn word_mul_acc_formula() {
    let h: i64 = 193_710_244;
    for (s, o, r) in [(5i64, 7i64, 3i64), (h, h, h), (-h, h, -h), (100, -2000, 30000)] {
        let (lo, hi) = Word::from_i64(s).mul_acc(&Word::from_i64(o), &Word::from_i64(r));
        let total = o as i128 * r as i128 * 9 + s as i128;
        let low = bal(total, T18);
        assert_eq!(lo.to_i64() as i128, low);
        assert_eq!(hi.to_i64() as i128, bal((total - low) / T18, T18));
    }
    let (lo, hi) = Word::from_i64(5).mul_acc(&Word::from_i64(7), &Word::from_i64(3));
    assert_eq!((lo.to_i64(), hi.to_i64()), (194, 0));
}

#[test]
fn word_tryte_assembly_value() {
    let low = Tryte::from_i16(100);
    let mid = Tryte::from_i16(-50);
    let high = Tryte::from_i16(200);
    let w = Word::from_trytes(&low, &mid, &high);
    assert_eq!(w.to_i64(), 100 - 50 * 729 + 200 * 729 * 729);
    let (l, m, h) = w.to_trytes();
    assert_eq!((l.trits, m.trits, h.trits), (low.trits, mid.trits, high.trits));
}

#[test]
fn word_neg_abs_set_slice() {
    let w = Word::from_i64(-123_456);
    assert_eq!(w.neg().to_i64(), 123_456);
    assert_eq!(w.neg().neg().trits, w.trits);
    assert_eq!(w.abs().to_i64(), 123_456);
    let mut x = Word::zero();
    x.set_slice(3, 5, &Word::from_i64(13)); // P P P into places 3..=5
    assert_eq!(x.to_i64(), 13 * 27);
    assert_eq!(x.slice(3, 5).to_i64(), 13);
    let mut y = Word::from_i64(1);
    y.set_slice(17, 17, &Word::from_i64(-1));
    assert_eq!(y.to_i64(), 1 - 3i64.pow(17));
    assert_eq!(y.top_nonzero(), 17);
    assert_eq!(Word::default().trits, Word::zero().trits);
}

#[test]
fn word_shifts() {
    let w = Word::from_i64(5);
    assert_eq!(w.shl(2).to_i64(), 45);
    assert_eq!(w.shl(18).to_i64(), 0);
    assert_eq!(Word::from_i64(45).shr(2).to_i64(), 5);
    assert_eq!(Word::from_i64(46).shr(2).to_i64(), 5);
    assert_eq!(Word::from_i64(44).shr(18).to_i64(), 0);
}

#[test]
fn dword_parity_zero_and_sign() {
    for v in [0i128, 1, -1, 2, 3i128.pow(18), 3i128.pow(18) + 1, -(3i128.pow(30)) - 7] {
        let d = DWord::from_i128(v);
        assert_eq!(d.is_even(), v % 2 == 0, "{}", v);
        assert_eq!(d.is_zero(), v == 0);
        let top = d.top_nonzero();
        if v != 0 {
            let t = if top >= 18 { d.hi.trits[top as usize - 18] } else { d.lo.trits[top as usize] };
            assert_eq!(t == Trit::P, v > 0);
        } else {
            assert_eq!(top, -1);
        }
    }
    assert_eq!(DWord::from_i128(-5).top_trit(), Trit::Z);
    assert_eq!(DWord::from_i128(-(3i128.pow(35))).top_trit(), Trit::N);
}

#[test]
fn dword_wrap_and_extremes() {
    let m = 3i128.pow(36);
    for v in [(m - 1) / 2 + 1, -(m - 1) / 2 - 1, i128::MAX, i128::MIN, m * 5 + 17] {
        assert_eq!(DWord::from_i128(v).to_i128(), bal(v, m), "{}", v);
    }
    let d = DWord::from_i128(-42);
    assert_eq!(d.neg().to_i128(), 42);
    let (s, c) = DWord::from_i128((m - 1) / 2).add(&DWord::from_i128(1));
    assert_eq!(s.to_i128(), -(m - 1) / 2);
    assert_eq!(c, Trit::P);
}

#[test]
fn dword_normalize_edges() {
    let (x, i) = DWord::zero().normalize();
    assert_eq!(i, -34);
    assert!(x.is_zero());
    let (x, i) = DWord::from_i128(1).normalize();
    assert_eq!(i, -34);
    assert_eq!(x.to_i128(), 3i128.pow(34));
    let (x, i) = DWord::from_i128(3i128.pow(34)).normalize();
    assert_eq!(i, -1);
    assert_eq!(x.to_i128(), 3i128.pow(35));
    let (x, i) = DWord::from_i128(-(3i128.pow(35))).normalize();
    assert_eq!(i, 1);
    assert_eq!(x.to_i128(), -(3i128.pow(34)));
}

#[test]
fn ternary_array_cells() {
    let mut a: TernaryArray<Trit> = TernaryArray::new(-5, 5);
    assert_eq!(a.get(0), Trit::Z);
    assert_eq!(a.len(), 11);
    a.set(2, Trit::P);
    assert_eq!(a.get(2), Trit::P);
    assert_eq!(a.get(-2), Trit::Z);
    // a cell first reached through get_mut holds the ternary zero, not the
    // type's default, and reading it afterwards still gives the zero
    assert_eq!(*a.get_mut(4), Trit::Z);
    assert_eq!(a.get(4), Trit::Z);
    let mut fresh: TernaryArray<Trit> = TernaryArray::new(-1, 1);
    let _ = fresh.get_mut(0);
    assert_eq!(fresh.get(0), Trit::Z);
    *a.get_mut(-5) = Trit::P;
    assert_eq!(a.get(-5), Trit::P);
    assert_eq!(*a.get_mut(2), Trit::P);
    let w: TernaryArray<Word> = TernaryArray::new(0, 0);
    assert_eq!(w.get(0).to_i64(), 0);
}

#[test]
fn ternary_array_packed_keys_are_distinct() {
    let mut a: TernaryArray3D<Word> = TernaryArray3D::new(i32::MIN, i32::MAX, i32::MIN, i32::MAX, -1, 1);
    a.set(i32::MIN, i32::MAX, 0, Word::from_i64(1));
    a.set(i32::MAX, i32::MIN, 0, Word::from_i64(2));
    a.set(i32::MIN, i32::MAX, 1, Word::from_i64(3));
    assert_eq!(a.get(i32::MIN, i32::MAX, 0).to_i64(), 1);
    assert_eq!(a.get(i32::MAX, i32::MIN, 0).to_i64(), 2);
    assert_eq!(a.get(i32::MIN, i32::MAX, 1).to_i64(), 3);
    assert_eq!(a.get(0, 0, 0).to_i64(), 0);
    let mut b: TernaryArray4D<Tryte> =
        TernaryArray4D::new(i32::MIN, i32::MAX, i32::MIN, i32::MAX, i32::MIN, i32::MAX, i32::MIN, i32::MAX);
    b.set(i32::MAX, i32::MAX, i32::MAX, i32::MAX, Tryte::from_i16(7));
    b.set(i32::MIN, i32::MIN, i32::MIN, i32::MIN, Tryte::from_i16(-7));
    b.get_mut(-1, 0, 1, 2).trits[0] = Trit::P;
    assert_eq!(b.get(i32::MAX, i32::MAX, i32::MAX, i32::MAX).to_i16(), 7);
    assert_eq!(b.get(i32::MIN, i32::MIN, i32::MIN, i32::MIN).to_i16(), -7);
    assert_eq!(b.get(-1, 0, 1, 2).to_i16(), 1);
    assert_eq!(b.get(2, 1, 0, -1).to_i16(), 0);
}

#[test]
fn table_entries_are_consistent() {
    let all = table::entries();
    for (i, e) in all.iter().enumerate() {
        let v = i as i32 - table::OFFSET;
        assert_eq!(e.value, v);
        let digits: Vec<i8> = e.trits.iter().map(|x| x.to_i8()).collect();
        assert_eq!(digits, trits_of(v as i64, 6));
        let nonary = e.nonary_digits[0] as i32 * 81 + e.nonary_digits[1] as i32 * 9 + e.nonary_digits[2] as i32;
        assert_eq!(nonary, v);
        assert_eq!(e.str_signed_decimal, format!("{}", v));
        assert_eq!(e.str_abs_decimal, format!("{}", v.unsigned_abs()));
        assert_eq!(e.str_abs_binary, format!("{:b}", v.unsigned_abs()));
        assert_eq!(e.str_signed_binary, format!("{:b}", v));
        assert_eq!(e.str_abs_hex, format!("{:X}", v.unsigned_abs()));
        assert_eq!(e.str_signed_hex, format!("{:X}", v));
        assert_eq!(e.is_even, v % 2 == 0);
        assert_eq!(table::entry_by_trits(&e.trits).unwrap().value, v);
    }
}

#[test]
fn table_edge_entries() {
    let z = table::entry_by_value(0).unwrap();
    assert_eq!(z.str_trits, "ZZZZZZ");
    assert_eq!(z.str_nonary, "000");
    assert_eq!(z.str_abs_binary, "0");
    assert_eq!(z.str_signed_hex, "0");
    let top = table::entry_by_value(364).unwrap();
    assert_eq!(top.str_trits, "PPPPPP");
    assert_eq!(top.str_nonary, "444");
    assert_eq!(top.str_signed_hex, "16C");
    let bottom = table::entry_by_value(-364).unwrap();
    assert_eq!(bottom.str_nonary, "WWW");
    assert_eq!(bottom.str_signed_decimal, "-364");
    let p = table::entry_by_value(159).unwrap();
    assert_eq!(p.str_signed_hex, "9F");
    assert_eq!(p.str_nonary, "20X");
    assert!(table::entry_by_value(i32::MIN).is_none());
    assert!(table::entry_by_value(i32::MAX).is_none());
}

#[test]
fn tryte_table_names() {
    assert_eq!(tryte_table::ISA_NAME, "none");
    assert_eq!(tryte_table::TRYTE_TABLE_SIZE, 729);
    assert_eq!(tryte_table::TRYTE_OFFSET, 364);
    let e: tryte_table::TryteEntry = tryte_table::tryte_entry_by_value(13).unwrap();
    assert_eq!(tryte_table::tryte_entry_by_trits(&e.trits).unwrap().value, 13);
    assert_eq!(tryte_table::tryte_table().len(), 729);
}
