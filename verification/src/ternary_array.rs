//! Sparse ternary arrays of one to four dimensions whose index bounds may
//! be negative. Cells never written read as the ternary zero, also when
//! they are first reached through `get_mut`.
//!
//! The cells live in a `HashMap` keyed by an integer: the index itself in
//! one dimension, and in more dimensions a packing of the indices into one
//! integer, each offset into `0..2^32`, that is proved injective.

use std::collections::HashMap;

use vstd::arithmetic::div_mod::lemma_fundamental_div_mod_converse;
use vstd::prelude::*;

use crate::trit::Trit;
use crate::tryte::Tryte;
use crate::word::Word;

verus! {

/// Type placeholder for uninitialized sparse cells: the ternary zero.
pub trait TernaryDefault: Sized {
    /// The ternary zero of the type.
    spec fn spec_ternary_default() -> Self;

    fn ternary_default() -> (r: Self)
        ensures
            r == Self::spec_ternary_default(),
    ;
}

impl TernaryDefault for Trit {
    open spec fn spec_ternary_default() -> Self {
        Trit::Z
    }

    fn ternary_default() -> (r: Self) {
        Trit::Z
    }
}

impl TernaryDefault for Tryte {
    open spec fn spec_ternary_default() -> Self {
        Tryte { trits: [Trit::Z, Trit::Z, Trit::Z, Trit::Z, Trit::Z, Trit::Z] }
    }

    fn ternary_default() -> (r: Self) {
        let r = Tryte::zero();
        proof {
            assert(r.trits =~= Self::spec_ternary_default().trits);
        }
        r
    }
}

impl TernaryDefault for Word {
    open spec fn spec_ternary_default() -> Self {
        Word {
            trits: [
                Trit::Z, Trit::Z, Trit::Z, Trit::Z, Trit::Z, Trit::Z,
                Trit::Z, Trit::Z, Trit::Z, Trit::Z, Trit::Z, Trit::Z,
                Trit::Z, Trit::Z, Trit::Z, Trit::Z, Trit::Z, Trit::Z,
            ],
        }
    }

    fn ternary_default() -> (r: Self) {
        let r = Word::zero();
        proof {
            assert(r.trits =~= Self::spec_ternary_default().trits);
        }
        r
    }
}

/// 2^32: the width of one packed index.
pub open spec fn index_span() -> int {
    4294967296
}

/// An `i32` index offset into `0..2^32`.
pub open spec fn offset_index(i: i32) -> int {
    i + 2147483648
}

pub open spec fn pack2(i: i32, j: i32) -> int {
    i * index_span() + offset_index(j)
}

pub open spec fn pack3(i: i32, j: i32, k: i32) -> int {
    pack2(i, j) * index_span() + offset_index(k)
}

pub open spec fn pack4(a: i32, b: i32, c: i32, d: i32) -> int {
    pack3(a, b, c) * index_span() + offset_index(d)
}

proof fn lemma_unpack(x1: int, y1: int, x2: int, y2: int)
    requires
        0 <= y1 < index_span(),
        0 <= y2 < index_span(),
        x1 * index_span() + y1 == x2 * index_span() + y2,
    ensures
        x1 == x2,
        y1 == y2,
{
    let v = x1 * index_span() + y1;
    lemma_fundamental_div_mod_converse(v, index_span(), x1, y1);
    lemma_fundamental_div_mod_converse(v, index_span(), x2, y2);
}

/// Packing two indices is injective.
pub proof fn lemma_pack2_injective(i1: i32, j1: i32, i2: i32, j2: i32)
    requires
        pack2(i1, j1) == pack2(i2, j2),
    ensures
        i1 == i2,
        j1 == j2,
{
    lemma_unpack(i1 as int, offset_index(j1), i2 as int, offset_index(j2));
}

/// Packing three indices is injective.
pub proof fn lemma_pack3_injective(i1: i32, j1: i32, k1: i32, i2: i32, j2: i32, k2: i32)
    requires
        pack3(i1, j1, k1) == pack3(i2, j2, k2),
    ensures
        i1 == i2,
        j1 == j2,
        k1 == k2,
{
    lemma_unpack(pack2(i1, j1), offset_index(k1), pack2(i2, j2), offset_index(k2));
    lemma_pack2_injective(i1, j1, i2, j2);
}

/// Packing four indices is injective.
pub proof fn lemma_pack4_injective(
    a1: i32,
    b1: i32,
    c1: i32,
    d1: i32,
    a2: i32,
    b2: i32,
    c2: i32,
    d2: i32,
)
    requires
        pack4(a1, b1, c1, d1) == pack4(a2, b2, c2, d2),
    ensures
        a1 == a2,
        b1 == b2,
        c1 == c2,
        d1 == d2,
{
    lemma_unpack(pack3(a1, b1, c1), offset_index(d1), pack3(a2, b2, c2), offset_index(d2));
    lemma_pack3_injective(a1, b1, c1, a2, b2, c2);
}

fn key2(i: i32, j: i32) -> (k: i64)
    ensures
        k == pack2(i, j),
{
    i as i64 * 4294967296 + (j as i64 + 2147483648)
}

fn key3(i: i32, j: i32, k: i32) -> (r: i128)
    ensures
        r == pack3(i, j, k),
{
    key2(i, j) as i128 * 4294967296 + (k as i128 + 2147483648)
}

fn key4(a: i32, b: i32, c: i32, d: i32) -> (r: i128)
    ensures
        r == pack4(a, b, c, d),
{
    let k3 = key3(a, b, c);
    assert(-39614081257132168796771975168 <= k3 < 39614081257132168796771975168);
    k3 * 4294967296 + (d as i128 + 2147483648)
}

/// Sparse one-dimensional ternary array with (possibly negative) index bounds.
#[derive(Clone, Debug)]
pub struct TernaryArray<T: Clone + Default + TernaryDefault> {
    data: HashMap<i32, T>,
    min_idx: i32,
    max_idx: i32,
}

impl<T: Clone + Default + TernaryDefault> View for TernaryArray<T> {
    type V = Map<i32, T>;

    /// The cells written so far.
    closed spec fn view(&self) -> Map<i32, T> {
        self.data@
    }
}

impl<T: Clone + Default + TernaryDefault> TernaryArray<T> {
    pub closed spec fn min_index(&self) -> i32 {
        self.min_idx
    }

    pub closed spec fn max_index(&self) -> i32 {
        self.max_idx
    }

    /// What the cell at `idx` holds: the value last written there, else the
    /// ternary zero.
    pub open spec fn cell(&self, idx: i32) -> T {
        if self@.contains_key(idx) {
            self@[idx]
        } else {
            T::spec_ternary_default()
        }
    }

    pub open spec fn in_bounds(&self, idx: i32) -> bool {
        self.min_index() <= idx <= self.max_index()
    }

    pub fn new(min_idx: i32, max_idx: i32) -> (r: Self)
        ensures
            r@ == Map::<i32, T>::empty(),
            r.min_index() == min_idx,
            r.max_index() == max_idx,
    {
        TernaryArray { data: HashMap::new(), min_idx, max_idx }
    }

    /// The cell at `idx`: a clone of what was written there, else the
    /// ternary zero.
    pub fn get(&self, idx: i32) -> (r: T)
        requires
            self.in_bounds(idx),
        ensures
            cloned(self.cell(idx), r),
            !self@.contains_key(idx) ==> r == T::spec_ternary_default(),
    {
        match self.data.get(&idx) {
            Some(v) => v.clone(),
            None => T::ternary_default(),
        }
    }

    /// A mutable reference to the cell at `idx`; a cell never written is
    /// first filled with the ternary zero.
    pub fn get_mut(&mut self, idx: i32) -> (r: &mut T)
        requires
            old(self).in_bounds(idx),
        ensures
            *r == old(self).cell(idx),
            final(self)@ == old(self)@.insert(idx, *final(r)),
            final(self).min_index() == old(self).min_index(),
            final(self).max_index() == old(self).max_index(),
    {
        self.data.entry(idx).or_insert(T::ternary_default())
    }

    pub fn set(&mut self, idx: i32, value: T)
        requires
            old(self).in_bounds(idx),
        ensures
            final(self)@ == old(self)@.insert(idx, value),
            final(self).min_index() == old(self).min_index(),
            final(self).max_index() == old(self).max_index(),
    {
        self.data.insert(idx, value);
    }

    /// The number of indices between the bounds, inclusive.
    pub fn len(&self) -> (r: usize)
        requires
            i32::MIN <= self.max_index() - self.min_index(),
            self.max_index() - self.min_index() + 1 <= i32::MAX,
        ensures
            r == #[verifier::truncate] ((self.max_index() - self.min_index() + 1) as usize),
    {
        #[verifier::truncate] ((self.max_idx - self.min_idx + 1) as usize)
    }
}

/// Sparse two-dimensional ternary array.
#[derive(Clone, Debug)]
pub struct TernaryArray2D<T: Clone + Default + TernaryDefault> {
    data: HashMap<i64, T>,
    min_i: i32,
    max_i: i32,
    min_j: i32,
    max_j: i32,
}

impl<T: Clone + Default + TernaryDefault> View for TernaryArray2D<T> {
    type V = Map<(i32, i32), T>;

    /// The cells written so far, by index pair.
    closed spec fn view(&self) -> Map<(i32, i32), T> {
        unpack2_map(self.data@)
    }
}

/// The cells of a packed two-dimensional map, by index pair.
pub open spec fn unpack2_map<T>(m: Map<i64, T>) -> Map<(i32, i32), T> {
    Map::new(
        |t: (i32, i32)| m.contains_key(pack2(t.0, t.1) as i64),
        |t: (i32, i32)| m[pack2(t.0, t.1) as i64],
    )
}

/// Writing a packed cell writes the cell of its index pair.
pub proof fn lemma_unpack2_insert<T>(m: Map<i64, T>, i: i32, j: i32, value: T)
    ensures
        unpack2_map(m.insert(pack2(i, j) as i64, value)) == unpack2_map(m).insert((i, j), value),
{
    let nv = unpack2_map(m.insert(pack2(i, j) as i64, value));
    let ov = unpack2_map(m).insert((i, j), value);
    assert forall|t: (i32, i32)| #[trigger] nv.contains_key(t) == ov.contains_key(t) && (
    nv.contains_key(t) ==> nv[t] == ov[t]) by {
        if pack2(t.0, t.1) == pack2(i, j) {
            lemma_pack2_injective(t.0, t.1, i, j);
        }
    }
    assert(nv =~= ov);
}

impl<T: Clone + Default + TernaryDefault> TernaryArray2D<T> {
    /// The bounds `(min_i, max_i, min_j, max_j)`.
    pub closed spec fn bounds(&self) -> (i32, i32, i32, i32) {
        (self.min_i, self.max_i, self.min_j, self.max_j)
    }

    /// What the cell at `(i, j)` holds: the value last written there, else the
    /// ternary zero.
    pub open spec fn cell(&self, i: i32, j: i32) -> T {
        if self@.contains_key((i, j)) {
            self@[(i, j)]
        } else {
            T::spec_ternary_default()
        }
    }

    pub open spec fn in_bounds(&self, i: i32, j: i32) -> bool {
        &&& self.bounds().0 <= i <= self.bounds().1
        &&& self.bounds().2 <= j <= self.bounds().3
    }

    pub fn new(min_i: i32, max_i: i32, min_j: i32, max_j: i32) -> (r: Self)
        ensures
            r@ == Map::<(i32, i32), T>::empty(),
            r.bounds() == (min_i, max_i, min_j, max_j),
    {
        let r = TernaryArray2D { data: HashMap::new(), min_i, max_i, min_j, max_j };
        proof {
            assert(r@ =~= Map::<(i32, i32), T>::empty());
        }
        r
    }

    /// The cell at `(i, j)`: a clone of what was written there, else the
    /// ternary zero.
    pub fn get(&self, i: i32, j: i32) -> (r: T)
        requires
            self.in_bounds(i, j),
        ensures
            cloned(self.cell(i, j), r),
            !self@.contains_key((i, j)) ==> r == T::spec_ternary_default(),
    {
        match self.data.get(&key2(i, j)) {
            Some(v) => v.clone(),
            None => T::ternary_default(),
        }
    }

    /// A mutable reference to the cell at `(i, j)`; a cell never written is
    /// first filled with the ternary zero.
    pub fn get_mut(&mut self, i: i32, j: i32) -> (r: &mut T)
        requires
            old(self).in_bounds(i, j),
        ensures
            *r == old(self).cell(i, j),
            final(self)@ == old(self)@.insert((i, j), *final(r)),
            final(self).bounds() == old(self).bounds(),
    {
        let key = key2(i, j);
        let r = self.data.entry(key).or_insert(T::ternary_default());
        proof {
            lemma_unpack2_insert(old(self).data@, i, j, *final(r));
        }
        r
    }

    pub fn set(&mut self, i: i32, j: i32, value: T)
        requires
            old(self).in_bounds(i, j),
        ensures
            final(self)@ == old(self)@.insert((i, j), value),
            final(self).bounds() == old(self).bounds(),
    {
        let key = key2(i, j);
        proof {
            lemma_unpack2_insert(self.data@, i, j, value);
        }
        self.data.insert(key, value);
    }
}

/// Sparse three-dimensional ternary array.
#[derive(Clone, Debug)]
pub struct TernaryArray3D<T: Clone + Default + TernaryDefault> {
    data: HashMap<i128, T>,
    min_i: i32,
    max_i: i32,
    min_j: i32,
    max_j: i32,
    min_k: i32,
    max_k: i32,
}

impl<T: Clone + Default + TernaryDefault> View for TernaryArray3D<T> {
    type V = Map<(i32, i32, i32), T>;

    /// The cells written so far, by index tuple.
    closed spec fn view(&self) -> Map<(i32, i32, i32), T> {
        unpack3_map(self.data@)
    }
}

/// The cells of a packed three-dimensional map, by index tuple.
pub open spec fn unpack3_map<T>(m: Map<i128, T>) -> Map<(i32, i32, i32), T> {
    Map::new(
        |t: (i32, i32, i32)| m.contains_key(pack3(t.0, t.1, t.2) as i128),
        |t: (i32, i32, i32)| m[pack3(t.0, t.1, t.2) as i128],
    )
}

/// Writing a packed cell writes the cell of its index tuple.
pub proof fn lemma_unpack3_insert<T>(m: Map<i128, T>, i: i32, j: i32, k: i32, value: T)
    ensures
        unpack3_map(m.insert(pack3(i, j, k) as i128, value)) == unpack3_map(m).insert((i, j, k), value),
{
    let nv = unpack3_map(m.insert(pack3(i, j, k) as i128, value));
    let ov = unpack3_map(m).insert((i, j, k), value);
    assert forall|t: (i32, i32, i32)| #[trigger] nv.contains_key(t) == ov.contains_key(t) && (
    nv.contains_key(t) ==> nv[t] == ov[t]) by {
        if pack3(t.0, t.1, t.2) == pack3(i, j, k) {
            lemma_pack3_injective(t.0, t.1, t.2, i, j, k);
        }
    }
    assert(nv =~= ov);
}

impl<T: Clone + Default + TernaryDefault> TernaryArray3D<T> {
    /// The bounds `(min_i, max_i, min_j, max_j, min_k, max_k)`.
    pub closed spec fn bounds(&self) -> (i32, i32, i32, i32, i32, i32) {
        (self.min_i, self.max_i, self.min_j, self.max_j, self.min_k, self.max_k)
    }

    /// What the cell at `(i, j, k)` holds: the value last written there, else the
    /// ternary zero.
    pub open spec fn cell(&self, i: i32, j: i32, k: i32) -> T {
        if self@.contains_key((i, j, k)) {
            self@[(i, j, k)]
        } else {
            T::spec_ternary_default()
        }
    }

    pub open spec fn in_bounds(&self, i: i32, j: i32, k: i32) -> bool {
        &&& self.bounds().0 <= i <= self.bounds().1
        &&& self.bounds().2 <= j <= self.bounds().3
        &&& self.bounds().4 <= k <= self.bounds().5
    }

    pub fn new(
        min_i: i32,
        max_i: i32,
        min_j: i32,
        max_j: i32,
        min_k: i32,
        max_k: i32,
    ) -> (r: Self)
        ensures
            r@ == Map::<(i32, i32, i32), T>::empty(),
            r.bounds() == (min_i, max_i, min_j, max_j, min_k, max_k),
    {
        let r = TernaryArray3D { data: HashMap::new(), min_i, max_i, min_j, max_j, min_k, max_k };
        proof {
            assert(r@ =~= Map::<(i32, i32, i32), T>::empty());
        }
        r
    }

    /// The cell at `(i, j, k)`: a clone of what was written there, else the
    /// ternary zero.
    pub fn get(&self, i: i32, j: i32, k: i32) -> (r: T)
        requires
            self.in_bounds(i, j, k),
        ensures
            cloned(self.cell(i, j, k), r),
            !self@.contains_key((i, j, k)) ==> r == T::spec_ternary_default(),
    {
        match self.data.get(&key3(i, j, k)) {
            Some(v) => v.clone(),
            None => T::ternary_default(),
        }
    }

    /// A mutable reference to the cell at `(i, j, k)`; a cell never written is
    /// first filled with the ternary zero.
    pub fn get_mut(&mut self, i: i32, j: i32, k: i32) -> (r: &mut T)
        requires
            old(self).in_bounds(i, j, k),
        ensures
            *r == old(self).cell(i, j, k),
            final(self)@ == old(self)@.insert((i, j, k), *final(r)),
            final(self).bounds() == old(self).bounds(),
    {
        let key = key3(i, j, k);
        let r = self.data.entry(key).or_insert(T::ternary_default());
        proof {
            lemma_unpack3_insert(old(self).data@, i, j, k, *final(r));
        }
        r
    }

    pub fn set(&mut self, i: i32, j: i32, k: i32, value: T)
        requires
            old(self).in_bounds(i, j, k),
        ensures
            final(self)@ == old(self)@.insert((i, j, k), value),
            final(self).bounds() == old(self).bounds(),
    {
        let key = key3(i, j, k);
        proof {
            lemma_unpack3_insert(self.data@, i, j, k, value);
        }
        self.data.insert(key, value);
    }
}

/// Sparse four-dimensional ternary array.
#[derive(Clone, Debug)]
pub struct TernaryArray4D<T: Clone + Default + TernaryDefault> {
    data: HashMap<i128, T>,
    min_a: i32,
    max_a: i32,
    min_b: i32,
    max_b: i32,
    min_c: i32,
    max_c: i32,
    min_d: i32,
    max_d: i32,
}

impl<T: Clone + Default + TernaryDefault> View for TernaryArray4D<T> {
    type V = Map<(i32, i32, i32, i32), T>;

    /// The cells written so far, by index tuple.
    closed spec fn view(&self) -> Map<(i32, i32, i32, i32), T> {
        unpack4_map(self.data@)
    }
}

/// The cells of a packed four-dimensional map, by index tuple.
pub open spec fn unpack4_map<T>(m: Map<i128, T>) -> Map<(i32, i32, i32, i32), T> {
    Map::new(
        |t: (i32, i32, i32, i32)| m.contains_key(pack4(t.0, t.1, t.2, t.3) as i128),
        |t: (i32, i32, i32, i32)| m[pack4(t.0, t.1, t.2, t.3) as i128],
    )
}

/// Writing a packed cell writes the cell of its index tuple.
pub proof fn lemma_unpack4_insert<T>(m: Map<i128, T>, a: i32, b: i32, c: i32, d: i32, value: T)
    ensures
        unpack4_map(m.insert(pack4(a, b, c, d) as i128, value)) == unpack4_map(m).insert((a, b, c, d), value),
{
    let nv = unpack4_map(m.insert(pack4(a, b, c, d) as i128, value));
    let ov = unpack4_map(m).insert((a, b, c, d), value);
    assert forall|t: (i32, i32, i32, i32)| #[trigger] nv.contains_key(t) == ov.contains_key(t) && (
    nv.contains_key(t) ==> nv[t] == ov[t]) by {
        if pack4(t.0, t.1, t.2, t.3) == pack4(a, b, c, d) {
            lemma_pack4_injective(t.0, t.1, t.2, t.3, a, b, c, d);
        }
    }
    assert(nv =~= ov);
}

impl<T: Clone + Default + TernaryDefault> TernaryArray4D<T> {
    /// The bounds `(min_a, max_a, min_b, max_b, min_c, max_c, min_d, max_d)`.
    pub closed spec fn bounds(&self) -> (i32, i32, i32, i32, i32, i32, i32, i32) {
        (self.min_a, self.max_a, self.min_b, self.max_b, self.min_c, self.max_c, self.min_d, self.max_d)
    }

    /// What the cell at `(a, b, c, d)` holds: the value last written there, else the
    /// ternary zero.
    pub open spec fn cell(&self, a: i32, b: i32, c: i32, d: i32) -> T {
        if self@.contains_key((a, b, c, d)) {
            self@[(a, b, c, d)]
        } else {
            T::spec_ternary_default()
        }
    }

    pub open spec fn in_bounds(&self, a: i32, b: i32, c: i32, d: i32) -> bool {
        &&& self.bounds().0 <= a <= self.bounds().1
        &&& self.bounds().2 <= b <= self.bounds().3
        &&& self.bounds().4 <= c <= self.bounds().5
        &&& self.bounds().6 <= d <= self.bounds().7
    }

    pub fn new(
        min_a: i32,
        max_a: i32,
        min_b: i32,
        max_b: i32,
        min_c: i32,
        max_c: i32,
        min_d: i32,
        max_d: i32,
    ) -> (r: Self)
        ensures
            r@ == Map::<(i32, i32, i32, i32), T>::empty(),
            r.bounds() == (min_a, max_a, min_b, max_b, min_c, max_c, min_d, max_d),
    {
        let r = TernaryArray4D { data: HashMap::new(), min_a, max_a, min_b, max_b, min_c, max_c, min_d, max_d };
        proof {
            assert(r@ =~= Map::<(i32, i32, i32, i32), T>::empty());
        }
        r
    }

    /// The cell at `(a, b, c, d)`: a clone of what was written there, else the
    /// ternary zero.
    pub fn get(&self, a: i32, b: i32, c: i32, d: i32) -> (r: T)
        requires
            self.in_bounds(a, b, c, d),
        ensures
            cloned(self.cell(a, b, c, d), r),
            !self@.contains_key((a, b, c, d)) ==> r == T::spec_ternary_default(),
    {
        match self.data.get(&key4(a, b, c, d)) {
            Some(v) => v.clone(),
            None => T::ternary_default(),
        }
    }

    /// A mutable reference to the cell at `(a, b, c, d)`; a cell never written is
    /// first filled with the ternary zero.
    pub fn get_mut(&mut self, a: i32, b: i32, c: i32, d: i32) -> (r: &mut T)
        requires
            old(self).in_bounds(a, b, c, d),
        ensures
            *r == old(self).cell(a, b, c, d),
            final(self)@ == old(self)@.insert((a, b, c, d), *final(r)),
            final(self).bounds() == old(self).bounds(),
    {
        let key = key4(a, b, c, d);
        let r = self.data.entry(key).or_insert(T::ternary_default());
        proof {
            lemma_unpack4_insert(old(self).data@, a, b, c, d, *final(r));
        }
        r
    }

    pub fn set(&mut self, a: i32, b: i32, c: i32, d: i32, value: T)
        requires
            old(self).in_bounds(a, b, c, d),
        ensures
            final(self)@ == old(self)@.insert((a, b, c, d), value),
            final(self).bounds() == old(self).bounds(),
    {
        let key = key4(a, b, c, d);
        proof {
            lemma_unpack4_insert(self.data@, a, b, c, d, value);
        }
        self.data.insert(key, value);
    }
}

} // verus!
