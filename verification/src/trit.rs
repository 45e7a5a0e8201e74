use vstd::prelude::*;

verus! {

/// A balanced-ternary digit: −1 (N), 0 (Z), +1 (P).
#[derive(Clone, Copy, Debug, PartialEq, Eq, Structural, Hash)]
pub enum Trit {
    N,
    Z,
    P,
}

impl Trit {
    /// The integer a trit stands for.
    pub open spec fn value(self) -> int {
        match self {
            Trit::N => -1,
            Trit::Z => 0,
            Trit::P => 1,
        }
    }

    /// The sign-inverted trit.
    pub open spec fn negated(self) -> Trit {
        match self {
            Trit::N => Trit::P,
            Trit::Z => Trit::Z,
            Trit::P => Trit::N,
        }
    }

    pub fn from_i8(v: i8) -> (r: Option<Trit>)
        ensures
            r is Some <==> -1 <= v <= 1,
            r matches Some(t) ==> t.value() == v,
    {
        match v {
            -1 => Some(Trit::N),
            0 => Some(Trit::Z),
            1 => Some(Trit::P),
            _ => None,
        }
    }

    pub fn to_i8(self) -> (r: i8)
        ensures
            r == self.value(),
    {
        match self {
            Trit::N => -1,
            Trit::Z => 0,
            Trit::P => 1,
        }
    }

    /// Sign inversion.
    pub fn neg(self) -> (r: Trit)
        ensures
            r == self.negated(),
            r.value() == -self.value(),
    {
        match self {
            Trit::N => Trit::P,
            Trit::Z => Trit::Z,
            Trit::P => Trit::N,
        }
    }

    /// Tritwise multiplication.
    pub fn mul(self, other: Trit) -> (r: Trit)
        ensures
            r.value() == self.value() * other.value(),
    {
        Trit::from_i8(self.to_i8() * other.to_i8()).unwrap()
    }

    /// Full ternary addition with carry.
    ///
    /// Returns `(sum, carry)`; the algebraic identity holds:
    /// `self + other + carry == sum + 3 * carry`.
    pub fn add(self, other: Trit, carry: Trit) -> (r: (Trit, Trit))
        ensures
            self.value() + other.value() + carry.value() == r.0.value() + 3 * r.1.value(),
    {
        match self.to_i8() + other.to_i8() + carry.to_i8() {
            -3 => (Trit::Z, Trit::N),
            -2 => (Trit::P, Trit::N),
            -1 => (Trit::N, Trit::Z),
            0 => (Trit::Z, Trit::Z),
            1 => (Trit::P, Trit::Z),
            2 => (Trit::N, Trit::P),
            _ => (Trit::Z, Trit::P),
        }
    }
}

impl Default for Trit {
    /// The derived default of the type is `N`, its first variant.
    fn default() -> (r: Trit)
        ensures
            r == Trit::N,
    {
        Trit::N
    }
}

} // verus!
