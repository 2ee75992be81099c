//! The arithmetic that the synthesizer computes with.
//!
//! The physics and the signal processing are written over any number type that offers the
//! operations of [`Real`]; a program supplies its floating-point type. No operation of the trait
//! carries a contract, so nothing proved here rests on how a number type behaves. Where a
//! contract says which number comes out, it says so in terms of the operations themselves, for
//! number types whose operations are [`deterministic`].

use vstd::prelude::*;

verus! {

/// A number type with the operations of a floating-point unit and its mathematical library.
///
/// Beside each operation stands a specification function that names its result: the number that
/// the operation returns on these operands. A number type may define it more directly.
pub trait Real: Copy {
    /// The meaning of `a + b` in specifications.
    open spec fn spec_add(self, rhs: Self) -> Self {
        choose|r: Self| call_ensures(Self::add, (self, rhs), r)
    }

    fn add(self, rhs: Self) -> Self;

    /// The meaning of `a - b` in specifications.
    open spec fn spec_sub(self, rhs: Self) -> Self {
        choose|r: Self| call_ensures(Self::sub, (self, rhs), r)
    }

    fn sub(self, rhs: Self) -> Self;

    /// The meaning of `a * b` in specifications.
    open spec fn spec_mul(self, rhs: Self) -> Self {
        choose|r: Self| call_ensures(Self::mul, (self, rhs), r)
    }

    fn mul(self, rhs: Self) -> Self;

    /// The meaning of `a / b` in specifications.
    open spec fn spec_euclidean_or_real_div(self, rhs: Self) -> Self {
        choose|r: Self| call_ensures(Self::div, (self, rhs), r)
    }

    fn div(self, rhs: Self) -> Self;

    /// The meaning of `-a` in specifications.
    open spec fn spec_neg(self) -> Self {
        choose|r: Self| call_ensures(Self::neg, (self,), r)
    }

    fn neg(self) -> Self;

    /// The meaning of `a < b` in specifications.
    open spec fn spec_lt(self, rhs: Self) -> bool {
        choose|r: bool| call_ensures(Self::lt, (self, rhs), r)
    }

    fn lt(self, rhs: Self) -> bool;

    /// The meaning of `a <= b` in specifications.
    open spec fn spec_le(self, rhs: Self) -> bool {
        choose|r: bool| call_ensures(Self::le, (self, rhs), r)
    }

    fn le(self, rhs: Self) -> bool;

    /// Whether two numbers compare equal.
    open spec fn same(self, rhs: Self) -> bool {
        choose|r: bool| call_ensures(Self::eq, (self, rhs), r)
    }

    fn eq(self, rhs: Self) -> bool;

    /// The remainder of the truncating division.
    open spec fn remainder(self, rhs: Self) -> Self {
        choose|r: Self| call_ensures(Self::rem, (self, rhs), r)
    }

    fn rem(self, rhs: Self) -> Self;

    /// The absolute value.
    open spec fn magnitude(self) -> Self {
        choose|r: Self| call_ensures(Self::abs, (self,), r)
    }

    fn abs(self) -> Self;

    /// The square root.
    open spec fn square_root(self) -> Self {
        choose|r: Self| call_ensures(Self::sqrt, (self,), r)
    }

    fn sqrt(self) -> Self;

    /// The cube root.
    open spec fn cube_root(self) -> Self {
        choose|r: Self| call_ensures(Self::cbrt, (self,), r)
    }

    fn cbrt(self) -> Self;

    /// The number raised to a whole power.
    open spec fn whole_power(self, exponent: i32) -> Self {
        choose|r: Self| call_ensures(Self::powi, (self, exponent), r)
    }

    fn powi(self, exponent: i32) -> Self;

    /// The number raised to any power.
    open spec fn power(self, exponent: Self) -> Self {
        choose|r: Self| call_ensures(Self::powf, (self, exponent), r)
    }

    fn powf(self, exponent: Self) -> Self;

    /// The exponential function.
    open spec fn exponential(self) -> Self {
        choose|r: Self| call_ensures(Self::exp, (self,), r)
    }

    fn exp(self) -> Self;

    /// The sine of an angle in radians.
    open spec fn sine(self) -> Self {
        choose|r: Self| call_ensures(Self::sin, (self,), r)
    }

    fn sin(self) -> Self;

    /// The cosine of an angle in radians.
    open spec fn cosine(self) -> Self {
        choose|r: Self| call_ensures(Self::cos, (self,), r)
    }

    fn cos(self) -> Self;

    /// The hyperbolic tangent.
    open spec fn hyperbolic_tangent(self) -> Self {
        choose|r: Self| call_ensures(Self::tanh, (self,), r)
    }

    fn tanh(self) -> Self;

    /// The smaller of two numbers.
    open spec fn lesser(self, rhs: Self) -> Self {
        choose|r: Self| call_ensures(Self::min, (self, rhs), r)
    }

    fn min(self, rhs: Self) -> Self;

    /// The larger of two numbers.
    open spec fn greater(self, rhs: Self) -> Self {
        choose|r: Self| call_ensures(Self::max, (self, rhs), r)
    }

    fn max(self, rhs: Self) -> Self;

    /// The number, held between two bounds.
    open spec fn held(self, low: Self, high: Self) -> Self {
        choose|r: Self| call_ensures(Self::clamp, (self, low, high), r)
    }

    fn clamp(self, low: Self, high: Self) -> Self;

    /// The number for the fraction `num / den`.
    open spec fn fraction(num: u64, den: u64) -> Self {
        choose|r: Self| call_ensures(Self::ratio, (num, den), r)
    }

    fn ratio(num: u64, den: u64) -> Self;

    /// The circle constant.
    open spec fn circle() -> Self {
        choose|r: Self| call_ensures(Self::pi, (), r)
    }

    fn pi() -> Self;

    /// The whole part, as a count.
    open spec fn whole(self) -> usize {
        choose|r: usize| call_ensures(Self::to_usize, (self,), r)
    }

    fn to_usize(self) -> usize;

    /// The 64-bit word that encodes the number.
    open spec fn word(self) -> u64 {
        choose|r: u64| call_ensures(Self::to_bits, (self,), r)
    }

    fn to_bits(self) -> u64;

    /// The number that a 64-bit word encodes.
    open spec fn decoded(word: u64) -> Self {
        choose|r: Self| call_ensures(Self::from_bits, (word,), r)
    }

    fn from_bits(word: u64) -> Self;
}

/// Whether every operation of `R` returns the number that its specification function names, so
/// that its result depends on the operands alone. A floating-point unit with a fixed
/// mathematical library is like that, but for the payload of a result that is not a number.
pub open spec fn deterministic<R: Real>() -> bool {
    &&& forall|a: R, b: R, r: R| #[trigger]
        call_ensures(R::add, (a, b), r) ==> r == a + b
    &&& forall|a: R, b: R, r: R| #[trigger]
        call_ensures(R::sub, (a, b), r) ==> r == a - b
    &&& forall|a: R, b: R, r: R| #[trigger]
        call_ensures(R::mul, (a, b), r) ==> r == a * b
    &&& forall|a: R, b: R, r: R| #[trigger]
        call_ensures(R::div, (a, b), r) ==> r == a / b
    &&& forall|a: R, r: R| #[trigger]
        call_ensures(R::neg, (a,), r) ==> r == -a
    &&& forall|a: R, b: R, r: bool| #[trigger]
        call_ensures(R::lt, (a, b), r) ==> r == (a < b)
    &&& forall|a: R, b: R, r: bool| #[trigger]
        call_ensures(R::le, (a, b), r) ==> r == (a <= b)
    &&& forall|a: R, b: R, r: bool| #[trigger]
        call_ensures(R::eq, (a, b), r) ==> r == a.same(b)
    &&& forall|a: R, b: R, r: R| #[trigger]
        call_ensures(R::rem, (a, b), r) ==> r == a.remainder(b)
    &&& forall|a: R, r: R| #[trigger]
        call_ensures(R::abs, (a,), r) ==> r == a.magnitude()
    &&& forall|a: R, r: R| #[trigger]
        call_ensures(R::sqrt, (a,), r) ==> r == a.square_root()
    &&& forall|a: R, r: R| #[trigger]
        call_ensures(R::cbrt, (a,), r) ==> r == a.cube_root()
    &&& forall|a: R, b: i32, r: R| #[trigger]
        call_ensures(R::powi, (a, b), r) ==> r == a.whole_power(b)
    &&& forall|a: R, b: R, r: R| #[trigger]
        call_ensures(R::powf, (a, b), r) ==> r == a.power(b)
    &&& forall|a: R, r: R| #[trigger]
        call_ensures(R::exp, (a,), r) ==> r == a.exponential()
    &&& forall|a: R, r: R| #[trigger]
        call_ensures(R::sin, (a,), r) ==> r == a.sine()
    &&& forall|a: R, r: R| #[trigger]
        call_ensures(R::cos, (a,), r) ==> r == a.cosine()
    &&& forall|a: R, r: R| #[trigger]
        call_ensures(R::tanh, (a,), r) ==> r == a.hyperbolic_tangent()
    &&& forall|a: R, b: R, r: R| #[trigger]
        call_ensures(R::min, (a, b), r) ==> r == a.lesser(b)
    &&& forall|a: R, b: R, r: R| #[trigger]
        call_ensures(R::max, (a, b), r) ==> r == a.greater(b)
    &&& forall|a: R, b: R, c: R, r: R| #[trigger]
        call_ensures(R::clamp, (a, b, c), r) ==> r == a.held(b, c)
    &&& forall|a: u64, b: u64, r: R| #[trigger]
        call_ensures(R::ratio, (a, b), r) ==> r == R::fraction(a, b)
    &&& forall|r: R| #[trigger]
        call_ensures(R::pi, (), r) ==> r == R::circle()
    &&& forall|a: R, r: usize| #[trigger]
        call_ensures(R::to_usize, (a,), r) ==> r == a.whole()
    &&& forall|a: R, r: u64| #[trigger]
        call_ensures(R::to_bits, (a,), r) ==> r == a.word()
    &&& forall|a: u64, r: R| #[trigger]
        call_ensures(R::from_bits, (a,), r) ==> r == R::decoded(a)
}

} // verus!
