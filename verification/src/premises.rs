//! What a law may ask of a number type.
//!
//! The operations of a number type carry no contract. A law that speaks of the numbers that come
//! out, and not only of the operations that lead there, names what it asks of them by one of the
//! predicates here. Each of them is a hypothesis: nothing here proves it of a number type.
//!
//! For doubles, what the predicates say of order, of words, and of the rounding of sums,
//! differences, products, quotients and fractions is IEEE 754 arithmetic that rounds to the
//! nearest. Some things go beyond it, and beyond what the documentation of the standard library
//! promises. They rest on the mathematical library in use and are not proved here:
//!
//! * that `exp` of zero and every `powf` of one are exactly one (`Zeros::kept`);
//! * that a value that is not a number keeps its payload when zero is added to it or taken from it
//!   (`Zeros::kept`), and when it is read back from its word (`faithful_words`);
//! * that no sine leaves the range from minus one to one (`Rounding::bounded_sines`);
//! * that cosines and falling exponentials are as precise as `pipe_laws::Curves` says;
//! * that squares by `powi` and cube roots by `cbrt` are as precise as `Rounding::precise_powers`
//!   says;
//! * that `sin`, `cos`, `exp`, `powf`, `powi`, `cbrt` and `tanh` give equal results for equal
//!   arguments, which `number::deterministic` asks of every operation.

use vstd::prelude::*;

use crate::exact::is_rest;
use crate::number::Real;

verus! {

/// Whether `<` and `<=` order a number type as numbers are ordered: nothing is below itself, and
/// what is at most a number is not above it.
pub open spec fn ordered<R: Real>() -> bool {
    &&& forall|a: R| !(#[trigger] a.spec_lt(a))
    &&& forall|a: R, b: R| #[trigger] a.spec_le(b) ==> !b.spec_lt(a)
}

/// Whether a number can be read back from its word.
pub open spec fn faithful_words<R: Real>() -> bool {
    forall|x: R| R::decoded(#[trigger] x.word()) == x
}

/// Whether what is held between two bounds lies between them. `x <= x` says that `x` is a number
/// at all.
pub open spec fn holds_bounds<R: Real>() -> bool {
    forall|x: R, low: R, high: R|
        x.spec_le(x) && low.spec_le(high) ==> {
            &&& low.spec_le(#[trigger] x.held(low, high))
            &&& x.held(low, high).spec_le(high)
        }
}

/// Whether `word` is the IEEE 754 double for the whole number `n`: with the exponent `e` and the
/// fraction `m` it stands for the `2^52 + m` multiple of `2^(e - 1075)`, and the word zero stands
/// for zero.
pub open spec fn is_word_of(word: u64, n: u64) -> bool {
    let e = word as int / 0x10_0000_0000_0000;
    let m = word as int % 0x10_0000_0000_0000;
    if n == 0 {
        word == 0
    } else {
        &&& 1023 <= e <= 1075
        &&& 0x10_0000_0000_0000 + m == n * vstd::arithmetic::power2::pow2((1075 - e) as nat)
    }
}

/// Whether the words of a number type are those of IEEE 754 doubles, as far as whole numbers go.
pub open spec fn double_words<R: Real>() -> bool {
    forall|word: u64, n: u64| #[trigger]
        is_word_of(word, n) ==> R::decoded(word) == #[trigger] R::fraction(n, 1)
}

/// How a number type treats zero and one: which of its numbers are finite, and which are not a
/// zero with a minus sign.
#[verifier::reject_recursive_types(R)]
pub struct Zeros<R> {
    pub finite: spec_fn(R) -> bool,
    pub unsigned: spec_fn(R) -> bool,
}

/// Whether a number is zero, of either sign.
pub open spec fn nil<R: Real>(a: R) -> bool {
    a.same(R::fraction(0, 1))
}

impl<R: Real> Zeros<R> {
    pub open spec fn is_finite(self, a: R) -> bool {
        (self.finite)(a)
    }

    pub open spec fn is_unsigned(self, a: R) -> bool {
        (self.unsigned)(a)
    }

    /// Whether zero and one are as neutral in this number type as they are in floating-point
    /// arithmetic that rounds to the nearest.
    pub open spec fn kept(self) -> bool {
        let zero = R::fraction(0, 1);
        let one = R::fraction(1, 1);
        &&& nil(zero)
        &&& self.is_unsigned(zero)
        &&& forall|n: u64, d: u64|
            d > 0 ==> self.is_finite(#[trigger] R::fraction(n, d)) && (n > 0 ==> !nil(
                R::fraction(n, d),
            ))
        &&& forall|a: R| #[trigger] nil(a) ==> self.is_finite(a)
        &&& forall|a: R| nil(a) ==> nil(#[trigger] a.spec_neg())
        &&& forall|a: R| nil(a) ==> nil(#[trigger] a.magnitude())
        &&& forall|a: R| nil(a) ==> #[trigger] a.exponential() == one
        &&& forall|a: R, b: R|
            nil(a) && self.is_finite(b) ==> nil(#[trigger] a.spec_mul(b))
        &&& forall|a: R, b: R|
            self.is_finite(a) && nil(b) ==> nil(#[trigger] a.spec_mul(b))
        &&& forall|a: R, b: R|
            nil(a) && self.is_finite(b) && !nil(b) ==> nil(
                #[trigger] a.spec_euclidean_or_real_div(b),
            )
        &&& forall|a: R, b: R|
            nil(a) && nil(b) ==> nil(#[trigger] a.spec_add(b))
        &&& forall|a: R, b: R|
            self.is_unsigned(a) && nil(b) ==> #[trigger] a.spec_add(b) == a
        &&& forall|a: R, b: R|
            self.is_unsigned(a) && nil(b) ==> #[trigger] a.spec_sub(b) == a
        &&& forall|a: R, b: R|
            self.is_unsigned(a) ==> self.is_unsigned(#[trigger] a.spec_add(b))
        &&& forall|a: R| self.is_unsigned(a) ==> #[trigger] zero.spec_add(a) == a
        &&& forall|a: R| self.is_finite(a) ==> #[trigger] a.spec_sub(a) == zero
        &&& forall|a: R| self.is_finite(a) ==> #[trigger] a.spec_mul(one) == a
        &&& forall|a: R| self.is_finite(a) ==> #[trigger] one.spec_mul(a) == a
        &&& forall|a: R|
            self.is_finite(a) && !nil(a) ==> #[trigger] a.spec_euclidean_or_real_div(a) == one
        &&& forall|a: R| #[trigger] one.power(a) == one
    }
}

/// How a number type stands for the numbers of mathematics: which of its numbers are finite and
/// what they are worth, which is the positive infinity, the unit of its rounding, and the largest
/// of its numbers.
#[verifier::reject_recursive_types(R)]
pub struct Rounding<R> {
    pub finite: spec_fn(R) -> bool,
    pub infinite: spec_fn(R) -> bool,
    pub value: spec_fn(R) -> real,
    pub unit: real,
    pub top: real,
}

impl<R: Real> Rounding<R> {
    pub open spec fn is_finite(self, a: R) -> bool {
        (self.finite)(a)
    }

    pub open spec fn is_infinite(self, a: R) -> bool {
        (self.infinite)(a)
    }

    pub open spec fn worth(self, a: R) -> real {
        (self.value)(a)
    }

    /// Whether the magnitude of `x` is finite or infinite, or `x` is no number, so that nothing is
    /// below its magnitude.
    pub open spec fn is_graded(self, x: R) -> bool {
        ||| self.is_finite(x) && self.worth(x.magnitude()) <= self.top
        ||| self.is_infinite(x.magnitude())
        ||| forall|p: R| !(#[trigger] p.spec_lt(x.magnitude()))
    }

    /// Whether `x` is zero, or positive and neither too small nor too large to be rounded well.
    pub open spec fn in_range(self, x: real) -> bool {
        x == 0real || 1real / 1000000000real <= x <= self.top
    }

    /// Whether `r` is finite and no number lies between it and `x`, as long as `x` is not a number
    /// itself: rounding never goes beyond a number.
    pub open spec fn uncrossed(self, x: real, r: R) -> bool {
        &&& self.is_finite(r)
        &&& forall|a: R| #[trigger]
            self.is_finite(a) ==> {
                &&& self.worth(a) <= x ==> self.worth(a) <= self.worth(r)
                &&& x <= self.worth(a) ==> self.worth(r) <= self.worth(a)
            }
    }

    /// Whether a result with the exact value `x` is finite.
    pub open spec fn reaches(self, x: real) -> bool {
        -self.top <= x <= self.top
    }

    /// Whether `r` is what `x` rounds to: close to it in proportion and, next to one, within half
    /// a unit; never beyond a number; and from one on, where neighbours are at least a unit apart
    /// below and two units above, the number that is nearest.
    pub open spec fn rounds(self, x: real, r: R) -> bool {
        let half = self.unit / 2real;
        let y = self.worth(r);
        &&& self.uncrossed(x, r)
        &&& y - x <= self.unit * x
        &&& x - y <= self.unit * x
        &&& 1real / 2real <= x <= 1real ==> y - x <= half && x - y <= half
        &&& forall|a: R| #[trigger]
            self.is_finite(a) ==> {
                &&& self.worth(a) >= 1real && x < self.worth(a) + self.unit ==> y
                    <= self.worth(a)
                &&& self.worth(a) >= 1real && self.worth(a) - half < x ==> self.worth(a) <= y
            }
    }

    /// Whether the number type computes with correctly rounded results: every fraction, sum,
    /// product and quotient within the range is what the exact result rounds to, and no sum,
    /// difference, product or quotient of finite size goes beyond a number. What is taken from
    /// zero, and what is taken from one and is no less than half of it, leaves an exact rest. A
    /// change of sign is exact, and what lies between two bounds is held as it is. Infinity is
    /// above everything and absorbs what is added to it. Small whole numbers are exact, and the
    /// fraction 0.999 is at most an eighth of a unit too small.
    pub open spec fn kept(self) -> bool {
        let weight = self.worth(R::fraction(999, 1000));
        let exact_weight = 999real / 1000real;
        &&& 0real < self.unit <= 1real / 1000000real
        &&& self.top >= 1000real
        &&& forall|n: u64, d: u64|
            n <= 0x20_0000_0000_0000 && 0 < d <= 0x20_0000_0000_0000 && self.in_range(
                n as real / d as real,
            ) ==> self.rounds(
                n as real / d as real,
                #[trigger] R::fraction(n, d),
            )
        &&& forall|n: u64|
            n <= 1000 ==> self.worth(#[trigger] R::fraction(n, 1)) == n as real
        &&& exact_weight - self.unit / 8real <= weight <= exact_weight
        &&& forall|a: R, b: R|
            self.is_finite(a) && self.is_finite(b) && self.in_range(self.worth(a) * self.worth(b))
                ==> self.rounds(self.worth(a) * self.worth(b), #[trigger] a.spec_mul(b))
        &&& forall|a: R, b: R|
            self.is_finite(a) && self.is_finite(b) && self.worth(b) != 0real && self.in_range(
                self.worth(a) / self.worth(b),
            ) ==> self.rounds(
                self.worth(a) / self.worth(b),
                #[trigger] a.spec_euclidean_or_real_div(b),
            )
        &&& forall|a: R, b: R|
            self.is_finite(a) && self.is_finite(b) && self.in_range(self.worth(a) + self.worth(b))
                ==> self.rounds(self.worth(a) + self.worth(b), #[trigger] a.spec_add(b))
        &&& forall|a: R, b: R|
            self.is_finite(a) && self.is_finite(b) && self.reaches(self.worth(a) * self.worth(b))
                ==> self.uncrossed(self.worth(a) * self.worth(b), #[trigger] a.spec_mul(b))
        &&& forall|a: R, b: R|
            self.is_finite(a) && self.is_finite(b) && self.reaches(self.worth(a) + self.worth(b))
                ==> self.uncrossed(self.worth(a) + self.worth(b), #[trigger] a.spec_add(b))
        &&& forall|a: R, b: R|
            self.is_finite(a) && self.is_finite(b) && self.reaches(self.worth(a) - self.worth(b))
                ==> self.uncrossed(self.worth(a) - self.worth(b), #[trigger] a.spec_sub(b))
        &&& forall|a: R, b: R|
            self.is_finite(a) && self.is_finite(b) && self.worth(b) != 0real && self.reaches(
                self.worth(a) / self.worth(b),
            ) ==> self.uncrossed(
                self.worth(a) / self.worth(b),
                #[trigger] a.spec_euclidean_or_real_div(b),
            )
        &&& forall|a: R| #[trigger] self.is_finite(a) ==> self.reaches(self.worth(a))
        &&& forall|a: R|
            self.is_finite(a) ==> self.is_finite(#[trigger] a.spec_neg()) && self.worth(
                a.spec_neg(),
            ) == -self.worth(a)
        &&& forall|x: R, low: R, high: R|
            self.is_finite(x) && self.is_finite(low) && self.is_finite(high) && self.worth(low)
                <= self.worth(x) <= self.worth(high) ==> #[trigger] x.held(low, high) == x
        &&& forall|a: R|
            self.is_finite(a) ==> self.worth(#[trigger] R::fraction(0, 1).spec_sub(a))
                == -self.worth(a)
        &&& forall|a: R|
            self.is_finite(a) && 1real / 2real <= self.worth(a) <= 1real ==> self.worth(
                #[trigger] R::fraction(1, 1).spec_sub(a),
            ) == 1real - self.worth(a)
        &&& forall|a: R, b: R|
            self.is_finite(a) && self.is_finite(b) ==> {
                &&& self.is_finite(#[trigger] a.lesser(b))
                &&& self.worth(a.lesser(b)) == if self.worth(a) < self.worth(b) {
                    self.worth(a)
                } else {
                    self.worth(b)
                }
            }
        &&& forall|a: R, b: R|
            self.is_finite(a) && self.is_finite(b) ==> {
                &&& self.is_finite(#[trigger] a.greater(b))
                &&& self.worth(a.greater(b)) == if self.worth(a) < self.worth(b) {
                    self.worth(b)
                } else {
                    self.worth(a)
                }
            }
        &&& forall|a: R, b: R|
            self.is_finite(a) && self.is_finite(b) ==> #[trigger] a.spec_lt(b) == (self.worth(a)
                < self.worth(b))
        &&& forall|a: R|
            self.is_finite(a) ==> {
                &&& self.is_finite(#[trigger] a.magnitude())
                &&& self.worth(a.magnitude()) == if self.worth(a) < 0real {
                    -self.worth(a)
                } else {
                    self.worth(a)
                }
            }
        &&& forall|x: R| #[trigger] self.is_graded(x)
        &&& forall|a: R, b: R| self.is_infinite(a) ==> !(#[trigger] a.spec_lt(b))
        &&& forall|a: R, b: R|
            self.is_infinite(a) && self.is_finite(b) && self.worth(b) > 0real ==> self.is_infinite(
                #[trigger] a.spec_mul(b),
            )
        &&& forall|a: R, b: R|
            self.is_infinite(a) && self.is_finite(b) ==> self.is_infinite(#[trigger] a.spec_add(b))
        &&& self.is_finite(R::circle())
        &&& 3real <= self.worth(R::circle()) <= 4real
    }

    /// Whether `y` differs from `x`, which is not negative, by at most so many units of `x`.
    pub open spec fn near(self, units: real, x: real, y: real) -> bool {
        let most = units * (self.unit * x);
        -most <= y - x <= most
    }

    /// Whether large readings, of up to a million, are finite numbers.
    pub open spec fn roomy(self) -> bool {
        self.top >= 1000000real
    }

    /// Whether remainders are exact: whole multiples of the divisor are taken off, and what is
    /// left is smaller than it and on the same side of zero as before.
    pub open spec fn exact_remainders(self) -> bool {
        forall|a: R, b: R|
            self.is_finite(a) && self.is_finite(b) && self.worth(b) > 0real ==> {
                let rest = #[trigger] a.remainder(b);
                &&& self.is_finite(rest)
                &&& exists|k: int| #[trigger]
                    is_rest(k, self.worth(a), self.worth(b), self.worth(rest))
            }
    }

    /// Whether every sine is a number between minus one and one.
    pub open spec fn bounded_sines(self) -> bool {
        forall|a: R|
            self.is_finite(a) ==> {
                &&& self.is_finite(#[trigger] a.sine())
                &&& -1real <= self.worth(a.sine()) <= 1real
            }
    }

    /// Whether the whole part of a number that is not negative leaves out less than one.
    pub open spec fn whole_parts(self) -> bool {
        forall|a: R|
            self.is_finite(a) && 0real <= self.worth(a) <= 1000000real ==> {
                let n = #[trigger] a.whole();
                n as real <= self.worth(a) < n as real + 1real
            }
    }

    /// Whether squares and cube roots are precise to a few units: a square differs from the exact
    /// one by at most eight, and so does the cube of a cube root from the number it was taken of.
    pub open spec fn precise_powers(self) -> bool {
        &&& forall|a: R|
            self.is_finite(a) && self.in_range(self.worth(a) * self.worth(a)) ==> {
                &&& self.is_finite(#[trigger] a.whole_power(2))
                &&& self.near(8real, self.worth(a) * self.worth(a), self.worth(a.whole_power(2)))
            }
        &&& forall|a: R|
            self.is_finite(a) && 1real / 1000real <= self.worth(a) <= 1000real ==> {
                let s = self.worth(#[trigger] a.cube_root());
                &&& self.is_finite(a.cube_root())
                &&& 0real < s
                &&& self.near(8real, self.worth(a), s * s * s)
            }
    }
}

} // verus!
